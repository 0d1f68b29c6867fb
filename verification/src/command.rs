//! Control commands and their status lifecycle.
use vstd::prelude::*;

use crate::text::owned;

verus! {

/// Where a control command stands in its lifecycle.
#[derive(Debug, Clone, PartialEq, Eq, Structural)]
pub enum ControlCommandStatus {
    Requested,
    Accepted,
    Validated,
    Sent,
    DriverAck,
    DeviceAck,
    Verified,
    Timeout,
    Failed,
    Rejected,
}

impl ControlCommandStatus {
    /// The name of the status, as it appears on the wire and in logs.
    pub open spec fn name(self) -> Seq<char> {
        match self {
            ControlCommandStatus::Requested => "Requested"@,
            ControlCommandStatus::Accepted => "Accepted"@,
            ControlCommandStatus::Validated => "Validated"@,
            ControlCommandStatus::Sent => "Sent"@,
            ControlCommandStatus::DriverAck => "DriverAck"@,
            ControlCommandStatus::DeviceAck => "DeviceAck"@,
            ControlCommandStatus::Verified => "Verified"@,
            ControlCommandStatus::Timeout => "Timeout"@,
            ControlCommandStatus::Failed => "Failed"@,
            ControlCommandStatus::Rejected => "Rejected"@,
        }
    }

    /// A command in this status has finished and will not change again.
    pub open spec fn terminal(self) -> bool {
        match self {
            ControlCommandStatus::Verified | ControlCommandStatus::Timeout
            | ControlCommandStatus::Failed | ControlCommandStatus::Rejected => true,
            _ => false,
        }
    }

    pub fn as_str(&self) -> (s: &'static str)
        ensures
            s@ == self.name(),
    {
        match self {
            ControlCommandStatus::Requested => "Requested",
            ControlCommandStatus::Accepted => "Accepted",
            ControlCommandStatus::Validated => "Validated",
            ControlCommandStatus::Sent => "Sent",
            ControlCommandStatus::DriverAck => "DriverAck",
            ControlCommandStatus::DeviceAck => "DeviceAck",
            ControlCommandStatus::Verified => "Verified",
            ControlCommandStatus::Timeout => "Timeout",
            ControlCommandStatus::Failed => "Failed",
            ControlCommandStatus::Rejected => "Rejected",
        }
    }

    pub fn is_terminal(&self) -> (b: bool)
        ensures
            b == self.terminal(),
    {
        match self {
            ControlCommandStatus::Verified | ControlCommandStatus::Timeout
            | ControlCommandStatus::Failed | ControlCommandStatus::Rejected => true,
            _ => false,
        }
    }

    /// A copy of this status.
    pub fn copied(&self) -> (r: ControlCommandStatus)
        ensures
            r == *self,
    {
        match self {
            ControlCommandStatus::Requested => ControlCommandStatus::Requested,
            ControlCommandStatus::Accepted => ControlCommandStatus::Accepted,
            ControlCommandStatus::Validated => ControlCommandStatus::Validated,
            ControlCommandStatus::Sent => ControlCommandStatus::Sent,
            ControlCommandStatus::DriverAck => ControlCommandStatus::DriverAck,
            ControlCommandStatus::DeviceAck => ControlCommandStatus::DeviceAck,
            ControlCommandStatus::Verified => ControlCommandStatus::Verified,
            ControlCommandStatus::Timeout => ControlCommandStatus::Timeout,
            ControlCommandStatus::Failed => ControlCommandStatus::Failed,
            ControlCommandStatus::Rejected => ControlCommandStatus::Rejected,
        }
    }
}

/// A request to write a value to a tag, with its lifecycle status.
#[derive(Debug, Clone)]
pub struct ControlCommand {
    pub command_id: String,
    pub idempotency_key: String,
    pub user_id: String,
    pub tag_id: String,
    pub requested_value: String,
    pub status: ControlCommandStatus,
    pub requested_at: String,
    pub timeout_ms: u64,
}

impl ControlCommand {
    /// A newly requested command.
    pub fn requested(
        command_id: &str,
        idempotency_key: &str,
        user_id: &str,
        tag_id: &str,
        requested_value: &str,
        requested_at: &str,
        timeout_ms: u64,
    ) -> (c: ControlCommand)
        ensures
            c.command_id@ == command_id@,
            c.idempotency_key@ == idempotency_key@,
            c.user_id@ == user_id@,
            c.tag_id@ == tag_id@,
            c.requested_value@ == requested_value@,
            c.status == ControlCommandStatus::Requested,
            c.requested_at@ == requested_at@,
            c.timeout_ms == timeout_ms,
    {
        ControlCommand {
            command_id: owned(command_id),
            idempotency_key: owned(idempotency_key),
            user_id: owned(user_id),
            tag_id: owned(tag_id),
            requested_value: owned(requested_value),
            status: ControlCommandStatus::Requested,
            requested_at: owned(requested_at),
            timeout_ms,
        }
    }

    /// Moves the command to `status`; every other field stays as it was.
    pub fn transition_to(&mut self, status: ControlCommandStatus)
        ensures
            final(self).status == status,
            final(self).command_id == old(self).command_id,
            final(self).idempotency_key == old(self).idempotency_key,
            final(self).user_id == old(self).user_id,
            final(self).tag_id == old(self).tag_id,
            final(self).requested_value == old(self).requested_value,
            final(self).requested_at == old(self).requested_at,
            final(self).timeout_ms == old(self).timeout_ms,
    {
        self.status = status;
    }
}

} // verus!
