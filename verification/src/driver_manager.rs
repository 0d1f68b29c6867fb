//! Turning raw driver values into numbered tag values, and applying driver answers to
//! control commands.
use vstd::prelude::*;

use crate::command::{ControlCommand, ControlCommandStatus};
use crate::driver::{DriverWriteResponse, RawDriverValue};
use crate::tag::TagValue;
use crate::text::owned;

verus! {

/// Moves a command to `DriverAck` when the driver accepted the write, to `Failed` otherwise.
pub fn apply_driver_write_response(command: &mut ControlCommand, response: &DriverWriteResponse)
    ensures
        final(command).status == if response.accepted {
            ControlCommandStatus::DriverAck
        } else {
            ControlCommandStatus::Failed
        },
        final(command).command_id == old(command).command_id,
        final(command).idempotency_key == old(command).idempotency_key,
        final(command).user_id == old(command).user_id,
        final(command).tag_id == old(command).tag_id,
        final(command).requested_value == old(command).requested_value,
        final(command).requested_at == old(command).requested_at,
        final(command).timeout_ms == old(command).timeout_ms,
{
    if response.accepted {
        command.transition_to(ControlCommandStatus::DriverAck);
    } else {
        command.transition_to(ControlCommandStatus::Failed);
    }
}

/// Numbers raw driver values in arrival order and stamps them with the server's settings.
#[derive(Debug, Clone)]
pub struct ValueNormalizer {
    sequence: u64,
    scan_interval_ms: u64,
    stale_after_ms: u64,
}

impl ValueNormalizer {
    /// The sequence number of the last value normalized, `0` before the first.
    pub closed spec fn last_sequence(self) -> u64 {
        self.sequence
    }

    pub closed spec fn scan_interval(self) -> u64 {
        self.scan_interval_ms
    }

    pub closed spec fn stale_after(self) -> u64 {
        self.stale_after_ms
    }

    pub fn new(scan_interval_ms: u64, stale_after_ms: u64) -> (n: ValueNormalizer)
        ensures
            n.last_sequence() == 0,
            n.scan_interval() == scan_interval_ms,
            n.stale_after() == stale_after_ms,
    {
        ValueNormalizer { sequence: 0, scan_interval_ms, stale_after_ms }
    }

    /// The tag value for `raw`, numbered one past the last value normalized.
    pub fn normalize(&mut self, raw: RawDriverValue, server_timestamp: &str) -> (v: TagValue)
        requires
            old(self).last_sequence() < u64::MAX,
        ensures
            final(self).last_sequence() == old(self).last_sequence() + 1,
            final(self).scan_interval() == old(self).scan_interval(),
            final(self).stale_after() == old(self).stale_after(),
            v.sequence == final(self).last_sequence(),
            v.tag_id == raw.tag_id,
            v.value == raw.value,
            v.quality == raw.quality,
            v.source_timestamp == raw.source_timestamp,
            v.server_timestamp@ == server_timestamp@,
            v.scan_interval_ms == old(self).scan_interval(),
            v.stale_after_ms == old(self).stale_after(),
            v.driver_id == raw.driver_id,
            v.endpoint_id == raw.endpoint_id,
            v.read_status@ == "ok"@,
            v.write_status@ == "idle"@,
    {
        self.sequence = self.sequence + 1;
        TagValue {
            tag_id: raw.tag_id,
            value: raw.value,
            quality: raw.quality,
            source_timestamp: raw.source_timestamp,
            server_timestamp: owned(server_timestamp),
            sequence: self.sequence,
            scan_interval_ms: self.scan_interval_ms,
            stale_after_ms: self.stale_after_ms,
            driver_id: raw.driver_id,
            endpoint_id: raw.endpoint_id,
            read_status: owned("ok"),
            write_status: owned("idle"),
        }
    }
}

} // verus!
