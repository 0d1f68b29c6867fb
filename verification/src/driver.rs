//! Values read by drivers and the write requests sent to them.
use vstd::prelude::*;

use crate::json::{push_key, push_quoted, push_text, quoted};
use crate::tag::{QualityCode, TagValueData};
use crate::json_doc::{
    json_object_fields, object_fields, string_at, string_field_of,
};
use crate::text::{chars_of, owned, string_of};

verus! {

/// A value as a driver read it, before the tag server numbers it.
#[derive(Debug, Clone)]
pub struct RawDriverValue {
    pub tag_id: String,
    pub value: TagValueData,
    pub quality: QualityCode,
    pub source_timestamp: String,
    pub driver_id: String,
    pub endpoint_id: String,
}

/// A write that the tag server asks a driver to perform.
#[derive(Debug, Clone, PartialEq, Eq)]
pub struct DriverWriteRequest {
    pub command_id: String,
    pub tag_id: String,
    pub value: String,
}

/// A driver's answer to a write request.
#[derive(Debug, Clone, PartialEq, Eq)]
pub struct DriverWriteResponse {
    pub command_id: String,
    pub accepted: bool,
    pub message: String,
}

impl DriverWriteResponse {
    pub fn accepted(command_id: &str) -> (r: DriverWriteResponse)
        ensures
            r.command_id@ == command_id@,
            r.accepted,
            r.message@ == "accepted"@,
    {
        DriverWriteResponse {
            command_id: owned(command_id),
            accepted: true,
            message: owned("accepted"),
        }
    }

    pub fn rejected(command_id: &str, message: &str) -> (r: DriverWriteResponse)
        ensures
            r.command_id@ == command_id@,
            !r.accepted,
            r.message@ == message@,
    {
        DriverWriteResponse {
            command_id: owned(command_id),
            accepted: false,
            message: owned(message),
        }
    }
}

/// `{"command_id":…,"tag_id":…,"value":…}`.
pub open spec fn request_text_of(command_id: Seq<char>, tag_id: Seq<char>, value: Seq<char>) -> Seq<char> {
    "{\"command_id\":"@ + quoted(command_id) + ",\"tag_id\":"@ + quoted(tag_id) + ",\"value\":"@
        + quoted(value) + "}"@
}

/// The JSON text of a write request.
pub open spec fn write_request_json(r: DriverWriteRequest) -> Seq<char> {
    request_text_of(r.command_id@, r.tag_id@, r.value@)
}

/// `{"command_id":…,"accepted":…,"message":…}`.
pub open spec fn response_text_of(command_id: Seq<char>, accepted: bool, message: Seq<char>) -> Seq<char> {
    "{\"command_id\":"@ + quoted(command_id) + ",\"accepted\":"@ + (if accepted {
        "true"@
    } else {
        "false"@
    }) + ",\"message\":"@ + quoted(message) + "}"@
}

/// The JSON text of a write response.
pub open spec fn write_response_json(r: DriverWriteResponse) -> Seq<char> {
    response_text_of(r.command_id@, r.accepted, r.message@)
}

/// The JSON text of a driver write request.
pub fn driver_write_request_to_json(request: &DriverWriteRequest) -> (r: String)
    ensures
        r@ == write_request_json(*request),
{
    let mut out: Vec<char> = Vec::new();
    push_text(&mut out, "{\"command_id\":");
    let a = chars_of(request.command_id.as_str());
    push_quoted(&mut out, a.as_slice());
    push_text(&mut out, ",\"tag_id\":");
    let b = chars_of(request.tag_id.as_str());
    push_quoted(&mut out, b.as_slice());
    push_text(&mut out, ",\"value\":");
    let c = chars_of(request.value.as_str());
    push_quoted(&mut out, c.as_slice());
    push_text(&mut out, "}");
    assert(out@ =~= write_request_json(*request));
    string_of(out.as_slice())
}

/// The JSON text of a driver write response.
pub fn driver_write_response_to_json(response: &DriverWriteResponse) -> (r: String)
    ensures
        r@ == write_response_json(*response),
{
    let mut out: Vec<char> = Vec::new();
    push_text(&mut out, "{\"command_id\":");
    let a = chars_of(response.command_id.as_str());
    push_quoted(&mut out, a.as_slice());
    push_text(&mut out, ",\"accepted\":");
    if response.accepted {
        push_text(&mut out, "true");
    } else {
        push_text(&mut out, "false");
    }
    push_text(&mut out, ",\"message\":");
    let c = chars_of(response.message.as_str());
    push_quoted(&mut out, c.as_slice());
    push_text(&mut out, "}");
    assert(out@ =~= write_response_json(*response));
    string_of(out.as_slice())
}

/// `{"tag_id":…,"value":…,"data_type":…,"quality":…,"source_timestamp":…,"driver_id":…,"endpoint_id":…}`.
pub open spec fn raw_value_json(v: RawDriverValue) -> Seq<char> {
    "{\"tag_id\":"@ + quoted(v.tag_id@) + ",\"value\":"@ + v.value.json_text()
        + ",\"data_type\":"@ + quoted(v.value.spec_data_type().name()) + ",\"quality\":"@
        + quoted(v.quality.name()) + ",\"source_timestamp\":"@ + quoted(v.source_timestamp@)
        + ",\"driver_id\":"@ + quoted(v.driver_id@) + ",\"endpoint_id\":"@ + quoted(
        v.endpoint_id@,
    ) + "}"@
}

fn push_quoted_str(out: &mut Vec<char>, s: &str)
    ensures
        final(out)@ == old(out)@ + quoted(s@),
{
    let cs = chars_of(s);
    push_quoted(out, cs.as_slice());
}

/// The JSON text of a raw driver value, one line of the driver's output.
pub fn raw_driver_value_to_json(value: &RawDriverValue) -> (r: String)
    ensures
        r@ == raw_value_json(*value),
{
    let mut out: Vec<char> = Vec::new();
    push_text(&mut out, "{\"tag_id\":");
    push_quoted_str(&mut out, value.tag_id.as_str());
    push_text(&mut out, ",\"value\":");
    value.value.push_json(&mut out);
    let ghost s1 = out@;
    push_text(&mut out, ",\"data_type\":");
    let dt = value.value.data_type();
    push_quoted_str(&mut out, dt.as_str());
    push_text(&mut out, ",\"quality\":");
    push_quoted_str(&mut out, value.quality.as_str());
    push_text(&mut out, ",\"source_timestamp\":");
    push_quoted_str(&mut out, value.source_timestamp.as_str());
    let ghost s2 = out@;
    push_text(&mut out, ",\"driver_id\":");
    push_quoted_str(&mut out, value.driver_id.as_str());
    push_text(&mut out, ",\"endpoint_id\":");
    push_quoted_str(&mut out, value.endpoint_id.as_str());
    push_text(&mut out, "}");
    assert(out@ =~= raw_value_json(*value));
    string_of(out.as_slice())
}

/// The driver write response that the JSON object `text` holds: its `command_id` and
/// `message` strings and its `accepted` boolean, or the first of them that is missing.
pub open spec fn write_response_from_json(text: Seq<char>) -> Result<(Seq<char>, bool, Seq<char>), Seq<char>> {
    match json_object_fields(text) {
        None => Err("driver write response must be a JSON object"@),
        Some(fields) => {
            let id = string_at(fields, "command_id"@);
            let accepted = crate::json_doc::bool_at(fields, "accepted"@);
            let message = string_at(fields, "message"@);
            if id is None {
                Err("missing or invalid command_id"@)
            } else if accepted is None {
                Err("missing or invalid accepted"@)
            } else if message is None {
                Err("missing or invalid message"@)
            } else {
                Ok((id->0, accepted->0, message->0))
            }
        },
    }
}

/// Reads a driver's answer to a write request from its JSON text.
pub fn driver_write_response_from_json_str(text: &str) -> (r: Result<DriverWriteResponse, String>)
    ensures
        match r {
            Ok(v) => write_response_from_json(text@) == Ok::<(Seq<char>, bool, Seq<char>), Seq<char>>(
                (v.command_id@, v.accepted, v.message@),
            ),
            Err(e) => write_response_from_json(text@) == Err::<(Seq<char>, bool, Seq<char>), Seq<char>>(e@),
        },
{
    proof {
        reveal_strlit("command_id");
        reveal_strlit("accepted");
        reveal_strlit("message");
    }
    let fields = match object_fields(text) {
        Some(f) => f,
        None => {
            return Err(owned("driver write response must be a JSON object"));
        },
    };
    let id = string_field_of(&fields, "command_id");
    let accepted = crate::json_doc::bool_field_of(&fields, "accepted");
    let message = string_field_of(&fields, "message");
    match (id, accepted, message) {
        (None, _, _) => Err(owned("missing or invalid command_id")),
        (Some(_), None, _) => Err(owned("missing or invalid accepted")),
        (Some(_), Some(_), None) => Err(owned("missing or invalid message")),
        (Some(command_id), Some(accepted), Some(message)) => Ok(
            DriverWriteResponse { command_id, accepted, message },
        ),
    }
}

} // verus!
