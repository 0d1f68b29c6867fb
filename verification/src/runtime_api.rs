//! The preview runtime's API: control commands checked and forwarded to the tag server,
//! screens projected on a snapshot of the tag server, and tag value deltas.
use vstd::prelude::*;
use vstd::string::StrSliceExecFns;

use crate::http::{header_value, header_views, without_query, HeaderList};
use crate::json::{push_all, push_text};
use crate::json_doc::{
    field_of, get_field, is_null, json_array_elements, json_is_null, json_object_fields, json_quoted, json_string_value,
    json_syntax_error, object_fields, pair_views, quote, string_at, string_value, string_views,
    syntax_error, u64_at,
};
use crate::mqtt::topic4;
use crate::runtime_http::{
    client_response_of, error_text, parse_http_response, runtime_error_json, runtime_error_object,
    runtime_reason_of, RuntimeClientError, RuntimeHttpRequest, RuntimeHttpResponse, TagServerClient,
};
use crate::runtime_json::{
    definition_fault, definition_read, first_missing_string, runtime_value_from_json,
    runtime_value_text_fault, runtime_value_text_read, screen_definition_from_json, snapshot_fault,
    snapshot_from_json, snapshot_read,
};
use crate::screen::{
    project_snapshot_to_screen, resolve_tag_ids_from_screen, ObjectBindingState,
    RuntimeDeltaMessage, RuntimeTagValue, ScreenDefinition, ScreenObjectState, ScreenProjection,
    TagSnapshot,
};
use crate::tag_json::missing;
use crate::tag_server::json_type;
use crate::text::{chars_of, decimal, owned, str_eq, string_of, trim, trim_str, u64_text};

verus! {

/// A control command as the runtime receives and forwards it; `requested_value` is the
/// compact JSON text of the requested value.
#[derive(Debug, Clone, PartialEq, Eq)]
pub struct RuntimeControlCommandRequest {
    pub command_id: String,
    pub idempotency_key: String,
    pub user_id: String,
    pub tag_id: String,
    pub requested_value: String,
    pub status: String,
    pub requested_at: String,
    pub timeout_ms: u64,
}

/// Which screen to project; the default screen where none is named.
#[derive(Debug, Clone, PartialEq, Eq)]
pub struct RuntimeScreenProjectionRequest {
    pub screen_path: Option<String>,
}

/// The body of a snapshot request.
#[derive(Debug, Clone, PartialEq, Eq)]
pub struct TagSnapshotRequest {
    pub project_id: String,
    pub tag_ids: Vec<String>,
}

/// Where the runtime reads tag value deltas.
#[derive(Debug)]
pub struct MqttConnectionConfig {
    pub endpoint: crate::mqtt::MqttBrokerEndpoint,
    pub client_id: String,
    pub timeout: std::time::Duration,
}

/// The texts and number of a control command.
pub type CommandParts = (Seq<char>, Seq<char>, Seq<char>, Seq<char>, Seq<char>, Seq<char>, Seq<char>, u64);

/// The parts of a command.
pub open spec fn command_parts(c: RuntimeControlCommandRequest) -> CommandParts {
    (
        c.command_id@,
        c.idempotency_key@,
        c.user_id@,
        c.tag_id@,
        c.requested_value@,
        c.status@,
        c.requested_at@,
        c.timeout_ms,
    )
}

/// Why the entries of a control command object do not describe one, if they do not.
pub open spec fn command_fault(f: Seq<(Seq<char>, Seq<char>)>) -> Option<Seq<char>> {
    match first_missing_string(f, seq!["command_id"@, "idempotency_key"@, "user_id"@, "tag_id"@]) {
        Some(m) => Some(m),
        None => if field_of(f, "requested_value"@) is None {
            Some(missing("requested_value"@))
        } else {
            match first_missing_string(f, seq!["status"@, "requested_at"@]) {
                Some(m) => Some(m),
                None => if u64_at(f, "timeout_ms"@) is None {
                    Some(missing("timeout_ms"@))
                } else {
                    None
                },
            }
        },
    }
}

/// The command a control command body holds, or why it holds none.
pub open spec fn command_of(body: Seq<char>) -> Result<CommandParts, Seq<char>> {
    let prefix = "invalid control command JSON: "@;
    match json_syntax_error(body) {
        Some(m) => Err(prefix + m),
        None => match json_object_fields(body) {
            None => Err(prefix + crate::runtime_json::not_object()),
            Some(f) => match command_fault(f) {
                Some(m) => Err(prefix + m),
                None => Ok(
                    (
                        string_at(f, "command_id"@)->0,
                        string_at(f, "idempotency_key"@)->0,
                        string_at(f, "user_id"@)->0,
                        string_at(f, "tag_id"@)->0,
                        field_of(f, "requested_value"@)->0,
                        string_at(f, "status"@)->0,
                        string_at(f, "requested_at"@)->0,
                        u64_at(f, "timeout_ms"@)->0,
                    ),
                ),
            },
        },
    }
}

fn prefixed(prefix: &str, m: &str) -> (r: String)
    ensures
        r@ == prefix@ + m@,
{
    let mut out: Vec<char> = Vec::new();
    push_text(&mut out, prefix);
    push_text(&mut out, m);
    string_of(out.as_slice())
}

fn entry_text(fields: &Vec<(String, String)>, key: &str) -> (r: Result<String, String>)
    ensures
        match r {
            Ok(s) => string_at(pair_views(fields@), key@) == Some(s@),
            Err(e) => string_at(pair_views(fields@), key@) is None && e@ == missing(key@),
        },
{
    match crate::json_doc::string_field_of(fields, key) {
        Some(s) => Ok(s),
        None => {
            let mut out: Vec<char> = Vec::new();
            push_text(&mut out, "missing or invalid ");
            push_text(&mut out, key);
            Err(string_of(out.as_slice()))
        },
    }
}

#[verifier::rlimit(60)]
fn command_from_fields(fields: &Vec<(String, String)>) -> (r: Result<RuntimeControlCommandRequest, String>)
    ensures
        match r {
            Ok(c) => command_fault(pair_views(fields@)) is None && ({
                let f = pair_views(fields@);
                command_parts(c) == (
                    string_at(f, "command_id"@)->0,
                    string_at(f, "idempotency_key"@)->0,
                    string_at(f, "user_id"@)->0,
                    string_at(f, "tag_id"@)->0,
                    field_of(f, "requested_value"@)->0,
                    string_at(f, "status"@)->0,
                    string_at(f, "requested_at"@)->0,
                    u64_at(f, "timeout_ms"@)->0,
                )
            }),
            Err(e) => command_fault(pair_views(fields@)) == Some(e@),
        },
{
    proof {
        reveal_with_fuel(first_missing_string, 5);
    }
    let command_id = match entry_text(fields, "command_id") {
        Ok(x) => x,
        Err(e) => {
            return Err(e);
        },
    };
    let idempotency_key = match entry_text(fields, "idempotency_key") {
        Ok(x) => x,
        Err(e) => {
            return Err(e);
        },
    };
    let user_id = match entry_text(fields, "user_id") {
        Ok(x) => x,
        Err(e) => {
            return Err(e);
        },
    };
    let tag_id = match entry_text(fields, "tag_id") {
        Ok(x) => x,
        Err(e) => {
            return Err(e);
        },
    };
    let requested_value = match get_field(fields, "requested_value") {
        Some(x) => x,
        None => {
            return Err(prefixed("missing or invalid ", "requested_value"));
        },
    };
    let status = match entry_text(fields, "status") {
        Ok(x) => x,
        Err(e) => {
            return Err(e);
        },
    };
    let requested_at = match entry_text(fields, "requested_at") {
        Ok(x) => x,
        Err(e) => {
            return Err(e);
        },
    };
    let timeout_ms = match crate::json_doc::u64_field_of(fields, "timeout_ms") {
        Some(x) => x,
        None => {
            return Err(prefixed("missing or invalid ", "timeout_ms"));
        },
    };
    Ok(
        RuntimeControlCommandRequest {
            command_id,
            idempotency_key,
            user_id,
            tag_id,
            requested_value,
            status,
            requested_at,
            timeout_ms,
        },
    )
}

/// Reads a control command from a request body.
pub fn control_command_from_json(body: &str) -> (r: Result<RuntimeControlCommandRequest, String>)
    ensures
        match r {
            Ok(c) => command_of(body@) == Ok::<CommandParts, Seq<char>>(command_parts(c)),
            Err(e) => command_of(body@) == Err::<CommandParts, Seq<char>>(e@),
        },
{
    if let Some(m) = syntax_error(body) {
        return Err(prefixed("invalid control command JSON: ", m.as_str()));
    }
    let fields = match object_fields(body) {
        None => {
            return Err(prefixed("invalid control command JSON: ", "expected a JSON object"));
        },
        Some(f) => f,
    };
    match command_from_fields(&fields) {
        Ok(c) => Ok(c),
        Err(m) => Err(prefixed("invalid control command JSON: ", m.as_str())),
    }
}

/// Why a command cannot be forwarded as a new command, if it cannot.
pub open spec fn command_problem(c: CommandParts) -> Option<Seq<char>> {
    if c.0.len() == 0 {
        Some("command_id must not be empty"@)
    } else if c.1.len() == 0 {
        Some("idempotency_key must not be empty"@)
    } else if c.2.len() == 0 {
        Some("user_id must not be empty"@)
    } else if c.3.len() == 0 {
        Some("tag_id must not be empty"@)
    } else if c.5 != "Requested"@ {
        Some("status must be Requested for a new runtime command"@)
    } else if c.6.len() == 0 {
        Some("requested_at must not be empty"@)
    } else if c.7 == 0 {
        Some("timeout_ms must be greater than zero"@)
    } else {
        None
    }
}

/// A command is forwarded as new only where its status is exactly `Requested`: with any
/// other status it is refused, with the status message once its id fields are filled in;
/// and a command with its fields filled in, status `Requested` and a positive timeout is
/// accepted.
pub proof fn only_requested_commands_are_new(c: RuntimeControlCommandRequest)
    ensures
        c.status@ != "Requested"@ ==> command_problem(command_parts(c)) is Some,
        c.status@ != "Requested"@ && c.command_id@.len() > 0 && c.idempotency_key@.len() > 0 && c.user_id@.len() > 0
            && c.tag_id@.len() > 0 ==> command_problem(command_parts(c)) == Some(
            "status must be Requested for a new runtime command"@,
        ),
        command_problem(command_parts(c)) is None <==> (c.command_id@.len() > 0 && c.idempotency_key@.len() > 0
            && c.user_id@.len() > 0 && c.tag_id@.len() > 0 && c.status@ == "Requested"@ && c.requested_at@.len() > 0
            && c.timeout_ms > 0),
{
}

fn is_empty(s: &String) -> (b: bool)
    ensures
        b == (s@.len() == 0),
{
    s.as_str().unicode_len() == 0
}

/// Checks that a command can be forwarded as a new command.
pub fn validate_control_command(command: &RuntimeControlCommandRequest) -> (r: Result<(), String>)
    ensures
        match r {
            Ok(()) => command_problem(command_parts(*command)) is None,
            Err(e) => command_problem(command_parts(*command)) == Some(e@),
        },
{
    if is_empty(&command.command_id) {
        return Err(owned("command_id must not be empty"));
    }
    if is_empty(&command.idempotency_key) {
        return Err(owned("idempotency_key must not be empty"));
    }
    if is_empty(&command.user_id) {
        return Err(owned("user_id must not be empty"));
    }
    if is_empty(&command.tag_id) {
        return Err(owned("tag_id must not be empty"));
    }
    if !str_eq(command.status.as_str(), "Requested") {
        return Err(owned("status must be Requested for a new runtime command"));
    }
    if is_empty(&command.requested_at) {
        return Err(owned("requested_at must not be empty"));
    }
    if command.timeout_ms == 0 {
        return Err(owned("timeout_ms must be greater than zero"));
    }
    Ok(())
}

/// The JSON text of a command, as `serde_json` writes the struct.
pub open spec fn command_body(c: CommandParts) -> Seq<char> {
    "{\"command_id\":"@ + json_quoted(c.0) + ",\"idempotency_key\":"@ + json_quoted(c.1) + ",\"user_id\":"@
        + json_quoted(c.2) + ",\"tag_id\":"@ + json_quoted(c.3) + ",\"requested_value\":"@ + c.4
        + ",\"status\":"@ + json_quoted(c.5) + ",\"requested_at\":"@ + json_quoted(c.6) + ",\"timeout_ms\":"@
        + decimal(c.7 as nat) + "}"@
}

fn push_quoted_json(out: &mut Vec<char>, s: &str)
    ensures
        final(out)@ == old(out)@ + json_quoted(s@),
{
    let q = quote(s);
    push_text(out, q.as_str());
}

/// The JSON text of a command.
pub fn control_command_body(c: &RuntimeControlCommandRequest) -> (r: String)
    ensures
        r@ == command_body(command_parts(*c)),
{
    let mut out: Vec<char> = Vec::new();
    push_text(&mut out, "{\"command_id\":");
    push_quoted_json(&mut out, c.command_id.as_str());
    push_text(&mut out, ",\"idempotency_key\":");
    push_quoted_json(&mut out, c.idempotency_key.as_str());
    push_text(&mut out, ",\"user_id\":");
    push_quoted_json(&mut out, c.user_id.as_str());
    push_text(&mut out, ",\"tag_id\":");
    push_quoted_json(&mut out, c.tag_id.as_str());
    push_text(&mut out, ",\"requested_value\":");
    push_text(&mut out, c.requested_value.as_str());
    push_text(&mut out, ",\"status\":");
    push_quoted_json(&mut out, c.status.as_str());
    push_text(&mut out, ",\"requested_at\":");
    push_quoted_json(&mut out, c.requested_at.as_str());
    push_text(&mut out, ",\"timeout_ms\":");
    let t = u64_text(c.timeout_ms);
    push_all(&mut out, t.as_slice());
    push_text(&mut out, "}");
    string_of(out.as_slice())
}

/// The JSON items of `texts`, each written by `serde_json`, separated by commas.
pub open spec fn quoted_list(texts: Seq<Seq<char>>) -> Seq<char>
    decreases texts.len(),
{
    if texts.len() == 0 {
        seq![]
    } else if texts.len() == 1 {
        json_quoted(texts[0])
    } else {
        quoted_list(texts.drop_last()) + ","@ + json_quoted(texts.last())
    }
}

fn push_quoted_list(out: &mut Vec<char>, items: &Vec<String>)
    ensures
        final(out)@ == old(out)@ + quoted_list(string_views(items@)),
{
    let ghost start = out@;
    let mut i: usize = 0;
    while i < items.len()
        invariant
            i <= items@.len(),
            out@ == start + quoted_list(string_views(items@).take(i as int)),
        decreases items@.len() - i,
    {
        proof {
            reveal_strlit(",");
        }
        let ghost next = string_views(items@).take(i + 1);
        assert(next.drop_last() =~= string_views(items@).take(i as int));
        assert(next.last() == items@[i as int]@);
        let ghost before = out@;
        if i > 0 {
            out.push(',');
        }
        push_quoted_json(out, items[i].as_str());
        proof {
            if i > 0 {
                assert(out@ =~= start + (quoted_list(string_views(items@).take(i as int)) + ","@ + json_quoted(
                    next.last(),
                )));
            } else {
                assert(out@ =~= start + json_quoted(next[0]));
            }
        }
        i = i + 1;
    }
    assert(string_views(items@).take(items@.len() as int) =~= string_views(items@));
}

/// `{"project_id":…,"tag_ids":[…]}` as `serde_json` writes the request.
pub open spec fn snapshot_request_body(project_id: Seq<char>, tag_ids: Seq<Seq<char>>) -> Seq<char> {
    "{\"project_id\":"@ + json_quoted(project_id) + ",\"tag_ids\":["@ + quoted_list(tag_ids) + "]}"@
}

/// The JSON text of a snapshot request.
pub fn snapshot_request_json(request: &TagSnapshotRequest) -> (r: String)
    ensures
        r@ == snapshot_request_body(request.project_id@, string_views(request.tag_ids@)),
{
    let mut out: Vec<char> = Vec::new();
    push_text(&mut out, "{\"project_id\":");
    push_quoted_json(&mut out, request.project_id.as_str());
    push_text(&mut out, ",\"tag_ids\":[");
    push_quoted_list(&mut out, &request.tag_ids);
    push_text(&mut out, "]}");
    string_of(out.as_slice())
}

/// The JSON object of a binding state, as `serde_json` writes it.
pub open spec fn binding_json(b: ObjectBindingState) -> Seq<char> {
    "{\"key\":"@ + json_quoted(b.key@) + ",\"tag_id\":"@ + json_quoted(b.tag_id@) + ",\"value\":"@ + match b.value {
        Some(v) => v@,
        None => "null"@,
    } + ",\"quality\":"@ + match b.quality {
        Some(q) => json_quoted(q@),
        None => "null"@,
    } + ",\"sequence\":"@ + match b.sequence {
        Some(n) => decimal(n as nat),
        None => "null"@,
    } + "}"@
}

/// The JSON object of an object state.
pub open spec fn object_json(o: ScreenObjectState) -> Seq<char> {
    "{\"object_id\":"@ + json_quoted(o.object_id@) + ",\"svg_asset_id\":"@ + json_quoted(o.svg_asset_id@)
        + ",\"bindings\":["@ + crate::screen::join_with(
        o.bindings@.map_values(|b: ObjectBindingState| binding_json(b)),
        ","@,
    ) + "]}"@
}

/// The JSON object of a projection.
pub open spec fn projection_json(p: ScreenProjection) -> Seq<char> {
    "{\"screen_id\":"@ + json_quoted(p.screen_id@) + ",\"project_id\":"@ + json_quoted(p.project_id@)
        + ",\"object_states\":["@ + crate::screen::join_with(
        p.object_states@.map_values(|o: ScreenObjectState| object_json(o)),
        ","@,
    ) + "]}"@
}

fn binding_to_json(b: &ObjectBindingState) -> (r: String)
    ensures
        r@ == binding_json(*b),
{
    let mut out: Vec<char> = Vec::new();
    push_text(&mut out, "{\"key\":");
    push_quoted_json(&mut out, b.key.as_str());
    push_text(&mut out, ",\"tag_id\":");
    push_quoted_json(&mut out, b.tag_id.as_str());
    push_text(&mut out, ",\"value\":");
    match &b.value {
        Some(v) => push_text(&mut out, v.as_str()),
        None => push_text(&mut out, "null"),
    }
    push_text(&mut out, ",\"quality\":");
    match &b.quality {
        Some(q) => push_quoted_json(&mut out, q.as_str()),
        None => push_text(&mut out, "null"),
    }
    push_text(&mut out, ",\"sequence\":");
    match b.sequence {
        Some(n) => {
            let t = u64_text(n);
            push_all(&mut out, t.as_slice());
        },
        None => push_text(&mut out, "null"),
    }
    push_text(&mut out, "}");
    string_of(out.as_slice())
}

fn object_to_json(o: &ScreenObjectState) -> (r: String)
    ensures
        r@ == object_json(*o),
{
    let mut parts: Vec<String> = Vec::new();
    let mut i: usize = 0;
    while i < o.bindings.len()
        invariant
            i <= o.bindings@.len(),
            string_views(parts@) == o.bindings@.take(i as int).map_values(|b: ObjectBindingState| binding_json(b)),
        decreases o.bindings@.len() - i,
    {
        let j = binding_to_json(&o.bindings[i]);
        let ghost before = string_views(parts@);
        parts.push(j);
        assert(string_views(parts@) =~= before.push(j@));
        assert(o.bindings@.take(i + 1).map_values(|b: ObjectBindingState| binding_json(b)) =~= o.bindings@.take(
            i as int,
        ).map_values(|b: ObjectBindingState| binding_json(b)).push(binding_json(o.bindings@[i as int])));
        i = i + 1;
    }
    assert(o.bindings@.take(o.bindings@.len() as int) =~= o.bindings@);
    let inner = crate::screen::join_strings(&parts, ",");
    let mut out: Vec<char> = Vec::new();
    push_text(&mut out, "{\"object_id\":");
    push_quoted_json(&mut out, o.object_id.as_str());
    push_text(&mut out, ",\"svg_asset_id\":");
    push_quoted_json(&mut out, o.svg_asset_id.as_str());
    push_text(&mut out, ",\"bindings\":[");
    push_text(&mut out, inner.as_str());
    push_text(&mut out, "]}");
    string_of(out.as_slice())
}

/// The JSON text of a projection.
pub fn projection_to_json(p: &ScreenProjection) -> (r: String)
    ensures
        r@ == projection_json(*p),
{
    let mut parts: Vec<String> = Vec::new();
    let mut i: usize = 0;
    while i < p.object_states.len()
        invariant
            i <= p.object_states@.len(),
            string_views(parts@) == p.object_states@.take(i as int).map_values(|o: ScreenObjectState| object_json(o)),
        decreases p.object_states@.len() - i,
    {
        let j = object_to_json(&p.object_states[i]);
        let ghost before = string_views(parts@);
        parts.push(j);
        assert(string_views(parts@) =~= before.push(j@));
        assert(p.object_states@.take(i + 1).map_values(|o: ScreenObjectState| object_json(o)) =~= p.object_states@.take(
            i as int,
        ).map_values(|o: ScreenObjectState| object_json(o)).push(object_json(p.object_states@[i as int])));
        i = i + 1;
    }
    assert(p.object_states@.take(p.object_states@.len() as int) =~= p.object_states@);
    let inner = crate::screen::join_strings(&parts, ",");
    let mut out: Vec<char> = Vec::new();
    push_text(&mut out, "{\"screen_id\":");
    push_quoted_json(&mut out, p.screen_id.as_str());
    push_text(&mut out, ",\"project_id\":");
    push_quoted_json(&mut out, p.project_id.as_str());
    push_text(&mut out, ",\"object_states\":[");
    push_text(&mut out, inner.as_str());
    push_text(&mut out, "]}");
    string_of(out.as_slice())
}

/// The screen a projection body names, if any, or why the body is refused: a blank body
/// names none, as does an absent or null `screen_path`.
pub open spec fn projection_request_of(body: Seq<char>) -> Result<Option<Seq<char>>, Seq<char>> {
    let prefix = "invalid screen projection JSON: "@;
    if trim(body).len() == 0 {
        Ok(None)
    } else {
        match json_syntax_error(body) {
            Some(m) => Err(prefix + m),
            None => match json_object_fields(body) {
                None => Err(prefix + crate::runtime_json::not_object()),
                Some(f) => match field_of(f, "screen_path"@) {
                    None => Ok(None),
                    Some(t) => if json_is_null(t) {
                        Ok(None)
                    } else {
                        match json_string_value(t) {
                            Some(p) => Ok(Some(p)),
                            None => Err(prefix + missing("screen_path"@)),
                        }
                    },
                },
            },
        }
    }
}

/// Reads a projection request from its body.
pub fn projection_request_from_json(body: &str) -> (r: Result<RuntimeScreenProjectionRequest, String>)
    ensures
        match r {
            Ok(req) => projection_request_of(body@) == Ok::<Option<Seq<char>>, Seq<char>>(
                match req.screen_path {
                    Some(p) => Some(p@),
                    None => None,
                },
            ),
            Err(e) => projection_request_of(body@) == Err::<Option<Seq<char>>, Seq<char>>(e@),
        },
{
    let t = trim_str(body);
    if t.len() == 0 {
        return Ok(RuntimeScreenProjectionRequest { screen_path: None });
    }
    if let Some(m) = syntax_error(body) {
        return Err(prefixed("invalid screen projection JSON: ", m.as_str()));
    }
    let fields = match object_fields(body) {
        None => {
            return Err(prefixed("invalid screen projection JSON: ", "expected a JSON object"));
        },
        Some(f) => f,
    };
    match get_field(&fields, "screen_path") {
        None => Ok(RuntimeScreenProjectionRequest { screen_path: None }),
        Some(v) => {
            if is_null(v.as_str()) {
                return Ok(RuntimeScreenProjectionRequest { screen_path: None });
            }
            match string_value(v.as_str()) {
                Some(p) => Ok(RuntimeScreenProjectionRequest { screen_path: Some(p) }),
                None => {
                    let m = prefixed("missing or invalid ", "screen_path");
                    Err(prefixed("invalid screen projection JSON: ", m.as_str()))
                },
            }
        },
    }
}

/// Reads a tag value delta that arrived on `topic`: its payload must be a tag value, and
/// the topic must be the value topic of that tag in the project.
pub fn parse_tag_value_delta(project_id: &str, topic: &str, payload: &str) -> (r: Result<RuntimeDeltaMessage, RuntimeClientError>)
    ensures
        match r {
            Ok(d) => runtime_value_text_fault(payload@) is None && runtime_value_text_read(payload@, d.value)
                && d.topic@ == topic@ && topic@ == topic4(project_id@, "tag"@, d.value.tag_id@, "value"@),
            Err(e) => match runtime_value_text_fault(payload@) {
                Some(m) => e matches RuntimeClientError::Json(x) && x@ == m,
                None => e matches RuntimeClientError::MqttDelta(x) && exists|v: RuntimeTagValue|
                    runtime_value_text_read(payload@, v) && topic@ != topic4(project_id@, "tag"@, v.tag_id@, "value"@)
                        && x@ == "topic "@ + topic@ + " does not match expected "@ + topic4(
                        project_id@,
                        "tag"@,
                        v.tag_id@,
                        "value"@,
                    ),
            },
        },
{
    let value = match runtime_value_from_json(payload) {
        Ok(v) => v,
        Err(m) => {
            return Err(RuntimeClientError::Json(m));
        },
    };
    let expected = crate::mqtt::tag_value_topic(project_id, value.tag_id.as_str());
    if !str_eq(topic, expected.as_str()) {
        let mut out: Vec<char> = Vec::new();
        push_text(&mut out, "topic ");
        push_text(&mut out, topic);
        push_text(&mut out, " does not match expected ");
        push_text(&mut out, expected.as_str());
        return Err(RuntimeClientError::MqttDelta(string_of(out.as_slice())));
    }
    Ok(RuntimeDeltaMessage { topic: owned(topic), value })
}

/// Which handler a runtime request reaches.
#[derive(Debug, Clone, Copy, PartialEq, Eq, Structural)]
pub enum RuntimeRoute {
    Health,
    Unauthorized,
    ControlCommand,
    Projection,
    NotFound,
}

/// The handler for a request: health needs no token, the others do.
pub open spec fn runtime_route_of(token: Option<Seq<char>>, method: Seq<char>, path: Seq<char>, headers: HeaderList) -> RuntimeRoute {
    let p = without_query(path);
    if method == "GET"@ && p == "/health"@ {
        RuntimeRoute::Health
    } else if !crate::tag_server_api::authorized(token, headers) {
        RuntimeRoute::Unauthorized
    } else if method == "POST"@ && p == "/api/v1/control-commands"@ {
        RuntimeRoute::ControlCommand
    } else if method == "POST"@ && p == "/api/v1/screens/projection"@ {
        RuntimeRoute::Projection
    } else {
        RuntimeRoute::NotFound
    }
}

/// The body of the runtime's health reply.
pub open spec fn runtime_health_body() -> Seq<char> {
    "{\"service\":\"preview-runtime\",\"status\":\"healthy\"}"@
}

/// A JSON reply of the runtime with `status` and `body`.
pub open spec fn runtime_reply(r: RuntimeHttpResponse, status: u16, body: Seq<char>) -> bool {
    r.parts() == (status, runtime_reason_of(status), json_type(), body)
}

/// What handling a request leaves to be done.
#[derive(Debug)]
pub enum RuntimeStep {
    /// The reply is ready.
    Reply(RuntimeHttpResponse),
    /// The request text is to be sent to the tag server; `finish_forward` gives the reply.
    Forward(String),
    /// The screen file at this path is to be read; `continue_projection` goes on.
    LoadScreen(String),
}

/// What a projection needs after its screen was read.
#[derive(Debug)]
pub enum ProjectionStep {
    /// The reply is ready.
    Reply(RuntimeHttpResponse),
    /// The request text is to be sent to the tag server; `finish_projection` gives the reply.
    FetchSnapshot(ScreenDefinition, String),
}

/// The reply to a forwarded command, given the tag server's reply text or the text of the
/// error that kept it from coming.
pub open spec fn forward_reply(outcome: Result<Seq<char>, Seq<char>>) -> (u16, Seq<char>) {
    match outcome {
        Ok(raw) => match client_response_of(raw) {
            Ok((code, _reason, body)) => (code, body),
            Err(m) => (502, runtime_error_object("tag server forwarding failed: "@ + "http error: "@ + m)),
        },
        Err(t) => (502, runtime_error_object("tag server forwarding failed: "@ + t)),
    }
}

/// A reply that the tag server sends to a forwarded command passes through the runtime
/// with its status and body, where its reason and content type stay on their lines.
pub proof fn forwarded_replies_pass_through(status: u16, reason: Seq<char>, content_type: Seq<char>, body: Seq<char>)
    requires
        crate::runtime_http::one_line(reason),
        crate::runtime_http::one_line(content_type),
    ensures
        forward_reply(Ok(crate::http::response_text(status, reason, content_type, body))) == (status, body),
{
    crate::runtime_http::responses_read_back(status, reason, content_type, body);
}

/// A command body that the runtime forwards to the tag server at `host:port` reaches it as
/// a `POST` to the control-command route carrying that body, and the tag server finds in
/// it the token the runtime sends.
pub proof fn forwarded_commands_reach_the_tag_server(host: Seq<char>, port: u16, token: Option<Seq<char>>, body: Seq<char>)
    requires
        crate::runtime_http::one_line(host),
        token matches Some(t) ==> t.len() > 0 && crate::runtime_http::one_line(t) && !crate::text::is_ws(t.last()),
    ensures
        crate::http::parse_request(
            crate::runtime_http::request_text_of(
                "POST"@,
                "/api/v1/control-commands"@,
                host + ":"@ + decimal(port as nat),
                token,
                body,
            ),
        ) matches Ok((m, p, hs, b)) && m == "POST"@ && p == "/api/v1/control-commands"@ && b == body
            && crate::tag_server_api::authorized(token, hs),
{
    reveal_strlit("POST");
    reveal_strlit("/api/v1/control-commands");
    reveal_strlit(":");
    let authority = host + ":"@ + decimal(port as nat);
    crate::text::lemma_decimal_value(port as nat);
    assert(crate::runtime_http::one_line(authority)) by {
        assert forall|c: char| (c == '\r' || c == '\n') implies !authority.contains(c) by {
            if authority.contains(c) {
                let j = choose|j: int| 0 <= j < authority.len() && authority[j] == c;
                if j < host.len() {
                    assert(host[j] == c);
                } else if j > host.len() {
                    assert(crate::text::is_digit(decimal(port as nat)[j - host.len() - 1]));
                }
            }
        }
    }
    crate::runtime_http::client_requests_read_back("POST"@, "/api/v1/control-commands"@, authority, token, body);
}

/// The view of an outside outcome: its text, or the text of its error.
pub open spec fn outcome_text(outcome: Result<String, RuntimeClientError>) -> Result<Seq<char>, Seq<char>> {
    match outcome {
        Ok(raw) => Ok(raw@),
        Err(e) => Err(error_text(e)),
    }
}

/// `r` serves the projection `p` of the screen `d` read from `screen_text` on the snapshot
/// `s` read from the body of the tag server's reply `reply`.
pub open spec fn served_projection(
    screen_text: Seq<char>,
    reply: Seq<char>,
    d: ScreenDefinition,
    s: TagSnapshot,
    p: ScreenProjection,
    r: RuntimeHttpResponse,
) -> bool {
    &&& definition_read(screen_text, d)
    &&& client_response_of(reply) matches Ok((_c, _r, b)) && snapshot_read(b, s)
    &&& projected(d, s, p)
    &&& runtime_reply(r, 200, projection_json(p))
}

/// The reply to a projection whose screen file was read as `read` and whose snapshot
/// request came back as `o`: the error reply where the snapshot failed, else the
/// projection of the screen read on the snapshot read, as JSON.
pub open spec fn projection_done(read: Result<Seq<char>, Seq<char>>, o: Result<Seq<char>, Seq<char>>, r: RuntimeHttpResponse) -> bool {
    match projection_reply(o) {
        Some((status, body)) => runtime_reply(r, status, body),
        None => read matches Ok(screen_text) && o matches Ok(reply) && exists|
            d: ScreenDefinition,
            s: TagSnapshot,
            p: ScreenProjection,
        | #[trigger] served_projection(screen_text, reply, d, s, p, r),
    }
}

/// The screen a request names, or the default one.
pub open spec fn chosen_path(p: Option<Seq<char>>, default: Seq<char>) -> Seq<char> {
    match p {
        Some(q) => q,
        None => default,
    }
}

/// The text read, or the message of the failed read.
pub open spec fn read_text(read: Result<String, String>) -> Result<Seq<char>, Seq<char>> {
    match read {
        Ok(t) => Ok(t@),
        Err(m) => Err(m@),
    }
}

/// `p` is `definition` projected on the values of `s`.
pub open spec fn projected(definition: ScreenDefinition, s: TagSnapshot, p: ScreenProjection) -> bool {
    &&& p.screen_id == definition.screen_id
    &&& p.project_id == definition.project_id
    &&& p.object_states@.len() == definition.objects@.len()
    &&& forall|i: int|
        0 <= i < p.object_states@.len() ==> crate::screen::object_projected(
            #[trigger] p.object_states@[i],
            definition.objects@[i],
            s.values@,
        )
}

/// The reply to a projection once the snapshot's outcome is known; `None` where the
/// snapshot was read and the reply is its projection.
pub open spec fn projection_reply(outcome: Result<Seq<char>, Seq<char>>) -> Option<(u16, Seq<char>)> {
    let prefix = "tag server snapshot failed: "@;
    match outcome {
        Err(t) => Some((502, runtime_error_object(prefix + t))),
        Ok(raw) => match client_response_of(raw) {
            Err(m) => Some((502, runtime_error_object(prefix + "http error: "@ + m))),
            Ok((code, reason, body)) => if code != 200 {
                Some(
                    (
                        502,
                        runtime_error_object(
                            prefix + "tag server returned "@ + decimal(code as nat) + " "@ + reason + ": "@ + body,
                        ),
                    ),
                )
            } else {
                match snapshot_fault(body) {
                    Some(m) => Some((502, runtime_error_object(prefix + "json error: "@ + m))),
                    None => None,
                }
            },
        },
    }
}

/// The reply to a read screen file, or the failed read's message; `None` where the screen
/// is read and has tags, so that its snapshot is fetched.
pub open spec fn screen_reply(path: Seq<char>, read: Result<Seq<char>, Seq<char>>) -> Option<(u16, Seq<char>)> {
    match read {
        Err(m) => Some((400, runtime_error_object("screen definition error: failed to read "@ + path + ": "@ + m))),
        Ok(raw) => match definition_fault(raw) {
            Some(m) => Some(
                (400, runtime_error_object("screen definition error: failed to parse "@ + path + ": "@ + m)),
            ),
            None => if forall|d: ScreenDefinition|
                #[trigger] definition_read(raw, d) ==> crate::screen::screen_tags(d.objects@).is_empty() {
                Some((400, runtime_error_object("screen definition does not contain tag bindings"@)))
            } else {
                None
            },
        },
    }
}

/// What the runtime needs from outside: a round trip to the tag server and the text of a
/// screen file. Nothing is assumed of what comes back.
pub trait RuntimeIo {
    fn round_trip(&self, client: &TagServerClient, request_text: &str) -> Result<String, RuntimeClientError>;

    fn read_screen(&self, path: &str) -> Result<String, String>;
}

/// The preview runtime's request handler.
#[derive(Debug)]
pub struct RuntimeApi {
    tag_server: TagServerClient,
    required_token: Option<String>,
    default_screen_path: String,
}

impl RuntimeApi {
    /// The token that requests must carry, if any.
    pub closed spec fn token(&self) -> Option<Seq<char>> {
        match self.required_token {
            Some(t) => Some(t@),
            None => None,
        }
    }

    /// The screen projected when a request names none.
    pub closed spec fn default_path(&self) -> Seq<char> {
        self.default_screen_path@
    }

    /// The client of the tag server.
    pub closed spec fn client(&self) -> TagServerClient {
        self.tag_server
    }

    /// `host:port` of the tag server.
    pub open spec fn authority(&self) -> Seq<char> {
        self.client().spec_endpoint().host@ + ":"@ + decimal(self.client().spec_endpoint().port as nat)
    }

    pub fn new(tag_server: TagServerClient) -> (api: RuntimeApi)
        ensures
            api.client() == tag_server,
            api.token() is None,
            api.default_path() == "config/screens/mock-main.screen.json"@,
    {
        RuntimeApi {
            tag_server,
            required_token: None,
            default_screen_path: owned("config/screens/mock-main.screen.json"),
        }
    }

    /// The requests must carry `token`, where it is given and not empty.
    pub fn with_required_token(self, token: Option<String>) -> (api: RuntimeApi)
        ensures
            api.client() == self.client(),
            api.default_path() == self.default_path(),
            api.token() == match token {
                Some(t) => if t@.len() > 0 {
                    Some(t@)
                } else {
                    None
                },
                None => None,
            },
    {
        let mut api = self;
        api.required_token = match token {
            Some(t) => if t.as_str().unicode_len() > 0 {
                Some(t)
            } else {
                None
            },
            None => None,
        };
        api
    }

    /// Projects `path` when a request names no screen.
    pub fn with_default_screen_path(self, path: String) -> (api: RuntimeApi)
        ensures
            api.client() == self.client(),
            api.token() == self.token(),
            api.default_path() == path@,
    {
        let mut api = self;
        api.default_screen_path = path;
        api
    }

    fn is_authorized(&self, request: &RuntimeHttpRequest) -> (b: bool)
        ensures
            b == crate::tag_server_api::authorized(self.token(), header_views(request.headers@)),
    {
        proof {
            reveal_strlit("Bearer ");
        }
        let token = match &self.required_token {
            None => {
                return true;
            },
            Some(t) => t,
        };
        if let Some(v) = request.header("x-scada-token") {
            if str_eq(v, token.as_str()) {
                return true;
            }
        }
        match request.header("authorization") {
            Some(v) => {
                let mut expected: Vec<char> = Vec::new();
                push_text(&mut expected, "Bearer ");
                push_text(&mut expected, token.as_str());
                let got = chars_of(v);
                crate::text::chars_eq(got.as_slice(), expected.as_slice())
            },
            None => false,
        }
    }

    /// Handles a request as far as it can without leaving the process.
    pub fn step(&self, request: &RuntimeHttpRequest) -> (r: RuntimeStep)
        ensures
            match runtime_route_of(self.token(), request.method@, request.path@, header_views(request.headers@)) {
                RuntimeRoute::Health => r matches RuntimeStep::Reply(resp) && runtime_reply(resp, 200, runtime_health_body()),
                RuntimeRoute::Unauthorized => r matches RuntimeStep::Reply(resp) && runtime_reply(
                    resp,
                    401,
                    runtime_error_object("unauthorized"@),
                ),
                RuntimeRoute::NotFound => r matches RuntimeStep::Reply(resp) && runtime_reply(
                    resp,
                    404,
                    runtime_error_object("not found"@),
                ),
                RuntimeRoute::ControlCommand => match command_of(request.body@) {
                    Err(e) => r matches RuntimeStep::Reply(resp) && runtime_reply(resp, 400, runtime_error_object(e)),
                    Ok(c) => match command_problem(c) {
                        Some(m) => r matches RuntimeStep::Reply(resp) && runtime_reply(
                            resp,
                            400,
                            runtime_error_object(m),
                        ),
                        None => r matches RuntimeStep::Forward(text) && text@ == crate::runtime_http::request_text_of(
                            "POST"@,
                            "/api/v1/control-commands"@,
                            self.authority(),
                            self.client().spec_token(),
                            command_body(c),
                        ),
                    },
                },
                RuntimeRoute::Projection => match projection_request_of(request.body@) {
                    Err(e) => r matches RuntimeStep::Reply(resp) && runtime_reply(resp, 400, runtime_error_object(e)),
                    Ok(p) => r matches RuntimeStep::LoadScreen(path) && path@ == chosen_path(p, self.default_path()),
                },
            },
    {
        proof {
            reveal_strlit("unauthorized");
            reveal_strlit("not found");
        }
        let p = request.path_without_query();
        let m = request.method.as_str();
        if str_eq(m, "GET") && str_eq(p, "/health") {
            return RuntimeStep::Reply(
                RuntimeHttpResponse::json(200, owned("{\"service\":\"preview-runtime\",\"status\":\"healthy\"}")),
            );
        }
        if !self.is_authorized(request) {
            return RuntimeStep::Reply(RuntimeHttpResponse::json(401, runtime_error_json("unauthorized")));
        }
        if str_eq(m, "POST") && str_eq(p, "/api/v1/control-commands") {
            let command = match control_command_from_json(request.body.as_str()) {
                Ok(c) => c,
                Err(e) => {
                    return RuntimeStep::Reply(RuntimeHttpResponse::json(400, runtime_error_json(e.as_str())));
                },
            };
            if let Err(e) = validate_control_command(&command) {
                return RuntimeStep::Reply(RuntimeHttpResponse::json(400, runtime_error_json(e.as_str())));
            }
            let body = control_command_body(&command);
            RuntimeStep::Forward(self.tag_server.request_text("/api/v1/control-commands", body.as_str()))
        } else if str_eq(m, "POST") && str_eq(p, "/api/v1/screens/projection") {
            match projection_request_from_json(request.body.as_str()) {
                Err(e) => RuntimeStep::Reply(RuntimeHttpResponse::json(400, runtime_error_json(e.as_str()))),
                Ok(req) => match req.screen_path {
                    Some(path) => RuntimeStep::LoadScreen(path),
                    None => RuntimeStep::LoadScreen(self.default_screen_path.clone()),
                },
            }
        } else {
            RuntimeStep::Reply(RuntimeHttpResponse::json(404, runtime_error_json("not found")))
        }
    }

    /// The reply to a forwarded command, from the tag server's reply or the error that kept
    /// it from coming.
    pub fn finish_forward(&self, outcome: Result<String, RuntimeClientError>) -> (r: RuntimeHttpResponse)
        ensures
            runtime_reply(r, forward_reply(outcome_text(outcome)).0, forward_reply(outcome_text(outcome)).1),
    {
        let error = match outcome {
            Ok(raw) => match parse_http_response(raw.as_str()) {
                Ok(resp) => {
                    return RuntimeHttpResponse::json(resp.status_code, resp.body);
                },
                Err(e) => e,
            },
            Err(e) => e,
        };
        let m = error.message();
        let text = prefixed("tag server forwarding failed: ", m.as_str());
        proof {
            match outcome_text(outcome) {
                Ok(raw) => {
                    if let Err(x) = client_response_of(raw) {
                        assert(text@ =~= "tag server forwarding failed: "@ + "http error: "@ + x);
                    }
                },
                Err(t) => {},
            }
        }
        RuntimeHttpResponse::json(502, runtime_error_json(text.as_str()))
    }

    /// Goes on with a projection once its screen file was read, or failed to be.
    pub fn continue_projection(&self, path: &str, read: Result<String, String>) -> (r: ProjectionStep)
        ensures
            match screen_reply(path@, read_text(read)) {
                Some((status, body)) => r matches ProjectionStep::Reply(resp) && runtime_reply(resp, status, body),
                None => r matches ProjectionStep::FetchSnapshot(definition, text) && (read matches Ok(raw)
                    && definition_read(raw@, definition)) && ({
                    let tags = crate::screen::screen_tags(definition.objects@);
                    exists|ids: Seq<Seq<char>>|
                        crate::text_order::strictly_sorted(ids) && ids.to_set() == tags && text@
                            == crate::runtime_http::request_text_of(
                            "POST"@,
                            "/api/v1/tags/snapshot"@,
                            self.authority(),
                            self.client().spec_token(),
                            snapshot_request_body(definition.project_id@, ids),
                        )
                }),
            },
    {
        let raw = match read {
            Err(m) => {
                let mut out: Vec<char> = Vec::new();
                push_text(&mut out, "screen definition error: failed to read ");
                push_text(&mut out, path);
                push_text(&mut out, ": ");
                push_text(&mut out, m.as_str());
                let t = string_of(out.as_slice());
                return ProjectionStep::Reply(RuntimeHttpResponse::json(400, runtime_error_json(t.as_str())));
            },
            Ok(raw) => raw,
        };
        let definition = match screen_definition_from_json(raw.as_str()) {
            Err(m) => {
                let mut out: Vec<char> = Vec::new();
                push_text(&mut out, "screen definition error: failed to parse ");
                push_text(&mut out, path);
                push_text(&mut out, ": ");
                push_text(&mut out, m.as_str());
                let t = string_of(out.as_slice());
                return ProjectionStep::Reply(RuntimeHttpResponse::json(400, runtime_error_json(t.as_str())));
            },
            Ok(d) => d,
        };
        let tag_ids = resolve_tag_ids_from_screen(&definition);
        if tag_ids.len() == 0 {
            proof {
                assert forall|d: ScreenDefinition| #[trigger] definition_read(raw@, d) implies crate::screen::screen_tags(
                    d.objects@,
                ).is_empty() by {
                    lemma_definition_read_unique(raw@, d, definition);
                    assert(string_views(tag_ids@).to_set() =~= Set::<Seq<char>>::empty());
                }
            }
            return ProjectionStep::Reply(
                RuntimeHttpResponse::json(400, runtime_error_json("screen definition does not contain tag bindings")),
            );
        }
        proof {
            let t = string_views(tag_ids@)[0];
            assert(string_views(tag_ids@).to_set().contains(t));
            assert(!crate::screen::screen_tags(definition.objects@).is_empty());
        }
        let request = TagSnapshotRequest { project_id: definition.project_id.clone(), tag_ids };
        let body = snapshot_request_json(&request);
        let text = self.tag_server.request_text("/api/v1/tags/snapshot", body.as_str());
        ProjectionStep::FetchSnapshot(definition, text)
    }

    /// The reply to a projection, from the tag server's snapshot reply or the error that
    /// kept it from coming.
    pub fn finish_projection(&self, definition: &ScreenDefinition, outcome: Result<String, RuntimeClientError>) -> (r: RuntimeHttpResponse)
        ensures
            match projection_reply(outcome_text(outcome)) {
                Some((status, body)) => runtime_reply(r, status, body),
                None => exists|s: TagSnapshot, p: ScreenProjection|
                    (outcome matches Ok(raw) && client_response_of(raw@) matches Ok((_c, _r, b))
                        && snapshot_read(b, s)) && projected(*definition, s, p) && runtime_reply(
                        r,
                        200,
                        projection_json(p),
                    ),
            },
    {
        let raw = match outcome {
            Err(e) => {
                let m = e.message();
                let t = prefixed("tag server snapshot failed: ", m.as_str());
                return RuntimeHttpResponse::json(502, runtime_error_json(t.as_str()));
            },
            Ok(raw) => raw,
        };
        let resp = match parse_http_response(raw.as_str()) {
            Err(e) => {
                let m = e.message();
                let t = prefixed("tag server snapshot failed: ", m.as_str());
                proof {
                    if let Err(x) = client_response_of(raw@) {
                        assert(t@ =~= "tag server snapshot failed: "@ + "http error: "@ + x);
                    }
                }
                return RuntimeHttpResponse::json(502, runtime_error_json(t.as_str()));
            },
            Ok(resp) => resp,
        };
        if resp.status_code != 200 {
            let e = RuntimeClientError::ServerStatus {
                status_code: resp.status_code,
                reason: resp.reason,
                body: resp.body,
            };
            let m = e.message();
            let t = prefixed("tag server snapshot failed: ", m.as_str());
            assert(t@ =~= "tag server snapshot failed: "@ + "tag server returned "@ + decimal(resp.status_code as nat)
                + " "@ + resp.reason@ + ": "@ + resp.body@);
            return RuntimeHttpResponse::json(502, runtime_error_json(t.as_str()));
        }
        let snapshot = match snapshot_from_json(resp.body.as_str()) {
            Err(m) => {
                let ghost mv = m@;
                let e = RuntimeClientError::Json(m);
                let em = e.message();
                let t = prefixed("tag server snapshot failed: ", em.as_str());
                assert(t@ =~= "tag server snapshot failed: "@ + "json error: "@ + mv);
                return RuntimeHttpResponse::json(502, runtime_error_json(t.as_str()));
            },
            Ok(s) => s,
        };
        let projection = project_snapshot_to_screen(definition, &snapshot);
        let body = projection_to_json(&projection);
        let r = RuntimeHttpResponse::json(200, body);
        assert(projected(*definition, snapshot, projection));
        r
    }

    /// Handles a request, doing its outside work through `io`.
    pub fn handle<I: RuntimeIo>(&self, request: &RuntimeHttpRequest, io: &I) -> (r: RuntimeHttpResponse)
        ensures
            match runtime_route_of(self.token(), request.method@, request.path@, header_views(request.headers@)) {
                RuntimeRoute::Health => runtime_reply(r, 200, runtime_health_body()),
                RuntimeRoute::Unauthorized => runtime_reply(r, 401, runtime_error_object("unauthorized"@)),
                RuntimeRoute::NotFound => runtime_reply(r, 404, runtime_error_object("not found"@)),
                RuntimeRoute::ControlCommand => match command_of(request.body@) {
                    Err(e) => runtime_reply(r, 400, runtime_error_object(e)),
                    Ok(c) => match command_problem(c) {
                        Some(m) => runtime_reply(r, 400, runtime_error_object(m)),
                        None => exists|o: Result<Seq<char>, Seq<char>>|
                            runtime_reply(r, #[trigger] forward_reply(o).0, forward_reply(o).1),
                    },
                },
                RuntimeRoute::Projection => match projection_request_of(request.body@) {
                    Err(e) => runtime_reply(r, 400, runtime_error_object(e)),
                    Ok(p) => exists|read: Result<Seq<char>, Seq<char>>|
                        match #[trigger] screen_reply(chosen_path(p, self.default_path()), read) {
                            Some((status, body)) => runtime_reply(r, status, body),
                            None => exists|o: Result<Seq<char>, Seq<char>>| #[trigger] projection_done(read, o, r),
                        },
                },
            },
    {
        match self.step(request) {
            RuntimeStep::Reply(r) => r,
            RuntimeStep::Forward(text) => {
                let outcome = io.round_trip(&self.tag_server, text.as_str());
                let ghost o = outcome_text(outcome);
                let r = self.finish_forward(outcome);
                assert(runtime_reply(r, forward_reply(o).0, forward_reply(o).1));
                assert(exists|o2: Result<Seq<char>, Seq<char>>|
                    runtime_reply(r, #[trigger] forward_reply(o2).0, forward_reply(o2).1));
                r
            },
            RuntimeStep::LoadScreen(path) => {
                let ghost pr = projection_request_of(request.body@);
                assert(pr is Ok && path@ == chosen_path(pr->Ok_0, self.default_path()));
                let read = io.read_screen(path.as_str());
                let ghost rv = read_text(read);
                match self.continue_projection(path.as_str(), read) {
                    ProjectionStep::Reply(r) => {
                        assert(screen_reply(path@, rv) is Some);
                        r
                    },
                    ProjectionStep::FetchSnapshot(definition, text) => {
                        let outcome = io.round_trip(&self.tag_server, text.as_str());
                        let ghost o = outcome_text(outcome);
                        let r = self.finish_projection(&definition, outcome);
                        assert(screen_reply(path@, rv) is None);
                        proof {
                            if projection_reply(o) is None {
                                let (sn, pj) = choose|sn: TagSnapshot, pj: ScreenProjection|
                                    (outcome matches Ok(raw) && client_response_of(raw@) matches Ok((_c, _r, b))
                                        && snapshot_read(b, sn)) && projected(definition, sn, pj) && runtime_reply(
                                        r,
                                        200,
                                        projection_json(pj),
                                    );
                                let st = rv->Ok_0;
                                let rp = o->Ok_0;
                                assert(served_projection(st, rp, definition, sn, pj, r));
                            }
                        }
                        assert(projection_done(rv, o, r));
                        r
                    },
                }
            },
        }
    }
}

/// One text holds one screen definition, up to the identity of its strings.
proof fn lemma_definition_read_unique(raw: Seq<char>, a: ScreenDefinition, b: ScreenDefinition)
    requires
        definition_read(raw, a),
        definition_read(raw, b),
    ensures
        crate::screen::screen_tags(a.objects@) == crate::screen::screen_tags(b.objects@),
{
    let els = json_array_elements(field_of(json_object_fields(raw)->0, "objects"@)->0)->0;
    assert forall|i: int| 0 <= i < a.objects@.len() implies crate::json_doc::pair_views(
        #[trigger] a.objects@[i].tag_bindings@,
    ) == crate::json_doc::pair_views(b.objects@[i].tag_bindings@) by {
        assert(crate::runtime_json::object_read(els[i], a.objects@[i]));
        assert(crate::runtime_json::object_read(els[i], b.objects@[i]));
    }
    assert(crate::screen::screen_tags(a.objects@) =~= crate::screen::screen_tags(b.objects@)) by {
        assert forall|t: Seq<char>| crate::screen::screen_tags(a.objects@).contains(t) implies crate::screen::screen_tags(
            b.objects@,
        ).contains(t) by {
            let (i, k) = choose|i: int, k: Seq<char>|
                0 <= i < a.objects@.len() && #[trigger] crate::screen::bindings_map(
                    crate::json_doc::pair_views(a.objects@[i].tag_bindings@),
                ).dom().contains(k) && crate::screen::bindings_map(
                    crate::json_doc::pair_views(a.objects@[i].tag_bindings@),
                )[k] == t;
            assert(crate::json_doc::pair_views(a.objects@[i].tag_bindings@) == crate::json_doc::pair_views(
                b.objects@[i].tag_bindings@,
            ));
            assert(crate::screen::bindings_map(crate::json_doc::pair_views(b.objects@[i].tag_bindings@)).dom().contains(k));
        }
        assert forall|t: Seq<char>| crate::screen::screen_tags(b.objects@).contains(t) implies crate::screen::screen_tags(
            a.objects@,
        ).contains(t) by {
            let (i, k) = choose|i: int, k: Seq<char>|
                0 <= i < b.objects@.len() && #[trigger] crate::screen::bindings_map(
                    crate::json_doc::pair_views(b.objects@[i].tag_bindings@),
                ).dom().contains(k) && crate::screen::bindings_map(
                    crate::json_doc::pair_views(b.objects@[i].tag_bindings@),
                )[k] == t;
            assert(crate::json_doc::pair_views(a.objects@[i].tag_bindings@) == crate::json_doc::pair_views(
                b.objects@[i].tag_bindings@,
            ));
            assert(crate::screen::bindings_map(crate::json_doc::pair_views(a.objects@[i].tag_bindings@)).dom().contains(k));
        }
    }
}

/// Why a snapshot reply from the tag server yields no snapshot: the reply does not parse,
/// its status is not 200, or its body is not a snapshot; `None` where it yields one.
pub open spec fn snapshot_failure(raw: Seq<char>) -> Option<Seq<char>> {
    match client_response_of(raw) {
        Err(m) => Some("http error: "@ + m),
        Ok((code, reason, body)) => if code != 200 {
            Some("tag server returned "@ + decimal(code as nat) + " "@ + reason + ": "@ + body)
        } else {
            match snapshot_fault(body) {
                Some(m) => Some("json error: "@ + m),
                None => None,
            }
        },
    }
}

/// The snapshot in a reply from the tag server.
pub fn snapshot_from_response(raw: &str) -> (r: Result<TagSnapshot, RuntimeClientError>)
    ensures
        match r {
            Ok(s) => snapshot_failure(raw@) is None && (client_response_of(raw@) matches Ok((_c, _r, b))
                && snapshot_read(b, s)),
            Err(e) => snapshot_failure(raw@) == Some(error_text(e)),
        },
{
    let resp = match parse_http_response(raw) {
        Err(e) => {
            return Err(e);
        },
        Ok(resp) => resp,
    };
    if resp.status_code != 200 {
        return Err(
            RuntimeClientError::ServerStatus { status_code: resp.status_code, reason: resp.reason, body: resp.body },
        );
    }
    match snapshot_from_json(resp.body.as_str()) {
        Err(m) => Err(RuntimeClientError::Json(m)),
        Ok(s) => Ok(s),
    }
}

impl TagServerClient {
    /// The request that fetches the snapshot of `tag_ids` in `project_id`.
    pub fn snapshot_request(&self, project_id: &str, tag_ids: &Vec<String>) -> (r: String)
        ensures
            r@ == crate::runtime_http::request_text_of(
                "POST"@,
                "/api/v1/tags/snapshot"@,
                self.spec_endpoint().host@ + ":"@ + decimal(self.spec_endpoint().port as nat),
                self.spec_token(),
                snapshot_request_body(project_id@, string_views(tag_ids@)),
            ),
    {
        let request = TagSnapshotRequest {
            project_id: owned(project_id),
            tag_ids: crate::shell_cli::copy_strings(tag_ids),
        };
        let body = snapshot_request_json(&request);
        self.request_text("/api/v1/tags/snapshot", body.as_str())
    }

    /// The request that forwards a control command body to the tag server.
    pub fn forward_control_command_body(&self, body: &str) -> (r: String)
        ensures
            r@ == crate::runtime_http::request_text_of(
                "POST"@,
                "/api/v1/control-commands"@,
                self.spec_endpoint().host@ + ":"@ + decimal(self.spec_endpoint().port as nat),
                self.spec_token(),
                body@,
            ),
    {
        self.request_text("/api/v1/control-commands", body)
    }

    /// The request that forwards a control command, where the command is valid.
    pub fn forward_control_command(&self, command: &RuntimeControlCommandRequest) -> (r: Result<String, RuntimeClientError>)
        ensures
            match r {
                Ok(t) => command_problem(command_parts(*command)) is None && t@ == crate::runtime_http::request_text_of(
                    "POST"@,
                    "/api/v1/control-commands"@,
                    self.spec_endpoint().host@ + ":"@ + decimal(self.spec_endpoint().port as nat),
                    self.spec_token(),
                    command_body(command_parts(*command)),
                ),
                Err(e) => (command_problem(command_parts(*command)) matches Some(m) && error_text(e) == "runtime error: "@ + m),
            },
    {
        match validate_control_command(command) {
            Err(m) => Err(RuntimeClientError::Runtime(m)),
            Ok(_) => {
                let body = control_command_body(command);
                Ok(self.forward_control_command_body(body.as_str()))
            },
        }
    }
}

/// The screen definition in the file at `path`, given what reading it gave.
pub fn load_screen_definition(path: &str, read: Result<String, String>) -> (r: Result<ScreenDefinition, RuntimeClientError>)
    ensures
        match read {
            Err(m) => (r matches Err(e) && error_text(e) == "screen definition error: "@ + ("failed to read "@ + path@
                + ": "@ + m@)),
            Ok(raw) => match definition_fault(raw@) {
                Some(m) => (r matches Err(e) && error_text(e) == "screen definition error: "@ + ("failed to parse "@
                    + path@ + ": "@ + m)),
                None => (r matches Ok(d) && definition_read(raw@, d)),
            },
        },
{
    match read {
        Err(m) => {
            let mut t = owned("failed to read ");
            crate::text::push_str(&mut t, path);
            crate::text::push_str(&mut t, ": ");
            crate::text::push_str(&mut t, m.as_str());
            Err(RuntimeClientError::ScreenDefinition(t))
        },
        Ok(raw) => match screen_definition_from_json(raw.as_str()) {
            Err(m) => {
                let mut t = owned("failed to parse ");
                crate::text::push_str(&mut t, path);
                crate::text::push_str(&mut t, ": ");
                crate::text::push_str(&mut t, m.as_str());
                Err(RuntimeClientError::ScreenDefinition(t))
            },
            Ok(d) => Ok(d),
        },
    }
}

/// A runtime tag value as compact JSON, its fields in order and its value as it came.
pub open spec fn runtime_value_text(v: RuntimeTagValue) -> Seq<char> {
    "{\"tag_id\":"@ + crate::json_doc::json_quoted(v.tag_id@) + ",\"value\":"@ + v.value@ + ",\"data_type\":"@
        + crate::json_doc::json_quoted(v.data_type@) + ",\"quality\":"@ + crate::json_doc::json_quoted(v.quality@)
        + ",\"source_timestamp\":"@ + crate::json_doc::json_quoted(v.source_timestamp@) + ",\"server_timestamp\":"@
        + crate::json_doc::json_quoted(v.server_timestamp@) + ",\"sequence\":"@ + decimal(v.sequence as nat)
        + ",\"scan_interval_ms\":"@ + decimal(v.scan_interval_ms as nat) + ",\"stale_after_ms\":"@ + decimal(
        v.stale_after_ms as nat,
    ) + ",\"driver_id\":"@ + crate::json_doc::json_quoted(v.driver_id@) + ",\"endpoint_id\":"@
        + crate::json_doc::json_quoted(v.endpoint_id@) + ",\"read_status\":"@ + crate::json_doc::json_quoted(
        v.read_status@,
    ) + ",\"write_status\":"@ + crate::json_doc::json_quoted(v.write_status@) + "}"@
}

fn push_quoted_text(out: &mut Vec<char>, s: &str)
    ensures
        final(out)@ == old(out)@ + crate::json_doc::json_quoted(s@),
{
    let q = crate::json_doc::quote(s);
    push_text(out, q.as_str());
}

fn push_number(out: &mut Vec<char>, n: u64)
    ensures
        final(out)@ == old(out)@ + decimal(n as nat),
{
    let t = u64_text(n);
    push_all(out, t.as_slice());
}

/// A runtime tag value as compact JSON.
pub fn runtime_value_json(v: &RuntimeTagValue) -> (r: String)
    ensures
        r@ == runtime_value_text(*v),
{
    let mut out: Vec<char> = Vec::new();
    push_text(&mut out, "{\"tag_id\":");
    push_quoted_text(&mut out, v.tag_id.as_str());
    push_text(&mut out, ",\"value\":");
    push_text(&mut out, v.value.as_str());
    push_text(&mut out, ",\"data_type\":");
    push_quoted_text(&mut out, v.data_type.as_str());
    push_text(&mut out, ",\"quality\":");
    push_quoted_text(&mut out, v.quality.as_str());
    push_text(&mut out, ",\"source_timestamp\":");
    push_quoted_text(&mut out, v.source_timestamp.as_str());
    push_text(&mut out, ",\"server_timestamp\":");
    push_quoted_text(&mut out, v.server_timestamp.as_str());
    push_text(&mut out, ",\"sequence\":");
    push_number(&mut out, v.sequence);
    push_text(&mut out, ",\"scan_interval_ms\":");
    push_number(&mut out, v.scan_interval_ms);
    push_text(&mut out, ",\"stale_after_ms\":");
    push_number(&mut out, v.stale_after_ms);
    push_text(&mut out, ",\"driver_id\":");
    push_quoted_text(&mut out, v.driver_id.as_str());
    push_text(&mut out, ",\"endpoint_id\":");
    push_quoted_text(&mut out, v.endpoint_id.as_str());
    push_text(&mut out, ",\"read_status\":");
    push_quoted_text(&mut out, v.read_status.as_str());
    push_text(&mut out, ",\"write_status\":");
    push_quoted_text(&mut out, v.write_status.as_str());
    push_text(&mut out, "}");
    assert(out@ =~= runtime_value_text(*v));
    string_of(out.as_slice())
}

} // verus!
