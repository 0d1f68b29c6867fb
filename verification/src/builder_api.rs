//! The screen builder's API: coded condition errors mapped to messages, and the HTTP
//! routes that read and save screen definitions in the project.
//!
//! Files and the error-map payload are read outside: `builder_step` says what a request
//! needs, and the `finish_*` functions turn what came back into the reply.
use vstd::prelude::*;
use vstd::utf8::encode_utf8;

use crate::http::{response_bytes, response_text, without_query, path_without_query_of};
use crate::json_doc::{
    array_elements, field_of, get_field, i64_value, json_array_elements, json_i64_value,
    json_object_fields, json_pretty, json_quoted, json_string_value, json_syntax_error,
    object_fields, pretty, quote, string_value, syntax_error,
};
use crate::json::push_text;
use crate::shell::{join_path, joined_path, segment_char};
use crate::text::{
    chars_of, find_first, find_first_exec, has_prefix, lines, lines_of, owned, push_str, slice,
    starts_with, str_eq, string_of, trim, trim_chars, views, words, words_of,
};

verus! {

/// A request to the builder API.
#[derive(Debug, Clone, PartialEq, Eq)]
pub struct BuilderHttpRequest {
    pub method: String,
    pub path: String,
    pub body: String,
}

impl BuilderHttpRequest {
    pub fn new(method: &str, path: &str, body: &str) -> (r: BuilderHttpRequest)
        ensures
            r.method@ == method@,
            r.path@ == path@,
            r.body@ == body@,
    {
        BuilderHttpRequest { method: owned(method), path: owned(path), body: owned(body) }
    }

    /// The path up to its first `?`.
    pub fn path_without_query(&self) -> (r: String)
        ensures
            r@ == without_query(self.path@),
    {
        path_without_query_of(self.path.as_str())
    }
}

/// The reason phrase the builder API gives each status code.
pub open spec fn status_text(status_code: u16) -> Seq<char> {
    if status_code == 200 {
        "OK"@
    } else if status_code == 400 {
        "Bad Request"@
    } else if status_code == 404 {
        "Not Found"@
    } else if status_code == 500 {
        "Internal Server Error"@
    } else {
        "Unknown"@
    }
}

/// The reason phrase of a status code.
pub fn status_reason(status_code: u16) -> (r: &'static str)
    ensures
        r@ == status_text(status_code),
{
    match status_code {
        200 => "OK",
        400 => "Bad Request",
        404 => "Not Found",
        500 => "Internal Server Error",
        _ => "Unknown",
    }
}

/// A reply of the builder API.
#[derive(Debug, Clone, PartialEq, Eq)]
pub struct BuilderHttpResponse {
    pub status_code: u16,
    pub reason: &'static str,
    pub content_type: &'static str,
    pub body: String,
}

impl BuilderHttpResponse {
    /// Status code, reason, content type and body.
    pub open spec fn parts(self) -> (u16, Seq<char>, Seq<char>, Seq<char>) {
        (self.status_code, self.reason@, self.content_type@, self.body@)
    }

    /// A JSON reply.
    pub fn json(status_code: u16, body: String) -> (r: BuilderHttpResponse)
        ensures
            r.parts() == (status_code, status_text(status_code), "application/json"@, body@),
    {
        BuilderHttpResponse {
            status_code,
            reason: status_reason(status_code),
            content_type: "application/json",
            body,
        }
    }

    /// The bytes of the reply on the wire.
    pub fn to_http_bytes(&self) -> (r: Vec<u8>)
        ensures
            r@ == encode_utf8(response_text(self.status_code, self.reason@, self.content_type@, self.body@)),
    {
        response_bytes(self.status_code, self.reason, self.content_type, self.body.as_str())
    }
}

/// A JSON reply with `status` and `body`.
pub open spec fn json_reply(r: BuilderHttpResponse, status: u16, body: Seq<char>) -> bool {
    r.parts() == (status, status_text(status), "application/json"@, body)
}

/// `s` with each `"` written as `\"`, nothing else escaped.
pub open spec fn quotes_escaped(s: Seq<char>) -> Seq<char>
    decreases s.len(),
{
    if s.len() == 0 {
        seq![]
    } else {
        quotes_escaped(s.drop_last()) + if s.last() == '"' {
            seq!['\\', '"']
        } else {
            seq![s.last()]
        }
    }
}

/// The error body: `{"error":"<message>"}`, the message's double quotes escaped.
pub open spec fn error_body(message: Seq<char>) -> Seq<char> {
    "{\"error\":\""@ + quotes_escaped(message) + "\"}"@
}

/// The error body for `message`.
pub fn error_json(message: &str) -> (r: String)
    ensures
        r@ == error_body(message@),
{
    let cs = chars_of(message);
    let mut out: Vec<char> = Vec::new();
    push_text(&mut out, "{\"error\":\"");
    let ghost head = out@;
    let mut i: usize = 0;
    assert(cs@.take(0) =~= Seq::<char>::empty());
    while i < cs.len()
        invariant
            i <= cs@.len(),
            cs@ == message@,
            out@ == head + quotes_escaped(cs@.take(i as int)),
        decreases cs@.len() - i,
    {
        let c = cs[i];
        if c == '"' {
            out.push('\\');
            out.push('"');
        } else {
            out.push(c);
        }
        assert(cs@.take(i + 1).drop_last() =~= cs@.take(i as int));
        assert(out@ =~= head + quotes_escaped(cs@.take(i + 1)));
        i = i + 1;
    }
    assert(cs@.take(i as int) =~= cs@);
    push_text(&mut out, "\"}");
    proof {
        reveal_strlit("{\"error\":\"");
        reveal_strlit("\"}");
    }
    assert(out@ =~= error_body(message@));
    string_of(out.as_slice())
}

/// A coded condition error: `... code=<code> path=<path> detail=<detail>`.
#[derive(Debug, Clone, PartialEq, Eq)]
pub struct CodedError {
    pub code: String,
    pub path: String,
    pub detail: String,
}

/// The code, path and detail of a coded error text: the code follows the first `code=`,
/// the path the next ` path=` and the detail the next ` detail=`, each trimmed.
pub open spec fn coded_parts(raw: Seq<char>) -> Option<(Seq<char>, Seq<char>, Seq<char>)> {
    match find_first(raw, "code="@) {
        None => None,
        Some(a) => {
            let cs = a + 5;
            match find_first(raw.skip(cs), " path="@) {
                None => None,
                Some(b) => {
                    let pm = cs + b;
                    let ps = pm + 6;
                    match find_first(raw.skip(ps), " detail="@) {
                        None => None,
                        Some(c) => {
                            let dm = ps + c;
                            Some((trim(raw.subrange(cs, pm)), trim(raw.subrange(ps, dm)), trim(raw.skip(dm + 8))))
                        },
                    }
                },
            }
        },
    }
}

/// Reads a coded error; `None` where a marker is missing.
pub fn parse_coded_error(raw: &str) -> (r: Option<CodedError>)
    ensures
        match r {
            Some(e) => coded_parts(raw@) == Some((e.code@, e.path@, e.detail@)),
            None => coded_parts(raw@) is None,
        },
{
    let s = chars_of(raw);
    let total: usize = s.len();
    let code_marker = chars_of("code=");
    let path_marker = chars_of(" path=");
    let detail_marker = chars_of(" detail=");
    proof {
        reveal_strlit("code=");
        reveal_strlit(" path=");
        reveal_strlit(" detail=");
    }
    let found = find_first_exec(s.as_slice(), code_marker.as_slice());
    if found.is_none() {
        return None;
    }
    let a = found.unwrap();
    assert(code_marker@.len() == 5);
    assert(path_marker@.len() == 6);
    assert(detail_marker@.len() == 8);
    assert(code_marker@.len() == 5);
    assert(path_marker@.len() == 6);
    assert(detail_marker@.len() == 8);
    let cs = a + 5;
    let rest = slice(s.as_slice(), cs, total);
    assert(rest@ =~= raw@.skip(cs as int));
    let found = find_first_exec(rest.as_slice(), path_marker.as_slice());
    if found.is_none() {
        return None;
    }
    let b = found.unwrap();
    let pm = cs + b;
    let ps = pm + 6;
    let rest2 = slice(s.as_slice(), ps, s.len());
    assert(rest2@ =~= raw@.skip(ps as int));
    let found = find_first_exec(rest2.as_slice(), detail_marker.as_slice());
    if found.is_none() {
        return None;
    }
    let c = found.unwrap();
    let dm = ps + c;
    let code = slice(s.as_slice(), cs, pm);
    let path = slice(s.as_slice(), ps, dm);
    let detail = slice(s.as_slice(), dm + 8, s.len());
    assert(code@ =~= raw@.subrange(cs as int, pm as int));
    assert(path@ =~= raw@.subrange(ps as int, dm as int));
    assert(detail@ =~= raw@.skip(dm + 8));
    let code_t = trim_chars(code.as_slice());
    let path_t = trim_chars(path.as_slice());
    let detail_t = trim_chars(detail.as_slice());
    Some(
        CodedError {
            code: string_of(code_t.as_slice()),
            path: string_of(path_t.as_slice()),
            detail: string_of(detail_t.as_slice()),
        },
    )
}

/// The user message for a known condition code at `path`; `None` for another code.
pub open spec fn condition_message(code: Seq<char>, path: Seq<char>) -> Option<Seq<char>> {
    let at = "invalid modify rule condition at "@ + path;
    if code == "MODIFY_RULE_CONDITION_MISSING_SELECTOR"@ {
        Some(at + ": choose op, all, or any"@)
    } else if code == "MODIFY_RULE_CONDITION_VALUE_REQUIRED"@ {
        Some(at + ": missing value"@)
    } else if code == "MODIFY_RULE_CONDITION_BETWEEN_REQUIRES_MIN_MAX"@ {
        Some(at + ": between requires min and max"@)
    } else if code == "MODIFY_RULE_CONDITION_BETWEEN_RANGE_INVALID"@ {
        Some(at + ": min must be less than or equal to max"@)
    } else if code == "MODIFY_RULE_CONDITION_IN_REQUIRES_VALUES"@ {
        Some(at + ": in requires non-empty values"@)
    } else if code == "MODIFY_RULE_CONDITION_UNSUPPORTED_OP"@ {
        Some(at + ": unsupported operator"@)
    } else {
        None
    }
}

/// A mapped condition error: its code, path and detail where it is coded, the message for
/// the user, and whether the code is one the builder knows.
#[derive(Debug, Clone, PartialEq, Eq)]
pub struct ConditionErrorMapping {
    pub code: Option<String>,
    pub path: Option<String>,
    pub detail: Option<String>,
    pub user_message: String,
    pub known_code: bool,
}

/// The view of an optional string.
pub open spec fn opt_seq(o: Option<String>) -> Option<Seq<char>> {
    match o {
        Some(s) => Some(s@),
        None => None,
    }
}

/// A mapping as plain values.
pub type MappingView = (Option<Seq<char>>, Option<Seq<char>>, Option<Seq<char>>, Seq<char>, bool);

/// The view of a mapping.
pub open spec fn mapping_view(m: ConditionErrorMapping) -> MappingView {
    (opt_seq(m.code), opt_seq(m.path), opt_seq(m.detail), m.user_message@, m.known_code)
}

/// The mapping of an error text: an uncoded text is kept as the message; a coded one
/// gets the message of its code, or keeps the text where the code is not known. The code
/// counts as known where it is not empty and the message differs from the text.
pub open spec fn mapping_of(raw: Seq<char>) -> MappingView {
    match coded_parts(raw) {
        None => (None, None, None, raw, false),
        Some((code, path, detail)) => {
            let message = match condition_message(code, path) {
                Some(m) => m,
                None => raw,
            };
            (Some(code), Some(path), Some(detail), message, code.len() > 0 && message != raw)
        },
    }
}

/// The message for a known condition code at `path`.
fn condition_message_of(code: &str, path: &str) -> (r: Option<String>)
    ensures
        opt_seq(r) == condition_message(code@, path@),
{
    let tail = if str_eq(code, "MODIFY_RULE_CONDITION_MISSING_SELECTOR") {
        ": choose op, all, or any"
    } else if str_eq(code, "MODIFY_RULE_CONDITION_VALUE_REQUIRED") {
        ": missing value"
    } else if str_eq(code, "MODIFY_RULE_CONDITION_BETWEEN_REQUIRES_MIN_MAX") {
        ": between requires min and max"
    } else if str_eq(code, "MODIFY_RULE_CONDITION_BETWEEN_RANGE_INVALID") {
        ": min must be less than or equal to max"
    } else if str_eq(code, "MODIFY_RULE_CONDITION_IN_REQUIRES_VALUES") {
        ": in requires non-empty values"
    } else if str_eq(code, "MODIFY_RULE_CONDITION_UNSUPPORTED_OP") {
        ": unsupported operator"
    } else {
        return None;
    };
    let mut m = owned("invalid modify rule condition at ");
    push_str(&mut m, path);
    push_str(&mut m, tail);
    Some(m)
}

/// Maps a condition error text for the user.
pub fn map_condition_error(raw: &str) -> (r: ConditionErrorMapping)
    ensures
        mapping_view(r) == mapping_of(raw@),
{
    match parse_coded_error(raw) {
        None => ConditionErrorMapping {
            code: None,
            path: None,
            detail: None,
            user_message: owned(raw),
            known_code: false,
        },
        Some(parsed) => {
            let message = match condition_message_of(parsed.code.as_str(), parsed.path.as_str()) {
                Some(m) => m,
                None => owned(raw),
            };
            let known_code = parsed.code.unicode_len() > 0 && !str_eq(message.as_str(), raw);
            ConditionErrorMapping {
                code: Some(parsed.code),
                path: Some(parsed.path),
                detail: Some(parsed.detail),
                user_message: message,
                known_code,
            }
        },
    }
}

/// The user message for a condition error text.
pub fn map_condition_error_message(raw: &str) -> (r: String)
    ensures
        r@ == mapping_of(raw@).3,
{
    map_condition_error(raw).user_message
}

/// An optional string as JSON: quoted, or `null`.
pub open spec fn opt_json(o: Option<Seq<char>>) -> Seq<char> {
    match o {
        Some(s) => json_quoted(s),
        None => "null"@,
    }
}

/// A mapping as a JSON object with the fields `code`, `path`, `detail`, `user_message` and
/// `known_code`, in that order.
pub open spec fn mapping_text(m: MappingView) -> Seq<char> {
    "{\"code\":"@ + opt_json(m.0) + ",\"path\":"@ + opt_json(m.1) + ",\"detail\":"@ + opt_json(m.2)
        + ",\"user_message\":"@ + json_quoted(m.3) + ",\"known_code\":"@ + if m.4 {
        "true"@
    } else {
        "false"@
    }
        + "}"@
}

fn push_opt_json(out: &mut Vec<char>, o: &Option<String>)
    ensures
        final(out)@ == old(out)@ + opt_json(opt_seq(*o)),
{
    match o {
        Some(s) => {
            let q = quote(s.as_str());
            push_text(out, q.as_str());
        },
        None => push_text(out, "null"),
    }
}

/// A mapping as JSON.
pub fn mapping_json(m: &ConditionErrorMapping) -> (r: String)
    ensures
        r@ == mapping_text(mapping_view(*m)),
{
    let mut out: Vec<char> = Vec::new();
    push_text(&mut out, "{\"code\":");
    push_opt_json(&mut out, &m.code);
    push_text(&mut out, ",\"path\":");
    push_opt_json(&mut out, &m.path);
    push_text(&mut out, ",\"detail\":");
    push_opt_json(&mut out, &m.detail);
    push_text(&mut out, ",\"user_message\":");
    let q = quote(m.user_message.as_str());
    push_text(&mut out, q.as_str());
    push_text(&mut out, ",\"known_code\":");
    push_text(&mut out, if m.known_code { "true" } else { "false" });
    push_text(&mut out, "}");
    assert(out@ =~= mapping_text(mapping_view(*m)));
    string_of(out.as_slice())
}

/// The screen named by a path `/api/v1/screens/<id>`, where the id is not empty and holds
/// no `/`.
pub open spec fn screen_id_of(path: Seq<char>) -> Option<Seq<char>> {
    if has_prefix(path, "/api/v1/screens/"@) {
        let id = path.skip(16);
        if id.len() > 0 && !id.contains('/') {
            Some(id)
        } else {
            None
        }
    } else {
        None
    }
}

/// The screen a request path names.
pub fn screen_id_from_path(path: &str) -> (r: Option<String>)
    ensures
        opt_seq(r) == screen_id_of(path@),
{
    let p = chars_of(path);
    let prefix = chars_of("/api/v1/screens/");
    proof {
        reveal_strlit("/api/v1/screens/");
    }
    if !starts_with(p.as_slice(), prefix.as_slice()) {
        return None;
    }
    let id = slice(p.as_slice(), 16, p.len());
    assert(id@ =~= path@.skip(16));
    if id.len() == 0 {
        return None;
    }
    let mut k: usize = 0;
    while k < id.len()
        invariant
            k <= id@.len(),
            id@ == path@.skip(16),
            id@.len() > 0,
            has_prefix(path@, "/api/v1/screens/"@),
            forall|j: int| 0 <= j < k ==> id@[j] != '/',
        decreases id@.len() - k,
    {
        if id[k] == '/' {
            assert(id@[k as int] == '/');
            assert(id@.contains('/'));
            return None;
        }
        k = k + 1;
    }
    assert(!id@.contains('/'));
    Some(string_of(id.as_slice()))
}

/// A screen id made of ASCII letters, digits, `-` and `_`.
pub open spec fn valid_screen_id(id: Seq<char>) -> bool {
    forall|k: int| 0 <= k < id.len() ==> segment_char(#[trigger] id[k])
}

/// Whether a screen id is made of ASCII letters, digits, `-` and `_`.
pub fn is_valid_screen_id(screen_id: &str) -> (b: bool)
    ensures
        b == valid_screen_id(screen_id@),
{
    let cs = chars_of(screen_id);
    let mut k: usize = 0;
    while k < cs.len()
        invariant
            k <= cs@.len(),
            cs@ == screen_id@,
            forall|j: int| 0 <= j < k ==> segment_char(#[trigger] cs@[j]),
        decreases cs@.len() - k,
    {
        let c = cs[k];
        let ok = ('a' <= c && c <= 'z') || ('A' <= c && c <= 'Z') || ('0' <= c && c <= '9') || c == '_' || c == '-';
        if !ok {
            assert(!segment_char(cs@[k as int]));
            return false;
        }
        k = k + 1;
    }
    true
}

/// The directory of the project's screens.
pub open spec fn screens_dir(root: Seq<char>) -> Seq<char> {
    joined_path(joined_path(root, "config"@), "screens"@)
}

/// The file of screen `id` in the project at `root`.
pub open spec fn screen_file(root: Seq<char>, id: Seq<char>) -> Seq<char> {
    joined_path(screens_dir(root), id + ".screen.json"@)
}

/// The file of a screen in the project.
pub fn screen_file_path(project_root: &str, screen_id: &str) -> (r: String)
    ensures
        r@ == screen_file(project_root@, screen_id@),
{
    let config = join_path(project_root, "config");
    let screens = join_path(config.as_str(), "screens");
    let mut name = owned(screen_id);
    push_str(&mut name, ".screen.json");
    join_path(screens.as_str(), name.as_str())
}

/// Entry `key` holds a JSON string.
pub open spec fn has_string(fields: Seq<(Seq<char>, Seq<char>)>, key: Seq<char>) -> bool {
    match field_of(fields, key) {
        Some(t) => json_string_value(t) is Some,
        None => false,
    }
}

/// Entry `key` holds a number that fits an `i64`.
pub open spec fn has_i64(fields: Seq<(Seq<char>, Seq<char>)>, key: Seq<char>) -> bool {
    match field_of(fields, key) {
        Some(t) => json_i64_value(t) is Some,
        None => false,
    }
}

/// Entry `key` holds an array.
pub open spec fn has_array(fields: Seq<(Seq<char>, Seq<char>)>, key: Seq<char>) -> bool {
    match field_of(fields, key) {
        Some(t) => json_array_elements(t) is Some,
        None => false,
    }
}

/// A screen definition is accepted only where its text is an object holding strings
/// `schema_version`, `screen_id`, `project_id` and `name`, integers `canvas_width` and
/// `canvas_height`, and an `objects` array; a text lacking any of them is refused, and one
/// holding all of them is accepted.
pub proof fn screen_shape_needs_every_field(text: Seq<char>)
    ensures
        screen_shape(text) <==> (json_object_fields(text) matches Some(f) && {
            &&& field_of(f, "schema_version"@) matches Some(v) && json_string_value(v) is Some
            &&& field_of(f, "screen_id"@) matches Some(v) && json_string_value(v) is Some
            &&& field_of(f, "project_id"@) matches Some(v) && json_string_value(v) is Some
            &&& field_of(f, "name"@) matches Some(v) && json_string_value(v) is Some
            &&& field_of(f, "canvas_width"@) matches Some(v) && json_i64_value(v) is Some
            &&& field_of(f, "canvas_height"@) matches Some(v) && json_i64_value(v) is Some
            &&& field_of(f, "objects"@) matches Some(v) && json_array_elements(v) is Some
        }),
{
}

/// `text` holds an object with string `schema_version`, `screen_id`, `project_id` and
/// `name`, integer `canvas_width` and `canvas_height`, and an `objects` array.
pub open spec fn screen_shape(text: Seq<char>) -> bool {
    match json_object_fields(text) {
        Some(f) => {
            &&& has_string(f, "schema_version"@)
            &&& has_string(f, "screen_id"@)
            &&& has_string(f, "project_id"@)
            &&& has_string(f, "name"@)
            &&& has_i64(f, "canvas_width"@)
            &&& has_i64(f, "canvas_height"@)
            &&& has_array(f, "objects"@)
        },
        None => false,
    }
}

fn field_has_string(fields: &Vec<(String, String)>, key: &str) -> (b: bool)
    ensures
        b == has_string(crate::json_doc::pair_views(fields@), key@),
{
    match get_field(fields, key) {
        Some(t) => string_value(t.as_str()).is_some(),
        None => false,
    }
}

fn field_has_i64(fields: &Vec<(String, String)>, key: &str) -> (b: bool)
    ensures
        b == has_i64(crate::json_doc::pair_views(fields@), key@),
{
    match get_field(fields, key) {
        Some(t) => i64_value(t.as_str()).is_some(),
        None => false,
    }
}

fn field_has_array(fields: &Vec<(String, String)>, key: &str) -> (b: bool)
    ensures
        b == has_array(crate::json_doc::pair_views(fields@), key@),
{
    match get_field(fields, key) {
        Some(t) => array_elements(t.as_str()).is_some(),
        None => false,
    }
}

/// Whether `text` holds a screen definition's shape.
pub fn is_screen_definition_shape(text: &str) -> (b: bool)
    ensures
        b == screen_shape(text@),
{
    match object_fields(text) {
        None => false,
        Some(f) => {
            field_has_string(&f, "schema_version") && field_has_string(&f, "screen_id")
                && field_has_string(&f, "project_id") && field_has_string(&f, "name")
                && field_has_i64(&f, "canvas_width") && field_has_i64(&f, "canvas_height")
                && field_has_array(&f, "objects")
        },
    }
}

/// The body of the health reply.
pub open spec fn health_text() -> Seq<char> {
    "{\"service\":\"builder-api\",\"status\":\"healthy\"}"@
}

/// The body of the reply to a saved screen: the file's path in the project, as JSON.
pub open spec fn saved_text(id: Seq<char>) -> Seq<char> {
    "{\"saved_path\":"@ + json_quoted("config/screens/"@ + id + ".screen.json"@) + "}"@
}

/// The `screen_id` string that a JSON object text holds, if any.
pub open spec fn body_screen_id(text: Seq<char>) -> Option<Seq<char>> {
    match json_object_fields(text) {
        Some(f) => match field_of(f, "screen_id"@) {
            Some(t) => json_string_value(t),
            None => None,
        },
        None => None,
    }
}

/// What a request needs, as plain values: a reply with status and body, an error-map
/// payload to read, a screen file to read, or a screen file to write (its directory, its
/// path, its contents and the body of the reply once written).
pub enum StepView {
    Reply(u16, Seq<char>),
    MapError(Seq<char>),
    ReadScreen(Seq<char>),
    WriteScreen(Seq<char>, Seq<char>, Seq<char>, Seq<char>),
}

/// What saving screen `id` with `body` needs: the body must be JSON of a screen
/// definition's shape with the same screen id; it is saved in the pretty layout.
pub open spec fn put_step(root: Seq<char>, id: Seq<char>, body: Seq<char>) -> StepView {
    match json_syntax_error(body) {
        Some(e) => StepView::Reply(400, error_body("invalid screen-definition JSON: "@ + e)),
        None => if !screen_shape(body) {
            StepView::Reply(400, error_body("invalid screen-definition shape"@))
        } else if body_screen_id(body) != Some(id) {
            StepView::Reply(400, error_body("screen_id in body must match path"@))
        } else {
            StepView::WriteScreen(
                screens_dir(root),
                screen_file(root, id),
                json_pretty(body).unwrap() + "\n"@,
                saved_text(id),
            )
        },
    }
}

/// The route of a request: health, the error map, a screen to read or save, or not found.
pub open spec fn builder_route(method: Seq<char>, path: Seq<char>, body: Seq<char>, root: Seq<char>) -> StepView {
    let p = without_query(path);
    if method == "GET"@ && p == "/health"@ {
        StepView::Reply(200, health_text())
    } else if method == "POST"@ && p == "/api/v1/errors/map"@ {
        StepView::MapError(body)
    } else {
        match screen_id_of(p) {
            Some(id) => if !valid_screen_id(id) {
                StepView::Reply(400, error_body("invalid screen id"@))
            } else if method == "GET"@ {
                StepView::ReadScreen(screen_file(root, id))
            } else if method == "PUT"@ {
                put_step(root, id, body)
            } else {
                StepView::Reply(404, error_body("not found"@))
            },
            None => StepView::Reply(404, error_body("not found"@)),
        }
    }
}

/// What a request to the builder API needs.
pub enum BuilderStep {
    Reply(BuilderHttpResponse),
    MapError(String),
    ReadScreen(String),
    WriteScreen { dir: String, path: String, contents: String, saved_body: String },
}

/// The view of a step.
pub open spec fn step_view(s: BuilderStep) -> StepView {
    match s {
        BuilderStep::Reply(r) => StepView::Reply(r.status_code, r.body@),
        BuilderStep::MapError(b) => StepView::MapError(b@),
        BuilderStep::ReadScreen(p) => StepView::ReadScreen(p@),
        BuilderStep::WriteScreen { dir, path, contents, saved_body } => StepView::WriteScreen(
            dir@,
            path@,
            contents@,
            saved_body@,
        ),
    }
}

/// A step that replies does so with JSON and the status's reason.
pub open spec fn well_formed_step(s: BuilderStep) -> bool {
    s matches BuilderStep::Reply(r) ==> r.reason@ == status_text(r.status_code) && r.content_type@
        == "application/json"@
}

fn reply(status: u16, body: String) -> (s: BuilderStep)
    ensures
        step_view(s) == StepView::Reply(status, body@),
        well_formed_step(s),
{
    BuilderStep::Reply(BuilderHttpResponse::json(status, body))
}

fn error_reply(status: u16, message: &str) -> (s: BuilderStep)
    ensures
        step_view(s) == StepView::Reply(status, error_body(message@)),
        well_formed_step(s),
{
    reply(status, error_json(message))
}

fn body_screen_id_of(text: &str) -> (r: Option<String>)
    ensures
        opt_seq(r) == body_screen_id(text@),
{
    match object_fields(text) {
        None => None,
        Some(f) => match get_field(&f, "screen_id") {
            None => None,
            Some(t) => string_value(t.as_str()),
        },
    }
}

/// What saving a screen needs.
fn put_screen_step(root: &str, id: &str, body: &str) -> (s: BuilderStep)
    ensures
        step_view(s) == put_step(root@, id@, body@),
        well_formed_step(s),
{
    match syntax_error(body) {
        Some(e) => {
            let mut m = owned("invalid screen-definition JSON: ");
            push_str(&mut m, e.as_str());
            return error_reply(400, m.as_str());
        },
        None => {},
    }
    if !is_screen_definition_shape(body) {
        return error_reply(400, "invalid screen-definition shape");
    }
    let same = match body_screen_id_of(body) {
        Some(b) => str_eq(b.as_str(), id),
        None => false,
    };
    if !same {
        return error_reply(400, "screen_id in body must match path");
    }
    let p = pretty(body);
    let mut contents = p.unwrap();
    push_str(&mut contents, "\n");
    let mut saved = owned("config/screens/");
    push_str(&mut saved, id);
    push_str(&mut saved, ".screen.json");
    let mut saved_body = owned("{\"saved_path\":");
    let q = quote(saved.as_str());
    push_str(&mut saved_body, q.as_str());
    push_str(&mut saved_body, "}");
    let config = join_path(root, "config");
    let dir = join_path(config.as_str(), "screens");
    BuilderStep::WriteScreen { dir, path: screen_file_path(root, id), contents, saved_body }
}

/// What a request needs, in the project at `project_root`.
pub fn builder_step(request: &BuilderHttpRequest, project_root: &str) -> (s: BuilderStep)
    ensures
        step_view(s) == builder_route(request.method@, request.path@, request.body@, project_root@),
        well_formed_step(s),
{
    let p = request.path_without_query();
    let method = request.method.as_str();
    if str_eq(method, "GET") && str_eq(p.as_str(), "/health") {
        return reply(200, owned("{\"service\":\"builder-api\",\"status\":\"healthy\"}"));
    }
    if str_eq(method, "POST") && str_eq(p.as_str(), "/api/v1/errors/map") {
        return BuilderStep::MapError(request.body.clone());
    }
    match screen_id_from_path(p.as_str()) {
        None => error_reply(404, "not found"),
        Some(id) => {
            if !is_valid_screen_id(id.as_str()) {
                error_reply(400, "invalid screen id")
            } else if str_eq(method, "GET") {
                BuilderStep::ReadScreen(screen_file_path(project_root, id.as_str()))
            } else if str_eq(method, "PUT") {
                put_screen_step(project_root, id.as_str(), request.body.as_str())
            } else {
                error_reply(404, "not found")
            }
        },
    }
}

/// The reply to an error-map request: the payload's `error` text, or why the payload could
/// not be read.
pub fn finish_map_error(parsed: Result<String, String>) -> (r: BuilderHttpResponse)
    ensures
        match parsed {
            Ok(e) => json_reply(r, 200, mapping_text(mapping_of(e@))),
            Err(m) => json_reply(r, 400, error_body("invalid error map JSON: "@ + m@)),
        },
{
    match parsed {
        Ok(e) => {
            let mapped = map_condition_error(e.as_str());
            BuilderHttpResponse::json(200, mapping_json(&mapped))
        },
        Err(m) => {
            let mut msg = owned("invalid error map JSON: ");
            push_str(&mut msg, m.as_str());
            BuilderHttpResponse::json(400, error_json(msg.as_str()))
        },
    }
}

/// What reading a screen file gave.
pub enum ScreenRead {
    Found(String),
    Missing,
    Failed(String),
}

/// The reply to a screen read: the file's text, not found, or the error.
pub fn finish_read_screen(outcome: ScreenRead) -> (r: BuilderHttpResponse)
    ensures
        match outcome {
            ScreenRead::Found(b) => json_reply(r, 200, b@),
            ScreenRead::Missing => json_reply(r, 404, error_body("screen definition not found"@)),
            ScreenRead::Failed(e) => json_reply(r, 500, error_body(e@)),
        },
{
    match outcome {
        ScreenRead::Found(b) => BuilderHttpResponse::json(200, b),
        ScreenRead::Missing => BuilderHttpResponse::json(404, error_json("screen definition not found")),
        ScreenRead::Failed(e) => BuilderHttpResponse::json(500, error_json(e.as_str())),
    }
}

/// The reply to a screen save: the saved body, or the error of creating the directory or
/// writing the file.
pub fn finish_write_screen(outcome: Result<(), String>, saved_body: String) -> (r: BuilderHttpResponse)
    ensures
        match outcome {
            Ok(_) => json_reply(r, 200, saved_body@),
            Err(e) => json_reply(r, 500, error_body(e@)),
        },
{
    match outcome {
        Ok(_) => BuilderHttpResponse::json(200, saved_body),
        Err(e) => BuilderHttpResponse::json(500, error_json(e.as_str())),
    }
}

/// What the builder API needs from outside: the error-map payload read into its `error`
/// text, a screen file read, a screen file written with its directory made. Nothing is
/// assumed of what comes back.
pub trait BuilderIo {
    fn parse_error_map(&self, body: &str) -> Result<String, String>;

    fn read_screen(&self, path: &str) -> ScreenRead;

    fn write_screen(&self, dir: &str, path: &str, contents: &str) -> Result<(), String>;
}

/// The reply to an error-map payload: its `error` text mapped, or why it could not be
/// read.
pub open spec fn map_reply(r: BuilderHttpResponse, parsed: Result<Seq<char>, Seq<char>>) -> bool {
    match parsed {
        Ok(e) => json_reply(r, 200, mapping_text(mapping_of(e))),
        Err(m) => json_reply(r, 400, error_body("invalid error map JSON: "@ + m)),
    }
}

/// The reply to a screen read: the file's text, not found, or the error.
pub open spec fn read_reply(r: BuilderHttpResponse, read: Option<Result<Seq<char>, Seq<char>>>) -> bool {
    match read {
        Some(Ok(b)) => json_reply(r, 200, b),
        None => json_reply(r, 404, error_body("screen definition not found"@)),
        Some(Err(e)) => json_reply(r, 500, error_body(e)),
    }
}

/// The view of a text or an error.
pub open spec fn result_view(p: Result<String, String>) -> Result<Seq<char>, Seq<char>> {
    match p {
        Ok(e) => Ok(e@),
        Err(m) => Err(m@),
    }
}

/// The view of what reading a screen gave.
pub open spec fn read_view(o: ScreenRead) -> Option<Result<Seq<char>, Seq<char>>> {
    match o {
        ScreenRead::Found(b) => Some(Ok(b@)),
        ScreenRead::Missing => None,
        ScreenRead::Failed(e) => Some(Err(e@)),
    }
}

/// The error of a failed write, empty for a write that succeeded.
pub open spec fn write_error(o: Result<(), String>) -> Seq<char> {
    match o {
        Ok(_) => Seq::empty(),
        Err(m) => m@,
    }
}

/// Answers a request in the project at `project_root`, with `io` for what is outside:
/// what the route needs is asked of `io`, and the reply is the one for what came back.
pub fn handle_builder_request_with<I: BuilderIo>(request: &BuilderHttpRequest, project_root: &str, io: &I) -> (r: BuilderHttpResponse)
    ensures
        match builder_route(request.method@, request.path@, request.body@, project_root@) {
            StepView::Reply(status, body) => json_reply(r, status, body),
            StepView::MapError(_) => exists|p: Result<Seq<char>, Seq<char>>| #[trigger] map_reply(r, p),
            StepView::ReadScreen(_) => exists|o: Option<Result<Seq<char>, Seq<char>>>| #[trigger] read_reply(r, o),
            StepView::WriteScreen(_, _, _, saved) => json_reply(r, 200, saved) || exists|e: Seq<char>|
                json_reply(r, 500, #[trigger] error_body(e)),
        },
{
    match builder_step(request, project_root) {
        BuilderStep::Reply(r) => r,
        BuilderStep::MapError(body) => {
            let parsed = io.parse_error_map(body.as_str());
            let ghost p = result_view(parsed);
            let r = finish_map_error(parsed);
            assert(map_reply(r, p));
            r
        },
        BuilderStep::ReadScreen(path) => {
            let outcome = io.read_screen(path.as_str());
            let ghost o = read_view(outcome);
            let r = finish_read_screen(outcome);
            assert(read_reply(r, o));
            r
        },
        BuilderStep::WriteScreen { dir, path, contents, saved_body } => {
            let outcome = io.write_screen(dir.as_str(), path.as_str(), contents.as_str());
            let ghost e = write_error(outcome);
            let r = finish_write_screen(outcome, saved_body);
            assert(json_reply(r, 200, saved_body@) || json_reply(r, 500, error_body(e)));
            r
        },
    }
}

/// The text of a builder request: method and path from the first line, the body after the
/// first blank line.
pub open spec fn builder_request(raw: Seq<char>) -> Result<(Seq<char>, Seq<char>, Seq<char>), Seq<char>> {
    match find_first(raw, "\r\n\r\n"@) {
        None => Err("invalid http request"@),
        Some(k) => {
            let ls = lines(raw.take(k));
            if ls.len() == 0 {
                Err("missing request line"@)
            } else {
                let ws = words(ls[0]);
                if ws.len() == 0 {
                    Err("missing method"@)
                } else if ws.len() == 1 {
                    Err("missing path"@)
                } else {
                    Ok((ws[0], ws[1], raw.skip(k + 4)))
                }
            }
        },
    }
}

/// Reads a builder request from its text.
pub fn parse_http_request(raw: &str) -> (r: Result<BuilderHttpRequest, String>)
    ensures
        match r {
            Ok(req) => builder_request(raw@) == Ok::<(Seq<char>, Seq<char>, Seq<char>), Seq<char>>(
                (req.method@, req.path@, req.body@),
            ),
            Err(m) => builder_request(raw@) == Err::<(Seq<char>, Seq<char>, Seq<char>), Seq<char>>(m@),
        },
{
    let s = chars_of(raw);
    let total: usize = s.len();
    let sep = chars_of("\r\n\r\n");
    proof {
        reveal_strlit("\r\n\r\n");
    }
    assert(sep@.len() == 4);
    let found = find_first_exec(s.as_slice(), sep.as_slice());
    if found.is_none() {
        return Err(owned("invalid http request"));
    }
    let k = found.unwrap();
    let head = slice(s.as_slice(), 0, k);
    assert(head@ =~= raw@.take(k as int));
    let body = slice(s.as_slice(), k + 4, total);
    assert(body@ =~= raw@.skip(k + 4));
    let ls = lines_of(head.as_slice());
    if ls.len() == 0 {
        return Err(owned("missing request line"));
    }
    assert(views(ls@)[0] == ls@[0]@);
    let ws = words_of(ls[0].as_slice());
    if ws.len() == 0 {
        return Err(owned("missing method"));
    }
    if ws.len() == 1 {
        return Err(owned("missing path"));
    }
    assert(views(ws@)[0] == ws@[0]@);
    assert(views(ws@)[1] == ws@[1]@);
    Ok(
        BuilderHttpRequest {
            method: string_of(ws[0].as_slice()),
            path: string_of(ws[1].as_slice()),
            body: string_of(body.as_slice()),
        },
    )
}

/// A code counts as known only where it is one of the condition codes with a message of
/// its own, and the message is then that code's message; any other error keeps its own
/// text as the message.
pub proof fn known_codes_have_messages(raw: Seq<char>)
    ensures
        mapping_of(raw).4 ==> (coded_parts(raw) matches Some((code, path, _d)) && condition_message(code, path)
            == Some(mapping_of(raw).3)),
        !mapping_of(raw).4 ==> mapping_of(raw).3 == raw,
{
    if let Some((code, path, _d)) = coded_parts(raw) {
        if code.len() == 0 {
            reveal_strlit("MODIFY_RULE_CONDITION_MISSING_SELECTOR");
            reveal_strlit("MODIFY_RULE_CONDITION_VALUE_REQUIRED");
            reveal_strlit("MODIFY_RULE_CONDITION_BETWEEN_REQUIRES_MIN_MAX");
            reveal_strlit("MODIFY_RULE_CONDITION_BETWEEN_RANGE_INVALID");
            reveal_strlit("MODIFY_RULE_CONDITION_IN_REQUIRES_VALUES");
            reveal_strlit("MODIFY_RULE_CONDITION_UNSUPPORTED_OP");
            assert(condition_message(code, path) is None);
        }
    }
}

} // verus!
