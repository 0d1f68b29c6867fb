//! The tag server's HTTP surface: requests and responses, the endpoint of the driver
//! manager, and the framing of the replies it reads.
use vstd::prelude::*;
use vstd::string::StrSliceExecFns;
use vstd::utf8::encode_utf8;

use crate::http::{
    find_header_index, header_value, header_views, parse_request, parse_request_parts,
    response_bytes, response_text, without_query, RequestFault,
};
use crate::command::{ControlCommand, ControlCommandStatus};
use crate::driver::{
    driver_write_request_to_json, driver_write_response_from_json_str, write_request_json,
    write_response_from_json, DriverWriteRequest, DriverWriteResponse,
};
use crate::http::byte_len;
use crate::json::{push_all, push_quoted, push_text, quoted};
use crate::mqtt::MqttBrokerEndpoint;
use crate::text::{
    chars_of, decimal, u64_text, find_first, find_first_exec, index_of, index_of_char, int_error_message,
    int_error_text, last_index_of, last_index_of_char, lemma_index_of, lemma_last_index_of, lines,
    lines_of, owned, parse_fault, parse_unsigned, parse_unsigned_checked, slice, string_of,
    trim_end_char, trim_end_char_exec, words, words_of, IntErrorKind,
};

verus! {

/// A request as the tag server handles it.
#[derive(Debug, Clone, PartialEq, Eq)]
pub struct HttpRequest {
    pub method: String,
    pub path: String,
    pub headers: Vec<(String, String)>,
    pub body: String,
}

impl HttpRequest {
    pub fn new(method: &str, path: &str, body: &str) -> (r: HttpRequest)
        ensures
            r.method@ == method@,
            r.path@ == path@,
            r.headers@.len() == 0,
            r.body@ == body@,
    {
        HttpRequest { method: owned(method), path: owned(path), headers: Vec::new(), body: owned(body) }
    }

    /// This request with one more header, after those it has.
    pub fn with_header(self, name: &str, value: &str) -> (r: HttpRequest)
        ensures
            r.method == self.method,
            r.path == self.path,
            r.body == self.body,
            header_views(r.headers@) == header_views(self.headers@).push((name@, value@)),
    {
        let mut r = self;
        let ghost before = r.headers@;
        r.headers.push((owned(name), owned(value)));
        assert(header_views(r.headers@) =~= header_views(before).push((name@, value@)));
        r
    }

    /// The value of the first header named `name`, ignoring ASCII case.
    pub fn header(&self, name: &str) -> (r: Option<&str>)
        ensures
            match r {
                Some(v) => header_value(header_views(self.headers@), name@) == Some(v@),
                None => header_value(header_views(self.headers@), name@) is None,
            },
    {
        match find_header_index(&self.headers, name) {
            Some(i) => Some(self.headers[i].1.as_str()),
            None => None,
        }
    }

    /// The path up to its first `?`.
    pub fn path_without_query(&self) -> (r: &str)
        ensures
            r@ == without_query(self.path@),
    {
        let p = chars_of(self.path.as_str());
        let k = index_of_char(p.as_slice(), '?');
        proof {
            lemma_index_of(self.path@, '?');
        }
        let r = self.path.as_str().substring_char(0, k);
        assert(r@ =~= without_query(self.path@));
        r
    }
}

/// The reason phrase the tag server writes for a status code.
pub open spec fn reason_of(status_code: u16) -> Seq<char> {
    if status_code == 200 {
        "OK"@
    } else if status_code == 202 {
        "Accepted"@
    } else if status_code == 400 {
        "Bad Request"@
    } else if status_code == 401 {
        "Unauthorized"@
    } else if status_code == 404 {
        "Not Found"@
    } else if status_code == 409 {
        "Conflict"@
    } else if status_code == 502 {
        "Bad Gateway"@
    } else {
        "OK"@
    }
}

fn status_reason(status_code: u16) -> (r: &'static str)
    ensures
        r@ == reason_of(status_code),
{
    match status_code {
        200 => "OK",
        202 => "Accepted",
        400 => "Bad Request",
        401 => "Unauthorized",
        404 => "Not Found",
        409 => "Conflict",
        502 => "Bad Gateway",
        _ => "OK",
    }
}

/// The content type of JSON replies.
pub open spec fn json_type() -> Seq<char> {
    "application/json"@
}

/// The content type of plain-text replies.
pub open spec fn text_type() -> Seq<char> {
    "text/plain; charset=utf-8"@
}

/// A response of the tag server.
#[derive(Debug, Clone, PartialEq, Eq)]
pub struct HttpResponse {
    pub status_code: u16,
    pub reason: &'static str,
    pub content_type: &'static str,
    pub body: String,
}

impl HttpResponse {
    /// The view of a response: status code, reason, content type and body.
    pub open spec fn parts(self) -> (u16, Seq<char>, Seq<char>, Seq<char>) {
        (self.status_code, self.reason@, self.content_type@, self.body@)
    }

    pub fn json(status_code: u16, body: String) -> (r: HttpResponse)
        ensures
            r.parts() == (status_code, reason_of(status_code), json_type(), body@),
    {
        HttpResponse { status_code, reason: status_reason(status_code), content_type: "application/json", body }
    }

    pub fn text(status_code: u16, body: &str) -> (r: HttpResponse)
        ensures
            r.parts() == (status_code, reason_of(status_code), text_type(), body@),
    {
        HttpResponse {
            status_code,
            reason: status_reason(status_code),
            content_type: "text/plain; charset=utf-8",
            body: owned(body),
        }
    }

    /// The bytes of the response on the wire.
    pub fn to_http_bytes(&self) -> (r: Vec<u8>)
        ensures
            r@ == encode_utf8(response_text(self.status_code, self.reason@, self.content_type@, self.body@)),
    {
        response_bytes(self.status_code, self.reason, self.content_type, self.body.as_str())
    }
}

/// The message for each way a request text can fail to parse.
pub open spec fn request_fault_message(f: RequestFault) -> Seq<char> {
    match f {
        RequestFault::NoHeaderTerminator => "missing http header terminator"@,
        RequestFault::NoRequestLine => "missing http request line"@,
        RequestFault::NoMethod => "missing http method"@,
        RequestFault::NoPath => "missing http path"@,
    }
}

/// Reads a request from its text: method and path from the first line, a header from each
/// later line that holds a `:` (both sides trimmed), and the body after the blank line.
pub fn parse_http_request(raw: &str) -> (r: Result<HttpRequest, String>)
    ensures
        match r {
            Ok(req) => parse_request(raw@) == Ok::<crate::http::RequestParts, RequestFault>(
                (req.method@, req.path@, header_views(req.headers@), req.body@),
            ),
            Err(e) => exists|f: RequestFault|
                parse_request(raw@) == Err::<crate::http::RequestParts, RequestFault>(f) && e@ == request_fault_message(f),
        },
{
    match parse_request_parts(raw) {
        Ok((method, path, headers, body)) => Ok(HttpRequest { method, path, headers, body }),
        Err(f) => {
            let m = match f {
                RequestFault::NoHeaderTerminator => "missing http header terminator",
                RequestFault::NoRequestLine => "missing http request line",
                RequestFault::NoMethod => "missing http method",
                RequestFault::NoPath => "missing http path",
            };
            assert(m@ == request_fault_message(f));
            Err(owned(m))
        },
    }
}

/// Where the driver manager listens: host, port and base path.
#[derive(Debug, Clone, PartialEq, Eq)]
pub struct HttpEndpoint {
    pub host: String,
    pub port: u16,
    pub base_path: String,
}

/// The message for a base URL without a host.
pub open spec fn missing_host() -> Seq<char> {
    "driver manager URL is missing host"@
}

/// Host, port and base path of an `http://` base URL: the authority runs to the first `/`,
/// a port follows its last `:` (80 where there is none), and the base path loses its
/// trailing slashes.
pub open spec fn endpoint_parts(input: Seq<char>) -> Result<(Seq<char>, u16, Seq<char>), Seq<char>> {
    let scheme = "http://"@;
    if !(scheme.len() <= input.len() && input.take(scheme.len() as int) == scheme) {
        Err("driver manager URL must start with http://"@)
    } else {
        let w = input.skip(scheme.len() as int);
        let k = index_of(w, '/');
        let authority = w.take(k);
        let path = if k < w.len() {
            w.skip(k)
        } else {
            seq![]
        };
        if authority.len() == 0 {
            Err(missing_host())
        } else {
            let c = last_index_of(authority, ':');
            if c >= 0 {
                let host = authority.take(c);
                let port = authority.skip(c + 1);
                match parse_unsigned(port, 65535) {
                    None => Err("invalid driver manager port: "@ + port),
                    Some(p) => if host.len() == 0 {
                        Err(missing_host())
                    } else {
                        Ok((host, p as u16, trim_end_char(path, '/')))
                    },
                }
            } else {
                Ok((authority, 80u16, trim_end_char(path, '/')))
            }
        }
    }
}

fn message_with(prefix: &str, tail: &[char]) -> (r: String)
    ensures
        r@ == prefix@ + tail@,
{
    let mut out: Vec<char> = Vec::new();
    push_text(&mut out, prefix);
    push_all(&mut out, tail);
    string_of(out.as_slice())
}

impl HttpEndpoint {
    /// Reads the driver manager's base URL.
    pub fn parse(input: &str) -> (r: Result<HttpEndpoint, String>)
        ensures
            match r {
                Ok(e) => endpoint_parts(input@) == Ok::<(Seq<char>, u16, Seq<char>), Seq<char>>(
                    (e.host@, e.port, e.base_path@),
                ),
                Err(m) => endpoint_parts(input@) == Err::<(Seq<char>, u16, Seq<char>), Seq<char>>(m@),
            },
    {
        proof {
            reveal_strlit("http://");
        }
        let cs = chars_of(input);
        let scheme = chars_of("http://");
        if !crate::text::starts_with(cs.as_slice(), scheme.as_slice()) {
            return Err(owned("driver manager URL must start with http://"));
        }
        assert(scheme@.len() == 7);
        let w = slice(cs.as_slice(), 7, cs.len());
        assert(w@ =~= input@.skip(7));
        let k = index_of_char(w.as_slice(), '/');
        proof {
            lemma_index_of(w@, '/');
        }
        let authority = slice(w.as_slice(), 0, k);
        assert(authority@ =~= w@.take(k as int));
        let path = if k < w.len() {
            slice(w.as_slice(), k, w.len())
        } else {
            Vec::new()
        };
        assert(path@ =~= (if k < w@.len() {
            w@.skip(k as int)
        } else {
            seq![]
        }));
        if authority.len() == 0 {
            return Err(owned("driver manager URL is missing host"));
        }
        let base = trim_end_char_exec(path.as_slice(), '/');
        match last_index_of_char(authority.as_slice(), ':') {
            Some(c) => {
                proof {
                    lemma_last_index_of(authority@, ':');
                }
                let host = slice(authority.as_slice(), 0, c);
                let port = slice(authority.as_slice(), c + 1, authority.len());
                assert(host@ =~= authority@.take(c as int));
                assert(port@ =~= authority@.skip(c + 1));
                match crate::text::parse_unsigned_exec(port.as_slice(), 65535) {
                    None => Err(message_with("invalid driver manager port: ", port.as_slice())),
                    Some(p) => {
                        if host.len() == 0 {
                            return Err(owned("driver manager URL is missing host"));
                        }
                        Ok(
                            HttpEndpoint {
                                host: string_of(host.as_slice()),
                                port: p as u16,
                                base_path: string_of(base.as_slice()),
                            },
                        )
                    },
                }
            },
            None => Ok(
                HttpEndpoint {
                    host: string_of(authority.as_slice()),
                    port: 80,
                    base_path: string_of(base.as_slice()),
                },
            ),
        }
    }

    /// The path of `suffix` under the base path.
    pub fn path_with(&self, suffix: &str) -> (r: String)
        ensures
            r@ == self.base_path@ + suffix@,
    {
        let mut out: Vec<char> = Vec::new();
        push_text(&mut out, self.base_path.as_str());
        push_text(&mut out, suffix);
        string_of(out.as_slice())
    }
}

/// Status code and body of a response text: the head ends at the first blank line, and
/// the code is the second word of its first line.
pub open spec fn response_status(raw: Seq<char>) -> Result<(u16, Seq<char>), Seq<char>> {
    match find_first(raw, "\r\n\r\n"@) {
        None => Err("malformed HTTP response"@),
        Some(k) => {
            let ls = lines(raw.take(k));
            if ls.len() == 0 {
                Err("missing HTTP status line"@)
            } else {
                let ws = words(ls[0]);
                if ws.len() < 2 {
                    Err("missing HTTP status code"@)
                } else {
                    match parse_fault(ws[1], 65535) {
                        Some(f) => Err("invalid HTTP status code: "@ + int_error_message(f)),
                        None => Ok((parse_unsigned(ws[1], 65535)->0 as u16, raw.skip(k + 4))),
                    }
                }
            }
        },
    }
}

/// Reads the status code and body of a response text.
pub fn parse_http_response(raw: &str) -> (r: Result<(u16, String), String>)
    ensures
        match r {
            Ok((status, body)) => response_status(raw@) == Ok::<(u16, Seq<char>), Seq<char>>((status, body@)),
            Err(e) => response_status(raw@) == Err::<(u16, Seq<char>), Seq<char>>(e@),
        },
{
    let cs = chars_of(raw);
    let term = chars_of("\r\n\r\n");
    proof {
        reveal_strlit("\r\n\r\n");
    }
    let k = match find_first_exec(cs.as_slice(), term.as_slice()) {
        Some(k) => k,
        None => {
            return Err(owned("malformed HTTP response"));
        },
    };
    assert(term@.len() == 4);
    let tl = term.len();
    let cl = cs.len();
    assert(k + tl <= cl);
    let head = slice(cs.as_slice(), 0, k);
    let body = slice(cs.as_slice(), k + tl, cl);
    assert(head@ =~= raw@.take(k as int));
    assert(body@ =~= raw@.skip(k + 4));
    let ls = lines_of(head.as_slice());
    if ls.len() == 0 {
        return Err(owned("missing HTTP status line"));
    }
    assert(crate::text::views(ls@)[0] == ls@[0]@);
    let ws = words_of(ls[0].as_slice());
    if ws.len() < 2 {
        return Err(owned("missing HTTP status code"));
    }
    assert(crate::text::views(ws@)[1] == ws@[1]@);
    match parse_unsigned_checked(ws[1].as_slice(), 65535) {
        Ok(n) => Ok((n as u16, string_of(body.as_slice()))),
        Err(kind) => {
            let m = int_error_text(kind);
            let t = chars_of(m);
            Err(message_with("invalid HTTP status code: ", t.as_slice()))
        },
    }
}

/// A control command's fields but its status: command id, idempotency key, user, tag,
/// requested value, request time and timeout.
pub type CommandFields = (Seq<char>, Seq<char>, Seq<char>, Seq<char>, Seq<char>, Seq<char>, u64);

/// The fields of a command but its status.
pub open spec fn command_fields(c: ControlCommand) -> CommandFields {
    (c.command_id@, c.idempotency_key@, c.user_id@, c.tag_id@, c.requested_value@, c.requested_at@, c.timeout_ms)
}

/// The JSON object of a command with fields `f` and `status`, its strings quoted.
pub open spec fn command_text(f: CommandFields, status: ControlCommandStatus) -> Seq<char> {
    "{\"command_id\":"@ + quoted(f.0) + ",\"idempotency_key\":"@ + quoted(f.1) + ",\"user_id\":"@
        + quoted(f.2) + ",\"tag_id\":"@ + quoted(f.3) + ",\"requested_value\":"@ + quoted(f.4)
        + ",\"status\":"@ + quoted(status.name()) + ",\"requested_at\":"@ + quoted(f.5)
        + ",\"timeout_ms\":"@ + decimal(f.6 as nat) + "}"@
}

/// The JSON object of a control command, its strings quoted, its status by name.
pub open spec fn command_json(c: ControlCommand) -> Seq<char> {
    command_text(command_fields(c), c.status)
}

fn push_quoted_str(out: &mut Vec<char>, s: &str)
    ensures
        final(out)@ == old(out)@ + quoted(s@),
{
    let cs = chars_of(s);
    push_quoted(out, cs.as_slice());
}

/// The JSON text of a control command.
pub fn control_command_to_json(command: &ControlCommand) -> (r: String)
    ensures
        r@ == command_json(*command),
{
    let mut out: Vec<char> = Vec::new();
    push_text(&mut out, "{\"command_id\":");
    push_quoted_str(&mut out, command.command_id.as_str());
    push_text(&mut out, ",\"idempotency_key\":");
    push_quoted_str(&mut out, command.idempotency_key.as_str());
    push_text(&mut out, ",\"user_id\":");
    push_quoted_str(&mut out, command.user_id.as_str());
    push_text(&mut out, ",\"tag_id\":");
    push_quoted_str(&mut out, command.tag_id.as_str());
    push_text(&mut out, ",\"requested_value\":");
    push_quoted_str(&mut out, command.requested_value.as_str());
    push_text(&mut out, ",\"status\":");
    push_quoted_str(&mut out, command.status.as_str());
    push_text(&mut out, ",\"requested_at\":");
    push_quoted_str(&mut out, command.requested_at.as_str());
    push_text(&mut out, ",\"timeout_ms\":");
    let t = u64_text(command.timeout_ms);
    push_all(&mut out, t.as_slice());
    push_text(&mut out, "}");
    assert(out@ =~= command_json(*command));
    string_of(out.as_slice())
}

/// Where the tag server sends driver writes.
#[derive(Debug, Clone, PartialEq, Eq)]
pub struct DriverManagerClientConfig {
    pub base_url: String,
}

/// What the tag server needs to publish tag values to the broker.
#[derive(Debug)]
pub struct MqttPublishConfig {
    pub endpoint: MqttBrokerEndpoint,
    pub client_id: String,
    pub timeout: std::time::Duration,
}

/// A driver write as it goes over the wire: the address to connect to and the request text.
#[derive(Debug, Clone, PartialEq, Eq)]
pub struct DriverWriteCall {
    pub host: String,
    pub port: u16,
    pub request_text: String,
}

/// The request that posts `body` to `path` on `host`.
pub open spec fn post_text(path: Seq<char>, host: Seq<char>, body: Seq<char>) -> Seq<char> {
    "POST "@ + path + " HTTP/1.1\r\nHost: "@ + host + "\r\nContent-Type: application/json\r\nContent-Length: "@
        + decimal(byte_len(body)) + "\r\nConnection: close\r\n\r\n"@ + body
}

/// The call that posts `request` to the driver manager at `base_url`, or why the URL is
/// refused.
pub open spec fn driver_write_call_of(base_url: Seq<char>, request: DriverWriteRequest) -> Result<(Seq<char>, u16, Seq<char>), Seq<char>> {
    match endpoint_parts(base_url) {
        Err(e) => Err(e),
        Ok((host, port, base_path)) => Ok(
            (host, port, post_text(base_path + "/api/v1/driver-writes"@, host, write_request_json(request))),
        ),
    }
}

/// The call that posts a driver write request to the driver manager.
pub fn driver_write_call(config: &DriverManagerClientConfig, request: &DriverWriteRequest) -> (r: Result<DriverWriteCall, String>)
    ensures
        match r {
            Ok(c) => driver_write_call_of(config.base_url@, *request) == Ok::<(Seq<char>, u16, Seq<char>), Seq<char>>(
                (c.host@, c.port, c.request_text@),
            ),
            Err(e) => driver_write_call_of(config.base_url@, *request) == Err::<(Seq<char>, u16, Seq<char>), Seq<char>>(e@),
        },
{
    let endpoint = match HttpEndpoint::parse(config.base_url.as_str()) {
        Ok(e) => e,
        Err(e) => {
            return Err(e);
        },
    };
    let body = driver_write_request_to_json(request);
    let path = endpoint.path_with("/api/v1/driver-writes");
    let mut out: Vec<char> = Vec::new();
    push_text(&mut out, "POST ");
    push_text(&mut out, path.as_str());
    push_text(&mut out, " HTTP/1.1\r\nHost: ");
    push_text(&mut out, endpoint.host.as_str());
    push_text(&mut out, "\r\nContent-Type: application/json\r\nContent-Length: ");
    let n = u64_text(body.as_str().len() as u64);
    push_all(&mut out, n.as_slice());
    push_text(&mut out, "\r\nConnection: close\r\n\r\n");
    push_text(&mut out, body.as_str());
    assert(out@ =~= post_text(path@, endpoint.host@, body@));
    Ok(DriverWriteCall { host: endpoint.host, port: endpoint.port, request_text: string_of(out.as_slice()) })
}

/// What the driver manager's reply text means for a write: its answer, or why there is none.
pub open spec fn driver_write_outcome_of(raw: Seq<char>) -> Result<(Seq<char>, bool, Seq<char>), Seq<char>> {
    match response_status(raw) {
        Err(e) => Err(e),
        Ok((status, body)) => if !(200 <= status < 300) {
            Err("driver manager returned status "@ + decimal(status as nat) + ": "@ + body)
        } else {
            write_response_from_json(body)
        },
    }
}

/// Reads the driver manager's reply to a write.
pub fn driver_write_outcome(raw: &str) -> (r: Result<DriverWriteResponse, String>)
    ensures
        match r {
            Ok(v) => driver_write_outcome_of(raw@) == Ok::<(Seq<char>, bool, Seq<char>), Seq<char>>(
                (v.command_id@, v.accepted, v.message@),
            ),
            Err(e) => driver_write_outcome_of(raw@) == Err::<(Seq<char>, bool, Seq<char>), Seq<char>>(e@),
        },
{
    let (status, body) = match parse_http_response(raw) {
        Ok(x) => x,
        Err(e) => {
            return Err(e);
        },
    };
    if !(200 <= status && status < 300) {
        let mut out: Vec<char> = Vec::new();
        push_text(&mut out, "driver manager returned status ");
        let t = u64_text(status as u64);
        push_all(&mut out, t.as_slice());
        push_text(&mut out, ": ");
        push_text(&mut out, body.as_str());
        return Err(string_of(out.as_slice()));
    }
    driver_write_response_from_json_str(body.as_str())
}

/// Where the tag server listens: `--addr`, else `<host>:<port>`, the host from
/// `--bind-host` or the environment or `127.0.0.1`, the port from `--port` or the
/// environment or `18080`.
pub open spec fn listen_address(args: Seq<Seq<char>>, env_host: Option<Seq<char>>, env_port: Option<Seq<char>>) -> Seq<char> {
    match crate::shell_cli::arg_value_of(args, "--addr"@) {
        Some(a) => a,
        None => {
            let host = match crate::shell_cli::arg_value_of(args, "--bind-host"@) {
                Some(h) => h,
                None => match env_host {
                    Some(h) => h,
                    None => "127.0.0.1"@,
                },
            };
            let port = match crate::shell_cli::arg_value_of(args, "--port"@) {
                Some(p) => p,
                None => match env_port {
                    Some(p) => p,
                    None => "18080"@,
                },
            };
            host + ":"@ + port
        },
    }
}

/// Where the tag server listens, from its arguments and the environment's bind host and
/// port.
pub fn listen_addr(args: &Vec<String>, env_host: Option<String>, env_port: Option<String>) -> (r: String)
    ensures
        r@ == listen_address(
            crate::json_doc::string_views(args@),
            crate::runtime_cli::opt_str(env_host),
            crate::runtime_cli::opt_str(env_port),
        ),
{
    if let Some(a) = crate::shell_cli::arg_value(args, "--addr") {
        return a;
    }
    let host = match crate::shell_cli::arg_value(args, "--bind-host") {
        Some(h) => h,
        None => match env_host {
            Some(h) => h,
            None => crate::text::owned("127.0.0.1"),
        },
    };
    let port = match crate::shell_cli::arg_value(args, "--port") {
        Some(p) => p,
        None => match env_port {
            Some(p) => p,
            None => crate::text::owned("18080"),
        },
    };
    let mut out = host;
    crate::text::push_str(&mut out, ":");
    crate::text::push_str(&mut out, port.as_str());
    out
}

} // verus!
