//! The preview runtime's HTTP pieces: the tag server's address, the client that talks to
//! it, the requests and responses the runtime serves, and the errors of the client.
use vstd::prelude::*;
use vstd::string::StrSliceExecFns;
use vstd::utf8::encode_utf8;

use crate::http::{
    byte_len, crlf_joined, find_header_index, head_line, header_pairs, header_value, header_views,
    lemma_head_end, lemma_header_line, lemma_lines_of_head, lemma_words_cons, lemma_words_one,
    parse_request, parse_request_parts, response_bytes, response_text, without_query, RequestFault,
    RequestParts,
};
use crate::json::{push_all, push_text};
use crate::json_doc::json_quoted;
use crate::screen::join_with;
use crate::tag_server_api::authorized;
use crate::text::{
    chars_of, decimal, digit_char, lemma_index_past, eq_ignore_case, find_first, is_ws, lemma_first_match_unique, trim, trim_end,
    trim_start, words, find_first_exec, index_of, index_of_char, last_index_of,
    last_index_of_char, lemma_index_of, lemma_last_index_of, lines, lines_of, owned,
    parse_unsigned, parse_unsigned_exec, slice, string_of, trim_end_char, trim_end_char_exec,
    u64_text,
};

verus! {

/// The tag server's address as the runtime reaches it.
#[derive(Debug, Clone, PartialEq, Eq)]
pub struct TagServerEndpoint {
    pub host: String,
    pub port: u16,
}

/// What went wrong in the runtime's client, by kind.
#[derive(Debug)]
pub enum RuntimeClientError {
    InvalidEndpoint(String),
    Io(String),
    Http(String),
    Json(String),
    MqttDelta(String),
    ScreenDefinition(String),
    Runtime(String),
    ServerStatus { status_code: u16, reason: String, body: String },
}

/// The text an error displays.
pub open spec fn error_text(e: RuntimeClientError) -> Seq<char> {
    match e {
        RuntimeClientError::InvalidEndpoint(m) => "invalid endpoint: "@ + m@,
        RuntimeClientError::Io(m) => "io error: "@ + m@,
        RuntimeClientError::Http(m) => "http error: "@ + m@,
        RuntimeClientError::Json(m) => "json error: "@ + m@,
        RuntimeClientError::MqttDelta(m) => "mqtt delta error: "@ + m@,
        RuntimeClientError::ScreenDefinition(m) => "screen definition error: "@ + m@,
        RuntimeClientError::Runtime(m) => "runtime error: "@ + m@,
        RuntimeClientError::ServerStatus { status_code, reason, body } => "tag server returned "@
            + decimal(status_code as nat) + " "@ + reason@ + ": "@ + body@,
    }
}

fn text_of(prefix: &str, m: &str) -> (r: String)
    ensures
        r@ == prefix@ + m@,
{
    let mut out: Vec<char> = Vec::new();
    push_text(&mut out, prefix);
    push_text(&mut out, m);
    string_of(out.as_slice())
}

impl RuntimeClientError {
    /// The text the error displays.
    pub fn message(&self) -> (r: String)
        ensures
            r@ == error_text(*self),
    {
        match self {
            RuntimeClientError::InvalidEndpoint(m) => text_of("invalid endpoint: ", m.as_str()),
            RuntimeClientError::Io(m) => text_of("io error: ", m.as_str()),
            RuntimeClientError::Http(m) => text_of("http error: ", m.as_str()),
            RuntimeClientError::Json(m) => text_of("json error: ", m.as_str()),
            RuntimeClientError::MqttDelta(m) => text_of("mqtt delta error: ", m.as_str()),
            RuntimeClientError::ScreenDefinition(m) => text_of("screen definition error: ", m.as_str()),
            RuntimeClientError::Runtime(m) => text_of("runtime error: ", m.as_str()),
            RuntimeClientError::ServerStatus { status_code, reason, body } => {
                let mut out: Vec<char> = Vec::new();
                push_text(&mut out, "tag server returned ");
                let t = u64_text(*status_code as u64);
                push_all(&mut out, t.as_slice());
                push_text(&mut out, " ");
                push_text(&mut out, reason.as_str());
                push_text(&mut out, ": ");
                push_text(&mut out, body.as_str());
                string_of(out.as_slice())
            },
        }
    }
}

/// `input` without `http://` and trailing slashes, split at its last `:` into host and
/// port; `https://` is refused.
pub open spec fn endpoint_of(input: Seq<char>) -> Result<(Seq<char>, u16), Seq<char>> {
    let http = "http://"@;
    let without_scheme = trim_end_char(
        if http.len() <= input.len() && input.take(http.len() as int) == http {
            input.skip(http.len() as int)
        } else {
            input
        },
        '/',
    );
    let https = "https://"@;
    if https.len() <= input.len() && input.take(https.len() as int) == https {
        Err("https is not supported in the phase0 local runtime client"@)
    } else {
        let c = last_index_of(without_scheme, ':');
        if c < 0 {
            Err("missing port in "@ + input)
        } else {
            match parse_unsigned(without_scheme.skip(c + 1), 65535) {
                None => Err("invalid port in "@ + input),
                Some(p) => if c == 0 {
                    Err("missing host in "@ + input)
                } else {
                    Ok((without_scheme.take(c), p as u16))
                },
            }
        }
    }
}

impl TagServerEndpoint {
    /// Reads the tag server's base URL: `host:port`, with or without `http://`.
    pub fn parse(input: &str) -> (r: Result<TagServerEndpoint, RuntimeClientError>)
        ensures
            match r {
                Ok(e) => endpoint_of(input@) == Ok::<(Seq<char>, u16), Seq<char>>((e.host@, e.port)),
                Err(e) => e matches RuntimeClientError::InvalidEndpoint(m) && endpoint_of(input@) == Err::<
                    (Seq<char>, u16),
                    Seq<char>,
                >(m@),
            },
    {
        proof {
            reveal_strlit("http://");
            reveal_strlit("https://");
        }
        let cs = chars_of(input);
        let http = chars_of("http://");
        let https = chars_of("https://");
        let rest = if crate::text::starts_with(cs.as_slice(), http.as_slice()) {
            let r = slice(cs.as_slice(), 7, cs.len());
            assert(r@ =~= input@.skip(7));
            r
        } else {
            cs.clone()
        };
        let without_scheme = trim_end_char_exec(rest.as_slice(), '/');
        if crate::text::starts_with(cs.as_slice(), https.as_slice()) {
            return Err(RuntimeClientError::InvalidEndpoint(
                owned("https is not supported in the phase0 local runtime client"),
            ));
        }
        let c = match last_index_of_char(without_scheme.as_slice(), ':') {
            Some(c) => c,
            None => {
                return Err(RuntimeClientError::InvalidEndpoint(text_of("missing port in ", input)));
            },
        };
        proof {
            lemma_last_index_of(without_scheme@, ':');
        }
        let port = slice(without_scheme.as_slice(), c + 1, without_scheme.len());
        assert(port@ =~= without_scheme@.skip(c + 1));
        let p = match parse_unsigned_exec(port.as_slice(), 65535) {
            Some(p) => p,
            None => {
                return Err(RuntimeClientError::InvalidEndpoint(text_of("invalid port in ", input)));
            },
        };
        if c == 0 {
            return Err(RuntimeClientError::InvalidEndpoint(text_of("missing host in ", input)));
        }
        let host = slice(without_scheme.as_slice(), 0, c);
        assert(host@ =~= without_scheme@.take(c as int));
        Ok(TagServerEndpoint { host: string_of(host.as_slice()), port: p as u16 })
    }

    /// `host:port`.
    pub fn authority(&self) -> (r: String)
        ensures
            r@ == self.host@ + ":"@ + decimal(self.port as nat),
    {
        let mut out: Vec<char> = Vec::new();
        push_text(&mut out, self.host.as_str());
        push_text(&mut out, ":");
        let t = u64_text(self.port as u64);
        push_all(&mut out, t.as_slice());
        string_of(out.as_slice())
    }
}

/// The `Duration` that `Duration::from_secs` makes of `secs` seconds.
pub uninterp spec fn duration_of_secs(secs: u64) -> std::time::Duration;

/// `Duration::from_secs`: a `Duration` of `secs` seconds, the same for the same count.
#[verifier::external_body]
pub(crate) fn seconds(secs: u64) -> (d: std::time::Duration)
    ensures
        d == duration_of_secs(secs),
{
    std::time::Duration::from_secs(secs)
}

/// The address of an endpoint, given as a base URL, reads back as that endpoint.
pub proof fn authority_reads_back(host: Seq<char>, port: u16)
    requires
        host.len() > 0,
    ensures
        endpoint_of("http://"@ + (host + ":"@ + decimal(port as nat))) == Ok::<(Seq<char>, u16), Seq<char>>((host, port)),
{
    reveal_strlit("http://");
    reveal_strlit("https://");
    reveal_strlit(":");
    let dec = decimal(port as nat);
    crate::text::lemma_decimal_value(port as nat);
    crate::text::lemma_parse_decimal(port as nat, 65535);
    let a = host + ":"@ + dec;
    let input = "http://"@ + a;
    assert(input.take(7) =~= "http://"@);
    assert(input.skip(7) =~= a);
    assert(!("https://"@.len() <= input.len() && input.take(8) == "https://"@)) by {
        assert(input[4] == ':');
        assert("https://"@[4] == 's');
        if input.take(8) == "https://"@ {
            assert(input.take(8)[4] == input[4]);
        }
    }
    assert(a.last() == dec.last());
    assert(crate::text::is_digit(dec[dec.len() - 1]));
    assert(trim_end_char(a, '/') == a);
    assert(!dec.contains(':')) by {
        if dec.contains(':') {
            let j = choose|j: int| 0 <= j < dec.len() && dec[j] == ':';
            assert(crate::text::is_digit(dec[j]));
        }
    }
    assert(a =~= host + seq![':'] + dec);
    crate::text::lemma_last_index_before(host, ':', dec);
    assert(a.take(host.len() as int) =~= host);
    assert(a.skip(host.len() + 1int) =~= dec);
}

/// The runtime's client of the tag server.
#[derive(Debug)]
pub struct TagServerClient {
    endpoint: TagServerEndpoint,
    token: Option<String>,
    timeout: std::time::Duration,
}

impl TagServerClient {
    /// The address of the tag server.
    pub closed spec fn spec_endpoint(&self) -> TagServerEndpoint {
        self.endpoint
    }

    /// The token sent along, if any.
    pub closed spec fn spec_token(&self) -> Option<Seq<char>> {
        match self.token {
            Some(t) => Some(t@),
            None => None,
        }
    }

    /// How long the client waits on the tag server.
    pub closed spec fn spec_timeout(&self) -> std::time::Duration {
        self.timeout
    }

    /// A client of `endpoint` with no token and a timeout of three seconds.
    pub fn new(endpoint: TagServerEndpoint) -> (c: TagServerClient)
        ensures
            c.spec_endpoint() == endpoint,
            c.spec_token() is None,
            c.spec_timeout() == duration_of_secs(3),
    {
        TagServerClient { endpoint, token: None, timeout: seconds(3) }
    }

    /// A client of the tag server at `base_url`.
    pub fn from_base_url(base_url: &str) -> (r: Result<TagServerClient, RuntimeClientError>)
        ensures
            match r {
                Ok(c) => endpoint_of(base_url@) == Ok::<(Seq<char>, u16), Seq<char>>(
                    (c.spec_endpoint().host@, c.spec_endpoint().port),
                ) && c.spec_token() is None && c.spec_timeout() == duration_of_secs(3),
                Err(e) => e matches RuntimeClientError::InvalidEndpoint(m) && endpoint_of(base_url@) == Err::<
                    (Seq<char>, u16),
                    Seq<char>,
                >(m@),
            },
    {
        match TagServerEndpoint::parse(base_url) {
            Ok(e) => Ok(TagServerClient::new(e)),
            Err(e) => Err(e),
        }
    }

    /// This client sending `token`, where it is given and not empty.
    pub fn with_token(self, token: Option<String>) -> (c: TagServerClient)
        ensures
            c.spec_endpoint() == self.spec_endpoint(),
            c.spec_token() == match token {
                Some(t) => if t@.len() > 0 {
                    Some(t@)
                } else {
                    None
                },
                None => None,
            },
            c.spec_timeout() == self.spec_timeout(),
    {
        let mut c = self;
        c.token = match token {
            Some(t) => if t.as_str().unicode_len() > 0 {
                Some(t)
            } else {
                None
            },
            None => None,
        };
        c
    }

    /// This client waiting at most `timeout` on the tag server.
    pub fn with_timeout(self, timeout: std::time::Duration) -> (c: TagServerClient)
        ensures
            c.spec_endpoint() == self.spec_endpoint(),
            c.spec_token() == self.spec_token(),
            c.spec_timeout() == timeout,
    {
        let mut c = self;
        c.timeout = timeout;
        c
    }

    /// The address of the tag server.
    pub fn endpoint(&self) -> (r: &TagServerEndpoint)
        ensures
            *r == self.spec_endpoint(),
    {
        &self.endpoint
    }

    /// How long the client waits on the tag server.
    pub fn timeout(&self) -> (r: std::time::Duration)
        ensures
            r == self.spec_timeout(),
    {
        self.timeout
    }

    /// The request that posts `body` to `path` on the tag server.
    pub fn request_text(&self, path: &str, body: &str) -> (r: String)
        ensures
            r@ == request_text_of(
                "POST"@,
                path@,
                self.spec_endpoint().host@ + ":"@ + decimal(self.spec_endpoint().port as nat),
                self.spec_token(),
                body@,
            ),
    {
        let authority = self.endpoint.authority();
        let token = match &self.token {
            Some(t) => Some(t.as_str()),
            None => None,
        };
        build_http_request("POST", path, authority.as_str(), token, body)
    }
}

/// The request text the client sends: JSON in and out, the bearer token where there is one.
pub open spec fn request_text_of(
    method: Seq<char>,
    path: Seq<char>,
    host: Seq<char>,
    token: Option<Seq<char>>,
    body: Seq<char>,
) -> Seq<char> {
    method + " "@ + path + " HTTP/1.1\r\nHost: "@ + host
        + "\r\nContent-Type: application/json\r\nAccept: application/json\r\nContent-Length: "@
        + decimal(byte_len(body)) + "\r\nConnection: close\r\n"@ + match token {
        Some(t) => "Authorization: Bearer "@ + t + "\r\n"@,
        None => seq![],
    } + "\r\n"@ + body
}

proof fn lemma_decimal_digits(n: nat)
    ensures
        forall|i: int| 0 <= i < decimal(n).len() ==> '0' <= #[trigger] decimal(n)[i] <= '9',
    decreases n,
{
    if n >= 10 {
        lemma_decimal_digits(n / 10);
        assert forall|i: int| 0 <= i < decimal(n).len() implies '0' <= #[trigger] decimal(n)[i] <= '9' by {
            if i < decimal(n / 10).len() {
                assert(decimal(n)[i] == decimal(n / 10)[i]);
            }
        }
    }
}

/// The header lines of a client request, the request line first.
pub open spec fn client_head_lines(
    method: Seq<char>,
    path: Seq<char>,
    host: Seq<char>,
    token: Option<Seq<char>>,
    body: Seq<char>,
) -> Seq<Seq<char>> {
    seq![
        method + " "@ + path + " HTTP/1.1"@,
        "Host: "@ + host,
        "Content-Type: application/json"@,
        "Accept: application/json"@,
        "Content-Length: "@ + decimal(byte_len(body)),
        "Connection: close"@,
    ] + match token {
        Some(t) => seq!["Authorization: Bearer "@ + t],
        None => seq![],
    }
}

/// The header pairs of a client request.
pub open spec fn client_headers(host: Seq<char>, token: Option<Seq<char>>, body: Seq<char>) -> Seq<(Seq<char>, Seq<char>)> {
    seq![
        ("Host"@, trim(" "@ + host)),
        ("Content-Type"@, "application/json"@),
        ("Accept"@, "application/json"@),
        ("Content-Length"@, trim(" "@ + decimal(byte_len(body)))),
        ("Connection"@, "close"@),
    ] + match token {
        Some(t) => seq![("Authorization"@, trim(" Bearer "@ + t))],
        None => seq![],
    }
}

/// Text without carriage returns or line feeds.
pub open spec fn one_line(s: Seq<char>) -> bool {
    !s.contains('\r') && !s.contains('\n')
}

proof fn lemma_one_line_join(a: Seq<char>, b: Seq<char>)
    requires
        one_line(a),
        one_line(b),
    ensures
        one_line(a + b),
{
    assert forall|c: char| (c == '\r' || c == '\n') implies !(a + b).contains(c) by {
        if (a + b).contains(c) {
            let j = choose|j: int| 0 <= j < (a + b).len() && (a + b)[j] == c;
            if j < a.len() {
                assert(a[j] == c);
            } else {
                assert(b[j - a.len()] == c);
            }
        }
    }
}

proof fn lemma_literal_one_line(s: Seq<char>)
    requires
        forall|i: int| 0 <= i < s.len() ==> #[trigger] s[i] != '\r' && s[i] != '\n',
    ensures
        one_line(s),
{
}

proof fn lemma_client_literals()
    ensures
        " HTTP/1.1\r\nHost: "@ == " HTTP/1.1"@ + "\r\n"@ + "Host: "@,
        "\r\nContent-Type: application/json\r\nAccept: application/json\r\nContent-Length: "@ == "\r\n"@
            + "Content-Type: application/json"@ + "\r\n"@ + "Accept: application/json"@ + "\r\n"@
            + "Content-Length: "@,
        "\r\nConnection: close\r\n"@ == "\r\n"@ + "Connection: close"@ + "\r\n"@,
        "\r\n\r\n"@ == "\r\n"@ + "\r\n"@,
{
    reveal_strlit("\r\n");
    reveal_strlit("\r\n\r\n");
    reveal_strlit(" HTTP/1.1\r\nHost: ");
    reveal_strlit(" HTTP/1.1");
    reveal_strlit("Host: ");
    assert(" HTTP/1.1\r\nHost: "@ =~= " HTTP/1.1"@ + "\r\n"@ + "Host: "@);
    reveal_strlit("\r\nContent-Type: application/json\r\nAccept: application/json\r\nContent-Length: ");
    reveal_strlit("Content-Type: application/json");
    reveal_strlit("Accept: application/json");
    reveal_strlit("Content-Length: ");
    assert("\r\nContent-Type: application/json\r\nAccept: application/json\r\nContent-Length: "@ =~= "\r\n"@
        + "Content-Type: application/json"@ + "\r\n"@ + "Accept: application/json"@ + "\r\n"@
        + "Content-Length: "@);
    reveal_strlit("\r\nConnection: close\r\n");
    reveal_strlit("Connection: close");
    assert("\r\nConnection: close\r\n"@ =~= "\r\n"@ + "Connection: close"@ + "\r\n"@);
    assert("\r\n\r\n"@ =~= "\r\n"@ + "\r\n"@);
}

proof fn lemma_client_tail(token: Option<Seq<char>>)
    ensures
        crlf_joined(match token {
            Some(t) => seq!["Connection: close"@, "Authorization: Bearer "@ + t],
            None => seq!["Connection: close"@],
        }) == "Connection: close"@ + match token {
            Some(t) => "\r\n"@ + ("Authorization: Bearer "@ + t),
            None => seq![],
        },
{
    let crlf = "\r\n"@;
    let l5 = "Connection: close"@;
    match token {
        Some(t) => {
            let al = "Authorization: Bearer "@ + t;
            let tail = seq![l5, al];
            assert(tail.drop_last() =~= seq![l5]);
            assert(join_with(seq![l5], crlf) == l5);
            assert(tail.last() == al);
            assert(join_with(tail, crlf) == join_with(tail.drop_last(), crlf) + crlf + tail.last());
            assert(l5 + crlf + al =~= l5 + (crlf + al));
        },
        None => {
            assert(join_with(seq![l5], crlf) == l5);
            assert(l5 + Seq::<char>::empty() =~= l5);
        },
    }
}

proof fn lemma_join_five(
    l0: Seq<char>,
    l1: Seq<char>,
    l2: Seq<char>,
    l3: Seq<char>,
    l4: Seq<char>,
    tail: Seq<Seq<char>>,
    sep: Seq<char>,
)
    requires
        tail.len() >= 1,
    ensures
        join_with(seq![l0, l1, l2, l3, l4] + tail, sep) == l0 + sep + (l1 + sep + (l2 + sep + (l3 + sep + (l4
            + sep + join_with(tail, sep))))),
{
    let t4 = seq![l4] + tail;
    crate::screen::lemma_join_prepend(l4, tail, sep);
    let t3 = seq![l3] + t4;
    crate::screen::lemma_join_prepend(l3, t4, sep);
    let t2 = seq![l2] + t3;
    crate::screen::lemma_join_prepend(l2, t3, sep);
    let t1 = seq![l1] + t2;
    crate::screen::lemma_join_prepend(l1, t2, sep);
    crate::screen::lemma_join_prepend(l0, t1, sep);
    assert(seq![l0, l1, l2, l3, l4] + tail =~= seq![l0] + t1);
}

proof fn lemma_regroup(
    h: Seq<char>,
    x: Seq<char>,
    s: Seq<char>,
    b: Seq<char>,
    c: Seq<char>,
    d: Seq<char>,
    e: Seq<char>,
    f: Seq<char>,
    g: Seq<char>,
)
    ensures
        (h + x) + s + (b + s + (c + s + ((d + e) + s + (f + g)))) == h + x + (s + b + s + c + s + d) + e + (s + f
            + g),
{
    assert((h + x) + s + (b + s + (c + s + ((d + e) + s + (f + g)))) =~= h + x + (s + b + s + c + s + d) + e + (s
        + f + g));
}

#[verifier::spinoff_prover]
proof fn lemma_client_head(method: Seq<char>, path: Seq<char>, host: Seq<char>, token: Option<Seq<char>>, body: Seq<char>)
    ensures
        crlf_joined(client_head_lines(method, path, host, token, body)) == method + " "@ + path + " HTTP/1.1"@
            + "\r\n"@ + ("Host: "@ + host + ("\r\n"@ + "Content-Type: application/json"@ + "\r\n"@
            + "Accept: application/json"@ + "\r\n"@ + "Content-Length: "@) + decimal(byte_len(body)) + (
        "\r\n"@ + "Connection: close"@ + match token {
            Some(t) => "\r\n"@ + ("Authorization: Bearer "@ + t),
            None => seq![],
        })),
{
    let crlf = "\r\n"@;
    let tail = match token {
        Some(t) => seq!["Connection: close"@, "Authorization: Bearer "@ + t],
        None => seq!["Connection: close"@],
    };
    let auth = match token {
        Some(t) => "\r\n"@ + ("Authorization: Bearer "@ + t),
        None => seq![],
    };
    lemma_client_tail(token);
    let l0 = method + " "@ + path + " HTTP/1.1"@;
    let dec = decimal(byte_len(body));
    let l4 = "Content-Length: "@ + dec;
    lemma_join_five(l0, "Host: "@ + host, "Content-Type: application/json"@, "Accept: application/json"@, l4, tail, crlf);
    assert(client_head_lines(method, path, host, token, body) =~= seq![
        l0,
        "Host: "@ + host,
        "Content-Type: application/json"@,
        "Accept: application/json"@,
        l4,
    ] + tail);
    lemma_regroup(
        "Host: "@,
        host,
        crlf,
        "Content-Type: application/json"@,
        "Accept: application/json"@,
        "Content-Length: "@,
        dec,
        "Connection: close"@,
        auth,
    );
}

proof fn lemma_regroup_text(
    a: Seq<char>,
    hl: Seq<char>,
    s: Seq<char>,
    hh: Seq<char>,
    x: Seq<char>,
    mid: Seq<char>,
    dec: Seq<char>,
    l5: Seq<char>,
    tok: Seq<char>,
    auth: Seq<char>,
    body: Seq<char>,
)
    requires
        (s + l5 + s) + tok == (s + l5) + auth + s,
    ensures
        a + (hl + s + hh) + x + mid + dec + (s + l5 + s) + tok + s + body == (a + hl + s + (hh + x + mid + dec + (s
            + l5) + auth)) + (s + s) + body,
{
    let left = a + (hl + s + hh) + x + mid + dec + ((s + l5 + s) + tok) + s + body;
    assert(a + (hl + s + hh) + x + mid + dec + (s + l5 + s) + tok + s + body =~= left);
    assert(left =~= (a + hl + s + (hh + x + mid + dec + (s + l5) + auth)) + (s + s) + body);
}

proof fn lemma_token_part(token: Option<Seq<char>>)
    ensures
        ("\r\n"@ + "Connection: close"@ + "\r\n"@) + match token {
            Some(t) => "Authorization: Bearer "@ + t + "\r\n"@,
            None => seq![],
        } == ("\r\n"@ + "Connection: close"@) + match token {
            Some(t) => "\r\n"@ + ("Authorization: Bearer "@ + t),
            None => seq![],
        } + "\r\n"@,
{
    let s = "\r\n"@;
    let l5 = "Connection: close"@;
    match token {
        Some(t) => {
            let al = "Authorization: Bearer "@ + t;
            assert((s + l5 + s) + (al + s) =~= (s + l5) + (s + al) + s);
        },
        None => {
            assert((s + l5 + s) + Seq::<char>::empty() =~= (s + l5) + Seq::<char>::empty() + s);
        },
    }
}

#[verifier::spinoff_prover]
proof fn lemma_client_text(method: Seq<char>, path: Seq<char>, host: Seq<char>, token: Option<Seq<char>>, body: Seq<char>)
    ensures
        request_text_of(method, path, host, token, body) == crlf_joined(client_head_lines(method, path, host, token, body)) + "\r\n\r\n"@ + body,
{
    lemma_client_literals();
    lemma_client_head(method, path, host, token, body);
    lemma_token_part(token);
    let crlf = "\r\n"@;
    let mid = "\r\n"@ + "Content-Type: application/json"@ + "\r\n"@ + "Accept: application/json"@ + "\r\n"@
        + "Content-Length: "@;
    let auth = match token {
        Some(t) => crlf + ("Authorization: Bearer "@ + t),
        None => seq![],
    };
    let tok = match token {
        Some(t) => "Authorization: Bearer "@ + t + crlf,
        None => seq![],
    };
    lemma_regroup_text(
        method + " "@ + path,
        " HTTP/1.1"@,
        crlf,
        "Host: "@,
        host,
        mid,
        decimal(byte_len(body)),
        "Connection: close"@,
        tok,
        auth,
        body,
    );
}

proof fn lemma_trim_plain(s: Seq<char>)
    requires
        s.len() > 0,
        !is_ws(s[0]),
        !is_ws(s.last()),
    ensures
        trim(s) == s,
{
    assert(trim_start(s) == s);
    assert(trim_end(s) == s);
}

proof fn lemma_no_ws_one_line(s: Seq<char>)
    requires
        forall|i: int| 0 <= i < s.len() ==> !is_ws(#[trigger] s[i]),
    ensures
        one_line(s),
{
    assert(is_ws('\r') && is_ws('\n'));
    assert forall|c: char| (c == '\r' || c == '\n') implies !s.contains(c) by {
        if s.contains(c) {
            let j = choose|j: int| 0 <= j < s.len() && s[j] == c;
            assert(!is_ws(s[j]));
        }
    }
}

#[verifier::spinoff_prover]
proof fn lemma_client_lines(method: Seq<char>, path: Seq<char>, host: Seq<char>, token: Option<Seq<char>>, body: Seq<char>)
    requires
        method.len() > 0,
        forall|i: int| 0 <= i < method.len() ==> !is_ws(#[trigger] method[i]),
        forall|i: int| 0 <= i < path.len() ==> !is_ws(#[trigger] path[i]),
        one_line(host),
        token matches Some(t) ==> one_line(t),
    ensures
        forall|i: int|
            0 <= i < client_head_lines(method, path, host, token, body).len() ==> head_line(
                #[trigger] client_head_lines(method, path, host, token, body)[i],
            ),
{
    reveal_strlit(" ");
    reveal_strlit(" HTTP/1.1");
    reveal_strlit("Host: ");
    reveal_strlit("Content-Type: application/json");
    reveal_strlit("Accept: application/json");
    reveal_strlit("Content-Length: ");
    reveal_strlit("Connection: close");
    reveal_strlit("Authorization: Bearer ");
    lemma_no_ws_one_line(method);
    lemma_no_ws_one_line(path);
    lemma_literal_one_line(" "@);
    lemma_literal_one_line(" HTTP/1.1"@);
    lemma_literal_one_line("Host: "@);
    lemma_literal_one_line("Content-Type: application/json"@);
    lemma_literal_one_line("Accept: application/json"@);
    lemma_literal_one_line("Content-Length: "@);
    lemma_literal_one_line("Connection: close"@);
    lemma_literal_one_line("Authorization: Bearer "@);
    let dec = decimal(byte_len(body));
    lemma_decimal_digits(byte_len(body));
    lemma_literal_one_line(dec);
    lemma_one_line_join(method, " "@);
    lemma_one_line_join(method + " "@, path);
    lemma_one_line_join(method + " "@ + path, " HTTP/1.1"@);
    lemma_one_line_join("Host: "@, host);
    lemma_one_line_join("Content-Length: "@, dec);
    if let Some(t) = token {
        lemma_one_line_join("Authorization: Bearer "@, t);
    }
}

#[verifier::spinoff_prover]
proof fn lemma_client_header_lines(host: Seq<char>, token: Option<Seq<char>>, body: Seq<char>)
    ensures
        header_pairs(
            seq!["Host: "@ + host, "Content-Type: application/json"@, "Accept: application/json"@, "Content-Length: "@
                + decimal(byte_len(body)), "Connection: close"@] + match token {
                Some(t) => seq!["Authorization: Bearer "@ + t],
                None => seq![],
            },
        ) == seq![
            (trim("Host"@), trim(" "@ + host)),
            (trim("Content-Type"@), trim(" application/json"@)),
            (trim("Accept"@), trim(" application/json"@)),
            (trim("Content-Length"@), trim(" "@ + decimal(byte_len(body)))),
            (trim("Connection"@), trim(" close"@)),
        ] + match token {
            Some(t) => seq![(trim("Authorization"@), trim(" Bearer "@ + t))],
            None => seq![],
        },
{
    reveal_strlit(" ");
    reveal_strlit("Host: ");
    reveal_strlit("Host");
    reveal_strlit("Content-Type: application/json");
    reveal_strlit("Content-Type");
    reveal_strlit(" application/json");
    reveal_strlit("Accept: application/json");
    reveal_strlit("Accept");
    reveal_strlit("Content-Length: ");
    reveal_strlit("Content-Length");
    reveal_strlit("Connection: close");
    reveal_strlit("Connection");
    reveal_strlit(" close");
    reveal_strlit("Authorization: Bearer ");
    reveal_strlit("Authorization");
    reveal_strlit(" Bearer ");
    let c = seq![':'];
    let dec = decimal(byte_len(body));
    let auth_lines = match token {
        Some(t) => seq!["Authorization: Bearer "@ + t],
        None => seq![],
    };
    let auth_pairs = match token {
        Some(t) => seq![(trim("Authorization"@), trim(" Bearer "@ + t))],
        None => seq![],
    };
    assert(header_pairs(auth_lines) == auth_pairs) by {
        if let Some(t) = token {
            assert("Authorization: Bearer "@ + t =~= "Authorization"@ + c + (" Bearer "@ + t));
            lemma_header_line("Authorization"@, " Bearer "@ + t, seq![]);
            assert(seq!["Authorization"@ + c + (" Bearer "@ + t)] =~= seq!["Authorization"@ + c + (" Bearer "@ + t)] + Seq::<Seq<char>>::empty());
        }
    }
    let r5 = seq!["Connection: close"@] + auth_lines;
    assert("Connection: close"@ =~= "Connection"@ + c + " close"@);
    lemma_header_line("Connection"@, " close"@, auth_lines);
    let r4 = seq!["Content-Length: "@ + dec] + r5;
    assert("Content-Length: "@ + dec =~= "Content-Length"@ + c + (" "@ + dec));
    lemma_header_line("Content-Length"@, " "@ + dec, r5);
    let r3 = seq!["Accept: application/json"@] + r4;
    assert("Accept: application/json"@ =~= "Accept"@ + c + " application/json"@);
    lemma_header_line("Accept"@, " application/json"@, r4);
    let r2 = seq!["Content-Type: application/json"@] + r3;
    assert("Content-Type: application/json"@ =~= "Content-Type"@ + c + " application/json"@);
    lemma_header_line("Content-Type"@, " application/json"@, r3);
    assert("Host: "@ + host =~= "Host"@ + c + (" "@ + host));
    lemma_header_line("Host"@, " "@ + host, r2);
    assert(seq!["Host: "@ + host] + r2 =~= seq!["Host: "@ + host, "Content-Type: application/json"@, "Accept: application/json"@, "Content-Length: "@ + dec, "Connection: close"@] + auth_lines);
    assert(seq![
        (trim("Host"@), trim(" "@ + host)),
        (trim("Content-Type"@), trim(" application/json"@)),
        (trim("Accept"@), trim(" application/json"@)),
        (trim("Content-Length"@), trim(" "@ + dec)),
        (trim("Connection"@), trim(" close"@)),
    ] + auth_pairs =~= seq![(trim("Host"@), trim(" "@ + host))] + (seq![(trim("Content-Type"@), trim(" application/json"@))] + (seq![(trim("Accept"@), trim(" application/json"@))] + (seq![(trim("Content-Length"@), trim(" "@ + dec))] + (seq![(trim("Connection"@), trim(" close"@))] + auth_pairs)))));
}

proof fn lemma_header_value_past(hs: Seq<(Seq<char>, Seq<char>)>, name: Seq<char>, k: int)
    requires
        0 <= k < hs.len(),
        hs[k].0.len() != name.len(),
    ensures
        header_value(hs.skip(k), name) == header_value(hs.skip(k + 1), name),
{
    assert(hs.skip(k)[0] == hs[k]);
    assert(hs.skip(k).drop_first() =~= hs.skip(k + 1));
}

proof fn lemma_bearer_value(t: Seq<char>)
    requires
        t.len() > 0,
        !is_ws(t.last()),
    ensures
        trim(" Bearer "@ + t) == "Bearer "@ + t,
{
    reveal_strlit(" Bearer ");
    reveal_strlit("Bearer ");
    let v = "Bearer "@ + t;
    assert((" Bearer "@ + t).drop_first() =~= v);
    assert(is_ws(' '));
    assert(!is_ws(v[0]));
    assert(trim_start(v) == v);
    assert(trim_start(" Bearer "@ + t) == v);
    assert(v.last() == t.last());
    assert(trim_end(v) == v);
}

#[verifier::spinoff_prover]
proof fn lemma_client_authorized(host: Seq<char>, token: Option<Seq<char>>, body: Seq<char>)
    requires
        token matches Some(t) ==> t.len() > 0 && !is_ws(t.last()),
    ensures
        authorized(
            token,
            seq![
                (trim("Host"@), trim(" "@ + host)),
                (trim("Content-Type"@), trim(" application/json"@)),
                (trim("Accept"@), trim(" application/json"@)),
                (trim("Content-Length"@), trim(" "@ + decimal(byte_len(body)))),
                (trim("Connection"@), trim(" close"@)),
            ] + match token {
                Some(t) => seq![(trim("Authorization"@), trim(" Bearer "@ + t))],
                None => seq![],
            },
        ),
{
    if let Some(t) = token {
        reveal_strlit("Host");
        reveal_strlit("Content-Type");
        reveal_strlit("Accept");
        reveal_strlit("Content-Length");
        reveal_strlit("Connection");
        reveal_strlit("Authorization");
        reveal_strlit("authorization");
        reveal_strlit("Bearer ");
        lemma_trim_plain("Host"@);
        lemma_trim_plain("Content-Type"@);
        lemma_trim_plain("Accept"@);
        lemma_trim_plain("Content-Length"@);
        lemma_trim_plain("Connection"@);
        lemma_trim_plain("Authorization"@);
        lemma_bearer_value(t);
        let hs = seq![
            (trim("Host"@), trim(" "@ + host)),
            (trim("Content-Type"@), trim(" application/json"@)),
            (trim("Accept"@), trim(" application/json"@)),
            (trim("Content-Length"@), trim(" "@ + decimal(byte_len(body)))),
            (trim("Connection"@), trim(" close"@)),
            (trim("Authorization"@), trim(" Bearer "@ + t)),
        ];
        let n = "authorization"@;
        assert(hs.skip(0) =~= hs);
        lemma_header_value_past(hs, n, 0);
        lemma_header_value_past(hs, n, 1);
        lemma_header_value_past(hs, n, 2);
        lemma_header_value_past(hs, n, 3);
        lemma_header_value_past(hs, n, 4);
        let last = hs.skip(5);
        assert(last[0] == ("Authorization"@, "Bearer "@ + t));
        assert(eq_ignore_case("Authorization"@, n));
        assert(header_value(last, n) == Some("Bearer "@ + t));
        assert(seq![
            (trim("Host"@), trim(" "@ + host)),
            (trim("Content-Type"@), trim(" application/json"@)),
            (trim("Accept"@), trim(" application/json"@)),
            (trim("Content-Length"@), trim(" "@ + decimal(byte_len(body)))),
            (trim("Connection"@), trim(" close"@)),
        ] + seq![(trim("Authorization"@), trim(" Bearer "@ + t))] =~= hs);
    }
}

/// A request that the runtime's client builds is read back by the tag server as the same
/// method, path and body, with headers that carry the client's token as the server checks
/// it: the method and path are single words, and host and token stay on their lines.
#[verifier::spinoff_prover]
pub proof fn client_requests_read_back(
    method: Seq<char>,
    path: Seq<char>,
    host: Seq<char>,
    token: Option<Seq<char>>,
    body: Seq<char>,
)
    requires
        method.len() > 0,
        forall|i: int| 0 <= i < method.len() ==> !is_ws(#[trigger] method[i]),
        path.len() > 0,
        forall|i: int| 0 <= i < path.len() ==> !is_ws(#[trigger] path[i]),
        one_line(host),
        token matches Some(t) ==> t.len() > 0 && one_line(t) && !is_ws(t.last()),
    ensures
        parse_request(request_text_of(method, path, host, token, body)) matches Ok((m, p, hs, b)) && m == method
            && p == path && b == body && authorized(token, hs),
{
    reveal_strlit("\r\n\r\n");
    reveal_strlit(" ");
    reveal_strlit(" HTTP/1.1");
    reveal_strlit("HTTP/1.1");
    let ls = client_head_lines(method, path, host, token, body);
    let head = crlf_joined(ls);
    let text = request_text_of(method, path, host, token, body);
    lemma_client_text(method, path, host, token, body);
    lemma_client_lines(method, path, host, token, body);
    lemma_head_end(ls, body);
    lemma_first_match_unique(text, "\r\n\r\n"@, head.len() as int);
    assert(text.take(head.len() as int) =~= head);
    assert(text.skip(head.len() + 4int) =~= body);
    lemma_lines_of_head(ls);
    let l0 = method + " "@ + path + " HTTP/1.1"@;
    assert(ls[0] == l0);
    assert(l0 =~= method + seq![' '] + (path + seq![' '] + "HTTP/1.1"@));
    lemma_words_cons(method, path + seq![' '] + "HTTP/1.1"@);
    lemma_words_cons(path, "HTTP/1.1"@);
    lemma_words_one("HTTP/1.1"@);
    let dec = decimal(byte_len(body));
    let rest = seq!["Host: "@ + host, "Content-Type: application/json"@, "Accept: application/json"@, "Content-Length: "@
        + dec, "Connection: close"@] + match token {
        Some(t) => seq!["Authorization: Bearer "@ + t],
        None => seq![],
    };
    assert(ls.drop_first() =~= rest);
    lemma_client_header_lines(host, token, body);
    lemma_client_authorized(host, token, body);
}

proof fn lemma_response_literals()
    ensures
        "HTTP/1.1 "@ == "HTTP/1.1"@ + " "@,
        "\r\nContent-Type: "@ == "\r\n"@ + "Content-Type: "@,
        "\r\nContent-Length: "@ == "\r\n"@ + "Content-Length: "@,
        "\r\nConnection: close\r\n\r\n"@ == "\r\n"@ + "Connection: close"@ + "\r\n\r\n"@,
{
    reveal_strlit("HTTP/1.1 ");
    reveal_strlit("HTTP/1.1");
    reveal_strlit(" ");
    reveal_strlit("\r\n");
    reveal_strlit("\r\n\r\n");
    reveal_strlit("\r\nContent-Type: ");
    reveal_strlit("Content-Type: ");
    reveal_strlit("\r\nContent-Length: ");
    reveal_strlit("Content-Length: ");
    reveal_strlit("\r\nConnection: close\r\n\r\n");
    reveal_strlit("Connection: close");
    assert("HTTP/1.1 "@ =~= "HTTP/1.1"@ + " "@);
    assert("\r\nContent-Type: "@ =~= "\r\n"@ + "Content-Type: "@);
    assert("\r\nContent-Length: "@ =~= "\r\n"@ + "Content-Length: "@);
    assert("\r\nConnection: close\r\n\r\n"@ =~= "\r\n"@ + "Connection: close"@ + "\r\n\r\n"@);
}

/// The head lines of a response: status line, content type, length and connection.
pub open spec fn response_head_lines(status: u16, reason: Seq<char>, content_type: Seq<char>, body: Seq<char>) -> Seq<Seq<char>> {
    seq![
        "HTTP/1.1"@ + " "@ + (decimal(status as nat) + " "@ + reason),
        "Content-Type: "@ + content_type,
        "Content-Length: "@ + decimal(byte_len(body)),
        "Connection: close"@,
    ]
}

#[verifier::spinoff_prover]
proof fn lemma_response_head(status: u16, reason: Seq<char>, content_type: Seq<char>, body: Seq<char>)
    ensures
        response_text(status, reason, content_type, body) == crlf_joined(response_head_lines(status, reason, content_type, body))
            + "\r\n\r\n"@ + body,
{
    lemma_response_literals();
    let crlf = "\r\n"@;
    let l0 = "HTTP/1.1"@ + " "@ + (decimal(status as nat) + " "@ + reason);
    let l1 = "Content-Type: "@ + content_type;
    let l2 = "Content-Length: "@ + decimal(byte_len(body));
    let l3 = "Connection: close"@;
    let ls = response_head_lines(status, reason, content_type, body);
    assert(join_with(seq![l3], crlf) == l3);
    crate::screen::lemma_join_prepend(l2, seq![l3], crlf);
    crate::screen::lemma_join_prepend(l1, seq![l2] + seq![l3], crlf);
    crate::screen::lemma_join_prepend(l0, seq![l1] + (seq![l2] + seq![l3]), crlf);
    assert(ls =~= seq![l0] + (seq![l1] + (seq![l2] + seq![l3])));
    let dec = decimal(status as nat);
    let h = "HTTP/1.1"@;
    let sp = " "@;
    let ct = "Content-Type: "@;
    let cl = "Content-Length: "@;
    let n = decimal(byte_len(body));
    let tail = "\r\n\r\n"@;
    assert(response_text(status, reason, content_type, body) == h + sp + dec + sp + reason + (crlf + ct) + content_type + (crlf
        + cl) + n + (crlf + l3 + tail) + body);
    assert(h + sp + dec + sp + reason + (crlf + ct) + content_type + (crlf + cl) + n + (crlf + l3 + tail) + body =~= (l0
        + crlf + (l1 + crlf + (l2 + crlf + l3))) + tail + body);
}

/// A response the runtime sends (`to_http_bytes` sends the UTF-8 bytes of this text) is
/// read back by its client as the same status, reason and body, where reason and content
/// type stay on their lines.
#[verifier::spinoff_prover]
pub proof fn responses_read_back(status: u16, reason: Seq<char>, content_type: Seq<char>, body: Seq<char>)
    requires
        one_line(reason),
        one_line(content_type),
    ensures
        client_response_of(response_text(status, reason, content_type, body)) == Ok::<(u16, Seq<char>, Seq<char>), Seq<char>>(
            (status, reason, body),
        ),
{
    reveal_strlit("\r\n\r\n");
    reveal_strlit("HTTP/1.1");
    reveal_strlit("HTTP/");
    reveal_strlit(" ");
    reveal_strlit("Content-Type: ");
    reveal_strlit("Content-Length: ");
    reveal_strlit("Connection: close");
    let ls = response_head_lines(status, reason, content_type, body);
    let head = crlf_joined(ls);
    let text = response_text(status, reason, content_type, body);
    lemma_response_head(status, reason, content_type, body);
    let dec = decimal(status as nat);
    crate::text::lemma_decimal_value(status as nat);
    crate::text::lemma_parse_decimal(status as nat, 65535);
    lemma_decimal_digits(byte_len(body));
    lemma_literal_one_line(dec);
    lemma_literal_one_line(decimal(byte_len(body)));
    lemma_literal_one_line("HTTP/1.1"@);
    lemma_literal_one_line(" "@);
    lemma_literal_one_line("Content-Type: "@);
    lemma_literal_one_line("Content-Length: "@);
    lemma_literal_one_line("Connection: close"@);
    lemma_one_line_join(dec, " "@);
    lemma_one_line_join(dec + " "@, reason);
    lemma_one_line_join("HTTP/1.1"@, " "@);
    lemma_one_line_join("HTTP/1.1"@ + " "@, dec + " "@ + reason);
    lemma_one_line_join("Content-Type: "@, content_type);
    lemma_one_line_join("Content-Length: "@, decimal(byte_len(body)));
    assert forall|i: int| 0 <= i < ls.len() implies head_line(#[trigger] ls[i]) by {}
    lemma_head_end(ls, body);
    lemma_first_match_unique(text, "\r\n\r\n"@, head.len() as int);
    assert(text.take(head.len() as int) =~= head);
    assert(text.skip(head.len() + 4int) =~= body);
    lemma_lines_of_head(ls);
    let line = ls[0];
    let rest = dec + " "@ + reason;
    assert(line =~= "HTTP/1.1"@ + seq![' '] + rest);
    assert(!"HTTP/1.1"@.contains(' ')) by {
        if "HTTP/1.1"@.contains(' ') {
            let j = choose|j: int| 0 <= j < "HTTP/1.1"@.len() && "HTTP/1.1"@[j] == ' ';
        }
    }
    lemma_index_past("HTTP/1.1"@, ' ', rest);
    assert(line.take(8) =~= "HTTP/1.1"@);
    assert(line.take(8).take(5) =~= "HTTP/"@);
    assert(line.skip(9) =~= rest);
    assert(!dec.contains(' ')) by {
        if dec.contains(' ') {
            let j = choose|j: int| 0 <= j < dec.len() && dec[j] == ' ';
            assert(crate::text::is_digit(dec[j]));
        }
    }
    assert(rest =~= dec + seq![' '] + reason);
    lemma_index_past(dec, ' ', reason);
    assert(rest.take(dec.len() as int) =~= dec);
    assert(rest.skip(dec.len() + 1int) =~= reason);
}

/// Builds the text of a request to the tag server.
pub fn build_http_request(method: &str, path: &str, host: &str, token: Option<&str>, body: &str) -> (r: String)
    ensures
        r@ == request_text_of(
            method@,
            path@,
            host@,
            match token {
                Some(t) => Some(t@),
                None => None,
            },
            body@,
        ),
{
    let mut out: Vec<char> = Vec::new();
    push_text(&mut out, method);
    push_text(&mut out, " ");
    push_text(&mut out, path);
    push_text(&mut out, " HTTP/1.1\r\nHost: ");
    push_text(&mut out, host);
    push_text(&mut out, "\r\nContent-Type: application/json\r\nAccept: application/json\r\nContent-Length: ");
    let n = u64_text(body.len() as u64);
    push_all(&mut out, n.as_slice());
    push_text(&mut out, "\r\nConnection: close\r\n");
    let ghost mid = out@;
    match token {
        Some(t) => {
            push_text(&mut out, "Authorization: Bearer ");
            push_text(&mut out, t);
            push_text(&mut out, "\r\n");
        },
        None => {},
    }
    push_text(&mut out, "\r\n");
    push_text(&mut out, body);
    let ghost tok = match token {
        Some(t) => Some(t@),
        None => None,
    };
    assert(out@ =~= request_text_of(method@, path@, host@, tok, body@));
    string_of(out.as_slice())
}

/// A response of the tag server as the client reads it.
#[derive(Debug, Clone, PartialEq, Eq)]
pub struct HttpClientResponse {
    pub status_code: u16,
    pub reason: String,
    pub body: String,
}

/// Status code, reason and body of a response text: the status line must begin with
/// `HTTP/`, its second space-separated part is the code, the rest is the reason.
pub open spec fn client_response_of(raw: Seq<char>) -> Result<(u16, Seq<char>, Seq<char>), Seq<char>> {
    match find_first(raw, "\r\n\r\n"@) {
        None => Err("missing response header terminator"@),
        Some(k) => {
            let ls = lines(raw.take(k));
            if ls.len() == 0 {
                Err("missing status line"@)
            } else {
                let line = ls[0];
                let a = index_of(line, ' ');
                let version = line.take(a);
                let http = "HTTP/"@;
                if !(http.len() <= version.len() && version.take(http.len() as int) == http) {
                    Err("invalid http version "@ + version)
                } else if a >= line.len() {
                    Err("missing status code"@)
                } else {
                    let rest = line.skip(a + 1);
                    let b = index_of(rest, ' ');
                    match parse_unsigned(rest.take(b), 65535) {
                        None => Err("invalid status code"@),
                        Some(code) => Ok(
                            (
                                code as u16,
                                if b < rest.len() {
                                    rest.skip(b + 1)
                                } else {
                                    seq![]
                                },
                                raw.skip(k + 4),
                            ),
                        ),
                    }
                }
            }
        },
    }
}

/// Reads a response of the tag server.
pub fn parse_http_response(raw: &str) -> (r: Result<HttpClientResponse, RuntimeClientError>)
    ensures
        match r {
            Ok(resp) => client_response_of(raw@) == Ok::<(u16, Seq<char>, Seq<char>), Seq<char>>(
                (resp.status_code, resp.reason@, resp.body@),
            ),
            Err(e) => e matches RuntimeClientError::Http(m) && client_response_of(raw@) == Err::<
                (u16, Seq<char>, Seq<char>),
                Seq<char>,
            >(m@),
        },
{
    proof {
        reveal_strlit("\r\n\r\n");
        reveal_strlit("HTTP/");
    }
    let cs = chars_of(raw);
    let term = chars_of("\r\n\r\n");
    let k = match find_first_exec(cs.as_slice(), term.as_slice()) {
        Some(k) => k,
        None => {
            return Err(RuntimeClientError::Http(owned("missing response header terminator")));
        },
    };
    let tl = term.len();
    let cl = cs.len();
    assert(k + tl <= cl);
    let head = slice(cs.as_slice(), 0, k);
    let body = slice(cs.as_slice(), k + tl, cl);
    assert(head@ =~= raw@.take(k as int));
    assert(body@ =~= raw@.skip(k + 4));
    let ls = lines_of(head.as_slice());
    if ls.len() == 0 {
        return Err(RuntimeClientError::Http(owned("missing status line")));
    }
    assert(crate::text::views(ls@)[0] == ls@[0]@);
    let line = &ls[0];
    let a = index_of_char(line.as_slice(), ' ');
    proof {
        lemma_index_of(line@, ' ');
    }
    let version = slice(line.as_slice(), 0, a);
    assert(version@ =~= line@.take(a as int));
    let http = chars_of("HTTP/");
    if !crate::text::starts_with(version.as_slice(), http.as_slice()) {
        let mut out: Vec<char> = Vec::new();
        push_text(&mut out, "invalid http version ");
        push_all(&mut out, version.as_slice());
        return Err(RuntimeClientError::Http(string_of(out.as_slice())));
    }
    if a >= line.len() {
        return Err(RuntimeClientError::Http(owned("missing status code")));
    }
    let rest = slice(line.as_slice(), a + 1, line.len());
    assert(rest@ =~= line@.skip(a + 1));
    let b = index_of_char(rest.as_slice(), ' ');
    proof {
        lemma_index_of(rest@, ' ');
    }
    let code_text = slice(rest.as_slice(), 0, b);
    assert(code_text@ =~= rest@.take(b as int));
    let code = match parse_unsigned_exec(code_text.as_slice(), 65535) {
        Some(c) => c,
        None => {
            return Err(RuntimeClientError::Http(owned("invalid status code")));
        },
    };
    let reason = if b < rest.len() {
        let r = slice(rest.as_slice(), b + 1, rest.len());
        assert(r@ =~= rest@.skip(b + 1));
        r
    } else {
        Vec::new()
    };
    Ok(
        HttpClientResponse {
            status_code: code as u16,
            reason: string_of(reason.as_slice()),
            body: string_of(body.as_slice()),
        },
    )
}

/// A request as the runtime serves it.
#[derive(Debug, Clone, PartialEq, Eq)]
pub struct RuntimeHttpRequest {
    pub method: String,
    pub path: String,
    pub headers: Vec<(String, String)>,
    pub body: String,
}

impl RuntimeHttpRequest {
    pub fn new(method: &str, path: &str, body: &str) -> (r: RuntimeHttpRequest)
        ensures
            r.method@ == method@,
            r.path@ == path@,
            r.headers@.len() == 0,
            r.body@ == body@,
    {
        RuntimeHttpRequest {
            method: owned(method),
            path: owned(path),
            headers: Vec::new(),
            body: owned(body),
        }
    }

    /// This request with one more header, after those it has.
    pub fn with_header(self, name: &str, value: &str) -> (r: RuntimeHttpRequest)
        ensures
            r.method == self.method,
            r.path == self.path,
            r.body == self.body,
            header_views(r.headers@) == header_views(self.headers@).push((name@, value@)),
    {
        let mut r = self;
        let ghost before = r.headers@;
        r.headers.push((owned(name), owned(value)));
        assert(header_views(r.headers@) =~= header_views(before).push((name@, value@)));
        r
    }

    /// The value of the first header named `name`, ignoring ASCII case.
    pub fn header(&self, name: &str) -> (r: Option<&str>)
        ensures
            match r {
                Some(v) => header_value(header_views(self.headers@), name@) == Some(v@),
                None => header_value(header_views(self.headers@), name@) is None,
            },
    {
        match find_header_index(&self.headers, name) {
            Some(i) => Some(self.headers[i].1.as_str()),
            None => None,
        }
    }

    /// The path up to its first `?`.
    pub fn path_without_query(&self) -> (r: &str)
        ensures
            r@ == without_query(self.path@),
    {
        let p = chars_of(self.path.as_str());
        let k = index_of_char(p.as_slice(), '?');
        proof {
            lemma_index_of(self.path@, '?');
        }
        let r = self.path.as_str().substring_char(0, k);
        assert(r@ =~= without_query(self.path@));
        r
    }
}

/// Reads a request of the runtime from its text.
pub fn parse_runtime_http_request(raw: &str) -> (r: Result<RuntimeHttpRequest, String>)
    ensures
        match r {
            Ok(req) => parse_request(raw@) == Ok::<RequestParts, RequestFault>(
                (req.method@, req.path@, header_views(req.headers@), req.body@),
            ),
            Err(e) => exists|f: RequestFault|
                parse_request(raw@) == Err::<RequestParts, RequestFault>(f) && e@
                    == crate::tag_server::request_fault_message(f),
        },
{
    match crate::tag_server::parse_http_request(raw) {
        Ok(req) => Ok(RuntimeHttpRequest { method: req.method, path: req.path, headers: req.headers, body: req.body }),
        Err(e) => Err(e),
    }
}

/// The reason phrase the runtime writes for a status code.
pub open spec fn runtime_reason_of(status_code: u16) -> Seq<char> {
    if status_code == 500 {
        "Internal Server Error"@
    } else {
        crate::tag_server::reason_of(status_code)
    }
}

fn runtime_status_reason(status_code: u16) -> (r: &'static str)
    ensures
        r@ == runtime_reason_of(status_code),
{
    match status_code {
        200 => "OK",
        202 => "Accepted",
        400 => "Bad Request",
        401 => "Unauthorized",
        404 => "Not Found",
        409 => "Conflict",
        500 => "Internal Server Error",
        502 => "Bad Gateway",
        _ => "OK",
    }
}

/// A response of the runtime.
#[derive(Debug, Clone, PartialEq, Eq)]
pub struct RuntimeHttpResponse {
    pub status_code: u16,
    pub reason: &'static str,
    pub content_type: &'static str,
    pub body: String,
}

impl RuntimeHttpResponse {
    /// Status code, reason, content type and body.
    pub open spec fn parts(self) -> (u16, Seq<char>, Seq<char>, Seq<char>) {
        (self.status_code, self.reason@, self.content_type@, self.body@)
    }

    pub fn json(status_code: u16, body: String) -> (r: RuntimeHttpResponse)
        ensures
            r.parts() == (status_code, runtime_reason_of(status_code), crate::tag_server::json_type(), body@),
    {
        RuntimeHttpResponse {
            status_code,
            reason: runtime_status_reason(status_code),
            content_type: "application/json",
            body,
        }
    }

    pub fn text(status_code: u16, body: &str) -> (r: RuntimeHttpResponse)
        ensures
            r.parts() == (status_code, runtime_reason_of(status_code), crate::tag_server::text_type(), body@),
    {
        RuntimeHttpResponse {
            status_code,
            reason: runtime_status_reason(status_code),
            content_type: "text/plain; charset=utf-8",
            body: owned(body),
        }
    }

    /// The bytes of the response on the wire.
    pub fn to_http_bytes(&self) -> (r: Vec<u8>)
        ensures
            r@ == encode_utf8(response_text(self.status_code, self.reason@, self.content_type@, self.body@)),
    {
        response_bytes(self.status_code, self.reason, self.content_type, self.body.as_str())
    }
}

/// `{"error":…}`, the message written by `serde_json`.
pub open spec fn runtime_error_object(message: Seq<char>) -> Seq<char> {
    "{\"error\":"@ + json_quoted(message) + "}"@
}

/// The JSON body that reports an error message.
pub fn runtime_error_json(message: &str) -> (r: String)
    ensures
        r@ == runtime_error_object(message@),
{
    let q = crate::json_doc::quote(message);
    let mut out: Vec<char> = Vec::new();
    push_text(&mut out, "{\"error\":");
    push_text(&mut out, q.as_str());
    push_text(&mut out, "}");
    string_of(out.as_slice())
}

/// The broker topic filter of all tag values of a project.
pub fn mqtt_tag_value_topic_filter(project_id: &str) -> (r: String)
    ensures
        r@ == "scada/"@ + project_id@ + "/tag/+/value"@,
{
    text_of2("scada/", project_id, "/tag/+/value")
}

fn text_of2(a: &str, b: &str, c: &str) -> (r: String)
    ensures
        r@ == a@ + b@ + c@,
{
    let mut out: Vec<char> = Vec::new();
    push_text(&mut out, a);
    push_text(&mut out, b);
    push_text(&mut out, c);
    string_of(out.as_slice())
}

/// The tags a snapshot asks for when none are named.
pub fn default_snapshot_tags() -> (r: Vec<String>)
    ensures
        r@.len() == 2,
        r@[0]@ == "mock.temperature.001"@,
        r@[1]@ == "mock.running.001"@,
{
    let mut r: Vec<String> = Vec::new();
    r.push(owned("mock.temperature.001"));
    r.push(owned("mock.running.001"));
    r
}

} // verus!
