//! MQTT broker endpoints and the topic layout of the project.
use vstd::prelude::*;

use crate::json::{push_all, push_text};
use crate::text::{
    chars_of, decimal, has_prefix, last_index_of, last_index_of_char, lemma_index_of,
    lemma_last_index_of, index_of, index_of_char, parse_unsigned, parse_unsigned_exec, slice,
    starts_with, string_of, trim, trim_end_char, trim_end_char_exec, trim_str, u64_text,
};

verus! {

pub const ROOT_TOPIC: &'static str = "scada";

pub const DEFAULT_MQTT_TCP_PORT: u16 = 1883;

pub const DEFAULT_MQTT_WS_PORT: u16 = 8083;

/// How the broker is reached.
#[derive(Debug, Clone, Copy, PartialEq, Eq, Structural)]
pub enum MqttBrokerTransport {
    Tcp,
    WebSocket,
}

/// Where an MQTT broker listens.
#[derive(Debug, Clone, PartialEq, Eq)]
pub struct MqttBrokerEndpoint {
    pub host: String,
    pub port: u16,
    pub transport: MqttBrokerTransport,
    pub websocket_path: String,
}

/// An endpoint as plain values: host, port, transport and websocket path.
pub type EndpointParts = (Seq<char>, u16, MqttBrokerTransport, Seq<char>);

impl MqttBrokerEndpoint {
    pub open spec fn parts(self) -> EndpointParts {
        (self.host@, self.port, self.transport, self.websocket_path@)
    }
}

/// Splits `input` (with trailing slashes removed) into host and port, the port taken
/// from after the last `:`, or `default_port` where there is none.
pub open spec fn spec_split_host_port(input: Seq<char>, default_port: u16) -> Result<
    (Seq<char>, u16),
    Seq<char>,
> {
    let trimmed = trim_end_char(input, '/');
    if trimmed.len() == 0 {
        Err("missing host"@)
    } else {
        let k = last_index_of(trimmed, ':');
        if k >= 0 {
            let host = trimmed.take(k);
            let port = trimmed.skip(k + 1);
            if host.len() == 0 {
                Err("missing host"@)
            } else {
                match parse_unsigned(port, 65535) {
                    Some(p) => Ok((host, p as u16)),
                    None => Err("invalid port: "@ + port),
                }
            }
        } else {
            Ok((trimmed, default_port))
        }
    }
}

/// A TCP endpoint from `host[:port]`.
pub open spec fn spec_parse_tcp(authority: Seq<char>) -> Result<EndpointParts, Seq<char>> {
    match spec_split_host_port(authority, DEFAULT_MQTT_TCP_PORT) {
        Ok((host, port)) => Ok((host, port, MqttBrokerTransport::Tcp, "/mqtt"@)),
        Err(e) => Err(e),
    }
}

/// A WebSocket endpoint from `host[:port][/path]`; the path defaults to `/mqtt`.
pub open spec fn spec_parse_ws(rest: Seq<char>) -> Result<EndpointParts, Seq<char>> {
    let k = index_of(rest, '/');
    let authority = if k < rest.len() {
        rest.take(k)
    } else {
        rest
    };
    let path = if k < rest.len() {
        rest.skip(k)
    } else {
        "/mqtt"@
    };
    match spec_split_host_port(authority, DEFAULT_MQTT_WS_PORT) {
        Ok((host, port)) => Ok((host, port, MqttBrokerTransport::WebSocket, path)),
        Err(e) => Err(e),
    }
}

/// What `MqttBrokerEndpoint::parse` gives for `input`.
pub open spec fn spec_parse_endpoint(input: Seq<char>) -> Result<EndpointParts, Seq<char>> {
    let raw = trim(input);
    if raw.len() == 0 {
        Err("mqtt endpoint is empty"@)
    } else if has_prefix(raw, "ws://"@) {
        spec_parse_ws(raw.skip(5))
    } else if has_prefix(raw, "mqtt://"@) {
        spec_parse_tcp(raw.skip(7))
    } else if has_prefix(raw, "tcp://"@) {
        spec_parse_tcp(raw.skip(6))
    } else {
        spec_parse_tcp(raw)
    }
}

fn split_host_port(input: &[char], default_port: u16) -> (r: Result<(String, u16), String>)
    ensures
        match r {
            Ok((h, p)) => spec_split_host_port(input@, default_port) == Ok::<(Seq<char>, u16), Seq<char>>((h@, p)),
            Err(e) => spec_split_host_port(input@, default_port) == Err::<(Seq<char>, u16), Seq<char>>(e@),
        },
{
    let trimmed = trim_end_char_exec(input, '/');
    if trimmed.len() == 0 {
        return Err(crate::text::owned("missing host"));
    }
    match last_index_of_char(trimmed.as_slice(), ':') {
        Some(k) => {
            proof {
                lemma_last_index_of(trimmed@, ':');
            }
            let host = slice(trimmed.as_slice(), 0, k);
            let port = slice(trimmed.as_slice(), k + 1, trimmed.len());
            assert(host@ =~= trimmed@.take(k as int));
            assert(port@ =~= trimmed@.skip(k + 1));
            if host.len() == 0 {
                return Err(crate::text::owned("missing host"));
            }
            match parse_unsigned_exec(port.as_slice(), 65535) {
                Some(p) => Ok((string_of(host.as_slice()), p as u16)),
                None => {
                    let mut msg: Vec<char> = Vec::new();
                    push_text(&mut msg, "invalid port: ");
                    push_all(&mut msg, port.as_slice());
                    Err(string_of(msg.as_slice()))
                },
            }
        },
        None => Ok((string_of(trimmed.as_slice()), default_port)),
    }
}

fn parse_tcp_endpoint(authority: &[char]) -> (r: Result<MqttBrokerEndpoint, String>)
    ensures
        match r {
            Ok(e) => spec_parse_tcp(authority@) == Ok::<EndpointParts, Seq<char>>(e.parts()),
            Err(m) => spec_parse_tcp(authority@) == Err::<EndpointParts, Seq<char>>(m@),
        },
{
    match split_host_port(authority, DEFAULT_MQTT_TCP_PORT) {
        Ok((host, port)) => Ok(
            MqttBrokerEndpoint {
                host,
                port,
                transport: MqttBrokerTransport::Tcp,
                websocket_path: crate::text::owned("/mqtt"),
            },
        ),
        Err(e) => Err(e),
    }
}

fn parse_ws_endpoint(rest: &[char]) -> (r: Result<MqttBrokerEndpoint, String>)
    ensures
        match r {
            Ok(e) => spec_parse_ws(rest@) == Ok::<EndpointParts, Seq<char>>(e.parts()),
            Err(m) => spec_parse_ws(rest@) == Err::<EndpointParts, Seq<char>>(m@),
        },
{
    let k = index_of_char(rest, '/');
    proof {
        lemma_index_of(rest@, '/');
    }
    let (authority, path) = if k < rest.len() {
        let a = slice(rest, 0, k);
        let p = slice(rest, k, rest.len());
        assert(a@ =~= rest@.take(k as int));
        assert(p@ =~= rest@.skip(k as int));
        (a, string_of(p.as_slice()))
    } else {
        let a = slice(rest, 0, rest.len());
        assert(a@ =~= rest@);
        (a, crate::text::owned("/mqtt"))
    };
    match split_host_port(authority.as_slice(), DEFAULT_MQTT_WS_PORT) {
        Ok((host, port)) => Ok(
            MqttBrokerEndpoint {
                host,
                port,
                transport: MqttBrokerTransport::WebSocket,
                websocket_path: path,
            },
        ),
        Err(e) => Err(e),
    }
}

impl MqttBrokerEndpoint {
    /// Parses `ws://host[:port][/path]`, `mqtt://host[:port]`, `tcp://host[:port]` or a bare
    /// `host[:port]`, after trimming whitespace.
    pub fn parse(input: &str) -> (r: Result<MqttBrokerEndpoint, String>)
        ensures
            match r {
                Ok(e) => spec_parse_endpoint(input@) == Ok::<EndpointParts, Seq<char>>(e.parts()),
                Err(m) => spec_parse_endpoint(input@) == Err::<EndpointParts, Seq<char>>(m@),
            },
    {
        let raw = trim_str(input);
        if raw.len() == 0 {
            return Err(crate::text::owned("mqtt endpoint is empty"));
        }
        let ws = chars_of("ws://");
        let mq = chars_of("mqtt://");
        let tcp = chars_of("tcp://");
        proof {
            reveal_strlit("ws://");
            reveal_strlit("mqtt://");
            reveal_strlit("tcp://");
        }
        if starts_with(raw.as_slice(), ws.as_slice()) {
            let rest = slice(raw.as_slice(), 5, raw.len());
            assert(rest@ =~= raw@.skip(5));
            return parse_ws_endpoint(rest.as_slice());
        }
        if starts_with(raw.as_slice(), mq.as_slice()) {
            let rest = slice(raw.as_slice(), 7, raw.len());
            assert(rest@ =~= raw@.skip(7));
            return parse_tcp_endpoint(rest.as_slice());
        }
        if starts_with(raw.as_slice(), tcp.as_slice()) {
            let rest = slice(raw.as_slice(), 6, raw.len());
            assert(rest@ =~= raw@.skip(6));
            return parse_tcp_endpoint(rest.as_slice());
        }
        parse_tcp_endpoint(raw.as_slice())
    }

    /// `ws://host:port/path`.
    pub open spec fn spec_websocket_url(self) -> Seq<char> {
        "ws://"@ + self.host@ + seq![':'] + decimal(self.port as nat) + self.websocket_path@
    }

    pub fn websocket_url(&self) -> (r: String)
        ensures
            r@ == self.spec_websocket_url(),
    {
        let mut out: Vec<char> = Vec::new();
        push_text(&mut out, "ws://");
        push_text(&mut out, self.host.as_str());
        out.push(':');
        let p = u64_text(self.port as u64);
        push_all(&mut out, p.as_slice());
        push_text(&mut out, self.websocket_path.as_str());
        assert(out@ =~= self.spec_websocket_url());
        string_of(out.as_slice())
    }
}

/// The WebSocket URL of an endpoint reads back as that endpoint, where its host holds no
/// `/` and its path begins with `/` and does not end in whitespace.
pub proof fn websocket_url_reads_back(e: MqttBrokerEndpoint)
    requires
        e.transport == MqttBrokerTransport::WebSocket,
        e.host@.len() > 0,
        !e.host@.contains('/'),
        e.websocket_path@.len() > 0,
        e.websocket_path@[0] == '/',
        !crate::text::is_ws(e.websocket_path@.last()),
    ensures
        spec_parse_endpoint(e.spec_websocket_url()) == Ok::<EndpointParts, Seq<char>>(e.parts()),
{
    reveal_strlit("ws://");
    let host = e.host@;
    let path = e.websocket_path@;
    let dec = decimal(e.port as nat);
    crate::text::lemma_decimal_value(e.port as nat);
    crate::text::lemma_parse_decimal(e.port as nat, 65535);
    let url = e.spec_websocket_url();
    let a = host + seq![':'] + dec;
    assert(url =~= "ws://"@ + a + path);
    assert(!crate::text::is_ws(url[0]));
    assert(url.last() == path.last());
    assert(crate::text::trim_start(url) == url);
    assert(crate::text::trim_end(url) == url);
    assert(trim(url) == url);
    assert(has_prefix(url, "ws://"@)) by {
        assert(url.subrange(0, 5) =~= "ws://"@);
    }
    let rest = url.skip(5);
    assert(rest =~= a + seq!['/'] + path.drop_first());
    assert(!a.contains('/')) by {
        if a.contains('/') {
            let j = choose|j: int| 0 <= j < a.len() && a[j] == '/';
            if j < host.len() {
                assert(host[j] == '/');
            } else if j > host.len() {
                assert(crate::text::is_digit(dec[j - host.len() - 1]));
            }
        }
    }
    crate::text::lemma_index_past(a, '/', path.drop_first());
    assert(rest.take(a.len() as int) =~= a);
    assert(rest.skip(a.len() as int) =~= path);
    assert(!dec.contains(':')) by {
        if dec.contains(':') {
            let j = choose|j: int| 0 <= j < dec.len() && dec[j] == ':';
            assert(crate::text::is_digit(dec[j]));
        }
    }
    assert(a.last() == dec.last());
    assert(crate::text::is_digit(dec[dec.len() - 1]));
    assert(trim_end_char(a, '/') == a);
    crate::text::lemma_last_index_before(host, ':', dec);
    assert(a.take(host.len() as int) =~= host);
    assert(a.skip(host.len() + 1int) =~= dec);
}

/// `scada/<project>/<kind>/<id>/<leaf>`.
pub open spec fn topic4(project_id: Seq<char>, kind: Seq<char>, id: Seq<char>, leaf: Seq<char>) -> Seq<char> {
    "scada/"@ + project_id + seq!['/'] + kind + seq!['/'] + id + seq!['/'] + leaf
}

fn build_topic(project_id: &str, kind: &str, id: &str, leaf: &str) -> (r: String)
    ensures
        r@ == topic4(project_id@, kind@, id@, leaf@),
{
    let mut out: Vec<char> = Vec::new();
    push_text(&mut out, "scada/");
    push_text(&mut out, project_id);
    out.push('/');
    push_text(&mut out, kind);
    out.push('/');
    push_text(&mut out, id);
    out.push('/');
    push_text(&mut out, leaf);
    assert(out@ =~= topic4(project_id@, kind@, id@, leaf@));
    string_of(out.as_slice())
}

/// The topic that carries a tag's value.
pub fn tag_value_topic(project_id: &str, tag_id: &str) -> (r: String)
    ensures
        r@ == topic4(project_id@, "tag"@, tag_id@, "value"@),
{
    build_topic(project_id, "tag", tag_id, "value")
}

/// The topic that carries a tag's quality.
pub fn tag_quality_topic(project_id: &str, tag_id: &str) -> (r: String)
    ensures
        r@ == topic4(project_id@, "tag"@, tag_id@, "quality"@),
{
    build_topic(project_id, "tag", tag_id, "quality")
}

/// The topic that carries an alarm's state.
pub fn alarm_state_topic(project_id: &str, alarm_id: &str) -> (r: String)
    ensures
        r@ == topic4(project_id@, "alarm"@, alarm_id@, "state"@),
{
    build_topic(project_id, "alarm", alarm_id, "state")
}

/// The topic that carries a driver's status.
pub fn driver_status_topic(project_id: &str, driver_id: &str) -> (r: String)
    ensures
        r@ == topic4(project_id@, "driver"@, driver_id@, "status"@),
{
    build_topic(project_id, "driver", driver_id, "status")
}

/// `scada/<project>/event/system`.
pub open spec fn system_topic(project_id: Seq<char>) -> Seq<char> {
    "scada/"@ + project_id + "/event/system"@
}

/// The topic that carries system events.
pub fn system_event_topic(project_id: &str) -> (r: String)
    ensures
        r@ == system_topic(project_id@),
{
    let mut out: Vec<char> = Vec::new();
    push_text(&mut out, "scada/");
    push_text(&mut out, project_id);
    push_text(&mut out, "/event/system");
    assert(out@ =~= system_topic(project_id@));
    string_of(out.as_slice())
}

} // verus!
