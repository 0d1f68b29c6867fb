//! The preview runtime's command line: where it listens, where it finds the tag server
//! and the broker, and how long it waits before it subscribes again.
use vstd::prelude::*;

use crate::json_doc::string_views;
use crate::mqtt::{spec_parse_endpoint, EndpointParts, MqttBrokerEndpoint, MqttBrokerTransport, DEFAULT_MQTT_TCP_PORT};
use crate::runtime_api::MqttConnectionConfig;
use crate::runtime_http::{duration_of_secs, seconds};
use crate::shell_cli::{arg_value, arg_value_of, has_flag};
use crate::text::{chars_of, decimal, lines, owned, parse_unsigned, parse_unsigned_exec, push_chars, push_str, u64_text};

verus! {

/// The file the runtime shows where no screen is named.
pub const DEFAULT_SCREEN_PATH: &'static str = "config/screens/mock-main.screen.json";

/// The tag server the runtime asks where none is named.
pub const DEFAULT_TAG_SERVER_URL: &'static str = "http://127.0.0.1:18080";

/// Two to the power `n`.
pub open spec fn doubling(n: nat) -> nat
    decreases n,
{
    if n == 0 {
        1
    } else {
        2 * doubling((n - 1) as nat)
    }
}

/// Seconds to wait after `failures` failed subscriptions in a row: doubling from one
/// second, at most thirty.
pub open spec fn backoff(failures: u32) -> nat {
    if failures >= 6 {
        30
    } else {
        doubling((failures - 1) as nat)
    }
}

/// Seconds to wait after `failures` failed subscriptions in a row, one at least.
pub fn reconnect_backoff_secs(failures: u32) -> (r: u64)
    requires
        failures >= 1,
    ensures
        r == backoff(failures),
{
    let capped: u32 = if failures < 6 {
        failures
    } else {
        6
    };
    let shift: u32 = capped - 1;
    let doubled: u64 = 1u64 << shift;
    proof {
        reveal_with_fuel(doubling, 6);
        assert(shift <= 5);
        assert(1u64 << 0u32 == 1) by (bit_vector);
        assert(1u64 << 1u32 == 2) by (bit_vector);
        assert(1u64 << 2u32 == 4) by (bit_vector);
        assert(1u64 << 3u32 == 8) by (bit_vector);
        assert(1u64 << 4u32 == 16) by (bit_vector);
        assert(1u64 << 5u32 == 32) by (bit_vector);
    }
    if doubled < 30 {
        doubled
    } else {
        30
    }
}

/// The wait never shrinks as failures add up.
pub proof fn backoff_never_shrinks(a: u32, b: u32)
    requires
        1 <= a <= b,
    ensures
        backoff(a) <= backoff(b),
{
    reveal_with_fuel(doubling, 6);
}

/// The wait is at most thirty seconds, and thirty from the sixth failure on.
pub proof fn backoff_caps_at_thirty(failures: u32)
    requires
        failures >= 1,
    ensures
        backoff(failures) <= 30,
        failures >= 6 ==> backoff(failures) == 30,
{
    reveal_with_fuel(doubling, 6);
}

/// The arguments after each `name`, in order.
pub open spec fn arg_values_of(args: Seq<Seq<char>>, name: Seq<char>) -> Seq<Seq<char>>
    decreases args.len(),
{
    if args.len() < 2 {
        seq![]
    } else if args[0] == name {
        seq![args[1]] + arg_values_of(args.drop_first(), name)
    } else {
        arg_values_of(args.drop_first(), name)
    }
}

/// The arguments after each `name`.
pub fn arg_values(args: &Vec<String>, name: &str) -> (r: Vec<String>)
    ensures
        string_views(r@) == arg_values_of(string_views(args@), name@),
{
    let ghost av = string_views(args@);
    let mut out: Vec<String> = Vec::new();
    let mut i: usize = 0;
    assert(av.skip(0) =~= av);
    while args.len() >= 2 && i < args.len() - 1
        invariant
            av == string_views(args@),
            i <= args@.len(),
            arg_values_of(av, name@) == string_views(out@) + arg_values_of(av.skip(i as int), name@),
        decreases args@.len() - i,
    {
        let ghost before = string_views(out@);
        assert(av.skip(i as int).drop_first() =~= av.skip(i + 1));
        assert(av.skip(i as int)[0] == av[i as int]);
        assert(av.skip(i as int)[1] == av[i + 1]);
        if crate::text::str_eq(args[i].as_str(), name) {
            out.push(args[i + 1].clone());
            assert(string_views(out@) =~= before + seq![av[i + 1]]);
        }
        i = i + 1;
    }
    assert(arg_values_of(av.skip(i as int), name@) =~= Seq::<Seq<char>>::empty());
    assert(string_views(out@) + Seq::<Seq<char>>::empty() =~= string_views(out@));
    out
}

/// The value of `name` in the arguments, else the environment's, else `default`.
pub open spec fn setting(args: Seq<Seq<char>>, name: Seq<char>, env: Option<Seq<char>>, default: Seq<char>) -> Seq<char> {
    match arg_value_of(args, name) {
        Some(v) => v,
        None => match env {
            Some(e) => e,
            None => default,
        },
    }
}

/// The view of an optional string.
pub open spec fn opt_str(o: Option<String>) -> Option<Seq<char>> {
    match o {
        Some(s) => Some(s@),
        None => None,
    }
}

/// The tag server's URL: `--tag-server`, else the environment's, else the local default.
pub fn tag_server_url(args: &Vec<String>, env_url: Option<String>) -> (r: String)
    ensures
        r@ == setting(string_views(args@), "--tag-server"@, opt_str(env_url), DEFAULT_TAG_SERVER_URL@),
{
    match arg_value(args, "--tag-server") {
        Some(v) => v,
        None => match env_url {
            Some(e) => e,
            None => owned(DEFAULT_TAG_SERVER_URL),
        },
    }
}

/// The screen file to show: `--screen`, else the default screen.
pub fn screen_path(args: &Vec<String>) -> (r: String)
    ensures
        r@ == setting(string_views(args@), "--screen"@, None, DEFAULT_SCREEN_PATH@),
{
    match arg_value(args, "--screen") {
        Some(v) => v,
        None => owned(DEFAULT_SCREEN_PATH),
    }
}

/// The access token: `--token`, else the environment's, if any.
pub fn token_setting(args: &Vec<String>, env_token: Option<String>) -> (r: Option<String>)
    ensures
        opt_str(r) == match arg_value_of(string_views(args@), "--token"@) {
            Some(v) => Some(v),
            None => opt_str(env_token),
        },
{
    match arg_value(args, "--token") {
        Some(v) => Some(v),
        None => env_token,
    }
}

/// The port an optional text names, as `u16` parsing reads it, else `default`.
pub open spec fn port_or(text: Option<Seq<char>>, default: u16) -> u16 {
    match text {
        Some(t) => match parse_unsigned(t, u16::MAX as nat) {
            Some(p) => p as u16,
            None => default,
        },
        None => default,
    }
}

/// The port in `text`, else `default`.
pub fn parse_port_or(text: &Option<String>, default: u16) -> (r: u16)
    ensures
        r == port_or(opt_str(*text), default),
{
    match text {
        Some(t) => {
            let cs = chars_of(t.as_str());
            match parse_unsigned_exec(cs.as_slice(), 65535) {
                Some(p) => p as u16,
                None => default,
            }
        },
        None => default,
    }
}

/// Where the runtime listens: `--addr`, else `<host>:<port>` from the environment's bind
/// host and port, with `127.0.0.1` and 18090 where they are missing or the port is not one.
pub open spec fn serve_address(args: Seq<Seq<char>>, env_host: Option<Seq<char>>, env_port: Option<Seq<char>>) -> Seq<char> {
    match arg_value_of(args, "--addr"@) {
        Some(a) => a,
        None => {
            let host = match env_host {
                Some(h) => h,
                None => "127.0.0.1"@,
            };
            host + ":"@ + decimal(port_or(env_port, 18090) as nat)
        },
    }
}

/// Where the runtime listens.
pub fn serve_addr(args: &Vec<String>, env_host: Option<String>, env_port: Option<String>) -> (r: String)
    ensures
        r@ == serve_address(string_views(args@), opt_str(env_host), opt_str(env_port)),
{
    match arg_value(args, "--addr") {
        Some(a) => a,
        None => {
            let port = parse_port_or(&env_port, 18090);
            let mut out = match env_host {
                Some(h) => h,
                None => owned("127.0.0.1"),
            };
            push_str(&mut out, ":");
            let digits = u64_text(port as u64);
            push_chars(&mut out, digits.as_slice());
            out
        },
    }
}

/// The broker the arguments name: `--mqtt-url` where given (an error where it is not an
/// endpoint), else host, port, transport and path from their own options.
pub open spec fn broker_of(args: Seq<Seq<char>>) -> Result<EndpointParts, Seq<char>> {
    match arg_value_of(args, "--mqtt-url"@) {
        Some(url) => match spec_parse_endpoint(url) {
            Ok(p) => Ok(p),
            Err(e) => Err("invalid --mqtt-url: "@ + e),
        },
        None => Ok(
            (
                match arg_value_of(args, "--mqtt-host"@) {
                    Some(h) => h,
                    None => "127.0.0.1"@,
                },
                port_or(arg_value_of(args, "--mqtt-port"@), DEFAULT_MQTT_TCP_PORT),
                if args.contains("--mqtt-websocket"@) {
                    MqttBrokerTransport::WebSocket
                } else {
                    MqttBrokerTransport::Tcp
                },
                match arg_value_of(args, "--mqtt-ws-path"@) {
                    Some(p) => p,
                    None => "/mqtt"@,
                },
            ),
        ),
    }
}

/// The broker the arguments name.
pub fn broker_from_args(args: &Vec<String>) -> (r: Result<MqttBrokerEndpoint, String>)
    ensures
        match r {
            Ok(e) => broker_of(string_views(args@)) == Ok::<EndpointParts, Seq<char>>(e.parts()),
            Err(m) => broker_of(string_views(args@)) == Err::<EndpointParts, Seq<char>>(m@),
        },
{
    match arg_value(args, "--mqtt-url") {
        Some(url) => match MqttBrokerEndpoint::parse(url.as_str()) {
            Ok(e) => Ok(e),
            Err(e) => {
                let mut m = owned("invalid --mqtt-url: ");
                push_str(&mut m, e.as_str());
                Err(m)
            },
        },
        None => {
            let host = match arg_value(args, "--mqtt-host") {
                Some(h) => h,
                None => owned("127.0.0.1"),
            };
            let port = parse_port_or(&arg_value(args, "--mqtt-port"), DEFAULT_MQTT_TCP_PORT);
            let transport = if has_flag(args, "--mqtt-websocket") {
                MqttBrokerTransport::WebSocket
            } else {
                MqttBrokerTransport::Tcp
            };
            let websocket_path = match arg_value(args, "--mqtt-ws-path") {
                Some(p) => p,
                None => owned("/mqtt"),
            };
            Ok(MqttBrokerEndpoint { host, port, transport, websocket_path })
        },
    }
}

/// The seconds the runtime waits on the broker: `--mqtt-timeout-secs` where it is a
/// number, else five.
pub open spec fn timeout_secs_of(args: Seq<Seq<char>>) -> nat {
    match arg_value_of(args, "--mqtt-timeout-secs"@) {
        Some(t) => match parse_unsigned(t, u64::MAX as nat) {
            Some(v) => v,
            None => 5,
        },
        None => 5,
    }
}

/// The seconds the runtime waits on the broker.
pub fn mqtt_timeout_secs(args: &Vec<String>) -> (r: u64)
    ensures
        r == timeout_secs_of(string_views(args@)),
{
    match arg_value(args, "--mqtt-timeout-secs") {
        Some(t) => {
            let cs = chars_of(t.as_str());
            match parse_unsigned_exec(cs.as_slice(), u64::MAX) {
                Some(v) => v,
                None => 5,
            }
        },
        None => 5,
    }
}

/// The client id: `--mqtt-client-id`, else `<prefix>-<process id>`.
pub open spec fn client_id_of(args: Seq<Seq<char>>, prefix: Seq<char>, pid: u32) -> Seq<char> {
    match arg_value_of(args, "--mqtt-client-id"@) {
        Some(id) => id,
        None => prefix + "-"@ + decimal(pid as nat),
    }
}

/// The runtime's broker settings from its arguments; `prefix` and `pid` make the client id
/// where none is given.
pub fn mqtt_config_from_args(args: &Vec<String>, prefix: &str, pid: u32) -> (r: Result<MqttConnectionConfig, String>)
    ensures
        match r {
            Ok(c) => {
                &&& broker_of(string_views(args@)) == Ok::<EndpointParts, Seq<char>>(c.endpoint.parts())
                &&& c.client_id@ == client_id_of(string_views(args@), prefix@, pid)
                &&& c.timeout == duration_of_secs(timeout_secs_of(string_views(args@)) as u64)
            },
            Err(m) => broker_of(string_views(args@)) == Err::<EndpointParts, Seq<char>>(m@),
        },
{
    let endpoint = match broker_from_args(args) {
        Ok(e) => e,
        Err(m) => {
            return Err(m);
        },
    };
    let secs = mqtt_timeout_secs(args);
    let client_id = match arg_value(args, "--mqtt-client-id") {
        Some(id) => id,
        None => {
            let mut s = owned(prefix);
            push_str(&mut s, "-");
            let digits = u64_text(pid as u64);
            push_chars(&mut s, digits.as_slice());
            s
        },
    };
    Ok(MqttConnectionConfig { endpoint, client_id, timeout: seconds(secs) })
}

/// What the runtime logs of a projection summary: all of it when verbose, else its first
/// line, or a note where it has none.
pub open spec fn projection_log(summary: Seq<char>, verbose: bool) -> Seq<char> {
    if verbose {
        summary
    } else if lines(summary).len() > 0 {
        lines(summary)[0]
    } else {
        "projection unavailable"@
    }
}

/// What the runtime logs of a projection summary.
pub fn projection_log_line(summary: &str, verbose: bool) -> (r: String)
    ensures
        r@ == projection_log(summary@, verbose),
{
    if verbose {
        return owned(summary);
    }
    let cs = chars_of(summary);
    let ls = crate::text::lines_of(cs.as_slice());
    if ls.len() > 0 {
        assert(crate::text::views(ls@)[0] == ls@[0]@);
        crate::text::string_of(ls[0].as_slice())
    } else {
        owned("projection unavailable")
    }
}

} // verus!
