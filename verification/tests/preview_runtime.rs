use scada::runtime_api::{
    snapshot_from_response, RuntimeApi, RuntimeControlCommandRequest, RuntimeIo,
};
use scada::runtime_cli::{
    arg_values, mqtt_config_from_args, projection_log_line, reconnect_backoff_secs, serve_addr,
    tag_server_url,
};
use scada::runtime_http::{
    build_http_request, mqtt_tag_value_topic_filter, parse_http_response, RuntimeClientError,
    RuntimeHttpRequest, RuntimeHttpResponse, TagServerClient, TagServerEndpoint,
};
use scada::runtime_api::parse_tag_value_delta;
use scada::screen::{
    apply_delta_to_projection, format_snapshot_summary, project_snapshot_to_screen,
    resolve_tag_ids_from_screen, ObjectBindingState, RuntimeTagValue, ScreenDefinition,
    ScreenObjectDefinition, ScreenObjectState, ScreenProjection, TagSnapshot,
};

/// Answers the runtime's outside calls with fixed texts: the tag server's raw reply (or a
/// refused connection) and the screen file (or a failed read).
struct StubIo {
    reply: Option<String>,
    screen: Option<String>,
}

impl RuntimeIo for StubIo {
    fn round_trip(&self, _client: &TagServerClient, _request_text: &str) -> Result<String, RuntimeClientError> {
        match &self.reply {
            Some(r) => Ok(r.clone()),
            None => Err(RuntimeClientError::Io("Connection refused (os error 111)".to_string())),
        }
    }

    fn read_screen(&self, _path: &str) -> Result<String, String> {
        match &self.screen {
            Some(s) => Ok(s.clone()),
            None => Err("No such file or directory (os error 2)".to_string()),
        }
    }
}

fn no_io() -> StubIo {
    StubIo { reply: None, screen: None }
}

const SCREEN: &str = r#"{"schema_version":"1.0.0","screen_id":"main","project_id":"demo","name":"Main","canvas_width":1280,"canvas_height":720,"objects":[{"object_id":"pump-001","svg_asset_id":"pump","x":0.0,"y":0.0,"width":100.0,"height":100.0,"tag_bindings":{"state":"mock.running.001"}}]}"#;

fn raw_reply(status: u16, body: &str) -> String {
    String::from_utf8(RuntimeHttpResponse::json(status, body.to_string()).to_http_bytes()).expect("utf8")
}

fn runtime_value(tag_id: &str, value: &str, data_type: &str, sequence: u64) -> RuntimeTagValue {
    RuntimeTagValue {
        tag_id: tag_id.to_string(),
        value: value.to_string(),
        data_type: data_type.to_string(),
        quality: "Simulated".to_string(),
        source_timestamp: "1970-01-01T00:00:00Z".to_string(),
        server_timestamp: "1970-01-01T00:00:00Z".to_string(),
        sequence,
        scan_interval_ms: 1000,
        stale_after_ms: 3000,
        driver_id: "mock-driver".to_string(),
        endpoint_id: "mock-endpoint".to_string(),
        read_status: "ok".to_string(),
        write_status: "idle".to_string(),
    }
}

fn projection_api() -> RuntimeApi {
    RuntimeApi::new(TagServerClient::from_base_url("http://127.0.0.1:18080").expect("client"))
        .with_default_screen_path("screen.json".to_string())
}

fn valid_control_command_json() -> &'static str {
    r#"{"command_id":"cmd-1","idempotency_key":"key-1","user_id":"operator","tag_id":"mock.running.001","requested_value":true,"status":"Requested","requested_at":"1970-01-01T00:00:05Z","timeout_ms":1000}"#
}

#[test]
fn endpoint_parses_http_url() {
    let endpoint = TagServerEndpoint::parse("http://127.0.0.1:18080").expect("endpoint");

    assert_eq!("127.0.0.1", endpoint.host);
    assert_eq!(18080, endpoint.port);
    assert_eq!("127.0.0.1:18080", endpoint.authority());
}

#[test]
fn endpoint_rejects_https() {
    assert!(TagServerEndpoint::parse("https://127.0.0.1:18080").is_err());
}

#[test]
fn http_request_includes_auth_and_content_length() {
    let request = build_http_request(
        "POST",
        "/api/v1/tags/snapshot",
        "127.0.0.1:18080",
        Some("secret"),
        r#"{"tag_ids":["mock.running.001"]}"#,
    );

    assert!(request.contains("Authorization: Bearer secret\r\n"));
    assert!(request.contains("Content-Length: 32\r\n"));
}

#[test]
fn response_parser_reads_status_and_body() {
    let response = parse_http_response(
        "HTTP/1.1 200 OK\r\nContent-Type: application/json\r\n\r\n{\"values\":[],\"missing_tag_ids\":[]}",
    )
    .expect("response");

    assert_eq!(200, response.status_code);
    assert_eq!("OK", response.reason);
    assert_eq!(r#"{"values":[],"missing_tag_ids":[]}"#, response.body);
}

#[test]
fn runtime_api_requires_token_for_control_commands() {
    let api = RuntimeApi::new(TagServerClient::from_base_url("http://127.0.0.1:18080").expect("client"))
        .with_required_token(Some("secret".to_string()));
    let request = RuntimeHttpRequest::new("POST", "/api/v1/control-commands", "{}");

    let response = api.handle(&request, &no_io());

    assert_eq!(401, response.status_code);
    assert_eq!(r#"{"error":"unauthorized"}"#, response.body);
}

#[test]
fn runtime_api_rejects_invalid_control_command_before_forwarding() {
    let api = RuntimeApi::new(TagServerClient::from_base_url("http://127.0.0.1:18080").expect("client"));
    let request = RuntimeHttpRequest::new(
        "POST",
        "/api/v1/control-commands",
        r#"{"command_id":"","idempotency_key":"key","user_id":"operator","tag_id":"mock.running.001","requested_value":true,"status":"Requested","requested_at":"1970-01-01T00:00:05Z","timeout_ms":1000}"#,
    );

    let response = api.handle(&request, &no_io());

    assert_eq!(400, response.status_code);
    assert!(response.body.contains("command_id must not be empty"));
}

#[test]
fn tag_server_client_forwards_control_command_with_auth() {
    let client = TagServerClient::from_base_url("http://127.0.0.1:18080")
        .expect("client")
        .with_token(Some("secret".to_string()));
    let request = client
        .forward_control_command(&RuntimeControlCommandRequest {
            command_id: "cmd-1".to_string(),
            idempotency_key: "key-1".to_string(),
            user_id: "operator".to_string(),
            tag_id: "mock.running.001".to_string(),
            requested_value: "true".to_string(),
            status: "Requested".to_string(),
            requested_at: "1970-01-01T00:00:05Z".to_string(),
            timeout_ms: 1000,
        })
        .expect("request");

    assert!(request.starts_with("POST /api/v1/control-commands HTTP/1.1\r\n"));
    assert!(request.contains("Authorization: Bearer secret\r\n"));
    assert!(request.contains(r#""tag_id":"mock.running.001""#));
}

#[test]
fn runtime_api_forwards_control_command_json_error_response() {
    let api = RuntimeApi::new(TagServerClient::from_base_url("http://127.0.0.1:18080").expect("client"));
    let io = StubIo { reply: Some(raw_reply(409, r#"{"error":"command already in progress"}"#)), screen: None };
    let response = api.handle(&RuntimeHttpRequest::new("POST", "/api/v1/control-commands", valid_control_command_json()), &io);

    assert_eq!(409, response.status_code);
    assert_eq!(r#"{"error":"command already in progress"}"#, response.body);
}

#[test]
fn runtime_api_forwards_control_command_non_json_error_response() {
    let api = RuntimeApi::new(TagServerClient::from_base_url("http://127.0.0.1:18080").expect("client"));
    let io = StubIo {
        reply: Some("HTTP/1.1 502 Bad Gateway\r\nContent-Type: text/plain\r\n\r\nbad gateway".to_string()),
        screen: None,
    };
    let response = api.handle(&RuntimeHttpRequest::new("POST", "/api/v1/control-commands", valid_control_command_json()), &io);

    assert_eq!(502, response.status_code);
    assert_eq!("bad gateway", response.body);
}

#[test]
fn runtime_api_forwards_control_command_empty_success_response() {
    let api = RuntimeApi::new(TagServerClient::from_base_url("http://127.0.0.1:18080").expect("client"));
    let io = StubIo { reply: Some(raw_reply(202, "")), screen: None };
    let response = api.handle(&RuntimeHttpRequest::new("POST", "/api/v1/control-commands", valid_control_command_json()), &io);

    assert_eq!(202, response.status_code);
    assert_eq!("", response.body);
}

#[test]
fn runtime_api_returns_bad_gateway_when_control_command_connection_is_refused() {
    let api = RuntimeApi::new(TagServerClient::from_base_url("http://127.0.0.1:18080").expect("client"));
    let response = api.handle(&RuntimeHttpRequest::new("POST", "/api/v1/control-commands", valid_control_command_json()), &no_io());

    assert_eq!(502, response.status_code);
    assert!(response.body.contains("tag server forwarding failed"));
    assert!(response.body.contains("io error"));
}

#[test]
fn runtime_api_returns_bad_gateway_when_control_command_http_status_code_is_invalid() {
    let api = RuntimeApi::new(TagServerClient::from_base_url("http://127.0.0.1:18080").expect("client"));
    let io = StubIo {
        reply: Some("HTTP/1.1 xyz OOPS\r\nContent-Type: application/json\r\n\r\n{\"command\":{\"status\":\"DriverAck\"}}".to_string()),
        screen: None,
    };
    let response = api.handle(&RuntimeHttpRequest::new("POST", "/api/v1/control-commands", valid_control_command_json()), &io);

    assert_eq!(502, response.status_code);
    assert!(response.body.contains("tag server forwarding failed"));
    assert!(response.body.contains("http error"));
    assert!(response.body.contains("invalid status code"));
}

#[test]
fn runtime_api_returns_screen_projection_from_tag_snapshot() {
    let body = r#"{"values":[{"tag_id":"mock.running.001","value":true,"data_type":"boolean","quality":"Simulated","source_timestamp":"1970-01-01T00:00:01Z","server_timestamp":"1970-01-01T00:00:01Z","sequence":3,"scan_interval_ms":1000,"stale_after_ms":3000,"driver_id":"mock-driver","endpoint_id":"mock-endpoint","read_status":"ok","write_status":"idle"}],"missing_tag_ids":[]}"#;
    let io = StubIo { reply: Some(raw_reply(200, body)), screen: Some(SCREEN.to_string()) };
    let request = RuntimeHttpRequest::new("POST", "/api/v1/screens/projection", r#"{}"#);

    let response = projection_api().handle(&request, &io);

    assert_eq!(200, response.status_code);
    assert!(response.body.contains(r#""screen_id":"main""#));
    assert!(response.body.contains(r#""object_id":"pump-001""#));
    assert!(response.body.contains(r#""value":true"#));
    assert!(response.body.contains(r#""sequence":3"#));
}

#[test]
fn runtime_api_returns_bad_gateway_when_snapshot_fetch_fails() {
    let io = StubIo { reply: Some(raw_reply(503, r#"{"error":"snapshot unavailable"}"#)), screen: Some(SCREEN.to_string()) };
    let response = projection_api().handle(&RuntimeHttpRequest::new("POST", "/api/v1/screens/projection", r#"{}"#), &io);

    assert_eq!(502, response.status_code);
    assert!(response.body.contains("tag server snapshot failed"));
    assert!(response.body.contains("503"));
}

#[test]
fn runtime_api_returns_bad_gateway_when_snapshot_json_is_invalid() {
    let io = StubIo { reply: Some(raw_reply(200, r#"{"values":"#)), screen: Some(SCREEN.to_string()) };
    let response = projection_api().handle(&RuntimeHttpRequest::new("POST", "/api/v1/screens/projection", r#"{}"#), &io);

    assert_eq!(502, response.status_code);
    assert!(response.body.contains("tag server snapshot failed"));
    assert!(response.body.contains("json error"));
}

#[test]
fn runtime_api_returns_bad_gateway_when_snapshot_body_is_empty() {
    let io = StubIo { reply: Some(raw_reply(200, "")), screen: Some(SCREEN.to_string()) };
    let response = projection_api().handle(&RuntimeHttpRequest::new("POST", "/api/v1/screens/projection", r#"{}"#), &io);

    assert_eq!(502, response.status_code);
    assert!(response.body.contains("tag server snapshot failed"));
    assert!(response.body.contains("json error"));
}

#[test]
fn runtime_api_returns_bad_gateway_when_snapshot_http_status_line_is_missing() {
    let io = StubIo {
        reply: Some("\r\n\r\n{\"values\":[],\"missing_tag_ids\":[]}".to_string()),
        screen: Some(SCREEN.to_string()),
    };
    let response = projection_api().handle(&RuntimeHttpRequest::new("POST", "/api/v1/screens/projection", r#"{}"#), &io);

    assert_eq!(502, response.status_code);
    assert!(response.body.contains("tag server snapshot failed"));
    assert!(response.body.contains("http error"));
    assert!(response.body.contains("missing status line"));
}

#[test]
fn runtime_api_rejects_invalid_projection_json() {
    let api = RuntimeApi::new(TagServerClient::from_base_url("http://127.0.0.1:18080").expect("client"));

    let response = api.handle(
        &RuntimeHttpRequest::new("POST", "/api/v1/screens/projection", r#"{"screen_path":"#),
        &no_io(),
    );

    assert_eq!(400, response.status_code);
    assert!(response.body.contains("invalid screen projection JSON"));
}

#[test]
fn runtime_api_rejects_missing_projection_screen_path() {
    let api = RuntimeApi::new(TagServerClient::from_base_url("http://127.0.0.1:18080").expect("client"));

    let response = api.handle(
        &RuntimeHttpRequest::new("POST", "/api/v1/screens/projection", r#"{"screen_path":"/tmp/missing.json"}"#),
        &no_io(),
    );

    assert_eq!(400, response.status_code);
    assert!(response.body.contains("screen definition error"));
}

#[test]
fn snapshot_response_status_error_names_the_status() {
    let error = snapshot_from_response(&raw_reply(503, "busy")).err().expect("error");
    assert_eq!("tag server returned 503 OK: busy", error.message());
}

#[test]
fn summary_formats_values_and_missing_tags() {
    let snapshot = TagSnapshot {
        values: vec![runtime_value("mock.running.001", "true", "boolean", 1)],
        missing_tag_ids: vec!["missing".to_string()],
    };

    let summary = format_snapshot_summary(&snapshot);

    assert!(summary.contains("snapshot values=1 missing=1"));
    assert!(summary.contains("mock.running.001 boolean Simulated true"));
    assert!(summary.contains("missing missing"));
}

#[test]
fn resolve_screen_tag_ids_deduplicates_with_stable_order() {
    let definition = ScreenDefinition {
        schema_version: "1.0.0".to_string(),
        screen_id: "main".to_string(),
        project_id: "demo".to_string(),
        name: "Main".to_string(),
        canvas_width: 1280,
        canvas_height: 720,
        objects: vec![
            ScreenObjectDefinition {
                object_id: "obj-1".to_string(),
                svg_asset_id: "pump".to_string(),
                tag_bindings: vec![
                    ("value".to_string(), "mock.temperature.001".to_string()),
                    ("state".to_string(), "mock.running.001".to_string()),
                ],
            },
            ScreenObjectDefinition {
                object_id: "obj-2".to_string(),
                svg_asset_id: "label".to_string(),
                tag_bindings: vec![("value".to_string(), "mock.temperature.001".to_string())],
            },
        ],
    };

    let tags = resolve_tag_ids_from_screen(&definition);
    assert_eq!(vec!["mock.running.001".to_string(), "mock.temperature.001".to_string()], tags);
}

#[test]
fn projection_maps_values_to_object_bindings() {
    let definition = ScreenDefinition {
        schema_version: "1.0.0".to_string(),
        screen_id: "main".to_string(),
        project_id: "demo".to_string(),
        name: "Main".to_string(),
        canvas_width: 1280,
        canvas_height: 720,
        objects: vec![ScreenObjectDefinition {
            object_id: "obj-1".to_string(),
            svg_asset_id: "pump".to_string(),
            tag_bindings: vec![
                ("value".to_string(), "mock.temperature.001".to_string()),
                ("state".to_string(), "missing.tag".to_string()),
            ],
        }],
    };
    let snapshot = TagSnapshot {
        values: vec![runtime_value("mock.temperature.001", "21.0", "float", 1)],
        missing_tag_ids: vec!["missing.tag".to_string()],
    };

    let projection = project_snapshot_to_screen(&definition, &snapshot);

    assert_eq!("main", projection.screen_id);
    assert_eq!(1, projection.object_states.len());
    assert_eq!(2, projection.object_states[0].bindings.len());
    assert_eq!(Some("21.0".to_string()), projection.object_states[0].bindings[1].value);
    assert_eq!(None, projection.object_states[0].bindings[0].value);
}

#[test]
fn delta_parser_requires_matching_topic() {
    let payload = r#"{"tag_id":"mock.running.001","value":true,"data_type":"boolean","quality":"Simulated","source_timestamp":"1970-01-01T00:00:01Z","server_timestamp":"1970-01-01T00:00:01Z","sequence":2,"scan_interval_ms":1000,"stale_after_ms":3000,"driver_id":"mock-driver","endpoint_id":"mock-endpoint","read_status":"ok","write_status":"idle"}"#;

    let delta = parse_tag_value_delta("demo", "scada/demo/tag/mock.running.001/value", payload).expect("delta");

    assert_eq!("mock.running.001", delta.value.tag_id);
    assert!(parse_tag_value_delta("demo", "scada/demo/tag/other/value", payload).is_err());
}

#[test]
fn delta_apply_updates_newer_bindings_and_ignores_stale() {
    let mut projection = ScreenProjection {
        screen_id: "main".to_string(),
        project_id: "demo".to_string(),
        object_states: vec![ScreenObjectState {
            object_id: "pump".to_string(),
            svg_asset_id: "pump-symbol".to_string(),
            bindings: vec![
                ObjectBindingState {
                    key: "state".to_string(),
                    tag_id: "mock.running.001".to_string(),
                    value: Some("false".to_string()),
                    quality: Some("Simulated".to_string()),
                    sequence: Some(1),
                },
                ObjectBindingState {
                    key: "old".to_string(),
                    tag_id: "mock.temperature.001".to_string(),
                    value: Some("21.0".to_string()),
                    quality: Some("Simulated".to_string()),
                    sequence: Some(5),
                },
            ],
        }],
    };
    let newer = runtime_value("mock.running.001", "true", "boolean", 2);
    let stale = runtime_value("mock.temperature.001", "19.0", "float", 4);

    let newer_result = apply_delta_to_projection(&mut projection, &newer);
    let stale_result = apply_delta_to_projection(&mut projection, &stale);

    assert_eq!(1, newer_result.applied_bindings);
    assert_eq!(Some("true".to_string()), projection.object_states[0].bindings[0].value);
    assert_eq!(1, stale_result.ignored_stale_bindings);
    assert_eq!(Some("21.0".to_string()), projection.object_states[0].bindings[1].value);
}

#[test]
fn delta_applied_twice_changes_nothing_more() {
    let mut projection = ScreenProjection {
        screen_id: "main".to_string(),
        project_id: "demo".to_string(),
        object_states: vec![ScreenObjectState {
            object_id: "pump".to_string(),
            svg_asset_id: "pump-symbol".to_string(),
            bindings: vec![ObjectBindingState {
                key: "state".to_string(),
                tag_id: "mock.running.001".to_string(),
                value: None,
                quality: None,
                sequence: None,
            }],
        }],
    };
    let value = runtime_value("mock.running.001", "true", "boolean", 7);
    let first = apply_delta_to_projection(&mut projection, &value);
    let after_first = projection.clone();
    let second = apply_delta_to_projection(&mut projection, &value);
    assert_eq!(1, first.applied_bindings);
    assert_eq!(0, second.applied_bindings);
    assert_eq!(1, second.ignored_stale_bindings);
    assert_eq!(after_first, projection);
}

#[test]
fn mqtt_topic_filter_matches_design() {
    assert_eq!("scada/demo/tag/+/value", mqtt_tag_value_topic_filter("demo"));
}

#[test]
fn reconnect_backoff_secs_increases_and_caps_at_30() {
    assert_eq!(1, reconnect_backoff_secs(1));
    assert_eq!(2, reconnect_backoff_secs(2));
    assert_eq!(4, reconnect_backoff_secs(3));
    assert_eq!(8, reconnect_backoff_secs(4));
    assert_eq!(16, reconnect_backoff_secs(5));
    assert_eq!(30, reconnect_backoff_secs(6));
    assert_eq!(30, reconnect_backoff_secs(10));
}

#[test]
fn arg_values_collects_every_occurrence() {
    let args: Vec<String> = ["run", "--tag", "a", "--tag", "b", "--tag"].iter().map(|s| s.to_string()).collect();
    assert_eq!(vec!["a".to_string(), "b".to_string()], arg_values(&args, "--tag"));
}

#[test]
fn serve_addr_defaults_and_reads_environment() {
    let args = vec!["preview-runtime".to_string()];
    assert_eq!("127.0.0.1:18090", serve_addr(&args, None, None));
    assert_eq!("0.0.0.0:18091", serve_addr(&args, Some("0.0.0.0".to_string()), Some("18091".to_string())));
    assert_eq!("127.0.0.1:18090", serve_addr(&args, None, Some("not-a-port".to_string())));
    assert_eq!("127.0.0.1:18090", serve_addr(&args, None, Some("70000".to_string())));
}

#[test]
fn tag_server_url_prefers_argument() {
    let args: Vec<String> = ["x", "--tag-server", "http://h:1"].iter().map(|s| s.to_string()).collect();
    assert_eq!("http://h:1", tag_server_url(&args, Some("http://env:2".to_string())));
    assert_eq!("http://env:2", tag_server_url(&vec![], Some("http://env:2".to_string())));
    assert_eq!("http://127.0.0.1:18080", tag_server_url(&vec![], None));
}

#[test]
fn mqtt_config_reads_host_port_and_client_id() {
    let args: Vec<String> = ["x", "--mqtt-host", "broker", "--mqtt-port", "1884", "--mqtt-websocket"]
        .iter()
        .map(|s| s.to_string())
        .collect();
    let config = mqtt_config_from_args(&args, "preview-runtime-sub", 42).expect("config");
    assert_eq!("broker", config.endpoint.host);
    assert_eq!(1884, config.endpoint.port);
    assert_eq!("/mqtt", config.endpoint.websocket_path);
    assert_eq!("preview-runtime-sub-42", config.client_id);
    assert_eq!(std::time::Duration::from_secs(5), config.timeout);
}

#[test]
fn mqtt_config_rejects_invalid_url() {
    let args: Vec<String> = ["x", "--mqtt-url", "mqtt://:bad"].iter().map(|s| s.to_string()).collect();
    let error = mqtt_config_from_args(&args, "p", 1).err().expect("error");
    assert!(error.starts_with("invalid --mqtt-url: "));
}

#[test]
fn projection_log_keeps_first_line_unless_verbose() {
    assert_eq!("a", projection_log_line("a\nb", false));
    assert_eq!("a\nb", projection_log_line("a\nb", true));
    assert_eq!("projection unavailable", projection_log_line("", false));
}

/// Answers with a queue of raw replies and records each request text it was given.
struct RecordingIo {
    replies: std::cell::RefCell<Vec<String>>,
    requests: std::cell::RefCell<Vec<String>>,
}

impl RecordingIo {
    fn new(replies: Vec<String>) -> RecordingIo {
        RecordingIo { replies: std::cell::RefCell::new(replies), requests: std::cell::RefCell::new(Vec::new()) }
    }
}

impl RuntimeIo for RecordingIo {
    fn round_trip(&self, _client: &TagServerClient, request_text: &str) -> Result<String, RuntimeClientError> {
        self.requests.borrow_mut().push(request_text.to_string());
        Ok(self.replies.borrow_mut().remove(0))
    }

    fn read_screen(&self, _path: &str) -> Result<String, String> {
        Ok(SCREEN.to_string())
    }
}

fn control_with_raw(raw: &str) -> RuntimeHttpResponse {
    let api = RuntimeApi::new(TagServerClient::from_base_url("http://127.0.0.1:18080").expect("client"));
    let io = RecordingIo::new(vec![raw.to_string()]);
    let response = api.handle(&RuntimeHttpRequest::new("POST", "/api/v1/control-commands", valid_control_command_json()), &io);
    let requests = io.requests.borrow();
    assert!(requests[0].starts_with("POST /api/v1/control-commands HTTP/1.1\r\n"));
    assert!(requests[0].contains(r#""command_id":"cmd-1""#));
    response
}

fn projection_with_raw(raw: &str) -> RuntimeHttpResponse {
    let io = RecordingIo::new(vec![raw.to_string()]);
    projection_api().handle(&RuntimeHttpRequest::new("POST", "/api/v1/screens/projection", r#"{}"#), &io)
}

#[test]
fn runtime_api_returns_bad_gateway_when_control_command_http_header_terminator_is_missing() {
    let response = control_with_raw("HTTP/1.1 202 Accepted\r\nContent-Type: application/json\r\n");

    assert_eq!(502, response.status_code);
    assert!(response.body.contains("tag server forwarding failed"));
    assert!(response.body.contains("http error"));
    assert!(response.body.contains("missing response header terminator"));
}

#[test]
fn runtime_api_returns_bad_gateway_when_control_command_http_status_line_is_missing() {
    let response = control_with_raw("\r\n\r\n{\"command\":{\"status\":\"DriverAck\"}}");

    assert_eq!(502, response.status_code);
    assert!(response.body.contains("tag server forwarding failed"));
    assert!(response.body.contains("http error"));
    assert!(response.body.contains("missing status line"));
}

#[test]
fn runtime_api_returns_bad_gateway_when_control_command_http_version_is_invalid() {
    let response = control_with_raw(
        "HTTX/1.1 202 Accepted\r\nContent-Type: application/json\r\n\r\n{\"command\":{\"status\":\"DriverAck\"}}",
    );

    assert_eq!(502, response.status_code);
    assert!(response.body.contains("tag server forwarding failed"));
    assert!(response.body.contains("http error"));
    assert!(response.body.contains("invalid http version"));
}

#[test]
fn runtime_api_returns_bad_gateway_when_snapshot_http_header_terminator_is_missing() {
    let response = projection_with_raw("HTTP/1.1 200 OK\r\nContent-Type: application/json\r\n");

    assert_eq!(502, response.status_code);
    assert!(response.body.contains("tag server snapshot failed"));
    assert!(response.body.contains("http error"));
    assert!(response.body.contains("missing response header terminator"));
}

#[test]
fn runtime_api_returns_bad_gateway_when_snapshot_http_version_is_invalid() {
    let response = projection_with_raw(
        "HTTX/1.1 200 OK\r\nContent-Type: application/json\r\n\r\n{\"values\":[],\"missing_tag_ids\":[]}",
    );

    assert_eq!(502, response.status_code);
    assert!(response.body.contains("tag server snapshot failed"));
    assert!(response.body.contains("http error"));
    assert!(response.body.contains("invalid http version"));
}

#[test]
fn runtime_api_returns_bad_gateway_when_snapshot_http_status_code_is_invalid() {
    let response = projection_with_raw(
        "HTTP/1.1 xyz OOPS\r\nContent-Type: application/json\r\n\r\n{\"values\":[],\"missing_tag_ids\":[]}",
    );

    assert_eq!(502, response.status_code);
    assert!(response.body.contains("tag server snapshot failed"));
    assert!(response.body.contains("http error"));
    assert!(response.body.contains("invalid status code"));
}

#[test]
fn runtime_api_returns_bad_gateway_when_snapshot_connection_is_refused() {
    let io = StubIo { reply: None, screen: Some(SCREEN.to_string()) };
    let response = projection_api().handle(&RuntimeHttpRequest::new("POST", "/api/v1/screens/projection", r#"{}"#), &io);

    assert_eq!(502, response.status_code);
    assert!(response.body.contains("tag server snapshot failed"));
    assert!(response.body.contains("io error"));
}

#[test]
fn runtime_api_projection_accepts_bearer_and_forwards_auth_to_tag_server() {
    let body = r#"{"values":[{"tag_id":"mock.running.001","value":true,"data_type":"boolean","quality":"Simulated","source_timestamp":"1970-01-01T00:00:01Z","server_timestamp":"1970-01-01T00:00:01Z","sequence":3,"scan_interval_ms":1000,"stale_after_ms":3000,"driver_id":"mock-driver","endpoint_id":"mock-endpoint","read_status":"ok","write_status":"idle"}],"missing_tag_ids":[]}"#;
    let io = RecordingIo::new(vec![raw_reply(200, body)]);
    let api = RuntimeApi::new(
        TagServerClient::from_base_url("http://127.0.0.1:18080")
            .expect("client")
            .with_token(Some("secret".to_string())),
    )
    .with_required_token(Some("secret".to_string()))
    .with_default_screen_path("screen.json".to_string());

    let request = RuntimeHttpRequest::new("POST", "/api/v1/screens/projection", r#"{}"#)
        .with_header("authorization", "Bearer secret");
    let response = api.handle(&request, &io);

    let requests = io.requests.borrow();
    assert!(requests[0].starts_with("POST /api/v1/tags/snapshot HTTP/1.1\r\n"));
    assert!(requests[0].contains("Authorization: Bearer secret\r\n"));
    assert_eq!(200, response.status_code);
    assert!(response.body.contains(r#""screen_id":"main""#));
    assert!(response.body.contains(r#""value":true"#));
}

#[test]
fn runtime_api_handles_projection_and_control_command_with_same_client() {
    let snapshot_body = r#"{"values":[{"tag_id":"mock.running.001","value":false,"data_type":"boolean","quality":"Simulated","source_timestamp":"1970-01-01T00:00:01Z","server_timestamp":"1970-01-01T00:00:01Z","sequence":3,"scan_interval_ms":1000,"stale_after_ms":3000,"driver_id":"mock-driver","endpoint_id":"mock-endpoint","read_status":"ok","write_status":"idle"}],"missing_tag_ids":[]}"#;
    let command_body = r#"{"command":{"status":"DriverAck"},"driver_request":{"command_id":"cmd-1","tag_id":"mock.running.001","value":"true"},"driver_response":{"command_id":"cmd-1","accepted":true,"message":"accepted"}}"#;
    let io = RecordingIo::new(vec![raw_reply(200, snapshot_body), raw_reply(202, command_body)]);
    let api = projection_api();

    let projection_response = api.handle(&RuntimeHttpRequest::new("POST", "/api/v1/screens/projection", r#"{}"#), &io);
    let command_response = api.handle(
        &RuntimeHttpRequest::new(
            "POST",
            "/api/v1/control-commands",
            r#"{"command_id":"cmd-1","idempotency_key":"key-1","user_id":"operator","tag_id":"mock.running.001","requested_value":true,"status":"Requested","requested_at":"1970-01-01T00:00:05Z","timeout_ms":1000}"#,
        ),
        &io,
    );

    assert_eq!(200, projection_response.status_code);
    assert!(projection_response.body.contains(r#""screen_id":"main""#));
    assert_eq!(202, command_response.status_code);
    assert!(command_response.body.contains("DriverAck"));
}

#[test]
fn client_requests_are_read_back_and_authorized_by_the_tag_server() {
    let text = build_http_request("POST", "/api/v1/tags/snapshot", "127.0.0.1:18080", Some("tok-123"), r#"{"tag_ids":["mock.temperature.001"]}"#);
    let request = scada::tag_server::parse_http_request(&text).expect("tag server reads the request");

    assert_eq!("POST", request.method);
    assert_eq!("/api/v1/tags/snapshot", request.path);
    assert_eq!(r#"{"tag_ids":["mock.temperature.001"]}"#, request.body);
    assert_eq!(Some("Bearer tok-123"), request.header("authorization"));

    let mut api = scada::tag_server_api::TagServerApi::phase0_mock().with_required_token(Some("tok-123".to_string()));
    let response = api.handle(&request);
    assert_eq!(200, response.status_code);
}

#[test]
fn client_from_base_url_waits_three_seconds() {
    let client = TagServerClient::from_base_url("http://127.0.0.1:18080").expect("client");
    assert_eq!(std::time::Duration::from_secs(3), client.timeout());
    assert_eq!("127.0.0.1:18080", client.endpoint().authority());
}

#[test]
fn served_responses_read_back_and_endpoints_round_trip() {
    let response = RuntimeHttpResponse::json(202, "{\"ok\":true}".to_string());
    let text = String::from_utf8(response.to_http_bytes()).expect("utf-8");
    let read = parse_http_response(&text).expect("response reads back");
    assert_eq!(202, read.status_code);
    assert_eq!(response.reason, read.reason);
    assert_eq!("{\"ok\":true}", read.body);

    let endpoint = TagServerEndpoint::parse("http://tag-server.local:18080/").expect("endpoint");
    let again = TagServerEndpoint::parse(&format!("http://{}", endpoint.authority())).expect("again");
    assert_eq!(endpoint.authority(), again.authority());

    let ws = scada::mqtt::MqttBrokerEndpoint::parse("ws://broker.example.local:9001/ws").expect("ws endpoint");
    assert_eq!("ws://broker.example.local:9001/ws", ws.websocket_url());
    assert_eq!(Ok(ws.clone()), scada::mqtt::MqttBrokerEndpoint::parse(&ws.websocket_url()));
}
