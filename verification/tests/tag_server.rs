use scada::command::{ControlCommand, ControlCommandStatus};
use scada::driver_manager::{apply_driver_write_response, ValueNormalizer};
use scada::mock_driver::MockDriver;
use scada::operation_log::{OperationLog, OperationLogEntry, OPERATION_LOG_CAPACITY};
use scada::tag::{QualityCode, TagValue, TagValueData};
use scada::tag_cache::{InMemoryTagCache, WritePolicy};
use scada::tag_server::{listen_addr, parse_http_request, HttpRequest, HttpResponse};
use scada::mqtt::MqttBrokerEndpoint;
use scada::tag_server::{DriverManagerClientConfig, DriverWriteCall, MqttPublishConfig};
use scada::tag_server_api::{publish_messages, publish_reply, DriverPostError, TagServerApi, TagServerIo, TagServerStep};

fn assert_json_error_response(response: &HttpResponse, expected_status: u16, expected_fragment: &str) {
    assert_eq!(expected_status, response.status_code);
    assert_eq!("application/json", response.content_type);

    let body = serde_json::from_str::<serde_json::Value>(&response.body).expect("error json body");
    let message = body
        .get("error")
        .and_then(serde_json::Value::as_str)
        .expect("error field");

    assert!(message.contains(expected_fragment));
}

fn tag_value(sequence: u64) -> TagValue {
    TagValue {
        tag_id: "mock.temperature.001".to_string(),
        value: TagValueData::Float(format!("{:.1}", sequence as f64)),
        quality: QualityCode::Simulated,
        source_timestamp: "1970-01-01T00:00:00Z".to_string(),
        server_timestamp: "1970-01-01T00:00:00Z".to_string(),
        sequence,
        scan_interval_ms: 1000,
        stale_after_ms: 3000,
        driver_id: "mock-driver".to_string(),
        endpoint_id: "mock-endpoint".to_string(),
        read_status: "ok".to_string(),
        write_status: "idle".to_string(),
    }
}

#[test]
fn cache_accepts_newer_values() {
    let mut cache = InMemoryTagCache::new();

    assert!(cache.ingest(tag_value(1)));
    assert!(cache.ingest(tag_value(2)));
    assert_eq!(2, cache.get("mock.temperature.001").unwrap().sequence);
}

#[test]
fn cache_rejects_older_values() {
    let mut cache = InMemoryTagCache::new();

    assert!(cache.ingest(tag_value(2)));
    assert!(!cache.ingest(tag_value(1)));
    assert_eq!(2, cache.get("mock.temperature.001").unwrap().sequence);
}

#[test]
fn cache_rejects_equal_sequence() {
    let mut cache = InMemoryTagCache::new();

    assert!(cache.ingest(tag_value(2)));
    assert!(!cache.ingest(tag_value(2)));
    assert_eq!(1, cache.len());
}

#[test]
fn write_policy_creates_driver_request_for_writable_tag() {
    let policy = WritePolicy::new().allow_tag("mock.running.001");
    let mut command = ControlCommand::requested(
        "cmd-1",
        "idem-1",
        "operator",
        "mock.running.001",
        "true",
        "1970-01-01T00:00:00Z",
        3000,
    );

    let request = policy.validate(&mut command).expect("driver request");

    assert_eq!(ControlCommandStatus::Validated, command.status);
    assert_eq!("cmd-1", request.command_id);
    assert_eq!("mock.running.001", request.tag_id);
}

#[test]
fn write_policy_rejects_non_writable_tag() {
    let policy = WritePolicy::new();
    let mut command = ControlCommand::requested(
        "cmd-1",
        "idem-1",
        "operator",
        "mock.temperature.001",
        "42.0",
        "1970-01-01T00:00:00Z",
        3000,
    );

    assert!(policy.validate(&mut command).is_err());
    assert_eq!(ControlCommandStatus::Rejected, command.status);
}

#[test]
fn snapshot_endpoint_returns_seeded_tag() {
    let mut api = TagServerApi::phase0_mock();
    let request = HttpRequest::new(
        "POST",
        "/api/v1/tags/snapshot",
        r#"{"project_id":"demo","tag_ids":["mock.temperature.001","missing"]}"#,
    );

    let response = api.handle(&request);

    assert_eq!(200, response.status_code);
    assert!(response.body.contains(r#""tag_id":"mock.temperature.001""#));
    assert!(response.body.contains(r#""missing_tag_ids":["missing"]"#));
}

#[test]
fn control_command_endpoint_validates_writable_tag() {
    let mut api = TagServerApi::phase0_mock();
    let request = HttpRequest::new(
        "POST",
        "/api/v1/control-commands",
        r#"{"command_id":"cmd-1","idempotency_key":"idem-1","user_id":"operator","tag_id":"mock.running.001","requested_value":true,"status":"Requested","requested_at":"1970-01-01T00:00:00Z","timeout_ms":3000}"#,
    );

    let response = api.handle(&request);

    assert_eq!(202, response.status_code);
    assert!(response.body.contains(r#""status":"Validated""#));
    assert!(response.body.contains(r#""driver_request""#));
}

#[test]
fn control_command_endpoint_persists_operation_log() {
    let mut api = TagServerApi::phase0_mock();
    let request = HttpRequest::new(
        "POST",
        "/api/v1/control-commands",
        r#"{"command_id":"cmd-log-1","idempotency_key":"idem-log-1","user_id":"operator","tag_id":"mock.running.001","requested_value":true,"status":"Requested","requested_at":"1970-01-01T00:00:00Z","timeout_ms":3000}"#,
    );

    let response = api.handle(&request);
    assert_eq!(202, response.status_code);

    let logs = api.handle(&HttpRequest::new("GET", "/api/v1/operation-logs", ""));

    assert_eq!(200, logs.status_code);
    let body = serde_json::from_str::<serde_json::Value>(&logs.body).expect("logs json");
    let items = body
        .get("items")
        .and_then(serde_json::Value::as_array)
        .expect("items");
    assert!(!items.is_empty());

    let first = &items[0];
    assert_eq!(Some("cmd-log-1"), first.get("command_id").and_then(serde_json::Value::as_str));
    assert_eq!(Some("operator"), first.get("user_id").and_then(serde_json::Value::as_str));
    assert_eq!(Some("mock.running.001"), first.get("tag_id").and_then(serde_json::Value::as_str));
    assert_eq!(Some("Validated"), first.get("status").and_then(serde_json::Value::as_str));
}

#[test]
fn operation_logs_are_returned_in_reverse_chronological_order() {
    let mut api = TagServerApi::phase0_mock();

    let first = HttpRequest::new(
        "POST",
        "/api/v1/control-commands",
        r#"{"command_id":"cmd-log-1","idempotency_key":"idem-log-1","user_id":"operator","tag_id":"mock.running.001","requested_value":true,"status":"Requested","requested_at":"1970-01-01T00:00:00Z","timeout_ms":3000}"#,
    );
    let second = HttpRequest::new(
        "POST",
        "/api/v1/control-commands",
        r#"{"command_id":"cmd-log-2","idempotency_key":"idem-log-2","user_id":"operator","tag_id":"mock.temperature.001","requested_value":42.0,"status":"Requested","requested_at":"1970-01-01T00:00:05Z","timeout_ms":3000}"#,
    );

    assert_eq!(202, api.handle(&first).status_code);
    assert_eq!(409, api.handle(&second).status_code);

    let logs = api.handle(&HttpRequest::new("GET", "/api/v1/operation-logs", ""));
    assert_eq!(200, logs.status_code);

    let body = serde_json::from_str::<serde_json::Value>(&logs.body).expect("logs json");
    let items = body
        .get("items")
        .and_then(serde_json::Value::as_array)
        .expect("items");

    assert!(items.len() >= 2);
    assert_eq!(Some("cmd-log-2"), items[0].get("command_id").and_then(serde_json::Value::as_str));
    assert_eq!(Some("Rejected"), items[0].get("status").and_then(serde_json::Value::as_str));
    assert_eq!(Some("cmd-log-1"), items[1].get("command_id").and_then(serde_json::Value::as_str));
}

#[test]
fn driver_values_endpoint_updates_snapshot_cache() {
    let mut api = TagServerApi::phase0_mock();
    let request = HttpRequest::new(
        "POST",
        "/api/v1/driver-values",
        r#"{"project_id":"demo","values":[{"tag_id":"mock.temperature.001","value":29.0,"data_type":"float","quality":"Simulated","source_timestamp":"1970-01-01T00:00:02Z","server_timestamp":"1970-01-01T00:00:02Z","sequence":2,"scan_interval_ms":1000,"stale_after_ms":3000,"driver_id":"mock-driver","endpoint_id":"mock-endpoint","read_status":"ok","write_status":"idle"}]}"#,
    );

    let ingest_response = api.handle(&request);

    assert_eq!(202, ingest_response.status_code);
    assert!(ingest_response.body.contains(r#""ingested":1"#));

    let snapshot_response = api.handle(&HttpRequest::new(
        "POST",
        "/api/v1/tags/snapshot",
        r#"{"project_id":"demo","tag_ids":["mock.temperature.001"]}"#,
    ));

    assert_eq!(200, snapshot_response.status_code);
    assert!(snapshot_response.body.contains(r#""value":29.0"#));
    assert!(snapshot_response.body.contains(r#""sequence":2"#));
}

#[test]
fn api_requires_token_when_configured() {
    let mut api = TagServerApi::phase0_mock().with_required_token(Some("secret".to_string()));
    let unauthenticated = HttpRequest::new(
        "POST",
        "/api/v1/tags/snapshot",
        r#"{"tag_ids":["mock.temperature.001"]}"#,
    );
    let authenticated = HttpRequest::new(
        "POST",
        "/api/v1/tags/snapshot",
        r#"{"tag_ids":["mock.temperature.001"]}"#,
    )
    .with_header("authorization", "Bearer secret");

    let unauthorized = api.handle(&unauthenticated);

    assert_json_error_response(&unauthorized, 401, "unauthorized");
    assert_eq!(200, api.handle(&authenticated).status_code);
}

#[test]
fn health_is_answered_without_token() {
    let mut api = TagServerApi::phase0_mock().with_required_token(Some("secret".to_string()));
    let response = api.handle(&HttpRequest::new("GET", "/health", ""));
    assert_eq!(200, response.status_code);
}

#[test]
fn snapshot_endpoint_returns_json_error_for_invalid_payload() {
    let mut api = TagServerApi::phase0_mock();
    let request = HttpRequest::new("POST", "/api/v1/tags/snapshot", r#"{"tag_ids":"broken"}"#);

    let response = api.handle(&request);

    assert_json_error_response(&response, 400, "tag_ids");
}

#[test]
fn driver_values_endpoint_returns_json_error_for_invalid_payload() {
    let mut api = TagServerApi::phase0_mock();
    let request = HttpRequest::new("POST", "/api/v1/driver-values", r#"{"project_id":"demo"}"#);

    let response = api.handle(&request);

    assert_json_error_response(&response, 400, "values");
}

#[test]
fn api_returns_json_error_for_unknown_route() {
    let mut api = TagServerApi::phase0_mock();
    let response = api.handle(&HttpRequest::new("POST", "/api/v1/unknown", "{}"));

    assert_json_error_response(&response, 404, "not found");
}

#[test]
fn parse_http_request_reads_headers_and_body() {
    let request = parse_http_request(
        "POST /api/v1/tags/snapshot HTTP/1.1\r\nHost: localhost\r\nContent-Length: 34\r\n\r\n{\"tag_ids\":[\"mock.running.001\"]}",
    )
    .expect("parse request");

    assert_eq!("POST", request.method);
    assert_eq!("/api/v1/tags/snapshot", request.path);
    assert_eq!(Some("localhost"), request.header("host"));
    assert!(request.body.contains("mock.running.001"));
}

#[test]
fn parse_http_request_rejects_missing_terminator() {
    let error = parse_http_request("GET /health HTTP/1.1\r\nHost: x\r\n").expect_err("must fail");
    assert_eq!("missing http header terminator", error);
}

#[test]
fn response_bytes_carry_status_and_length() {
    let response = HttpResponse::json(200, "{}".to_string());
    let text = String::from_utf8(response.to_http_bytes()).expect("utf8");
    assert_eq!(
        "HTTP/1.1 200 OK\r\nContent-Type: application/json\r\nContent-Length: 2\r\nConnection: close\r\n\r\n{}",
        text
    );
}

#[test]
fn operation_log_keeps_the_newest_entries() {
    let mut log = OperationLog::new();
    for i in 0..(OPERATION_LOG_CAPACITY + 3) {
        log.record(OperationLogEntry {
            command_id: format!("cmd-{i}"),
            user_id: "operator".to_string(),
            tag_id: "mock.running.001".to_string(),
            requested_value: "true".to_string(),
            requested_at: "1970-01-01T00:00:00Z".to_string(),
            status: "Validated".to_string(),
            result: "ok".to_string(),
        });
    }
    assert_eq!(OPERATION_LOG_CAPACITY, log.len());
    let body: serde_json::Value = serde_json::from_str(&log.list_json()).expect("json");
    let items = body["items"].as_array().expect("items");
    assert_eq!(Some(format!("cmd-{}", OPERATION_LOG_CAPACITY + 2).as_str()), items[0]["command_id"].as_str());
}

#[test]
fn listen_addr_prefers_arguments_then_environment() {
    let args = vec!["tag-server".to_string(), "--port".to_string(), "19000".to_string()];
    assert_eq!("0.0.0.0:19000", listen_addr(&args, Some("0.0.0.0".to_string()), Some("1".to_string())));
    let none: Vec<String> = vec!["tag-server".to_string()];
    assert_eq!("127.0.0.1:18080", listen_addr(&none, None, None));
    let addr = vec!["tag-server".to_string(), "--addr".to_string(), "h:1".to_string()];
    assert_eq!("h:1", listen_addr(&addr, None, None));
}

#[test]
fn mock_values_flow_through_normalizer_into_tag_cache() {
    let mut mock_driver = MockDriver::new("mock-driver", "mock-endpoint");
    let mut normalizer = ValueNormalizer::new(1000, 3000);
    let mut cache = InMemoryTagCache::new();

    let raw_values = mock_driver.next_values();

    for raw_value in raw_values {
        let tag_value = normalizer.normalize(raw_value, "1970-01-01T00:00:01Z");
        assert!(cache.ingest(tag_value));
    }

    assert_eq!(2, cache.len());
    assert!(cache.get("mock.temperature.001").is_some());
    assert!(cache.get("mock.running.001").is_some());
}

#[test]
fn write_flows_from_tag_server_policy_to_mock_driver_response() {
    let policy = WritePolicy::new().allow_tag("mock.running.001");
    let driver = MockDriver::new("mock-driver", "mock-endpoint");
    let mut command = ControlCommand::requested(
        "cmd-1",
        "idem-1",
        "operator",
        "mock.running.001",
        "true",
        "1970-01-01T00:00:00Z",
        3000,
    );

    command.transition_to(ControlCommandStatus::Accepted);
    let request = policy.validate(&mut command).expect("validated write");
    command.transition_to(ControlCommandStatus::Sent);
    let response = driver.write(&request);
    apply_driver_write_response(&mut command, &response);

    assert_eq!(ControlCommandStatus::DriverAck, command.status);
}

#[test]
fn driver_values_endpoint_returns_publish_errors_when_mqtt_publish_fails() {
    let mut api = TagServerApi::phase0_mock().with_mqtt_publish(Some(MqttPublishConfig {
        endpoint: MqttBrokerEndpoint::parse("mqtt://127.0.0.1:1").expect("endpoint"),
        client_id: "tag-server-test-publish-fail".to_string(),
        timeout: std::time::Duration::from_millis(50),
    }));
    let request = HttpRequest::new(
        "POST",
        "/api/v1/driver-values",
        r#"{"project_id":"demo","values":[{"tag_id":"mock.temperature.001","value":29.0,"data_type":"float","quality":"Simulated","source_timestamp":"1970-01-01T00:00:02Z","server_timestamp":"1970-01-01T00:00:02Z","sequence":2,"scan_interval_ms":1000,"stale_after_ms":3000,"driver_id":"mock-driver","endpoint_id":"mock-endpoint","read_status":"ok","write_status":"idle"}]}"#,
    );

    let response = match api.step(&request) {
        TagServerStep::Publish(pending) => {
            let messages = publish_messages(&pending);
            assert_eq!("scada/demo/tag/mock.temperature.001/value", messages[0].0);
            let results: Vec<Option<String>> = messages.iter().map(|_| Some("connection refused".to_string())).collect();
            publish_reply(&pending, &results)
        }
        _ => panic!("expected values to publish"),
    };

    assert_eq!(502, response.status_code);
    assert_eq!("application/json", response.content_type);
    let body = serde_json::from_str::<serde_json::Value>(&response.body).expect("json");
    assert_eq!(Some(1), body.get("received").and_then(serde_json::Value::as_u64));
    assert_eq!(Some(1), body.get("ingested").and_then(serde_json::Value::as_u64));
    assert_eq!(Some(0), body.get("stale").and_then(serde_json::Value::as_u64));
    assert_eq!(Some(0), body.get("published").and_then(serde_json::Value::as_u64));
    let publish_errors = body
        .get("publish_errors")
        .and_then(serde_json::Value::as_array)
        .expect("publish_errors array");
    assert!(!publish_errors.is_empty());
}

struct ScriptedIo {
    publish_error: Option<String>,
    driver_reply: Result<String, DriverPostError>,
    seen_call: std::cell::RefCell<Option<DriverWriteCall>>,
}

impl TagServerIo for ScriptedIo {
    fn publish(&self, _config: &MqttPublishConfig, _topic: &str, _payload: &str) -> Result<(), String> {
        match &self.publish_error {
            Some(e) => Err(e.clone()),
            None => Ok(()),
        }
    }

    fn post_driver_write(&self, call: &DriverWriteCall) -> Result<String, DriverPostError> {
        *self.seen_call.borrow_mut() = Some(call.clone());
        self.driver_reply.clone()
    }
}

const WRITE_BODY: &str = r#"{"command_id":"cmd-io-1","idempotency_key":"idem-io-1","user_id":"operator","tag_id":"mock.running.001","requested_value":true,"status":"Requested","requested_at":"1970-01-01T00:00:00Z","timeout_ms":3000}"#;

#[test]
fn handle_with_posts_validated_write_and_logs_driver_ack() {
    let mut api = TagServerApi::phase0_mock().with_driver_manager(Some(DriverManagerClientConfig {
        base_url: "http://127.0.0.1:18082".to_string(),
    }));
    let io = ScriptedIo {
        publish_error: None,
        driver_reply: Ok("HTTP/1.1 200 OK\r\nContent-Type: application/json\r\n\r\n{\"command_id\":\"cmd-io-1\",\"accepted\":true,\"message\":\"ok\"}".to_string()),
        seen_call: std::cell::RefCell::new(None),
    };

    let response = api.handle_with(&HttpRequest::new("POST", "/api/v1/control-commands", WRITE_BODY), &io);

    assert_eq!(202, response.status_code);
    assert!(response.body.contains(r#""status":"DriverAck""#));
    let call = io.seen_call.borrow().clone().expect("driver write posted");
    assert_eq!("127.0.0.1", call.host);
    assert_eq!(18082, call.port);
    assert!(call.request_text.starts_with("POST /api/v1/driver-writes HTTP/1.1\r\n"));

    let logs = api.handle(&HttpRequest::new("GET", "/api/v1/operation-logs", ""));
    assert!(logs.body.contains(r#""command_id":"cmd-io-1""#));
    assert!(logs.body.contains(r#""status":"DriverAck""#));
}

#[test]
fn handle_with_reports_unreachable_driver_manager() {
    let mut api = TagServerApi::phase0_mock().with_driver_manager(Some(DriverManagerClientConfig {
        base_url: "http://127.0.0.1:18082".to_string(),
    }));
    let io = ScriptedIo {
        publish_error: None,
        driver_reply: Err(DriverPostError::Connect("connection refused".to_string())),
        seen_call: std::cell::RefCell::new(None),
    };

    let response = api.handle_with(&HttpRequest::new("POST", "/api/v1/control-commands", WRITE_BODY), &io);

    assert_eq!(502, response.status_code);
    assert!(response.body.contains("connect driver manager 127.0.0.1:18082: connection refused"));
}

#[test]
fn handle_with_reports_publish_failures() {
    let mut api = TagServerApi::phase0_mock().with_mqtt_publish(Some(MqttPublishConfig {
        endpoint: MqttBrokerEndpoint::parse("mqtt://127.0.0.1:1").expect("endpoint"),
        client_id: "tag-server-io".to_string(),
        timeout: std::time::Duration::from_millis(50),
    }));
    let io = ScriptedIo {
        publish_error: Some("broker down".to_string()),
        driver_reply: Err(DriverPostError::Read("unused".to_string())),
        seen_call: std::cell::RefCell::new(None),
    };
    let request = HttpRequest::new(
        "POST",
        "/api/v1/driver-values",
        r#"{"project_id":"demo","values":[{"tag_id":"mock.temperature.001","value":29.0,"data_type":"float","quality":"Simulated","source_timestamp":"1970-01-01T00:00:02Z","server_timestamp":"1970-01-01T00:00:02Z","sequence":2,"scan_interval_ms":1000,"stale_after_ms":3000,"driver_id":"mock-driver","endpoint_id":"mock-endpoint","read_status":"ok","write_status":"idle"}]}"#,
    );

    let response = api.handle_with(&request, &io);

    assert_eq!(502, response.status_code);
    assert!(response.body.contains("broker down"));
    assert!(response.body.contains(r#""published":0"#));
}

#[test]
fn quoted_field_reads_back_through_the_field_reader() {
    let value = "line \"one\"\\two\n\tend";
    let body = format!("{{\"note\":{},\"other\":\"x\"}}", scada::json::json_string(value));

    assert_eq!(Ok(value.to_string()), scada::minijson::extract_json_string(&body, "note"));
    assert_eq!(Ok("x".to_string()), scada::minijson::extract_json_string(&body, "other"));
}

#[test]
fn field_reader_reports_missing_key_and_wrong_type() {
    assert_eq!(
        Err("missing note".to_string()),
        scada::minijson::extract_json_string("{\"other\":\"x\"}", "note")
    );
    assert_eq!(
        Err("note must be a string".to_string()),
        scada::minijson::extract_json_string("{\"note\":3}", "note")
    );
}

#[test]
fn handle_with_without_driver_manager_posts_nothing() {
    let mut api = TagServerApi::phase0_mock();
    let io = ScriptedIo {
        publish_error: None,
        driver_reply: Ok("unused".to_string()),
        seen_call: std::cell::RefCell::new(None),
    };

    let response = api.handle_with(&HttpRequest::new("POST", "/api/v1/control-commands", WRITE_BODY), &io);

    assert!(io.seen_call.borrow().is_none());
    assert_eq!(202, response.status_code);
    assert!(response.body.contains(r#""status":"Validated""#));
}

#[test]
fn mqtt_settings_are_kept_as_given() {
    let api = TagServerApi::phase0_mock().with_mqtt_publish(Some(MqttPublishConfig {
        endpoint: MqttBrokerEndpoint::parse("mqtt://127.0.0.1:1883").expect("endpoint"),
        client_id: "tag-server-kept".to_string(),
        timeout: std::time::Duration::from_secs(7),
    }));
    let api = api.with_required_token(Some("tok".to_string()));
    let settings = api.mqtt_publish().expect("settings kept");
    assert_eq!("tag-server-kept", settings.client_id);
    assert_eq!(std::time::Duration::from_secs(7), settings.timeout);
    assert_eq!(1883, settings.endpoint.port);
}
