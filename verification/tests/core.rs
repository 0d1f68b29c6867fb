use scada::command::{ControlCommand, ControlCommandStatus};
use scada::driver::{
    driver_write_response_from_json_str, driver_write_response_to_json, raw_driver_value_to_json,
    DriverWriteRequest, DriverWriteResponse, RawDriverValue,
};
use scada::driver_manager::{apply_driver_write_response, ValueNormalizer};
use scada::mock_driver::{sample_line, MockDriver};
use scada::mqtt::{
    driver_status_topic, tag_value_topic, MqttBrokerEndpoint, MqttBrokerTransport,
    DEFAULT_MQTT_TCP_PORT,
};
use scada::service::{default_local_services, health_line, ServiceRole};
use scada::tag::{DataType, QualityCode, TagValueData};

#[test]
fn terminal_states_are_identified() {
    assert!(ControlCommandStatus::Verified.is_terminal());
    assert!(ControlCommandStatus::Failed.is_terminal());
    assert!(!ControlCommandStatus::Sent.is_terminal());
}

#[test]
fn tag_value_topic_matches_design() {
    assert_eq!("scada/demo/tag/t1/value", tag_value_topic("demo", "t1"));
}

#[test]
fn driver_status_topic_matches_design() {
    assert_eq!(
        "scada/demo/driver/mock-driver/status",
        driver_status_topic("demo", "mock-driver")
    );
}

#[test]
fn parse_mqtt_endpoint_with_defaults() {
    let endpoint = MqttBrokerEndpoint::parse("127.0.0.1").expect("endpoint");
    assert_eq!("127.0.0.1", endpoint.host);
    assert_eq!(DEFAULT_MQTT_TCP_PORT, endpoint.port);
    assert_eq!(MqttBrokerTransport::Tcp, endpoint.transport);
}

#[test]
fn parse_mqtt_endpoint_with_ws_url() {
    let endpoint = MqttBrokerEndpoint::parse("ws://broker.example.local:9001/ws").expect("endpoint");
    assert_eq!("broker.example.local", endpoint.host);
    assert_eq!(9001, endpoint.port);
    assert_eq!(MqttBrokerTransport::WebSocket, endpoint.transport);
    assert_eq!("/ws", endpoint.websocket_path);
    assert_eq!("ws://broker.example.local:9001/ws", endpoint.websocket_url());
}

#[test]
fn mqtt_endpoint_rejects_empty_input() {
    assert!(MqttBrokerEndpoint::parse("   ").is_err());
}

#[test]
fn default_services_include_tag_server_before_driver_manager() {
    let services = default_local_services();
    let tag_server_index = services
        .iter()
        .position(|service| service.role == ServiceRole::TagServer)
        .expect("tag server service");
    let driver_manager_index = services
        .iter()
        .position(|service| service.role == ServiceRole::DriverManager)
        .expect("driver manager service");

    assert!(tag_server_index < driver_manager_index);
}

#[test]
fn health_line_names_the_role() {
    assert_eq!("tag-server: healthy", health_line(&ServiceRole::TagServer));
}

#[test]
fn quality_code_marks_good_values_usable() {
    assert!(QualityCode::Good.is_usable());
    assert!(QualityCode::Simulated.is_usable());
    assert!(!QualityCode::CommLost.is_usable());
    assert!(!QualityCode::Bad.is_usable());
}

#[test]
fn tag_value_reports_data_type() {
    let value = TagValueData::Float("12.5".to_string());
    assert_eq!(DataType::Float, value.data_type());
}

#[test]
fn normalizer_assigns_sequence_and_server_timestamp() {
    let mut normalizer = ValueNormalizer::new(1000, 3000);
    let tag_value = normalizer.normalize(
        RawDriverValue {
            tag_id: "mock.temperature.001".to_string(),
            value: TagValueData::Float("25.0".to_string()),
            quality: QualityCode::Simulated,
            source_timestamp: "1970-01-01T00:00:00Z".to_string(),
            driver_id: "mock-driver".to_string(),
            endpoint_id: "mock-endpoint".to_string(),
        },
        "1970-01-01T00:00:01Z",
    );

    assert_eq!(1, tag_value.sequence);
    assert_eq!("1970-01-01T00:00:01Z", tag_value.server_timestamp);
}

#[test]
fn accepted_driver_write_sets_driver_ack() {
    let mut command = ControlCommand::requested(
        "cmd-1",
        "idem-1",
        "operator",
        "mock.running.001",
        "true",
        "1970-01-01T00:00:00Z",
        3000,
    );

    apply_driver_write_response(&mut command, &DriverWriteResponse::accepted("cmd-1"));

    assert_eq!(ControlCommandStatus::DriverAck, command.status);
}

#[test]
fn rejected_driver_write_fails_the_command() {
    let mut command = ControlCommand::requested(
        "cmd-2",
        "idem-2",
        "operator",
        "mock.running.001",
        "true",
        "1970-01-01T00:00:00Z",
        3000,
    );

    apply_driver_write_response(&mut command, &DriverWriteResponse::rejected("cmd-2", "no"));

    assert_eq!(ControlCommandStatus::Failed, command.status);
}

#[test]
fn mock_driver_generates_deterministic_values() {
    let mut driver = MockDriver::new("mock-driver", "mock-endpoint");
    let values = driver.next_values();

    assert_eq!(2, values.len());
    assert_eq!("mock.temperature.001", values[0].tag_id);
    assert_eq!(QualityCode::Simulated, values[0].quality);
}

#[test]
fn mock_driver_accepts_mock_writes() {
    let driver = MockDriver::new("mock-driver", "mock-endpoint");
    let response = driver.write(&DriverWriteRequest {
        command_id: "cmd-1".to_string(),
        tag_id: "mock.running.001".to_string(),
        value: "true".to_string(),
    });

    assert!(response.accepted);
}

#[test]
fn mock_driver_sample_line_names_tag_type_and_quality() {
    let mut driver = MockDriver::new("mock-driver", "mock-endpoint");
    let values = driver.next_values();
    assert_eq!(
        "mock-driver sample tag_id=mock.temperature.001 data_type=float quality=Simulated",
        sample_line(&values[0])
    );
}

#[test]
fn raw_driver_value_json_is_valid_json() {
    let mut driver = MockDriver::new("mock-driver", "mock-endpoint");
    let values = driver.next_values();
    let text = raw_driver_value_to_json(&values[0]);
    let parsed: serde_json::Value = serde_json::from_str(&text).expect("json");
    assert_eq!(Some("mock.temperature.001"), parsed["tag_id"].as_str());
}

#[test]
fn driver_write_response_round_trips_through_json() {
    let response = DriverWriteResponse::rejected("cmd-9", "tag is read only");
    let text = driver_write_response_to_json(&response);
    let back = driver_write_response_from_json_str(&text).expect("parse");
    assert_eq!("cmd-9", back.command_id);
    assert!(!back.accepted);
    assert_eq!("tag is read only", back.message);
}

#[test]
fn tag_value_json_reads_back_what_was_written() {
    let text = r#"{"tag_id":"mock.running.001","value":true,"data_type":"boolean","quality":"Good","source_timestamp":"1970-01-01T00:00:02Z","server_timestamp":"1970-01-01T00:00:03Z","sequence":7,"scan_interval_ms":1000,"stale_after_ms":3000,"driver_id":"mock-driver","endpoint_id":"mock-endpoint","read_status":"ok","write_status":"idle"}"#;
    let value = scada::tag_json::tag_value_from_json_value(text).expect("tag value");
    assert_eq!(TagValueData::Boolean(true), value.value);
    assert_eq!(QualityCode::Good, value.quality);
    assert_eq!(7, value.sequence);
    assert_eq!(3000, value.stale_after_ms);
    let written = scada::tag::tag_value_to_json(&value);
    let again = scada::tag_json::tag_value_from_json_value(&written).expect("again");
    assert_eq!(value, again);
}

#[test]
fn tag_value_json_names_the_missing_field() {
    let error = scada::tag_json::tag_value_from_json_value(r#"{"tag_id":"a"}"#).err().expect("error");
    assert!(error.contains("value"));
    assert_eq!(
        "tag value must be a JSON object",
        scada::tag_json::tag_value_from_json_value("[1]").err().expect("error")
    );
}
