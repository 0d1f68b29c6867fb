use std::cell::RefCell;
use std::collections::HashMap;

use scada::builder_api::{
    builder_step, error_json, handle_builder_request_with, is_screen_definition_shape,
    is_valid_screen_id, map_condition_error, map_condition_error_message, mapping_json,
    parse_coded_error, parse_http_request, screen_file_path, screen_id_from_path, BuilderHttpRequest,
    BuilderHttpResponse, BuilderIo, BuilderStep, ScreenRead,
};
use scada::builder_ui::{
    dialog_file_path_to_path_buf, infer_project_root_from, initial_picker_absolute_path,
    DialogFilePath, DirProbe,
};
use scada::supervise_log::summarize_supervise_log;

/// An in-memory project: files by path, and the error-map payload read as `serde_json`
/// reads it into a struct with one `error` string.
struct MemoryProject {
    files: RefCell<HashMap<String, String>>,
}

impl MemoryProject {
    fn new() -> MemoryProject {
        MemoryProject { files: RefCell::new(HashMap::new()) }
    }
}

impl BuilderIo for MemoryProject {
    fn parse_error_map(&self, body: &str) -> Result<String, String> {
        let value: serde_json::Value = serde_json::from_str(body).map_err(|e| e.to_string())?;
        value
            .get("error")
            .and_then(|v| v.as_str())
            .map(|s| s.to_string())
            .ok_or_else(|| "missing field `error`".to_string())
    }

    fn read_screen(&self, path: &str) -> ScreenRead {
        match self.files.borrow().get(path) {
            Some(text) => ScreenRead::Found(text.clone()),
            None => ScreenRead::Missing,
        }
    }

    fn write_screen(&self, _dir: &str, path: &str, contents: &str) -> Result<(), String> {
        self.files.borrow_mut().insert(path.to_string(), contents.to_string());
        Ok(())
    }
}

fn handle_builder_request(request: &BuilderHttpRequest) -> BuilderHttpResponse {
    handle_builder_request_with(request, "/tmp/project", &MemoryProject::new())
}

#[test]
fn parse_coded_error_reads_code_path_and_detail() {
    let parsed = parse_coded_error(
        "screen definition error: code=MODIFY_RULE_CONDITION_VALUE_REQUIRED path=object=pump-001 property=color detail=op 'gte' requires value",
    )
    .expect("parsed");

    assert_eq!("MODIFY_RULE_CONDITION_VALUE_REQUIRED", parsed.code);
    assert_eq!("object=pump-001 property=color", parsed.path);
    assert_eq!("op 'gte' requires value", parsed.detail);
}

#[test]
fn parse_coded_error_needs_every_marker() {
    assert!(parse_coded_error("code=X detail=y").is_none());
    assert!(parse_coded_error("plain error").is_none());
}

#[test]
fn map_condition_error_message_returns_user_friendly_text() {
    let mapped = map_condition_error_message(
        "code=MODIFY_RULE_CONDITION_BETWEEN_REQUIRES_MIN_MAX path=object=pump-001 property=color detail=op 'between' requires min and max",
    );

    assert_eq!(
        "invalid modify rule condition at object=pump-001 property=color: between requires min and max",
        mapped
    );
}

#[test]
fn map_condition_error_message_keeps_unknown_code_raw() {
    let raw = "code=UNKNOWN_CODE path=object=x property=y detail=unknown";
    assert_eq!(raw, map_condition_error_message(raw));
}

#[test]
fn uncoded_error_is_kept_and_unknown() {
    let mapped = map_condition_error("something broke");
    assert_eq!(None, mapped.code);
    assert_eq!("something broke", mapped.user_message);
    assert!(!mapped.known_code);
    assert_eq!(
        r#"{"code":null,"path":null,"detail":null,"user_message":"something broke","known_code":false}"#,
        mapping_json(&mapped)
    );
}

#[test]
fn handle_builder_request_returns_structured_mapping_json() {
    let request = BuilderHttpRequest::new(
        "POST",
        "/api/v1/errors/map",
        r#"{"error":"code=MODIFY_RULE_CONDITION_IN_REQUIRES_VALUES path=object=pump-001 property=color detail=op 'in' requires non-empty values"}"#,
    );
    let response = handle_builder_request(&request);
    let payload: serde_json::Value = serde_json::from_str(&response.body).expect("valid json response");

    assert_eq!(200, response.status_code);
    assert_eq!("MODIFY_RULE_CONDITION_IN_REQUIRES_VALUES", payload["code"].as_str().expect("code"));
    assert_eq!(
        "invalid modify rule condition at object=pump-001 property=color: in requires non-empty values",
        payload["user_message"].as_str().expect("user_message")
    );
    assert_eq!(Some(true), payload["known_code"].as_bool());
}

#[test]
fn handle_builder_request_returns_health_json_contract() {
    let request = BuilderHttpRequest::new("GET", "/health", "");
    let response = handle_builder_request(&request);
    let payload: serde_json::Value = serde_json::from_str(&response.body).expect("json");

    assert_eq!(200, response.status_code);
    assert_eq!("application/json", response.content_type);
    assert_eq!(Some("builder-api"), payload["service"].as_str());
    assert_eq!(Some("healthy"), payload["status"].as_str());
}

#[test]
fn handle_builder_request_returns_unknown_code_contract_fields() {
    let raw = "code=SOME_NEW_ERROR path=object=valve-002 property=text detail=unexpected runtime validation state";
    let request = BuilderHttpRequest::new("POST", "/api/v1/errors/map", &format!(r#"{{"error":"{}"}}"#, raw));
    let response = handle_builder_request(&request);
    let payload: serde_json::Value = serde_json::from_str(&response.body).expect("json");

    assert_eq!(200, response.status_code);
    assert_eq!("application/json", response.content_type);
    assert_eq!(Some("SOME_NEW_ERROR"), payload["code"].as_str());
    assert_eq!(Some("object=valve-002 property=text"), payload["path"].as_str());
    assert_eq!(Some("unexpected runtime validation state"), payload["detail"].as_str());
    assert_eq!(Some(false), payload["known_code"].as_bool());
    assert_eq!(Some(raw), payload["user_message"].as_str());
}

#[test]
fn handle_builder_request_returns_bad_request_for_invalid_json() {
    let request = BuilderHttpRequest::new("POST", "/api/v1/errors/map", "{not-json");
    let response = handle_builder_request(&request);
    let payload: serde_json::Value = serde_json::from_str(&response.body).expect("json");

    assert_eq!(400, response.status_code);
    assert_eq!("application/json", response.content_type);
    assert!(payload["error"].as_str().expect("error").contains("invalid error map JSON"));
}

#[test]
fn handle_builder_request_get_screen_returns_project_file() {
    let project = MemoryProject::new();
    project.files.borrow_mut().insert(
        "/tmp/project/config/screens/mock-main.screen.json".to_string(),
        r#"{"schema_version":"1.0.0","screen_id":"mock-main","project_id":"demo","name":"Mock","canvas_width":100,"canvas_height":80,"objects":[]}"#.to_string(),
    );

    let request = BuilderHttpRequest::new("GET", "/api/v1/screens/mock-main", "");
    let response = handle_builder_request_with(&request, "/tmp/project", &project);
    let payload: serde_json::Value = serde_json::from_str(&response.body).expect("json");

    assert_eq!(200, response.status_code);
    assert_eq!(Some("mock-main"), payload["screen_id"].as_str());
}

#[test]
fn handle_builder_request_get_missing_screen_is_not_found() {
    let request = BuilderHttpRequest::new("GET", "/api/v1/screens/absent", "");
    let response = handle_builder_request(&request);
    assert_eq!(404, response.status_code);
    assert_eq!(r#"{"error":"screen definition not found"}"#, response.body);
}

#[test]
fn handle_builder_request_put_screen_writes_project_file() {
    let project = MemoryProject::new();
    let request = BuilderHttpRequest::new(
        "PUT",
        "/api/v1/screens/mock-main",
        r#"{"schema_version":"1.0.0","screen_id":"mock-main","project_id":"demo","name":"Mock Main Screen","canvas_width":1280,"canvas_height":720,"objects":[]}"#,
    );

    let response = handle_builder_request_with(&request, "/tmp/project", &project);
    let payload: serde_json::Value = serde_json::from_str(&response.body).expect("json");

    assert_eq!(200, response.status_code);
    assert_eq!(Some("config/screens/mock-main.screen.json"), payload["saved_path"].as_str());
    let saved = project
        .files
        .borrow()
        .get("/tmp/project/config/screens/mock-main.screen.json")
        .cloned()
        .expect("saved file");
    assert!(saved.ends_with("}\n"));
    assert!(saved.contains("{\n  \"canvas_height\": 720,"));
    let reparsed: serde_json::Value = serde_json::from_str(&saved).expect("saved json");
    assert_eq!(Some("mock-main"), reparsed["screen_id"].as_str());
}

#[test]
fn handle_builder_request_put_screen_rejects_mismatched_screen_id() {
    let request = BuilderHttpRequest::new(
        "PUT",
        "/api/v1/screens/mock-main",
        r#"{"schema_version":"1.0.0","screen_id":"other-screen","project_id":"demo","name":"Mock Main Screen","canvas_width":1280,"canvas_height":720,"objects":[]}"#,
    );

    let response = handle_builder_request(&request);
    let payload: serde_json::Value = serde_json::from_str(&response.body).expect("json");

    assert_eq!(400, response.status_code);
    assert!(payload["error"].as_str().expect("error").contains("screen_id in body must match path"));
}

#[test]
fn put_screen_rejects_wrong_shape_and_bad_ids() {
    let request = BuilderHttpRequest::new("PUT", "/api/v1/screens/mock-main", r#"{"screen_id":"mock-main"}"#);
    let response = handle_builder_request(&request);
    assert_eq!(400, response.status_code);
    assert_eq!(r#"{"error":"invalid screen-definition shape"}"#, response.body);

    let bad = BuilderHttpRequest::new("GET", "/api/v1/screens/bad.id", "");
    assert_eq!(r#"{"error":"invalid screen id"}"#, handle_builder_request(&bad).body);

    let other = BuilderHttpRequest::new("DELETE", "/api/v1/screens/main", "");
    assert_eq!(404, handle_builder_request(&other).status_code);
}

#[test]
fn builder_step_names_the_screen_file() {
    let request = BuilderHttpRequest::new("GET", "/api/v1/screens/main?x=1", "");
    match builder_step(&request, "/srv/project/") {
        BuilderStep::ReadScreen(path) => assert_eq!("/srv/project/config/screens/main.screen.json", path),
        _ => panic!("expected a screen read"),
    }
}

#[test]
fn builder_parse_http_request_reads_method_path_and_body() {
    let request = parse_http_request("PUT /api/v1/screens/a HTTP/1.1\r\nHost: x\r\n\r\n{\"a\":1}").expect("request");
    assert_eq!("PUT", request.method);
    assert_eq!("/api/v1/screens/a", request.path);
    assert_eq!("{\"a\":1}", request.body);
    assert_eq!(Err("invalid http request".to_string()), parse_http_request("GET / HTTP/1.1\r\n"));
    assert_eq!(Err("missing path".to_string()), parse_http_request("GET\r\n\r\n"));
}

#[test]
fn error_json_escapes_only_quotes() {
    assert_eq!(r#"{"error":"say \"hi\""}"#, error_json("say \"hi\""));
}

#[test]
fn screen_ids_and_paths() {
    assert_eq!(Some("main".to_string()), screen_id_from_path("/api/v1/screens/main"));
    assert_eq!(None, screen_id_from_path("/api/v1/screens/"));
    assert_eq!(None, screen_id_from_path("/api/v1/screens/a/b"));
    assert!(is_valid_screen_id("mock-main_2"));
    assert!(!is_valid_screen_id("mock main"));
    assert_eq!("config/screens/x.screen.json", screen_file_path("", "x"));
    assert!(is_screen_definition_shape(
        r#"{"schema_version":"1","screen_id":"a","project_id":"p","name":"n","canvas_width":1,"canvas_height":2,"objects":[]}"#
    ));
    assert!(!is_screen_definition_shape(r#"[1,2]"#));
}

#[test]
fn response_bytes_name_unknown_statuses() {
    let response = BuilderHttpResponse::json(418, "{}".to_string());
    assert_eq!("Unknown", response.reason);
    let text = String::from_utf8(response.to_http_bytes()).expect("utf8");
    assert!(text.starts_with("HTTP/1.1 418 Unknown\r\n"));
}

#[test]
fn converts_local_dialog_file_path() {
    let path = dialog_file_path_to_path_buf(DialogFilePath::Path("/tmp/file.json".to_string()));
    assert_eq!(Some("/tmp/file.json".to_string()), path);
}

#[test]
fn rejects_non_local_dialog_file_path() {
    let path = dialog_file_path_to_path_buf(DialogFilePath::Url("https://example.com/file.json".to_string()));
    assert_eq!(None, path);
}

#[test]
fn infer_project_root_finds_workspace_markers() {
    let probes = vec![
        DirProbe { has_workspace: false, has_contracts: false, has_docs: false, canonical: Some("/r/apps/builder-ui/src-tauri".to_string()) },
        DirProbe { has_workspace: true, has_contracts: false, has_docs: true, canonical: Some("/r/apps/builder-ui".to_string()) },
        DirProbe { has_workspace: true, has_contracts: true, has_docs: true, canonical: Some("/r".to_string()) },
        DirProbe { has_workspace: true, has_contracts: true, has_docs: true, canonical: Some("/".to_string()) },
    ];
    assert_eq!(Some("/r".to_string()), infer_project_root_from(&probes));
}

#[test]
fn infer_project_root_returns_none_when_markers_missing() {
    let probes = vec![
        DirProbe { has_workspace: false, has_contracts: true, has_docs: true, canonical: Some("/a/nested".to_string()) },
        DirProbe { has_workspace: true, has_contracts: true, has_docs: true, canonical: None },
    ];
    assert_eq!(None, infer_project_root_from(&probes));
}

#[test]
fn initial_picker_absolute_path_accepts_valid_relative_path() {
    let resolved = initial_picker_absolute_path("/tmp/scada-project", Some("config/screens/mock-main.screen.json"));

    assert_eq!(Some("/tmp/scada-project/config/screens/mock-main.screen.json".to_string()), resolved);
}

#[test]
fn initial_picker_absolute_path_rejects_invalid_relative_path() {
    let root = "/tmp/scada-project";

    assert_eq!(None, initial_picker_absolute_path(root, Some("../outside.screen.json")));
    assert_eq!(None, initial_picker_absolute_path(root, Some("/tmp/absolute.screen.json")));
    assert_eq!(None, initial_picker_absolute_path(root, Some("config/other/mock-main.screen.json")));
}

#[test]
fn summarize_supervise_log_dir_collects_summary_and_service_stats() {
    let summary_log = Some("{\"type\":\"cycle_summary\"}\nnot-json\n{\"type\":\"final_summary\"}\n".to_string());
    let logs = vec![(
        "tag-server".to_string(),
        "cycle=1 started=true exited=false\ncycle=2 started=false exited=true\n".to_string(),
    )];

    let summary = summarize_supervise_log(&summary_log, &logs);

    assert_eq!(1, summary.cycle_summaries);
    assert_eq!(1, summary.final_summaries);
    assert_eq!(1, summary.parse_errors);
    assert_eq!(1, summary.services.len());
    assert_eq!("tag-server", summary.services[0].service);
    assert_eq!(2, summary.services[0].lines);
    assert_eq!(1, summary.services[0].exited);
    assert_eq!(1, summary.services[0].started_false);
}
