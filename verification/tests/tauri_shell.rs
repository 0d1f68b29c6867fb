use scada::service::{LocalRuntimeConfig, LocalServiceSpec, ServiceRole, LOCAL_BIND_HOST_ENV, LOCAL_TOKEN_ENV};
use scada::service_config::{
    apply_service_overrides, build_plans, load_service_plan_file, validate_service_plan_file,
    ServiceEntry, ServicePlanFile,
};
use scada::shell::{
    check_default_services, create_local_runtime_config, HealthProbe, exited_status, health_from_run, is_valid_screen_relative_path,
    mask_token, normalize_relative_screen_path, parse_health_output, service_binary_path,
    service_start_plan, truncate_for_log, HealthRun, ServiceStartPlan,
};
use scada::shell_cli::{
    apply_shared_mqtt_url, arg_value, help_text, pick_screen_relative_path_response,
    SERVICE_CONFIG_SCHEMA_VERSION,
};
use scada::supervise_log::{service_log_name, summarize_supervise_log};
use scada::supervisor::{
    cycle_summary, format_cycle_events, policy_for, RestartDefaults, ServiceAction, Supervisor,
};

fn service() -> LocalServiceSpec {
    LocalServiceSpec { role: ServiceRole::TagServer, binary: "tag-server", health_arg: "--health" }
}

fn plan(service: &str, args: Vec<String>) -> ServiceStartPlan {
    ServiceStartPlan {
        service: service.to_string(),
        binary_path: service.to_string(),
        args,
        envs: Vec::new(),
        restart_on_exit: true,
        restart_max_attempts: None,
        restart_backoff_ms: None,
        restart_reset_after_ms: None,
    }
}

fn strings(items: &[&str]) -> Vec<String> {
    items.iter().map(|s| s.to_string()).collect()
}

#[test]
fn parser_accepts_expected_health_output() {
    let result = parse_health_output(&service(), "tag-server: healthy\n");

    assert!(result.healthy);
    assert_eq!("tag-server", result.service);
}

#[test]
fn parser_rejects_wrong_health_output() {
    let result = parse_health_output(&service(), "tag-server: broken\n");

    assert!(!result.healthy);
}

#[test]
fn failed_health_run_reports_its_message() {
    let result = health_from_run(&service(), HealthRun::Failed("spawn failed".to_string()));
    assert!(!result.healthy);
    assert_eq!("spawn failed", result.output);
}

#[test]
fn binary_path_uses_supplied_directory() {
    let path = service_binary_path("/tmp/scada", &service());

    assert_eq!("/tmp/scada/tag-server", path);
}

#[test]
fn service_plan_sets_bind_host_and_token_env() {
    let config = LocalRuntimeConfig {
        bind_host: "127.0.0.1".to_string(),
        startup_token: "secret-token".to_string(),
        services: vec![service()],
    };

    let plan = service_start_plan("/tmp/scada", &config);

    assert_eq!(1, plan.len());
    assert!(plan[0].args.is_empty());
    assert!(plan[0].restart_on_exit);
    assert_eq!(None, plan[0].restart_max_attempts);
    assert_eq!(None, plan[0].restart_backoff_ms);
    assert_eq!(None, plan[0].restart_reset_after_ms);
    assert_eq!(
        Some("127.0.0.1".to_string()),
        plan[0].envs.iter().find(|(key, _)| key == LOCAL_BIND_HOST_ENV).map(|(_, value)| value.clone())
    );
    assert_eq!(
        Some("secret-token".to_string()),
        plan[0].envs.iter().find(|(key, _)| key == LOCAL_TOKEN_ENV).map(|(_, value)| value.clone())
    );
}

#[test]
fn token_mask_hides_middle() {
    assert_eq!("local-...abcd", mask_token("local-secret-abcd"));
}

#[test]
fn short_token_is_fully_masked() {
    assert_eq!("****", mask_token("12345678"));
}

#[test]
fn screen_relative_path_validator_accepts_valid_path() {
    assert!(is_valid_screen_relative_path("config/screens/mock-main.screen.json"));
    assert!(is_valid_screen_relative_path("config/screens/custom/mock-main.screen.json"));
}

#[test]
fn screen_relative_path_validator_rejects_invalid_path() {
    assert!(!is_valid_screen_relative_path(""));
    assert!(!is_valid_screen_relative_path("config/screens/.screen.json"));
    assert!(!is_valid_screen_relative_path("config/screens/mock.main.screen.json"));
    assert!(!is_valid_screen_relative_path("config/screens/../mock-main.screen.json"));
    assert!(!is_valid_screen_relative_path("config/screens/mock-main.json"));
}

#[test]
fn normalize_relative_screen_path_returns_project_relative_path() {
    let path = normalize_relative_screen_path(
        "/tmp/scada-project",
        "/tmp/scada-project/config/screens/mock-main.screen.json",
    )
    .expect("normalize path");

    assert_eq!("config/screens/mock-main.screen.json", path);
}

#[test]
fn normalize_relative_screen_path_rejects_outside_project_root() {
    let error = normalize_relative_screen_path(
        "/tmp/scada-project",
        "/tmp/other/config/screens/mock-main.screen.json",
    )
    .expect_err("must reject");

    assert!(error.contains("outside project root"));
}

#[test]
fn shared_mqtt_url_is_injected_to_preview_runtime() {
    let mut plans = vec![plan("preview-runtime", Vec::new()), plan("tag-server", Vec::new())];

    apply_shared_mqtt_url(&mut plans, Some("ws://127.0.0.1:8083/mqtt"));

    assert_eq!(vec!["--mqtt-url".to_string(), "ws://127.0.0.1:8083/mqtt".to_string()], plans[0].args);
    assert!(plans[1].args.is_empty());
}

#[test]
fn shared_mqtt_url_does_not_override_explicit_arg() {
    let mut plans = vec![plan(
        "preview-runtime",
        vec!["--mqtt-url".to_string(), "mqtt://broker.example.local:1883".to_string()],
    )];

    apply_shared_mqtt_url(&mut plans, Some("ws://127.0.0.1:8083/mqtt"));

    assert_eq!(
        vec!["--mqtt-url".to_string(), "mqtt://broker.example.local:1883".to_string()],
        plans[0].args
    );
}

#[test]
fn cycle_event_codes_are_stable() {
    assert_eq!("NONE", format_cycle_events(0, 0, 0, 0, 0));
    assert_eq!(
        "START_ERROR,RESTARTED,RESTART_EXHAUSTED,RESTART_FAILED,RESTART_RESET",
        format_cycle_events(1, 1, 1, 1, 1)
    );
}

#[test]
fn service_plan_validation_accepts_mqtt_url() {
    let config = ServicePlanFile {
        schema_version: SERVICE_CONFIG_SCHEMA_VERSION.to_string(),
        mqtt_url: Some("mqtt://127.0.0.1:1883".to_string()),
        services: Vec::new(),
    };

    assert!(validate_service_plan_file(&config, "test.json").is_ok());
}

#[test]
fn service_plan_validation_rejects_invalid_mqtt_url() {
    let config = ServicePlanFile {
        schema_version: SERVICE_CONFIG_SCHEMA_VERSION.to_string(),
        mqtt_url: Some("mqtt://:bad".to_string()),
        services: Vec::new(),
    };

    let error = validate_service_plan_file(&config, "test.json").expect_err("validation error");
    assert!(error.contains("invalid mqtt_url"));
}

#[test]
fn service_plan_load_rejects_other_schema_version() {
    let config = ServicePlanFile { schema_version: "2.0.0".to_string(), mqtt_url: None, services: Vec::new() };
    let error = load_service_plan_file("services.json", Ok(config)).err().expect("error");
    assert_eq!("unsupported schema_version 2.0.0 in services.json (expected 1.0.0)", error);
}

#[test]
fn service_plan_load_reports_parse_error() {
    let error = load_service_plan_file("services.json", Err("EOF while parsing".to_string())).err().expect("error");
    assert_eq!("parse services.json: EOF while parsing", error);
}

#[test]
fn help_text_mentions_current_service_config_schema_version() {
    let help = help_text();
    assert!(help.contains(&format!("schema_version must be {SERVICE_CONFIG_SCHEMA_VERSION}")));
}

#[test]
fn pick_screen_relative_path_returns_selected_value() {
    let args = strings(&[
        "tauri-shell",
        "--pick-screen-relative-path",
        "--project-root",
        "/tmp/scada-project",
        "--absolute-path",
        "/tmp/scada-project/config/screens/mock-main.screen.json",
    ]);

    let result = pick_screen_relative_path_response(&args).expect("parse args").expect("must return result");

    assert!(!result.cancelled);
    assert_eq!(Some("config/screens/mock-main.screen.json".to_string()), result.relative_path);
}

#[test]
fn pick_screen_relative_path_can_return_cancelled() {
    let args = strings(&[
        "tauri-shell",
        "--pick-screen-relative-path",
        "--project-root",
        "/tmp/scada-project",
        "--cancel",
    ]);

    let result = pick_screen_relative_path_response(&args).expect("parse args").expect("must return result");

    assert!(result.cancelled);
    assert_eq!(None, result.relative_path);
}

#[test]
fn pick_screen_relative_path_requires_absolute_path_without_cancel() {
    let args = strings(&["tauri-shell", "--pick-screen-relative-path", "--project-root", "/tmp/scada-project"]);

    let error = pick_screen_relative_path_response(&args).expect_err("must fail");

    assert!(error.contains("--absolute-path is required"));
}

#[test]
fn arg_value_takes_the_first_occurrence() {
    let args = strings(&["x", "--bin-dir", "a", "--bin-dir", "b"]);
    assert_eq!(Some("a".to_string()), arg_value(&args, "--bin-dir"));
    assert_eq!(None, arg_value(&args, "--missing"));
}

#[test]
fn summarize_supervise_log_dir_collects_json_and_service_stats() {
    let summary_log = Some("{\"type\":\"cycle_summary\"}\nnot-json\n{\"type\":\"final_summary\"}\n".to_string());
    let logs = vec![
        ("tag-server".to_string(), "cycle=1 started=true exited=false\ncycle=2 started=false exited=true\n".to_string()),
        ("driver-manager".to_string(), "cycle=1 started=true exited=false\n".to_string()),
    ];

    let summary = summarize_supervise_log(&summary_log, &logs);

    assert_eq!(1, summary.cycle_summaries);
    assert_eq!(1, summary.final_summaries);
    assert_eq!(1, summary.parse_errors);
    assert_eq!(2, summary.services.len());
    assert_eq!("driver-manager", summary.services[0].service);
    assert_eq!(1, summary.services[0].lines);
    assert_eq!(0, summary.services[0].exited);
    assert_eq!(0, summary.services[0].started_false);
    assert_eq!("tag-server", summary.services[1].service);
    assert_eq!(2, summary.services[1].lines);
    assert_eq!(1, summary.services[1].exited);
    assert_eq!(1, summary.services[1].started_false);
}

#[test]
fn service_log_names_come_from_log_files_only() {
    assert_eq!(Some("tag-server".to_string()), service_log_name("tag-server.log"));
    assert_eq!(None, service_log_name("supervise-loop.jsonl"));
    assert_eq!(None, service_log_name(".log"));
    assert_eq!(Some("a.b".to_string()), service_log_name("a.b.log"));
}

#[test]
fn overrides_change_known_services_and_add_new_ones() {
    let mut plans = vec![plan("tag-server", Vec::new())];
    plans[0].envs.push(("SCADA_BIND_HOST".to_string(), "127.0.0.1".to_string()));
    let entries = vec![
        ServiceEntry {
            service: "tag-server".to_string(),
            binary_path: Some("/opt/tag-server".to_string()),
            args: Vec::new(),
            envs: vec![
                ("SCADA_BIND_HOST".to_string(), "0.0.0.0".to_string()),
                ("RUST_LOG".to_string(), "debug".to_string()),
            ],
            restart_on_exit: None,
            restart_max_attempts: Some(3),
            restart_backoff_ms: None,
            restart_reset_after_ms: None,
        },
        ServiceEntry {
            service: "mosquitto".to_string(),
            binary_path: None,
            args: strings(&["-v"]),
            envs: Vec::new(),
            restart_on_exit: Some(false),
            restart_max_attempts: None,
            restart_backoff_ms: Some(500),
            restart_reset_after_ms: None,
        },
    ];

    apply_service_overrides(&mut plans, &entries);

    assert_eq!(2, plans.len());
    assert_eq!("/opt/tag-server", plans[0].binary_path);
    assert_eq!(
        vec![
            ("SCADA_BIND_HOST".to_string(), "0.0.0.0".to_string()),
            ("RUST_LOG".to_string(), "debug".to_string())
        ],
        plans[0].envs
    );
    assert_eq!(Some(3), plans[0].restart_max_attempts);
    assert!(plans[0].restart_on_exit);
    assert_eq!("mosquitto", plans[1].binary_path);
    assert_eq!(strings(&["-v"]), plans[1].args);
    assert!(!plans[1].restart_on_exit);
    assert_eq!(Some(500), plans[1].restart_backoff_ms);
}

#[test]
fn build_plans_adds_local_broker_last() {
    let config = create_local_runtime_config("127.0.0.1", "token-1234567890".to_string());
    let args = strings(&["tauri-shell", "--include-rumqttd", "--rumqttd-config", "broker.toml"]);
    let file = Some(ServicePlanFile {
        schema_version: "1.0.0".to_string(),
        mqtt_url: Some("ws://127.0.0.1:8083/mqtt".to_string()),
        services: Vec::new(),
    });

    let plans = build_plans(&args, "/opt/bin", &config, &file);

    let last = plans.last().expect("plans");
    assert_eq!("rumqttd", last.service);
    assert_eq!("rumqttd", last.binary_path);
    assert_eq!(strings(&["-c", "broker.toml", "-q"]), last.args);
    let runtime = plans.iter().find(|p| p.service == "preview-runtime").expect("runtime");
    assert_eq!(strings(&["--mqtt-url", "ws://127.0.0.1:8083/mqtt"]), runtime.args);
    assert_eq!("/opt/bin/preview-runtime", runtime.binary_path);
}

#[test]
fn exited_status_reports_code_and_output() {
    let status = exited_status("tag-server", Some(1), "boom", "");
    assert!(status.exited);
    assert_eq!(Some(1), status.exit_code);
    assert!(status.message.contains("boom"));
}

#[test]
fn truncate_for_log_marks_cut_text() {
    assert_eq!("abc...", truncate_for_log("abcdef", 3));
    assert_eq!("abc", truncate_for_log("abc", 3));
}

#[test]
fn restarts_stop_at_the_maximum_and_fail_the_loop() {
    let defaults = RestartDefaults {
        restart_exited: true,
        max_attempts: 1,
        backoff_ms: 0,
        reset_after_ms: 0,
        fail_on_start_error: false,
        fail_on_exhausted_restart: true,
    };
    let policy = policy_for(&plan("tag-server", Vec::new()), &defaults);
    let mut supervisor = Supervisor::new(defaults, 2, 1);

    supervisor.begin_cycle();
    let first = supervisor.observe(0, &policy, true, 0);
    assert_eq!(ServiceAction::Restart { backoff_ms: 0 }, first);
    supervisor.record_restart(0, true);
    assert!(supervisor.end_cycle());

    supervisor.begin_cycle();
    let second = supervisor.observe(0, &policy, true, 0);
    assert_eq!(ServiceAction::Keep, second);
    assert_eq!(1, supervisor.current().restart_exhausted);
    assert!(!supervisor.end_cycle());

    assert_eq!(Err("restart attempts exhausted in supervise-loop".to_string()), supervisor.outcome());
}

#[test]
fn cycle_summary_lines_name_the_counts() {
    let defaults = RestartDefaults {
        restart_exited: false,
        max_attempts: 0,
        backoff_ms: 0,
        reset_after_ms: 0,
        fail_on_start_error: false,
        fail_on_exhausted_restart: false,
    };
    let mut supervisor = Supervisor::new(defaults, 1, 1);
    supervisor.begin_cycle();
    let policy = policy_for(&plan("tag-server", Vec::new()), &defaults);
    supervisor.observe(0, &policy, false, 0);
    let (json, line) = cycle_summary(supervisor.cycle(), &supervisor.current(), supervisor.startup_errors());
    let value: serde_json::Value = serde_json::from_str(&json).expect("json");
    assert_eq!(Some("cycle_summary"), value["type"].as_str());
    assert_eq!(Some(1), value["running"].as_u64());
    assert!(line.starts_with("cycle=1 summary running=1 exited=0"));
}

#[test]
fn shared_mqtt_url_given_twice_is_given_once() {
    let mut plans = vec![plan("preview-runtime", Vec::new()), plan("tag-server", Vec::new())];
    apply_shared_mqtt_url(&mut plans, Some("mqtt://127.0.0.1:1883"));
    let once = plans.clone();
    apply_shared_mqtt_url(&mut plans, Some("mqtt://127.0.0.1:1883"));
    assert_eq!(once, plans);
    apply_shared_mqtt_url(&mut plans, Some(""));
    assert_eq!(once, plans);
}

/// Answers health checks as a healthy tag server would, and fails every other binary.
struct OnlyTagServer;

impl HealthProbe for OnlyTagServer {
    fn run_check(&self, binary: &str, _health_arg: &str) -> HealthRun {
        if binary.ends_with("/tag-server") {
            HealthRun::Finished { success: true, stdout: "tag-server: healthy\n".to_string(), stderr: String::new() }
        } else {
            HealthRun::Failed(format!("cannot run {binary}"))
        }
    }
}

#[test]
fn check_default_services_reports_each_service_in_order() {
    let results = check_default_services("/opt/bin", &OnlyTagServer);
    let names: Vec<&str> = results.iter().map(|r| r.service.as_str()).collect();
    assert_eq!(vec!["builder-api", "tag-server", "driver-manager", "preview-runtime", "mock-driver"], names);
    assert!(results[1].healthy);
    assert!(!results[0].healthy);
    assert_eq!("cannot run /opt/bin/builder-api", results[0].output);
}

#[test]
fn token_mask_counts_bytes() {
    assert_eq!("ééé...éé", mask_token("ééééé"));
    assert_eq!("****", mask_token("éééé"));
}

#[test]
fn picking_the_initial_file_gives_back_its_trimmed_path() {
    let root = "/tmp/scada-project/";
    let opened = scada::builder_ui::initial_picker_absolute_path(root, Some("  config/screens/area/main.screen.json "))
        .expect("picker opens at the initial file");

    assert_eq!("/tmp/scada-project/config/screens/area/main.screen.json", opened);
    assert_eq!(
        Ok("config/screens/area/main.screen.json".to_string()),
        scada::shell::normalize_relative_screen_path(root, &opened)
    );
}

#[test]
fn a_run_of_three_cycles_stops_after_the_third_and_fails_on_start_errors() {
    let defaults = RestartDefaults {
        restart_exited: false,
        max_attempts: 0,
        backoff_ms: 0,
        reset_after_ms: 0,
        fail_on_start_error: true,
        fail_on_exhausted_restart: true,
    };
    let mut supervisor = Supervisor::new(defaults, 3, 1);
    supervisor.record_start_error();
    let mut cycles = 0;
    loop {
        supervisor.begin_cycle();
        cycles += 1;
        if !supervisor.end_cycle() {
            break;
        }
    }
    assert_eq!(3, cycles);
    assert_eq!(3, supervisor.cycle());
    assert_eq!(0, supervisor.attempts(0));
    assert_eq!(Err("start error detected in supervise-loop".to_string()), supervisor.outcome());
}
