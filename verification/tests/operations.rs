use bonsai::service_discovery::{
    analyze_interface_description, determine_endpoint_type, extract_service_name, interface_service, match_service_pattern,
    service_pattern,
};
use bonsai::change::{
    default_webhook_state, default_webhook_type, format_snow_datetime, map_snow_change_state, map_snow_change_type,
    parse_snow_datetime, resolve_affected_devices, snow_to_record, webhook_link_targets, webhook_record,
    SnowChangeRecord, WebhookChangeEvent,
};
use bonsai::investigation::{compute_coverage_gaps, iteration_allowed, reply_completes, system_prompt, user_prompt, QualityGaps, WeakDevice, MAX_ITERATIONS};
use bonsai::receiver::{is_port_conflict, ReceiverState, ReceiverSupervisor};
use bonsai::security::database::{
    get_database_security_manager, initialize_database_security, DatabaseSecurityConfig, DatabaseSecurityEvent,
    DatabaseSecurityManager,
};
use bonsai::security::incident::{action_type_name, substitute_action_parameters, substitute_string, WorkflowAction};
use bonsai::startup::{config_path, registry_path_for_graph_path, required_tls_path};

fn snow(state: &str, ctype: &str, start: &str, work_start: &str, ci: &str) -> SnowChangeRecord {
    SnowChangeRecord {
        sys_id: "abc".into(),
        number: "CHG001".into(),
        short_description: "upgrade".into(),
        state: state.into(),
        change_type: ctype.into(),
        risk: "low".into(),
        assigned_to: String::new(),
        assignment_group: "net".into(),
        cmdb_ci: ci.into(),
        start_date: start.into(),
        end_date: String::new(),
        work_start: work_start.into(),
        work_end: String::new(),
        correlation_id: String::new(),
    }
}

#[test]
fn servicenow_changes_become_records() {
    let r = snow_to_record(&snow("-1", "Emergency", "", "2024-01-02 03:04:05", "leaf1"));
    assert_eq!(r.id, "snow:abc");
    assert_eq!(r.state, "implement");
    assert_eq!(r.change_type, "emergency");
    assert_eq!(r.planned_start_ns, 1_704_164_645_000_000_000);
    assert_eq!(r.actual_start_ns, 1_704_164_645_000_000_000);
    assert_eq!(r.planned_end_ns, 0);
    assert_eq!(r.affected_cis, vec!["leaf1".to_string()]);
    assert_eq!(r.external_ref, "CHG001");
    assert_eq!(map_snow_change_state("7"), "7");
    assert_eq!(map_snow_change_state("4"), "cancelled");
    assert_eq!(map_snow_change_type("Custom"), "custom");
    assert_eq!(parse_snow_datetime(""), None);
    assert_eq!(parse_snow_datetime("not a date"), None);
}

#[test]
fn servicenow_datetimes_are_formatted_in_utc() {
    assert_eq!(format_snow_datetime(1_704_164_645_999_999_999), "2024-01-02 03:04:05");
    assert_eq!(format_snow_datetime(0), "1970-01-01 00:00:00");
    assert_eq!(format_snow_datetime(-1_000_000_000), "1969-12-31 23:59:59");
}

#[test]
fn affected_devices_resolve_through_the_ci_map() {
    let map = vec![("leaf1".to_string(), "10.0.0.1:57400".to_string())];
    let hit = resolve_affected_devices(&snow("0", "normal", "", "", "leaf1"), &map);
    assert_eq!(hit, vec![("10.0.0.1:57400".to_string(), "primary_ci".to_string())]);
    assert!(resolve_affected_devices(&snow("0", "normal", "", "", "spine9"), &map).is_empty());
    assert!(resolve_affected_devices(&snow("0", "normal", "", "", ""), &map).is_empty());
}

#[test]
fn webhook_changes_become_records() {
    let e = WebhookChangeEvent {
        change_id: "job-7".into(),
        number: String::new(),
        source: "aap".into(),
        description: "rollout".into(),
        state: default_webhook_state(),
        change_type: default_webhook_type(),
        risk: String::new(),
        affected_devices: vec!["LEAF1".into(), "spine1".into()],
        planned_start_epoch: 100,
        planned_end_epoch: i64::MAX,
        correlation_id: String::new(),
        external_ref: "playbook.yml".into(),
        extra_json: String::new(),
    };
    let r = webhook_record(&e);
    assert_eq!(r.id, "aap:job-7");
    assert_eq!(r.number, "job-7");
    assert_eq!(r.state, "implement");
    assert_eq!(r.change_type, "standard");
    assert_eq!(r.planned_start_ns, 100_000_000_000);
    assert_eq!(r.planned_end_ns, i64::MAX);
    let map = vec![("leaf1".to_string(), "10.0.0.1".to_string())];
    assert_eq!(webhook_link_targets(&e, &map), vec!["10.0.0.1".to_string(), "spine1".to_string()]);
}

#[test]
fn receivers_are_tracked_by_name() {
    let mut sup = ReceiverSupervisor::new();
    sup.register_listening("syslog_udp", "0.0.0.0:514".into());
    sup.register_disabled("bmp", "0.0.0.0:11019".into());
    sup.record_packet("syslog_udp", 7);
    sup.record_packet("syslog_udp", 9);
    sup.mark_port_conflict("bmp", "address already in use".into());
    sup.mark_error("nope", "ignored".into());
    let s = sup.status("syslog_udp").unwrap();
    assert_eq!(s.packet_count, 2);
    assert_eq!(s.last_packet_at_ns, Some(9));
    assert_eq!(sup.status("bmp").unwrap().state, ReceiverState::PortConflict);
    sup.mark_stopped("syslog_udp");
    let all = sup.status_snapshot();
    assert_eq!(all.len(), 2);
    assert_eq!(all[0].name, "bmp");
    assert_eq!(all[1].state, ReceiverState::Stopped);
    assert!(is_port_conflict("Os { code: 98, kind: AddrInUse }"));
    assert!(!is_port_conflict("permission denied"));
}

#[test]
fn sensitive_fields_are_masked_by_bytes() {
    let mut cfg = DatabaseSecurityConfig::default();
    assert_eq!(cfg.retention_days, 90);
    cfg.data_masking_enabled = true;
    let m = DatabaseSecurityManager::new(cfg);
    assert_eq!(m.apply_data_masking("hunter22", "user_Password"), "hu***22");
    assert_eq!(m.apply_data_masking("abcd", "API_KEY"), "****");
    assert_eq!(m.apply_data_masking("visible", "hostname"), "visible");
    assert_eq!(m.mask_value("é1234é"), "é***é");
    let off = DatabaseSecurityManager::new(DatabaseSecurityConfig::default());
    assert_eq!(off.apply_data_masking("hunter22", "password"), "hunter22");
    // A cut inside a character is refused rather than made.
    assert_eq!(m.try_apply_data_masking("aébcd", "email"), None);
    assert_eq!(m.try_apply_data_masking("hunter22", "email"), Some("hu***22".to_string()));
    assert_eq!(m.try_apply_data_masking("aébcd", "host"), Some("aébcd".to_string()));
    assert_eq!(m.try_apply_data_masking("é1234é", "token"), Some("é***é".to_string()));
    assert_eq!(off.try_apply_data_masking("aébcd", "email"), Some("aébcd".to_string()));
}

#[test]
fn audit_log_keeps_the_newest_events() {
    let mut m = DatabaseSecurityManager::new(DatabaseSecurityConfig::default());
    for i in 0..1005u32 {
        m.log_security_event(DatabaseSecurityEvent::EncryptionOperation {
            operation: format!("op{i}"),
            table: "t".into(),
            success: true,
        });
    }
    assert_eq!(m.audit_log.len(), 1000);
    let recent = m.get_recent_events(2);
    assert_eq!(recent.len(), 2);
    match &recent[0] {
        DatabaseSecurityEvent::EncryptionOperation { operation, .. } => assert_eq!(operation, "op1004"),
        _ => panic!("unexpected event"),
    }
    assert_eq!(m.get_recent_events(5000).len(), 1000);
}

#[test]
fn security_manager_installs_once() {
    let mut slot = None;
    assert!(get_database_security_manager(&slot).is_none());
    assert!(initialize_database_security(&mut slot, DatabaseSecurityConfig::default()).is_ok());
    assert!(get_database_security_manager(&slot).is_some());
    assert_eq!(
        initialize_database_security(&mut slot, DatabaseSecurityConfig::default()).unwrap_err(),
        "Database security manager already initialized"
    );
}

#[test]
fn parameters_are_substituted_in_order() {
    let params = vec![("ip".to_string(), "10.0.0.9".to_string()), ("who".to_string(), "${ip}".to_string())];
    assert_eq!(substitute_string("block ${ip} for ${who}", &params), "block 10.0.0.9 for ${ip}");
    let a = WorkflowAction::BlockIp { ip: "${ip}".into(), duration_hours: 4, reason: "seen by ${who}".into() };
    match substitute_action_parameters(&a, &params) {
        WorkflowAction::BlockIp { ip, duration_hours, reason } => {
            assert_eq!(ip, "10.0.0.9");
            assert_eq!(duration_hours, 4);
            assert_eq!(reason, "seen by ${ip}");
        },
        _ => panic!("kind changed"),
    }
    assert_eq!(action_type_name(&a), "block_ip");
    let run = WorkflowAction::RunPlaybook { playbook_id: "pb-${ip}".into(), parameters: vec![("t".into(), "${ip}".into())] };
    match substitute_action_parameters(&run, &params) {
        WorkflowAction::RunPlaybook { playbook_id, parameters } => {
            assert_eq!(playbook_id, "pb-10.0.0.9");
            assert_eq!(parameters, vec![("t".to_string(), "10.0.0.9".to_string())]);
        },
        _ => panic!("kind changed"),
    }
}

#[test]
fn config_path_comes_from_arguments_then_environment() {
    let args = |v: &[&str]| v.iter().map(|s| s.to_string()).collect::<Vec<String>>();
    assert_eq!(config_path(&args(&["--config=/etc/b.toml"]), None), "/etc/b.toml");
    assert_eq!(config_path(&args(&["--config", "x.toml"]), Some("env.toml".into())), "x.toml");
    assert_eq!(config_path(&args(&["--config", " ", "--config=y.toml"]), None), "y.toml");
    assert_eq!(config_path(&args(&["--config="]), Some("env.toml".into())), "env.toml");
    assert_eq!(config_path(&args(&[]), Some("  ".into())), "bonsai.toml");
}

#[test]
fn registry_lives_beside_the_graph() {
    assert_eq!(registry_path_for_graph_path("/var/lib/bonsai/graph.db"), "/var/lib/bonsai/bonsai-registry.json");
    assert_eq!(registry_path_for_graph_path("graph.db"), "./bonsai-registry.json");
    assert_eq!(registry_path_for_graph_path("  "), "./bonsai-registry.json");
}

#[test]
fn tls_paths_are_required() {
    assert_eq!(required_tls_path(Some("/tls/cert.pem"), "runtime.tls.cert").unwrap(), "/tls/cert.pem");
    assert_eq!(
        required_tls_path(Some("  "), "runtime.tls.key").unwrap_err(),
        "runtime.tls.key is required when runtime.tls.enabled = true"
    );
    assert!(required_tls_path(None, "x").is_err());
}

#[test]
fn prompts_name_the_device_and_detection() {
    assert_eq!(
        user_prompt("10.0.0.1", Some("det-9")),
        "Investigate detection det-9 on device 10.0.0.1. Start with get_incident."
    );
    assert_eq!(
        user_prompt("10.0.0.1", None),
        "Investigate device 10.0.0.1. List active detections and analyze blast radius."
    );
    let s = system_prompt("10.0.0.1", Some("det-9"), "SCHEMA");
    assert!(s.contains("Investigate the issue on device 10.0.0.1 (detection: det-9).\n"));
    assert!(s.contains("\n\nSCHEMA\n\n"));
    assert!(s.ends_with("}"));
}

#[test]
fn coverage_gaps_report_missing_data() {
    let q = QualityGaps {
        low_coverage: vec!["BMP coverage is low (10%) — BGP route-level analysis is limited.".into()],
        weak_devices: vec![
            WeakDevice { address: "10.0.0.1".into(), missing: vec!["syslog".into()] },
            WeakDevice { address: "10.0.0.2".into(), missing: vec!["bmp".into()] },
        ],
    };
    let paths = vec!["query_graph".to_string(), "get_device_blast_radius".to_string()];
    let report = compute_coverage_gaps(&Some(q), &paths, "10.0.0.1");
    assert_eq!(
        report,
        "---\n## Coverage Gaps (auto-generated)\nThe following data gaps may affect investigation accuracy:\n\
- BMP coverage is low (10%) — BGP route-level analysis is limited.\n\
- Device 10.0.0.1 is missing syslog signal data.\n\
- Change management context was not checked — this fault may be correlated with an active change window.\n"
    );
    let all = vec![
        "query_graph".to_string(),
        "get_device_blast_radius".to_string(),
        "check_change_context".to_string(),
    ];
    assert_eq!(compute_coverage_gaps(&None, &all, "x"), "");
}

#[test]
fn service_names_come_from_cleaned_descriptions() {
    assert_eq!(extract_service_name("  API Gateway - Frontend ", "api_gateway"), "apigateway-frontend");
    assert_eq!(extract_service_name("redis_server#2", "cache"), "redis_server2");
    assert_eq!(extract_service_name("   ", "cache"), "cache_service");
    assert_eq!(extract_service_name("!!! ()", "database"), "database_service");
}

#[test]
fn endpoint_types_follow_names_and_speed() {
    assert_eq!(determine_endpoint_type("mgmt0", 100_000_000_000), "management");
    assert_eq!(determine_endpoint_type("admin-port", 1), "management");
    assert_eq!(determine_endpoint_type("ethernet-1/1", 10_000_000_000), "northbound");
    assert_eq!(determine_endpoint_type("lo0", 1_000_000_000), "internal");
    assert_eq!(determine_endpoint_type("ethernet-1/1", 1_000_000_000), "southbound");
}

#[test]
fn investigation_loop_stops_at_the_limit_or_a_final_reply() {
    assert_eq!(MAX_ITERATIONS, 15);
    assert!(iteration_allowed(14));
    assert!(!iteration_allowed(15));
    assert!(reply_completes(0, "tool_use"));
    assert!(reply_completes(2, "end_turn"));
    assert!(!reply_completes(1, "tool_use"));
}

#[test]
fn service_pattern_matching() {
    let endpoint = analyze_interface_description("192.0.2.1", "ethernet-1/1", "API Gateway - Frontend", 1_000_000_000);
    assert!(endpoint.is_some());
    let endpoint = endpoint.unwrap();
    assert_eq!(endpoint.service_type, "api_gateway");
    assert!(endpoint.confidence_milli > 800);
}

#[test]
fn service_patterns_are_tried_in_order() {
    assert_eq!(match_service_pattern("core REDIS-server 2"), Some(9));
    assert_eq!(service_pattern(9).2, "cache");
    assert_eq!(match_service_pattern("uplink to spine"), None);
    assert!(analyze_interface_description("10.0.0.1", "eth0", "uplink to spine", 0).is_none());
    let e = analyze_interface_description("10.0.0.1", "mgmt0", "kafka_broker", 0).unwrap();
    assert_eq!(e.id, "service-10.0.0.1-mgmt0-message_queue");
    assert_eq!(e.service_name, "kafka_broker");
    assert_eq!(e.endpoint_type, "management");
    assert_eq!(e.confidence_milli, 900);
    assert_eq!(e.device_address, "10.0.0.1");
    assert_eq!(e.interface_name, "mgmt0");
    let d = interface_service("10.0.0.2", "Ethernet7", "Primary DB", 10_000_000_000, 4);
    assert_eq!(d.service_type, "database");
    assert_eq!(d.service_name, "primarydb");
    assert_eq!(d.endpoint_type, "northbound");
    assert_eq!(d.confidence_milli, 800);
    assert_eq!(d.id, "service-10.0.0.2-Ethernet7-database");
}
