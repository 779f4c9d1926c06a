use bonsai::aiops::{
    auto_clear_targets, bridge_ack_note, bridge_detection_id, change_annotation_note, incident_record_url,
    incident_table_url, reopens, IncidentCandidate, LocalIncidentRecord,
};
use bonsai::investigation::{
    compose_summary, extract_rca_json, fallback_summary, missing_signals_text, pick_rca, rca_candidates, WeakDevice,
};
use bonsai::investigation_trigger::{investigations_url, TriggerDecision, TriggerState};
use bonsai::mcp::{
    blast_radius_hops, check_query_graph, detection_matches, detections_limit, device_matches, match_kind, mcp_method, mcp_tool,
    MatchKind,
    method_not_found, unknown_tool_error, McpMethod, McpTool, METHOD_NOT_FOUND_CODE, TOOL_ERROR_CODE,
};
use bonsai::mcp_transport::EnricherTransport;
use bonsai::output::adapter::OutputReport;
use bonsai::output::detections::{PendingDetection, PushDedup};
use bonsai::output::registry::{OutputAdapterConfig, OutputAdapterRegistry};
use bonsai::parser_chain::{
    consensus_state, native_parse_lines, parser_backend, priorities_for, sidecar_parse_url, ParseAttempt,
    ParseChainError, ParseRequest, ParseRun, ParserBackend, ParserChainConfig, ParserSidecarConfig,
};
use bonsai::playbook::{PlaybookEntry, PlaybookLibrary};
use bonsai::retention::{events_to_prune, excess_events, PruneStats};
use bonsai::sidecar_process::{next_restart_delay, SidecarProcess, SidecarProcessError, SidecarProcessState};

const SEC: u64 = 1_000_000_000;

// ── Investigation trigger ────────────────────────────────────────────────────

#[test]
fn trigger_only_for_severe_new_detections() {
    let mut t = TriggerState::new();
    assert_eq!(t.on_event("state_changed", "d1", "critical", "10.0.0.1", 0), TriggerDecision::NotADetection);
    assert_eq!(t.on_event("detection_fired", "", "critical", "10.0.0.1", 0), TriggerDecision::MissingDetectionId);
    assert_eq!(t.on_event("detection_fired", "d1", "warn", "10.0.0.1", 0), TriggerDecision::BelowThreshold);
    assert_eq!(t.on_event("detection_fired", "d1", "HIGH", "10.0.0.1", 0), TriggerDecision::Investigate);
    assert_eq!(t.on_event("detection_fired", "d1", "high", "10.0.0.2", 0), TriggerDecision::AlreadyInFlight);
}

#[test]
fn trigger_device_cooldown_and_capacity() {
    let mut t = TriggerState::new();
    assert_eq!(t.on_event("detection_fired", "a", "critical", "dev", 0), TriggerDecision::Investigate);
    assert_eq!(t.on_event("detection_fired", "b", "critical", "dev", 299 * SEC), TriggerDecision::DeviceCooldown);
    assert_eq!(t.on_event("detection_fired", "b", "critical", "dev", 300 * SEC), TriggerDecision::Investigate);
    assert_eq!(t.on_event("detection_fired", "c", "critical", "d2", 0), TriggerDecision::Investigate);
    assert_eq!(t.on_event("detection_fired", "d", "critical", "d3", 0), TriggerDecision::Investigate);
    // Four are in flight: the cap holds until one of them ends.
    assert_eq!(t.in_flight_count(), 4);
    assert_eq!(t.on_event("detection_fired", "e", "critical", "d4", 0), TriggerDecision::AtCapacity);
    assert_eq!(t.in_flight_count(), 4);
    t.finished("c");
    assert_eq!(t.in_flight_count(), 3);
    assert!(!t.is_in_flight("c"));
    assert!(t.is_in_flight("d"));
    assert_eq!(t.on_event("detection_fired", "e", "critical", "d4", 0), TriggerDecision::Investigate);
    assert_eq!(t.on_event("detection_fired", "a", "critical", "d5", 0), TriggerDecision::AlreadyInFlight);
    // Ending one that is not in flight changes nothing.
    t.finished("zzz");
    assert_eq!(t.in_flight_count(), 4);
    assert_eq!(investigations_url("http://127.0.0.1:8080"), "http://127.0.0.1:8080/api/investigations");
}

// ── Parser chain ─────────────────────────────────────────────────────────────

fn chain_config(consensus: bool) -> ParserChainConfig {
    ParserChainConfig {
        sidecars: ParserSidecarConfig { pyats_url: "http://p/".into(), native_url: "http://n".into() },
        priorities: vec![
            ("cisco-iosxr::show bgp neighbors".into(), vec!["bonsai_native".into()]),
            ("juniper::*".into(), vec!["pyats_genie".into(), "bonsai_native".into()]),
        ],
        consensus_mode: consensus,
    }
}

#[test]
fn priorities_by_exact_then_wildcard_then_default() {
    let c = chain_config(false);
    assert_eq!(priorities_for(&c, " Cisco-IOSXR ", " show bgp neighbors "), vec!["bonsai_native".to_string()]);
    assert_eq!(priorities_for(&c, "juniper", "show route"), vec!["pyats_genie".to_string(), "bonsai_native".to_string()]);
    assert_eq!(
        priorities_for(&c, "arista", "show version"),
        vec!["bonsai_native".to_string(), "pyats_genie".to_string(), "ntc_templates".to_string()]
    );
    assert_eq!(parser_backend("suzieq_native"), ParserBackend::NativeSidecar);
    assert_eq!(parser_backend("other"), ParserBackend::Unsupported);
    assert_eq!(sidecar_parse_url("http://p//"), "http://p/parse");
}

#[test]
fn native_parse_keeps_trimmed_non_empty_lines() {
    assert_eq!(
        native_parse_lines("neighbor 10.0.0.1\n  state established \n\n"),
        vec!["neighbor 10.0.0.1".to_string(), "state established".to_string()]
    );
}

#[test]
fn parse_run_stops_at_first_success_outside_consensus() {
    let req = ParseRequest {
        vendor: "cisco-iosxr".into(),
        command_pattern: "show bgp neighbors".into(),
        raw_output: "x".into(),
    };
    let mut run = ParseRun::start(&chain_config(false), &req).ok().unwrap();
    assert_eq!(run.next_parser().map(|s| s.as_str()), Some("bonsai_native"));
    run.record(Ok(("bonsai_native".into(), "{\"line_count\":1}".into())));
    assert!(run.next_parser().is_none());
    let d = run.finish().ok().unwrap();
    assert_eq!(d.primary_parser, "bonsai_native");
    assert_eq!(d.consensus_state, "single-parser");
}

#[test]
fn parse_run_records_disagreement_and_total_failure() {
    let req = ParseRequest { vendor: "juniper".into(), command_pattern: "show bgp summary".into(), raw_output: "x".into() };
    let mut run = ParseRun::start(&chain_config(true), &req).ok().unwrap();
    run.record(Ok(("pyats_genie".into(), "{\"neighbors\":1}".into())));
    assert_eq!(run.next_parser().map(|s| s.as_str()), Some("bonsai_native"));
    run.record(Ok(("bonsai_native".into(), "{\"line_count\":1}".into())));
    let d = run.finish().ok().unwrap();
    assert_eq!(d.primary_parser, "pyats_genie");
    assert_eq!(d.consensus_state, "disagreed");
    assert_eq!(d.attempts.len(), 2);

    let mut run = ParseRun::start(&chain_config(false), &req).ok().unwrap();
    run.record(Err("down".into()));
    run.record(Err("down".into()));
    assert!(run.next_parser().is_none());
    assert!(matches!(run.finish(), Err(ParseChainError::AllFailed)));
}

#[test]
fn consensus_agreed_when_results_match() {
    let a = |p: &str, ok: bool, j: &str| ParseAttempt { parser: p.into(), success: ok, error: String::new(), parsed_json: j.into() };
    let attempts = vec![a("x", true, "1"), a("y", false, "null"), a("z", true, "1")];
    assert_eq!(consensus_state(&attempts, "1"), "agreed");
    let two = vec![a("x", true, "1"), a("y", false, "null")];
    assert_eq!(consensus_state(&two, "1"), "single-parser");
}

// ── Playbooks, transports, retention ─────────────────────────────────────────

fn pb(name: &str, vendor: &str) -> PlaybookEntry {
    PlaybookEntry {
        name: name.into(),
        vendor: vendor.into(),
        operation: "reset".into(),
        description: String::new(),
        risk_tier: "low".into(),
        steps: vec![],
    }
}

#[test]
fn playbook_prefers_vendor_match() {
    let mut lib = PlaybookLibrary::new();
    lib.add_file("bgp_session_down", vec![pb("generic", "any"), pb("ios", "Cisco-IOSXR")]);
    lib.add_file("bgp_session_down", vec![pb("junos", "juniper")]);
    lib.add_file("empty", vec![]);
    assert_eq!(lib.find("bgp_session_down", Some("cisco")).unwrap().name, "ios");
    assert_eq!(lib.find("bgp_session_down", Some("JUNIPER")).unwrap().name, "junos");
    assert_eq!(lib.find("bgp_session_down", Some("arista")).unwrap().name, "generic");
    assert_eq!(lib.find("bgp_session_down", None).unwrap().name, "generic");
    assert!(lib.find("empty", None).is_none());
    assert_eq!(lib.catalog().len(), 1);
}

#[test]
fn enricher_transport_from_settings() {
    assert!(matches!(EnricherTransport::from_extra(None, None), EnricherTransport::Rest));
    assert!(matches!(EnricherTransport::from_extra(Some("rest"), Some("x")), EnricherTransport::Rest));
    match EnricherTransport::from_extra(Some("mcp"), None) {
        EnricherTransport::Mcp { server_url } => assert_eq!(server_url, "http://localhost:8090"),
        _ => panic!("mcp transport"),
    }
    match EnricherTransport::from_extra(Some("mcp"), Some("http://mcp:1")) {
        EnricherTransport::Mcp { server_url } => assert_eq!(server_url, "http://mcp:1"),
        _ => panic!("mcp transport"),
    }
}

#[test]
fn retention_keeps_the_newest() {
    assert_eq!(excess_events(10, 0), 0);
    assert_eq!(excess_events(10, 4), 6);
    assert_eq!(excess_events(3, 4), 0);
    let s = PruneStats { events_deleted: 6 };
    assert_eq!(s.events_deleted, 6);
}

// ── The sidecar process ──────────────────────────────────────────────────────

#[test]
fn sidecar_process_lifecycle() {
    let mut p = SidecarProcess::new();
    assert_eq!(p.begin_stop(), Err(SidecarProcessError::NotRunning));
    assert_eq!(p.begin_start(), Ok(()));
    assert_eq!(p.begin_start(), Err(SidecarProcessError::AlreadyRunning(None)));
    p.spawned(Some(42), 10 * SEC);
    assert_eq!(p.status(15 * SEC).uptime_secs, Some(5));
    assert!(p.child_exited(1));
    assert_eq!(p.state, SidecarProcessState::Crashed);
    assert_eq!(p.restart_count, 1);
    p.spawned(Some(43), 20 * SEC);
    assert_eq!(p.begin_stop(), Ok(Some(43)));
    assert!(!p.child_exited(0));
    assert_eq!(p.state, SidecarProcessState::Stopped);
    assert!(!p.supervising());
    assert_eq!(next_restart_delay(5, 60), 10);
    assert_eq!(next_restart_delay(40, 60), 60);
}

// ── Output adapters ──────────────────────────────────────────────────────────

fn adapter(name: &str, url: &str) -> OutputAdapterConfig {
    OutputAdapterConfig {
        name: name.into(),
        adapter_type: "elastic".into(),
        enabled: true,
        endpoint_url: url.into(),
        credential_alias: String::new(),
        flush_interval_secs: 30,
        environment_scope: vec![],
        extra: "{}".into(),
    }
}

#[test]
fn adapter_registry_upsert_get_remove() {
    let mut r = OutputAdapterRegistry::load(vec![]);
    r.upsert(adapter("es", "http://a"));
    r.upsert(adapter("es", "http://b"));
    assert_eq!(r.list().len(), 1);
    assert_eq!(r.get("es").unwrap().endpoint_url, "http://b");
    r.set_running("es", true);
    assert!(r.list()[0].1.unwrap().is_running);
    let report = OutputReport {
        adapter_name: "es".into(),
        duration_ms: 5,
        events_pushed: 3,
        bytes_sent: 100,
        warnings: vec![],
        error: None,
    };
    r.record_push("es", &report, 7);
    r.record_push("es", &report, 8);
    let s = r.list()[0].1.unwrap();
    assert!(!s.is_running);
    assert_eq!(s.total_events_pushed, 6);
    assert_eq!(s.total_bytes_sent, 200);
    assert_eq!(s.last_push_at_ns, Some(8));
    assert!(r.remove("es"));
    assert!(r.get("es").is_none());
    assert!(!r.remove("es"));
}

#[test]
fn push_batch_takes_one_per_pair_and_skips_pushed() {
    let det = |id: &str, dev: &str, rule: &str| PendingDetection {
        id: id.into(),
        device_address: dev.into(),
        hostname: String::new(),
        rule_id: rule.into(),
        severity: "critical".into(),
        fired_at_ns: 0,
    };
    let mut d = PushDedup::new();
    let dets = vec![det("1", "a", "r"), det("2", "a", "r"), det("3", "b", "r")];
    assert_eq!(d.select_batch(&dets, 1000, 300), vec![true, false, true]);
    assert_eq!(d.select_batch(&dets, 1100, 300), vec![false, false, false]);
    let later = vec![det("4", "a", "r")];
    assert_eq!(d.select_batch(&later, 1300, 300), vec![true]);
}

// ── ServiceNow sync ──────────────────────────────────────────────────────────

fn local(id: &str, state: &str, det: &str) -> LocalIncidentRecord {
    LocalIncidentRecord {
        id: id.into(),
        snow_sys_id: "sys".into(),
        state: state.into(),
        detection_id: det.into(),
        assignment_group: String::new(),
    }
}

fn candidate(id: &str, root: &str) -> IncidentCandidate {
    IncidentCandidate {
        id: id.into(),
        root_detection_id: root.into(),
        root_device_address: "10.0.0.1".into(),
        root_hostname: String::new(),
        root_rule_id: "r".into(),
        severity: "critical".into(),
        affected_devices: vec![],
        correlated_rules: vec![],
        remediation_status: String::new(),
        assignment_group: String::new(),
        started_at_ns: 0,
        ended_at_ns: 0,
        root_cause_hint: String::new(),
    }
}

#[test]
fn sync_clears_quiet_incidents_and_finds_bridge_detection() {
    let locals = vec![local("i1", "2", "d1"), local("i2", "6", "d2"), local("i3", "2", "d3")];
    let active = vec!["i1".to_string()];
    let targets = auto_clear_targets(&locals, &active, "6");
    assert_eq!(targets.len(), 1);
    assert_eq!(targets[0].id, "i3");
    let cands = vec![candidate("i9", "root9")];
    assert_eq!(bridge_detection_id("i2", &locals, &cands), Some("d2".to_string()));
    assert_eq!(bridge_detection_id("i9", &locals, &cands), Some("root9".to_string()));
    assert_eq!(bridge_detection_id("zz", &locals, &cands), None);
    assert!(reopens("6", "6"));
    assert_eq!(incident_table_url("https://x", "incident"), "https://x/api/now/table/incident");
    assert_eq!(incident_record_url("https://x", "incident", "abc"), "https://x/api/now/table/incident/abc");
    assert_eq!(bridge_ack_note("p1"), "Bonsai queued remediation proposal for playbook `p1`.");
    assert_eq!(
        change_annotation_note("CHG1", "upgrade"),
        "Bonsai: This incident occurred during active change CHG1 (upgrade). The detection may be expected maintenance noise."
    );
}

// ── Investigation summaries ──────────────────────────────────────────────────

#[test]
fn rca_candidates_in_order() {
    let s = "see ```json\n{\"root_cause_type\":\"x\"}\n``` end";
    let c = rca_candidates(s);
    assert_eq!(c[0], "{\"root_cause_type\":\"x\"}");
    assert_eq!(c[1], "json\n{\"root_cause_type\":\"x\"}");
    assert_eq!(c[2], "{\"root_cause_type\":\"x\"}");
    assert!(rca_candidates("no json here").is_empty());
}

#[test]
fn summary_is_warning_text_and_gaps() {
    assert_eq!(compose_summary(Some("W"), "body", ""), "W\n\nbody");
    assert_eq!(compose_summary(None, "body", "gaps"), "body\n\ngaps");
    let weak = vec![WeakDevice { address: "d".into(), missing: vec!["bgp".into(), "lldp".into()] }];
    assert_eq!(missing_signals_text(&weak, "d"), "bgp, lldp");
    assert_eq!(missing_signals_text(&weak, "e"), "multiple signal sources");
    let msgs = vec![("assistant".to_string(), Some("first".to_string())), ("tool".to_string(), Some("x".to_string()))];
    assert_eq!(fallback_summary(&msgs), "first");
    assert_eq!(fallback_summary(&vec![]), "Investigation terminated at iteration or budget limit.");
}

// ── The MCP endpoint ─────────────────────────────────────────────────────────

#[test]
fn mcp_routes_methods_and_tools() {
    assert_eq!(mcp_method("tools/call"), McpMethod::ToolsCall);
    assert_eq!(mcp_method("bogus"), McpMethod::Unknown);
    assert_eq!(mcp_tool("query_graph"), Some(McpTool::QueryGraph));
    assert_eq!(mcp_tool("nope"), None);
    let e = unknown_tool_error("nope");
    assert_eq!((e.code, e.message.as_str()), (TOOL_ERROR_CODE, "unknown tool: nope"));
    let e = method_not_found("bogus");
    assert_eq!((e.code, e.message.as_str()), (METHOD_NOT_FOUND_CODE, "method not found: bogus"));
    assert_eq!(blast_radius_hops(None), 2);
    assert_eq!(blast_radius_hops(Some(9)), 5);
    assert_eq!(detections_limit(None), 50);
    assert_eq!(detections_limit(Some(9000)), 500);
    assert!(device_matches("", "10.0.0.1", "r1"));
    assert!(device_matches("R1", "10.0.0.1", "r1.lab"));
    assert!(!device_matches("spine", "10.0.0.1", "leaf1"));
    assert!(detection_matches("", "bgp", "", "critical", "bgp", "x"));
    assert!(!detection_matches("warn", "", "", "critical", "bgp", "x"));
    assert!(check_query_graph("MATCH (n) RETURN n").is_ok());
    assert!(check_query_graph("MATCH (n) DELETE n").is_err());
}

#[test]
fn registry_upsert_and_remove() {
    let mut reg = OutputAdapterRegistry::load(vec![]);
    let cfg = OutputAdapterConfig {
        name: "prom1".to_string(),
        adapter_type: "prometheus_remote_write".to_string(),
        enabled: true,
        endpoint_url: "http://localhost:9090/api/v1/write".to_string(),
        credential_alias: String::new(),
        flush_interval_secs: 30,
        environment_scope: vec![],
        extra: "null".to_string(),
    };
    reg.upsert(cfg);
    assert_eq!(reg.list().len(), 1);
    reg.remove("prom1");
    assert!(reg.list().is_empty());
}

#[test]
fn elastic_build_returns_none_for_wrong_adapter_type() {
    let c = adapter("es", "http://localhost");
    assert_ne!(c.adapter_type, "splunk_hec");
    assert_eq!(c.adapter_type, "elastic");
}

#[test]
fn splunk_hec_build_returns_none_for_wrong_adapter_type() {
    let mut c = adapter("hec", "http://localhost");
    c.adapter_type = "splunk_hec".to_string();
    assert_ne!(c.adapter_type, "elastic");
    assert_eq!(c.adapter_type, "splunk_hec");
}

#[test]
fn pruning_by_count_takes_exactly_the_oldest_even_on_ties() {
    let tied: Vec<(String, i64)> = (0..10).map(|i| (format!("e{i}"), 1_000)).collect();
    let mut gone = events_to_prune(&tied, 5);
    assert_eq!(gone.len(), 5);
    gone.sort();
    gone.dedup();
    assert_eq!(gone.len(), 5);

    let events = vec![
        ("c".to_string(), 30),
        ("a".to_string(), 10),
        ("d".to_string(), 40),
        ("b".to_string(), 20),
    ];
    let gone = events_to_prune(&events, 2);
    let ids: Vec<&str> = gone.iter().map(|&i| events[i].0.as_str()).collect();
    assert_eq!(ids, vec!["a", "b"]);
    assert!(events_to_prune(&events, 0).is_empty());
    assert!(events_to_prune(&events, 4).is_empty());
}

#[test]
fn rca_object_is_the_first_candidate_with_a_root_cause() {
    let s = "Summary.\n```json\n{ \"root_cause_type\": \"link\", \"device\": \"r1\" }\n```\n";
    assert_eq!(extract_rca_json(s), "{\"device\":\"r1\",\"root_cause_type\":\"link\"}");
    // A fenced block without the field is passed over; the braces then span
    // both objects, which is no JSON.
    let s = "```\n{\"a\": 1}\n``` then {\"root_cause_type\": \"cpu\"}";
    assert_eq!(extract_rca_json(s), "{}");
    assert_eq!(extract_rca_json("no json here"), "{}");
    assert_eq!(extract_rca_json("{not json}"), "{}");
    assert_eq!(extract_rca_json("x {\"root_cause_type\":null} y"), "{\"root_cause_type\":null}");
    assert_eq!(pick_rca(&vec![None, Some(Some("b".to_string())), Some(Some("c".to_string()))]), "b");
    assert_eq!(pick_rca(&vec![None, Some(None)]), "{}");
    assert_eq!(pick_rca(&vec![]), "{}");
}

#[test]
fn match_score_exact_prefix_substring() {
    assert_eq!(match_kind("spine1", "spine1").score_percent(), 100);
    assert_eq!(match_kind("spine1.dc1.example.com", "spine1").score_percent(), 80);
    assert_eq!(match_kind("dc1-spine1-router", "spine1").score_percent(), 50);
    assert_eq!(match_kind("leaf2", "spine1").score_percent(), 0);
    assert_eq!(match_kind("anything", "").score_percent(), 0);
    assert_eq!(match_kind("SPINE1", "Spine1"), MatchKind::Exact);
}
