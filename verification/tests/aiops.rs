use bonsai::aiops::{
    build_incident_description, format_root_cause_hint, group_detections, group_incidents, incident_payload, parse_incident_id,
    parse_playbook_commands, severity_to_impact, severity_to_urgency, BlastRadiusResult, DetectionSnapshot,
    DeviceRef, IncidentCandidate,
};

#[test]
fn playbook_commands_are_parsed_from_comments_and_notes() {
    let cmds = parse_playbook_commands(
        "please review\nbonsai:playbook bgp_restart\nignored",
        "Bonsai:playbook   interface_bounce\nbonsai:playbook bgp_restart",
    );
    assert_eq!(cmds, vec!["bgp_restart".to_string(), "interface_bounce".to_string()]);
}

#[test]
fn incident_id_round_trips_from_short_description() {
    let id = parse_incident_id("[Bonsai incident det-123] critical bgp on leaf1");
    assert_eq!(id.as_deref(), Some("det-123"));
}

fn candidate() -> IncidentCandidate {
    IncidentCandidate {
        id: "det-1".to_string(),
        root_detection_id: "det-1".to_string(),
        root_device_address: "10.0.0.1".to_string(),
        root_hostname: "leaf1".to_string(),
        root_rule_id: "bgp_session_down".to_string(),
        severity: "critical".to_string(),
        affected_devices: vec!["10.0.0.1".to_string(), "10.0.0.2".to_string()],
        correlated_rules: vec!["bgp_session_down".to_string(), "bfd_session_down".to_string()],
        remediation_status: "none".to_string(),
        assignment_group: String::new(),
        started_at_ns: 1,
        ended_at_ns: 2,
        root_cause_hint: "2 reachable devices".to_string(),
    }
}

#[test]
fn incident_description_contains_operator_bridge_hint() {
    let description = build_incident_description(&candidate());
    assert!(description.contains("bgp_session_down"));
    assert!(description.contains("bonsai:playbook <playbook_id>"));
    assert!(description.contains("2 reachable devices"));
}

#[test]
fn root_cause_hint_formats_available_context() {
    let blast = BlastRadiusResult {
        origin_address: "10.0.0.1".to_string(),
        origin_hostname: "leaf1".to_string(),
        site_name: "dc1".to_string(),
        env_name: "data_center".to_string(),
        reachable_devices: vec![DeviceRef {
            address: "10.0.0.2".to_string(),
            hostname: "spine1".to_string(),
            vendor: "nokia".to_string(),
        }],
        direct_apps: vec!["svc-a".to_string()],
        neighbor_apps: vec!["svc-b".to_string()],
        active_detections: vec!["10.0.0.2:bgp_session_down".to_string()],
    };
    let hint = format_root_cause_hint(&blast);
    assert!(hint.contains("1 reachable devices"));
    assert!(hint.contains("1 direct / 1 adjacent"));
    assert!(hint.contains("bgp_session_down"));
}

#[test]
fn root_cause_hint_without_context_uses_fixed_sentence() {
    let blast = BlastRadiusResult {
        origin_address: String::new(),
        origin_hostname: String::new(),
        site_name: String::new(),
        env_name: String::new(),
        reachable_devices: vec![],
        direct_apps: vec![],
        neighbor_apps: vec![],
        active_detections: vec![],
    };
    assert_eq!(format_root_cause_hint(&blast), "No additional blast-radius context available yet.");
}

#[test]
fn root_cause_hint_joins_parts_with_semicolons() {
    let blast = BlastRadiusResult {
        origin_address: String::new(),
        origin_hostname: String::new(),
        site_name: String::new(),
        env_name: String::new(),
        reachable_devices: vec![],
        direct_apps: vec![],
        neighbor_apps: vec!["a".to_string(), "b".to_string()],
        active_detections: vec!["x".to_string(), "y".to_string()],
    };
    assert_eq!(
        format_root_cause_hint(&blast),
        "applications in blast radius: 0 direct / 2 adjacent; related detections: x, y"
    );
}

#[test]
fn incident_description_is_exact() {
    let d = build_incident_description(&candidate());
    assert_eq!(
        d,
        "Bonsai correlated detection `bgp_session_down` as the root cause.\n\
Affected devices: 10.0.0.1, 10.0.0.2\n\
Correlated rules: bgp_session_down, bfd_session_down\n\
Remediation status: none\n\
Incident window: 1 → 2\n\
Blast radius hint: 2 reachable devices\n\
To request a Bonsai playbook proposal from ServiceNow, add a comment or work note with `bonsai:playbook <playbook_id>`."
    );
}

#[test]
fn incident_id_needs_prefix_and_closing_bracket() {
    assert_eq!(parse_incident_id("Bonsai incident det-1] x"), None);
    assert_eq!(parse_incident_id("[Bonsai incident det-1 no bracket"), None);
    assert_eq!(parse_incident_id("[Bonsai incident ] empty").as_deref(), Some(""));
}

#[test]
fn payload_short_description_round_trips() {
    let c = candidate();
    let p = incident_payload(&c, "1", "");
    assert_eq!(p.short_description, "[Bonsai incident det-1] critical bgp_session_down on leaf1");
    assert_eq!(parse_incident_id(&p.short_description).as_deref(), Some("det-1"));
    assert_eq!(p.impact, "1");
    assert_eq!(p.urgency, "1");
    assert_eq!(p.category, "network");
    assert_eq!(p.subcategory, "aiops");
    assert_eq!(p.assignment_group, None);
}

#[test]
fn payload_assignment_group_falls_back() {
    let mut c = candidate();
    c.root_hostname = "  ".to_string();
    let p = incident_payload(&c, "1", "noc");
    assert_eq!(p.assignment_group.as_deref(), Some("noc"));
    assert!(p.short_description.ends_with("on 10.0.0.1"));
    c.assignment_group = "net-ops".to_string();
    let p = incident_payload(&c, "1", "noc");
    assert_eq!(p.assignment_group.as_deref(), Some("net-ops"));
}

#[test]
fn severity_maps_to_impact_and_urgency() {
    assert_eq!(severity_to_impact("critical"), "1");
    assert_eq!(severity_to_impact("high"), "2");
    assert_eq!(severity_to_impact("warn"), "2");
    assert_eq!(severity_to_impact("info"), "3");
    assert_eq!(severity_to_urgency("critical"), "1");
    assert_eq!(severity_to_urgency("high"), "1");
    assert_eq!(severity_to_urgency("warning"), "2");
    assert_eq!(severity_to_urgency("other"), "3");
}

#[test]
fn playbook_commands_accept_colons_and_drop_empty() {
    let cmds = parse_playbook_commands("  BONSAI:PLAYBOOK: Restart_Now extra\nbonsai:playbook", "bonsai:playbook ::");
    assert_eq!(cmds, vec!["Restart_Now".to_string()]);
}

fn det(id: &str, dev: &str, rule: &str, sev: &str, t: i64, status: &str) -> DetectionSnapshot {
    DetectionSnapshot {
        id: id.to_string(),
        device_address: dev.to_string(),
        hostname: format!("h-{dev}"),
        rule_id: rule.to_string(),
        severity: sev.to_string(),
        fired_at_ns: t,
        remediation_status: status.to_string(),
        assignment_group: String::new(),
    }
}

#[test]
fn detections_within_window_form_one_incident_rooted_at_best_connected_device() {
    let s = 1_000_000_000i64;
    let dets = vec![
        det("d3", "10.0.0.3", "bgp_session_down", "warning", 20 * s, "running"),
        det("d1", "10.0.0.1", "interface_down", "critical", 10 * s, ""),
        det("d2", "10.0.0.2", "bfd_session_down", "high", 15 * s, ""),
        det("d4", "10.0.0.4", "interface_down", "info", 500 * s, ""),
    ];
    let degree = vec![("10.0.0.2".to_string(), 5usize), ("10.0.0.1".to_string(), 2usize)];
    let out = group_incidents(dets, 60, &degree);
    assert_eq!(out.len(), 2);
    let first = &out[0];
    assert_eq!(first.id, "d2");
    assert_eq!(first.root_device_address, "10.0.0.2");
    assert_eq!(first.severity, "critical");
    assert_eq!(first.affected_devices, vec!["10.0.0.1", "10.0.0.2", "10.0.0.3"]);
    assert_eq!(first.correlated_rules, vec!["bfd_session_down", "bgp_session_down", "interface_down"]);
    assert_eq!(first.remediation_status, "running");
    assert_eq!(first.started_at_ns, 15 * s);
    assert_eq!(first.ended_at_ns, 20 * s);
    assert_eq!(first.root_cause_hint, "");
    let second = &out[1];
    assert_eq!(second.id, "d4");
    assert_eq!(second.remediation_status, "none");
    assert_eq!(second.ended_at_ns, 500 * s);
}

#[test]
fn equal_degree_root_is_the_earliest_detection() {
    let s = 1_000_000_000i64;
    let dets = vec![
        det("late", "10.0.0.9", "r", "info", 30 * s, ""),
        det("early", "10.0.0.8", "r", "info", 10 * s, ""),
    ];
    let out = group_incidents(dets, 60, &vec![]);
    assert_eq!(out.len(), 1);
    assert_eq!(out[0].id, "early");
    assert_eq!(out[0].ended_at_ns, 30 * s);
}

#[test]
fn empty_input_gives_no_incidents() {
    assert!(group_incidents(vec![], 60, &vec![]).is_empty());
    let none = group_detections(vec![], 60, &vec![], |_a: &str| -> Result<String, String> { Err("unused".to_string()) });
    assert!(none.unwrap().is_empty());
}

#[test]
fn incidents_take_the_hint_of_their_root_device() {
    let s = 1_000_000_000i64;
    let dets = vec![
        det("a", "10.0.0.1", "bgp_session_down", "warning", 0, ""),
        det("b", "10.0.0.2", "interface_down", "critical", 6 * s, ""),
        det("c", "10.0.0.3", "bfd_session_down", "info", 12 * s, ""),
    ];
    let out = group_detections(dets, 10, &vec![], |a: &str| -> Result<String, String> { Ok(format!("h:{a}")) }).unwrap();
    assert_eq!(out.len(), 2);
    assert_eq!(out[0].id, "a");
    assert_eq!(out[0].affected_devices, vec!["10.0.0.1", "10.0.0.2"]);
    assert_eq!(out[0].correlated_rules, vec!["bgp_session_down", "interface_down"]);
    assert_eq!(out[0].severity, "critical");
    assert_eq!((out[0].started_at_ns, out[0].ended_at_ns), (0, 6 * s));
    assert_eq!(out[0].root_cause_hint, "h:10.0.0.1");
    assert_eq!(out[1].id, "c");
    assert_eq!(out[1].affected_devices, vec!["10.0.0.3"]);
    assert_eq!(out[1].severity, "info");
    assert_eq!(out[1].root_cause_hint, "h:10.0.0.3");
}

#[test]
fn best_connected_root_gives_the_hint_and_the_first_failure_stops() {
    let s = 1_000_000_000i64;
    let dets = vec![
        det("a", "10.0.0.1", "bgp_session_down", "warning", 0, ""),
        det("b", "10.0.0.2", "bfd_session_down", "critical", 5 * s, ""),
    ];
    let degree = vec![("10.0.0.2".to_string(), 3usize)];
    let out = group_detections(dets, 10, &degree, |a: &str| -> Result<String, String> { Ok(a.to_string()) }).unwrap();
    assert_eq!(out.len(), 1);
    assert_eq!(out[0].id, "b");
    assert_eq!(out[0].root_detection_id, "b");
    assert_eq!(out[0].root_rule_id, "bfd_session_down");
    assert_eq!(out[0].started_at_ns, 5 * s);
    assert_eq!(out[0].affected_devices, vec!["10.0.0.1", "10.0.0.2"]);
    assert_eq!(out[0].root_cause_hint, "10.0.0.2");

    let calls = std::cell::Cell::new(0);
    let dets = vec![det("x", "10.0.0.1", "r", "info", 0, ""), det("y", "10.0.0.2", "r", "info", 500 * s, "")];
    let failed = group_detections(dets, 10, &vec![], |a: &str| -> Result<String, String> {
        calls.set(calls.get() + 1);
        Err(format!("no graph for {a}"))
    });
    assert_eq!(failed.err(), Some("no graph for 10.0.0.1".to_string()));
    assert_eq!(calls.get(), 1);
}
