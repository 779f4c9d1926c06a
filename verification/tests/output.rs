use bonsai::output::adapter::{ensure_supported_adapter_type, OutputAdapterAuditLog, OutputTopic, StubAdapter};
use bonsai::output::detections::{
    bulk_body, bulk_url, em_event, hec_url, severity_passes, severity_to_ecs, severity_to_snow, EventFilter,
    PendingDetection, PushDedup, ServiceNowConfig, ServiceNowEmPusher,
};
use bonsai::output::health::{
    format_syslog_message, format_trap, HealthEvent, HealthEventType, HealthSeverity, SnmpConfig,
};

#[test]
fn critical_passes_any_min() {
    for min in ["info", "warning", "high", "critical"] {
        assert!(severity_passes("critical", min), "critical should pass min={min}");
    }
}

#[test]
fn info_blocked_by_warning_min() {
    assert!(!severity_passes("info", "warning"));
    assert!(!severity_passes("info", "high"));
    assert!(!severity_passes("info", "critical"));
}

#[test]
fn warning_passes_warning_and_below() {
    assert!(severity_passes("warning", "info"));
    assert!(severity_passes("warning", "warning"));
    assert!(!severity_passes("warning", "high"));
}

#[test]
fn high_passes_high_and_below() {
    assert!(severity_passes("high", "info"));
    assert!(severity_passes("high", "warning"));
    assert!(severity_passes("high", "high"));
    assert!(!severity_passes("high", "critical"));
}

#[test]
fn unknown_severity_treated_as_info() {
    assert!(severity_passes("unknown_severity", "info"));
    assert!(!severity_passes("unknown_severity", "warning"));
}

#[test]
fn severity_mapping_matches_snow_codes() {
    assert_eq!(severity_to_snow("critical"), "1");
    assert_eq!(severity_to_snow("high"), "2");
    assert_eq!(severity_to_snow("warning"), "3");
    assert_eq!(severity_to_snow("info"), "5");
    assert_eq!(severity_to_snow("anything_else"), "5");
}

#[test]
fn severity_ecs_mapping() {
    assert_eq!(severity_to_ecs("critical"), 1);
    assert_eq!(severity_to_ecs("high"), 2);
    assert_eq!(severity_to_ecs("warning"), 2);
    assert_eq!(severity_to_ecs("info"), 3);
    assert_eq!(severity_to_ecs("unknown"), 3);
}

#[test]
fn bulk_ndjson_ends_with_newline() {
    let lines = vec!["action".to_string(), "doc".to_string()];
    let body = bulk_body(&lines);
    assert!(body.ends_with('\n'), "Elastic bulk body must end with newline");
    assert_eq!(body, "action\ndoc\n");
}

#[test]
fn bulk_url_uses_default_index() {
    let extra = serde_json::Value::Null;
    let index = extra.get("index").and_then(|v| v.as_str()).unwrap_or("bonsai-detections");
    let url = bulk_url("https://elastic.example.com:9200", index);
    assert_eq!(url, "https://elastic.example.com:9200/bonsai-detections/_bulk");
}

#[test]
fn bulk_url_uses_custom_index() {
    let mut map = serde_json::Map::new();
    map.insert("index".to_string(), serde_json::Value::String("network-events".to_string()));
    let extra = serde_json::Value::Object(map);
    let index = extra.get("index").and_then(|v| v.as_str()).unwrap_or("bonsai-detections");
    let url = bulk_url("https://elastic.example.com:9200", index);
    assert_eq!(url, "https://elastic.example.com:9200/network-events/_bulk");
}

#[test]
fn hec_url_strips_trailing_slash() {
    assert_eq!(
        hec_url("https://splunk.example.com:8088/"),
        "https://splunk.example.com:8088/services/collector/event"
    );
    assert_eq!(hec_url("http://h//"), "http://h/services/collector/event");
}

#[test]
fn dedup_suppresses_same_device_rule_within_window() {
    let mut dedup = PushDedup::new();
    let now = 1_000_000_000_000i64;
    let window_ns = 300 * 1_000_000_000i64;
    dedup.mark_pushed("det-0", "10.0.0.1", "bgp_down", now - 10_000_000_000);
    assert!(
        !dedup.is_fresh("det-1", "10.0.0.1", "bgp_down", now, window_ns),
        "event within dedup window should be suppressed"
    );
    assert!(dedup.is_fresh("det-1", "10.0.0.1", "bgp_down", now + window_ns, window_ns));
    assert!(!dedup.is_fresh("det-0", "10.0.0.9", "other", now, window_ns));
    assert!(dedup.is_fresh("det-2", "10.0.0.2", "bgp_down", now, window_ns));
}

fn config(min: &str) -> ServiceNowConfig {
    ServiceNowConfig {
        enabled: true,
        em_push_enabled: true,
        instance_url: "https://x.service-now.com/".to_string(),
        credential_alias: "snow".to_string(),
        event_filter: EventFilter { min_severity: min.to_string(), min_age_secs: 30, dedup_window_secs: 300 },
    }
}

fn pending(id: &str, sev: &str, fired: i64) -> PendingDetection {
    PendingDetection {
        id: id.to_string(),
        device_address: "10.0.0.1".to_string(),
        hostname: String::new(),
        rule_id: "bgp_down".to_string(),
        severity: sev.to_string(),
        fired_at_ns: fired,
    }
}

#[test]
fn em_pusher_filters_by_severity_age_and_dedup() {
    let s = 1_000_000_000i64;
    let mut p = ServiceNowEmPusher::new(config("warning"));
    let now = 1000 * s;
    assert!(!p.should_push(&pending("a", "info", 0), now));
    assert!(!p.should_push(&pending("a", "critical", now - 10 * s), now));
    let d = pending("a", "critical", now - 60 * s);
    assert!(p.should_push(&d, now));
    p.record_push(&d, now);
    assert!(!p.should_push(&d, now + 1000 * s));
    assert!(!p.should_push(&pending("b", "critical", now - 60 * s), now + 100 * s));
    assert!(p.should_push(&pending("b", "critical", now - 60 * s), now + 300 * s));
}

#[test]
fn em_event_names_hostname_or_address() {
    let e = em_event(&pending("x1", "high", 0));
    assert_eq!(e.node, "10.0.0.1");
    assert_eq!(e.severity, "2");
    assert_eq!(e.description, "Bonsai detection: bgp_down on 10.0.0.1");
    assert_eq!(e.message_key, "bonsai:x1");
    let mut d = pending("x2", "critical", 0);
    d.hostname = "leaf1".to_string();
    assert_eq!(em_event(&d).node, "leaf1");
}

#[test]
fn stub_adapter_compiles() {
    let adapter = StubAdapter { name: "test".to_string() };
    assert_eq!(adapter.name(), "test");
    assert_eq!(adapter.topics(), &[OutputTopic::RawTelemetry]);
    assert!(adapter.applies_to_environments().is_empty());
}

#[test]
fn audit_log_entries_carry_outcome() {
    let log = OutputAdapterAuditLog::new("/var/lib/bonsai", "prom1");
    let ok = log.log_push(3, 120, None, 42);
    assert_eq!(ok.outcome, "success");
    assert_eq!(ok.adapter_name, "prom1");
    assert_eq!(ok.events_pushed, 3);
    let err = log.log_push(0, 0, Some("boom"), 43);
    assert_eq!(err.outcome, "error");
    assert_eq!(err.error.as_deref(), Some("boom"));
    let cred = log.log_credential_resolve("alias", "ok", None, 44);
    assert_eq!(cred.purpose, "adapter_push");
    assert_eq!(cred.alias, "alias");
}

#[test]
fn adapter_types_are_checked() {
    assert!(ensure_supported_adapter_type("elastic").is_ok());
    assert!(ensure_supported_adapter_type("splunk_hec").is_ok());
    assert_eq!(ensure_supported_adapter_type("kafka").unwrap_err(), "unknown adapter type 'kafka'");
}

#[test]
fn health_events_format_as_trap_and_syslog() {
    let event = HealthEvent {
        event_type: HealthEventType::SidecarLost,
        severity: HealthSeverity::Critical,
        component: "sidecar".to_string(),
        message: "rules-alpha lost".to_string(),
        metadata: vec![("kind".to_string(), "rules".to_string()), ("age".to_string(), "130s".to_string())],
    };
    let trap = format_trap(&SnmpConfig::default(), &event);
    assert_eq!(
        trap,
        "SNMPv2c Trap: target=127.0.0.1, community=public, oid=1.3.6.1.4.1.9999.3.3, severity=5, component=sidecar, message=rules-alpha lost"
    );
    let line = format_syslog_message(&event);
    assert_eq!(line, "<130>bonsai_sidecar_lost sidecar: rules-alpha lost - kind=rules age=130s");
}

#[test]
fn em_push_cycle_posts_once_per_pair_and_remembers_only_successes() {
    let s = 1_000_000_000i64;
    let now = 1000 * s;
    let mut p = ServiceNowEmPusher::new(config("warning"));
    let mut other = pending("c", "critical", now - 60 * s);
    other.device_address = "10.0.0.2".to_string();
    let dets = vec![
        pending("a", "critical", now - 60 * s),
        pending("b", "critical", now - 60 * s),
        other,
        pending("d", "info", now - 60 * s),
    ];
    // The caller's loop: post each detection named, remember it when it went out.
    let mut posted = Vec::new();
    let mut from = 0;
    while let Some(k) = p.next_to_push(&dets, from, now) {
        posted.push(dets[k].id.clone());
        if dets[k].id != "c" {
            p.record_push(&dets[k], now);
        }
        from = k + 1;
    }
    assert_eq!(posted, vec!["a".to_string(), "c".to_string()]);
    // "c" failed and was not remembered: it is tried again.
    assert!(p.should_push(&dets[2], now + s));
    assert!(!p.should_push(&dets[0], now + 1000 * s));
    assert_eq!(p.next_to_push(&dets, 4, now), None);
}
