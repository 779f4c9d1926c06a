use bonsai::sidecar::{SidecarEntry, SidecarRegistry, SidecarStatus};

fn entry_at(name: &str, kind: &str, last_heartbeat_ns: u64) -> SidecarEntry {
    SidecarEntry {
        sidecar_id: format!("id-{name}"),
        name: name.into(),
        kind: kind.into(),
        version: "0.1.0".into(),
        capabilities: vec![],
        address: "localhost:50052".into(),
        registered_at_ns: 0,
        last_heartbeat_ns,
        events_in_total: 0,
        detections_out_total: 0,
        status_json: String::new(),
    }
}

#[test]
fn status_healthy_within_window() {
    let e = entry_at("a", "rules", 0);
    assert_eq!(e.status_at(10 * 1_000_000_000), SidecarStatus::Healthy);
}

#[test]
fn status_stale_after_45s() {
    let e = entry_at("a", "rules", 0);
    assert_eq!(e.status_at(60 * 1_000_000_000), SidecarStatus::Stale);
}

#[test]
fn status_lost_after_120s() {
    let e = entry_at("a", "rules", 0);
    assert_eq!(e.status_at(150 * 1_000_000_000), SidecarStatus::Lost);
}

#[test]
fn status_thresholds_are_inclusive_and_clock_skew_is_healthy() {
    let e = entry_at("a", "rules", 1_000);
    assert_eq!(e.status_at(1_000 + 45 * 1_000_000_000), SidecarStatus::Stale);
    assert_eq!(e.status_at(1_000 + 120 * 1_000_000_000), SidecarStatus::Lost);
    assert_eq!(e.status_at(0), SidecarStatus::Healthy);
}

#[test]
fn parse_required_kinds_handles_spaces_and_empties() {
    let got = SidecarRegistry::parse_required_kinds(" rules, ml-inference , ,foo ");
    assert_eq!(got, vec!["rules", "ml-inference", "foo"]);
}

#[test]
fn parse_required_kinds_empty_input() {
    assert!(SidecarRegistry::parse_required_kinds("").is_empty());
    assert!(SidecarRegistry::parse_required_kinds("   ").is_empty());
}

const SEC: u64 = 1_000_000_000;
const T0: u64 = 1_700_000_000 * SEC;

#[test]
fn register_then_heartbeat_then_snapshot() {
    let mut reg = SidecarRegistry::new(vec![], T0);
    let id = reg.register(
        "rules-alpha".into(),
        "rules".into(),
        "0.1.0".into(),
        vec!["bgp_session_down".into()],
        "localhost:50052".into(),
        "id-1".into(),
        T0,
    );
    assert!(reg.heartbeat(&id, 5, 1, "{}".into(), T0 + SEC).is_ok());
    let snap = reg.snapshot(T0 + 2 * SEC);
    assert_eq!(snap.len(), 1);
    assert_eq!(snap[0].entry.name, "rules-alpha");
    assert_eq!(snap[0].entry.events_in_total, 5);
    assert_eq!(snap[0].entry.detections_out_total, 1);
    assert_eq!(snap[0].status, SidecarStatus::Healthy);
}

#[test]
fn heartbeat_unknown_id_returns_err() {
    let mut reg = SidecarRegistry::new(vec![], T0);
    let res = reg.heartbeat("not-an-id", 0, 0, String::new(), T0);
    assert!(res.is_err());
}

#[test]
fn re_register_same_name_kind_replaces() {
    let mut reg = SidecarRegistry::new(vec![], T0);
    let id1 = reg.register(
        "rules-alpha".into(),
        "rules".into(),
        "0.1.0".into(),
        vec![],
        "localhost:50052".into(),
        "id-1".into(),
        T0,
    );
    let id2 = reg.register(
        "rules-alpha".into(),
        "rules".into(),
        "0.1.1".into(),
        vec![],
        "localhost:50052".into(),
        "id-2".into(),
        T0,
    );
    assert_ne!(id1, id2);
    let snap = reg.snapshot(T0);
    assert_eq!(snap.len(), 1);
    assert_eq!(snap[0].entry.version, "0.1.1");
    assert!(reg.heartbeat(&id1, 0, 0, String::new(), T0).is_err());
}

#[test]
fn missing_required_is_none_without_required_kinds() {
    let reg = SidecarRegistry::new(vec![], T0);
    assert!(reg.missing_required(T0 + 600 * SEC).is_none());
}

#[test]
fn missing_required_is_none_during_grace_window() {
    let reg = SidecarRegistry::new(vec!["rules".into()], T0);
    assert!(reg.missing_required(T0 + SEC).is_none());
}

#[test]
fn missing_required_lists_kinds_after_grace() {
    let started = T0 - 300 * SEC;
    let mut reg = SidecarRegistry::new(vec!["rules".into(), "ml-inference".into()], started);
    reg.register("rules-alpha".into(), "rules".into(), "0.1.0".into(), vec![], "localhost:50052".into(), "id-1".into(), T0);
    let missing = reg.missing_required(T0).expect("gate active");
    assert_eq!(missing, vec!["ml-inference".to_string()]);
}

#[test]
fn lost_sidecar_does_not_satisfy_a_required_kind() {
    let mut reg = SidecarRegistry::new(vec!["rules".into()], T0);
    reg.register("r".into(), "rules".into(), "1".into(), vec![], "a".into(), "id".into(), T0);
    assert_eq!(reg.missing_required(T0 + 100 * SEC).unwrap(), Vec::<String>::new());
    assert_eq!(reg.missing_required(T0 + 121 * SEC).unwrap(), vec!["rules".to_string()]);
}

#[test]
fn snapshot_orders_by_name_then_kind() {
    let mut reg = SidecarRegistry::new(vec![], T0);
    reg.register("b".into(), "ml".into(), "1".into(), vec![], "x".into(), "1".into(), T0);
    reg.register("a".into(), "rules".into(), "1".into(), vec![], "x".into(), "2".into(), T0);
    reg.register("a".into(), "ml".into(), "1".into(), vec![], "x".into(), "3".into(), T0);
    let snap = reg.snapshot(T0 + 50 * SEC);
    let keys: Vec<(String, String)> = snap.iter().map(|s| (s.entry.name.clone(), s.entry.kind.clone())).collect();
    assert_eq!(
        keys,
        vec![("a".into(), "ml".into()), ("a".into(), "rules".into()), ("b".into(), "ml".into())]
    );
    assert!(snap.iter().all(|s| s.status == SidecarStatus::Stale));
    assert_eq!(reg.required_kinds(), Vec::<String>::new());
}
