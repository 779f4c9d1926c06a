use bonsai::remediation::{check_graduation, RollbackRegistry, RollbackState, TrustRecord, TrustState};

fn record_with(state: TrustState, consecutive: u32, approvals: u32, rejections: u32) -> TrustRecord {
    TrustRecord {
        state,
        consecutive_successes: consecutive,
        operator_approvals: approvals,
        operator_rejections: rejections,
        ..Default::default()
    }
}

#[test]
fn threshold_triggers_suggestion_for_approve_each() {
    let rec = record_with(TrustState::ApproveEach, 10, 10, 0);
    let hint = check_graduation("rule:env:site:pb", &rec, 10).unwrap();
    assert_eq!(hint.from_state, "approve_each");
    assert_eq!(hint.to_state, "auto_with_notification");
    assert_eq!(hint.consecutive_approvals, 10);
}

#[test]
fn threshold_triggers_suggestion_for_suggest_only() {
    let rec = record_with(TrustState::SuggestOnly, 10, 10, 0);
    let hint = check_graduation("key", &rec, 10).unwrap();
    assert_eq!(hint.from_state, "suggest_only");
    assert_eq!(hint.to_state, "approve_each");
}

#[test]
fn blocked_by_any_rejection() {
    let rec = record_with(TrustState::ApproveEach, 10, 10, 1);
    assert!(check_graduation("key", &rec, 10).is_none());
}

#[test]
fn blocked_by_insufficient_consecutive_successes() {
    let rec = record_with(TrustState::ApproveEach, 9, 10, 0);
    assert!(check_graduation("key", &rec, 10).is_none());
}

#[test]
fn auto_silent_and_auto_with_notification_never_graduate() {
    for state in [TrustState::AutoWithNotification, TrustState::AutoSilent] {
        let rec = record_with(state, 100, 100, 0);
        assert!(check_graduation("key", &rec, 10).is_none());
    }
}

#[test]
fn graduation_key_preserved_in_hint() {
    let rec = record_with(TrustState::ApproveEach, 10, 10, 0);
    let hint = check_graduation("bgp-flap:data_center:dc1:restore-bgp", &rec, 10).unwrap();
    assert_eq!(hint.trust_key, "bgp-flap:data_center:dc1:restore-bgp");
}

#[test]
fn graduation_reason_counts_successes() {
    let rec = record_with(TrustState::SuggestOnly, 12, 10, 0);
    let hint = check_graduation("k", &rec, 10).unwrap();
    assert_eq!(hint.reason, "12 consecutive approvals, 0 rejections — ready to graduate");
    assert!(check_graduation("k", &record_with(TrustState::SuggestOnly, 12, 9, 0), 10).is_none());
}

fn make_state(proposal_id: &str, executed_at_ns: i64, window_secs: u64) -> RollbackState {
    RollbackState {
        proposal_id: proposal_id.to_string(),
        remediation_id: format!("rem-{proposal_id}"),
        executed_at_ns,
        window_secs,
        snapshot_json: "[]".to_string(),
        rolled_back: false,
    }
}

const WINDOW: u64 = 60;
const NS: i64 = 1_000_000_000;

#[test]
fn not_expired_within_window() {
    let state = make_state("p1", 0, WINDOW);
    assert!(!state.is_expired(30 * NS));
}

#[test]
fn expired_after_window() {
    let state = make_state("p1", 0, WINDOW);
    assert!(state.is_expired(61 * NS));
}

#[test]
fn rolled_back_flag_causes_immediate_expiry() {
    let mut state = make_state("p1", 0, WINDOW);
    state.rolled_back = true;
    assert!(state.is_expired(1 * NS));
}

#[test]
fn register_and_get() {
    let mut reg = RollbackRegistry::default();
    reg.register(make_state("p1", 0, WINDOW));
    let s = reg.get("p1").unwrap();
    assert_eq!(s.proposal_id, "p1");
    assert!(reg.get("nonexistent").is_none());
}

#[test]
fn active_windows_excludes_expired() {
    let mut reg = RollbackRegistry::default();
    reg.register(make_state("fresh", 100 * NS, WINDOW));
    reg.register(make_state("expired", 0, WINDOW));
    let active = reg.active_windows(120 * NS);
    assert_eq!(active.len(), 1);
    assert_eq!(active[0].proposal_id, "fresh");
}

#[test]
fn mark_rolled_back_prevents_reuse() {
    let mut reg = RollbackRegistry::default();
    reg.register(make_state("p1", 0, WINDOW));
    reg.mark_rolled_back("p1");
    let active = reg.active_windows(1 * NS);
    assert!(active.is_empty());
}

#[test]
fn prune_removes_expired_entries() {
    let mut reg = RollbackRegistry::default();
    reg.register(make_state("old", 0, WINDOW));
    reg.register(make_state("new", 200 * NS, WINDOW));
    reg.prune(120 * NS);
    assert!(reg.get("old").is_none());
    assert!(reg.get("new").is_some());
}

#[test]
fn register_replaces_window_of_same_proposal() {
    let mut reg = RollbackRegistry::default();
    reg.register(make_state("p1", 0, WINDOW));
    reg.register(make_state("p1", 500 * NS, WINDOW));
    assert_eq!(reg.get("p1").unwrap().executed_at_ns, 500 * NS);
    assert_eq!(reg.active_windows(510 * NS).len(), 1);
}

#[test]
fn expiry_is_strictly_after_the_window() {
    let state = make_state("p1", 0, WINDOW);
    assert!(!state.is_expired(60 * NS));
    assert!(state.is_expired(60 * NS + 1));
}
