use bonsai::shun::{ShunAction, ShunEngine, ShunMatchType, ShunOutcome, ShunRule, ShunScope, TokenBucket};

fn rule(match_type: &str, match_value: &str, action: &str, rate: i64) -> ShunRule {
    ShunRule {
        id: format!("rule-{match_type}-{match_value}"),
        scope_type: "global".to_string(),
        scope_value: String::new(),
        match_type: match_type.to_string(),
        match_value: match_value.to_string(),
        action: action.to_string(),
        rate_limit_per_min: rate,
        expires_at_ns: 0,
        created_by: "test".to_string(),
        created_at_ns: 0,
        enabled: true,
    }
}

const NOW: i64 = 1_700_000_000_000_000_000;

#[test]
fn drop_rule_blocks_matching_message() {
    let mut engine = ShunEngine::new();
    engine.reload(vec![rule("substring", "LICC: License", "drop", 0)], NOW);
    let outcome = engine.evaluate("10.0.0.1", "LICC: License warning", &[], NOW);
    assert!(matches!(outcome, ShunOutcome::Dropped { .. }));
}

#[test]
fn drop_rule_passes_non_matching() {
    let mut engine = ShunEngine::new();
    engine.reload(vec![rule("substring", "LICC: License", "drop", 0)], NOW);
    let outcome = engine.evaluate("10.0.0.1", "BGP session established", &[], NOW);
    assert_eq!(outcome, ShunOutcome::Pass);
}

#[test]
fn regex_rule_matches() {
    let mut engine = ShunEngine::new();
    engine.reload(vec![rule("regex", r"%SYS-5-CONFIG_I.*console", "drop", 0)], NOW);
    let outcome = engine.evaluate("10.0.0.1", "%SYS-5-CONFIG_I: Configured from console", &[], NOW);
    assert!(matches!(outcome, ShunOutcome::Dropped { .. }));
}

#[test]
fn rate_limit_allows_first_then_blocks() {
    let mut engine = ShunEngine::new();
    engine.reload(vec![rule("substring", "noise", "rate_limit", 1)], NOW);
    let first = engine.evaluate("10.0.0.1", "noise message", &[], NOW);
    let second = engine.evaluate("10.0.0.1", "noise message", &[], NOW);
    assert_eq!(first, ShunOutcome::Pass);
    assert!(matches!(second, ShunOutcome::RateLimited { .. }));
}

#[test]
fn device_scope_only_matches_target_device() {
    let mut engine = ShunEngine::new();
    let mut r = rule("substring", "noise", "drop", 0);
    r.scope_type = "device".to_string();
    r.scope_value = "10.0.0.1".to_string();
    engine.reload(vec![r], NOW);
    assert!(matches!(engine.evaluate("10.0.0.1", "noise", &[], NOW), ShunOutcome::Dropped { .. }));
    assert_eq!(engine.evaluate("10.0.0.2", "noise", &[], NOW), ShunOutcome::Pass);
}

#[test]
fn fact_type_rule_matches() {
    let mut engine = ShunEngine::new();
    engine.reload(vec![rule("fact_type", "license_warning", "drop", 0)], NOW);
    let outcome = engine.evaluate("10.0.0.1", "anything", &["license_warning"], NOW);
    assert!(matches!(outcome, ShunOutcome::Dropped { .. }));
}

#[test]
fn disabled_rule_is_skipped() {
    let mut engine = ShunEngine::new();
    let mut r = rule("substring", "noise", "drop", 0);
    r.enabled = false;
    engine.reload(vec![r], NOW);
    assert_eq!(engine.evaluate("10.0.0.1", "noise message", &[], NOW), ShunOutcome::Pass);
}

#[test]
fn expired_rule_is_skipped_and_bad_regex_ignored() {
    let mut engine = ShunEngine::new();
    let mut r = rule("substring", "noise", "drop", 0);
    r.expires_at_ns = NOW - 1;
    engine.reload(vec![r, rule("regex", "(unclosed", "drop", 0)], NOW);
    assert_eq!(engine.evaluate("10.0.0.1", "noise (unclosed", &[], NOW), ShunOutcome::Pass);
}

#[test]
fn rate_limit_refills_after_a_minute() {
    let mut engine = ShunEngine::new();
    engine.reload(vec![rule("substring", "noise", "rate_limit", 1)], NOW);
    assert_eq!(engine.evaluate("d", "noise", &[], NOW), ShunOutcome::Pass);
    assert!(matches!(engine.evaluate("d", "noise", &[], NOW + 1), ShunOutcome::RateLimited { .. }));
    assert_eq!(engine.evaluate("d", "noise", &[], NOW + 61_000_000_000), ShunOutcome::Pass);
}

#[test]
fn shunned_events_are_counted_per_rule() {
    let mut engine = ShunEngine::new();
    engine.reload(vec![rule("substring", "x", "drop", 0)], NOW);
    engine.evaluate("d", "x", &[], NOW);
    engine.evaluate("d", "x", &[], NOW);
    let stats = engine.stats();
    assert_eq!(stats, vec![("rule-substring-x".to_string(), 2u64)]);
}

#[test]
fn names_parse_case_insensitively() {
    assert_eq!(ShunScope::from_str(" Device "), ShunScope::Device);
    assert_eq!(ShunMatchType::from_str("REGEX"), ShunMatchType::Regex);
    assert_eq!(ShunAction::from_str("rate_limit"), ShunAction::RateLimit);
    assert_eq!(ShunAction::Drop.as_str(), "drop");
}

#[test]
fn token_bucket_passes_its_allowance_per_minute() {
    let mut b = TokenBucket::new(2, 0);
    assert!(b.try_consume(1));
    assert!(b.try_consume(2));
    assert!(!b.try_consume(3));
    assert!(!b.try_consume(59_999_999_999));
    assert!(b.try_consume(60_000_000_000));
    assert_eq!(b.tokens, 1);
    assert_eq!(b.last_refill_ns, 60_000_000_000);
}
