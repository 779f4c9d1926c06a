use bonsai::security::database::{audit_cutoff_ns, audit_id, violation_id, violation_statement, DatabaseSecurityConfig, DatabaseSecurityEvent, DatabaseSecurityManager, DbValue};
use bonsai::security::incident::{IncidentResponseConfig, IncidentSeverity, IncidentStatus, WorkflowAction};
use bonsai::security::mfa::{generate_message_code, MfaError, MfaManager};
use bonsai::security::session::{new_session_claims, SessionError, SessionManager};
use bonsai::security::settings::{
    IndicatorType, MfaConfig, MfaMethod, SessionClaims, SessionConfig, ThreatIntelConfig, ThreatSeverity,
    UserMfaSettings,
};
use bonsai::security::status::SecurityComponents;
use bonsai::security::threat::{
    convert_to_indicator, csv_indicator, indicator_type_named, parse_csv_threat_data, threat_severity_named,
    update_outcome, ThreatIndicatorData, ThreatIntelManager,
};
use bonsai::security::workflow::{
    action_success_message, default_templates, IncidentResponseManager, WorkflowError,
};

const SEC: u64 = 1_000_000_000;
const HOUR: u64 = 3600 * SEC;

fn params(pairs: &[(&str, &str)]) -> Vec<(String, String)> {
    pairs.iter().map(|(k, v)| (k.to_string(), v.to_string())).collect()
}

// ── Incident response workflows ─────────────────────────────────────────────

#[test]
fn default_templates_are_the_three_responses() {
    let t = default_templates();
    let ids: Vec<&str> = t.iter().map(|x| x.id.as_str()).collect();
    assert_eq!(ids, vec!["malicious_ip_detected", "security_incident_detected", "device_compromise_detected"]);
    assert!(!t[0].approval_required);
    assert!(t[1].approval_required);
    assert!(t[2].approval_required);
    assert_eq!(t[0].timeout_minutes, 30);
    assert_eq!(t[1].timeout_minutes, 60);
    assert_eq!(t[2].timeout_minutes, 15);
    assert_eq!(t[0].actions.len(), 4);
    assert_eq!(t[1].actions.len(), 3);
    assert_eq!(t[2].actions.len(), 4);
}

#[test]
fn workflow_fills_parameters_and_waits_for_nothing() {
    let mut config = IncidentResponseConfig::default();
    config.auto_response_enabled = true;
    let mut m = IncidentResponseManager::new(config);
    let id = m
        .create_workflow("inc1", "malicious_ip_detected", &params(&[("ip", "10.0.0.9")]), IncidentSeverity::Medium, "u1", 5)
        .unwrap();
    assert_eq!(id, "workflow-inc1-u1");
    let w = m.get_workflow(&id).unwrap();
    assert_eq!(w.status, IncidentStatus::InProgress);
    assert_eq!(w.started_at, Some(5));
    match &w.actions[1] {
        WorkflowAction::BlockIp { ip, duration_hours, .. } => {
            assert_eq!(ip, "10.0.0.9");
            assert_eq!(*duration_hours, 24);
        }
        _ => panic!("second action blocks the address"),
    }
    assert_eq!(action_success_message(&w.actions[1]), "IP 10.0.0.9 blocked successfully");
}

#[test]
fn critical_workflow_waits_for_approval_then_runs() {
    let mut m = IncidentResponseManager::new(IncidentResponseConfig::default());
    let id = m
        .create_workflow("inc2", "malicious_ip_detected", &Vec::new(), IncidentSeverity::Critical, "u", 1)
        .unwrap();
    assert_eq!(m.get_workflow(&id).unwrap().status, IncidentStatus::PendingApproval);
    assert_eq!(m.start_workflow(&id, 2), Err(WorkflowError::NotStartable(IncidentStatus::PendingApproval)));
    assert_eq!(m.approve_workflow(&id, "alice", 3), Ok(()));
    let w = m.get_workflow(&id).unwrap();
    assert_eq!(w.status, IncidentStatus::InProgress);
    assert_eq!(w.approved_by.as_deref(), Some("alice"));
    assert_eq!(w.approved_at, Some(3));
    assert_eq!(m.approve_workflow(&id, "bob", 4), Err(WorkflowError::NotPendingApproval));
}

#[test]
fn unknown_template_and_workflow_are_refused() {
    let mut m = IncidentResponseManager::new(IncidentResponseConfig::default());
    assert_eq!(
        m.create_workflow("i", "nope", &Vec::new(), IncidentSeverity::Low, "u", 1),
        Err(WorkflowError::TemplateNotFound)
    );
    assert_eq!(m.start_workflow("missing", 1), Err(WorkflowError::WorkflowNotFound));
    assert_eq!(m.get_active_workflows_count(), 0);
}

#[test]
fn failed_action_resets_and_is_recorded() {
    let mut m = IncidentResponseManager::new(IncidentResponseConfig::default());
    let id = m
        .create_workflow("inc3", "malicious_ip_detected", &Vec::new(), IncidentSeverity::Low, "u", 1)
        .unwrap();
    assert_eq!(m.get_workflow(&id).unwrap().status, IncidentStatus::New);
    assert!(m.record_action_result(&id, 0, Ok("Event logged successfully".into()), 2, 1, 2));
    assert!(!m.record_action_result(&id, 1, Err("firewall down".into()), 3, 1, 3));
    let w = m.get_workflow(&id).unwrap();
    assert_eq!(w.status, IncidentStatus::New);
    assert_eq!(w.error_message.as_deref(), Some("firewall down"));
    m.complete_workflow(&id, 4);
    assert_eq!(m.get_workflow(&id).unwrap().status, IncidentStatus::Resolved);
    let h = m.get_workflow_history(&id);
    assert_eq!(h.len(), 2);
    let stats = m.get_incident_response_stats();
    assert_eq!(stats.total_executed_actions, 2);
    assert_eq!(stats.successful_actions, 1);
    assert_eq!(stats.failed_actions, 1);
    assert_eq!(stats.workflows_by_status, vec![(IncidentStatus::Resolved, 1)]);
    assert_eq!(stats.workflows_by_severity, vec![(IncidentSeverity::Low, 1)]);
}

// ── Sessions ─────────────────────────────────────────────────────────────────

fn session_config(max: usize) -> SessionConfig {
    let mut c = SessionConfig::default();
    c.max_sessions_per_user = max;
    c
}

fn claims_for(jti: &str, sub: &str, typ: &str) -> SessionClaims {
    SessionClaims {
        sub: sub.into(),
        role: "operator".into(),
        jti: jti.into(),
        iat: 0,
        exp: 0,
        nbf: 0,
        iss: "bonsai".into(),
        aud: "bonsai-users".into(),
        ua: None,
        ip: None,
        typ: typ.into(),
    }
}

#[test]
fn session_claims_carry_expiry_and_refresh_name() {
    let (access, refresh) = new_session_claims(&SessionConfig::default(), "s1", "alice", "admin", 1000, &None, &None);
    assert_eq!(access.jti, "s1");
    assert_eq!(access.exp, 1000 + 24 * 3600);
    assert_eq!(access.typ, "access");
    assert_eq!(refresh.jti, "refresh-s1");
    assert_eq!(refresh.exp, 1000 + 168 * 3600);
    assert_eq!(refresh.iss, "bonsai");
    assert_eq!(refresh.aud, "bonsai-users");
}

#[test]
fn oldest_session_is_dropped_at_the_limit() {
    let mut m = SessionManager::new(session_config(2));
    assert_eq!(m.register_session("a", "alice", "r", None, None, 10), None);
    assert_eq!(m.register_session("b", "alice", "r", None, None, 20), None);
    assert_eq!(m.register_session("c", "alice", "r", None, None, 30), Some("a".to_string()));
    assert!(m.get_session_info("a").is_none());
    assert_eq!(m.get_user_sessions("alice").len(), 2);
    assert_eq!(m.get_session_info("c").unwrap().expires_at, 30 + 24 * HOUR);
}

#[test]
fn revoked_session_is_refused() {
    let mut m = SessionManager::new(session_config(5));
    m.register_session("s1", "alice", "r", None, None, 10);
    assert_eq!(m.validate_session(&claims_for("s1", "alice", "access"), 11), Ok(()));
    assert_eq!(m.get_session_info("s1").unwrap().last_activity, 11);
    m.revoke_session("s1", "alice", "logout", 12);
    assert!(m.is_token_revoked("s1"));
    assert_eq!(m.validate_session(&claims_for("s1", "alice", "access"), 13), Err(SessionError::Revoked));
    assert_eq!(m.get_active_session_count(), 0);
}

#[test]
fn refresh_needs_a_live_refresh_token() {
    let mut m = SessionManager::new(session_config(5));
    m.register_session("s1", "alice", "r", None, None, 10);
    assert!(matches!(
        m.refresh_session(&claims_for("s1", "alice", "access"), "n", 100, 11),
        Err(SessionError::NotARefreshToken)
    ));
    let c = m.refresh_session(&claims_for("refresh-s1", "alice", "refresh"), "n2", 100, 12).unwrap();
    assert_eq!(c.jti, "n2");
    assert_eq!(c.typ, "access");
    assert_eq!(c.exp, 100 + 24 * 3600);
}

#[test]
fn revoke_all_and_idle_cleanup() {
    let mut m = SessionManager::new(session_config(5));
    m.register_session("a", "alice", "r", None, None, 10);
    m.register_session("b", "alice", "r", None, None, 10);
    m.register_session("c", "bob", "r", None, None, 10);
    assert_eq!(m.revoke_all_user_sessions("alice", "reset", 20), 2);
    assert_eq!(m.get_active_session_count(), 1);
    let later = 10 + 9 * HOUR;
    assert_eq!(m.get_session_stats(later).idle_sessions, 1);
    m.cleanup_expired(later);
    assert_eq!(m.get_active_session_count(), 0);
    assert_eq!(m.revoked_tokens.iter().find(|t| t.jti == "c").unwrap().reason, "idle_timeout");
    m.cleanup_expired(10 + 25 * HOUR);
    assert!(m.active_sessions.is_empty());
    assert!(m.revoked_tokens.is_empty());
}

// ── Threat intelligence ──────────────────────────────────────────────────────

#[test]
fn csv_feed_skips_header_and_unknown_types() {
    let csv = "type,value,severity\nip,1.2.3.4,HIGH\nfoo,bar\ndomain,evil.test\nurl\n";
    let p = parse_csv_threat_data(csv);
    assert_eq!(p.len(), 2);
    assert_eq!(p[0].indicator_type, IndicatorType::IpAddress);
    assert_eq!(p[0].value, "1.2.3.4");
    assert_eq!(p[0].severity, ThreatSeverity::High);
    assert_eq!(p[1].indicator_type, IndicatorType::Domain);
    assert_eq!(p[1].severity, ThreatSeverity::Medium);
}

#[test]
fn feed_names_map_to_types_and_severities() {
    assert_eq!(indicator_type_named("EMAIL"), IndicatorType::Email);
    assert_eq!(indicator_type_named("ip_address"), IndicatorType::IpAddress);
    assert_eq!(indicator_type_named("whatever"), IndicatorType::IpAddress);
    assert_eq!(threat_severity_named("Critical"), ThreatSeverity::Critical);
    assert_eq!(threat_severity_named("??"), ThreatSeverity::Medium);
    assert_eq!(update_outcome(0), "success");
    assert_eq!(update_outcome(2), "partial");
}

#[test]
fn malicious_addresses_follow_the_indicators() {
    let mut m = ThreatIntelManager::new(ThreatIntelConfig::default(), 0);
    let p = parse_csv_threat_data("h\nip,9.9.9.9,critical\nip,8.8.8.8,low\n");
    let mut batch = Vec::new();
    for (k, x) in p.into_iter().enumerate() {
        batch.push(csv_indicator(x, "feed", &k.to_string(), 5));
    }
    assert_eq!(batch[0].id, "feed-0");
    assert_eq!(batch[0].confidence_milli, 800);
    let data = ThreatIndicatorData {
        value: "7.7.7.7".into(),
        indicator_type: "ip".into(),
        severity: "high".into(),
        confidence_milli: None,
        description: None,
        tags: None,
        first_seen: Some(-10),
        last_seen: None,
        expires_at: Some(60),
    };
    let x = convert_to_indicator(data, "json", "z", 100 * SEC);
    assert_eq!(x.first_seen, 90 * SEC);
    assert_eq!(x.expires_at, Some(160 * SEC));
    batch.push(x);
    m.store_indicators(batch);
    m.record_update(200 * SEC);
    assert!(m.is_malicious_ip("9.9.9.9"));
    assert!(m.is_malicious_ip("7.7.7.7"));
    assert!(!m.is_malicious_ip("8.8.8.8"));
    assert_eq!(m.get_indicators_count(), 3);
    assert!(m.check_indicator("8.8.8.8", IndicatorType::IpAddress).is_some());
    assert_eq!(m.cleanup_expired_indicators(200 * SEC), 1);
    assert!(!m.is_malicious_ip("7.7.7.7"));
    let stats = m.get_threat_stats(203 * SEC);
    assert_eq!(stats.total_indicators, 2);
    assert_eq!(stats.last_update_secs, 3);
    assert_eq!(stats.indicators_by_type, vec![(IndicatorType::IpAddress, 2)]);
    assert_eq!(stats.indicators_by_severity, vec![(ThreatSeverity::Low, 1), (ThreatSeverity::Critical, 1)]);
}

// ── Second factors ───────────────────────────────────────────────────────────

fn user(id: &str, phone: Option<&str>, codes: &[&str]) -> UserMfaSettings {
    UserMfaSettings {
        user_id: id.into(),
        totp_secret: None,
        phone_number: phone.map(|p| p.to_string()),
        email_address: None,
        backup_codes: codes.iter().map(|c| c.to_string()).collect(),
        enabled_methods: vec![MfaMethod::BackupCode],
        last_used: None,
    }
}

#[test]
fn backup_code_works_once() {
    let mut m = MfaManager::new(MfaConfig::default());
    m.update_user_settings(user("alice", None, &["11-22-33-44", "55-66-77-88"]));
    let id = m.create_challenge("alice", MfaMethod::BackupCode, "x", 0).unwrap();
    assert_eq!(id, "mfa-alice-x");
    assert_eq!(m.verify_challenge(&id, "11-22-33-44", 0, 1), Ok(true));
    assert!(m.get_challenge(&id).is_none());
    assert_eq!(m.get_user_settings("alice").unwrap().backup_codes, vec!["55-66-77-88".to_string()]);
    assert_eq!(m.get_user_settings("alice").unwrap().last_used, Some(MfaMethod::BackupCode));
    let id2 = m.create_challenge("alice", MfaMethod::BackupCode, "y", 0).unwrap();
    assert_eq!(m.verify_challenge(&id2, "11-22-33-44", 0, 1), Ok(false));
}

#[test]
fn sms_challenge_needs_a_phone_and_limits_attempts() {
    let mut m = MfaManager::new(MfaConfig::default());
    assert_eq!(m.create_challenge("bob", MfaMethod::Sms, "x", 0), Err(MfaError::UserNotFound));
    m.update_user_settings(user("bob", None, &[]));
    assert_eq!(m.create_challenge("bob", MfaMethod::Sms, "x", 0), Err(MfaError::NoPhoneNumber));
    m.update_user_settings(user("bob", Some("+100"), &[]));
    let id = m.create_challenge("bob", MfaMethod::Sms, "x", 0).unwrap();
    let code = m.get_challenge(&id).unwrap().code.clone().unwrap();
    assert_eq!(code.len(), 6);
    assert!(code.chars().all(|c| c.is_ascii_digit()));
    for _ in 0..3 {
        assert_eq!(m.verify_challenge(&id, "not-it", 0, 1), Ok(false));
    }
    assert_eq!(m.verify_challenge(&id, &code, 0, 1), Ok(false));
    assert_eq!(m.verify_challenge(&id, &code, 0, 1), Err(MfaError::ChallengeNotFound));
}

#[test]
fn expired_challenge_is_refused_and_cleaned() {
    let mut m = MfaManager::new(MfaConfig::default());
    let id = m.create_challenge("carol", MfaMethod::Totp, "x", 0).unwrap();
    assert_eq!(m.get_challenge(&id).unwrap().expires_at, 300 * SEC);
    let id2 = m.create_challenge("carol", MfaMethod::Totp, "y", 0).unwrap();
    assert_eq!(m.verify_challenge(&id, "123456", 0, 301 * SEC), Ok(false));
    assert!(m.get_challenge(&id).is_none());
    m.cleanup_expired_challenges(301 * SEC);
    assert!(m.get_challenge(&id2).is_none());
}

#[test]
fn totp_secret_and_enrolment_link() {
    let mut m = MfaManager::new(MfaConfig::default());
    assert_eq!(m.generate_totp_qr_code("dave", "S"), Err(MfaError::UserNotFound));
    let secret = m.generate_totp_secret("dave");
    assert_eq!(secret.len(), 32);
    assert!(secret.chars().all(|c| c.is_ascii_uppercase() || ('2'..='7').contains(&c)));
    assert!(m.is_mfa_enabled_for_user("dave"));
    assert_eq!(m.get_user_settings("dave").unwrap().enabled_methods, vec![MfaMethod::Totp]);
    let url = m.generate_totp_qr_code("dave smith", &secret);
    assert_eq!(url, Err(MfaError::UserNotFound));
    let url = m.generate_totp_qr_code("dave", "ABC").unwrap();
    assert_eq!(url, "otpauth://totp/Bonsai%20Network%20Monitor:dave?secret=ABC&issuer=Bonsai%20Network%20Monitor");
    let codes = m.generate_backup_codes("dave");
    assert_eq!(codes.len(), 10);
    assert!(codes.iter().all(|c| c.len() == 11 && c.as_bytes()[2] == b'-'));
    assert_eq!(m.get_user_settings("dave").unwrap().enabled_methods, vec![MfaMethod::Totp, MfaMethod::BackupCode]);
    assert_eq!(generate_message_code().len(), 6);
}

#[test]
fn offered_methods_follow_the_settings() {
    let mut c = MfaConfig::default();
    c.totp_enabled = true;
    c.backup_codes_enabled = true;
    let m = MfaManager::new(c);
    assert_eq!(m.get_enabled_methods(), vec![MfaMethod::Totp, MfaMethod::BackupCode]);
}

// ── The components together ──────────────────────────────────────────────────

#[test]
fn health_is_degraded_until_everything_runs() {
    let mut db = DatabaseSecurityConfig::default();
    db.enabled = true;
    let mut mfa = MfaConfig::default();
    mfa.enabled = true;
    let c = SecurityComponents::initialize(
        db,
        mfa,
        SessionConfig::default(),
        ThreatIntelConfig::default(),
        IncidentResponseConfig::default(),
        0,
    );
    let h = c.get_security_health(7);
    assert_eq!(h.status, "degraded");
    assert!(h.database);
    assert_eq!(h.mfa_methods, Some(vec![]));
    assert_eq!(h.active_sessions, None);
    assert_eq!(h.timestamp, 7);
}

#[test]
fn database_records_and_access() {
    let mut config = DatabaseSecurityConfig::default();
    config.access_control_enabled = true;
    let mut m = DatabaseSecurityManager::new(config);
    assert!(m.check_table_access(&vec!["READ,WRITE".to_string()], "WRITE"));
    assert!(m.check_table_access(&vec!["ALL_PRIVILEGES".to_string()], "DROP"));
    assert!(!m.check_table_access(&vec!["READ".to_string()], "WRITE"));
    m.log_security_violation("eve", "sql_injection", "high", "drop table");
    assert_eq!(m.get_recent_events(5).len(), 1);
    assert_eq!(audit_id(42, "eve"), "audit-42-eve");
    assert_eq!(violation_id(-1, "eve"), "violation--1-eve");
    assert_eq!(audit_cutoff_ns(100 * 86_400_000_000_000, 90), 10 * 86_400_000_000_000);
}

#[test]
fn database_setup_statements_follow_the_settings() {
    let mut off = DatabaseSecurityManager::new(DatabaseSecurityConfig::default());
    assert!(off.initialize(5).is_empty());

    let mut config = DatabaseSecurityConfig::default();
    config.enabled = true;
    let mut tables_only = DatabaseSecurityManager::new(config);
    let stmts = tables_only.initialize(5);
    assert_eq!(stmts.len(), 4);
    assert!(stmts[0].query.contains("DatabaseAuditLog"));
    assert!(stmts[3].query.contains("EncryptionMetadata"));
    assert!(tables_only.get_recent_events(10).is_empty());

    let mut config = DatabaseSecurityConfig::default();
    config.enabled = true;
    config.encryption_enabled = true;
    config.access_control_enabled = true;
    let mut m = DatabaseSecurityManager::new(config);
    let stmts = m.initialize(5);
    assert_eq!(stmts.len(), 4 + 7 + 6);
    let first_meta = &stmts[4];
    assert_eq!(first_meta.params[0], ("metadata_id", DbValue::Str("Device-all".to_string())));
    assert_eq!(first_meta.params[3], ("algorithm", DbValue::Str("AES-256-GCM".to_string())));
    assert_eq!(first_meta.params[4], ("key_id", DbValue::Str("database_master_key".to_string())));
    assert_eq!(first_meta.params[5], ("timestamp_ns", DbValue::Int(5)));
    let last_role = &stmts[16];
    assert_eq!(last_role.params[0], ("role_name", DbValue::Str("security_analyst".to_string())));
    assert_eq!(last_role.params[1], ("permissions", DbValue::Str("READ_SECURITY,WRITE_SECURITY".to_string())));
    let events = m.get_recent_events(10);
    assert_eq!(events.len(), 7);
    match &events[0] {
        DatabaseSecurityEvent::EncryptionOperation { operation, table, success } => {
            assert_eq!(operation, "enable_table_encryption");
            assert_eq!(table, "Vulnerability");
            assert!(*success);
        }
        _ => panic!("expected an encryption event"),
    }
}

#[test]
fn database_access_records_only_when_audited() {
    let quiet = DatabaseSecurityManager::new(DatabaseSecurityConfig::default());
    assert!(quiet.log_database_access("eve", "s1", "READ", "Device", Some(3), true, None, "10.0.0.1", 9).is_none());

    let mut config = DatabaseSecurityConfig::default();
    config.audit_enabled = true;
    let m = DatabaseSecurityManager::new(config);
    let s = m.log_database_access("eve", "s1", "READ", "Device", None, false, Some("denied"), "10.0.0.1", 9).unwrap();
    assert_eq!(s.params[0], ("audit_id", DbValue::Str("audit-9-eve".to_string())));
    assert_eq!(s.params[6], ("row_count", DbValue::Int(0)));
    assert_eq!(s.params[7], ("success", DbValue::Bool(false)));
    assert_eq!(s.params[8], ("error_message", DbValue::Str("denied".to_string())));

    let cleanup = m.cleanup_old_logs(100 * 86_400_000_000_000);
    assert_eq!(cleanup.len(), 2);
    assert_eq!(cleanup[0].params[0], ("cutoff_ns", DbValue::Int(10 * 86_400_000_000_000)));
    assert!(cleanup[1].query.contains("SecurityViolationLog"));

    let v = violation_statement("eve", "sql_injection", "high", "drop table", "10.0.0.2", 3);
    assert_eq!(v.params[0], ("violation_id", DbValue::Str("violation-3-eve".to_string())));
    assert_eq!(v.params[6], ("client_ip", DbValue::Str("10.0.0.2".to_string())));
}
