//! The settings and vocabularies of the security features: multi-factor
//! authentication, sessions, threat intelligence and security events.
use vstd::prelude::*;

use crate::text::owned;

verus! {

/// Multi-factor authentication settings.
pub struct MfaConfig {
    pub enabled: bool,
    pub totp_enabled: bool,
    pub sms_enabled: bool,
    pub email_enabled: bool,
    pub backup_codes_enabled: bool,
    pub issuer: String,
    /// TOTP time step in seconds.
    pub totp_window: u64,
    pub sms_provider: Option<String>,
    pub email_provider: Option<String>,
}

impl Default for MfaConfig {
    /// Everything off; the issuer names the product; a 30 s TOTP step.
    fn default() -> (r: MfaConfig)
        ensures
            !r.enabled && !r.totp_enabled && !r.sms_enabled && !r.email_enabled && !r.backup_codes_enabled,
            r.issuer@ == "Bonsai Network Monitor"@,
            r.totp_window == 30,
            r.sms_provider is None,
            r.email_provider is None,
    {
        MfaConfig {
            enabled: false,
            totp_enabled: false,
            sms_enabled: false,
            email_enabled: false,
            backup_codes_enabled: false,
            issuer: owned("Bonsai Network Monitor"),
            totp_window: 30,
            sms_provider: None,
            email_provider: None,
        }
    }
}

/// A second factor.
#[derive(Debug, Clone, Copy, PartialEq, Eq, Structural)]
pub enum MfaMethod {
    Totp,
    Sms,
    Email,
    BackupCode,
}

/// The second factors of one user.
pub struct UserMfaSettings {
    pub user_id: String,
    pub totp_secret: Option<String>,
    pub phone_number: Option<String>,
    pub email_address: Option<String>,
    pub backup_codes: Vec<String>,
    pub enabled_methods: Vec<MfaMethod>,
    pub last_used: Option<MfaMethod>,
}

/// Session settings.
pub struct SessionConfig {
    pub enabled: bool,
    pub jwt_secret: String,
    pub token_expiry_hours: u64,
    pub refresh_token_expiry_hours: u64,
    pub max_sessions_per_user: usize,
    pub idle_timeout_hours: u64,
    pub revoked_token_cleanup_hours: u64,
}

impl Default for SessionConfig {
    /// Off; a placeholder signing secret; tokens for a day, refresh tokens
    /// for a week; five sessions per user; eight idle hours.
    fn default() -> (r: SessionConfig)
        ensures
            !r.enabled,
            r.jwt_secret@ == "default-secret-change-in-production"@,
            r.token_expiry_hours == 24,
            r.refresh_token_expiry_hours == 168,
            r.max_sessions_per_user == 5,
            r.idle_timeout_hours == 8,
            r.revoked_token_cleanup_hours == 24,
    {
        SessionConfig {
            enabled: false,
            jwt_secret: owned("default-secret-change-in-production"),
            token_expiry_hours: 24,
            refresh_token_expiry_hours: 168,
            max_sessions_per_user: 5,
            idle_timeout_hours: 8,
            revoked_token_cleanup_hours: 24,
        }
    }
}

/// The claims of a session token.
pub struct SessionClaims {
    /// The user name.
    pub sub: String,
    pub role: String,
    /// The session id, for revocation.
    pub jti: String,
    /// Issued at, Unix seconds.
    pub iat: i64,
    /// Expiry, Unix seconds.
    pub exp: i64,
    /// Not before, Unix seconds.
    pub nbf: i64,
    pub iss: String,
    pub aud: String,
    pub ua: Option<String>,
    pub ip: Option<String>,
    /// `access` or `refresh`.
    pub typ: String,
}

/// Threat intelligence settings.
pub struct ThreatIntelConfig {
    pub enabled: bool,
    pub update_interval_minutes: u64,
    pub sources: Vec<ThreatSource>,
    pub auto_block_malicious_ips: bool,
    pub retention_days: u32,
}

impl Default for ThreatIntelConfig {
    /// Off; hourly updates; no sources; 30 days retention.
    fn default() -> (r: ThreatIntelConfig)
        ensures
            !r.enabled,
            r.update_interval_minutes == 60,
            r.sources@.len() == 0,
            !r.auto_block_malicious_ips,
            r.retention_days == 30,
    {
        ThreatIntelConfig {
            enabled: false,
            update_interval_minutes: 60,
            sources: Vec::new(),
            auto_block_malicious_ips: false,
            retention_days: 30,
        }
    }
}

/// A threat intelligence feed.
pub struct ThreatSource {
    pub name: String,
    pub url: String,
    pub api_key: Option<String>,
    pub format: ThreatFormat,
    pub enabled: bool,
}

/// The format of a feed.
#[derive(Debug, Clone, Copy, PartialEq, Eq, Structural)]
pub enum ThreatFormat {
    Json,
    Xml,
    Csv,
    Stix,
    Taxii,
}

/// What a threat indicator names.
#[derive(Debug, Clone, Copy, PartialEq, Eq, Structural)]
pub enum IndicatorType {
    IpAddress,
    Domain,
    Url,
    Hash,
    Email,
    FilePattern,
    MalwareFamily,
}

/// How dangerous a threat is.
#[derive(Debug, Clone, Copy, PartialEq, Eq, Structural)]
pub enum ThreatSeverity {
    Low,
    Medium,
    High,
    Critical,
}

/// The kinds of security events that anomaly detection watches.
#[derive(Debug, Clone, Copy, PartialEq, Eq, Hash, Structural)]
pub enum SecurityEventType {
    AuthenticationFailure,
    AuthenticationSuccess,
    PrivilegeEscalation,
    DataAccess,
    ConfigurationChange,
    NetworkConnection,
    FileAccess,
    ProcessExecution,
    SecurityViolation,
    ThreatDetection,
}

} // verus!
