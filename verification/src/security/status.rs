//! The security components as a whole: which are running, given the
//! settings, and the health report over them.
//!
//! Anomaly detection works on floating-point scores and is run by the
//! caller.
use vstd::prelude::*;

use crate::security::database::{DatabaseSecurityConfig, DatabaseSecurityManager};
use crate::security::incident::IncidentResponseConfig;
use crate::security::mfa::{offered_methods, MfaManager};
use crate::security::session::{is_active, SessionManager};
use crate::security::settings::{MfaConfig, MfaMethod, SessionConfig, ThreatIntelConfig};
use crate::security::threat::{active_indicator, ThreatIntelManager};
use crate::security::workflow::IncidentResponseManager;
use crate::text::owned;

verus! {

/// The security components that are enabled, each with its state.
pub struct SecurityComponents {
    pub database: Option<DatabaseSecurityManager>,
    pub mfa: Option<MfaManager>,
    pub session: Option<SessionManager>,
    pub threat_intel: Option<ThreatIntelManager>,
    pub incident_response: Option<IncidentResponseManager>,
}

/// The health of the security components at one time.
pub struct SecurityHealth {
    /// `healthy` when every component runs, else `degraded`.
    pub status: String,
    pub timestamp: i64,
    /// Whether database security runs.
    pub database: bool,
    /// The methods offered, when second factors run.
    pub mfa_methods: Option<Vec<MfaMethod>>,
    /// The active sessions, when sessions are managed.
    pub active_sessions: Option<usize>,
    /// The active indicators, when threat intelligence runs.
    pub indicators_count: Option<usize>,
    /// The workflows, when incident response runs.
    pub active_workflows: Option<usize>,
}

impl SecurityComponents {
    pub open spec fn wf(&self) -> bool {
        &&& (self.database matches Some(d) ==> d.wf())
        &&& (self.mfa matches Some(m) ==> m.wf())
        &&& (self.session matches Some(s) ==> s.wf())
        &&& (self.threat_intel matches Some(t) ==> t.wf())
        &&& (self.incident_response matches Some(i) ==> i.wf())
    }

    /// Starts each component whose settings enable it, with nothing in it
    /// yet; threat intelligence records `now` as its last update.
    pub fn initialize(
        database: DatabaseSecurityConfig,
        mfa: MfaConfig,
        session: SessionConfig,
        threat_intel: ThreatIntelConfig,
        incident_response: IncidentResponseConfig,
        now: u64,
    ) -> (r: SecurityComponents)
        ensures
            r.wf(),
            r.database is Some == database.enabled,
            r.mfa is Some == mfa.enabled,
            r.session is Some == session.enabled,
            r.threat_intel is Some == threat_intel.enabled,
            r.incident_response is Some == incident_response.enabled,
            r.database matches Some(d) ==> d.config == database && d.audit_log@.len() == 0,
            r.mfa matches Some(m) ==> m.config == mfa && m.user_settings@.len() == 0 && m.active_challenges@.len() == 0,
            r.session matches Some(s) ==> s.config == session && s.active_sessions@.len() == 0 && s.revoked_tokens@.len() == 0,
            r.threat_intel matches Some(t) ==> t.config == threat_intel && t.indicators@.len() == 0 && t.last_update == now,
            r.incident_response matches Some(i) ==> i.config == incident_response && i.active_workflows@.len() == 0,
    {
        let database = if database.enabled { Some(DatabaseSecurityManager::new(database)) } else { None };
        let mfa = if mfa.enabled { Some(MfaManager::new(mfa)) } else { None };
        let session = if session.enabled { Some(SessionManager::new(session)) } else { None };
        let threat_intel = if threat_intel.enabled { Some(ThreatIntelManager::new(threat_intel, now)) } else { None };
        let incident_response = if incident_response.enabled {
            Some(IncidentResponseManager::new(incident_response))
        } else {
            None
        };
        SecurityComponents { database, mfa, session, threat_intel, incident_response }
    }

    /// Whether every component runs.
    pub open spec fn all_running(&self) -> bool {
        &&& self.database is Some
        &&& self.mfa is Some
        &&& self.session is Some
        &&& self.threat_intel is Some
        &&& self.incident_response is Some
    }

    /// The health report at `now_ns`.
    pub fn get_security_health(&self, now_ns: i64) -> (r: SecurityHealth)
        ensures
            r.status@ == if self.all_running() { "healthy"@ } else { "degraded"@ },
            r.timestamp == now_ns,
            r.database == self.database is Some,
            match self.mfa {
                Some(m) => r.mfa_methods matches Some(v) && v@ == offered_methods(m.config),
                None => r.mfa_methods is None,
            },
            r.active_sessions == match self.session {
                Some(s) => Some(s.active_sessions@.filter(is_active()).len() as usize),
                None => None::<usize>,
            },
            r.indicators_count == match self.threat_intel {
                Some(t) => Some(t.indicators@.filter(active_indicator()).len() as usize),
                None => None::<usize>,
            },
            r.active_workflows == match self.incident_response {
                Some(i) => Some(i.active_workflows@.len() as usize),
                None => None::<usize>,
            },
    {
        let mfa_methods = match &self.mfa {
            Some(m) => Some(m.get_enabled_methods()),
            None => None,
        };
        let active_sessions = match &self.session {
            Some(s) => Some(s.get_active_session_count()),
            None => None,
        };
        let indicators_count = match &self.threat_intel {
            Some(t) => Some(t.get_indicators_count()),
            None => None,
        };
        let active_workflows = match &self.incident_response {
            Some(i) => Some(i.get_active_workflows_count()),
            None => None,
        };
        let healthy = self.database.is_some() && self.mfa.is_some() && self.session.is_some()
            && self.threat_intel.is_some() && self.incident_response.is_some();
        SecurityHealth {
            status: if healthy { owned("healthy") } else { owned("degraded") },
            timestamp: now_ns,
            database: self.database.is_some(),
            mfa_methods,
            active_sessions,
            indicators_count,
            active_workflows,
        }
    }
}

} // verus!
