//! The common parts of output adapters: topics, push reports, run state and
//! the audit entries every push cycle leaves.
use vstd::prelude::*;

use crate::text::{owned, str_eq};

verus! {

/// Which data streams an adapter consumes.
#[derive(Debug, Clone, Copy, PartialEq, Eq)]
pub enum OutputTopic {
    /// Raw telemetry updates (counters, state changes).
    RawTelemetry,
    /// Detection events aggregated at the core.
    DetectionEvents,
    /// Remediation outcomes.
    RemediationOutcomes,
    /// Audit log entries.
    AuditEntries,
}

/// What one push cycle did.
#[derive(Debug, Clone, Default)]
pub struct OutputReport {
    pub adapter_name: String,
    pub duration_ms: u64,
    pub events_pushed: usize,
    pub bytes_sent: u64,
    pub warnings: Vec<String>,
    pub error: Option<String>,
}

/// The in-memory state of one adapter.
#[derive(Debug, Clone, Default)]
pub struct OutputAdapterRunState {
    pub last_push_at_ns: Option<i64>,
    pub last_push_duration_ms: Option<u64>,
    pub last_push_events: Option<usize>,
    pub last_push_bytes: Option<u64>,
    pub last_push_warnings: Vec<String>,
    pub last_push_error: Option<String>,
    pub is_running: bool,
    pub total_events_pushed: u64,
    pub total_bytes_sent: u64,
}

/// An audit entry for one push.
pub struct AdapterPushEntry {
    pub root: String,
    pub ts_ns: i64,
    pub adapter_name: String,
    pub outcome: String,
    pub events_pushed: usize,
    pub bytes_sent: u64,
    pub error: Option<String>,
}

/// An audit entry for one credential resolution.
pub struct CredentialResolveEntry {
    pub root: String,
    pub ts_ns: i64,
    pub alias: String,
    pub purpose: String,
    pub outcome: String,
    pub error: Option<String>,
}

/// The outcome word of a push: `error` when there was an error.
pub open spec fn push_outcome(has_error: bool) -> Seq<char> {
    if has_error {
        "error"@
    } else {
        "success"@
    }
}

/// An optional string copied from an optional `&str`.
pub open spec fn opt_str_view(o: Option<&str>) -> Option<Seq<char>> {
    match o {
        Some(s) => Some(s@),
        None => None,
    }
}

pub open spec fn opt_string_view(o: Option<String>) -> Option<Seq<char>> {
    match o {
        Some(s) => Some(s@),
        None => None,
    }
}

fn copy_opt_str(o: Option<&str>) -> (r: Option<String>)
    ensures
        opt_string_view(r) == opt_str_view(o),
{
    match o {
        Some(s) => Some(owned(s)),
        None => None,
    }
}

/// The handle through which an adapter writes audit entries.
pub struct OutputAdapterAuditLog {
    pub root: String,
    pub adapter_name: String,
}

impl OutputAdapterAuditLog {
    pub fn new(root: &str, adapter_name: &str) -> (r: OutputAdapterAuditLog)
        ensures
            r.root@ == root@,
            r.adapter_name@ == adapter_name@,
    {
        OutputAdapterAuditLog { root: owned(root), adapter_name: owned(adapter_name) }
    }

    /// The entry that records a push at `ts_ns`.
    pub fn log_push(&self, events_pushed: usize, bytes_sent: u64, error: Option<&str>, ts_ns: i64) -> (r: AdapterPushEntry)
        ensures
            r.root@ == self.root@,
            r.ts_ns == ts_ns,
            r.adapter_name@ == self.adapter_name@,
            r.outcome@ == push_outcome(error is Some),
            r.events_pushed == events_pushed,
            r.bytes_sent == bytes_sent,
            opt_string_view(r.error) == opt_str_view(error),
    {
        let outcome = if error.is_some() {
            "error"
        } else {
            "success"
        };
        AdapterPushEntry {
            root: self.root.clone(),
            ts_ns,
            adapter_name: self.adapter_name.clone(),
            outcome: owned(outcome),
            events_pushed,
            bytes_sent,
            error: copy_opt_str(error),
        }
    }

    /// The entry that records resolving the credential `alias` at `ts_ns`.
    pub fn log_credential_resolve(&self, alias: &str, outcome: &str, error: Option<&str>, ts_ns: i64) -> (r: CredentialResolveEntry)
        ensures
            r.root@ == self.root@,
            r.ts_ns == ts_ns,
            r.alias@ == alias@,
            r.purpose@ == "adapter_push"@,
            r.outcome@ == outcome@,
            opt_string_view(r.error) == opt_str_view(error),
    {
        CredentialResolveEntry {
            root: self.root.clone(),
            ts_ns,
            alias: owned(alias),
            purpose: owned("adapter_push"),
            outcome: owned(outcome),
            error: copy_opt_str(error),
        }
    }
}

/// An adapter that consumes raw telemetry and pushes nowhere; it exercises
/// the adapter interface.
pub struct StubAdapter {
    pub name: String,
}

impl StubAdapter {
    pub fn name(&self) -> (r: &str)
        ensures
            r@ == self.name@,
    {
        self.name.as_str()
    }

    /// The topics it consumes: raw telemetry.
    pub fn topics(&self) -> (r: Vec<OutputTopic>)
        ensures
            r@ == seq![OutputTopic::RawTelemetry],
    {
        let mut v: Vec<OutputTopic> = Vec::new();
        v.push(OutputTopic::RawTelemetry);
        v
    }

    /// The environments it applies to: all (none listed).
    pub fn applies_to_environments(&self) -> (r: Vec<String>)
        ensures
            r@.len() == 0,
    {
        Vec::new()
    }
}

/// The adapter types that can be configured.
pub open spec fn supported_adapter_type(t: Seq<char>) -> bool {
    t == "prometheus_remote_write"@ || t == "splunk_hec"@ || t == "elastic"@ || t == "servicenow_em"@
}

/// Accepts a supported adapter type; otherwise the error names the type.
pub fn ensure_supported_adapter_type(adapter_type: &str) -> (r: Result<(), String>)
    ensures
        r is Ok <==> supported_adapter_type(adapter_type@),
        r matches Err(e) ==> e@ == "unknown adapter type '"@ + adapter_type@ + "'"@,
{
    if str_eq(adapter_type, "prometheus_remote_write") || str_eq(adapter_type, "splunk_hec")
        || str_eq(adapter_type, "elastic") || str_eq(adapter_type, "servicenow_em") {
        Ok(())
    } else {
        let mut e = owned("unknown adapter type '");
        e.append(adapter_type);
        e.append("'");
        Err(e)
    }
}

} // verus!
