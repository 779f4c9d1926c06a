//! Health events as SNMP traps and syslog messages.
use vstd::prelude::*;

use crate::text::{decimal, join, owned, u64_to_string, views};

verus! {

/// What happened to the system.
#[derive(Debug, Clone, Copy, PartialEq, Eq)]
pub enum HealthEventType {
    CollectorConnected,
    CollectorDisconnected,
    CollectorHeartbeatStale,
    GraphWriteFailed,
    QueueSaturation,
    GovernorViolation,
    EnricherFailed,
    SidecarLost,
    DiskSpaceCritical,
}

/// How bad it is.
#[derive(Debug, Clone, Copy, PartialEq, Eq)]
pub enum HealthSeverity {
    Info,
    Warning,
    Critical,
}

/// One health event, with its metadata pairs in the order they are shown.
pub struct HealthEvent {
    pub event_type: HealthEventType,
    pub severity: HealthSeverity,
    pub component: String,
    pub message: String,
    pub metadata: Vec<(String, String)>,
}

/// Where SNMP traps go.
#[derive(Debug, Clone)]
pub struct SnmpConfig {
    pub enabled: bool,
    /// The SNMP manager's address.
    pub target: String,
    /// The SNMPv2c community.
    pub community: String,
    /// The SNMP manager's port.
    pub port: u16,
}

/// Where syslog messages go.
#[derive(Debug, Clone)]
pub struct SyslogConfig {
    pub enabled: bool,
    /// The syslog server's address.
    pub endpoint: String,
    /// The facility (local0 to local7).
    pub facility: String,
}

impl Default for SnmpConfig {
    fn default() -> (r: SnmpConfig)
        ensures
            !r.enabled,
            r.target@ == "127.0.0.1"@,
            r.community@ == "public"@,
            r.port == 162,
    {
        SnmpConfig { enabled: false, target: owned("127.0.0.1"), community: owned("public"), port: 162 }
    }
}

impl Default for SyslogConfig {
    fn default() -> (r: SyslogConfig)
        ensures
            !r.enabled,
            r.endpoint@ == "127.0.0.1:514"@,
            r.facility@ == "local0"@,
    {
        SyslogConfig { enabled: false, endpoint: owned("127.0.0.1:514"), facility: owned("local0") }
    }
}

/// The trap OID of an event type.
pub open spec fn event_oid(t: HealthEventType) -> Seq<char> {
    match t {
        HealthEventType::CollectorConnected => "1.3.6.1.4.1.9999.1.1"@,
        HealthEventType::CollectorDisconnected => "1.3.6.1.4.1.9999.1.2"@,
        HealthEventType::CollectorHeartbeatStale => "1.3.6.1.4.1.9999.1.3"@,
        HealthEventType::GraphWriteFailed => "1.3.6.1.4.1.9999.2.1"@,
        HealthEventType::QueueSaturation => "1.3.6.1.4.1.9999.2.2"@,
        HealthEventType::GovernorViolation => "1.3.6.1.4.1.9999.3.1"@,
        HealthEventType::EnricherFailed => "1.3.6.1.4.1.9999.3.2"@,
        HealthEventType::SidecarLost => "1.3.6.1.4.1.9999.3.3"@,
        HealthEventType::DiskSpaceCritical => "1.3.6.1.4.1.9999.4.1"@,
    }
}

/// The trap OID of an event type.
pub fn to_event_oid(t: &HealthEventType) -> (r: &'static str)
    ensures
        r@ == event_oid(*t),
{
    match t {
        HealthEventType::CollectorConnected => "1.3.6.1.4.1.9999.1.1",
        HealthEventType::CollectorDisconnected => "1.3.6.1.4.1.9999.1.2",
        HealthEventType::CollectorHeartbeatStale => "1.3.6.1.4.1.9999.1.3",
        HealthEventType::GraphWriteFailed => "1.3.6.1.4.1.9999.2.1",
        HealthEventType::QueueSaturation => "1.3.6.1.4.1.9999.2.2",
        HealthEventType::GovernorViolation => "1.3.6.1.4.1.9999.3.1",
        HealthEventType::EnricherFailed => "1.3.6.1.4.1.9999.3.2",
        HealthEventType::SidecarLost => "1.3.6.1.4.1.9999.3.3",
        HealthEventType::DiskSpaceCritical => "1.3.6.1.4.1.9999.4.1",
    }
}

/// The trap severity: informational 1, warning 3, critical 5.
pub open spec fn trap_severity(s: HealthSeverity) -> u32 {
    match s {
        HealthSeverity::Info => 1,
        HealthSeverity::Warning => 3,
        HealthSeverity::Critical => 5,
    }
}

pub fn to_trap_severity(s: &HealthSeverity) -> (r: u32)
    ensures
        r == trap_severity(*s),
{
    match s {
        HealthSeverity::Info => 1,
        HealthSeverity::Warning => 3,
        HealthSeverity::Critical => 5,
    }
}

/// The text of an SNMPv2c trap for `event`.
pub open spec fn trap_text(target: Seq<char>, community: Seq<char>, t: HealthEventType, s: HealthSeverity, component: Seq<char>, message: Seq<char>) -> Seq<char> {
    "SNMPv2c Trap: target="@ + target + ", community="@ + community + ", oid="@ + event_oid(t)
        + ", severity="@ + decimal(trap_severity(s) as nat) + ", component="@ + component + ", message="@ + message
}

/// Formats a health event as an SNMPv2c trap.
pub fn format_trap(config: &SnmpConfig, event: &HealthEvent) -> (r: String)
    ensures
        r@ == trap_text(config.target@, config.community@, event.event_type, event.severity, event.component@, event.message@),
{
    let mut s = owned("SNMPv2c Trap: target=");
    s.append(config.target.as_str());
    s.append(", community=");
    s.append(config.community.as_str());
    s.append(", oid=");
    s.append(to_event_oid(&event.event_type));
    s.append(", severity=");
    let sev = u64_to_string(to_trap_severity(&event.severity) as u64);
    s.append(sev.as_str());
    s.append(", component=");
    s.append(event.component.as_str());
    s.append(", message=");
    s.append(event.message.as_str());
    s
}

/// The syslog severity (0 to 7) of a health severity.
pub open spec fn syslog_severity(s: HealthSeverity) -> u8 {
    match s {
        HealthSeverity::Info => 6,
        HealthSeverity::Warning => 4,
        HealthSeverity::Critical => 2,
    }
}

pub fn to_syslog_severity(s: &HealthSeverity) -> (r: u8)
    ensures
        r == syslog_severity(*s),
        *s == HealthSeverity::Info ==> r == 6,
        *s == HealthSeverity::Warning ==> r == 4,
        *s == HealthSeverity::Critical ==> r == 2,
{
    match s {
        HealthSeverity::Info => 6,
        HealthSeverity::Warning => 4,
        HealthSeverity::Critical => 2,
    }
}

/// The syslog tag of an event type.
pub open spec fn syslog_tag(t: HealthEventType) -> Seq<char> {
    match t {
        HealthEventType::CollectorConnected => "bonsai_collector_connected"@,
        HealthEventType::CollectorDisconnected => "bonsai_collector_disconnected"@,
        HealthEventType::CollectorHeartbeatStale => "bonsai_collector_heartbeat_stale"@,
        HealthEventType::GraphWriteFailed => "bonsai_graph_write_failed"@,
        HealthEventType::QueueSaturation => "bonsai_queue_saturation"@,
        HealthEventType::GovernorViolation => "bonsai_governor_violation"@,
        HealthEventType::EnricherFailed => "bonsai_enricher_failed"@,
        HealthEventType::SidecarLost => "bonsai_sidecar_lost"@,
        HealthEventType::DiskSpaceCritical => "bonsai_disk_space_critical"@,
    }
}

pub fn to_syslog_tag(t: &HealthEventType) -> (r: &'static str)
    ensures
        r@ == syslog_tag(*t),
{
    match t {
        HealthEventType::CollectorConnected => "bonsai_collector_connected",
        HealthEventType::CollectorDisconnected => "bonsai_collector_disconnected",
        HealthEventType::CollectorHeartbeatStale => "bonsai_collector_heartbeat_stale",
        HealthEventType::GraphWriteFailed => "bonsai_graph_write_failed",
        HealthEventType::QueueSaturation => "bonsai_queue_saturation",
        HealthEventType::GovernorViolation => "bonsai_governor_violation",
        HealthEventType::EnricherFailed => "bonsai_enricher_failed",
        HealthEventType::SidecarLost => "bonsai_sidecar_lost",
        HealthEventType::DiskSpaceCritical => "bonsai_disk_space_critical",
    }
}

/// `key=value` for each metadata pair.
pub open spec fn metadata_pairs(m: Seq<(String, String)>) -> Seq<Seq<char>> {
    m.map_values(|p: (String, String)| p.0@ + "="@ + p.1@)
}

/// A syslog line: priority for facility 16 (local0), tag, component, message
/// and the metadata pairs separated by spaces.
pub open spec fn syslog_text(s: HealthSeverity, t: HealthEventType, component: Seq<char>, message: Seq<char>, m: Seq<(String, String)>) -> Seq<char> {
    "<"@ + decimal((16 * 8 + syslog_severity(s)) as nat) + ">"@ + syslog_tag(t) + " "@ + component + ": "@ + message
        + " - "@ + join(metadata_pairs(m), " "@)
}

/// Formats a health event as a syslog line.
pub fn format_syslog_message(event: &HealthEvent) -> (r: String)
    ensures
        r@ == syslog_text(event.severity, event.event_type, event.component@, event.message@, event.metadata@),
{
    let mut pairs: Vec<String> = Vec::new();
    let mut i: usize = 0;
    while i < event.metadata.len()
        invariant
            i <= event.metadata@.len(),
            views(pairs@) == metadata_pairs(event.metadata@.subrange(0, i as int)),
        decreases event.metadata@.len() - i,
    {
        let (k, v) = &event.metadata[i];
        let mut p = owned(k.as_str());
        p.append("=");
        p.append(v.as_str());
        let ghost before = pairs@;
        pairs.push(p);
        proof {
            assert(metadata_pairs(event.metadata@.subrange(0, i + 1)) =~= metadata_pairs(event.metadata@.subrange(0, i as int)).push(p@));
            assert(views(pairs@) =~= views(before).push(p@));
        }
        i = i + 1;
    }
    proof {
        assert(event.metadata@.subrange(0, event.metadata@.len() as int) =~= event.metadata@);
    }
    let prival: u64 = 16 * 8 + to_syslog_severity(&event.severity) as u64;
    let mut s = owned("<");
    let pv = u64_to_string(prival);
    s.append(pv.as_str());
    s.append(">");
    s.append(to_syslog_tag(&event.event_type));
    s.append(" ");
    s.append(event.component.as_str());
    s.append(": ");
    s.append(event.message.as_str());
    s.append(" - ");
    let joined = crate::text::join_strings(&pairs, " ");
    s.append(joined.as_str());
    s
}

/// Syslog severities follow RFC 5424 (2 critical, 4 warning, 6
/// informational): a more serious health severity gets a strictly lower
/// number, and distinct severities get distinct numbers.
pub proof fn lemma_syslog_severity_rfc5424(a: HealthSeverity, b: HealthSeverity)
    ensures
        a == HealthSeverity::Info ==> syslog_severity(a) == 6,
        a == HealthSeverity::Warning ==> syslog_severity(a) == 4,
        a == HealthSeverity::Critical ==> syslog_severity(a) == 2,
        a != b ==> syslog_severity(a) != syslog_severity(b),
        a == HealthSeverity::Critical && b != HealthSeverity::Critical ==> syslog_severity(a) < syslog_severity(b),
        a == HealthSeverity::Warning && b == HealthSeverity::Info ==> syslog_severity(a) < syslog_severity(b),
{
}

} // verus!
