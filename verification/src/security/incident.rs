//! Automated incident response: the workflow actions and templates, and the
//! filling of `${name}` parameters into an action.
use vstd::prelude::*;

use crate::text::{owned, starts_with};

verus! {

/// Incident response settings.
pub struct IncidentResponseConfig {
    pub enabled: bool,
    pub auto_response_enabled: bool,
    pub approval_required_for_critical: bool,
    pub max_concurrent_workflows: usize,
    pub default_timeout_minutes: u64,
    pub notification_channels: Vec<NotificationChannel>,
}

impl Default for IncidentResponseConfig {
    /// Off; critical workflows need approval; five at a time; one hour.
    fn default() -> (r: IncidentResponseConfig)
        ensures
            !r.enabled,
            !r.auto_response_enabled,
            r.approval_required_for_critical,
            r.max_concurrent_workflows == 5,
            r.default_timeout_minutes == 60,
            r.notification_channels@.len() == 0,
    {
        IncidentResponseConfig {
            enabled: false,
            auto_response_enabled: false,
            approval_required_for_critical: true,
            max_concurrent_workflows: 5,
            default_timeout_minutes: 60,
            notification_channels: Vec::new(),
        }
    }
}

/// Where notifications go; the settings are name/value pairs.
pub struct NotificationChannel {
    pub name: String,
    pub channel_type: NotificationType,
    pub config: Vec<(String, String)>,
    pub enabled: bool,
}

#[derive(Debug, Clone, Copy, PartialEq, Eq)]
pub enum NotificationType {
    Email,
    Slack,
    Webhook,
    Sms,
}

#[derive(Debug, Clone, Copy, PartialEq, Eq, Structural)]
pub enum IncidentSeverity {
    Low,
    Medium,
    High,
    Critical,
}

#[derive(Debug, Clone, Copy, PartialEq, Eq, Structural)]
pub enum IncidentStatus {
    New,
    InProgress,
    PendingApproval,
    Resolved,
    Closed,
}

/// One step of a response workflow. Playbook parameters and event details
/// are name/value pairs.
pub enum WorkflowAction {
    BlockIp { ip: String, duration_hours: u32, reason: String },
    IsolateDevice { device_id: String, reason: String },
    DisableAccount { username: String, reason: String },
    QuarantineFile { file_hash: String, reason: String },
    NotifyTeam { message: String, severity: IncidentSeverity },
    CreateTicket { title: String, description: String, priority: String },
    RunPlaybook { playbook_id: String, parameters: Vec<(String, String)> },
    LogEvent { event_type: String, details: Vec<(String, String)> },
}

/// A predefined response.
pub struct WorkflowTemplate {
    pub id: String,
    pub name: String,
    pub description: String,
    pub trigger_conditions: Vec<String>,
    pub actions: Vec<WorkflowAction>,
    pub approval_required: bool,
    pub timeout_minutes: u64,
}

/// The name of an action's kind.
pub open spec fn action_kind(a: WorkflowAction) -> Seq<char> {
    match a {
        WorkflowAction::BlockIp { .. } => "block_ip"@,
        WorkflowAction::IsolateDevice { .. } => "isolate_device"@,
        WorkflowAction::DisableAccount { .. } => "disable_account"@,
        WorkflowAction::QuarantineFile { .. } => "quarantine_file"@,
        WorkflowAction::NotifyTeam { .. } => "notify_team"@,
        WorkflowAction::CreateTicket { .. } => "create_ticket"@,
        WorkflowAction::RunPlaybook { .. } => "run_playbook"@,
        WorkflowAction::LogEvent { .. } => "log_event"@,
    }
}

pub fn action_type_name(action: &WorkflowAction) -> (r: &'static str)
    ensures
        r@ == action_kind(*action),
{
    match action {
        WorkflowAction::BlockIp { .. } => "block_ip",
        WorkflowAction::IsolateDevice { .. } => "isolate_device",
        WorkflowAction::DisableAccount { .. } => "disable_account",
        WorkflowAction::QuarantineFile { .. } => "quarantine_file",
        WorkflowAction::NotifyTeam { .. } => "notify_team",
        WorkflowAction::CreateTicket { .. } => "create_ticket",
        WorkflowAction::RunPlaybook { .. } => "run_playbook",
        WorkflowAction::LogEvent { .. } => "log_event",
    }
}

/// `str::replace`: every occurrence of a non-empty `pat`, taken left to
/// right without overlap, replaced by `with`.
pub open spec fn replace_all(s: Seq<char>, pat: Seq<char>, with: Seq<char>) -> Seq<char>
    decreases s.len(),
{
    if s.len() == 0 || pat.len() == 0 {
        s
    } else if starts_with(s, pat) {
        with + replace_all(s.skip(pat.len() as int), pat, with)
    } else {
        seq![s[0]] + replace_all(s.drop_first(), pat, with)
    }
}

/// The placeholder of a parameter: `${name}`.
pub open spec fn placeholder(name: Seq<char>) -> Seq<char> {
    "${"@ + name + "}"@
}

/// `s` with the parameters filled in one after the other, in order.
pub open spec fn substituted(s: Seq<char>, params: Seq<(String, String)>) -> Seq<char>
    decreases params.len(),
{
    if params.len() == 0 {
        s
    } else {
        replace_all(substituted(s, params.drop_last()), placeholder(params.last().0@), params.last().1@)
    }
}

/// Replaces every occurrence of a non-empty `pat` in `s`.
fn replace_str(s: &str, pat: &str, with: &str) -> (r: String)
    requires
        pat@.len() > 0,
    ensures
        r@ == replace_all(s@, pat@, with@),
{
    let c = crate::text::chars_of(s);
    let p = crate::text::chars_of(pat);
    let w = crate::text::chars_of(with);
    let mut out: Vec<char> = Vec::new();
    let mut i: usize = 0;
    proof {
        assert(c@.skip(0) =~= c@);
    }
    while i < c.len()
        invariant
            c@ == s@,
            p@ == pat@,
            w@ == with@,
            p@.len() > 0,
            i <= c@.len(),
            out@ + replace_all(c@.skip(i as int), p@, w@) == replace_all(s@, pat@, with@),
        decreases c@.len() - i,
    {
        let rest = crate::text::slice_range(c.as_slice(), i, c.len());
        proof {
            assert(rest@ =~= c@.skip(i as int));
        }
        if crate::text::starts_with_exec(rest.as_slice(), p.as_slice()) {
            let ghost before = out@;
            crate::text::extend_chars(&mut out, w.as_slice());
            proof {
                assert(c@.skip(i as int).skip(p@.len() as int) =~= c@.skip(i + p@.len()));
                assert(out@ + replace_all(c@.skip(i + p@.len()), p@, w@) =~= before + (w@ + replace_all(
                    c@.skip(i as int).skip(p@.len() as int),
                    p@,
                    w@,
                )));
            }
            i = i + p.len();
        } else {
            let ghost before = out@;
            out.push(c[i]);
            proof {
                assert(c@.skip(i as int)[0] == c@[i as int]);
                assert(c@.skip(i as int).drop_first() =~= c@.skip(i + 1));
                assert(out@ + replace_all(c@.skip(i + 1), p@, w@) =~= before + (seq![c@[i as int]] + replace_all(
                    c@.skip(i as int).drop_first(),
                    p@,
                    w@,
                )));
            }
            i = i + 1;
        }
    }
    proof {
        assert(c@.skip(i as int).len() == 0);
        assert(out@ + c@.skip(i as int) =~= out@);
    }
    crate::text::string_of(out.as_slice())
}

/// Fills the parameters into `input`, one parameter after the other.
pub fn substitute_string(input: &str, parameters: &Vec<(String, String)>) -> (r: String)
    ensures
        r@ == substituted(input@, parameters@),
{
    let mut result = owned(input);
    let mut i: usize = 0;
    while i < parameters.len()
        invariant
            i <= parameters@.len(),
            result@ == substituted(input@, parameters@.subrange(0, i as int)),
        decreases parameters@.len() - i,
    {
        let (k, v) = &parameters[i];
        let mut pat = owned("${");
        pat.append(k.as_str());
        pat.append("}");
        proof {
            reveal_strlit("${");
            assert(pat@.len() > 0);
            assert(parameters@.subrange(0, i + 1).drop_last() =~= parameters@.subrange(0, i as int));
            assert(parameters@.subrange(0, i + 1).last() == parameters@[i as int]);
        }
        result = replace_str(result.as_str(), pat.as_str(), v.as_str());
        i = i + 1;
    }
    proof {
        assert(parameters@.subrange(0, parameters@.len() as int) =~= parameters@);
    }
    result
}

/// Name/value pairs with the parameters filled into each value.
pub open spec fn substituted_pairs(pairs: Seq<(String, String)>, params: Seq<(String, String)>) -> Seq<(Seq<char>, Seq<char>)> {
    pairs.map_values(|p: (String, String)| (p.0@, substituted(p.1@, params)))
}

pub open spec fn pair_views(pairs: Seq<(String, String)>) -> Seq<(Seq<char>, Seq<char>)> {
    pairs.map_values(|p: (String, String)| (p.0@, p.1@))
}

fn substitute_pairs(pairs: &Vec<(String, String)>, params: &Vec<(String, String)>) -> (r: Vec<(String, String)>)
    ensures
        pair_views(r@) == substituted_pairs(pairs@, params@),
{
    let mut out: Vec<(String, String)> = Vec::new();
    let mut i: usize = 0;
    while i < pairs.len()
        invariant
            i <= pairs@.len(),
            pair_views(out@) == substituted_pairs(pairs@.subrange(0, i as int), params@),
        decreases pairs@.len() - i,
    {
        let (k, v) = &pairs[i];
        let nv = substitute_string(v.as_str(), params);
        let ghost before = out@;
        out.push((k.clone(), nv));
        proof {
            assert(pair_views(out@) =~= pair_views(before).push((k@, nv@)));
            assert(substituted_pairs(pairs@.subrange(0, i + 1), params@) =~= substituted_pairs(
                pairs@.subrange(0, i as int),
                params@,
            ).push((k@, substituted(v@, params@))));
        }
        i = i + 1;
    }
    proof {
        assert(pairs@.subrange(0, pairs@.len() as int) =~= pairs@);
    }
    out
}

/// `r` is `a` with the parameters filled into every text (numbers and
/// severities kept; names of playbook parameters and event details kept).
pub open spec fn action_substituted(r: WorkflowAction, a: WorkflowAction, p: Seq<(String, String)>) -> bool {
    match (a, r) {
        (WorkflowAction::BlockIp { ip, duration_hours, reason }, WorkflowAction::BlockIp { ip: i2, duration_hours: d2, reason: r2 }) =>
            i2@ == substituted(ip@, p) && d2 == duration_hours && r2@ == substituted(reason@, p),
        (WorkflowAction::IsolateDevice { device_id, reason }, WorkflowAction::IsolateDevice { device_id: d2, reason: r2 }) =>
            d2@ == substituted(device_id@, p) && r2@ == substituted(reason@, p),
        (WorkflowAction::DisableAccount { username, reason }, WorkflowAction::DisableAccount { username: u2, reason: r2 }) =>
            u2@ == substituted(username@, p) && r2@ == substituted(reason@, p),
        (WorkflowAction::QuarantineFile { file_hash, reason }, WorkflowAction::QuarantineFile { file_hash: f2, reason: r2 }) =>
            f2@ == substituted(file_hash@, p) && r2@ == substituted(reason@, p),
        (WorkflowAction::NotifyTeam { message, severity }, WorkflowAction::NotifyTeam { message: m2, severity: s2 }) =>
            m2@ == substituted(message@, p) && s2 == severity,
        (WorkflowAction::CreateTicket { title, description, priority }, WorkflowAction::CreateTicket { title: t2, description: d2, priority: p2 }) =>
            t2@ == substituted(title@, p) && d2@ == substituted(description@, p) && p2@ == substituted(priority@, p),
        (WorkflowAction::RunPlaybook { playbook_id, parameters }, WorkflowAction::RunPlaybook { playbook_id: b2, parameters: q2 }) =>
            b2@ == substituted(playbook_id@, p) && pair_views(q2@) == substituted_pairs(parameters@, p),
        (WorkflowAction::LogEvent { event_type, details }, WorkflowAction::LogEvent { event_type: e2, details: d2 }) =>
            e2@ == substituted(event_type@, p) && pair_views(d2@) == substituted_pairs(details@, p),
        _ => false,
    }
}

/// Fills the parameters into every text of an action.
pub fn substitute_action_parameters(action: &WorkflowAction, parameters: &Vec<(String, String)>) -> (r: WorkflowAction)
    ensures
        action_substituted(r, *action, parameters@),
{
    match action {
        WorkflowAction::BlockIp { ip, duration_hours, reason } => WorkflowAction::BlockIp {
            ip: substitute_string(ip.as_str(), parameters),
            duration_hours: *duration_hours,
            reason: substitute_string(reason.as_str(), parameters),
        },
        WorkflowAction::IsolateDevice { device_id, reason } => WorkflowAction::IsolateDevice {
            device_id: substitute_string(device_id.as_str(), parameters),
            reason: substitute_string(reason.as_str(), parameters),
        },
        WorkflowAction::DisableAccount { username, reason } => WorkflowAction::DisableAccount {
            username: substitute_string(username.as_str(), parameters),
            reason: substitute_string(reason.as_str(), parameters),
        },
        WorkflowAction::QuarantineFile { file_hash, reason } => WorkflowAction::QuarantineFile {
            file_hash: substitute_string(file_hash.as_str(), parameters),
            reason: substitute_string(reason.as_str(), parameters),
        },
        WorkflowAction::NotifyTeam { message, severity } => WorkflowAction::NotifyTeam {
            message: substitute_string(message.as_str(), parameters),
            severity: *severity,
        },
        WorkflowAction::CreateTicket { title, description, priority } => WorkflowAction::CreateTicket {
            title: substitute_string(title.as_str(), parameters),
            description: substitute_string(description.as_str(), parameters),
            priority: substitute_string(priority.as_str(), parameters),
        },
        WorkflowAction::RunPlaybook { playbook_id, parameters: action_params } => WorkflowAction::RunPlaybook {
            playbook_id: substitute_string(playbook_id.as_str(), parameters),
            parameters: substitute_pairs(action_params, parameters),
        },
        WorkflowAction::LogEvent { event_type, details } => WorkflowAction::LogEvent {
            event_type: substitute_string(event_type.as_str(), parameters),
            details: substitute_pairs(details, parameters),
        },
    }
}

} // verus!
