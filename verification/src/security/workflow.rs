//! The incident response workflows: the predefined templates, a workflow made
//! from a template and an incident, and the way it goes from created through
//! approval and execution to resolved.
//!
//! Carrying out an action (blocking an address, isolating a device, opening a
//! ticket) is the caller's work; it reports each outcome back here.
use vstd::prelude::*;

use crate::keyed::{find_keyed, has_key, keys_unique, lemma_keyed_absent, lemma_keyed_at, lemma_keyed_push, lemma_keyed_update};
use crate::security::incident::{
    action_substituted, pair_views, substitute_action_parameters, IncidentResponseConfig, IncidentSeverity,
    IncidentStatus, WorkflowAction, WorkflowTemplate,
};
use crate::text::{concat, owned, str_eq};

verus! {

/// The abstract value of an action: its texts by their characters.
pub enum ActionView {
    BlockIp(Seq<char>, u32, Seq<char>),
    IsolateDevice(Seq<char>, Seq<char>),
    DisableAccount(Seq<char>, Seq<char>),
    QuarantineFile(Seq<char>, Seq<char>),
    NotifyTeam(Seq<char>, IncidentSeverity),
    CreateTicket(Seq<char>, Seq<char>, Seq<char>),
    RunPlaybook(Seq<char>, Seq<(Seq<char>, Seq<char>)>),
    LogEvent(Seq<char>, Seq<(Seq<char>, Seq<char>)>),
}

impl View for WorkflowAction {
    type V = ActionView;

    open spec fn view(&self) -> ActionView {
        match *self {
            WorkflowAction::BlockIp { ip, duration_hours, reason } => ActionView::BlockIp(ip@, duration_hours, reason@),
            WorkflowAction::IsolateDevice { device_id, reason } => ActionView::IsolateDevice(device_id@, reason@),
            WorkflowAction::DisableAccount { username, reason } => ActionView::DisableAccount(username@, reason@),
            WorkflowAction::QuarantineFile { file_hash, reason } => ActionView::QuarantineFile(file_hash@, reason@),
            WorkflowAction::NotifyTeam { message, severity } => ActionView::NotifyTeam(message@, severity),
            WorkflowAction::CreateTicket { title, description, priority } => ActionView::CreateTicket(
                title@,
                description@,
                priority@,
            ),
            WorkflowAction::RunPlaybook { playbook_id, parameters } => ActionView::RunPlaybook(
                playbook_id@,
                pair_views(parameters@),
            ),
            WorkflowAction::LogEvent { event_type, details } => ActionView::LogEvent(event_type@, pair_views(details@)),
        }
    }
}

/// The abstract value of a template.
pub struct TemplateView {
    pub id: Seq<char>,
    pub name: Seq<char>,
    pub description: Seq<char>,
    pub trigger_conditions: Seq<Seq<char>>,
    pub actions: Seq<ActionView>,
    pub approval_required: bool,
    pub timeout_minutes: u64,
}

pub open spec fn action_views(a: Seq<WorkflowAction>) -> Seq<ActionView> {
    a.map_values(|x: WorkflowAction| x@)
}

impl View for WorkflowTemplate {
    type V = TemplateView;

    open spec fn view(&self) -> TemplateView {
        TemplateView {
            id: self.id@,
            name: self.name@,
            description: self.description@,
            trigger_conditions: self.trigger_conditions@.map_values(|s: String| s@),
            actions: action_views(self.actions@),
            approval_required: self.approval_required,
            timeout_minutes: self.timeout_minutes,
        }
    }
}

pub open spec fn template_views(t: Seq<WorkflowTemplate>) -> Seq<TemplateView> {
    t.map_values(|x: WorkflowTemplate| x@)
}

/// The responses every manager starts with: block a malicious address,
/// answer a security incident, isolate a compromised device.
pub open spec fn default_templates_view() -> Seq<TemplateView> {
    seq![
        TemplateView {
            id: "malicious_ip_detected"@,
            name: "Block Malicious IP"@,
            description: "Automatically block IP addresses detected as malicious"@,
            trigger_conditions: seq!["threat_intel.malicious_ip_detected"@, "firewall.suspicious_ip_activity"@],
            actions: seq![
                ActionView::LogEvent("malicious_ip_block_initiated"@, Seq::empty()),
                ActionView::BlockIp("${ip}"@, 24, "Automated block - malicious IP detected"@),
                ActionView::NotifyTeam("Malicious IP ${ip} has been automatically blocked"@, IncidentSeverity::Medium),
                ActionView::CreateTicket(
                    "Malicious IP Blocked - ${ip}"@,
                    "IP ${ip} was automatically blocked due to threat intelligence detection"@,
                    "medium"@,
                ),
            ],
            approval_required: false,
            timeout_minutes: 30,
        },
        TemplateView {
            id: "security_incident_detected"@,
            name: "Security Incident Response"@,
            description: "Respond to detected security incidents"@,
            trigger_conditions: seq![
                "security.incident.detected"@,
                "authentication.multiple_failures"@,
                "access.privilege_escalation"@,
            ],
            actions: seq![
                ActionView::LogEvent("security_incident_response_initiated"@, Seq::empty()),
                ActionView::NotifyTeam("Security incident detected: ${incident_type}"@, IncidentSeverity::High),
                ActionView::CreateTicket(
                    "Security Incident - ${incident_type}"@,
                    "Security incident detected: ${description}"@,
                    "high"@,
                ),
            ],
            approval_required: true,
            timeout_minutes: 60,
        },
        TemplateView {
            id: "device_compromise_detected"@,
            name: "Device Isolation"@,
            description: "Isolate compromised devices from the network"@,
            trigger_conditions: seq![
                "device.compromise_detected"@,
                "malware.detected"@,
                "anomaly.suspicious_behavior"@,
            ],
            actions: seq![
                ActionView::LogEvent("device_isolation_initiated"@, Seq::empty()),
                ActionView::IsolateDevice("${device_id}"@, "Automated isolation - compromise detected"@),
                ActionView::NotifyTeam(
                    "Device ${device_id} has been isolated due to compromise detection"@,
                    IncidentSeverity::Critical,
                ),
                ActionView::CreateTicket(
                    "Device Isolated - ${device_id}"@,
                    "Device ${device_id} was automatically isolated due to compromise detection"@,
                    "critical"@,
                ),
            ],
            approval_required: true,
            timeout_minutes: 15,
        },
    ]
}

fn log_event(event_type: &str) -> (r: WorkflowAction)
    ensures
        r@ == ActionView::LogEvent(event_type@, Seq::empty()),
{
    let details: Vec<(String, String)> = Vec::new();
    assert(pair_views(details@) =~= Seq::empty());
    WorkflowAction::LogEvent { event_type: owned(event_type), details }
}

fn notify(message: &str, severity: IncidentSeverity) -> (r: WorkflowAction)
    ensures
        r@ == ActionView::NotifyTeam(message@, severity),
{
    WorkflowAction::NotifyTeam { message: owned(message), severity }
}

fn ticket(title: &str, description: &str, priority: &str) -> (r: WorkflowAction)
    ensures
        r@ == ActionView::CreateTicket(title@, description@, priority@),
{
    WorkflowAction::CreateTicket { title: owned(title), description: owned(description), priority: owned(priority) }
}

fn strings2(a: &str, b: &str) -> (r: Vec<String>)
    ensures
        r@.map_values(|s: String| s@) == seq![a@, b@],
{
    let mut r: Vec<String> = Vec::new();
    r.push(owned(a));
    r.push(owned(b));
    assert(r@.map_values(|s: String| s@) =~= seq![a@, b@]);
    r
}

fn strings3(a: &str, b: &str, c: &str) -> (r: Vec<String>)
    ensures
        r@.map_values(|s: String| s@) == seq![a@, b@, c@],
{
    let mut r: Vec<String> = Vec::new();
    r.push(owned(a));
    r.push(owned(b));
    r.push(owned(c));
    assert(r@.map_values(|s: String| s@) =~= seq![a@, b@, c@]);
    r
}

fn block_ip_template() -> (r: WorkflowTemplate)
    ensures
        r@ == default_templates_view()[0],
{
    let mut actions: Vec<WorkflowAction> = Vec::new();
    actions.push(log_event("malicious_ip_block_initiated"));
    actions.push(
        WorkflowAction::BlockIp {
            ip: owned("${ip}"),
            duration_hours: 24,
            reason: owned("Automated block - malicious IP detected"),
        },
    );
    actions.push(notify("Malicious IP ${ip} has been automatically blocked", IncidentSeverity::Medium));
    actions.push(
        ticket(
            "Malicious IP Blocked - ${ip}",
            "IP ${ip} was automatically blocked due to threat intelligence detection",
            "medium",
        ),
    );
    let r = WorkflowTemplate {
        id: owned("malicious_ip_detected"),
        name: owned("Block Malicious IP"),
        description: owned("Automatically block IP addresses detected as malicious"),
        trigger_conditions: strings2("threat_intel.malicious_ip_detected", "firewall.suspicious_ip_activity"),
        actions,
        approval_required: false,
        timeout_minutes: 30,
    };
    assert(action_views(r.actions@) =~= default_templates_view()[0].actions);
    r
}

fn incident_template() -> (r: WorkflowTemplate)
    ensures
        r@ == default_templates_view()[1],
{
    let mut actions: Vec<WorkflowAction> = Vec::new();
    actions.push(log_event("security_incident_response_initiated"));
    actions.push(notify("Security incident detected: ${incident_type}", IncidentSeverity::High));
    actions.push(
        ticket("Security Incident - ${incident_type}", "Security incident detected: ${description}", "high"),
    );
    let r = WorkflowTemplate {
        id: owned("security_incident_detected"),
        name: owned("Security Incident Response"),
        description: owned("Respond to detected security incidents"),
        trigger_conditions: strings3(
            "security.incident.detected",
            "authentication.multiple_failures",
            "access.privilege_escalation",
        ),
        actions,
        approval_required: true,
        timeout_minutes: 60,
    };
    assert(action_views(r.actions@) =~= default_templates_view()[1].actions);
    r
}

fn isolation_template() -> (r: WorkflowTemplate)
    ensures
        r@ == default_templates_view()[2],
{
    let mut actions: Vec<WorkflowAction> = Vec::new();
    actions.push(log_event("device_isolation_initiated"));
    actions.push(
        WorkflowAction::IsolateDevice {
            device_id: owned("${device_id}"),
            reason: owned("Automated isolation - compromise detected"),
        },
    );
    actions.push(
        notify("Device ${device_id} has been isolated due to compromise detection", IncidentSeverity::Critical),
    );
    actions.push(
        ticket(
            "Device Isolated - ${device_id}",
            "Device ${device_id} was automatically isolated due to compromise detection",
            "critical",
        ),
    );
    let r = WorkflowTemplate {
        id: owned("device_compromise_detected"),
        name: owned("Device Isolation"),
        description: owned("Isolate compromised devices from the network"),
        trigger_conditions: strings3("device.compromise_detected", "malware.detected", "anomaly.suspicious_behavior"),
        actions,
        approval_required: true,
        timeout_minutes: 15,
    };
    assert(action_views(r.actions@) =~= default_templates_view()[2].actions);
    r
}

/// The predefined templates.
pub fn default_templates() -> (r: Vec<WorkflowTemplate>)
    ensures
        template_views(r@) == default_templates_view(),
{
    let mut r: Vec<WorkflowTemplate> = Vec::new();
    r.push(block_ip_template());
    r.push(incident_template());
    r.push(isolation_template());
    assert(template_views(r@) =~= default_templates_view());
    r
}


/// A workflow made from a template for one incident. Times are nanoseconds
/// since the Unix epoch.
pub struct IncidentWorkflow {
    pub id: String,
    pub incident_id: String,
    pub name: String,
    pub description: String,
    pub severity: IncidentSeverity,
    pub status: IncidentStatus,
    pub actions: Vec<WorkflowAction>,
    pub current_action_index: usize,
    pub created_at: u64,
    pub updated_at: u64,
    pub started_at: Option<u64>,
    pub completed_at: Option<u64>,
    pub assigned_to: Option<String>,
    pub approval_required: bool,
    pub approved_by: Option<String>,
    pub approved_at: Option<u64>,
    pub error_message: Option<String>,
}

/// The outcome of one action of a workflow.
pub struct WorkflowResult {
    pub workflow_id: String,
    pub action_index: usize,
    pub success: bool,
    pub message: String,
    pub executed_at: u64,
    pub duration_ms: u64,
}

/// Why a request on the workflows was refused.
#[derive(Debug, Clone, Copy, PartialEq, Eq)]
pub enum WorkflowError {
    TemplateNotFound,
    WorkflowNotFound,
    /// Only a new workflow can start; this one has the given status.
    NotStartable(IncidentStatus),
    NotPendingApproval,
}

pub open spec fn workflow_key() -> spec_fn(IncidentWorkflow) -> Seq<char> {
    |w: IncidentWorkflow| w.id@
}

pub open spec fn template_key() -> spec_fn(WorkflowTemplate) -> Seq<char> {
    |t: WorkflowTemplate| t.id@
}

/// The id of the workflow for `incident_id`, made unique by `unique`.
pub open spec fn workflow_id_for(incident_id: Seq<char>, unique: Seq<char>) -> Seq<char> {
    "workflow-"@ + incident_id + "-"@ + unique
}

/// Whether a workflow asks for approval: the template says so, or the
/// incident is critical and critical ones need approval.
pub open spec fn needs_approval(t: WorkflowTemplate, severity: IncidentSeverity, config: IncidentResponseConfig) -> bool {
    t.approval_required || (severity == IncidentSeverity::Critical && config.approval_required_for_critical)
}

/// `w` is the workflow made at `now` from template `t` for an incident,
/// with the parameters filled into its actions. One that needs no approval
/// starts at once when automatic response is on.
pub open spec fn created_from(
    w: IncidentWorkflow,
    id: Seq<char>,
    incident_id: Seq<char>,
    t: WorkflowTemplate,
    params: Seq<(String, String)>,
    severity: IncidentSeverity,
    config: IncidentResponseConfig,
    now: u64,
) -> bool {
    let approval = needs_approval(t, severity, config);
    let auto_start = !approval && config.auto_response_enabled;
    &&& w.id@ == id
    &&& w.incident_id@ == incident_id
    &&& w.name@ == t.name@
    &&& w.description@ == t.description@
    &&& w.severity == severity
    &&& w.status == if approval {
        IncidentStatus::PendingApproval
    } else if auto_start {
        IncidentStatus::InProgress
    } else {
        IncidentStatus::New
    }
    &&& w.actions@.len() == t.actions@.len()
    &&& forall|i: int| 0 <= i < w.actions@.len() ==> action_substituted(#[trigger] w.actions@[i], t.actions@[i], params)
    &&& w.current_action_index == 0
    &&& w.created_at == now
    &&& w.updated_at == now
    &&& w.started_at == if auto_start { Some(now) } else { None::<u64> }
    &&& w.completed_at is None
    &&& w.assigned_to is None
    &&& w.approval_required == approval
    &&& w.approved_by is None
    &&& w.approved_at is None
    &&& w.error_message is None
}

/// `w` does the same work as `old`: what may change is its status, its
/// times, its approval and its error.
pub open spec fn same_work(w: IncidentWorkflow, old: IncidentWorkflow) -> bool {
    &&& w.id == old.id
    &&& w.incident_id == old.incident_id
    &&& w.name == old.name
    &&& w.description == old.description
    &&& w.severity == old.severity
    &&& w.actions == old.actions
    &&& w.current_action_index == old.current_action_index
    &&& w.created_at == old.created_at
    &&& w.assigned_to == old.assigned_to
    &&& w.approval_required == old.approval_required
}

/// `n` is `w` started at `now`.
pub open spec fn started(n: IncidentWorkflow, w: IncidentWorkflow, now: u64) -> bool {
    &&& same_work(n, w)
    &&& n.status == IncidentStatus::InProgress
    &&& n.started_at == Some(now)
    &&& n.updated_at == now
    &&& n.completed_at == w.completed_at
    &&& n.approved_by == w.approved_by
    &&& n.approved_at == w.approved_at
    &&& n.error_message == w.error_message
}

/// `n` is `w` approved by `by` at `now`, and started.
pub open spec fn approved(n: IncidentWorkflow, w: IncidentWorkflow, by: Seq<char>, now: u64) -> bool {
    &&& same_work(n, w)
    &&& n.status == IncidentStatus::InProgress
    &&& n.started_at == Some(now)
    &&& n.updated_at == now
    &&& n.completed_at == w.completed_at
    &&& n.approved_by is Some
    &&& n.approved_by.unwrap()@ == by
    &&& n.approved_at == Some(now)
    &&& n.error_message == w.error_message
}

/// `n` is `w` put back to new after an action failed with `error`.
pub open spec fn failed(n: IncidentWorkflow, w: IncidentWorkflow, error: Seq<char>, now: u64) -> bool {
    &&& same_work(n, w)
    &&& n.status == IncidentStatus::New
    &&& n.error_message is Some
    &&& n.error_message.unwrap()@ == error
    &&& n.updated_at == now
    &&& n.started_at == w.started_at
    &&& n.completed_at == w.completed_at
    &&& n.approved_by == w.approved_by
    &&& n.approved_at == w.approved_at
}

/// `n` is `w` resolved at `now`.
pub open spec fn resolved(n: IncidentWorkflow, w: IncidentWorkflow, now: u64) -> bool {
    &&& same_work(n, w)
    &&& n.status == IncidentStatus::Resolved
    &&& n.completed_at == Some(now)
    &&& n.updated_at == now
    &&& n.started_at == w.started_at
    &&& n.approved_by == w.approved_by
    &&& n.approved_at == w.approved_at
    &&& n.error_message == w.error_message
}

/// The message of an action that was carried out.
pub open spec fn success_message(a: ActionView) -> Seq<char> {
    match a {
        ActionView::BlockIp(ip, _, _) => "IP "@ + ip + " blocked successfully"@,
        ActionView::IsolateDevice(d, _) => "Device "@ + d + " isolated successfully"@,
        ActionView::DisableAccount(u, _) => "Account "@ + u + " disabled successfully"@,
        ActionView::QuarantineFile(f, _) => "File "@ + f + " quarantined successfully"@,
        ActionView::NotifyTeam(_, _) => "Team notified successfully"@,
        ActionView::CreateTicket(_, _, _) => "Ticket created successfully"@,
        ActionView::RunPlaybook(p, _) => "Playbook "@ + p + " executed successfully"@,
        ActionView::LogEvent(_, _) => "Event logged successfully"@,
    }
}

fn framed(a: &str, b: &str, c: &str) -> (r: String)
    ensures
        r@ == a@ + b@ + c@,
{
    let mut r = concat(a, b);
    r.append(c);
    r
}

/// What the log says of an action that was carried out.
pub fn action_success_message(action: &WorkflowAction) -> (r: String)
    ensures
        r@ == success_message(action@),
{
    match action {
        WorkflowAction::BlockIp { ip, .. } => framed("IP ", ip.as_str(), " blocked successfully"),
        WorkflowAction::IsolateDevice { device_id, .. } => framed("Device ", device_id.as_str(), " isolated successfully"),
        WorkflowAction::DisableAccount { username, .. } => framed("Account ", username.as_str(), " disabled successfully"),
        WorkflowAction::QuarantineFile { file_hash, .. } => framed(
            "File ",
            file_hash.as_str(),
            " quarantined successfully",
        ),
        WorkflowAction::NotifyTeam { .. } => owned("Team notified successfully"),
        WorkflowAction::CreateTicket { .. } => owned("Ticket created successfully"),
        WorkflowAction::RunPlaybook { playbook_id, .. } => framed(
            "Playbook ",
            playbook_id.as_str(),
            " executed successfully",
        ),
        WorkflowAction::LogEvent { .. } => owned("Event logged successfully"),
    }
}

/// The number of workflows of `t` with status `s`.
pub open spec fn count_status(t: Seq<IncidentWorkflow>, s: IncidentStatus) -> nat
    decreases t.len(),
{
    if t.len() == 0 {
        0
    } else {
        count_status(t.drop_last(), s) + if t.last().status == s { 1nat } else { 0nat }
    }
}

/// The number of workflows of `t` with severity `s`.
pub open spec fn count_severity(t: Seq<IncidentWorkflow>, s: IncidentSeverity) -> nat
    decreases t.len(),
{
    if t.len() == 0 {
        0
    } else {
        count_severity(t.drop_last(), s) + if t.last().severity == s { 1nat } else { 0nat }
    }
}

/// The number of results of `h` that succeeded (or failed).
pub open spec fn count_success(h: Seq<WorkflowResult>, success: bool) -> nat
    decreases h.len(),
{
    if h.len() == 0 {
        0
    } else {
        count_success(h.drop_last(), success) + if h.last().success == success { 1nat } else { 0nat }
    }
}

/// A summary of the workflows and their results.
pub struct IncidentResponseStats {
    pub active_workflows: usize,
    pub max_concurrent_workflows: usize,
    pub auto_response_enabled: bool,
    pub approval_required_for_critical: bool,
    /// Each status with at least one workflow, and how many have it.
    pub workflows_by_status: Vec<(IncidentStatus, usize)>,
    /// Each severity with at least one workflow, and how many have it.
    pub workflows_by_severity: Vec<(IncidentSeverity, usize)>,
    pub total_executed_actions: usize,
    pub successful_actions: usize,
    pub failed_actions: usize,
}

/// The workflows, their results and the templates they are made from.
pub struct IncidentResponseManager {
    pub config: IncidentResponseConfig,
    pub active_workflows: Vec<IncidentWorkflow>,
    pub workflow_history: Vec<WorkflowResult>,
    pub workflow_templates: Vec<WorkflowTemplate>,
}

impl IncidentResponseManager {
    /// No two workflows and no two templates share an id.
    pub open spec fn wf(&self) -> bool {
        &&& keys_unique(self.active_workflows@, workflow_key())
        &&& keys_unique(self.workflow_templates@, template_key())
    }

    /// The workflow with id `id`.
    pub open spec fn workflow(&self, id: Seq<char>) -> Option<IncidentWorkflow> {
        find_keyed(self.active_workflows@, workflow_key(), id)
    }

    /// The template with id `id`.
    pub open spec fn template(&self, id: Seq<char>) -> Option<WorkflowTemplate> {
        find_keyed(self.workflow_templates@, template_key(), id)
    }

    /// A manager with no workflows and the predefined templates.
    pub fn new(config: IncidentResponseConfig) -> (r: IncidentResponseManager)
        ensures
            r.wf(),
            r.config == config,
            r.active_workflows@.len() == 0,
            r.workflow_history@.len() == 0,
            template_views(r.workflow_templates@) == default_templates_view(),
    {
        let templates = default_templates();
        proof {
            let v = default_templates_view();
            reveal_strlit("malicious_ip_detected");
            reveal_strlit("security_incident_detected");
            reveal_strlit("device_compromise_detected");
            assert(v[0].id[0] != v[1].id[0]);
            assert(v[0].id[0] != v[2].id[0]);
            assert(v[1].id[0] != v[2].id[0]);
            assert(templates@.len() == template_views(templates@).len());
            assert forall|i: int, j: int| 0 <= i < j < templates@.len() implies (template_key())(
                #[trigger] templates@[i],
            ) != (template_key())(#[trigger] templates@[j]) by {
                assert(templates@[i].id@ == template_views(templates@)[i].id);
                assert(templates@[j].id@ == template_views(templates@)[j].id);
                if i == 0 && j == 1 {
                    assert(v[i].id[0] != v[j].id[0]);
                } else if i == 0 {
                    assert(j == 2);
                    assert(v[i].id[0] != v[j].id[0]);
                } else {
                    assert(i == 1 && j == 2);
                    assert(v[i].id[0] != v[j].id[0]);
                }
            }
        }
        IncidentResponseManager {
            config,
            active_workflows: Vec::new(),
            workflow_history: Vec::new(),
            workflow_templates: templates,
        }
    }

    fn find_template(&self, id: &str) -> (r: Option<usize>)
        requires
            self.wf(),
        ensures
            match r {
                Some(i) => i < self.workflow_templates@.len() && self.template(id@) == Some(
                    self.workflow_templates@[i as int],
                ),
                None => self.template(id@) is None,
            },
    {
        let mut i: usize = 0;
        while i < self.workflow_templates.len()
            invariant
                self.wf(),
                i <= self.workflow_templates@.len(),
                forall|j: int| 0 <= j < i ==> (template_key())(#[trigger] self.workflow_templates@[j]) != id@,
            decreases self.workflow_templates@.len() - i,
        {
            if str_eq(self.workflow_templates[i].id.as_str(), id) {
                proof {
                    lemma_keyed_at(self.workflow_templates@, template_key(), i as int);
                }
                return Some(i);
            }
            i = i + 1;
        }
        proof {
            lemma_keyed_absent(self.workflow_templates@, template_key(), id@);
        }
        None
    }

    fn find_workflow(&self, id: &str) -> (r: Option<usize>)
        requires
            self.wf(),
        ensures
            match r {
                Some(i) => i < self.active_workflows@.len() && self.active_workflows@[i as int].id@ == id@
                    && self.workflow(id@) == Some(self.active_workflows@[i as int]),
                None => self.workflow(id@) is None && !has_key(self.active_workflows@, workflow_key(), id@),
            },
    {
        let mut i: usize = 0;
        while i < self.active_workflows.len()
            invariant
                self.wf(),
                i <= self.active_workflows@.len(),
                forall|j: int| 0 <= j < i ==> (workflow_key())(#[trigger] self.active_workflows@[j]) != id@,
            decreases self.active_workflows@.len() - i,
        {
            if str_eq(self.active_workflows[i].id.as_str(), id) {
                proof {
                    lemma_keyed_at(self.active_workflows@, workflow_key(), i as int);
                }
                return Some(i);
            }
            i = i + 1;
        }
        proof {
            lemma_keyed_absent(self.active_workflows@, workflow_key(), id@);
        }
        None
    }

    /// Puts `w` in the table under its id, replacing the workflow of that id.
    fn put_workflow(&mut self, w: IncidentWorkflow)
        requires
            old(self).wf(),
        ensures
            final(self).wf(),
            final(self).workflow(w.id@) == Some(w),
            forall|k: Seq<char>| k != w.id@ ==> #[trigger] final(self).workflow(k) == old(self).workflow(k),
            final(self).config == old(self).config,
            final(self).workflow_history == old(self).workflow_history,
            final(self).workflow_templates == old(self).workflow_templates,
    {
        let ghost before = self.active_workflows@;
        match self.find_workflow(w.id.as_str()) {
            Some(i) => {
                let ghost wv = w;
                self.active_workflows.set(i, w);
                proof {
                    lemma_keyed_update(before, workflow_key(), i as int, wv);
                    assert(self.active_workflows@ == before.update(i as int, wv));
                }
            },
            None => {
                let ghost wv = w;
                self.active_workflows.push(w);
                proof {
                    lemma_keyed_push(before, workflow_key(), wv);
                }
            },
        }
    }

    /// Takes the workflow at `i` out of the table, to put it back changed.
    fn take_workflow(&mut self, i: usize) -> (w: IncidentWorkflow)
        requires
            i < old(self).active_workflows@.len(),
        ensures
            w == old(self).active_workflows@[i as int],
            final(self).active_workflows@ == old(self).active_workflows@.remove(i as int),
            final(self).config == old(self).config,
            final(self).workflow_history == old(self).workflow_history,
            final(self).workflow_templates == old(self).workflow_templates,
    {
        self.active_workflows.remove(i)
    }

    /// Puts `w` back at `i`, where a workflow of the same id was taken out.
    fn restore_workflow(&mut self, i: usize, w: IncidentWorkflow, Ghost(before): Ghost<Seq<IncidentWorkflow>>)
        requires
            keys_unique(before, workflow_key()),
            i < before.len(),
            old(self).active_workflows@ == before.remove(i as int),
            w.id@ == before[i as int].id@,
        ensures
            final(self).active_workflows@ == before.update(i as int, w),
            keys_unique(final(self).active_workflows@, workflow_key()),
            forall|k: Seq<char>| #[trigger] find_keyed(final(self).active_workflows@, workflow_key(), k) == if k == w.id@ {
                Some(w)
            } else {
                find_keyed(before, workflow_key(), k)
            },
            final(self).config == old(self).config,
            final(self).workflow_history == old(self).workflow_history,
            final(self).workflow_templates == old(self).workflow_templates,
    {
        let ghost wv = w;
        self.active_workflows.insert(i, w);
        proof {
            assert(self.active_workflows@ =~= before.update(i as int, wv));
            lemma_keyed_update(before, workflow_key(), i as int, wv);
        }
    }

    /// Makes the workflow of template `template_id` for an incident, with the
    /// parameters filled into its actions; `unique` makes its id unique.
    /// One that needs no approval starts at once when automatic response is
    /// on (the caller then carries out its actions).
    pub fn create_workflow(
        &mut self,
        incident_id: &str,
        template_id: &str,
        parameters: &Vec<(String, String)>,
        severity: IncidentSeverity,
        unique: &str,
        now: u64,
    ) -> (r: Result<String, WorkflowError>)
        requires
            old(self).wf(),
        ensures
            final(self).wf(),
            final(self).config == old(self).config,
            final(self).workflow_history == old(self).workflow_history,
            final(self).workflow_templates == old(self).workflow_templates,
            match old(self).template(template_id@) {
                None => r == Err::<String, WorkflowError>(WorkflowError::TemplateNotFound)
                    && final(self).active_workflows == old(self).active_workflows,
                Some(t) => r matches Ok(id) && id@ == workflow_id_for(incident_id@, unique@) && (
                final(self).workflow(id@) matches Some(w) && created_from(
                    w,
                    id@,
                    incident_id@,
                    t,
                    parameters@,
                    severity,
                    old(self).config,
                    now,
                )) && forall|k: Seq<char>| k != id@ ==> #[trigger] final(self).workflow(k) == old(self).workflow(k),
            },
    {
        let ti = match self.find_template(template_id) {
            Some(ti) => ti,
            None => {
                return Err(WorkflowError::TemplateNotFound);
            },
        };
        let t = &self.workflow_templates[ti];
        let mut id = concat("workflow-", incident_id);
        id.append("-");
        id.append(unique);
        let mut actions: Vec<WorkflowAction> = Vec::new();
        let mut i: usize = 0;
        while i < t.actions.len()
            invariant
                i <= t.actions@.len(),
                actions@.len() == i,
                forall|j: int| 0 <= j < i ==> action_substituted(#[trigger] actions@[j], t.actions@[j], parameters@),
            decreases t.actions@.len() - i,
        {
            actions.push(substitute_action_parameters(&t.actions[i], parameters));
            i = i + 1;
        }
        let approval = t.approval_required || (severity == IncidentSeverity::Critical
            && self.config.approval_required_for_critical);
        let auto_start = !approval && self.config.auto_response_enabled;
        let w = IncidentWorkflow {
            id: id.clone(),
            incident_id: owned(incident_id),
            name: t.name.clone(),
            description: t.description.clone(),
            severity,
            status: if approval {
                IncidentStatus::PendingApproval
            } else if auto_start {
                IncidentStatus::InProgress
            } else {
                IncidentStatus::New
            },
            actions,
            current_action_index: 0,
            created_at: now,
            updated_at: now,
            started_at: if auto_start { Some(now) } else { None },
            completed_at: None,
            assigned_to: None,
            approval_required: approval,
            approved_by: None,
            approved_at: None,
            error_message: None,
        };
        self.put_workflow(w);
        Ok(id)
    }

    /// Starts a new workflow; the caller then carries out its actions.
    pub fn start_workflow(&mut self, workflow_id: &str, now: u64) -> (r: Result<(), WorkflowError>)
        requires
            old(self).wf(),
        ensures
            final(self).wf(),
            final(self).config == old(self).config,
            final(self).workflow_history == old(self).workflow_history,
            final(self).workflow_templates == old(self).workflow_templates,
            match old(self).workflow(workflow_id@) {
                None => r == Err::<(), WorkflowError>(WorkflowError::WorkflowNotFound)
                    && final(self).active_workflows == old(self).active_workflows,
                Some(w) => if w.status != IncidentStatus::New {
                    r == Err::<(), WorkflowError>(WorkflowError::NotStartable(w.status))
                        && final(self).active_workflows == old(self).active_workflows
                } else {
                    r is Ok && final(self).workflow(workflow_id@) is Some && started(
                        final(self).workflow(workflow_id@).unwrap(),
                        w,
                        now,
                    )
                },
            },
            forall|k: Seq<char>| k != workflow_id@ ==> #[trigger] final(self).workflow(k) == old(self).workflow(k),
    {
        let i = match self.find_workflow(workflow_id) {
            Some(i) => i,
            None => {
                return Err(WorkflowError::WorkflowNotFound);
            },
        };
        let status = self.active_workflows[i].status;
        if status != IncidentStatus::New {
            return Err(WorkflowError::NotStartable(status));
        }
        let ghost before = self.active_workflows@;
        let mut w = self.take_workflow(i);
        w.status = IncidentStatus::InProgress;
        w.started_at = Some(now);
        w.updated_at = now;
        self.restore_workflow(i, w, Ghost(before));
        Ok(())
    }

    /// Approves a workflow that waits for approval, which then starts.
    pub fn approve_workflow(&mut self, workflow_id: &str, approved_by: &str, now: u64) -> (r: Result<(), WorkflowError>)
        requires
            old(self).wf(),
        ensures
            final(self).wf(),
            final(self).config == old(self).config,
            final(self).workflow_history == old(self).workflow_history,
            final(self).workflow_templates == old(self).workflow_templates,
            match old(self).workflow(workflow_id@) {
                None => r == Err::<(), WorkflowError>(WorkflowError::WorkflowNotFound)
                    && final(self).active_workflows == old(self).active_workflows,
                Some(w) => if w.status != IncidentStatus::PendingApproval {
                    r == Err::<(), WorkflowError>(WorkflowError::NotPendingApproval)
                        && final(self).active_workflows == old(self).active_workflows
                } else {
                    r is Ok && final(self).workflow(workflow_id@) is Some && approved(
                        final(self).workflow(workflow_id@).unwrap(),
                        w,
                        approved_by@,
                        now,
                    )
                },
            },
            forall|k: Seq<char>| k != workflow_id@ ==> #[trigger] final(self).workflow(k) == old(self).workflow(k),
    {
        let i = match self.find_workflow(workflow_id) {
            Some(i) => i,
            None => {
                return Err(WorkflowError::WorkflowNotFound);
            },
        };
        if self.active_workflows[i].status != IncidentStatus::PendingApproval {
            return Err(WorkflowError::NotPendingApproval);
        }
        let ghost before = self.active_workflows@;
        let mut w = self.take_workflow(i);
        w.status = IncidentStatus::New;
        w.approved_by = Some(owned(approved_by));
        w.approved_at = Some(now);
        w.updated_at = now;
        self.restore_workflow(i, w, Ghost(before));
        self.start_workflow(workflow_id, now)
    }

    /// Records the outcome of action `action_index` of a workflow, carried
    /// out at `executed_at` in `duration_ms`. A failed action puts the
    /// workflow back to new with the error. Returns whether it succeeded,
    /// that is whether the caller goes on with the next action.
    pub fn record_action_result(
        &mut self,
        workflow_id: &str,
        action_index: usize,
        outcome: Result<String, String>,
        executed_at: u64,
        duration_ms: u64,
        now: u64,
    ) -> (ok: bool)
        requires
            old(self).wf(),
        ensures
            final(self).wf(),
            ok == outcome is Ok,
            final(self).config == old(self).config,
            final(self).workflow_templates == old(self).workflow_templates,
            final(self).workflow_history@.len() == old(self).workflow_history@.len() + 1,
            final(self).workflow_history@.drop_last() == old(self).workflow_history@,
            ({
                let h = final(self).workflow_history@.last();
                &&& h.workflow_id@ == workflow_id@
                &&& h.action_index == action_index
                &&& h.success == ok
                &&& h.message@ == match outcome {
                    Ok(m) => m@,
                    Err(e) => e@,
                }
                &&& h.executed_at == executed_at
                &&& h.duration_ms == duration_ms
            }),
            match (outcome, old(self).workflow(workflow_id@)) {
                (Err(e), Some(w)) => final(self).workflow(workflow_id@) is Some && failed(
                    final(self).workflow(workflow_id@).unwrap(),
                    w,
                    e@,
                    now,
                ),
                _ => final(self).active_workflows == old(self).active_workflows,
            },
            forall|k: Seq<char>| k != workflow_id@ ==> #[trigger] final(self).workflow(k) == old(self).workflow(k),
    {
        let (success, message) = match &outcome {
            Ok(m) => (true, m.clone()),
            Err(e) => (false, e.clone()),
        };
        self.workflow_history.push(
            WorkflowResult {
                workflow_id: owned(workflow_id),
                action_index,
                success,
                message: message.clone(),
                executed_at,
                duration_ms,
            },
        );
        if !success {
            match self.find_workflow(workflow_id) {
                Some(i) => {
                    let ghost before = self.active_workflows@;
                    let mut w = self.take_workflow(i);
                    w.status = IncidentStatus::New;
                    w.error_message = Some(message);
                    w.updated_at = now;
                    self.restore_workflow(i, w, Ghost(before));
                },
                None => {},
            }
        }
        success
    }

    /// Marks a workflow as resolved once its actions have been carried out.
    pub fn complete_workflow(&mut self, workflow_id: &str, now: u64)
        requires
            old(self).wf(),
        ensures
            final(self).wf(),
            final(self).config == old(self).config,
            final(self).workflow_history == old(self).workflow_history,
            final(self).workflow_templates == old(self).workflow_templates,
            match old(self).workflow(workflow_id@) {
                None => final(self).active_workflows == old(self).active_workflows,
                Some(w) => final(self).workflow(workflow_id@) is Some && resolved(
                    final(self).workflow(workflow_id@).unwrap(),
                    w,
                    now,
                ),
            },
            forall|k: Seq<char>| k != workflow_id@ ==> #[trigger] final(self).workflow(k) == old(self).workflow(k),
    {
        match self.find_workflow(workflow_id) {
            Some(i) => {
                let ghost before = self.active_workflows@;
                let mut w = self.take_workflow(i);
                w.status = IncidentStatus::Resolved;
                w.completed_at = Some(now);
                w.updated_at = now;
                self.restore_workflow(i, w, Ghost(before));
            },
            None => {},
        }
    }

    /// The workflow with id `workflow_id`.
    pub fn get_workflow(&self, workflow_id: &str) -> (r: Option<&IncidentWorkflow>)
        requires
            self.wf(),
        ensures
            match r {
                Some(w) => self.workflow(workflow_id@) == Some(*w),
                None => self.workflow(workflow_id@) is None,
            },
    {
        match self.find_workflow(workflow_id) {
            Some(i) => Some(&self.active_workflows[i]),
            None => None,
        }
    }

    /// Every workflow, in the order they were made.
    pub fn get_active_workflows(&self) -> (r: Vec<&IncidentWorkflow>)
        ensures
            r@.len() == self.active_workflows@.len(),
            forall|i: int| 0 <= i < r@.len() ==> *#[trigger] r@[i] == self.active_workflows@[i],
    {
        let mut r: Vec<&IncidentWorkflow> = Vec::new();
        let mut i: usize = 0;
        while i < self.active_workflows.len()
            invariant
                i <= self.active_workflows@.len(),
                r@.len() == i,
                forall|j: int| 0 <= j < i ==> *#[trigger] r@[j] == self.active_workflows@[j],
            decreases self.active_workflows@.len() - i,
        {
            r.push(&self.active_workflows[i]);
            i = i + 1;
        }
        r
    }

    pub fn get_active_workflows_count(&self) -> (r: usize)
        ensures
            r == self.active_workflows@.len(),
    {
        self.active_workflows.len()
    }

    /// The results recorded for one workflow, in the order they came.
    pub fn get_workflow_history(&self, workflow_id: &str) -> (r: Vec<&WorkflowResult>)
        ensures
            r@.len() == self.workflow_history@.filter(|h: WorkflowResult| h.workflow_id@ == workflow_id@).len(),
            forall|j: int| 0 <= j < r@.len() ==>
                *#[trigger] r@[j] == self.workflow_history@.filter(|h: WorkflowResult| h.workflow_id@ == workflow_id@)[j],
    {
        let ghost f = |h: WorkflowResult| h.workflow_id@ == workflow_id@;
        let mut r: Vec<&WorkflowResult> = Vec::new();
        let mut i: usize = 0;
        while i < self.workflow_history.len()
            invariant
                f == |h: WorkflowResult| h.workflow_id@ == workflow_id@,
                i <= self.workflow_history@.len(),
                r@.len() == self.workflow_history@.subrange(0, i as int).filter(f).len(),
                forall|j: int| 0 <= j < r@.len() ==>
                    *#[trigger] r@[j] == self.workflow_history@.subrange(0, i as int).filter(f)[j],
            decreases self.workflow_history@.len() - i,
        {
            proof {
                assert(self.workflow_history@.subrange(0, i + 1) =~= self.workflow_history@.subrange(0, i as int).push(
                    self.workflow_history@[i as int],
                ));
                self.workflow_history@.subrange(0, i as int).lemma_filter_push(self.workflow_history@[i as int], f);
            }
            if str_eq(self.workflow_history[i].workflow_id.as_str(), workflow_id) {
                r.push(&self.workflow_history[i]);
            }
            i = i + 1;
        }
        assert(self.workflow_history@.subrange(0, self.workflow_history@.len() as int) =~= self.workflow_history@);
        r
    }

    /// A summary of the workflows by status and severity, and of the results.
    pub fn get_incident_response_stats(&self) -> (r: IncidentResponseStats)
        ensures
            r.active_workflows == self.active_workflows@.len(),
            r.max_concurrent_workflows == self.config.max_concurrent_workflows,
            r.auto_response_enabled == self.config.auto_response_enabled,
            r.approval_required_for_critical == self.config.approval_required_for_critical,
            count_views(r.workflows_by_status@) == status_counts(self.active_workflows@),
            count_views(r.workflows_by_severity@) == severity_counts(self.active_workflows@),
            r.total_executed_actions == self.workflow_history@.len(),
            r.successful_actions == count_success(self.workflow_history@, true),
            r.failed_actions == count_success(self.workflow_history@, false),
    {
        let t = &self.active_workflows;
        let mut by_status: Vec<(IncidentStatus, usize)> = Vec::new();
        proof {
            reveal(Seq::filter);
            assert(count_views(by_status@) =~= Seq::<(IncidentStatus, nat)>::empty().filter(positive()));
        }
        let c = count_with_status(t, IncidentStatus::New);
        push_positive(&mut by_status, Ghost(Seq::empty()), IncidentStatus::New, c);
        let ghost p1 = seq![(IncidentStatus::New, c as nat)];
        assert(Seq::<(IncidentStatus, nat)>::empty().push((IncidentStatus::New, c as nat)) =~= p1);
        let c = count_with_status(t, IncidentStatus::InProgress);
        push_positive(&mut by_status, Ghost(p1), IncidentStatus::InProgress, c);
        let ghost p2 = p1.push((IncidentStatus::InProgress, c as nat));
        let c = count_with_status(t, IncidentStatus::PendingApproval);
        push_positive(&mut by_status, Ghost(p2), IncidentStatus::PendingApproval, c);
        let ghost p3 = p2.push((IncidentStatus::PendingApproval, c as nat));
        let c = count_with_status(t, IncidentStatus::Resolved);
        push_positive(&mut by_status, Ghost(p3), IncidentStatus::Resolved, c);
        let ghost p4 = p3.push((IncidentStatus::Resolved, c as nat));
        let c = count_with_status(t, IncidentStatus::Closed);
        push_positive(&mut by_status, Ghost(p4), IncidentStatus::Closed, c);
        let ghost p5 = p4.push((IncidentStatus::Closed, c as nat));
        assert(p5 =~= status_list(t@));

        let mut by_severity: Vec<(IncidentSeverity, usize)> = Vec::new();
        proof {
            reveal(Seq::filter);
            assert(count_views(by_severity@) =~= Seq::<(IncidentSeverity, nat)>::empty().filter(positive()));
        }
        let c = count_with_severity(t, IncidentSeverity::Low);
        push_positive(&mut by_severity, Ghost(Seq::empty()), IncidentSeverity::Low, c);
        let ghost q1 = seq![(IncidentSeverity::Low, c as nat)];
        assert(Seq::<(IncidentSeverity, nat)>::empty().push((IncidentSeverity::Low, c as nat)) =~= q1);
        let c = count_with_severity(t, IncidentSeverity::Medium);
        push_positive(&mut by_severity, Ghost(q1), IncidentSeverity::Medium, c);
        let ghost q2 = q1.push((IncidentSeverity::Medium, c as nat));
        let c = count_with_severity(t, IncidentSeverity::High);
        push_positive(&mut by_severity, Ghost(q2), IncidentSeverity::High, c);
        let ghost q3 = q2.push((IncidentSeverity::High, c as nat));
        let c = count_with_severity(t, IncidentSeverity::Critical);
        push_positive(&mut by_severity, Ghost(q3), IncidentSeverity::Critical, c);
        let ghost q4 = q3.push((IncidentSeverity::Critical, c as nat));
        assert(q4 =~= severity_list(t@));

        IncidentResponseStats {
            active_workflows: self.active_workflows.len(),
            max_concurrent_workflows: self.config.max_concurrent_workflows,
            auto_response_enabled: self.config.auto_response_enabled,
            approval_required_for_critical: self.config.approval_required_for_critical,
            workflows_by_status: by_status,
            workflows_by_severity: by_severity,
            total_executed_actions: self.workflow_history.len(),
            successful_actions: count_successes(&self.workflow_history, true),
            failed_actions: count_successes(&self.workflow_history, false),
        }
    }
}

pub open spec fn positive<S>() -> spec_fn((S, nat)) -> bool {
    |p: (S, nat)| p.1 > 0
}

pub open spec fn count_views<S>(v: Seq<(S, usize)>) -> Seq<(S, nat)> {
    v.map_values(|p: (S, usize)| (p.0, p.1 as nat))
}

/// Each status with its number of workflows, in the order of the statuses.
pub open spec fn status_list(t: Seq<IncidentWorkflow>) -> Seq<(IncidentStatus, nat)> {
    seq![
        (IncidentStatus::New, count_status(t, IncidentStatus::New)),
        (IncidentStatus::InProgress, count_status(t, IncidentStatus::InProgress)),
        (IncidentStatus::PendingApproval, count_status(t, IncidentStatus::PendingApproval)),
        (IncidentStatus::Resolved, count_status(t, IncidentStatus::Resolved)),
        (IncidentStatus::Closed, count_status(t, IncidentStatus::Closed)),
    ]
}

/// The statuses that some workflow has, with their numbers.
pub open spec fn status_counts(t: Seq<IncidentWorkflow>) -> Seq<(IncidentStatus, nat)> {
    status_list(t).filter(positive())
}

/// Each severity with its number of workflows, from low to critical.
pub open spec fn severity_list(t: Seq<IncidentWorkflow>) -> Seq<(IncidentSeverity, nat)> {
    seq![
        (IncidentSeverity::Low, count_severity(t, IncidentSeverity::Low)),
        (IncidentSeverity::Medium, count_severity(t, IncidentSeverity::Medium)),
        (IncidentSeverity::High, count_severity(t, IncidentSeverity::High)),
        (IncidentSeverity::Critical, count_severity(t, IncidentSeverity::Critical)),
    ]
}

/// The severities that some workflow has, with their numbers.
pub open spec fn severity_counts(t: Seq<IncidentWorkflow>) -> Seq<(IncidentSeverity, nat)> {
    severity_list(t).filter(positive())
}

pub(crate) fn push_positive<S: Copy>(v: &mut Vec<(S, usize)>, Ghost(pre): Ghost<Seq<(S, nat)>>, s: S, c: usize)
    requires
        count_views(old(v)@) == pre.filter(positive()),
    ensures
        count_views(final(v)@) == pre.push((s, c as nat)).filter(positive()),
{
    proof {
        pre.lemma_filter_push((s, c as nat), positive());
    }
    if c > 0 {
        let ghost before = v@;
        v.push((s, c));
        assert(count_views(v@) =~= count_views(before).push((s, c as nat)));
    }
}

fn count_with_status(t: &Vec<IncidentWorkflow>, s: IncidentStatus) -> (r: usize)
    ensures
        r == count_status(t@, s),
{
    let mut n: usize = 0;
    let mut i: usize = 0;
    while i < t.len()
        invariant
            i <= t@.len(),
            n == count_status(t@.subrange(0, i as int), s),
            n <= i,
        decreases t@.len() - i,
    {
        assert(t@.subrange(0, i + 1).drop_last() =~= t@.subrange(0, i as int));
        if t[i].status == s {
            n = n + 1;
        }
        i = i + 1;
    }
    assert(t@.subrange(0, t@.len() as int) =~= t@);
    n
}

fn count_with_severity(t: &Vec<IncidentWorkflow>, s: IncidentSeverity) -> (r: usize)
    ensures
        r == count_severity(t@, s),
{
    let mut n: usize = 0;
    let mut i: usize = 0;
    while i < t.len()
        invariant
            i <= t@.len(),
            n == count_severity(t@.subrange(0, i as int), s),
            n <= i,
        decreases t@.len() - i,
    {
        assert(t@.subrange(0, i + 1).drop_last() =~= t@.subrange(0, i as int));
        if t[i].severity == s {
            n = n + 1;
        }
        i = i + 1;
    }
    assert(t@.subrange(0, t@.len() as int) =~= t@);
    n
}

fn count_successes(h: &Vec<WorkflowResult>, success: bool) -> (r: usize)
    ensures
        r == count_success(h@, success),
{
    let mut n: usize = 0;
    let mut i: usize = 0;
    while i < h.len()
        invariant
            i <= h@.len(),
            n == count_success(h@.subrange(0, i as int), success),
            n <= i,
        decreases h@.len() - i,
    {
        assert(h@.subrange(0, i + 1).drop_last() =~= h@.subrange(0, i as int));
        if h[i].success == success {
            n = n + 1;
        }
        i = i + 1;
    }
    assert(h@.subrange(0, h@.len() as int) =~= h@);
    n
}


// ── Laws ─────────────────────────────────────────────────────────────────────

/// A workflow that needs approval is made waiting for it and not started;
/// since only a new workflow can start, it runs only once approved.
pub proof fn lemma_approval_gates_start(
    w: IncidentWorkflow,
    id: Seq<char>,
    incident_id: Seq<char>,
    t: WorkflowTemplate,
    params: Seq<(String, String)>,
    severity: IncidentSeverity,
    config: IncidentResponseConfig,
    now: u64,
)
    requires
        created_from(w, id, incident_id, t, params, severity, config, now),
        needs_approval(t, severity, config),
    ensures
        w.status == IncidentStatus::PendingApproval,
        w.status != IncidentStatus::New,
        w.started_at is None,
{
}

/// Critical incidents always wait for approval when the settings ask for it.
pub proof fn lemma_critical_needs_approval(t: WorkflowTemplate, config: IncidentResponseConfig)
    requires
        config.approval_required_for_critical,
    ensures
        needs_approval(t, IncidentSeverity::Critical, config),
{
}

/// An approved workflow is running, with who approved it and when.
pub proof fn lemma_approved_runs(n: IncidentWorkflow, w: IncidentWorkflow, by: Seq<char>, now: u64)
    requires
        approved(n, w, by, now),
    ensures
        n.status == IncidentStatus::InProgress,
        n.approved_by is Some,
        n.started_at == Some(now),
        n.actions == w.actions,
{
}

} // verus!
