//! The managed-device registry: the set of targets keyed by address, the
//! path overrides, and the audit stamps that every operator change leaves.
//!
//! Persistence and change broadcasting live with the caller; this module holds
//! the state and every rule that decides how it changes.
use vstd::prelude::*;

use crate::address::{normalize_address, valid_host_port, AddressError};
use crate::order::{compare_str, lemma_lt_irrefl, lemma_lt_trans, seq_lt, strictly_sorted};
use crate::text::{str_eq, trim};

verus! {

/// One managed device.
pub struct TargetConfig {
    pub address: String,
    pub enabled: bool,
    pub tls_domain: Option<String>,
    pub ca_cert: Option<String>,
    pub vendor: Option<String>,
    pub credential_alias: Option<String>,
    pub username_env: Option<String>,
    pub password_env: Option<String>,
    pub username: Option<String>,
    pub password: Option<String>,
    pub hostname: Option<String>,
    pub role: Option<String>,
    pub site: Option<String>,
    pub collector_id: Option<String>,
    pub selected_paths: Vec<String>,
    pub created_at_ns: i64,
    pub updated_at_ns: i64,
    pub created_by: String,
    pub updated_by: String,
    pub last_operator_action: String,
}

/// The abstract value of a target: every field, strings by their characters.
pub struct TargetView {
    pub address: Seq<char>,
    pub enabled: bool,
    pub tls_domain: Option<Seq<char>>,
    pub ca_cert: Option<Seq<char>>,
    pub vendor: Option<Seq<char>>,
    pub credential_alias: Option<Seq<char>>,
    pub username_env: Option<Seq<char>>,
    pub password_env: Option<Seq<char>>,
    pub username: Option<Seq<char>>,
    pub password: Option<Seq<char>>,
    pub hostname: Option<Seq<char>>,
    pub role: Option<Seq<char>>,
    pub site: Option<Seq<char>>,
    pub collector_id: Option<Seq<char>>,
    pub selected_paths: Seq<Seq<char>>,
    pub created_at_ns: i64,
    pub updated_at_ns: i64,
    pub created_by: Seq<char>,
    pub updated_by: Seq<char>,
    pub last_operator_action: Seq<char>,
}

/// The characters of an optional string.
pub open spec fn opt_view(o: Option<String>) -> Option<Seq<char>> {
    match o {
        Some(s) => Some(s@),
        None => None,
    }
}

impl View for TargetConfig {
    type V = TargetView;

    open spec fn view(&self) -> TargetView {
        TargetView {
            address: self.address@,
            enabled: self.enabled,
            tls_domain: opt_view(self.tls_domain),
            ca_cert: opt_view(self.ca_cert),
            vendor: opt_view(self.vendor),
            credential_alias: opt_view(self.credential_alias),
            username_env: opt_view(self.username_env),
            password_env: opt_view(self.password_env),
            username: opt_view(self.username),
            password: opt_view(self.password),
            hostname: opt_view(self.hostname),
            role: opt_view(self.role),
            site: opt_view(self.site),
            collector_id: opt_view(self.collector_id),
            selected_paths: crate::text::views(self.selected_paths@),
            created_at_ns: self.created_at_ns,
            updated_at_ns: self.updated_at_ns,
            created_by: self.created_by@,
            updated_by: self.updated_by@,
            last_operator_action: self.last_operator_action@,
        }
    }
}

/// The views of a list of targets.
pub open spec fn target_views(t: Seq<TargetConfig>) -> Seq<TargetView> {
    t.map_values(|x: TargetConfig| x@)
}

/// An exact copy of an optional string.
pub fn copy_opt(o: &Option<String>) -> (r: Option<String>)
    ensures
        r == *o,
{
    match o {
        Some(s) => Some(s.clone()),
        None => None,
    }
}

/// An exact copy of a list of strings.
pub fn copy_strings(v: &Vec<String>) -> (r: Vec<String>)
    ensures
        r@ == v@,
{
    let mut r: Vec<String> = Vec::new();
    let mut i: usize = 0;
    while i < v.len()
        invariant
            i <= v@.len(),
            r@ == v@.subrange(0, i as int),
        decreases v@.len() - i,
    {
        r.push(v[i].clone());
        assert(v@.subrange(0, i + 1) =~= v@.subrange(0, i as int).push(v@[i as int]));
        i = i + 1;
    }
    assert(v@.subrange(0, v@.len() as int) =~= v@);
    r
}

impl TargetConfig {
    /// An exact copy.
    pub fn copy(&self) -> (r: TargetConfig)
        ensures
            r@ == self@,
    {
        TargetConfig {
            address: self.address.clone(),
            enabled: self.enabled,
            tls_domain: copy_opt(&self.tls_domain),
            ca_cert: copy_opt(&self.ca_cert),
            vendor: copy_opt(&self.vendor),
            credential_alias: copy_opt(&self.credential_alias),
            username_env: copy_opt(&self.username_env),
            password_env: copy_opt(&self.password_env),
            username: copy_opt(&self.username),
            password: copy_opt(&self.password),
            hostname: copy_opt(&self.hostname),
            role: copy_opt(&self.role),
            site: copy_opt(&self.site),
            collector_id: copy_opt(&self.collector_id),
            selected_paths: copy_strings(&self.selected_paths),
            created_at_ns: self.created_at_ns,
            updated_at_ns: self.updated_at_ns,
            created_by: self.created_by.clone(),
            updated_by: self.updated_by.clone(),
            last_operator_action: self.last_operator_action.clone(),
        }
    }
}

/// A copy of a list of targets.
pub fn copy_targets(v: &Vec<TargetConfig>) -> (r: Vec<TargetConfig>)
    ensures
        target_views(r@) == target_views(v@),
{
    let mut r: Vec<TargetConfig> = Vec::new();
    let mut i: usize = 0;
    while i < v.len()
        invariant
            i <= v@.len(),
            target_views(r@) == target_views(v@.subrange(0, i as int)),
        decreases v@.len() - i,
    {
        let ghost before = r@;
        r.push(v[i].copy());
        assert(r@ == before.push(r@.last()));
        assert(target_views(v@.subrange(0, i + 1)) =~= target_views(v@.subrange(0, i as int)).push(v@[i as int]@));
        assert(target_views(r@) =~= target_views(before).push(r@.last()@));
        i = i + 1;
    }
    assert(v@.subrange(0, v@.len() as int) =~= v@);
    r
}

/// A change to the set of managed devices.
pub enum RegistryChange {
    Added(TargetConfig),
    /// The address of the removed device.
    Removed(String),
    Updated(TargetConfig),
}

/// Where a path override applies.
pub enum OverrideScope {
    Site(String),
    RoleEnv { role: String, environment: String },
    Device(String),
}

#[derive(Clone, Copy, Debug, PartialEq, Eq)]
pub enum OverrideAction {
    Add,
    Drop,
    Modify,
}

/// A per-scope change to the subscribed telemetry paths.
pub struct PathOverride {
    pub scope: OverrideScope,
    pub path: String,
    pub action: OverrideAction,
    pub sample_interval_s: Option<u64>,
    pub optional: Option<bool>,
    pub created_at_ns: i64,
    pub created_by: String,
}

/// The abstract value of a scope.
pub enum ScopeView {
    Site(Seq<char>),
    RoleEnv(Seq<char>, Seq<char>),
    Device(Seq<char>),
}

pub open spec fn scope_view(s: OverrideScope) -> ScopeView {
    match s {
        OverrideScope::Site(x) => ScopeView::Site(x@),
        OverrideScope::RoleEnv { role, environment } => ScopeView::RoleEnv(role@, environment@),
        OverrideScope::Device(x) => ScopeView::Device(x@),
    }
}

/// Equality of scopes, field by field.
pub fn scope_eq(a: &OverrideScope, b: &OverrideScope) -> (r: bool)
    ensures
        r == (scope_view(*a) == scope_view(*b)),
{
    match (a, b) {
        (OverrideScope::Site(x), OverrideScope::Site(y)) => str_eq(x.as_str(), y.as_str()),
        (OverrideScope::Device(x), OverrideScope::Device(y)) => str_eq(x.as_str(), y.as_str()),
        (
            OverrideScope::RoleEnv { role: r1, environment: e1 },
            OverrideScope::RoleEnv { role: r2, environment: e2 },
        ) => str_eq(r1.as_str(), r2.as_str()) && str_eq(e1.as_str(), e2.as_str()),
        _ => false,
    }
}

impl OverrideScope {
    pub fn copy(&self) -> (r: OverrideScope)
        ensures
            r == *self,
    {
        match self {
            OverrideScope::Site(s) => OverrideScope::Site(s.clone()),
            OverrideScope::Device(s) => OverrideScope::Device(s.clone()),
            OverrideScope::RoleEnv { role, environment } => OverrideScope::RoleEnv {
                role: role.clone(),
                environment: environment.clone(),
            },
        }
    }
}

impl PathOverride {
    pub fn copy(&self) -> (r: PathOverride)
        ensures
            r == *self,
    {
        PathOverride {
            scope: self.scope.copy(),
            path: self.path.clone(),
            action: self.action,
            sample_interval_s: self.sample_interval_s,
            optional: self.optional,
            created_at_ns: self.created_at_ns,
            created_by: self.created_by.clone(),
        }
    }
}

/// Why a registry operation was refused.
#[derive(Debug, Clone, Copy, PartialEq, Eq)]
pub enum RegistryError {
    /// The address is not a valid `host:port`.
    InvalidAddress,
    /// A device with this address is already managed.
    AlreadyExists,
    /// No device with this address is managed.
    NotFound,
}

impl RegistryError {
    pub fn message(&self) -> (r: String)
        ensures
            *self == RegistryError::InvalidAddress ==> r@ == "device address must be host:port"@,
            *self == RegistryError::AlreadyExists ==> r@ == "device already exists"@,
            *self == RegistryError::NotFound ==> r@ == "device does not exist"@,
    {
        match self {
            RegistryError::InvalidAddress => crate::text::owned("device address must be host:port"),
            RegistryError::AlreadyExists => crate::text::owned("device already exists"),
            RegistryError::NotFound => crate::text::owned("device does not exist"),
        }
    }
}

// ── Audit stamps ─────────────────────────────────────────────────────────────

/// `s` holds only whitespace.
pub open spec fn blank(s: Seq<char>) -> bool {
    trim(s).len() == 0
}

fn is_blank(s: &str) -> (r: bool)
    ensures
        r == blank(s@),
{
    let c = crate::text::chars_of(s);
    let t = crate::text::trim_chars(c.as_slice());
    t.len() == 0
}

/// Audit fields of a newly added target: creation time and author are kept
/// when already set, update time and author are `now` and `actor`.
pub open spec fn new_audit_ok(
    before: TargetView,
    after: TargetView,
    actor: Seq<char>,
    action: Seq<char>,
    now: i64,
) -> bool {
    &&& after.created_at_ns == (if before.created_at_ns <= 0 { now } else { before.created_at_ns })
    &&& after.updated_at_ns == now
    &&& after.created_by == (if blank(before.created_by) { actor } else { before.created_by })
    &&& after.updated_by == actor
    &&& after.last_operator_action == action
}

/// Audit fields of an updated target: creation time and author come from the
/// stored target (or `now` and `actor` when it has none).
pub open spec fn existing_audit_ok(
    existing: TargetView,
    after: TargetView,
    actor: Seq<char>,
    action: Seq<char>,
    now: i64,
) -> bool {
    &&& after.created_at_ns == (if existing.created_at_ns > 0 { existing.created_at_ns } else { now })
    &&& after.created_by == (if blank(existing.created_by) { actor } else { existing.created_by })
    &&& after.updated_at_ns == now
    &&& after.updated_by == actor
    &&& after.last_operator_action == action
}

/// Every field but the audit fields is unchanged.
pub open spec fn same_but_audit(a: TargetView, b: TargetView) -> bool {
    &&& a.address == b.address
    &&& a.enabled == b.enabled
    &&& a.tls_domain == b.tls_domain
    &&& a.ca_cert == b.ca_cert
    &&& a.vendor == b.vendor
    &&& a.credential_alias == b.credential_alias
    &&& a.username_env == b.username_env
    &&& a.password_env == b.password_env
    &&& a.username == b.username
    &&& a.password == b.password
    &&& a.hostname == b.hostname
    &&& a.role == b.role
    &&& a.site == b.site
    &&& a.collector_id == b.collector_id
    &&& a.selected_paths == b.selected_paths
}

/// Stamps the audit fields of a target that is being added.
pub fn stamp_new_target_audit(target: &mut TargetConfig, actor: &str, action: &str, now: i64)
    ensures
        new_audit_ok(old(target)@, final(target)@, actor@, action@, now),
        same_but_audit(old(target)@, final(target)@),
{
    if target.created_at_ns <= 0 {
        target.created_at_ns = now;
    }
    target.updated_at_ns = now;
    if is_blank(target.created_by.as_str()) {
        target.created_by = crate::text::owned(actor);
    }
    target.updated_by = crate::text::owned(actor);
    target.last_operator_action = crate::text::owned(action);
}

/// Stamps the audit fields of a target that replaces `existing`.
pub fn stamp_existing_target_audit(
    target: &mut TargetConfig,
    existing: &TargetConfig,
    actor: &str,
    action: &str,
    now: i64,
)
    ensures
        existing_audit_ok(existing@, final(target)@, actor@, action@, now),
        same_but_audit(old(target)@, final(target)@),
{
    target.created_at_ns = if existing.created_at_ns > 0 {
        existing.created_at_ns
    } else {
        now
    };
    target.created_by = if is_blank(existing.created_by.as_str()) {
        crate::text::owned(actor)
    } else {
        existing.created_by.clone()
    };
    target.updated_at_ns = now;
    target.updated_by = crate::text::owned(actor);
    target.last_operator_action = crate::text::owned(action);
}

// ── Registry state ───────────────────────────────────────────────────────────

/// The addresses of a list of targets.
pub open spec fn addresses(t: Seq<TargetView>) -> Seq<Seq<char>> {
    t.map_values(|x: TargetView| x.address)
}

/// The target stored under `address`, if any.
pub open spec fn lookup(t: Seq<TargetView>, address: Seq<char>) -> Option<TargetView> {
    if exists|i: int| 0 <= i < t.len() && t[i].address == address {
        Some(t[choose|i: int| 0 <= i < t.len() && t[i].address == address])
    } else {
        None
    }
}

/// Two target lists hold the same entry under every address but `a`.
pub open spec fn same_except(t1: Seq<TargetView>, t2: Seq<TargetView>, a: Seq<char>) -> bool {
    forall|k: Seq<char>| k != a ==> #[trigger] lookup(t1, k) == lookup(t2, k)
}

proof fn lemma_lookup_at(t: Seq<TargetView>, i: int)
    requires
        strictly_sorted(addresses(t)),
        0 <= i < t.len(),
    ensures
        lookup(t, t[i].address) == Some(t[i]),
{
    let a = t[i].address;
    assert(0 <= i < t.len() && t[i].address == a);
    let j = choose|j: int| 0 <= j < t.len() && t[j].address == a;
    if j != i {
        if j < i {
            assert(seq_lt(addresses(t)[j], addresses(t)[i]));
        } else {
            assert(seq_lt(addresses(t)[i], addresses(t)[j]));
        }
        lemma_lt_irrefl(a);
    }
}

proof fn lemma_lookup_none(t: Seq<TargetView>, a: Seq<char>)
    requires
        forall|i: int| 0 <= i < t.len() ==> t[i].address != a,
    ensures
        lookup(t, a) is None,
{
}

/// The managed-device set, ordered by address, and the path overrides.
pub struct RegistryState {
    targets: Vec<TargetConfig>,
    overrides: Vec<PathOverride>,
}

impl RegistryState {
    /// The managed devices, by increasing address.
    pub closed spec fn tv(&self) -> Seq<TargetView> {
        target_views(self.targets@)
    }

    /// The path overrides, in the order they were added.
    pub closed spec fn override_list(&self) -> Seq<PathOverride> {
        self.overrides@
    }

    /// Addresses are strictly increasing, hence unique.
    #[verifier::type_invariant]
    spec fn wf(&self) -> bool {
        strictly_sorted(addresses(self.tv()))
    }

    pub open spec fn get(&self, address: Seq<char>) -> Option<TargetView> {
        lookup(self.tv(), address)
    }

    /// An empty registry.
    pub fn new() -> (r: RegistryState)
        ensures
            r.tv().len() == 0,
            r.override_list().len() == 0,
    {
        RegistryState { targets: Vec::new(), overrides: Vec::new() }
    }

    /// The index at which `address` is stored, or at which it would be inserted.
    fn position(&self, address: &str) -> (r: (usize, bool))
        requires
            self.wf(),
        ensures
            r.0 <= self.tv().len(),
            forall|k: int| 0 <= k < r.0 ==> seq_lt(#[trigger] self.tv()[k].address, address@),
            r.1 ==> r.0 < self.tv().len() && self.tv()[r.0 as int].address == address@,
            !r.1 ==> r.0 == self.tv().len() || seq_lt(address@, self.tv()[r.0 as int].address),
            r.1 == (self.get(address@) is Some),
    {
        let ghost t = self.tv();
        let mut p: usize = 0;
        let mut found = false;
        let mut stop = false;
        while !stop && p < self.targets.len()
            invariant
                self.wf(),
                t == self.tv(),
                t.len() == self.targets@.len(),
                p <= t.len(),
                forall|k: int| 0 <= k < p ==> seq_lt(#[trigger] t[k].address, address@),
                found ==> stop,
                found ==> p < t.len() && t[p as int].address == address@,
                stop && !found ==> p < t.len() && seq_lt(address@, t[p as int].address),
            decreases t.len() - p + (if stop { 0int } else { 1int }),
        {
            let c = compare_str(self.targets[p].address.as_str(), address);
            assert(t[p as int].address == self.targets@[p as int].address@);
            if c == 0 {
                found = true;
                stop = true;
            } else if c == 1 {
                stop = true;
            } else {
                p = p + 1;
            }
        }
        proof {
            if found {
                lemma_lookup_at(t, p as int);
            } else {
                assert forall|j: int| 0 <= j < t.len() implies t[j].address != address@ by {
                    if j < p {
                        assert(seq_lt(t[j].address, address@));
                        lemma_lt_irrefl(address@);
                    } else if p < t.len() {
                        if j > p {
                            assert(seq_lt(addresses(t)[p as int], addresses(t)[j]));
                            lemma_lt_trans(address@, t[p as int].address, t[j].address);
                        }
                        lemma_lt_irrefl(address@);
                    }
                }
                lemma_lookup_none(t, address@);
            }
        }
        (p, found)
    }

    /// Inserts or replaces the entry under the target's address.
    pub fn put(&mut self, target: TargetConfig)
        ensures
            final(self).get(target.address@) == Some(target@),
            same_except(old(self).tv(), final(self).tv(), target.address@),
            final(self).override_list() == old(self).override_list(),
    {
        proof {
            use_type_invariant(&*self);
        }
        let (p, found) = self.position(target.address.as_str());
        let ghost before = self.tv();
        let ghost a = target.address@;
        let ghost tview = target@;
        let mut targets: Vec<TargetConfig> = Vec::new();
        std::mem::swap(&mut targets, &mut self.targets);
        if found {
            targets.set(p, target);
            proof {
                let after = target_views(targets@);
                assert(after =~= before.update(p as int, tview));
                assert(addresses(after) =~= addresses(before));
                lemma_lookup_at(after, p as int);
                assert forall|k: Seq<char>| k != a implies #[trigger] lookup(before, k) == lookup(after, k) by {
                    if exists|i: int| 0 <= i < before.len() && before[i].address == k {
                        let i = choose|i: int| 0 <= i < before.len() && before[i].address == k;
                        lemma_lookup_at(before, i);
                        lemma_lookup_at(after, i);
                    } else {
                        assert forall|i: int| 0 <= i < after.len() implies after[i].address != k by {
                            if i != p {
                                assert(after[i] == before[i]);
                            }
                        }
                        lemma_lookup_none(after, k);
                    }
                }
            }
        } else {
            targets.insert(p, target);
            proof {
                let after = target_views(targets@);
                assert(after =~= before.insert(p as int, tview));
                assert forall|x: int, y: int| 0 <= x < y < after.len() implies seq_lt(addresses(after)[x], addresses(after)[y]) by {
                    if y < p {
                        assert(after[x] == before[x]);
                        assert(after[y] == before[y]);
                        assert(seq_lt(addresses(before)[x], addresses(before)[y]));
                    } else if x < p && y == p {
                        assert(after[x] == before[x]);
                    } else if x < p && y > p {
                        assert(after[x] == before[x]);
                        assert(after[y] == before[y - 1]);
                        lemma_lt_trans(before[x].address, a, before[p as int].address);
                        if y - 1 > p {
                            assert(seq_lt(addresses(before)[p as int], addresses(before)[y - 1]));
                            lemma_lt_trans(before[x].address, before[p as int].address, before[y - 1].address);
                        }
                    } else if x == p {
                        assert(after[y] == before[y - 1]);
                        if y - 1 > p {
                            assert(seq_lt(addresses(before)[p as int], addresses(before)[y - 1]));
                            lemma_lt_trans(a, before[p as int].address, before[y - 1].address);
                        }
                    } else {
                        assert(after[x] == before[x - 1]);
                        assert(after[y] == before[y - 1]);
                        assert(seq_lt(addresses(before)[x - 1], addresses(before)[y - 1]));
                    }
                }
                lemma_lookup_at(after, p as int);
                assert forall|k: Seq<char>| k != a implies #[trigger] lookup(before, k) == lookup(after, k) by {
                    if exists|i: int| 0 <= i < before.len() && before[i].address == k {
                        let i = choose|i: int| 0 <= i < before.len() && before[i].address == k;
                        lemma_lookup_at(before, i);
                        if i < p {
                            assert(after[i] == before[i]);
                            lemma_lookup_at(after, i);
                        } else {
                            assert(after[i + 1] == before[i]);
                            lemma_lookup_at(after, i + 1);
                        }
                    } else {
                        assert forall|i: int| 0 <= i < after.len() implies after[i].address != k by {
                            if i < p {
                                assert(after[i] == before[i]);
                            } else if i > p {
                                assert(after[i] == before[i - 1]);
                            }
                        }
                        lemma_lookup_none(after, k);
                    }
                }
            }
        }
        self.targets = targets;
    }

    /// Removes the entry under `address`, returning it.
    pub fn take(&mut self, address: &str) -> (r: Option<TargetConfig>)
        ensures
            opt_target_view(r) == old(self).get(address@),
            final(self).get(address@) is None,
            same_except(old(self).tv(), final(self).tv(), address@),
            final(self).override_list() == old(self).override_list(),
    {
        proof {
            use_type_invariant(&*self);
        }
        let (p, found) = self.position(address);
        if !found {
            return None;
        }
        let ghost before = self.tv();
        proof {
            lemma_lookup_at(before, p as int);
        }
        let mut targets: Vec<TargetConfig> = Vec::new();
        std::mem::swap(&mut targets, &mut self.targets);
        let removed = targets.remove(p);
        proof {
            let after = target_views(targets@);
            assert(after =~= before.remove(p as int));
            assert forall|x: int, y: int| 0 <= x < y < after.len() implies seq_lt(addresses(after)[x], addresses(after)[y]) by {
                let bx = if x < p { x } else { x + 1 };
                let by_ = if y < p { y } else { y + 1 };
                assert(after[x] == before[bx]);
                assert(after[y] == before[by_]);
                assert(seq_lt(addresses(before)[bx], addresses(before)[by_]));
            }
            assert forall|i: int| 0 <= i < after.len() implies after[i].address != address@ by {
                let bi = if i < p { i } else { i + 1 };
                assert(after[i] == before[bi]);
                if bi < p {
                    assert(seq_lt(addresses(before)[bi], addresses(before)[p as int]));
                } else {
                    assert(seq_lt(addresses(before)[p as int], addresses(before)[bi]));
                }
                lemma_lt_irrefl(address@);
            }
            lemma_lookup_none(after, address@);
            assert forall|k: Seq<char>| k != address@ implies #[trigger] lookup(before, k) == lookup(after, k) by {
                if exists|i: int| 0 <= i < before.len() && before[i].address == k {
                    let i = choose|i: int| 0 <= i < before.len() && before[i].address == k;
                    lemma_lookup_at(before, i);
                    assert(i != p);
                    if i < p {
                        assert(after[i] == before[i]);
                        lemma_lookup_at(after, i);
                    } else {
                        assert(after[i - 1] == before[i]);
                        lemma_lookup_at(after, i - 1);
                    }
                } else {
                    assert forall|i: int| 0 <= i < after.len() implies after[i].address != k by {
                        let bi = if i < p { i } else { i + 1 };
                        assert(after[i] == before[bi]);
                    }
                    lemma_lookup_none(after, k);
                }
            }
        }
        self.targets = targets;
        Some(removed)
    }

    /// The registry built from a target list; a later target replaces an
    /// earlier one with the same address.
    pub fn from_targets(targets: Vec<TargetConfig>) -> (r: RegistryState)
        ensures
            r.override_list().len() == 0,
            forall|k: Seq<char>| #[trigger] r.get(k) == last_with_address(target_views(targets@), k),
    {
        let mut state = RegistryState::new();
        let mut rest = targets;
        let ghost all = target_views(rest@);
        let n = rest.len();
        let mut items: Vec<TargetConfig> = Vec::new();
        while rest.len() > 0
            invariant
                rest@.len() + items@.len() == n == all.len(),
                target_views(rest@) =~= all.subrange(0, rest@.len() as int),
                forall|j: int| 0 <= j < items@.len() ==> #[trigger] items@[j]@ == all[n - 1 - j],
            decreases rest@.len(),
        {
            let ghost before = rest@;
            let t = rest.pop().unwrap();
            proof {
                assert(rest@ =~= before.drop_last());
                assert(t == before[rest@.len() as int]);
                assert(target_views(before)[rest@.len() as int] == before[rest@.len() as int]@);
                assert(t@ == all[rest@.len() as int]);
                assert(target_views(rest@) =~= all.subrange(0, rest@.len() as int));
            }
            items.push(t);
        }
        while items.len() > 0
            invariant
                state.overrides@.len() == 0,
                items@.len() <= n == all.len(),
                forall|j: int| 0 <= j < items@.len() ==> #[trigger] items@[j]@ == all[n - 1 - j],
                forall|k: Seq<char>| #[trigger] state.get(k) == last_with_address(all.subrange(0, n - items@.len()), k),
            decreases items@.len(),
        {
            let ghost m = n - items@.len();
            let ghost before_items = items@;
            let t = items.pop().unwrap();
            proof {
                assert(items@ =~= before_items.drop_last());
                assert(t@ == all[m]);
                assert(all.subrange(0, m + 1) =~= all.subrange(0, m).push(t@));
            }
            let ghost prev = state.tv();
            proof {
                assert forall|k: Seq<char>| #[trigger] lookup(prev, k) == last_with_address(all.subrange(0, m), k) by {
                    assert(state.get(k) == last_with_address(all.subrange(0, m), k));
                }
            }
            state.put(t);
            proof {
                assert forall|k: Seq<char>| #[trigger] state.get(k) == last_with_address(all.subrange(0, m + 1), k) by {
                    lemma_last_with_address_push(all.subrange(0, m), t@, k);
                    if k != t@.address {
                        assert(lookup(prev, k) == lookup(state.tv(), k));
                    }
                }
            }
        }
        proof {
            assert(all.subrange(0, n as int) =~= all);
        }
        state
    }

    /// The targets in address order.
    pub fn to_vec(&self) -> (r: Vec<TargetConfig>)
        ensures
            target_views(r@) == self.tv(),
    {
        proof {
            use_type_invariant(self);
        }
        copy_targets(&self.targets)
    }

    /// The device stored under `address`.
    pub fn get_device(&self, address: &str) -> (r: Option<TargetConfig>)
        ensures
            opt_target_view(r) == self.get(address@),
    {
        proof {
            use_type_invariant(self);
        }
        let (p, found) = self.position(address);
        if found {
            proof {
                lemma_lookup_at(self.tv(), p as int);
            }
            Some(self.targets[p].copy())
        } else {
            None
        }
    }

    /// Adds a device that is not yet managed, stamping its audit fields.
    pub fn add_device_with_audit(
        &mut self,
        target: TargetConfig,
        actor: &str,
        action: &str,
        now: i64,
    ) -> (r: Result<TargetConfig, RegistryError>)
        ensures
            final(self).override_list() == old(self).override_list(),
            !valid_host_port(trim(target.address@)) ==> r == Err::<TargetConfig, RegistryError>(RegistryError::InvalidAddress),
            valid_host_port(trim(target.address@)) && old(self).get(trim(target.address@)) is Some ==> r == Err::<TargetConfig, RegistryError>(RegistryError::AlreadyExists),
            valid_host_port(trim(target.address@)) && old(self).get(trim(target.address@)) is None ==> r is Ok,
            r is Err ==> final(self).tv() == old(self).tv(),
            r matches Ok(t) ==> {
                &&& valid_host_port(trim(target.address@))
                &&& old(self).get(trim(target.address@)) is None
                &&& t@.address == trim(target.address@)
                &&& new_audit_ok(target@, t@, actor@, action@, now)
                &&& same_but_audit(TargetView { address: t@.address, ..target@ }, t@)
                &&& final(self).get(t@.address) == Some(t@)
                &&& same_except(old(self).tv(), final(self).tv(), t@.address)
            },
    {
        proof {
            use_type_invariant(&*self);
        }
        let address = match normalize_address(target.address.as_str()) {
            Ok(a) => a,
            Err(_) => return Err(RegistryError::InvalidAddress),
        };
        let (_, found) = self.position(address.as_str());
        if found {
            return Err(RegistryError::AlreadyExists);
        }
        let ghost original = target@;
        let mut target = target;
        target.address = address;
        let ghost with_address = target@;
        stamp_new_target_audit(&mut target, actor, action, now);
        let out = target.copy();
        self.put(target);
        Ok(out)
    }

    /// Replaces a managed device, keeping its creation audit fields.
    pub fn update_device_with_audit(
        &mut self,
        target: TargetConfig,
        actor: &str,
        action: &str,
        now: i64,
    ) -> (r: Result<TargetConfig, RegistryError>)
        ensures
            final(self).override_list() == old(self).override_list(),
            !valid_host_port(trim(target.address@)) ==> r == Err::<TargetConfig, RegistryError>(RegistryError::InvalidAddress),
            valid_host_port(trim(target.address@)) && old(self).get(trim(target.address@)) is None ==> r == Err::<TargetConfig, RegistryError>(RegistryError::NotFound),
            valid_host_port(trim(target.address@)) && old(self).get(trim(target.address@)) is Some ==> r is Ok,
            r is Err ==> final(self).tv() == old(self).tv(),
            r matches Ok(t) ==> {
                &&& valid_host_port(trim(target.address@))
                &&& old(self).get(trim(target.address@)) is Some
                &&& t@.address == trim(target.address@)
                &&& existing_audit_ok(old(self).get(t@.address)->0, t@, actor@, action@, now)
                &&& same_but_audit(TargetView { address: t@.address, ..target@ }, t@)
                &&& final(self).get(t@.address) == Some(t@)
                &&& same_except(old(self).tv(), final(self).tv(), t@.address)
            },
    {
        proof {
            use_type_invariant(&*self);
        }
        let address = match normalize_address(target.address.as_str()) {
            Ok(a) => a,
            Err(_) => return Err(RegistryError::InvalidAddress),
        };
        let existing = match self.get_device(address.as_str()) {
            None => return Err(RegistryError::NotFound),
            Some(e) => e,
        };
        let mut target = target;
        target.address = address;
        stamp_existing_target_audit(&mut target, &existing, actor, action, now);
        let out = target.copy();
        self.put(target);
        Ok(out)
    }

    /// Removes a managed device.
    pub fn remove_device(&mut self, address: &str) -> (r: Result<Option<TargetConfig>, RegistryError>)
        ensures
            final(self).override_list() == old(self).override_list(),
            !valid_host_port(trim(address@)) <==> r is Err,
            r is Err ==> r == Err::<Option<TargetConfig>, RegistryError>(RegistryError::InvalidAddress) && final(self).tv() == old(self).tv(),
            r matches Ok(removed) ==> {
                &&& opt_target_view(removed) == old(self).get(trim(address@))
                &&& final(self).get(trim(address@)) is None
                &&& same_except(old(self).tv(), final(self).tv(), trim(address@))
            },
    {
        proof {
            use_type_invariant(&*self);
        }
        let address = match normalize_address(address) {
            Ok(a) => a,
            Err(_) => return Err(RegistryError::InvalidAddress),
        };
        Ok(self.take(address.as_str()))
    }

    /// Assigns a managed device to a collector (or unassigns it with `None`).
    pub fn assign_device_with_audit(
        &mut self,
        address: &str,
        collector_id: Option<String>,
        actor: &str,
        action: &str,
        now: i64,
    ) -> (r: Result<TargetConfig, RegistryError>)
        ensures
            final(self).override_list() == old(self).override_list(),
            !valid_host_port(trim(address@)) ==> r == Err::<TargetConfig, RegistryError>(RegistryError::InvalidAddress),
            valid_host_port(trim(address@)) && old(self).get(trim(address@)) is None ==> r == Err::<TargetConfig, RegistryError>(RegistryError::NotFound),
            valid_host_port(trim(address@)) && old(self).get(trim(address@)) is Some ==> r is Ok,
            r is Err ==> final(self).tv() == old(self).tv(),
            r matches Ok(t) ==> {
                &&& old(self).get(trim(address@)) is Some
                &&& t@ == TargetView {
                    collector_id: opt_view(collector_id),
                    updated_at_ns: now,
                    updated_by: actor@,
                    last_operator_action: action@,
                    ..old(self).get(trim(address@))->0
                }
                &&& final(self).get(trim(address@)) == Some(t@)
                &&& same_except(old(self).tv(), final(self).tv(), trim(address@))
            },
    {
        proof {
            use_type_invariant(&*self);
        }
        let address = match normalize_address(address) {
            Ok(a) => a,
            Err(_) => return Err(RegistryError::InvalidAddress),
        };
        let mut target = match self.get_device(address.as_str()) {
            None => return Err(RegistryError::NotFound),
            Some(t) => t,
        };
        proof {
            lemma_get_address(self.tv(), address@);
        }
        target.collector_id = collector_id;
        target.updated_at_ns = now;
        target.updated_by = crate::text::owned(actor);
        target.last_operator_action = crate::text::owned(action);
        let out = target.copy();
        self.put(target);
        Ok(out)
    }

    /// All managed devices, in address order.
    pub fn list_all_targets(&self) -> (r: Vec<TargetConfig>)
        ensures
            target_views(r@) == self.tv(),
    {
        proof {
            use_type_invariant(self);
        }
        copy_targets(&self.targets)
    }

    /// The managed devices assigned to `collector_id`, in address order.
    pub fn list_assigned_to(&self, collector_id: &str) -> (r: Vec<TargetConfig>)
        ensures
            target_views(r@) == self.tv().filter(|t: TargetView| t.collector_id == Some(collector_id@)),
    {
        proof {
            use_type_invariant(self);
        }
        let ghost f = |t: TargetView| t.collector_id == Some(collector_id@);
        let mut r: Vec<TargetConfig> = Vec::new();
        let mut i: usize = 0;
        while i < self.targets.len()
            invariant
                i <= self.targets@.len(),
                f == |t: TargetView| t.collector_id == Some(collector_id@),
                target_views(r@) == self.tv().subrange(0, i as int).filter(f),
            decreases self.targets@.len() - i,
        {
            let t = &self.targets[i];
            let keep = match &t.collector_id {
                Some(c) => str_eq(c.as_str(), collector_id),
                None => false,
            };
            proof {
                assert(self.tv().subrange(0, i + 1) =~= self.tv().subrange(0, i as int).push(self.tv()[i as int]));
                self.tv().subrange(0, i as int).lemma_filter_push(self.tv()[i as int], f);
                assert(self.tv()[i as int] == t@);
            }
            if keep {
                let ghost before = r@;
                r.push(t.copy());
                assert(target_views(r@) =~= target_views(before).push(t@));
            }
            i = i + 1;
        }
        assert(self.tv().subrange(0, self.tv().len() as int) =~= self.tv());
        r
    }

    /// Adds seed targets that are not already managed (an existing entry under
    /// the same address wins). Fails on the first seed whose address is invalid.
    pub fn merge_seed_targets(&mut self, seeds: Vec<TargetConfig>) -> (r: Result<(), AddressError>)
        ensures
            final(self).override_list() == old(self).override_list(),
            r is Ok <==> forall|i: int| 0 <= i < seeds@.len() ==> valid_host_port(trim(#[trigger] seeds@[i].address@)),
            r is Ok ==> forall|k: Seq<char>| old(self).get(k) is Some ==> #[trigger] final(self).get(k) == old(self).get(k),
            r is Ok ==> forall|i: int| 0 <= i < seeds@.len() ==> #[trigger] final(self).get(trim(seeds@[i].address@)) is Some,
    {
        proof {
            use_type_invariant(&*self);
        }
        let mut i: usize = 0;
        let ghost start = self.tv();
        while i < seeds.len()
            invariant
                self.overrides@ == old(self).override_list(),
                i <= seeds@.len(),
                start == old(self).tv(),
                forall|j: int| 0 <= j < i ==> valid_host_port(trim(#[trigger] seeds@[j].address@)),
                forall|k: Seq<char>| #[trigger] lookup(start, k) is Some ==> self.get(k) == lookup(start, k),
                forall|j: int| 0 <= j < i ==> #[trigger] self.get(trim(seeds@[j].address@)) is Some,
            decreases seeds@.len() - i,
        {
            let address = match normalize_address(seeds[i].address.as_str()) {
                Ok(a) => a,
                Err(e) => return Err(e),
            };
            proof {
                use_type_invariant(&*self);
            }
            let (_, found) = self.position(address.as_str());
            if !found {
                let mut t = seeds[i].copy();
                t.address = address;
                let ghost a = t.address@;
                let ghost prev = self.tv();
                let ghost keys = Seq::new(i as nat, |j: int| trim(seeds@[j].address@));
                proof {
                    assert forall|j: int| 0 <= j < keys.len() implies #[trigger] lookup(prev, keys[j]) is Some by {
                        assert(self.get(trim(seeds@[j].address@)) is Some);
                    }
                }
                self.put(t);
                proof {
                    lemma_merge_step(start, prev, self.tv(), a, keys);
                    assert forall|j: int| 0 <= j < i + 1 implies #[trigger] self.get(trim(seeds@[j].address@)) is Some by {
                        if j < i {
                            assert(lookup(self.tv(), keys[j]) is Some);
                        }
                    }
                }
            }
            i = i + 1;
        }
        Ok(())
    }

    /// The path overrides, in the order they were added.
    pub fn list_overrides(&self) -> (r: Vec<PathOverride>)
        ensures
            r@ == self.override_list(),
    {
        proof {
            use_type_invariant(self);
        }
        let mut r: Vec<PathOverride> = Vec::new();
        let mut i: usize = 0;
        while i < self.overrides.len()
            invariant
                i <= self.overrides@.len(),
                r@ == self.overrides@.subrange(0, i as int),
            decreases self.overrides@.len() - i,
        {
            r.push(self.overrides[i].copy());
            assert(self.overrides@.subrange(0, i + 1) =~= self.overrides@.subrange(0, i as int).push(self.overrides@[i as int]));
            i = i + 1;
        }
        assert(self.overrides@.subrange(0, self.overrides@.len() as int) =~= self.overrides@);
        r
    }

    /// Appends a path override.
    pub fn add_override(&mut self, ovr: PathOverride)
        ensures
            final(self).override_list() == old(self).override_list().push(ovr),
            final(self).tv() == old(self).tv(),
    {
        proof {
            use_type_invariant(&*self);
        }
        let mut overrides: Vec<PathOverride> = Vec::new();
        std::mem::swap(&mut overrides, &mut self.overrides);
        overrides.push(ovr);
        self.overrides = overrides;
    }

    /// Removes every override with this scope and path; true when any was removed.
    pub fn remove_override(&mut self, scope: &OverrideScope, path: &str) -> (r: bool)
        ensures
            final(self).override_list() == old(self).override_list().filter(|o: PathOverride| !(scope_view(o.scope) == scope_view(*scope) && o.path@ == path@)),
            r == (final(self).override_list().len() != old(self).override_list().len()),
            final(self).tv() == old(self).tv(),
    {
        proof {
            use_type_invariant(&*self);
        }
        let ghost f = |o: PathOverride| !(scope_view(o.scope) == scope_view(*scope) && o.path@ == path@);
        let mut kept: Vec<PathOverride> = Vec::new();
        let mut i: usize = 0;
        while i < self.overrides.len()
            invariant
                i <= self.overrides@.len(),
                kept@ == self.overrides@.subrange(0, i as int).filter(f),
                f == |o: PathOverride| !(scope_view(o.scope) == scope_view(*scope) && o.path@ == path@),
            decreases self.overrides@.len() - i,
        {
            let o = &self.overrides[i];
            let matches = scope_eq(&o.scope, scope) && str_eq(o.path.as_str(), path);
            proof {
                assert(self.overrides@.subrange(0, i + 1) =~= self.overrides@.subrange(0, i as int).push(self.overrides@[i as int]));
                self.overrides@.subrange(0, i as int).lemma_filter_push(self.overrides@[i as int], f);
            }
            if !matches {
                kept.push(o.copy());
            }
            i = i + 1;
        }
        assert(self.overrides@.subrange(0, self.overrides@.len() as int) =~= self.overrides@);
        let before = self.overrides.len();
        self.overrides = kept;
        self.overrides.len() != before
    }
}

proof fn lemma_merge_step(
    start: Seq<TargetView>,
    prev: Seq<TargetView>,
    next: Seq<TargetView>,
    a: Seq<char>,
    keys: Seq<Seq<char>>,
)
    requires
        forall|k: Seq<char>| #[trigger] lookup(start, k) is Some ==> lookup(prev, k) == lookup(start, k),
        forall|j: int| 0 <= j < keys.len() ==> #[trigger] lookup(prev, keys[j]) is Some,
        lookup(prev, a) is None,
        lookup(next, a) is Some,
        same_except(prev, next, a),
    ensures
        forall|k: Seq<char>| #[trigger] lookup(start, k) is Some ==> lookup(next, k) == lookup(start, k),
        forall|j: int| 0 <= j < keys.len() ==> #[trigger] lookup(next, keys[j]) is Some,
{
    assert forall|k: Seq<char>| #[trigger] lookup(start, k) is Some implies lookup(next, k) == lookup(start, k) by {
        if k != a {
            assert(lookup(prev, k) == lookup(next, k));
        }
    }
    assert forall|j: int| 0 <= j < keys.len() implies #[trigger] lookup(next, keys[j]) is Some by {
        if keys[j] != a {
            assert(lookup(prev, keys[j]) == lookup(next, keys[j]));
        }
    }
}

/// The stored entry has the address it is stored under.
proof fn lemma_get_address(t: Seq<TargetView>, a: Seq<char>)
    requires
        lookup(t, a) is Some,
    ensures
        lookup(t, a)->0.address == a,
{
}

/// The view of an optional target.
pub open spec fn opt_target_view(o: Option<TargetConfig>) -> Option<TargetView> {
    match o {
        Some(t) => Some(t@),
        None => None,
    }
}

/// The last target of the list with this address, if any.
pub open spec fn last_with_address(t: Seq<TargetView>, k: Seq<char>) -> Option<TargetView>
    decreases t.len(),
{
    if t.len() == 0 {
        None
    } else if t.last().address == k {
        Some(t.last())
    } else {
        last_with_address(t.drop_last(), k)
    }
}

proof fn lemma_last_with_address_push(t: Seq<TargetView>, x: TargetView, k: Seq<char>)
    ensures
        last_with_address(t.push(x), k) == (if x.address == k {
            Some(x)
        } else {
            last_with_address(t, k)
        }),
{
    assert(t.push(x).drop_last() =~= t);
}

/// Registry backed by a static target list.
pub struct FileRegistry {
    pub targets: Vec<TargetConfig>,
}

impl FileRegistry {
    pub fn new(targets: Vec<TargetConfig>) -> (r: FileRegistry)
        ensures
            r.targets@ == targets@,
    {
        FileRegistry { targets }
    }

    /// The targets, in the order given.
    pub fn list_active(&self) -> (r: Vec<TargetConfig>)
        ensures
            target_views(r@) == target_views(self.targets@),
    {
        copy_targets(&self.targets)
    }

    /// The changes a new subscriber receives first: one `Added` per target, in order.
    pub fn initial_changes(&self) -> (r: Vec<RegistryChange>)
        ensures
            r@.len() == self.targets@.len(),
            forall|i: int| 0 <= i < r@.len() ==> (#[trigger] r@[i] matches RegistryChange::Added(t) && t@ == self.targets@[i]@),
    {
        let mut r: Vec<RegistryChange> = Vec::new();
        let mut i: usize = 0;
        while i < self.targets.len()
            invariant
                i <= self.targets@.len(),
                r@.len() == i,
                forall|j: int| 0 <= j < i ==> (#[trigger] r@[j] matches RegistryChange::Added(t) && t@ == self.targets@[j]@),
            decreases self.targets@.len() - i,
        {
            r.push(RegistryChange::Added(self.targets[i].copy()));
            i = i + 1;
        }
        r
    }
}

} // verus!
