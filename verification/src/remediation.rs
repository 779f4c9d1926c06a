//! Graduated remediation: trust graduation hints and rollback windows.
//!
//! Graduation is never automatic: the library only suggests that a tuple is
//! ready to move to a less restrictive trust state. An execution under
//! `AutoWithNotification` opens a rollback window during which the operator
//! may roll it back.
use vstd::prelude::*;

use crate::text::{concat, decimal, owned, str_eq, u64_to_string};

verus! {

// ── Trust states ─────────────────────────────────────────────────────────────

/// How much a (rule, environment, site, playbook) tuple is trusted.
#[derive(Debug, Clone, Copy, PartialEq, Eq)]
pub enum TrustState {
    SuggestOnly,
    ApproveEach,
    AutoWithNotification,
    AutoSilent,
}

impl TrustState {
    pub fn as_str(&self) -> (r: &'static str)
        ensures
            r@ == trust_state_name(*self),
    {
        match self {
            TrustState::SuggestOnly => "suggest_only",
            TrustState::ApproveEach => "approve_each",
            TrustState::AutoWithNotification => "auto_with_notification",
            TrustState::AutoSilent => "auto_silent",
        }
    }
}

/// The stored name of a trust state.
pub open spec fn trust_state_name(s: TrustState) -> Seq<char> {
    match s {
        TrustState::SuggestOnly => "suggest_only"@,
        TrustState::ApproveEach => "approve_each"@,
        TrustState::AutoWithNotification => "auto_with_notification"@,
        TrustState::AutoSilent => "auto_silent"@,
    }
}

/// The operator history of one trust tuple.
#[derive(Debug, Clone, Copy, PartialEq, Eq)]
pub struct TrustRecord {
    pub state: TrustState,
    pub consecutive_successes: u32,
    pub operator_approvals: u32,
    pub operator_rejections: u32,
}

impl Default for TrustRecord {
    /// A fresh record: `SuggestOnly`, no history.
    fn default() -> (r: TrustRecord)
        ensures
            r.state == TrustState::SuggestOnly,
            r.consecutive_successes == 0,
            r.operator_approvals == 0,
            r.operator_rejections == 0,
    {
        TrustRecord {
            state: TrustState::SuggestOnly,
            consecutive_successes: 0,
            operator_approvals: 0,
            operator_rejections: 0,
        }
    }
}

// ── Graduation ───────────────────────────────────────────────────────────────

/// A suggestion that a trust tuple may move to a less restrictive state.
pub struct GraduationHint {
    pub trust_key: String,
    pub from_state: String,
    pub to_state: String,
    pub reason: String,
    pub consecutive_approvals: u32,
}

/// The state a record may graduate to, if any: with no rejections, at least
/// `required` consecutive successes and at least `required` approvals,
/// `SuggestOnly` graduates to `ApproveEach` and `ApproveEach` to
/// `AutoWithNotification`; the automatic states never graduate.
pub open spec fn graduation_target(record: TrustRecord, required: u32) -> Option<TrustState> {
    if record.operator_rejections > 0 || record.consecutive_successes < required {
        None
    } else if record.state == TrustState::SuggestOnly && record.operator_approvals >= required {
        Some(TrustState::ApproveEach)
    } else if record.state == TrustState::ApproveEach && record.operator_approvals >= required {
        Some(TrustState::AutoWithNotification)
    } else {
        None
    }
}

/// The reason text of a hint.
pub open spec fn graduation_reason(consecutive: u32) -> Seq<char> {
    decimal(consecutive as nat) + " consecutive approvals, 0 rejections — ready to graduate"@
}

/// Whether `record` qualifies for a graduation hint, and the hint.
pub fn check_graduation(trust_key: &str, record: &TrustRecord, consecutive_required: u32) -> (r: Option<GraduationHint>)
    ensures
        r is Some <==> graduation_target(*record, consecutive_required) is Some,
        r is Some ==> record.operator_rejections == 0 && record.consecutive_successes >= consecutive_required
            && record.operator_approvals >= consecutive_required,
        r is Some ==> record.state == TrustState::SuggestOnly || record.state == TrustState::ApproveEach,
        r matches Some(h) ==> {
            &&& h.trust_key@ == trust_key@
            &&& h.from_state@ == trust_state_name(record.state)
            &&& h.to_state@ == trust_state_name(graduation_target(*record, consecutive_required)->0)
            &&& h.reason@ == graduation_reason(record.consecutive_successes)
            &&& h.consecutive_approvals == record.operator_approvals
        },
{
    if record.operator_rejections > 0 || record.consecutive_successes < consecutive_required {
        return None;
    }
    let (from, to) = match record.state {
        TrustState::SuggestOnly => {
            if record.operator_approvals >= consecutive_required {
                (TrustState::SuggestOnly, TrustState::ApproveEach)
            } else {
                return None;
            }
        },
        TrustState::ApproveEach => {
            if record.operator_approvals >= consecutive_required {
                (TrustState::ApproveEach, TrustState::AutoWithNotification)
            } else {
                return None;
            }
        },
        _ => return None,
    };
    let count = u64_to_string(record.consecutive_successes as u64);
    let reason = concat(count.as_str(), " consecutive approvals, 0 rejections — ready to graduate");
    Some(GraduationHint {
        trust_key: owned(trust_key),
        from_state: owned(from.as_str()),
        to_state: owned(to.as_str()),
        reason,
        consecutive_approvals: record.operator_approvals,
    })
}

// ── Rollback windows ─────────────────────────────────────────────────────────

/// An execution under `AutoWithNotification` that can still be rolled back.
pub struct RollbackState {
    /// The executed proposal.
    pub proposal_id: String,
    /// The remediation written for it.
    pub remediation_id: String,
    /// When the execution completed (ns since the epoch).
    pub executed_at_ns: i64,
    /// How long the rollback offer lasts, in seconds.
    pub window_secs: u64,
    /// JSON snapshot of what was changed.
    pub snapshot_json: String,
    pub rolled_back: bool,
}

/// The arithmetic of `is_expired` stays within `i64` at time `now`.
pub open spec fn expiry_in_range(s: RollbackState, now: i64) -> bool {
    &&& i64::MIN <= now - s.executed_at_ns <= i64::MAX
    &&& i64::MIN <= (s.window_secs as i64) * 1_000_000_000 <= i64::MAX
}

/// The window is consumed (rolled back) or more than `window_secs` seconds
/// have passed since the execution.
pub open spec fn expired(s: RollbackState, now: i64) -> bool {
    s.rolled_back || now - s.executed_at_ns > (s.window_secs as i64) * 1_000_000_000
}

impl RollbackState {
    pub fn is_expired(&self, now_ns: i64) -> (r: bool)
        requires
            expiry_in_range(*self, now_ns),
        ensures
            r == expired(*self, now_ns),
    {
        self.rolled_back || (now_ns - self.executed_at_ns > (self.window_secs as i64) * 1_000_000_000)
    }
}

/// The state stored under `proposal_id`, if any.
pub open spec fn state_of(t: Seq<RollbackState>, proposal_id: Seq<char>) -> Option<RollbackState> {
    if exists|i: int| 0 <= i < t.len() && t[i].proposal_id@ == proposal_id {
        Some(t[choose|i: int| 0 <= i < t.len() && t[i].proposal_id@ == proposal_id])
    } else {
        None
    }
}

/// No proposal id occurs twice.
pub open spec fn unique_proposals(t: Seq<RollbackState>) -> bool {
    forall|i: int, j: int| 0 <= i < j < t.len() ==> t[i].proposal_id@ != t[j].proposal_id@
}

proof fn lemma_state_at(t: Seq<RollbackState>, i: int)
    requires
        unique_proposals(t),
        0 <= i < t.len(),
    ensures
        state_of(t, t[i].proposal_id@) == Some(t[i]),
{
    assert(0 <= i < t.len() && t[i].proposal_id@ == t[i].proposal_id@);
    let j = choose|j: int| 0 <= j < t.len() && t[j].proposal_id@ == t[i].proposal_id@;
    if j < i {
        assert(t[j].proposal_id@ != t[i].proposal_id@);
    } else if j > i {
        assert(t[i].proposal_id@ != t[j].proposal_id@);
    }
}

/// Active rollback windows, keyed by proposal id.
pub struct RollbackRegistry {
    states: Vec<RollbackState>,
}

impl Default for RollbackRegistry {
    /// An empty registry.
    fn default() -> (r: RollbackRegistry)
        ensures
            r.windows().len() == 0,
    {
        RollbackRegistry { states: Vec::new() }
    }
}

impl RollbackRegistry {
    /// The registered windows, in registration order.
    pub closed spec fn windows(&self) -> Seq<RollbackState> {
        self.states@
    }

    /// No proposal has two windows.
    #[verifier::type_invariant]
    spec fn wf(&self) -> bool {
        unique_proposals(self.states@)
    }

    /// The state registered for `id`.
    pub open spec fn lookup(&self, id: Seq<char>) -> Option<RollbackState> {
        state_of(self.windows(), id)
    }

    /// Every registered window can be checked for expiry at time `now`.
    pub open spec fn checkable_at(&self, now: i64) -> bool {
        forall|i: int| 0 <= i < self.windows().len() ==> expiry_in_range(#[trigger] self.windows()[i], now)
    }

    fn find(&self, proposal_id: &str) -> (r: Option<usize>)
        requires
            self.wf(),
        ensures
            match r {
                Some(i) => i < self.states@.len() && self.states@[i as int].proposal_id@ == proposal_id@
                    && self.lookup(proposal_id@) == Some(self.states@[i as int]),
                None => self.lookup(proposal_id@) is None,
            },
    {
        let mut i: usize = 0;
        while i < self.states.len()
            invariant
                self.wf(),
                i <= self.states@.len(),
                forall|j: int| 0 <= j < i ==> self.states@[j].proposal_id@ != proposal_id@,
            decreases self.states@.len() - i,
        {
            if str_eq(self.states[i].proposal_id.as_str(), proposal_id) {
                proof {
                    lemma_state_at(self.states@, i as int);
                }
                return Some(i);
            }
            i = i + 1;
        }
        None
    }

    /// Registers a window; it replaces any window of the same proposal.
    pub fn register(&mut self, state: RollbackState)
        ensures
            final(self).lookup(state.proposal_id@) == Some(state),
            forall|k: Seq<char>| k != state.proposal_id@ ==> #[trigger] final(self).lookup(k) == old(self).lookup(k),
            forall|i: int| 0 <= i < old(self).windows().len() ==> #[trigger] final(self).windows()[i] == (
            if old(self).windows()[i].proposal_id@ == state.proposal_id@ {
                state
            } else {
                old(self).windows()[i]
            }),
            old(self).lookup(state.proposal_id@) is Some ==> final(self).windows().len() == old(self).windows().len(),
            old(self).lookup(state.proposal_id@) is None ==> final(self).windows() == old(self).windows().push(state),
    {
        proof {
            use_type_invariant(&*self);
        }
        let ghost before = self.states@;
        let ghost id = state.proposal_id@;
        let found = self.find(state.proposal_id.as_str());
        let mut states: Vec<RollbackState> = Vec::new();
        std::mem::swap(&mut states, &mut self.states);
        match found {
            Some(i) => {
                states.set(i, state);
                proof {
                    let after = states@;
                    assert forall|a: int, b: int| 0 <= a < b < after.len() implies after[a].proposal_id@ != after[b].proposal_id@ by {
                        if a != i && b != i {
                            assert(after[a] == before[a] && after[b] == before[b]);
                        } else if a == i {
                            assert(after[b] == before[b]);
                            assert(before[a].proposal_id@ != before[b].proposal_id@);
                        } else {
                            assert(after[a] == before[a]);
                            assert(before[a].proposal_id@ != before[b].proposal_id@);
                        }
                    }
                    lemma_state_at(after, i as int);
                    assert forall|k: Seq<char>| k != id implies #[trigger] state_of(after, k) == state_of(before, k) by {
                        lemma_state_other(before, after, i as int, k);
                    }
                }
            },
            None => {
                states.push(state);
                proof {
                    let after = states@;
                    assert forall|a: int, b: int| 0 <= a < b < after.len() implies after[a].proposal_id@ != after[b].proposal_id@ by {
                        assert(after[a] == before[a]);
                        if b < before.len() {
                            assert(after[b] == before[b]);
                        } else if before[a].proposal_id@ == id {
                            lemma_state_at(before, a);
                        }
                    }
                    lemma_state_at(after, after.len() - 1);
                    assert forall|k: Seq<char>| k != id implies #[trigger] state_of(after, k) == state_of(before, k) by {
                        if exists|j: int| 0 <= j < before.len() && before[j].proposal_id@ == k {
                            let j = choose|j: int| 0 <= j < before.len() && before[j].proposal_id@ == k;
                            lemma_state_at(before, j);
                            assert(after[j] == before[j]);
                            lemma_state_at(after, j);
                        } else {
                            assert forall|j: int| 0 <= j < after.len() implies after[j].proposal_id@ != k by {
                                if j < before.len() {
                                    assert(after[j] == before[j]);
                                }
                            }
                        }
                    }
                }
            },
        }
        self.states = states;
    }

    /// The window registered for `proposal_id`.
    pub fn get(&self, proposal_id: &str) -> (r: Option<&RollbackState>)
        ensures
            match r {
                Some(s) => self.lookup(proposal_id@) == Some(*s),
                None => self.lookup(proposal_id@) is None,
            },
    {
        proof {
            use_type_invariant(self);
        }
        match self.find(proposal_id) {
            Some(i) => Some(&self.states[i]),
            None => None,
        }
    }

    /// The windows that have not expired at `now_ns`, in registration order.
    pub fn active_windows(&self, now_ns: i64) -> (r: Vec<&RollbackState>)
        requires
            self.checkable_at(now_ns),
        ensures
            r@.len() == self.windows().filter(|s: RollbackState| !expired(s, now_ns)).len(),
            forall|j: int| 0 <= j < r@.len() ==>
                *#[trigger] r@[j] == self.windows().filter(|s: RollbackState| !expired(s, now_ns))[j],
    {
        let ghost f = |s: RollbackState| !expired(s, now_ns);
        let mut r: Vec<&RollbackState> = Vec::new();
        let mut i: usize = 0;
        while i < self.states.len()
            invariant
                self.checkable_at(now_ns),
                f == |s: RollbackState| !expired(s, now_ns),
                i <= self.states@.len(),
                r@.len() == self.states@.subrange(0, i as int).filter(f).len(),
                forall|j: int| 0 <= j < r@.len() ==>
                    *#[trigger] r@[j] == self.states@.subrange(0, i as int).filter(f)[j],
            decreases self.states@.len() - i,
        {
            proof {
                assert(self.states@.subrange(0, i + 1) =~= self.states@.subrange(0, i as int).push(self.states@[i as int]));
                self.states@.subrange(0, i as int).lemma_filter_push(self.states@[i as int], f);
                assert(expiry_in_range(self.windows()[i as int], now_ns));
            }
            if !self.states[i].is_expired(now_ns) {
                r.push(&self.states[i]);
            }
            i = i + 1;
        }
        assert(self.states@.subrange(0, self.states@.len() as int) =~= self.states@);
        r
    }

    /// Marks the window of `proposal_id` as rolled back, which expires it.
    pub fn mark_rolled_back(&mut self, proposal_id: &str)
        ensures
            final(self).lookup(proposal_id@) == match old(self).lookup(proposal_id@) {
                Some(s) => Some(RollbackState { rolled_back: true, ..s }),
                None => None,
            },
            forall|k: Seq<char>| k != proposal_id@ ==> #[trigger] final(self).lookup(k) == old(self).lookup(k),
            final(self).windows().len() == old(self).windows().len(),
            forall|i: int| 0 <= i < final(self).windows().len() ==>
                (#[trigger] final(self).windows()[i]).executed_at_ns == old(self).windows()[i].executed_at_ns
                && final(self).windows()[i].window_secs == old(self).windows()[i].window_secs,
    {
        proof {
            use_type_invariant(&*self);
        }
        let ghost before = self.states@;
        match self.find(proposal_id) {
            Some(i) => {
                let s = &self.states[i];
                let updated = RollbackState {
                    proposal_id: s.proposal_id.clone(),
                    remediation_id: s.remediation_id.clone(),
                    executed_at_ns: s.executed_at_ns,
                    window_secs: s.window_secs,
                    snapshot_json: s.snapshot_json.clone(),
                    rolled_back: true,
                };
                let mut states: Vec<RollbackState> = Vec::new();
                std::mem::swap(&mut states, &mut self.states);
                states.set(i, updated);
                proof {
                    let after = states@;
                    assert forall|a: int, b: int| 0 <= a < b < after.len() implies after[a].proposal_id@ != after[b].proposal_id@ by {
                        assert(after[a].proposal_id@ == before[a].proposal_id@);
                        assert(after[b].proposal_id@ == before[b].proposal_id@);
                    }
                    lemma_state_at(after, i as int);
                    assert forall|k: Seq<char>| k != proposal_id@ implies #[trigger] state_of(after, k) == state_of(before, k) by {
                        lemma_state_other(before, after, i as int, k);
                    }
                }
                self.states = states;
            },
            None => {},
        }
    }

    /// Drops the windows that have expired at `now_ns`.
    pub fn prune(&mut self, now_ns: i64)
        requires
            old(self).checkable_at(now_ns),
        ensures
            final(self).windows() == old(self).windows().filter(|s: RollbackState| !expired(s, now_ns)),
    {
        proof {
            use_type_invariant(&*self);
        }
        let ghost f = |s: RollbackState| !expired(s, now_ns);
        let mut kept: Vec<RollbackState> = Vec::new();
        let mut old_states: Vec<RollbackState> = Vec::new();
        std::mem::swap(&mut old_states, &mut self.states);
        let ghost all = old_states@;
        let mut rev: Vec<RollbackState> = Vec::new();
        while old_states.len() > 0
            invariant
                old_states@.len() + rev@.len() == all.len(),
                old_states@ =~= all.subrange(0, old_states@.len() as int),
                forall|j: int| 0 <= j < rev@.len() ==> #[trigger] rev@[j] == all[all.len() - 1 - j],
            decreases old_states@.len(),
        {
            let ghost b = old_states@;
            let s = old_states.pop().unwrap();
            proof {
                assert(old_states@ =~= b.drop_last());
            }
            rev.push(s);
        }
        while rev.len() > 0
            invariant
                all == old(self).windows(),
                unique_proposals(all),
                forall|i: int| 0 <= i < all.len() ==> expiry_in_range(#[trigger] all[i], now_ns),
                rev@.len() <= all.len(),
                forall|j: int| 0 <= j < rev@.len() ==> #[trigger] rev@[j] == all[all.len() - 1 - j],
                f == |s: RollbackState| !expired(s, now_ns),
                kept@ == all.subrange(0, all.len() - rev@.len()).filter(f),
            decreases rev@.len(),
        {
            let ghost m = all.len() - rev@.len();
            let ghost b = rev@;
            let s = rev.pop().unwrap();
            proof {
                assert(rev@ =~= b.drop_last());
                assert(s == all[m]);
                assert(all.subrange(0, m + 1) =~= all.subrange(0, m).push(s));
                all.subrange(0, m).lemma_filter_push(s, f);
            }
            if !s.is_expired(now_ns) {
                kept.push(s);
            }
        }
        proof {
            assert(all.subrange(0, all.len() as int) =~= all);
            lemma_filter_unique(all, f);
        }
        self.states = kept;
    }
}

proof fn lemma_filter_unique(t: Seq<RollbackState>, f: spec_fn(RollbackState) -> bool)
    requires
        unique_proposals(t),
    ensures
        unique_proposals(t.filter(f)),
    decreases t.len(),
{
    reveal(Seq::filter);
    if t.len() > 0 {
        let pre = t.drop_last();
        assert(unique_proposals(pre)) by {
            assert forall|i: int, j: int| 0 <= i < j < pre.len() implies pre[i].proposal_id@ != pre[j].proposal_id@ by {
                assert(pre[i] == t[i] && pre[j] == t[j]);
            }
        }
        lemma_filter_unique(pre, f);
        if f(t.last()) {
            let fp = pre.filter(f);
            assert forall|i: int| 0 <= i < fp.len() implies fp[i].proposal_id@ != t.last().proposal_id@ by {
                assert(fp.contains(fp[i]));
                pre.lemma_filter_contains_rev(f, fp[i]);
                let k = choose|k: int| 0 <= k < pre.len() && pre[k] == fp[i];
                assert(t[k] == pre[k]);
                assert(t[k].proposal_id@ != t[t.len() - 1].proposal_id@);
            }
        }
    }
}

proof fn lemma_state_other(before: Seq<RollbackState>, after: Seq<RollbackState>, i: int, k: Seq<char>)
    requires
        unique_proposals(before),
        unique_proposals(after),
        0 <= i < before.len(),
        after.len() == before.len(),
        after[i].proposal_id@ == before[i].proposal_id@,
        forall|j: int| 0 <= j < before.len() && j != i ==> after[j] == before[j],
        k != before[i].proposal_id@,
    ensures
        state_of(after, k) == state_of(before, k),
{
    if exists|j: int| 0 <= j < before.len() && before[j].proposal_id@ == k {
        let j = choose|j: int| 0 <= j < before.len() && before[j].proposal_id@ == k;
        lemma_state_at(before, j);
        assert(after[j] == before[j]);
        lemma_state_at(after, j);
    } else {
        assert forall|j: int| 0 <= j < after.len() implies after[j].proposal_id@ != k by {
            if j != i {
                assert(after[j] == before[j]);
            }
        }
    }
}


// ── Laws ─────────────────────────────────────────────────────────────────────

/// The automatic trust states never graduate, whatever their history.
pub proof fn lemma_automatic_never_graduates(record: TrustRecord, required: u32)
    requires
        record.state == TrustState::AutoSilent || record.state == TrustState::AutoWithNotification,
    ensures
        graduation_target(record, required) is None,
{
}

/// A single rejection blocks graduation.
pub proof fn lemma_rejection_blocks_graduation(record: TrustRecord, required: u32)
    requires
        record.operator_rejections > 0,
    ensures
        graduation_target(record, required) is None,
{
}

/// Graduation moves one step down the ladder, never to an automatic state
/// from `SuggestOnly`, and never to `AutoSilent`.
pub proof fn lemma_graduation_one_step(record: TrustRecord, required: u32)
    requires
        graduation_target(record, required) is Some,
    ensures
        record.state == TrustState::SuggestOnly ==> graduation_target(record, required) == Some(TrustState::ApproveEach),
        record.state == TrustState::ApproveEach ==> graduation_target(record, required) == Some(
            TrustState::AutoWithNotification,
        ),
        graduation_target(record, required) != Some(TrustState::AutoSilent),
{
}

/// A rolled-back window is expired at every time: it cannot be rolled back
/// twice.
pub proof fn lemma_rolled_back_always_expired(s: RollbackState, now: i64)
    requires
        s.rolled_back,
    ensures
        expired(s, now),
{
}

/// Once expired by time, a window stays expired later on.
pub proof fn lemma_expiry_persists(s: RollbackState, t1: i64, t2: i64)
    requires
        expired(s, t1),
        t1 <= t2,
    ensures
        expired(s, t2),
{
}

/// A hint needs, whatever the state, no rejection and at least the required
/// number of both consecutive successes and operator approvals; below the
/// required approvals there is none.
pub proof fn lemma_graduation_needs_approvals(record: TrustRecord, required: u32)
    ensures
        graduation_target(record, required) is Some ==> record.operator_approvals >= required,
        record.operator_approvals < required ==> graduation_target(record, required) is None,
        graduation_target(record, required) is Some <==> (record.operator_rejections == 0
            && record.consecutive_successes >= required && record.operator_approvals >= required && (record.state
            == TrustState::SuggestOnly || record.state == TrustState::ApproveEach)),
{
}

} // verus!
