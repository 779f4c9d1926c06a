//! Per-device, per-role and per-site gates on signal types.
//!
//! A `SignalFilter` holds a snapshot of the stored signal policies and answers
//! one question at write time: should this (device, site, role, signal type)
//! be processed, or dropped? The most specific scope wins: device, then role,
//! then site; with no policy the signal is allowed.
use vstd::prelude::*;

use crate::order::{lemma_filter_pairwise, pairwise};
use crate::text::{str_eq, str_starts_with, starts_with};

verus! {

/// Seconds after which the policy snapshot is reloaded.
pub const REFRESH_INTERVAL_SECS: u64 = 30;

/// The signal type of a telemetry path; none for a gNMI path (anything
/// without one of the streaming or signal prefixes), which the subscriber's
/// own enabling governs.
pub open spec fn signal_type_of(path: Seq<char>) -> Option<Seq<char>> {
    if starts_with(path, "streaming/sflow/"@) {
        Some("sflow"@)
    } else if starts_with(path, "streaming/netflow/"@) {
        Some("netflow"@)
    } else if starts_with(path, "streaming/bmp/"@) {
        Some("bmp"@)
    } else if starts_with(path, "streaming/bgp-ls/"@) {
        Some("bgp_ls"@)
    } else if starts_with(path, "streaming/otlp/"@) {
        Some("otlp"@)
    } else if starts_with(path, "signals/syslog/"@) || starts_with(path, "signals/syslog_fact/"@) {
        Some("syslog"@)
    } else if starts_with(path, "signals/snmp/"@) || starts_with(path, "signals/snmp_fact/"@) {
        Some("snmp"@)
    } else {
        None
    }
}

/// Classifies a telemetry path into a signal type token; none for gNMI.
pub fn signal_type_for_path(path: &str) -> (r: Option<&'static str>)
    ensures
        match r {
            Some(t) => signal_type_of(path@) == Some(t@),
            None => signal_type_of(path@) is None,
        },
{
    if str_starts_with(path, "streaming/sflow/") {
        Some("sflow")
    } else if str_starts_with(path, "streaming/netflow/") {
        Some("netflow")
    } else if str_starts_with(path, "streaming/bmp/") {
        Some("bmp")
    } else if str_starts_with(path, "streaming/bgp-ls/") {
        Some("bgp_ls")
    } else if str_starts_with(path, "streaming/otlp/") {
        Some("otlp")
    } else if str_starts_with(path, "signals/syslog/") || str_starts_with(path, "signals/syslog_fact/") {
        Some("syslog")
    } else if str_starts_with(path, "signals/snmp/") || str_starts_with(path, "signals/snmp_fact/") {
        Some("snmp")
    } else {
        None
    }
}

/// One stored policy: whether `signal_type` is enabled for a scope.
pub struct SignalPolicy {
    pub scope_type: String,
    pub scope_value: String,
    pub signal_type: String,
    pub enabled: bool,
}

/// A policy row as read from storage: a field that was not of the expected
/// type is `None`.
pub struct PolicyRow {
    pub scope_type: Option<String>,
    pub scope_value: Option<String>,
    pub signal_type: Option<String>,
    pub enabled: Option<bool>,
}

/// The key of a policy: scope type, scope value, signal type.
pub type PolicyKey = (Seq<char>, Seq<char>, Seq<char>);

pub open spec fn policy_key(p: SignalPolicy) -> PolicyKey {
    (p.scope_type@, p.scope_value@, p.signal_type@)
}

/// The setting for `key`: the last policy with that key, if any.
pub open spec fn policy_lookup(t: Seq<SignalPolicy>, key: PolicyKey) -> Option<bool>
    decreases t.len(),
{
    if t.len() == 0 {
        None
    } else if policy_key(t.last()) == key {
        Some(t.last().enabled)
    } else {
        policy_lookup(t.drop_last(), key)
    }
}

/// The policy a row stands for: rows whose key fields are not all strings are
/// skipped, and a missing flag means enabled.
pub open spec fn row_policy(r: PolicyRow) -> Option<(PolicyKey, bool)> {
    match (r.scope_type, r.scope_value, r.signal_type) {
        (Some(a), Some(b), Some(c)) => Some(
            ((a@, b@, c@), match r.enabled {
                Some(e) => e,
                None => true,
            }),
        ),
        _ => None,
    }
}

/// The setting for `key` after loading `rows` in order: the last row that
/// stands for a policy with that key decides.
pub open spec fn rows_lookup(rows: Seq<PolicyRow>, key: PolicyKey) -> Option<bool>
    decreases rows.len(),
{
    if rows.len() == 0 {
        None
    } else {
        match row_policy(rows.last()) {
            Some((k, e)) => if k == key {
                Some(e)
            } else {
                rows_lookup(rows.drop_last(), key)
            },
            None => rows_lookup(rows.drop_last(), key),
        }
    }
}

/// The decision of one scope: none for an empty scope value.
pub open spec fn scope_decision(t: Seq<SignalPolicy>, scope_type: Seq<char>, value: Seq<char>, signal: Seq<char>) -> Option<bool> {
    if value.len() == 0 {
        None
    } else {
        policy_lookup(t, (scope_type, value, signal))
    }
}

/// Device, then role, then site decide; with no decision the signal passes.
pub open spec fn allowed(t: Seq<SignalPolicy>, device: Seq<char>, site: Seq<char>, role: Seq<char>, signal: Seq<char>) -> bool {
    match scope_decision(t, "device"@, device, signal) {
        Some(v) => v,
        None => match scope_decision(t, "role"@, role, signal) {
            Some(v) => v,
            None => match scope_decision(t, "site"@, site, signal) {
                Some(v) => v,
                None => true,
            },
        },
    }
}

/// No two policies share a key.
pub open spec fn distinct_keys(a: SignalPolicy, b: SignalPolicy) -> bool {
    policy_key(a) != policy_key(b)
}

/// The policy snapshot and when it was loaded (monotonic ns).
pub struct SignalFilter {
    policies: Vec<SignalPolicy>,
    loaded_at_ns: Option<u64>,
}

proof fn lemma_lookup_without_key(t: Seq<SignalPolicy>, gone: PolicyKey, key: PolicyKey)
    requires
        gone != key,
    ensures
        policy_lookup(t.filter(|p: SignalPolicy| policy_key(p) != gone), key) == policy_lookup(t, key),
    decreases t.len(),
{
    reveal(Seq::filter);
    let f = |p: SignalPolicy| policy_key(p) != gone;
    if t.len() > 0 {
        lemma_lookup_without_key(t.drop_last(), gone, key);
        if f(t.last()) {
            assert(t.filter(f) == t.drop_last().filter(f).push(t.last()));
            assert(t.filter(f).drop_last() =~= t.drop_last().filter(f));
        } else {
            assert(t.filter(f) == t.drop_last().filter(f));
        }
    }
}

impl SignalFilter {
    /// The policies of the snapshot.
    pub closed spec fn policy_list(&self) -> Seq<SignalPolicy> {
        self.policies@
    }

    /// When the snapshot was loaded, if it ever was.
    pub closed spec fn loaded_at(&self) -> Option<u64> {
        self.loaded_at_ns
    }

    /// No two policies share a key.
    #[verifier::type_invariant]
    spec fn wf(&self) -> bool {
        pairwise(self.policies@, |a: SignalPolicy, b: SignalPolicy| distinct_keys(a, b))
    }

    /// An empty filter that has never been loaded.
    pub fn new() -> (r: SignalFilter)
        ensures
            r.policy_list().len() == 0,
            r.loaded_at() is None,
    {
        SignalFilter { policies: Vec::new(), loaded_at_ns: None }
    }

    /// Replaces the snapshot with the policies of `rows`, loaded at `now_ns`.
    pub fn refresh(&mut self, rows: Vec<PolicyRow>, now_ns: u64)
        ensures
            forall|key: PolicyKey| #[trigger] policy_lookup(final(self).policy_list(), key) == rows_lookup(rows@, key),
            final(self).loaded_at() == Some(now_ns),
    {
        let mut map: Vec<SignalPolicy> = Vec::new();
        let ghost rel = |a: SignalPolicy, b: SignalPolicy| distinct_keys(a, b);
        let mut i: usize = 0;
        while i < rows.len()
            invariant
                i <= rows@.len(),
                rel == |a: SignalPolicy, b: SignalPolicy| distinct_keys(a, b),
                pairwise(map@, rel),
                forall|key: PolicyKey| #[trigger] policy_lookup(map@, key) == rows_lookup(rows@.subrange(0, i as int), key),
            decreases rows@.len() - i,
        {
            let row = &rows[i];
            let ghost pre = rows@.subrange(0, i as int);
            proof {
                assert(rows@.subrange(0, i + 1).drop_last() =~= pre);
                assert(rows@.subrange(0, i + 1).last() == rows@[i as int]);
            }
            match (&row.scope_type, &row.scope_value, &row.signal_type) {
                (Some(a), Some(b), Some(c)) => {
                    let enabled = match row.enabled {
                        Some(e) => e,
                        None => true,
                    };
                    let ghost gone: PolicyKey = (a@, b@, c@);
                    let ghost f = |p: SignalPolicy| policy_key(p) != gone;
                    let mut kept: Vec<SignalPolicy> = Vec::new();
                    let mut j: usize = 0;
                    while j < map.len()
                        invariant
                            j <= map@.len(),
                            f == |p: SignalPolicy| policy_key(p) != gone,
                            gone == (a@, b@, c@),
                            kept@ == map@.subrange(0, j as int).filter(f),
                        decreases map@.len() - j,
                    {
                        let p = &map[j];
                        proof {
                            assert(map@.subrange(0, j + 1) =~= map@.subrange(0, j as int).push(map@[j as int]));
                            map@.subrange(0, j as int).lemma_filter_push(map@[j as int], f);
                        }
                        if !(str_eq(p.scope_type.as_str(), a.as_str()) && str_eq(p.scope_value.as_str(), b.as_str())
                            && str_eq(p.signal_type.as_str(), c.as_str())) {
                            kept.push(SignalPolicy {
                                scope_type: p.scope_type.clone(),
                                scope_value: p.scope_value.clone(),
                                signal_type: p.signal_type.clone(),
                                enabled: p.enabled,
                            });
                        }
                        j = j + 1;
                    }
                    proof {
                        assert(map@.subrange(0, map@.len() as int) =~= map@);
                        lemma_filter_pairwise(map@, f, rel);
                    }
                    let ghost filtered = kept@;
                    let np = SignalPolicy { scope_type: a.clone(), scope_value: b.clone(), signal_type: c.clone(), enabled };
                    kept.push(np);
                    proof {
                        assert forall|x: int, y: int| 0 <= x < y < kept@.len() implies rel(#[trigger] kept@[x], #[trigger] kept@[y]) by {
                            if y == kept@.len() - 1 {
                                assert(f(filtered[x]));
                            } else {
                                assert(kept@[x] == filtered[x] && kept@[y] == filtered[y]);
                            }
                        }
                        assert forall|key: PolicyKey| #[trigger] policy_lookup(kept@, key) == rows_lookup(rows@.subrange(0, i + 1), key) by {
                            assert(kept@.drop_last() =~= filtered);
                            if key != gone {
                                lemma_lookup_without_key(map@, gone, key);
                            }
                        }
                    }
                    map = kept;
                },
                _ => {
                    proof {
                        assert forall|key: PolicyKey| #[trigger] policy_lookup(map@, key) == rows_lookup(rows@.subrange(0, i + 1), key) by {
                        }
                    }
                },
            }
            i = i + 1;
        }
        proof {
            assert(rows@.subrange(0, rows@.len() as int) =~= rows@);
        }
        self.policies = map;
        self.loaded_at_ns = Some(now_ns);
    }

    /// The setting of one scope for `signal_type`, scanning from the newest.
    fn check(&self, scope_type: &str, scope_value: &str, signal_type: &str) -> (r: Option<bool>)
        ensures
            r == scope_decision(self.policies@, scope_type@, scope_value@, signal_type@),
    {
        if scope_value.is_empty() {
            return None;
        }
        let ghost key: PolicyKey = (scope_type@, scope_value@, signal_type@);
        proof {
            assert(self.policies@.subrange(0, self.policies@.len() as int) =~= self.policies@);
        }
        let mut k: usize = self.policies.len();
        while k > 0
            invariant
                k <= self.policies@.len(),
                key == (scope_type@, scope_value@, signal_type@),
                scope_value@.len() > 0,
                policy_lookup(self.policies@, key) == policy_lookup(self.policies@.subrange(0, k as int), key),
            decreases k,
        {
            let p = &self.policies[k - 1];
            proof {
                let pre = self.policies@.subrange(0, k as int);
                assert(pre.last() == self.policies@[k - 1]);
                assert(pre.drop_last() =~= self.policies@.subrange(0, k - 1));
            }
            if str_eq(p.scope_type.as_str(), scope_type) && str_eq(p.scope_value.as_str(), scope_value)
                && str_eq(p.signal_type.as_str(), signal_type) {
                proof {
                    let pre = self.policies@.subrange(0, k as int);
                    assert(pre.last() == self.policies@[k - 1]);
                    assert(policy_key(pre.last()) == key);
                    assert(policy_lookup(pre, key) == Some(pre.last().enabled));
                }
                return Some(p.enabled);
            }
            k = k - 1;
        }
        proof {
            assert(self.policies@.subrange(0, 0) =~= Seq::<SignalPolicy>::empty());
        }
        None
    }

    /// Whether an update of `signal_type` from this device should be processed.
    pub fn is_allowed(&self, device_address: &str, site: &str, role: &str, signal_type: &str) -> (r: bool)
        ensures
            r == allowed(self.policy_list(), device_address@, site@, role@, signal_type@),
    {
        proof {
            reveal_strlit("device");
            reveal_strlit("role");
            reveal_strlit("site");
        }
        if let Some(v) = self.check("device", device_address, signal_type) {
            return v;
        }
        if let Some(v) = self.check("role", role, signal_type) {
            return v;
        }
        if let Some(v) = self.check("site", site, signal_type) {
            return v;
        }
        true
    }

    /// Whether the snapshot is due for a reload at `now_ns`: never loaded, or
    /// loaded more than the refresh interval ago.
    pub fn needs_refresh(&self, now_ns: u64) -> (r: bool)
        ensures
            r == match self.loaded_at() {
                None => true,
                Some(t) => (if now_ns >= t { now_ns - t } else { 0 }) > REFRESH_INTERVAL_SECS * 1_000_000_000,
            },
    {
        match self.loaded_at_ns {
            None => true,
            Some(t) => now_ns.saturating_sub(t) > REFRESH_INTERVAL_SECS * 1_000_000_000,
        }
    }
}

impl Default for SignalFilter {
    fn default() -> (r: SignalFilter)
        ensures
            r.policy_list().len() == 0,
            r.loaded_at() is None,
    {
        SignalFilter::new()
    }
}

/// A filter with no policies lets every signal through.
pub proof fn lemma_no_policies_allow_all(device: Seq<char>, site: Seq<char>, role: Seq<char>, signal: Seq<char>)
    ensures
        allowed(Seq::empty(), device, site, role, signal),
{
}

} // verus!
