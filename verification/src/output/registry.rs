//! The output adapters that operators configure: their settings in the
//! order they were added, and the run state of each by name.
//!
//! Reading and writing the settings file belongs to the caller; the
//! adapter-specific extra settings are kept as JSON text.
use vstd::prelude::*;

use crate::keyed::{find_keyed, has_key, keys_unique, lemma_keyed_absent, lemma_keyed_at, lemma_keyed_push, lemma_keyed_remove, lemma_keyed_update};
use crate::output::adapter::{OutputAdapterRunState, OutputReport};
use crate::registry::{copy_opt, copy_strings};
use crate::text::{owned, str_eq};

verus! {

/// The settings of one output adapter.
pub struct OutputAdapterConfig {
    pub name: String,
    /// `prometheus_remote_write`, `splunk_hec`, `elastic` or `servicenow_em`.
    pub adapter_type: String,
    pub enabled: bool,
    pub endpoint_url: String,
    /// The credential alias; empty for none.
    pub credential_alias: String,
    pub flush_interval_secs: u64,
    /// The environments it applies to; empty for all.
    pub environment_scope: Vec<String>,
    /// Adapter-specific settings, as JSON text.
    pub extra: String,
}

/// The first configuration named `name`.
pub open spec fn first_named(c: Seq<OutputAdapterConfig>, name: Seq<char>) -> Option<int>
    decreases c.len(),
{
    if c.len() == 0 {
        None
    } else if c[0].name@ == name {
        Some(0)
    } else {
        match first_named(c.drop_first(), name) {
            Some(i) => Some(i + 1),
            None => None,
        }
    }
}

proof fn lemma_first_named(c: Seq<OutputAdapterConfig>, name: Seq<char>)
    ensures
        match first_named(c, name) {
            Some(i) => 0 <= i < c.len() && c[i].name@ == name && forall|j: int| 0 <= j < i ==> c[j].name@ != name,
            None => forall|j: int| 0 <= j < c.len() ==> c[j].name@ != name,
        },
    decreases c.len(),
{
    if c.len() > 0 {
        lemma_first_named(c.drop_first(), name);
        assert forall|j: int| 0 < j < c.len() implies c[j] == c.drop_first()[j - 1] by {}
    }
}

fn find_first(c: &Vec<OutputAdapterConfig>, name: &str) -> (r: Option<usize>)
    ensures
        match r {
            Some(i) => first_named(c@, name@) == Some(i as int) && i < c@.len(),
            None => first_named(c@, name@) is None,
        },
{
    proof {
        lemma_first_named(c@, name@);
    }
    let mut i: usize = 0;
    while i < c.len()
        invariant
            i <= c@.len(),
            forall|j: int| 0 <= j < i ==> c@[j].name@ != name@,
            match first_named(c@, name@) {
                Some(k) => 0 <= k < c@.len() && c@[k].name@ == name@ && forall|j: int| 0 <= j < k ==> c@[j].name@ != name@,
                None => forall|j: int| 0 <= j < c@.len() ==> c@[j].name@ != name@,
            },
        decreases c@.len() - i,
    {
        if str_eq(c[i].name.as_str(), name) {
            return Some(i);
        }
        i = i + 1;
    }
    None
}

pub open spec fn state_key() -> spec_fn((String, OutputAdapterRunState)) -> Seq<char> {
    |p: (String, OutputAdapterRunState)| p.0@
}

/// The state of an adapter that has not run yet.
pub open spec fn fresh_state(s: OutputAdapterRunState) -> bool {
    &&& s.last_push_at_ns is None
    &&& s.last_push_duration_ms is None
    &&& s.last_push_events is None
    &&& s.last_push_bytes is None
    &&& s.last_push_warnings@.len() == 0
    &&& s.last_push_error is None
    &&& !s.is_running
    &&& s.total_events_pushed == 0
    &&& s.total_bytes_sent == 0
}

fn new_state() -> (r: OutputAdapterRunState)
    ensures
        fresh_state(r),
{
    OutputAdapterRunState {
        last_push_at_ns: None,
        last_push_duration_ms: None,
        last_push_events: None,
        last_push_bytes: None,
        last_push_warnings: Vec::new(),
        last_push_error: None,
        is_running: false,
        total_events_pushed: 0,
        total_bytes_sent: 0,
    }
}

/// The configured adapters and their run states.
pub struct OutputAdapterRegistry {
    configs: Vec<OutputAdapterConfig>,
    states: Vec<(String, OutputAdapterRunState)>,
}

impl OutputAdapterRegistry {
    /// The configured adapters, in order.
    pub closed spec fn config_list(&self) -> Seq<OutputAdapterConfig> {
        self.configs@
    }

    /// The run states, by adapter name.
    pub closed spec fn run_states(&self) -> Seq<(String, OutputAdapterRunState)> {
        self.states@
    }

    /// One run state per name.
    #[verifier::type_invariant]
    spec fn wf(&self) -> bool {
        keys_unique(self.states@, state_key())
    }

    /// The run state of adapter `name`.
    pub closed spec fn state(&self, name: Seq<char>) -> Option<OutputAdapterRunState> {
        match find_keyed(self.states@, state_key(), name) {
            Some(p) => Some(p.1),
            None => None,
        }
    }

    /// The registry of the configurations read from the settings file.
    pub fn load(configs: Vec<OutputAdapterConfig>) -> (r: OutputAdapterRegistry)
        ensures
            r.config_list() == configs@,
            r.run_states().len() == 0,
    {
        OutputAdapterRegistry { configs, states: Vec::new() }
    }

    fn find_state(&self, name: &str) -> (r: Option<usize>)
        requires
            self.wf(),
        ensures
            match r {
                Some(i) => i < self.states@.len() && self.states@[i as int].0@ == name@ && find_keyed(
                    self.states@,
                    state_key(),
                    name@,
                ) == Some(self.states@[i as int]),
                None => find_keyed(self.states@, state_key(), name@) is None && !has_key(self.states@, state_key(), name@),
            },
    {
        let mut i: usize = 0;
        while i < self.states.len()
            invariant
                self.wf(),
                i <= self.states@.len(),
                forall|j: int| 0 <= j < i ==> (state_key())(#[trigger] self.states@[j]) != name@,
            decreases self.states@.len() - i,
        {
            if str_eq(self.states[i].0.as_str(), name) {
                proof {
                    lemma_keyed_at(self.states@, state_key(), i as int);
                }
                return Some(i);
            }
            i = i + 1;
        }
        proof {
            lemma_keyed_absent(self.states@, state_key(), name@);
        }
        None
    }

    /// Every adapter with its run state (none when it has not run), in
    /// configuration order.
    pub fn list(&self) -> (r: Vec<(&OutputAdapterConfig, Option<&OutputAdapterRunState>)>)
        ensures
            r@.len() == self.config_list().len(),
            forall|i: int| 0 <= i < r@.len() ==> *(#[trigger] r@[i]).0 == self.config_list()[i] && match r@[i].1 {
                Some(s) => self.state(self.config_list()[i].name@) == Some(*s),
                None => self.state(self.config_list()[i].name@) is None,
            },
    {
        proof {
            use_type_invariant(self);
        }
        let mut r: Vec<(&OutputAdapterConfig, Option<&OutputAdapterRunState>)> = Vec::new();
        let mut i: usize = 0;
        while i < self.configs.len()
            invariant
                self.wf(),
                i <= self.configs@.len(),
                r@.len() == i,
                forall|k: int| 0 <= k < i ==> *(#[trigger] r@[k]).0 == self.configs@[k] && match r@[k].1 {
                    Some(s) => self.state(self.configs@[k].name@) == Some(*s),
                    None => self.state(self.configs@[k].name@) is None,
                },
            decreases self.configs@.len() - i,
        {
            let c = &self.configs[i];
            let s = match self.find_state(c.name.as_str()) {
                Some(j) => Some(&self.states[j].1),
                None => None,
            };
            r.push((c, s));
            i = i + 1;
        }
        r
    }

    /// The configured adapters, in order.
    pub fn configs(&self) -> (r: &Vec<OutputAdapterConfig>)
        ensures
            r@ == self.config_list(),
    {
        &self.configs
    }

    /// Adds an adapter, or replaces the first one with the same name.
    pub fn upsert(&mut self, config: OutputAdapterConfig)
        ensures
            final(self).run_states() == old(self).run_states(),
            match first_named(old(self).config_list(), config.name@) {
                Some(i) => final(self).config_list() == old(self).config_list().update(i, config),
                None => final(self).config_list() == old(self).config_list().push(config),
            },
    {
        proof {
            use_type_invariant(&*self);
        }
        let found = find_first(&self.configs, config.name.as_str());
        let mut configs: Vec<OutputAdapterConfig> = Vec::new();
        std::mem::swap(&mut configs, &mut self.configs);
        match found {
            Some(i) => {
                configs.set(i, config);
            },
            None => {
                configs.push(config);
            },
        }
        self.configs = configs;
    }

    /// Removes every adapter named `name` and its run state; returns whether
    /// there was one.
    pub fn remove(&mut self, name: &str) -> (removed: bool)
        ensures
            removed == (first_named(old(self).config_list(), name@) is Some),
            final(self).config_list() == old(self).config_list().filter(|c: OutputAdapterConfig| c.name@ != name@),
            removed ==> final(self).state(name@) is None,
            !removed ==> final(self).run_states() == old(self).run_states(),
            forall|k: Seq<char>| k != name@ ==> #[trigger] final(self).state(k) == old(self).state(k),
    {
        proof {
            use_type_invariant(&*self);
        }
        proof {
            lemma_first_named(self.configs@, name@);
        }
        let ghost f = |c: OutputAdapterConfig| c.name@ != name@;
        let mut kept: Vec<OutputAdapterConfig> = Vec::new();
        let mut found = false;
        let mut rest: Vec<OutputAdapterConfig> = Vec::new();
        std::mem::swap(&mut rest, &mut self.configs);
        let ghost all = rest@;
        let total = rest.len();
        let mut i: usize = 0;
        assert(all.skip(0) =~= all);
        while rest.len() > 0
            invariant
                f == |c: OutputAdapterConfig| c.name@ != name@,
                all.len() == total,
                i <= all.len(),
                rest@ == all.skip(i as int),
                kept@ == all.subrange(0, i as int).filter(f),
                found == exists|j: int| 0 <= j < i && all[j].name@ == name@,
            decreases rest@.len(),
        {
            let c = rest.remove(0);
            proof {
                assert(c == all[i as int]);
                assert(rest@ =~= all.skip(i + 1));
                assert(all.subrange(0, i + 1) =~= all.subrange(0, i as int).push(c));
                all.subrange(0, i as int).lemma_filter_push(c, f);
            }
            if str_eq(c.name.as_str(), name) {
                found = true;
            } else {
                kept.push(c);
            }
            i = i + 1;
        }
        proof {
            assert(all.subrange(0, i as int) =~= all);
            if first_named(all, name@) is Some {
                let k = first_named(all, name@).unwrap();
                assert(all[k].name@ == name@);
            }
        }
        self.configs = kept;
        if found {
            match self.find_state(name) {
                Some(j) => {
                    proof {
                        lemma_keyed_remove(self.states@, state_key(), j as int);
                    }
                    let mut states: Vec<(String, OutputAdapterRunState)> = Vec::new();
                    std::mem::swap(&mut states, &mut self.states);
                    states.remove(j);
                    self.states = states;
                },
                None => {},
            }
        }
        found
    }

    /// The first adapter named `name`.
    pub fn get(&self, name: &str) -> (r: Option<&OutputAdapterConfig>)
        ensures
            match first_named(self.config_list(), name@) {
                Some(i) => r == Some(&self.config_list()[i]),
                None => r is None,
            },
    {
        proof {
            use_type_invariant(self);
        }
        match find_first(&self.configs, name) {
            Some(i) => Some(&self.configs[i]),
            None => None,
        }
    }

    /// Puts `s` as the run state of `name`.
    fn put_state(&mut self, name: &str, s: OutputAdapterRunState)
        requires
            old(self).wf(),
        ensures
            final(self).wf(),
            final(self).configs == old(self).configs,
            final(self).state(name@) == Some(s),
            forall|k: Seq<char>| k != name@ ==> #[trigger] final(self).state(k) == old(self).state(k),
    {
        let ghost before = self.states@;
        let found = self.find_state(name);
        let x = (owned(name), s);
        let ghost xv = x;
        let mut states: Vec<(String, OutputAdapterRunState)> = Vec::new();
        std::mem::swap(&mut states, &mut self.states);
        match found {
            Some(j) => {
                proof {
                    lemma_keyed_update(before, state_key(), j as int, xv);
                }
                states.set(j, x);
            },
            None => {
                proof {
                    lemma_keyed_push(before, state_key(), xv);
                }
                states.push(x);
            },
        }
        self.states = states;
    }

    fn state_or_fresh(&self, name: &str) -> (r: OutputAdapterRunState)
        requires
            self.wf(),
        ensures
            match self.state(name@) {
                Some(s) => r.last_push_at_ns == s.last_push_at_ns && r.last_push_duration_ms == s.last_push_duration_ms
                    && r.last_push_events == s.last_push_events && r.last_push_bytes == s.last_push_bytes
                    && r.last_push_warnings@ == s.last_push_warnings@ && r.last_push_error == s.last_push_error
                    && r.is_running == s.is_running && r.total_events_pushed == s.total_events_pushed
                    && r.total_bytes_sent == s.total_bytes_sent,
                None => fresh_state(r),
            },
    {
        match self.find_state(name) {
            Some(j) => {
                let s = &self.states[j].1;
                OutputAdapterRunState {
                    last_push_at_ns: s.last_push_at_ns,
                    last_push_duration_ms: s.last_push_duration_ms,
                    last_push_events: s.last_push_events,
                    last_push_bytes: s.last_push_bytes,
                    last_push_warnings: copy_strings(&s.last_push_warnings),
                    last_push_error: copy_opt(&s.last_push_error),
                    is_running: s.is_running,
                    total_events_pushed: s.total_events_pushed,
                    total_bytes_sent: s.total_bytes_sent,
                }
            },
            None => new_state(),
        }
    }

    /// Marks adapter `name` as running or not, starting its run state when
    /// it has none.
    pub fn set_running(&mut self, name: &str, running: bool)
        ensures
            final(self).config_list() == old(self).config_list(),
            final(self).state(name@) is Some,
            ({
                let n = final(self).state(name@).unwrap();
                &&& n.is_running == running
                &&& match old(self).state(name@) {
                    Some(s) => n.last_push_at_ns == s.last_push_at_ns && n.last_push_duration_ms
                        == s.last_push_duration_ms && n.last_push_events == s.last_push_events && n.last_push_bytes
                        == s.last_push_bytes && n.last_push_warnings@ == s.last_push_warnings@ && n.last_push_error
                        == s.last_push_error && n.total_events_pushed == s.total_events_pushed
                        && n.total_bytes_sent == s.total_bytes_sent,
                    None => fresh_state(OutputAdapterRunState { is_running: false, ..n }),
                }
            }),
            forall|k: Seq<char>| k != name@ ==> #[trigger] final(self).state(k) == old(self).state(k),
    {
        proof {
            use_type_invariant(&*self);
        }
        let mut s = self.state_or_fresh(name);
        s.is_running = running;
        self.put_state(name, s);
    }

    /// Records a push report at `now_ns`: the last push's figures, the
    /// adapter no longer running, and the totals grown.
    pub fn record_push(&mut self, name: &str, report: &OutputReport, now_ns: i64)
        requires
            match old(self).state(name@) {
                Some(s) => s.total_events_pushed + report.events_pushed <= u64::MAX && s.total_bytes_sent
                    + report.bytes_sent <= u64::MAX,
                None => true,
            },
        ensures
            final(self).config_list() == old(self).config_list(),
            final(self).state(name@) is Some,
            ({
                let n = final(self).state(name@).unwrap();
                let (events0, bytes0) = match old(self).state(name@) {
                    Some(s) => (s.total_events_pushed, s.total_bytes_sent),
                    None => (0u64, 0u64),
                };
                &&& n.last_push_at_ns == Some(now_ns)
                &&& n.last_push_duration_ms == Some(report.duration_ms)
                &&& n.last_push_events == Some(report.events_pushed)
                &&& n.last_push_bytes == Some(report.bytes_sent)
                &&& n.last_push_warnings@ == report.warnings@
                &&& n.last_push_error == report.error
                &&& !n.is_running
                &&& n.total_events_pushed == events0 + report.events_pushed
                &&& n.total_bytes_sent == bytes0 + report.bytes_sent
            }),
            forall|k: Seq<char>| k != name@ ==> #[trigger] final(self).state(k) == old(self).state(k),
    {
        proof {
            use_type_invariant(&*self);
        }
        let old_state = self.state_or_fresh(name);
        let s = OutputAdapterRunState {
            last_push_at_ns: Some(now_ns),
            last_push_duration_ms: Some(report.duration_ms),
            last_push_events: Some(report.events_pushed),
            last_push_bytes: Some(report.bytes_sent),
            last_push_warnings: copy_strings(&report.warnings),
            last_push_error: copy_opt(&report.error),
            is_running: false,
            total_events_pushed: old_state.total_events_pushed + report.events_pushed as u64,
            total_bytes_sent: old_state.total_bytes_sent + report.bytes_sent,
        };
        self.put_state(name, s);
    }
}


// ── Laws ─────────────────────────────────────────────────────────────────────

/// The configurations after an upsert of `x`.
pub open spec fn upserted(c: Seq<OutputAdapterConfig>, x: OutputAdapterConfig) -> Seq<OutputAdapterConfig> {
    match first_named(c, x.name@) {
        Some(i) => c.update(i, x),
        None => c.push(x),
    }
}

/// What is upserted is what a lookup by its name finds.
pub proof fn lemma_upsert_then_get(c: Seq<OutputAdapterConfig>, x: OutputAdapterConfig)
    ensures
        first_named(upserted(c, x), x.name@) is Some,
        upserted(c, x)[first_named(upserted(c, x), x.name@).unwrap()] == x,
{
    lemma_first_named(c, x.name@);
    let u = upserted(c, x);
    lemma_first_named(u, x.name@);
    match first_named(c, x.name@) {
        Some(i) => {
            assert(u[i] == x);
            let k = first_named(u, x.name@).unwrap();
            if k < i {
                assert(u[k] == c[k]);
            } else if k > i {
                assert(u[i].name@ == x.name@);
            }
        },
        None => {
            assert(u[c.len() as int] == x);
            let k = first_named(u, x.name@).unwrap();
            if k < c.len() {
                assert(u[k] == c[k]);
            }
        },
    }
}

/// After a removal, no configuration has the removed name.
pub proof fn lemma_remove_then_get(c: Seq<OutputAdapterConfig>, name: Seq<char>)
    ensures
        first_named(c.filter(|x: OutputAdapterConfig| x.name@ != name), name) is None,
{
    let f = |x: OutputAdapterConfig| x.name@ != name;
    let kept = c.filter(f);
    assert forall|j: int| 0 <= j < kept.len() implies kept[j].name@ != name by {
        c.lemma_filter_pred(f, j);
    }
    lemma_first_named(kept, name);
}

} // verus!
