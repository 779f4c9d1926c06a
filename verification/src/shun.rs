//! Syslog shunning: rules that drop or rate-limit matching syslog events.
//!
//! The first enabled rule (in load order) whose scope and match apply decides
//! the outcome. A `drop` rule discards the event; a `rate_limit` rule lets
//! through as many events per minute as it allows and discards the rest.
use vstd::prelude::*;

use crate::pattern::{compile_regex, regex_compiles, regex_is_match, regex_matches, CompiledPattern};

use crate::text::{
    ascii_lower_chars, ascii_lower_seq, chars_of, contains, owned, seq_eq, str_contains, str_eq,
    trim, trim_chars,
};

verus! {

// ── Data model ───────────────────────────────────────────────────────────────

/// Scope at which a shun rule is applied.
#[derive(Debug, Clone, Copy, PartialEq, Eq)]
pub enum ShunScope {
    Device,
    Global,
}

/// Trimmed and ASCII-lower-cased, as the `from_str` parsers read their input.
pub open spec fn canonical(s: Seq<char>) -> Seq<char> {
    ascii_lower_seq(trim(s))
}

fn canonical_chars(s: &str) -> (r: Vec<char>)
    ensures
        r@ == canonical(s@),
{
    let c = chars_of(s);
    let t = trim_chars(c.as_slice());
    ascii_lower_chars(t.as_slice())
}

fn chars_eq_str(a: &[char], b: &str) -> (r: bool)
    ensures
        r == (a@ == b@),
{
    let bv = chars_of(b);
    seq_eq(a, bv.as_slice())
}

impl ShunScope {
    pub fn as_str(&self) -> (r: &'static str)
        ensures
            *self == ShunScope::Device ==> r@ == "device"@,
            *self == ShunScope::Global ==> r@ == "global"@,
    {
        match self {
            ShunScope::Device => "device",
            ShunScope::Global => "global",
        }
    }

    /// `device` (in any case, surrounded by any whitespace) is `Device`;
    /// everything else is `Global`.
    pub fn from_str(s: &str) -> (r: ShunScope)
        ensures
            r == (if canonical(s@) == "device"@ { ShunScope::Device } else { ShunScope::Global }),
    {
        let c = canonical_chars(s);
        if chars_eq_str(c.as_slice(), "device") {
            ShunScope::Device
        } else {
            ShunScope::Global
        }
    }
}

/// How a rule matches a syslog event.
#[derive(Debug, Clone, Copy, PartialEq, Eq)]
pub enum ShunMatchType {
    Substring,
    Regex,
    FactType,
}

impl ShunMatchType {
    pub fn as_str(&self) -> (r: &'static str)
        ensures
            *self == ShunMatchType::Substring ==> r@ == "substring"@,
            *self == ShunMatchType::Regex ==> r@ == "regex"@,
            *self == ShunMatchType::FactType ==> r@ == "fact_type"@,
    {
        match self {
            ShunMatchType::Substring => "substring",
            ShunMatchType::Regex => "regex",
            ShunMatchType::FactType => "fact_type",
        }
    }

    /// `regex` and `fact_type` are recognised; everything else is `Substring`.
    pub fn from_str(s: &str) -> (r: ShunMatchType)
        ensures
            r == (if canonical(s@) == "regex"@ {
                ShunMatchType::Regex
            } else if canonical(s@) == "fact_type"@ {
                ShunMatchType::FactType
            } else {
                ShunMatchType::Substring
            }),
    {
        let c = canonical_chars(s);
        if chars_eq_str(c.as_slice(), "regex") {
            ShunMatchType::Regex
        } else if chars_eq_str(c.as_slice(), "fact_type") {
            ShunMatchType::FactType
        } else {
            ShunMatchType::Substring
        }
    }
}

/// What happens when a rule matches.
#[derive(Debug, Clone, Copy, PartialEq, Eq)]
pub enum ShunAction {
    Drop,
    RateLimit,
}

/// The action a rule's `action` string selects.
pub open spec fn action_of(s: Seq<char>) -> ShunAction {
    if canonical(s) == "rate_limit"@ {
        ShunAction::RateLimit
    } else {
        ShunAction::Drop
    }
}

impl ShunAction {
    pub fn as_str(&self) -> (r: &'static str)
        ensures
            *self == ShunAction::Drop ==> r@ == "drop"@,
            *self == ShunAction::RateLimit ==> r@ == "rate_limit"@,
    {
        match self {
            ShunAction::Drop => "drop",
            ShunAction::RateLimit => "rate_limit",
        }
    }

    /// `rate_limit` is `RateLimit`; everything else is `Drop`.
    pub fn from_str(s: &str) -> (r: ShunAction)
        ensures
            r == action_of(s@),
    {
        let c = canonical_chars(s);
        if chars_eq_str(c.as_slice(), "rate_limit") {
            ShunAction::RateLimit
        } else {
            ShunAction::Drop
        }
    }
}

/// A single shun rule as stored and served.
pub struct ShunRule {
    pub id: String,
    /// `device` or `global`.
    pub scope_type: String,
    /// For `device` scope: the device address. Empty for global.
    pub scope_value: String,
    /// `substring`, `regex`, or `fact_type`.
    pub match_type: String,
    /// The pattern matched against the message (or the fact type name).
    pub match_value: String,
    /// `drop` or `rate_limit`.
    pub action: String,
    /// For `rate_limit`: events allowed per minute.
    pub rate_limit_per_min: i64,
    /// Expiry time (ns since the epoch); 0 never expires.
    pub expires_at_ns: i64,
    pub created_by: String,
    pub created_at_ns: i64,
    pub enabled: bool,
}

impl ShunRule {
    /// A new enabled `drop` rule with the given id, created at `now_ns`.
    pub fn new_drop(
        id: String,
        scope_type: &str,
        scope_value: &str,
        match_type: &str,
        match_value: &str,
        expires_at_ns: i64,
        created_by: &str,
        now_ns: i64,
    ) -> (r: ShunRule)
        ensures
            r.id == id,
            r.scope_type@ == scope_type@,
            r.scope_value@ == scope_value@,
            r.match_type@ == match_type@,
            r.match_value@ == match_value@,
            r.action@ == "drop"@,
            r.rate_limit_per_min == 0,
            r.expires_at_ns == expires_at_ns,
            r.created_by@ == created_by@,
            r.created_at_ns == now_ns,
            r.enabled,
    {
        ShunRule {
            id,
            scope_type: owned(scope_type),
            scope_value: owned(scope_value),
            match_type: owned(match_type),
            match_value: owned(match_value),
            action: owned("drop"),
            rate_limit_per_min: 0,
            expires_at_ns,
            created_by: owned(created_by),
            created_at_ns: now_ns,
            enabled: true,
        }
    }
}

/// Outcome of evaluating a syslog event against the active rules.
#[derive(Debug, PartialEq, Eq)]
pub enum ShunOutcome {
    /// No rule discards the event.
    Pass,
    /// A `drop` rule matched.
    Dropped { rule_id: String },
    /// A `rate_limit` rule matched and its allowance for the minute is spent.
    RateLimited { rule_id: String },
}

// ── Token buckets ────────────────────────────────────────────────────────────

/// Nanoseconds after which a bucket is refilled.
pub open spec fn refill_period_ns() -> int {
    60_000_000_000
}

/// Per-rule allowance: `capacity` events, refilled once a minute.
pub struct TokenBucket {
    pub tokens: i64,
    pub capacity: i64,
    pub last_refill_ns: i64,
}

/// Events per minute a rate limit allows: at least one.
pub open spec fn bucket_capacity(per_min: i64) -> i64 {
    if per_min < 1 {
        1
    } else {
        per_min
    }
}

/// Tokens available at time `now` before consuming.
pub open spec fn tokens_at(b: TokenBucket, now: i64) -> i64 {
    if now - b.last_refill_ns >= refill_period_ns() {
        b.capacity
    } else {
        b.tokens
    }
}

/// One attempt on bucket `b` at `now`: the bucket afterwards, and whether
/// the event may pass.
pub open spec fn consume_step(b: TokenBucket, now: i64) -> (TokenBucket, bool) {
    let t = tokens_at(b, now);
    let ok = t >= 1;
    (
        TokenBucket {
            tokens: if ok { (t - 1) as i64 } else { t },
            capacity: b.capacity,
            last_refill_ns: if now - b.last_refill_ns >= refill_period_ns() { now } else { b.last_refill_ns },
        },
        ok,
    )
}

/// How many of the attempts at `times`, in order, pass a bucket that starts
/// as `b`.
pub open spec fn passes(b: TokenBucket, times: Seq<i64>) -> nat
    decreases times.len(),
{
    if times.len() == 0 {
        0
    } else {
        let (next, ok) = consume_step(b, times[0]);
        (if ok { 1nat } else { 0nat }) + passes(next, times.drop_first())
    }
}

/// A rate limit lets at most the tokens left through before the next
/// refill: attempts that all come within a minute of the last refill pass
/// no more often than the bucket holds tokens, so a fresh bucket passes at
/// most its allowance per minute.
pub proof fn lemma_allowance_per_minute(b: TokenBucket, times: Seq<i64>)
    requires
        b.wf(),
        forall|i: int| 0 <= i < times.len() ==> 0 <= #[trigger] times[i] - b.last_refill_ns < refill_period_ns(),
    ensures
        passes(b, times) <= b.tokens,
    decreases times.len(),
{
    if times.len() > 0 {
        let (next, ok) = consume_step(b, times[0]);
        assert(0 <= times[0] - b.last_refill_ns < refill_period_ns());
        assert(next.last_refill_ns == b.last_refill_ns);
        assert forall|i: int| 0 <= i < times.drop_first().len() implies 0 <= #[trigger] times.drop_first()[i]
            - next.last_refill_ns < refill_period_ns() by {
            assert(times.drop_first()[i] == times[i + 1]);
        }
        lemma_allowance_per_minute(next, times.drop_first());
    }
}

impl TokenBucket {
    pub open spec fn wf(&self) -> bool {
        1 <= self.capacity && 0 <= self.tokens <= self.capacity
    }

    /// A full bucket created at `now`.
    pub fn new(per_min: i64, now: i64) -> (r: TokenBucket)
        ensures
            r.capacity == bucket_capacity(per_min),
            r.tokens == r.capacity,
            r.last_refill_ns == now,
            r.wf(),
    {
        let cap = if per_min < 1 {
            1
        } else {
            per_min
        };
        TokenBucket { tokens: cap, capacity: cap, last_refill_ns: now }
    }

    /// Takes one token if there is one (after refilling when a minute has
    /// passed since the last refill); true when the event may pass.
    pub fn try_consume(&mut self, now: i64) -> (r: bool)
        requires
            old(self).wf(),
        ensures
            final(self).wf(),
            (*final(self), r) == consume_step(*old(self), now),
            r == (tokens_at(*old(self), now) >= 1),
            final(self).capacity == old(self).capacity,
            final(self).tokens == (if r { tokens_at(*old(self), now) - 1 } else { tokens_at(*old(self), now) as int }),
            final(self).last_refill_ns == (if now - old(self).last_refill_ns >= refill_period_ns() {
                now
            } else {
                old(self).last_refill_ns
            }),
    {
        let elapsed: i128 = (now as i128) - (self.last_refill_ns as i128);
        if elapsed >= 60_000_000_000i128 {
            self.tokens = self.capacity;
            self.last_refill_ns = now;
        }
        if self.tokens >= 1 {
            self.tokens = self.tokens - 1;
            true
        } else {
            false
        }
    }
}

// ── Rule evaluation ──────────────────────────────────────────────────────────

/// A loaded rule, with its regex compiled when it is a `regex` rule.
pub struct CompiledRule {
    pub rule: ShunRule,
    pub regex: Option<CompiledPattern>,
}

/// The rule applies to events from `device`: it is not a `device` rule for
/// another, non-empty address.
pub open spec fn scope_applies(r: ShunRule, device: Seq<char>) -> bool {
    !(r.scope_type@ == "device"@ && r.scope_value@.len() > 0 && r.scope_value@ != device)
}

/// The rule's pattern matches the event.
pub open spec fn rule_matches(cr: CompiledRule, message: Seq<char>, facts: Seq<Seq<char>>) -> bool {
    let r = cr.rule;
    if r.match_type@ == "substring"@ {
        contains(message, r.match_value@)
    } else if r.match_type@ == "regex"@ {
        match cr.regex {
            Some(re) => regex_is_match(re.pattern(), message),
            None => false,
        }
    } else if r.match_type@ == "fact_type"@ {
        exists|i: int| 0 <= i < facts.len() && facts[i] == r.match_value@
    } else {
        false
    }
}

/// The rule decides the outcome for this event.
pub open spec fn rule_fires(cr: CompiledRule, device: Seq<char>, message: Seq<char>, facts: Seq<Seq<char>>) -> bool {
    scope_applies(cr.rule, device) && rule_matches(cr, message, facts)
}

/// The rule is active at time `now`: enabled and not expired.
pub open spec fn rule_active(r: ShunRule, now: i64) -> bool {
    r.enabled && (r.expires_at_ns == 0 || r.expires_at_ns > now)
}

/// The rule is kept by a reload at time `now`: active, and when it is a
/// `regex` rule its pattern compiles.
pub open spec fn rule_kept(r: ShunRule, now: i64) -> bool {
    rule_active(r, now) && (r.match_type@ == "regex"@ ==> regex_compiles(r.match_value@))
}

/// The id of an entry of a per-rule table.
pub open spec fn keys_of<T>(t: Seq<(String, T)>) -> Seq<Seq<char>> {
    t.map_values(|e: (String, T)| e.0@)
}

/// The entry stored under `id`.
pub open spec fn entry_of<T>(t: Seq<(String, T)>, id: Seq<char>) -> Option<T> {
    if exists|i: int| 0 <= i < t.len() && t[i].0@ == id {
        Some(t[choose|i: int| 0 <= i < t.len() && t[i].0@ == id].1)
    } else {
        None
    }
}

/// No id occurs twice.
pub open spec fn unique_keys<T>(t: Seq<(String, T)>) -> bool {
    forall|i: int, j: int| 0 <= i < j < t.len() ==> t[i].0@ != t[j].0@
}

proof fn lemma_entry_at<T>(t: Seq<(String, T)>, i: int)
    requires
        unique_keys(t),
        0 <= i < t.len(),
    ensures
        entry_of(t, t[i].0@) == Some(t[i].1),
{
    assert(0 <= i < t.len() && t[i].0@ == t[i].0@);
    let j = choose|j: int| 0 <= j < t.len() && t[j].0@ == t[i].0@;
    if j < i {
        assert(t[j].0@ != t[i].0@);
    } else if j > i {
        assert(t[i].0@ != t[j].0@);
    }
}

fn find_key<T>(t: &Vec<(String, T)>, id: &str) -> (r: Option<usize>)
    requires
        unique_keys(t@),
    ensures
        match r {
            Some(i) => i < t@.len() && t@[i as int].0@ == id@ && entry_of(t@, id@) == Some(t@[i as int].1),
            None => entry_of(t@, id@) is None,
        },
{
    let mut i: usize = 0;
    while i < t.len()
        invariant
            i <= t@.len(),
            unique_keys(t@),
            forall|j: int| 0 <= j < i ==> t@[j].0@ != id@,
        decreases t@.len() - i,
    {
        if str_eq(t[i].0.as_str(), id) {
            proof {
                lemma_entry_at(t@, i as int);
            }
            return Some(i);
        }
        i = i + 1;
    }
    None
}

/// The bucket a rule uses at time `now`: its stored bucket, or a full one
/// created now.
pub open spec fn bucket_for(buckets: Seq<(String, TokenBucket)>, r: ShunRule, now: i64) -> TokenBucket {
    match entry_of(buckets, r.id@) {
        Some(b) => b,
        None => TokenBucket {
            tokens: bucket_capacity(r.rate_limit_per_min),
            capacity: bucket_capacity(r.rate_limit_per_min),
            last_refill_ns: now,
        },
    }
}

/// The outcome of the first firing rule `cr` for the bucket table before
/// the event.
pub open spec fn outcome_of(cr: CompiledRule, buckets: Seq<(String, TokenBucket)>, now: i64) -> ShunOutcome {
    let r = cr.rule;
    match action_of(r.action@) {
        ShunAction::Drop => ShunOutcome::Dropped { rule_id: r.id },
        ShunAction::RateLimit => if tokens_at(bucket_for(buckets, r, now), now) >= 1 {
            ShunOutcome::Pass
        } else {
            ShunOutcome::RateLimited { rule_id: r.id }
        },
    }
}

/// The rule counted by an outcome, if any.
pub open spec fn shunned_rule(o: ShunOutcome) -> Option<Seq<char>> {
    match o {
        ShunOutcome::Pass => None,
        ShunOutcome::Dropped { rule_id } => Some(rule_id@),
        ShunOutcome::RateLimited { rule_id } => Some(rule_id@),
    }
}

/// The shunning engine: the loaded rules, their buckets and per-rule counts.
pub struct ShunEngine {
    pub rules: Vec<CompiledRule>,
    /// Token buckets keyed by rule id.
    pub buckets: Vec<(String, TokenBucket)>,
    /// Events shunned so far, keyed by rule id.
    pub shunned_counts: Vec<(String, u64)>,
}

/// Views of loaded rules.
pub open spec fn rules_of(v: Seq<CompiledRule>) -> Seq<ShunRule> {
    v.map_values(|c: CompiledRule| c.rule)
}

/// Every `regex` rule carries its compiled pattern.
pub open spec fn regexes_compiled(v: Seq<CompiledRule>) -> bool {
    forall|i: int| 0 <= i < v.len() ==> (#[trigger] v[i]).rule.match_type@ == "regex"@ ==> (v[i].regex matches Some(re) && re.pattern() == v[i].rule.match_value@)
}

impl ShunEngine {
    pub open spec fn wf(&self) -> bool {
        &&& unique_keys(self.buckets@)
        &&& unique_keys(self.shunned_counts@)
        &&& forall|i: int| 0 <= i < self.buckets@.len() ==> (#[trigger] self.buckets@[i]).1.wf()
        &&& regexes_compiled(self.rules@)
    }

    /// An engine with no rules.
    pub fn new() -> (r: ShunEngine)
        ensures
            r.wf(),
            r.rules@.len() == 0,
            r.buckets@.len() == 0,
            r.shunned_counts@.len() == 0,
    {
        ShunEngine { rules: Vec::new(), buckets: Vec::new(), shunned_counts: Vec::new() }
    }

    /// Replaces the active rule set with `rules` as loaded at time `now`:
    /// disabled and expired rules, and `regex` rules whose pattern does not
    /// compile, are left out; the others keep their order.
    pub fn reload(&mut self, rules: Vec<ShunRule>, now: i64)
        requires
            old(self).wf(),
        ensures
            final(self).wf(),
            rules_of(final(self).rules@) == rules@.filter(|r: ShunRule| rule_kept(r, now)),
            final(self).buckets@ == old(self).buckets@,
            final(self).shunned_counts@ == old(self).shunned_counts@,
    {
        let ghost keep = |r: ShunRule| rule_kept(r, now);
        let mut compiled: Vec<CompiledRule> = Vec::new();
        let mut rest = rules;
        let ghost all = rest@;
        // Take the rules in order from the front by reversing once.
        let mut rev: Vec<ShunRule> = Vec::new();
        while rest.len() > 0
            invariant
                rest@.len() + rev@.len() == all.len(),
                rest@ =~= all.subrange(0, rest@.len() as int),
                forall|j: int| 0 <= j < rev@.len() ==> #[trigger] rev@[j] == all[all.len() - 1 - j],
            decreases rest@.len(),
        {
            let ghost before = rest@;
            let r = rest.pop().unwrap();
            proof {
                assert(rest@ =~= before.drop_last());
            }
            rev.push(r);
        }
        while rev.len() > 0
            invariant
                rev@.len() <= all.len(),
                forall|j: int| 0 <= j < rev@.len() ==> #[trigger] rev@[j] == all[all.len() - 1 - j],
                rules_of(compiled@) == all.subrange(0, all.len() - rev@.len()).filter(keep),
                regexes_compiled(compiled@),
                keep == |r: ShunRule| rule_kept(r, now),
            decreases rev@.len(),
        {
            let ghost m = all.len() - rev@.len();
            let ghost before_rev = rev@;
            let r = rev.pop().unwrap();
            proof {
                assert(rev@ =~= before_rev.drop_last());
                assert(r == all[m]);
                assert(all.subrange(0, m + 1) =~= all.subrange(0, m).push(r));
                all.subrange(0, m).lemma_filter_push(r, keep);
            }
            let active = r.enabled && (r.expires_at_ns == 0 || r.expires_at_ns > now);
            if active {
                let is_regex = str_eq(r.match_type.as_str(), "regex");
                if is_regex {
                    let re = compile_regex(r.match_value.as_str());
                    match re {
                        Some(re) => {
                            let ghost before = compiled@;
                            compiled.push(CompiledRule { rule: r, regex: Some(re) });
                            proof {
                                assert(rules_of(compiled@) =~= rules_of(before).push(compiled@.last().rule));
                            }
                        },
                        None => {},
                    }
                } else {
                    let ghost before = compiled@;
                    compiled.push(CompiledRule { rule: r, regex: None });
                    proof {
                        assert(rules_of(compiled@) =~= rules_of(before).push(compiled@.last().rule));
                    }
                }
            }
        }
        proof {
            assert(all.subrange(0, all.len() as int) =~= all);
        }
        self.rules = compiled;
    }

    fn record_shun(&mut self, rule_id: &str)
        requires
            old(self).wf(),
        ensures
            final(self).wf(),
            final(self).rules@ == old(self).rules@,
            final(self).buckets@ == old(self).buckets@,
            count_after(old(self).shunned_counts@, final(self).shunned_counts@, rule_id@),
    {
        match find_key(&self.shunned_counts, rule_id) {
            Some(i) => {
                let ghost before = self.shunned_counts@;
                let c = self.shunned_counts[i].1;
                let id = self.shunned_counts[i].0.clone();
                let n = if c < u64::MAX {
                    c + 1
                } else {
                    c
                };
                self.shunned_counts.set(i, (id, n));
                proof {
                    let after = self.shunned_counts@;
                    assert(keys_of(after) =~= keys_of(before));
                    assert forall|a: int, b: int| 0 <= a < b < after.len() implies after[a].0@ != after[b].0@ by {
                        assert(keys_of(after)[a] == keys_of(before)[a]);
                        assert(keys_of(after)[b] == keys_of(before)[b]);
                    }
                    lemma_entry_at(after, i as int);
                    assert forall|k: Seq<char>| k != rule_id@ implies #[trigger] entry_of(after, k) == entry_of(before, k) by {
                        lemma_entry_other(before, after, i as int, k);
                    }
                }
            },
            None => {
                let ghost before = self.shunned_counts@;
                self.shunned_counts.push((owned(rule_id), 1));
                proof {
                    let after = self.shunned_counts@;
                    assert(after =~= before.push(after.last()));
                    assert forall|a: int, b: int| 0 <= a < b < after.len() implies after[a].0@ != after[b].0@ by {
                        if b == after.len() - 1 {
                            assert(after[a] == before[a]);
                            assert(before[a].0@ != rule_id@) by {
                                if before[a].0@ == rule_id@ {
                                    lemma_entry_at(before, a);
                                }
                            }
                        } else {
                            assert(after[a] == before[a]);
                            assert(after[b] == before[b]);
                        }
                    }
                    lemma_entry_at(after, after.len() - 1);
                    assert forall|k: Seq<char>| k != rule_id@ implies #[trigger] entry_of(after, k) == entry_of(before, k) by {
                        if exists|i: int| 0 <= i < before.len() && before[i].0@ == k {
                            let i = choose|i: int| 0 <= i < before.len() && before[i].0@ == k;
                            lemma_entry_at(before, i);
                            assert(after[i] == before[i]);
                            lemma_entry_at(after, i);
                        } else {
                            assert forall|i: int| 0 <= i < after.len() implies after[i].0@ != k by {
                                if i < before.len() {
                                    assert(after[i] == before[i]);
                                }
                            }
                        }
                    }
                }
            },
        }
    }

    /// Takes a token from the bucket of rule `rule` (creating a full bucket
    /// when the rule has none yet).
    fn consume(&mut self, rule_id: &str, per_min: i64, now: i64) -> (allow: bool)
        requires
            old(self).wf(),
        ensures
            final(self).wf(),
            final(self).rules@ == old(self).rules@,
            final(self).shunned_counts@ == old(self).shunned_counts@,
            allow == (tokens_at(bucket_for_id(old(self).buckets@, rule_id@, per_min, now), now) >= 1),
            unique_keys(final(self).buckets@),
            entry_of(final(self).buckets@, rule_id@) == Some(consumed(bucket_for_id(old(self).buckets@, rule_id@, per_min, now), now)),
            forall|k: Seq<char>| k != rule_id@ ==> #[trigger] entry_of(final(self).buckets@, k) == entry_of(old(self).buckets@, k),
    {
        let ghost before = self.buckets@;
        match find_key(&self.buckets, rule_id) {
            Some(i) => {
                let id = self.buckets[i].0.clone();
                let mut b = TokenBucket {
                    tokens: self.buckets[i].1.tokens,
                    capacity: self.buckets[i].1.capacity,
                    last_refill_ns: self.buckets[i].1.last_refill_ns,
                };
                let allow = b.try_consume(now);
                self.buckets.set(i, (id, b));
                proof {
                    let after = self.buckets@;
                    assert(keys_of(after) =~= keys_of(before));
                    assert forall|a: int, c: int| 0 <= a < c < after.len() implies after[a].0@ != after[c].0@ by {
                        assert(keys_of(after)[a] == keys_of(before)[a]);
                        assert(keys_of(after)[c] == keys_of(before)[c]);
                    }
                    assert forall|j: int| 0 <= j < after.len() implies (#[trigger] after[j]).1.wf() by {
                        if j != i {
                            assert(after[j] == before[j]);
                        }
                    }
                    lemma_entry_at(after, i as int);
                    assert forall|k: Seq<char>| k != rule_id@ implies #[trigger] entry_of(after, k) == entry_of(before, k) by {
                        lemma_entry_other(before, after, i as int, k);
                    }
                }
                allow
            },
            None => {
                let mut b = TokenBucket::new(per_min, now);
                let allow = b.try_consume(now);
                self.buckets.push((owned(rule_id), b));
                proof {
                    let after = self.buckets@;
                    assert(after =~= before.push(after.last()));
                    assert forall|a: int, c: int| 0 <= a < c < after.len() implies after[a].0@ != after[c].0@ by {
                        if c == after.len() - 1 {
                            assert(after[a] == before[a]);
                            if before[a].0@ == rule_id@ {
                                lemma_entry_at(before, a);
                            }
                        } else {
                            assert(after[a] == before[a]);
                            assert(after[c] == before[c]);
                        }
                    }
                    assert forall|j: int| 0 <= j < after.len() implies (#[trigger] after[j]).1.wf() by {
                        if j < before.len() {
                            assert(after[j] == before[j]);
                        }
                    }
                    lemma_entry_at(after, after.len() - 1);
                    assert forall|k: Seq<char>| k != rule_id@ implies #[trigger] entry_of(after, k) == entry_of(before, k) by {
                        if exists|i: int| 0 <= i < before.len() && before[i].0@ == k {
                            let i = choose|i: int| 0 <= i < before.len() && before[i].0@ == k;
                            lemma_entry_at(before, i);
                            assert(after[i] == before[i]);
                            lemma_entry_at(after, i);
                        } else {
                            assert forall|i: int| 0 <= i < after.len() implies after[i].0@ != k by {
                                if i < before.len() {
                                    assert(after[i] == before[i]);
                                }
                            }
                        }
                    }
                }
                allow
            },
        }
    }

    /// Evaluates an event from `device_address` with body `message` and the
    /// fact types extracted from it, at time `now`.
    ///
    /// The first loaded rule that applies to the device and matches the event
    /// decides: a `drop` rule gives `Dropped`; a `rate_limit` rule gives `Pass`
    /// while its bucket has a token and `RateLimited` once it has none. With no
    /// such rule the event passes. Discarded events are counted per rule.
    pub fn evaluate(&mut self, device_address: &str, message: &str, fact_types: &[&str], now: i64) -> (r: ShunOutcome)
        requires
            old(self).wf(),
        ensures
            final(self).wf(),
            final(self).rules@ == old(self).rules@,
            ({
                let rules = old(self).rules@;
                let facts = fact_views(fact_types@);
                match first_firing(rules, device_address@, message@, facts) {
                    None => r == ShunOutcome::Pass
                        && final(self).buckets@ == old(self).buckets@
                        && final(self).shunned_counts@ == old(self).shunned_counts@,
                    Some(i) => {
                        &&& r == outcome_of(rules[i], old(self).buckets@, now)
                        &&& match action_of(rules[i].rule.action@) {
                            ShunAction::Drop => final(self).buckets@ == old(self).buckets@,
                            ShunAction::RateLimit => {
                                &&& entry_of(final(self).buckets@, rules[i].rule.id@) == Some(
                                    consumed(bucket_for(old(self).buckets@, rules[i].rule, now), now))
                                &&& forall|k: Seq<char>| k != rules[i].rule.id@ ==> #[trigger] entry_of(final(self).buckets@, k) == entry_of(old(self).buckets@, k)
                            },
                        }
                        &&& match shunned_rule(r) {
                            Some(id) => count_after(old(self).shunned_counts@, final(self).shunned_counts@, id),
                            None => final(self).shunned_counts@ == old(self).shunned_counts@,
                        }
                    },
                }
            }),
    {
        let ghost facts = fact_views(fact_types@);
        let mut i: usize = 0;
        while i < self.rules.len()
            invariant
                self.wf(),
                self == old(self),
                facts == fact_views(fact_types@),
                i <= self.rules@.len(),
                forall|j: int| 0 <= j < i ==> !rule_fires(#[trigger] self.rules@[j], device_address@, message@, facts),
            decreases self.rules@.len() - i,
        {
            let fires = self.fires(i, device_address, message, fact_types);
            if fires {
                proof {
                    lemma_first_firing(self.rules@, device_address@, message@, facts, i as int);
                }
                let action = ShunAction::from_str(self.rules[i].rule.action.as_str());
                let id = self.rules[i].rule.id.clone();
                match action {
                    ShunAction::Drop => {
                        self.record_shun(id.as_str());
                        return ShunOutcome::Dropped { rule_id: id };
                    },
                    ShunAction::RateLimit => {
                        let per_min = self.rules[i].rule.rate_limit_per_min;
                        let allow = self.consume(id.as_str(), per_min, now);
                        proof {
                            assert(bucket_for_id(old(self).buckets@, id@, per_min, now) == bucket_for(old(self).buckets@, old(self).rules@[i as int].rule, now));
                        }
                        if !allow {
                            self.record_shun(id.as_str());
                            return ShunOutcome::RateLimited { rule_id: id };
                        }
                        return ShunOutcome::Pass;
                    },
                }
            }
            i = i + 1;
        }
        proof {
            lemma_no_firing(self.rules@, device_address@, message@, facts);
        }
        ShunOutcome::Pass
    }

    fn fires(&self, i: usize, device_address: &str, message: &str, fact_types: &[&str]) -> (r: bool)
        requires
            self.wf(),
            i < self.rules@.len(),
        ensures
            r == rule_fires(self.rules@[i as int], device_address@, message@, fact_views(fact_types@)),
    {
        let cr = &self.rules[i];
        let r = &cr.rule;
        if str_eq(r.scope_type.as_str(), "device") && r.scope_value.as_str().unicode_len() > 0 && !str_eq(r.scope_value.as_str(), device_address) {
            return false;
        }
        if str_eq(r.match_type.as_str(), "substring") {
            str_contains(message, r.match_value.as_str())
        } else if str_eq(r.match_type.as_str(), "regex") {
            match &cr.regex {
                Some(re) => regex_matches(re, message),
                None => false,
            }
        } else if str_eq(r.match_type.as_str(), "fact_type") {
            fact_listed(fact_types, r.match_value.as_str())
        } else {
            false
        }
    }

    /// Events shunned so far, per rule id.
    pub fn stats(&self) -> (r: Vec<(String, u64)>)
        ensures
            r@.len() == self.shunned_counts@.len(),
            forall|i: int| 0 <= i < r@.len() ==> #[trigger] r@[i] == self.shunned_counts@[i],
    {
        let mut r: Vec<(String, u64)> = Vec::new();
        let mut i: usize = 0;
        while i < self.shunned_counts.len()
            invariant
                i <= self.shunned_counts@.len(),
                r@.len() == i,
                forall|j: int| 0 <= j < i ==> #[trigger] r@[j] == self.shunned_counts@[j],
            decreases self.shunned_counts@.len() - i,
        {
            r.push((self.shunned_counts[i].0.clone(), self.shunned_counts[i].1));
            i = i + 1;
        }
        r
    }
}

/// The characters of each fact type.
pub open spec fn fact_views(f: Seq<&str>) -> Seq<Seq<char>> {
    f.map_values(|x: &str| x@)
}

fn fact_listed(fact_types: &[&str], value: &str) -> (r: bool)
    ensures
        r == exists|i: int| 0 <= i < fact_types@.len() && #[trigger] fact_views(fact_types@)[i] == value@,
{
    let ghost facts = fact_views(fact_types@);
    let mut k: usize = 0;
    while k < fact_types.len()
        invariant
            k <= fact_types@.len(),
            facts == fact_views(fact_types@),
            forall|j: int| 0 <= j < k ==> facts[j] != value@,
        decreases fact_types@.len() - k,
    {
        if str_eq(fact_types[k], value) {
            assert(facts[k as int] == value@);
            return true;
        }
        k = k + 1;
    }
    false
}

/// The bucket of rule `id` at time `now`, or a full one of the rule's
/// capacity when it has none yet.
pub open spec fn bucket_for_id(buckets: Seq<(String, TokenBucket)>, id: Seq<char>, per_min: i64, now: i64) -> TokenBucket {
    match entry_of(buckets, id) {
        Some(b) => b,
        None => TokenBucket {
            tokens: bucket_capacity(per_min),
            capacity: bucket_capacity(per_min),
            last_refill_ns: now,
        },
    }
}

/// The bucket after one `try_consume` at time `now`.
pub open spec fn consumed(b: TokenBucket, now: i64) -> TokenBucket {
    let t = tokens_at(b, now);
    TokenBucket {
        tokens: if t >= 1 { (t - 1) as i64 } else { t },
        capacity: b.capacity,
        last_refill_ns: if now - b.last_refill_ns >= refill_period_ns() { now } else { b.last_refill_ns },
    }
}

/// The count of `id` went up by one (saturating) and no other count changed.
pub open spec fn count_after(before: Seq<(String, u64)>, after: Seq<(String, u64)>, id: Seq<char>) -> bool {
    &&& entry_of(after, id) == Some(match entry_of(before, id) {
        Some(c) => if c < u64::MAX { (c + 1) as u64 } else { c },
        None => 1u64,
    })
    &&& forall|k: Seq<char>| k != id ==> #[trigger] entry_of(after, k) == entry_of(before, k)
}

/// The index of the first firing rule, if any.
pub open spec fn first_firing(rules: Seq<CompiledRule>, device: Seq<char>, message: Seq<char>, facts: Seq<Seq<char>>) -> Option<int> {
    if exists|i: int| 0 <= i < rules.len() && rule_fires(rules[i], device, message, facts) {
        Some(choose|i: int| 0 <= i < rules.len() && rule_fires(rules[i], device, message, facts) && forall|j: int| 0 <= j < i ==> !rule_fires(rules[j], device, message, facts))
    } else {
        None
    }
}

proof fn lemma_first_firing(rules: Seq<CompiledRule>, device: Seq<char>, message: Seq<char>, facts: Seq<Seq<char>>, i: int)
    requires
        0 <= i < rules.len(),
        rule_fires(rules[i], device, message, facts),
        forall|j: int| 0 <= j < i ==> !rule_fires(#[trigger] rules[j], device, message, facts),
    ensures
        first_firing(rules, device, message, facts) == Some(i),
{
    let k = choose|k: int| 0 <= k < rules.len() && rule_fires(rules[k], device, message, facts) && forall|j: int| 0 <= j < k ==> !rule_fires(rules[j], device, message, facts);
    if k < i {
        assert(!rule_fires(rules[k], device, message, facts));
    } else if k > i {
        assert(!rule_fires(rules[i], device, message, facts));
    }
}

proof fn lemma_no_firing(rules: Seq<CompiledRule>, device: Seq<char>, message: Seq<char>, facts: Seq<Seq<char>>)
    requires
        forall|j: int| 0 <= j < rules.len() ==> !rule_fires(#[trigger] rules[j], device, message, facts),
    ensures
        first_firing(rules, device, message, facts) is None,
{
}

proof fn lemma_entry_other<T>(before: Seq<(String, T)>, after: Seq<(String, T)>, i: int, k: Seq<char>)
    requires
        unique_keys(before),
        unique_keys(after),
        0 <= i < before.len(),
        after.len() == before.len(),
        after[i].0@ == before[i].0@,
        forall|j: int| 0 <= j < before.len() && j != i ==> after[j] == before[j],
        k != before[i].0@,
    ensures
        entry_of(after, k) == entry_of(before, k),
{
    if exists|j: int| 0 <= j < before.len() && before[j].0@ == k {
        let j = choose|j: int| 0 <= j < before.len() && before[j].0@ == k;
        lemma_entry_at(before, j);
        assert(after[j] == before[j]);
        lemma_entry_at(after, j);
    } else {
        assert forall|j: int| 0 <= j < after.len() implies after[j].0@ != k by {
            if j != i {
                assert(after[j] == before[j]);
            }
        }
    }
}

} // verus!
