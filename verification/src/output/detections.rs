//! Pushing detections to event and log platforms (ServiceNow Event
//! Management, Elasticsearch, Splunk): which detections go out in a cycle,
//! and the fields they carry.
//!
//! A detection is pushed once per session, and a (device, rule) pair at most
//! once per dedup window.
use vstd::prelude::*;

use crate::text::{concat, join, owned, str_eq, views};

verus! {

/// The severity filter of ServiceNow event pushes.
pub struct EventFilter {
    pub min_severity: String,
    pub min_age_secs: u64,
    pub dedup_window_secs: u64,
}

/// The ServiceNow settings the event pusher reads.
pub struct ServiceNowConfig {
    pub enabled: bool,
    pub em_push_enabled: bool,
    pub instance_url: String,
    pub credential_alias: String,
    pub event_filter: EventFilter,
}

/// A detection waiting to be pushed.
pub struct PendingDetection {
    pub id: String,
    pub device_address: String,
    pub hostname: String,
    pub rule_id: String,
    pub severity: String,
    pub fired_at_ns: i64,
}

/// The event push rank of a severity: critical 3, high 2, warning 1, else 0.
pub open spec fn em_rank(s: Seq<char>) -> int {
    if s == "critical"@ {
        3
    } else if s == "high"@ {
        2
    } else if s == "warning"@ {
        1
    } else {
        0
    }
}

/// Whether an event of `event_severity` passes a filter at `min_severity`;
/// unknown severities rank as informational.
pub fn severity_passes(event_severity: &str, min_severity: &str) -> (r: bool)
    ensures
        r == (em_rank(event_severity@) >= em_rank(min_severity@)),
{
    em_rank_of(event_severity) >= em_rank_of(min_severity)
}

fn em_rank_of(s: &str) -> (r: u8)
    ensures
        r as int == em_rank(s@),
{
    if str_eq(s, "critical") {
        3
    } else if str_eq(s, "high") {
        2
    } else if str_eq(s, "warning") {
        1
    } else {
        0
    }
}

/// The ServiceNow event severity code: critical 1, high 2, warning 3, else 5.
pub open spec fn snow_severity(s: Seq<char>) -> Seq<char> {
    if s == "critical"@ {
        "1"@
    } else if s == "high"@ {
        "2"@
    } else if s == "warning"@ {
        "3"@
    } else {
        "5"@
    }
}

pub fn severity_to_snow(s: &str) -> (r: &'static str)
    ensures
        r@ == snow_severity(s@),
{
    if str_eq(s, "critical") {
        "1"
    } else if str_eq(s, "high") {
        "2"
    } else if str_eq(s, "warning") {
        "3"
    } else {
        "5"
    }
}

/// The ECS severity: critical 1, high or warning 2, else 3.
pub open spec fn ecs_severity(s: Seq<char>) -> u32 {
    if s == "critical"@ {
        1
    } else if s == "high"@ || s == "warning"@ {
        2
    } else {
        3
    }
}

pub fn severity_to_ecs(s: &str) -> (r: u32)
    ensures
        r == ecs_severity(s@),
{
    if str_eq(s, "critical") {
        1
    } else if str_eq(s, "high") || str_eq(s, "warning") {
        2
    } else {
        3
    }
}

/// Which detections were pushed in this session, and when each (device,
/// rule) pair was last pushed.
pub struct PushDedup {
    pub pushed: Vec<String>,
    pub last_pushed: Vec<(String, String, i64)>,
}

/// The time `(device, rule)` was last pushed.
pub open spec fn last_push(t: Seq<(String, String, i64)>, device: Seq<char>, rule: Seq<char>) -> Option<i64>
    decreases t.len(),
{
    if t.len() == 0 {
        None
    } else if t.last().0@ == device && t.last().1@ == rule {
        Some(t.last().2)
    } else {
        last_push(t.drop_last(), device, rule)
    }
}

/// The detection was pushed in this session.
pub open spec fn was_pushed(p: Seq<String>, id: Seq<char>) -> bool {
    exists|i: int| 0 <= i < p.len() && #[trigger] p[i]@ == id
}

/// A detection that is new to the session and whose pair is outside the
/// dedup window.
pub open spec fn fresh(d: PushDedup, id: Seq<char>, device: Seq<char>, rule: Seq<char>, now_ns: i64, window_ns: i64) -> bool {
    &&& !was_pushed(d.pushed@, id)
    &&& match last_push(d.last_pushed@, device, rule) {
        Some(t) => now_ns - t >= window_ns,
        None => true,
    }
}

/// The times a push may be compared with `now_ns` within `i64`.
pub open spec fn times_comparable(d: PushDedup, now_ns: i64) -> bool {
    forall|i: int| 0 <= i < d.last_pushed@.len() ==>
        i64::MIN <= now_ns - (#[trigger] d.last_pushed@[i]).2 <= i64::MAX
}

impl PushDedup {
    /// Nothing pushed yet.
    pub fn new() -> (r: PushDedup)
        ensures
            r.pushed@.len() == 0,
            r.last_pushed@.len() == 0,
    {
        PushDedup { pushed: Vec::new(), last_pushed: Vec::new() }
    }

    /// Whether a detection may be pushed at `now_ns`.
    pub fn is_fresh(&self, id: &str, device: &str, rule: &str, now_ns: i64, window_ns: i64) -> (r: bool)
        requires
            times_comparable(*self, now_ns),
        ensures
            r == fresh(*self, id@, device@, rule@, now_ns, window_ns),
    {
        let mut i: usize = 0;
        while i < self.pushed.len()
            invariant
                i <= self.pushed@.len(),
                forall|k: int| 0 <= k < i ==> self.pushed@[k]@ != id@,
            decreases self.pushed@.len() - i,
        {
            if str_eq(self.pushed[i].as_str(), id) {
                return false;
            }
            i = i + 1;
        }
        let mut k: usize = self.last_pushed.len();
        proof {
            assert(self.last_pushed@.take(k as int) =~= self.last_pushed@);
        }
        while k > 0
            invariant
                k <= self.last_pushed@.len(),
                times_comparable(*self, now_ns),
                forall|j: int| 0 <= j < self.pushed@.len() ==> self.pushed@[j]@ != id@,
                last_push(self.last_pushed@, device@, rule@) == last_push(self.last_pushed@.take(k as int), device@, rule@),
            decreases k,
        {
            let e = &self.last_pushed[k - 1];
            proof {
                let pre = self.last_pushed@.take(k as int);
                assert(pre.last() == self.last_pushed@[k - 1]);
                assert(pre.drop_last() =~= self.last_pushed@.take(k - 1));
            }
            if str_eq(e.0.as_str(), device) && str_eq(e.1.as_str(), rule) {
                proof {
                    let pre = self.last_pushed@.take(k as int);
                    assert(last_push(pre, device@, rule@) == Some(e.2));
                }
                return now_ns - e.2 >= window_ns;
            }
            k = k - 1;
        }
        proof {
            assert(self.last_pushed@.take(0) =~= Seq::<(String, String, i64)>::empty());
        }
        true
    }

    /// Records a successful push at `now_ns`.
    pub fn mark_pushed(&mut self, id: &str, device: &str, rule: &str, now_ns: i64)
        ensures
            was_pushed(final(self).pushed@, id@),
            forall|x: Seq<char>| #[trigger] was_pushed(final(self).pushed@, x) <==> (was_pushed(old(self).pushed@, x) || x == id@),
            last_push(final(self).last_pushed@, device@, rule@) == Some(now_ns),
            forall|dv: Seq<char>, rl: Seq<char>| !(dv == device@ && rl == rule@) ==>
                #[trigger] last_push(final(self).last_pushed@, dv, rl) == last_push(old(self).last_pushed@, dv, rl),
            final(self).last_pushed@.drop_last() == old(self).last_pushed@,
            final(self).last_pushed@.len() == old(self).last_pushed@.len() + 1,
            final(self).last_pushed@.last().2 == now_ns,
    {
        let ghost before = self.pushed@;
        self.pushed.push(owned(id));
        proof {
            assert(self.pushed@[before.len() as int]@ == id@);
            assert forall|x: Seq<char>| #[trigger] was_pushed(self.pushed@, x) <==> (was_pushed(before, x) || x == id@) by {
                if was_pushed(before, x) {
                    let i = choose|i: int| 0 <= i < before.len() && #[trigger] before[i]@ == x;
                    assert(self.pushed@[i] == before[i]);
                }
                if was_pushed(self.pushed@, x) && x != id@ {
                    let i = choose|i: int| 0 <= i < self.pushed@.len() && #[trigger] self.pushed@[i]@ == x;
                    assert(i < before.len());
                    assert(before[i] == self.pushed@[i]);
                }
            }
        }
        let ghost lp = self.last_pushed@;
        self.last_pushed.push((owned(device), owned(rule), now_ns));
        proof {
            assert(self.last_pushed@.drop_last() =~= lp);
        }
    }
}

/// The ids pushed in the session.
pub open spec fn pushed_ids(d: PushDedup) -> Set<Seq<char>> {
    Set::new(|x: Seq<char>| was_pushed(d.pushed@, x))
}

/// The time each (device, rule) pair was last pushed.
pub open spec fn last_times(d: PushDedup) -> spec_fn(Seq<char>, Seq<char>) -> Option<i64> {
    |dv: Seq<char>, rl: Seq<char>| last_push(d.last_pushed@, dv, rl)
}

/// `det` may go out at `now_ns`, given the ids pushed and the last push
/// time of each pair.
pub open spec fn fresh_in(
    p: Set<Seq<char>>,
    l: spec_fn(Seq<char>, Seq<char>) -> Option<i64>,
    det: PendingDetection,
    now_ns: i64,
    window_ns: i64,
) -> bool {
    &&& !p.contains(det.id@)
    &&& match l(det.device_address@, det.rule_id@) {
        Some(t) => now_ns - t >= window_ns,
        None => true,
    }
}

/// Which of `dets`, taken in order, go out in one cycle at `now_ns`: each
/// one that is fresh once the ones before it have gone out.
pub open spec fn batch(
    p: Set<Seq<char>>,
    l: spec_fn(Seq<char>, Seq<char>) -> Option<i64>,
    dets: Seq<PendingDetection>,
    now_ns: i64,
    window_ns: i64,
) -> Seq<bool>
    decreases dets.len(),
{
    if dets.len() == 0 {
        Seq::empty()
    } else {
        let d = dets[0];
        if fresh_in(p, l, d, now_ns, window_ns) {
            seq![true] + batch(
                p.insert(d.id@),
                |dv: Seq<char>, rl: Seq<char>|
                    if dv == d.device_address@ && rl == d.rule_id@ {
                        Some(now_ns)
                    } else {
                        l(dv, rl)
                    },
                dets.drop_first(),
                now_ns,
                window_ns,
            )
        } else {
            seq![false] + batch(p, l, dets.drop_first(), now_ns, window_ns)
        }
    }
}

impl PushDedup {
    /// Picks the detections that go out in one cycle at `now_ns`, in order,
    /// and records them as pushed: `r[i]` says whether `dets[i]` goes out.
    pub fn select_batch(&mut self, dets: &Vec<PendingDetection>, now_ns: i64, window_ns: i64) -> (r: Vec<bool>)
        requires
            times_comparable(*old(self), now_ns),
        ensures
            r@ == batch(pushed_ids(*old(self)), last_times(*old(self)), dets@, now_ns, window_ns),
            forall|x: Seq<char>| #[trigger] was_pushed(final(self).pushed@, x) <==> (was_pushed(old(self).pushed@, x)
                || exists|j: int| 0 <= j < dets@.len() && r@[j] && (#[trigger] dets@[j]).id@ == x),
            forall|dv: Seq<char>, rl: Seq<char>| #[trigger] last_push(final(self).last_pushed@, dv, rl) == if exists|j: int|
                0 <= j < dets@.len() && r@[j] && (#[trigger] dets@[j]).device_address@ == dv && dets@[j].rule_id@ == rl {
                Some(now_ns)
            } else {
                last_push(old(self).last_pushed@, dv, rl)
            },
            times_comparable(*final(self), now_ns),
    {
        let ghost p0 = pushed_ids(*self);
        let ghost l0 = last_times(*self);
        let ghost old_pushed = self.pushed@;
        let ghost old_last = self.last_pushed@;
        let mut r: Vec<bool> = Vec::new();
        let mut i: usize = 0;
        assert(dets@.skip(0) =~= dets@);
        while i < dets.len()
            invariant
                i <= dets@.len(),
                r@.len() == i,
                times_comparable(*self, now_ns),
                batch(p0, l0, dets@, now_ns, window_ns) == r@ + batch(
                    pushed_ids(*self),
                    last_times(*self),
                    dets@.skip(i as int),
                    now_ns,
                    window_ns,
                ),
                forall|x: Seq<char>| #[trigger] was_pushed(self.pushed@, x) <==> (was_pushed(old_pushed, x)
                    || exists|j: int| 0 <= j < i && r@[j] && (#[trigger] dets@[j]).id@ == x),
                forall|dv: Seq<char>, rl: Seq<char>| #[trigger] last_push(self.last_pushed@, dv, rl) == if exists|j: int|
                    0 <= j < i && r@[j] && (#[trigger] dets@[j]).device_address@ == dv && dets@[j].rule_id@ == rl {
                    Some(now_ns)
                } else {
                    last_push(old_last, dv, rl)
                },
            decreases dets@.len() - i,
        {
            let d = &dets[i];
            let ghost p = pushed_ids(*self);
            let ghost l = last_times(*self);
            let ghost rest = dets@.skip(i as int);
            assert(rest[0] == dets@[i as int]);
            assert(rest.drop_first() =~= dets@.skip(i + 1));
            let fresh = self.is_fresh(d.id.as_str(), d.device_address.as_str(), d.rule_id.as_str(), now_ns, window_ns);
            assert(fresh == fresh_in(p, l, *d, now_ns, window_ns));
            let ghost before = *self;
            if fresh {
                self.mark_pushed(d.id.as_str(), d.device_address.as_str(), d.rule_id.as_str(), now_ns);
                proof {
                    assert(pushed_ids(*self) =~= p.insert(d.id@));
                    let l2 = |dv: Seq<char>, rl: Seq<char>|
                        if dv == d.device_address@ && rl == d.rule_id@ {
                            Some(now_ns)
                        } else {
                            l(dv, rl)
                        };
                    assert(last_times(*self) =~= l2);
                    assert forall|k: int| 0 <= k < self.last_pushed@.len() implies i64::MIN <= now_ns - (
                    #[trigger] self.last_pushed@[k]).2 <= i64::MAX by {
                        if k < before.last_pushed@.len() {
                            assert(self.last_pushed@[k] == self.last_pushed@.drop_last()[k]);
                        }
                    }
                }
                r.push(true);
            } else {
                r.push(false);
            }
            proof {
                let rv = r@;
                assert(rv.drop_last() =~= rv.subrange(0, i as int));
                assert forall|x: Seq<char>| #[trigger] was_pushed(self.pushed@, x) <==> (was_pushed(old_pushed, x)
                    || exists|j: int| 0 <= j < i + 1 && rv[j] && (#[trigger] dets@[j]).id@ == x) by {
                    if exists|j: int| 0 <= j < i + 1 && rv[j] && (#[trigger] dets@[j]).id@ == x {
                        let j = choose|j: int| 0 <= j < i + 1 && rv[j] && (#[trigger] dets@[j]).id@ == x;
                        if j < i {
                            assert(rv[j] == rv.subrange(0, i as int)[j]);
                        }
                    }
                    if exists|j: int| 0 <= j < i && rv.drop_last()[j] && (#[trigger] dets@[j]).id@ == x {
                        let j = choose|j: int| 0 <= j < i && rv.drop_last()[j] && (#[trigger] dets@[j]).id@ == x;
                        assert(rv[j] == rv.drop_last()[j]);
                    }
                }
                assert forall|dv: Seq<char>, rl: Seq<char>| #[trigger] last_push(self.last_pushed@, dv, rl) == if exists|j: int|
                    0 <= j < i + 1 && rv[j] && (#[trigger] dets@[j]).device_address@ == dv && dets@[j].rule_id@ == rl {
                    Some(now_ns)
                } else {
                    last_push(old_last, dv, rl)
                } by {
                    if exists|j: int| 0 <= j < i + 1 && rv[j] && (#[trigger] dets@[j]).device_address@ == dv && dets@[j].rule_id@ == rl {
                        let j = choose|j: int| 0 <= j < i + 1 && rv[j] && (#[trigger] dets@[j]).device_address@ == dv && dets@[j].rule_id@ == rl;
                        if j < i {
                            assert(rv[j] == rv.drop_last()[j]);
                        }
                    }
                    if exists|j: int| 0 <= j < i && rv.drop_last()[j] && (#[trigger] dets@[j]).device_address@ == dv && dets@[j].rule_id@ == rl {
                        let j = choose|j: int| 0 <= j < i && rv.drop_last()[j] && (#[trigger] dets@[j]).device_address@ == dv && dets@[j].rule_id@ == rl;
                        assert(rv[j] == rv.drop_last()[j]);
                    }
                }
                assert(rv =~= rv.drop_last() + seq![fresh]);
            }
            i = i + 1;
        }
        proof {
            assert(dets@.skip(i as int) =~= Seq::<PendingDetection>::empty());
            assert(r@ + Seq::<bool>::empty() =~= r@);
        }
        r
    }
}

/// Whether a detection passes the ServiceNow event filter at `now_ns`: new to
/// the session, severe enough, old enough, and outside the dedup window.
pub open spec fn em_should_push(
    d: PushDedup,
    det: PendingDetection,
    min_severity: Seq<char>,
    now_ns: i64,
    min_age_ns: i64,
    dedup_window_ns: i64,
) -> bool {
    &&& !was_pushed(d.pushed@, det.id@)
    &&& em_rank(det.severity@) >= em_rank(min_severity)
    &&& now_ns - det.fired_at_ns >= min_age_ns
    &&& match last_push(d.last_pushed@, det.device_address@, det.rule_id@) {
        Some(t) => now_ns - t >= dedup_window_ns,
        None => true,
    }
}

/// The event pusher for ServiceNow Event Management.
pub struct ServiceNowEmPusher {
    pub config: ServiceNowConfig,
    pub dedup: PushDedup,
}

impl ServiceNowEmPusher {
    pub fn new(config: ServiceNowConfig) -> (r: ServiceNowEmPusher)
        ensures
            r.config == config,
            r.dedup.pushed@.len() == 0,
            r.dedup.last_pushed@.len() == 0,
    {
        ServiceNowEmPusher { config, dedup: PushDedup::new() }
    }

    /// Whether `det` is to be pushed in the cycle at `now_ns`.
    pub fn should_push(&self, det: &PendingDetection, now_ns: i64) -> (r: bool)
        requires
            times_comparable(self.dedup, now_ns),
            i64::MIN <= now_ns - det.fired_at_ns <= i64::MAX,
            self.config.event_filter.min_age_secs * 1_000_000_000 <= i64::MAX,
            self.config.event_filter.dedup_window_secs * 1_000_000_000 <= i64::MAX,
        ensures
            r == em_should_push(
                self.dedup,
                *det,
                self.config.event_filter.min_severity@,
                now_ns,
                (self.config.event_filter.min_age_secs * 1_000_000_000) as i64,
                (self.config.event_filter.dedup_window_secs * 1_000_000_000) as i64,
            ),
    {
        let min_age_ns = (self.config.event_filter.min_age_secs as i64) * 1_000_000_000;
        let window_ns = (self.config.event_filter.dedup_window_secs as i64) * 1_000_000_000;
        if !severity_passes(det.severity.as_str(), self.config.event_filter.min_severity.as_str()) {
            return false;
        }
        if now_ns - det.fired_at_ns < min_age_ns {
            return false;
        }
        self.dedup.is_fresh(det.id.as_str(), det.device_address.as_str(), det.rule_id.as_str(), now_ns, window_ns)
    }

    /// Records that `det` was pushed at `now_ns`: its id joins the pushed
    /// ones, which all stay, and its (device, rule) pair takes this time
    /// while every other pair keeps its own.
    pub fn record_push(&mut self, det: &PendingDetection, now_ns: i64)
        ensures
            was_pushed(final(self).dedup.pushed@, det.id@),
            forall|x: Seq<char>| #[trigger] was_pushed(final(self).dedup.pushed@, x) <==> (was_pushed(old(self).dedup.pushed@, x) || x == det.id@),
            last_push(final(self).dedup.last_pushed@, det.device_address@, det.rule_id@) == Some(now_ns),
            forall|dv: Seq<char>, rl: Seq<char>| !(dv == det.device_address@ && rl == det.rule_id@) ==>
                #[trigger] last_push(final(self).dedup.last_pushed@, dv, rl) == last_push(old(self).dedup.last_pushed@, dv, rl),
            final(self).config == old(self).config,
            final(self).dedup.last_pushed@.drop_last() == old(self).dedup.last_pushed@,
            final(self).dedup.last_pushed@.len() == old(self).dedup.last_pushed@.len() + 1,
            final(self).dedup.last_pushed@.last().2 == now_ns,
    {
        self.dedup.mark_pushed(det.id.as_str(), det.device_address.as_str(), det.rule_id.as_str(), now_ns);
    }

    /// The next detection of a push cycle at `now_ns`: the first at or
    /// after position `from` of `dets` that is to be pushed now, given what
    /// was already pushed. The caller posts it, records it with
    /// `record_push` when it went out, and asks again from the position
    /// after it; the cycle ends at `None`.
    pub fn next_to_push(&self, dets: &Vec<PendingDetection>, from: usize, now_ns: i64) -> (r: Option<usize>)
        requires
            times_comparable(self.dedup, now_ns),
            forall|i: int| 0 <= i < dets@.len() ==> i64::MIN <= now_ns - (#[trigger] dets@[i]).fired_at_ns <= i64::MAX,
            self.config.event_filter.min_age_secs * 1_000_000_000 <= i64::MAX,
            self.config.event_filter.dedup_window_secs * 1_000_000_000 <= i64::MAX,
        ensures
            match r {
                Some(k) => from <= k < dets@.len() && em_should_push(
                    self.dedup,
                    dets@[k as int],
                    self.config.event_filter.min_severity@,
                    now_ns,
                    (self.config.event_filter.min_age_secs * 1_000_000_000) as i64,
                    (self.config.event_filter.dedup_window_secs * 1_000_000_000) as i64,
                ),
                None => true,
            },
            forall|j: int| from <= j < (match r { Some(k) => k as int, None => dets@.len() as int }) ==> !em_should_push(
                self.dedup,
                #[trigger] dets@[j],
                self.config.event_filter.min_severity@,
                now_ns,
                (self.config.event_filter.min_age_secs * 1_000_000_000) as i64,
                (self.config.event_filter.dedup_window_secs * 1_000_000_000) as i64,
            ),
    {
        let mut i = from;
        while i < dets.len()
            invariant
                from <= i,
                times_comparable(self.dedup, now_ns),
                forall|k: int| 0 <= k < dets@.len() ==> i64::MIN <= now_ns - (#[trigger] dets@[k]).fired_at_ns <= i64::MAX,
                self.config.event_filter.min_age_secs * 1_000_000_000 <= i64::MAX,
                self.config.event_filter.dedup_window_secs * 1_000_000_000 <= i64::MAX,
                forall|j: int| from <= j < i ==> !em_should_push(
                    self.dedup,
                    #[trigger] dets@[j],
                    self.config.event_filter.min_severity@,
                    now_ns,
                    (self.config.event_filter.min_age_secs * 1_000_000_000) as i64,
                    (self.config.event_filter.dedup_window_secs * 1_000_000_000) as i64,
                ),
            decreases dets@.len() - i,
        {
            if self.should_push(&dets[i], now_ns) {
                return Some(i);
            }
            i = i + 1;
        }
        None
    }
}

/// The fields of a ServiceNow event for a detection.
pub struct EmEvent {
    pub node: String,
    pub event_type: String,
    pub resource: String,
    pub severity: String,
    pub description: String,
    pub message_key: String,
}

/// The node an event names: the hostname, or the address when it is empty.
pub open spec fn em_node(det: PendingDetection) -> Seq<char> {
    if det.hostname@.len() == 0 {
        det.device_address@
    } else {
        det.hostname@
    }
}

/// The fields of the ServiceNow event for `det`.
pub fn em_event(det: &PendingDetection) -> (r: EmEvent)
    ensures
        r.node@ == em_node(*det),
        r.event_type@ == det.rule_id@,
        r.resource@ == det.device_address@,
        r.severity@ == snow_severity(det.severity@),
        r.description@ == "Bonsai detection: "@ + det.rule_id@ + " on "@ + em_node(*det),
        r.message_key@ == "bonsai:"@ + det.id@,
{
    let node = if det.hostname.as_str().is_empty() {
        det.device_address.clone()
    } else {
        det.hostname.clone()
    };
    let mut description = owned("Bonsai detection: ");
    description.append(det.rule_id.as_str());
    description.append(" on ");
    description.append(node.as_str());
    EmEvent {
        node,
        event_type: det.rule_id.clone(),
        resource: det.device_address.clone(),
        severity: owned(severity_to_snow(det.severity.as_str())),
        description,
        message_key: concat("bonsai:", det.id.as_str()),
    }
}

/// `s` without its trailing `/` characters.
pub open spec fn without_trailing_slashes(s: Seq<char>) -> Seq<char>
    decreases s.len(),
{
    if s.len() > 0 && s.last() == '/' {
        without_trailing_slashes(s.drop_last())
    } else {
        s
    }
}

/// `str::trim_end_matches('/')`.
pub fn trim_trailing_slashes(s: &str) -> (r: String)
    ensures
        r@ == without_trailing_slashes(s@),
{
    let c = crate::text::chars_of(s);
    let mut n: usize = c.len();
    proof {
        assert(c@.take(n as int) =~= c@);
    }
    while n > 0 && c[n - 1] == '/'
        invariant
            n <= c@.len(),
            c@ == s@,
            without_trailing_slashes(s@) == without_trailing_slashes(c@.take(n as int)),
        decreases n,
    {
        proof {
            assert(c@.take(n as int).drop_last() =~= c@.take(n - 1));
        }
        n = n - 1;
    }
    let t = crate::text::slice_range(c.as_slice(), 0, n);
    proof {
        assert(t@ =~= c@.take(n as int));
    }
    crate::text::string_of(t.as_slice())
}

/// The URL of the Elasticsearch bulk API for `index`.
pub fn bulk_url(endpoint_url: &str, index: &str) -> (r: String)
    ensures
        r@ == without_trailing_slashes(endpoint_url@) + "/"@ + index@ + "/_bulk"@,
{
    let mut u = trim_trailing_slashes(endpoint_url);
    u.append("/");
    u.append(index);
    u.append("/_bulk");
    u
}

/// The URL of the Splunk HTTP event collector.
pub fn hec_url(endpoint_url: &str) -> (r: String)
    ensures
        r@ == without_trailing_slashes(endpoint_url@) + "/services/collector/event"@,
{
    let mut u = trim_trailing_slashes(endpoint_url);
    u.append("/services/collector/event");
    u
}

/// The body of a bulk request: every line ends with a line feed, the last one
/// too.
pub fn bulk_body(lines: &Vec<String>) -> (r: String)
    ensures
        r@ == join(views(lines@), "\n"@) + "\n"@,
{
    let mut body = crate::text::join_strings(lines, "\n");
    body.append("\n");
    body
}

/// The body of a Splunk batch: the events separated by line feeds.
pub fn hec_body(lines: &Vec<String>) -> (r: String)
    ensures
        r@ == join(views(lines@), "\n"@),
{
    crate::text::join_strings(lines, "\n")
}


// ── Laws ─────────────────────────────────────────────────────────────────────

/// A critical event passes a filter at any minimum severity.
pub proof fn lemma_critical_passes_any(min_severity: Seq<char>)
    ensures
        em_rank("critical"@) >= em_rank(min_severity),
{
}

/// Passing the filter is monotone: an event at least as severe as one that
/// passes also passes.
pub proof fn lemma_severity_filter_monotone(a: Seq<char>, b: Seq<char>, min_severity: Seq<char>)
    requires
        em_rank(a) >= em_rank(b),
        em_rank(b) >= em_rank(min_severity),
    ensures
        em_rank(a) >= em_rank(min_severity),
{
}

/// A detection pushed in this session is never fresh again.
pub proof fn lemma_pushed_never_fresh(
    d: PushDedup,
    id: Seq<char>,
    device: Seq<char>,
    rule: Seq<char>,
    now_ns: i64,
    window_ns: i64,
)
    requires
        was_pushed(d.pushed@, id),
    ensures
        !fresh(d, id, device, rule, now_ns, window_ns),
{
}

/// Within the dedup window after a (device, rule) pair was pushed, no
/// detection of that pair is fresh.
pub proof fn lemma_pair_held_within_window(
    d: PushDedup,
    id: Seq<char>,
    device: Seq<char>,
    rule: Seq<char>,
    t: i64,
    now_ns: i64,
    window_ns: i64,
)
    requires
        last_push(d.last_pushed@, device, rule) == Some(t),
        now_ns - t < window_ns,
    ensures
        !fresh(d, id, device, rule, now_ns, window_ns),
{
}

/// In one cycle, two detections of the same (device, rule) pair never both
/// go out when the window is positive.
pub proof fn lemma_batch_one_per_pair(
    p: Set<Seq<char>>,
    l: spec_fn(Seq<char>, Seq<char>) -> Option<i64>,
    dets: Seq<PendingDetection>,
    now_ns: i64,
    window_ns: i64,
    i: int,
    j: int,
)
    requires
        window_ns > 0,
        0 <= i < j < dets.len(),
        dets[i].device_address@ == dets[j].device_address@,
        dets[i].rule_id@ == dets[j].rule_id@,
    ensures
        !(batch(p, l, dets, now_ns, window_ns)[i] && batch(p, l, dets, now_ns, window_ns)[j]),
    decreases dets.len(),
{
    let d = dets[0];
    let rest = dets.drop_first();
    let b = batch(p, l, dets, now_ns, window_ns);
    assert(rest[j - 1] == dets[j]);
    if fresh_in(p, l, d, now_ns, window_ns) {
        let l2 = |dv: Seq<char>, rl: Seq<char>|
            if dv == d.device_address@ && rl == d.rule_id@ {
                Some(now_ns)
            } else {
                l(dv, rl)
            };
        let br = batch(p.insert(d.id@), l2, rest, now_ns, window_ns);
        lemma_batch_len(p.insert(d.id@), l2, rest, now_ns, window_ns);
        assert(b == seq![true] + br);
        assert(b[j] == br[j - 1]);
        if i == 0 {
            lemma_batch_held(p.insert(d.id@), l2, rest, now_ns, window_ns, j - 1);
        } else {
            assert(rest[i - 1] == dets[i]);
            assert(b[i] == br[i - 1]);
            lemma_batch_one_per_pair(p.insert(d.id@), l2, rest, now_ns, window_ns, i - 1, j - 1);
        }
    } else {
        let br = batch(p, l, rest, now_ns, window_ns);
        lemma_batch_len(p, l, rest, now_ns, window_ns);
        assert(b == seq![false] + br);
        assert(b[j] == br[j - 1]);
        if i > 0 {
            assert(rest[i - 1] == dets[i]);
            assert(b[i] == br[i - 1]);
            lemma_batch_one_per_pair(p, l, rest, now_ns, window_ns, i - 1, j - 1);
        }
    }
}

/// One answer per detection.
pub proof fn lemma_batch_len(
    p: Set<Seq<char>>,
    l: spec_fn(Seq<char>, Seq<char>) -> Option<i64>,
    dets: Seq<PendingDetection>,
    now_ns: i64,
    window_ns: i64,
)
    ensures
        batch(p, l, dets, now_ns, window_ns).len() == dets.len(),
    decreases dets.len(),
{
    if dets.len() > 0 {
        let d = dets[0];
        if fresh_in(p, l, d, now_ns, window_ns) {
            let l2 = |dv: Seq<char>, rl: Seq<char>|
                if dv == d.device_address@ && rl == d.rule_id@ {
                    Some(now_ns)
                } else {
                    l(dv, rl)
                };
            lemma_batch_len(p.insert(d.id@), l2, dets.drop_first(), now_ns, window_ns);
        } else {
            lemma_batch_len(p, l, dets.drop_first(), now_ns, window_ns);
        }
    }
}

/// A pair last pushed at `now_ns` is held for the rest of the cycle.
proof fn lemma_batch_held(
    p: Set<Seq<char>>,
    l: spec_fn(Seq<char>, Seq<char>) -> Option<i64>,
    dets: Seq<PendingDetection>,
    now_ns: i64,
    window_ns: i64,
    j: int,
)
    requires
        window_ns > 0,
        0 <= j < dets.len(),
        l(dets[j].device_address@, dets[j].rule_id@) == Some(now_ns),
    ensures
        !batch(p, l, dets, now_ns, window_ns)[j],
    decreases dets.len(),
{
    let d = dets[0];
    let rest = dets.drop_first();
    let b = batch(p, l, dets, now_ns, window_ns);
    if j > 0 {
        assert(rest[j - 1] == dets[j]);
    }
    if fresh_in(p, l, d, now_ns, window_ns) {
        let l2 = |dv: Seq<char>, rl: Seq<char>|
            if dv == d.device_address@ && rl == d.rule_id@ {
                Some(now_ns)
            } else {
                l(dv, rl)
            };
        let br = batch(p.insert(d.id@), l2, rest, now_ns, window_ns);
        lemma_batch_len(p.insert(d.id@), l2, rest, now_ns, window_ns);
        assert(b == seq![true] + br);
        if j > 0 {
            assert(b[j] == br[j - 1]);
            lemma_batch_held(p.insert(d.id@), l2, rest, now_ns, window_ns, j - 1);
        }
    } else {
        let br = batch(p, l, rest, now_ns, window_ns);
        lemma_batch_len(p, l, rest, now_ns, window_ns);
        assert(b == seq![false] + br);
        if j > 0 {
            assert(b[j] == br[j - 1]);
            lemma_batch_held(p, l, rest, now_ns, window_ns, j - 1);
        }
    }
}

} // verus!
