//! When a fired detection starts an investigation by itself: only critical
//! and high ones, one investigation per detection at a time, at most
//! `MAX_CONCURRENT` at once, and none for a device that had one started in the
//! last `DEVICE_COOLDOWN_SECS`.
//!
//! Listening to the events and asking the server to create the investigation
//! belong to the caller, which hands each event here and acts on the answer.
use vstd::prelude::*;

use crate::keyed::{find_keyed, has_key, keys_unique, lemma_keyed_absent, lemma_keyed_at, lemma_keyed_push, lemma_keyed_update};
use crate::text::{ascii_lower_chars, ascii_lower_seq, chars_of, concat, owned, seq_eq, str_eq};

verus! {

/// The most investigations started and not yet let go.
pub const MAX_CONCURRENT: usize = 4;

/// The least time between two investigations of one device, in seconds.
pub const DEVICE_COOLDOWN_SECS: u64 = 300;

/// The same in nanoseconds.
pub const DEVICE_COOLDOWN_NS: u64 = 300_000_000_000;

/// Whether the investigation trigger runs, and the server it asks.
pub struct InvestigationTriggerConfig {
    pub enabled: bool,
    pub base_url: String,
}

/// What to do with one event.
#[derive(Debug, Clone, Copy, PartialEq, Eq, Structural)]
pub enum TriggerDecision {
    /// Start an investigation of this detection on this device.
    Investigate,
    NotADetection,
    MissingDetectionId,
    /// The severity is neither critical nor high.
    BelowThreshold,
    AlreadyInFlight,
    AtCapacity,
    DeviceCooldown,
}

/// A severity that starts an investigation: critical or high, in any case.
pub open spec fn auto_severity(s: Seq<char>) -> bool {
    ascii_lower_seq(s) == "critical"@ || ascii_lower_seq(s) == "high"@
}

/// Time from `then` to `now`; nothing when `now` is earlier.
pub open spec fn elapsed(then: u64, now: u64) -> int {
    if now >= then {
        now - then
    } else {
        0
    }
}

/// Whether a device last triggered at `last` is still cooling down at `now`.
pub open spec fn cooling(last: Option<u64>, now: u64) -> bool {
    match last {
        Some(t) => elapsed(t, now) < DEVICE_COOLDOWN_NS,
        None => false,
    }
}

/// The decision on one event, given the detections in flight and the last
/// time the event's device was triggered.
pub open spec fn trigger_decision(
    in_flight: Seq<Seq<char>>,
    last: Option<u64>,
    event_type: Seq<char>,
    detection_id: Seq<char>,
    severity: Seq<char>,
    now: u64,
) -> TriggerDecision {
    if event_type != "detection_fired"@ {
        TriggerDecision::NotADetection
    } else if detection_id.len() == 0 {
        TriggerDecision::MissingDetectionId
    } else if !auto_severity(severity) {
        TriggerDecision::BelowThreshold
    } else if in_flight.contains(detection_id) {
        TriggerDecision::AlreadyInFlight
    } else if in_flight.len() >= MAX_CONCURRENT {
        TriggerDecision::AtCapacity
    } else if cooling(last, now) {
        TriggerDecision::DeviceCooldown
    } else {
        TriggerDecision::Investigate
    }
}

pub open spec fn device_key() -> spec_fn((String, u64)) -> Seq<char> {
    |p: (String, u64)| p.0@
}

/// The detections in flight and the last trigger time of each device.
pub struct TriggerState {
    in_flight: Vec<String>,
    device_last_triggered: Vec<(String, u64)>,
}

impl TriggerState {
    /// The detections in flight, in the order they were started.
    pub closed spec fn flights(&self) -> Seq<Seq<char>> {
        self.in_flight@.map_values(|s: String| s@)
    }

    /// The last time `device` was triggered.
    pub closed spec fn last_triggered(&self, device: Seq<char>) -> Option<u64> {
        match find_keyed(self.device_last_triggered@, device_key(), device) {
            Some(p) => Some(p.1),
            None => None,
        }
    }

    /// No detection is in flight twice, no more than `MAX_CONCURRENT` are,
    /// and each device has one time.
    #[verifier::type_invariant]
    spec fn wf(&self) -> bool {
        &&& self.flights().no_duplicates()
        &&& self.flights().len() <= MAX_CONCURRENT
        &&& keys_unique(self.device_last_triggered@, device_key())
    }

    pub fn new() -> (r: TriggerState)
        ensures
            r.flights().len() == 0,
            forall|d: Seq<char>| #[trigger] r.last_triggered(d) is None,
    {
        let r = TriggerState { in_flight: Vec::new(), device_last_triggered: Vec::new() };
        assert(r.flights() =~= Seq::<Seq<char>>::empty());
        assert(r.wf());
        r
    }

    /// Whether the investigation of `id` is in flight.
    pub fn is_in_flight(&self, id: &str) -> (r: bool)
        ensures
            r == self.flights().contains(id@),
    {
        let mut i: usize = 0;
        while i < self.in_flight.len()
            invariant
                i <= self.in_flight@.len(),
                forall|j: int| 0 <= j < i ==> (#[trigger] self.in_flight@[j])@ != id@,
            decreases self.in_flight@.len() - i,
        {
            if str_eq(self.in_flight[i].as_str(), id) {
                assert(self.flights()[i as int] == id@);
                return true;
            }
            i = i + 1;
        }
        assert forall|j: int| 0 <= j < self.flights().len() implies self.flights()[j] != id@ by {
            assert(self.flights()[j] == self.in_flight@[j]@);
        }
        false
    }

    /// How many investigations are in flight; never more than
    /// `MAX_CONCURRENT`.
    pub fn in_flight_count(&self) -> (r: usize)
        ensures
            r == self.flights().len(),
            r <= MAX_CONCURRENT,
    {
        proof {
            use_type_invariant(self);
        }
        self.in_flight.len()
    }

    fn find_device(&self, device: &str) -> (r: Option<usize>)
        requires
            self.wf(),
        ensures
            match r {
                Some(i) => i < self.device_last_triggered@.len() && self.device_last_triggered@[i as int].0@ == device@
                    && self.last_triggered(device@) == Some(self.device_last_triggered@[i as int].1),
                None => self.last_triggered(device@) is None && !has_key(
                    self.device_last_triggered@,
                    device_key(),
                    device@,
                ),
            },
    {
        let mut i: usize = 0;
        while i < self.device_last_triggered.len()
            invariant
                self.wf(),
                i <= self.device_last_triggered@.len(),
                forall|j: int| 0 <= j < i ==> (device_key())(#[trigger] self.device_last_triggered@[j]) != device@,
            decreases self.device_last_triggered@.len() - i,
        {
            if str_eq(self.device_last_triggered[i].0.as_str(), device) {
                proof {
                    lemma_keyed_at(self.device_last_triggered@, device_key(), i as int);
                }
                return Some(i);
            }
            i = i + 1;
        }
        proof {
            lemma_keyed_absent(self.device_last_triggered@, device_key(), device@);
        }
        None
    }

    /// Decides on one event from the event bus: its type, the id and
    /// severity of its detection, and its device, received at `now_ns`. On
    /// `Investigate` the detection is in flight and the device cools down
    /// from `now_ns`. On any other answer nothing changes.
    pub fn on_event(
        &mut self,
        event_type: &str,
        detection_id: &str,
        severity: &str,
        device_address: &str,
        now_ns: u64,
    ) -> (d: TriggerDecision)
        ensures
            final(self).flights().len() <= MAX_CONCURRENT,
            final(self).flights().no_duplicates(),
            d == trigger_decision(
                old(self).flights(),
                old(self).last_triggered(device_address@),
                event_type@,
                detection_id@,
                severity@,
                now_ns,
            ),
            d == TriggerDecision::Investigate ==> {
                &&& final(self).flights() == old(self).flights().push(detection_id@)
                &&& final(self).last_triggered(device_address@) == Some(now_ns)
                &&& forall|k: Seq<char>| k != device_address@ ==> #[trigger] final(self).last_triggered(k)
                    == old(self).last_triggered(k)
            },
            d != TriggerDecision::Investigate ==> *final(self) == *old(self),
            d == TriggerDecision::Investigate ==> ascii_lower_seq(severity@) == "critical"@ || ascii_lower_seq(
                severity@,
            ) == "high"@,
    {
        proof {
            use_type_invariant(&*self);
        }
        if !str_eq(event_type, "detection_fired") {
            return TriggerDecision::NotADetection;
        }
        let id_chars = chars_of(detection_id);
        if id_chars.len() == 0 {
            return TriggerDecision::MissingDetectionId;
        }
        let lowered = ascii_lower_chars(chars_of(severity).as_slice());
        let critical = chars_of("critical");
        let high = chars_of("high");
        if !(seq_eq(lowered.as_slice(), critical.as_slice()) || seq_eq(lowered.as_slice(), high.as_slice())) {
            return TriggerDecision::BelowThreshold;
        }
        if self.is_in_flight(detection_id) {
            return TriggerDecision::AlreadyInFlight;
        }
        if self.in_flight.len() >= MAX_CONCURRENT {
            return TriggerDecision::AtCapacity;
        }
        let found = self.find_device(device_address);
        match found {
            Some(i) => {
                let last = self.device_last_triggered[i].1;
                let waited = if now_ns >= last { now_ns - last } else { 0 };
                if waited < DEVICE_COOLDOWN_NS {
                    return TriggerDecision::DeviceCooldown;
                }
            },
            None => {},
        }
        let ghost before = self.device_last_triggered@;
        let ghost flights_before = self.flights();
        let entry = (owned(device_address), now_ns);
        let ghost ev = entry;
        let mut devices: Vec<(String, u64)> = Vec::new();
        std::mem::swap(&mut devices, &mut self.device_last_triggered);
        match found {
            Some(i) => {
                proof {
                    lemma_keyed_update(before, device_key(), i as int, ev);
                }
                devices.set(i, entry);
            },
            None => {
                proof {
                    lemma_keyed_push(before, device_key(), ev);
                }
                devices.push(entry);
            },
        }
        self.device_last_triggered = devices;
        let mut flights: Vec<String> = Vec::new();
        std::mem::swap(&mut flights, &mut self.in_flight);
        flights.push(owned(detection_id));
        proof {
            let fs = flights@.map_values(|s: String| s@);
            assert(fs =~= flights_before.push(detection_id@));
            assert forall|a: int, b: int| 0 <= a < b < fs.len() implies fs[a] != fs[b] by {
                if b == flights_before.len() {
                    assert(flights_before[a] != detection_id@);
                }
            }
        }
        self.in_flight = flights;
        assert(self.flights() =~= flights_before.push(detection_id@));
        TriggerDecision::Investigate
    }

    /// The investigation of `detection_id` has ended: it is no longer in
    /// flight, which frees its place under the cap. Nothing else changes.
    pub fn finished(&mut self, detection_id: &str)
        ensures
            final(self).flights().len() <= MAX_CONCURRENT,
            final(self).flights().no_duplicates(),
            forall|d: Seq<char>| #[trigger] final(self).last_triggered(d) == old(self).last_triggered(d),
            !final(self).flights().contains(detection_id@),
            forall|x: Seq<char>| x != detection_id@ ==> (#[trigger] final(self).flights().contains(x) <==> old(self).flights().contains(x)),
    {
        proof {
            use_type_invariant(&*self);
        }
        let mut i: usize = 0;
        while i < self.in_flight.len()
            invariant
                *self == *old(self),
                self.wf(),
                i <= self.in_flight@.len(),
                forall|k: int| 0 <= k < i ==> self.in_flight@[k]@ != detection_id@,
            decreases self.in_flight@.len() - i,
        {
            if str_eq(self.in_flight[i].as_str(), detection_id) {
                let ghost before = self.flights();
                assert(before[i as int] == detection_id@);
                let mut flights: Vec<String> = Vec::new();
                std::mem::swap(&mut flights, &mut self.in_flight);
                flights.remove(i);
                proof {
                    assert(before.no_duplicates());
                    let after = flights@.map_values(|s: String| s@);
                    assert(after =~= before.remove(i as int));
                    assert forall|x: Seq<char>| #[trigger] after.contains(x) implies before.contains(x) && x != detection_id@ by {
                        let k = choose|k: int| 0 <= k < after.len() && after[k] == x;
                        if k < i {
                            assert(before[k] == x);
                        } else {
                            assert(before[k + 1] == x);
                        }
                    }
                    assert forall|x: Seq<char>| x != detection_id@ && before.contains(x) implies #[trigger] after.contains(x) by {
                        let k = choose|k: int| 0 <= k < before.len() && before[k] == x;
                        if k < i {
                            assert(after[k] == x);
                        } else {
                            assert(k != i);
                            assert(after[k - 1] == x);
                        }
                    }
                    assert forall|a: int, b: int| 0 <= a < b < after.len() implies after[a] != after[b] by {
                        let oa = if a < i { a } else { a + 1 };
                        let ob = if b < i { b } else { b + 1 };
                        assert(before[oa] != before[ob]);
                    }
                }
                self.in_flight = flights;
                return;
            }
            i = i + 1;
        }
        proof {
            assert forall|k: int| 0 <= k < self.flights().len() implies self.flights()[k] != detection_id@ by {
                assert(self.flights()[k] == self.in_flight@[k]@);
            }
        }
    }
}

/// Where the investigations are created.
pub fn investigations_url(base_url: &str) -> (r: String)
    ensures
        r@ == base_url@ + "/api/investigations"@,
{
    concat(base_url, "/api/investigations")
}

/// A device triggered at `t` is refused another investigation until the
/// cooldown has passed.
pub proof fn lemma_cooldown_refuses(
    st: TriggerState,
    device: Seq<char>,
    t: u64,
    later: u64,
    event_type: Seq<char>,
    detection_id: Seq<char>,
    severity: Seq<char>,
)
    requires
        st.last_triggered(device) == Some(t),
        t <= later,
        later - t < DEVICE_COOLDOWN_NS,
    ensures
        trigger_decision(st.flights(), st.last_triggered(device), event_type, detection_id, severity, later)
            != TriggerDecision::Investigate,
{
}

/// A detection already in flight is not investigated again.
pub proof fn lemma_in_flight_refused(
    st: TriggerState,
    last: Option<u64>,
    event_type: Seq<char>,
    detection_id: Seq<char>,
    severity: Seq<char>,
    now: u64,
)
    requires
        st.flights().contains(detection_id),
    ensures
        trigger_decision(st.flights(), last, event_type, detection_id, severity, now) != TriggerDecision::Investigate,
{
}

/// Only critical and high severities, in any ASCII case, are investigated:
/// any other severity of a fired detection with an id is below the
/// threshold.
pub proof fn lemma_only_severe_investigated(
    in_flight: Seq<Seq<char>>,
    last: Option<u64>,
    event_type: Seq<char>,
    detection_id: Seq<char>,
    severity: Seq<char>,
    now: u64,
)
    ensures
        trigger_decision(in_flight, last, event_type, detection_id, severity, now) == TriggerDecision::Investigate
            ==> ascii_lower_seq(severity) == "critical"@ || ascii_lower_seq(severity) == "high"@,
        event_type == "detection_fired"@ && detection_id.len() > 0 && ascii_lower_seq(severity) != "critical"@
            && ascii_lower_seq(severity) != "high"@ ==> trigger_decision(
            in_flight,
            last,
            event_type,
            detection_id,
            severity,
            now,
        ) == TriggerDecision::BelowThreshold,
{
}

} // verus!
