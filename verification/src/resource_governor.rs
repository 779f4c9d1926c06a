//! Adaptive resource governance: three feedback loops that observe the
//! process and apply graduated relief before the memory budget is hit.
//!
//! 1. Memory pressure: at 80% of the budget a soft response, at 95% a hard
//!    one (which also signals an archive flush).
//! 2. Write pressure: a write queue above 50% for 60 s in a row expands the
//!    write batch.
//! 3. Inbound rate: more events in a 10 s window than the budget allows turns
//!    on shedding of low-priority events.
//!
//! The loops themselves (timers, sampling, metrics, logging) belong to the
//! caller: each tick hands the sample to the handle, which decides and keeps
//! the counters.
use vstd::prelude::*;

use crate::resource_profile::{profile_name, ProfileDefaults, ResourceProfile, MIB};
use crate::text::owned;

verus! {

/// Seconds between two samples of the rate loop.
pub const RATE_WINDOW_SECS: u64 = 10;

/// Nanoseconds of write pressure after which the batch is expanded.
pub const WRITE_SUSTAIN_NS: u64 = 60_000_000_000;

/// Queue fill, in percent, above which the write queue is under pressure.
pub const WRITE_PRESSURE_PCT: u64 = 50;

/// Shared governance state.
pub struct GovernorHandle {
    pub profile: ResourceProfile,
    pub defaults: ProfileDefaults,
    pub memory_shrink_count: u64,
    pub memory_flush_count: u64,
    pub write_batch_expand_count: u64,
    pub rate_shed_count: u64,
    pub memory_pressure_active: bool,
    pub write_pressure_active: bool,
    pub rate_shedding_active: bool,
    /// Inbound events recorded so far (wraps around).
    pub inbound_event_counter: u64,
    /// The counter at the previous rate sample.
    pub last_event_counter: u64,
    /// Since when (monotonic ns) the write queue has been under pressure.
    pub write_pressure_since_ns: Option<u64>,
}

/// What the governance endpoint shows.
#[derive(Debug)]
pub struct GovernanceSnapshot {
    pub profile: String,
    pub memory_budget_mb: u64,
    pub rate_budget_eps: u64,
    pub memory_pressure_active: bool,
    pub write_pressure_active: bool,
    pub rate_shedding_active: bool,
    pub memory_shrink_count: u64,
    pub memory_flush_count: u64,
    pub write_batch_expand_count: u64,
    pub rate_shed_count: u64,
}

/// The level of memory pressure of one sample.
#[derive(Debug, Clone, Copy, PartialEq, Eq)]
pub enum MemoryPressure {
    Clear,
    Soft,
    Hard,
}

/// The outcome of one memory sample.
#[derive(Debug, Clone, Copy, PartialEq, Eq)]
pub struct MemoryTick {
    pub level: MemoryPressure,
    /// The pressure flag changed with this sample.
    pub flag_changed: bool,
    /// RSS in percent of the budget.
    pub rss_pct: u64,
    /// The cache shrink target owed to the registered callback when this
    /// sample turned pressure on: 50 under soft pressure, 25 under hard.
    pub shrink_pct: Option<usize>,
}

/// The outcome of one rate sample.
#[derive(Debug, Clone, Copy, PartialEq, Eq)]
pub struct RateTick {
    /// Events since the previous sample.
    pub delta: u64,
    /// Events per second over the window.
    pub eps: u64,
    /// Events above the window's budget.
    pub excess: u64,
    /// The shedding flag changed with this sample.
    pub flag_changed: bool,
}

/// The outcome of one write-queue sample.
#[derive(Debug, Clone, Copy, PartialEq, Eq)]
pub struct WriteTick {
    /// The batch was expanded with this sample.
    pub expanded: bool,
    /// The pressure flag changed with this sample.
    pub flag_changed: bool,
}

/// The soft threshold: 80% of the budget.
pub open spec fn soft_threshold(budget: u64) -> int {
    budget * 80 / 100
}

/// The hard threshold: 95% of the budget.
pub open spec fn hard_threshold(budget: u64) -> int {
    budget * 95 / 100
}

/// The pressure level of `rss` under `budget`.
pub open spec fn pressure_of(rss: u64, budget: u64) -> MemoryPressure {
    if rss >= hard_threshold(budget) {
        MemoryPressure::Hard
    } else if rss >= soft_threshold(budget) {
        MemoryPressure::Soft
    } else {
        MemoryPressure::Clear
    }
}

/// Events a window may hold before shedding starts.
pub open spec fn window_budget(eps_budget: u64) -> int {
    eps_budget * RATE_WINDOW_SECS
}

/// The arithmetic of the governor fits in `u64` for these defaults.
pub open spec fn defaults_in_range(d: ProfileDefaults) -> bool {
    &&& d.memory_budget_bytes * 95 <= u64::MAX
    &&& d.rate_budget_events_per_sec * RATE_WINDOW_SECS <= u64::MAX
}

impl GovernorHandle {
    /// A handle with no pressure, no counts, no events.
    pub fn new(profile: ResourceProfile, defaults: ProfileDefaults) -> (r: GovernorHandle)
        ensures
            r.profile == profile,
            r.defaults == defaults,
            r.memory_shrink_count == 0,
            r.memory_flush_count == 0,
            r.write_batch_expand_count == 0,
            r.rate_shed_count == 0,
            !r.memory_pressure_active,
            !r.write_pressure_active,
            !r.rate_shedding_active,
            r.inbound_event_counter == 0,
            r.last_event_counter == 0,
            r.write_pressure_since_ns is None,
    {
        GovernorHandle {
            profile,
            defaults,
            memory_shrink_count: 0,
            memory_flush_count: 0,
            write_batch_expand_count: 0,
            rate_shed_count: 0,
            memory_pressure_active: false,
            write_pressure_active: false,
            rate_shedding_active: false,
            inbound_event_counter: 0,
            last_event_counter: 0,
            write_pressure_since_ns: None,
        }
    }

    /// Records one inbound event for rate measurement.
    pub fn record_event(&mut self)
        ensures
            final(self).inbound_event_counter == old(self).inbound_event_counter.wrapping_add(1),
            final(self).last_event_counter == old(self).last_event_counter,
            final(self).rate_shedding_active == old(self).rate_shedding_active,
            final(self).rate_shed_count == old(self).rate_shed_count,
            final(self).memory_pressure_active == old(self).memory_pressure_active,
            final(self).write_pressure_active == old(self).write_pressure_active,
    {
        self.inbound_event_counter = self.inbound_event_counter.wrapping_add(1);
    }

    /// Whether the rate governor is shedding.
    pub fn is_shedding(&self) -> (r: bool)
        ensures
            r == self.rate_shedding_active,
    {
        self.rate_shedding_active
    }

    /// Whether memory pressure is active.
    pub fn memory_pressure_active(&self) -> (r: bool)
        ensures
            r == self.memory_pressure_active,
    {
        self.memory_pressure_active
    }

    /// Whether ingest should drop low-priority publishes: rate shedding or
    /// memory pressure.
    pub fn should_shed(&self) -> (r: bool)
        ensures
            r == (self.rate_shedding_active || self.memory_pressure_active),
    {
        self.rate_shedding_active || self.memory_pressure_active
    }

    /// Whether write queue pressure is active.
    pub fn write_pressure_active(&self) -> (r: bool)
        ensures
            r == self.write_pressure_active,
    {
        self.write_pressure_active
    }

    /// The state as the governance endpoint shows it.
    pub fn snapshot(&self) -> (r: GovernanceSnapshot)
        ensures
            r.profile@ == profile_name(self.profile),
            r.memory_budget_mb == self.defaults.memory_budget_bytes / MIB,
            r.rate_budget_eps == self.defaults.rate_budget_events_per_sec,
            r.memory_pressure_active == self.memory_pressure_active,
            r.write_pressure_active == self.write_pressure_active,
            r.rate_shedding_active == self.rate_shedding_active,
            r.memory_shrink_count == self.memory_shrink_count,
            r.memory_flush_count == self.memory_flush_count,
            r.write_batch_expand_count == self.write_batch_expand_count,
            r.rate_shed_count == self.rate_shed_count,
    {
        GovernanceSnapshot {
            profile: owned(self.profile.as_str()),
            memory_budget_mb: self.defaults.memory_budget_bytes / MIB,
            rate_budget_eps: self.defaults.rate_budget_events_per_sec,
            memory_pressure_active: self.memory_pressure_active,
            write_pressure_active: self.write_pressure_active,
            rate_shedding_active: self.rate_shedding_active,
            memory_shrink_count: self.memory_shrink_count,
            memory_flush_count: self.memory_flush_count,
            write_batch_expand_count: self.write_batch_expand_count,
            rate_shed_count: self.rate_shed_count,
        }
    }

    /// One memory sample of `rss` bytes. Soft pressure counts a shrink; hard
    /// pressure counts a shrink and a flush; below the soft threshold the
    /// pressure flag clears. The registered callback is owed a shrink target
    /// only when pressure becomes active: 50 under soft, 25 under hard.
    pub fn memory_tick(&mut self, rss: u64) -> (r: MemoryTick)
        requires
            defaults_in_range(old(self).defaults),
            rss * 100 <= u64::MAX,
        ensures
            r.level == pressure_of(rss, old(self).defaults.memory_budget_bytes),
            r.rss_pct == rss * 100 / (if old(self).defaults.memory_budget_bytes > 0 {
                old(self).defaults.memory_budget_bytes as int
            } else {
                1int
            }),
            final(self).memory_pressure_active == (r.level != MemoryPressure::Clear),
            r.flag_changed == (final(self).memory_pressure_active != old(self).memory_pressure_active),
            r.shrink_pct == if !old(self).memory_pressure_active {
                match r.level {
                    MemoryPressure::Clear => None,
                    MemoryPressure::Soft => Some(50usize),
                    MemoryPressure::Hard => Some(25usize),
                }
            } else {
                None::<usize>
            },
            final(self).memory_shrink_count == if r.level == MemoryPressure::Clear {
                old(self).memory_shrink_count
            } else {
                old(self).memory_shrink_count.wrapping_add(1)
            },
            final(self).memory_flush_count == if r.level == MemoryPressure::Hard {
                old(self).memory_flush_count.wrapping_add(1)
            } else {
                old(self).memory_flush_count
            },
            final(self).profile == old(self).profile,
            final(self).defaults == old(self).defaults,
            final(self).write_pressure_active == old(self).write_pressure_active,
            final(self).rate_shedding_active == old(self).rate_shedding_active,
            final(self).write_batch_expand_count == old(self).write_batch_expand_count,
            final(self).rate_shed_count == old(self).rate_shed_count,
            final(self).inbound_event_counter == old(self).inbound_event_counter,
            final(self).last_event_counter == old(self).last_event_counter,
            final(self).write_pressure_since_ns == old(self).write_pressure_since_ns,
    {
        let budget = self.defaults.memory_budget_bytes;
        let soft = budget * 80 / 100;
        let hard = budget * 95 / 100;
        let divisor = if budget > 1 {
            budget
        } else {
            1
        };
        let pct = rss * 100 / divisor;
        let was = self.memory_pressure_active;
        if rss >= hard {
            self.memory_pressure_active = true;
            self.memory_shrink_count = self.memory_shrink_count.wrapping_add(1);
            self.memory_flush_count = self.memory_flush_count.wrapping_add(1);
            MemoryTick {
                level: MemoryPressure::Hard,
                flag_changed: !was,
                rss_pct: pct,
                shrink_pct: if was { None } else { Some(25) },
            }
        } else if rss >= soft {
            self.memory_pressure_active = true;
            self.memory_shrink_count = self.memory_shrink_count.wrapping_add(1);
            MemoryTick {
                level: MemoryPressure::Soft,
                flag_changed: !was,
                rss_pct: pct,
                shrink_pct: if was { None } else { Some(50) },
            }
        } else {
            self.memory_pressure_active = false;
            MemoryTick { level: MemoryPressure::Clear, flag_changed: was, rss_pct: pct, shrink_pct: None }
        }
    }

    /// One write-queue sample of `queue_pct` at monotonic time `now_ns`.
    /// Pressure that has lasted the sustain time expands the batch and starts
    /// the timer again.
    pub fn write_tick(&mut self, queue_pct: u64, now_ns: u64) -> (r: WriteTick)
        ensures
            final(self).write_pressure_active == (queue_pct > WRITE_PRESSURE_PCT),
            r.flag_changed == (final(self).write_pressure_active != old(self).write_pressure_active),
            queue_pct <= WRITE_PRESSURE_PCT ==> !r.expanded && final(self).write_pressure_since_ns is None,
            queue_pct > WRITE_PRESSURE_PCT ==> {
                let since = match old(self).write_pressure_since_ns {
                    Some(t) => t,
                    None => now_ns,
                };
                &&& r.expanded == ((if now_ns >= since { now_ns - since } else { 0 }) >= WRITE_SUSTAIN_NS)
                &&& final(self).write_pressure_since_ns == Some(if r.expanded { now_ns } else { since })
            },
            final(self).write_batch_expand_count == if r.expanded {
                old(self).write_batch_expand_count.wrapping_add(1)
            } else {
                old(self).write_batch_expand_count
            },
            final(self).profile == old(self).profile,
            final(self).defaults == old(self).defaults,
            final(self).memory_pressure_active == old(self).memory_pressure_active,
            final(self).rate_shedding_active == old(self).rate_shedding_active,
            final(self).memory_shrink_count == old(self).memory_shrink_count,
            final(self).memory_flush_count == old(self).memory_flush_count,
            final(self).rate_shed_count == old(self).rate_shed_count,
            final(self).inbound_event_counter == old(self).inbound_event_counter,
            final(self).last_event_counter == old(self).last_event_counter,
    {
        let was = self.write_pressure_active;
        if queue_pct > WRITE_PRESSURE_PCT {
            let since = match self.write_pressure_since_ns {
                Some(t) => t,
                None => now_ns,
            };
            let mut expanded = false;
            if now_ns.saturating_sub(since) >= WRITE_SUSTAIN_NS {
                self.write_batch_expand_count = self.write_batch_expand_count.wrapping_add(1);
                self.write_pressure_since_ns = Some(now_ns);
                expanded = true;
            } else {
                self.write_pressure_since_ns = Some(since);
            }
            self.write_pressure_active = true;
            WriteTick { expanded, flag_changed: !was }
        } else {
            self.write_pressure_since_ns = None;
            self.write_pressure_active = false;
            WriteTick { expanded: false, flag_changed: was }
        }
    }

    /// One rate sample: the events since the previous sample against the
    /// window's budget. Over budget counts a shed and turns shedding on;
    /// within budget turns it off.
    pub fn rate_tick(&mut self) -> (r: RateTick)
        requires
            defaults_in_range(old(self).defaults),
        ensures
            r.delta == old(self).inbound_event_counter.wrapping_sub(old(self).last_event_counter),
            r.eps == r.delta / RATE_WINDOW_SECS,
            final(self).last_event_counter == old(self).inbound_event_counter,
            final(self).rate_shedding_active == (r.delta > window_budget(old(self).defaults.rate_budget_events_per_sec)),
            r.excess == if final(self).rate_shedding_active {
                r.delta - window_budget(old(self).defaults.rate_budget_events_per_sec)
            } else {
                0
            },
            r.flag_changed == (final(self).rate_shedding_active != old(self).rate_shedding_active),
            final(self).rate_shed_count == if final(self).rate_shedding_active {
                old(self).rate_shed_count.wrapping_add(1)
            } else {
                old(self).rate_shed_count
            },
            final(self).inbound_event_counter == old(self).inbound_event_counter,
            final(self).profile == old(self).profile,
            final(self).defaults == old(self).defaults,
            final(self).memory_pressure_active == old(self).memory_pressure_active,
            final(self).write_pressure_active == old(self).write_pressure_active,
            final(self).memory_shrink_count == old(self).memory_shrink_count,
            final(self).memory_flush_count == old(self).memory_flush_count,
            final(self).write_batch_expand_count == old(self).write_batch_expand_count,
            final(self).write_pressure_since_ns == old(self).write_pressure_since_ns,
    {
        let budget_per_window = self.defaults.rate_budget_events_per_sec * RATE_WINDOW_SECS;
        let current = self.inbound_event_counter;
        let delta = current.wrapping_sub(self.last_event_counter);
        self.last_event_counter = current;
        let eps = delta / RATE_WINDOW_SECS;
        let was = self.rate_shedding_active;
        if delta > budget_per_window {
            let excess = delta - budget_per_window;
            self.rate_shed_count = self.rate_shed_count.wrapping_add(1);
            self.rate_shedding_active = true;
            RateTick { delta, eps, excess, flag_changed: !was }
        } else {
            self.rate_shedding_active = false;
            RateTick { delta, eps, excess: 0, flag_changed: was }
        }
    }
}

/// More memory in use never lowers the pressure level.
pub proof fn lemma_pressure_monotone(a: u64, b: u64, budget: u64)
    requires
        a <= b,
    ensures
        pressure_rank(pressure_of(a, budget)) <= pressure_rank(pressure_of(b, budget)),
{
}

/// The position of a pressure level.
pub open spec fn pressure_rank(p: MemoryPressure) -> int {
    match p {
        MemoryPressure::Clear => 0,
        MemoryPressure::Soft => 1,
        MemoryPressure::Hard => 2,
    }
}

} // verus!
