//! The status table of the protocol receivers (syslog, SNMP, BMP, BGP-LS,
//! OTLP, NetFlow): one named entry per receiver with its state and counters.
//!
//! Spawning and stopping the receiver tasks belongs to the caller, which keeps
//! their handles by the same names.
use vstd::prelude::*;

use crate::order::{compare_str, lemma_lt_trans, lemma_lt_trichotomy, seq_lt};
use crate::text::{contains, owned, str_contains, str_eq};

verus! {

/// The state of one receiver.
#[derive(Debug, Clone, Copy, PartialEq, Eq)]
pub enum ReceiverState {
    Listening,
    Stopped,
    Error,
    PortConflict,
    Disabled,
}

/// The status of one receiver.
pub struct ReceiverStatusSnapshot {
    pub name: String,
    pub state: ReceiverState,
    pub addr: String,
    pub packet_count: u64,
    pub error_count: u64,
    pub last_packet_at_ns: Option<i64>,
    pub last_error: Option<String>,
}

impl ReceiverStatusSnapshot {
    /// An exact copy.
    pub fn copy(&self) -> (r: ReceiverStatusSnapshot)
        ensures
            r == *self,
    {
        ReceiverStatusSnapshot {
            name: self.name.clone(),
            state: self.state,
            addr: self.addr.clone(),
            packet_count: self.packet_count,
            error_count: self.error_count,
            last_packet_at_ns: self.last_packet_at_ns,
            last_error: match &self.last_error {
                Some(e) => Some(e.clone()),
                None => None,
            },
        }
    }
}

/// Whether a bind error message reports a port that is already in use.
pub open spec fn port_conflict_message(msg: Seq<char>) -> bool {
    contains(msg, "in use"@) || contains(msg, "AddrInUse"@) || contains(msg, "address already in use"@)
}

pub fn is_port_conflict(msg: &str) -> (r: bool)
    ensures
        r == port_conflict_message(msg@),
{
    str_contains(msg, "in use") || str_contains(msg, "AddrInUse") || str_contains(msg, "address already in use")
}

/// The entry named `name`.
pub open spec fn entry_named(t: Seq<ReceiverStatusSnapshot>, name: Seq<char>) -> Option<ReceiverStatusSnapshot>
    decreases t.len(),
{
    if t.len() == 0 {
        None
    } else if t.last().name@ == name {
        Some(t.last())
    } else {
        entry_named(t.drop_last(), name)
    }
}

/// No two entries share a name.
pub open spec fn names_unique(t: Seq<ReceiverStatusSnapshot>) -> bool {
    forall|i: int, j: int| 0 <= i < j < t.len() ==> (#[trigger] t[i]).name@ != (#[trigger] t[j]).name@
}

/// A fresh status for a receiver at `addr` in `state`.
pub open spec fn fresh_status(s: ReceiverStatusSnapshot, name: Seq<char>, addr: Seq<char>, state: ReceiverState) -> bool {
    &&& s.name@ == name
    &&& s.state == state
    &&& s.addr@ == addr
    &&& s.packet_count == 0
    &&& s.error_count == 0
    &&& s.last_packet_at_ns is None
    &&& s.last_error is None
}

/// The status table of the receivers.
pub struct ReceiverSupervisor {
    pub entries: Vec<ReceiverStatusSnapshot>,
}

proof fn lemma_named_at(t: Seq<ReceiverStatusSnapshot>, i: int)
    requires
        names_unique(t),
        0 <= i < t.len(),
    ensures
        entry_named(t, t[i].name@) == Some(t[i]),
    decreases t.len(),
{
    if i < t.len() - 1 {
        assert(t.last().name@ != t[i].name@) by {
            assert(t[i] == t[i]);
            assert(t[t.len() - 1] == t.last());
        }
        let pre = t.drop_last();
        assert(names_unique(pre)) by {
            assert forall|a: int, b: int| 0 <= a < b < pre.len() implies (#[trigger] pre[a]).name@ != (#[trigger] pre[b]).name@ by {
                assert(pre[a] == t[a] && pre[b] == t[b]);
            }
        }
        assert(pre[i] == t[i]);
        lemma_named_at(pre, i);
    }
}

proof fn lemma_named_absent(t: Seq<ReceiverStatusSnapshot>, name: Seq<char>)
    requires
        forall|i: int| 0 <= i < t.len() ==> (#[trigger] t[i]).name@ != name,
    ensures
        entry_named(t, name) is None,
    decreases t.len(),
{
    if t.len() > 0 {
        assert(t[t.len() - 1] == t.last());
        let pre = t.drop_last();
        assert forall|i: int| 0 <= i < pre.len() implies (#[trigger] pre[i]).name@ != name by {
            assert(pre[i] == t[i]);
        }
        lemma_named_absent(pre, name);
    }
}

impl ReceiverSupervisor {
    pub open spec fn wf(&self) -> bool {
        names_unique(self.entries@)
    }

    /// The status of receiver `name`.
    pub open spec fn named(&self, name: Seq<char>) -> Option<ReceiverStatusSnapshot> {
        entry_named(self.entries@, name)
    }

    pub fn new() -> (r: ReceiverSupervisor)
        ensures
            r.wf(),
            r.entries@.len() == 0,
    {
        ReceiverSupervisor { entries: Vec::new() }
    }

    fn find(&self, name: &str) -> (r: Option<usize>)
        requires
            self.wf(),
        ensures
            match r {
                Some(i) => i < self.entries@.len() && self.entries@[i as int].name@ == name@
                    && self.named(name@) == Some(self.entries@[i as int]),
                None => self.named(name@) is None,
            },
    {
        let mut i: usize = 0;
        while i < self.entries.len()
            invariant
                self.wf(),
                i <= self.entries@.len(),
                forall|j: int| 0 <= j < i ==> (#[trigger] self.entries@[j]).name@ != name@,
            decreases self.entries@.len() - i,
        {
            if str_eq(self.entries[i].name.as_str(), name) {
                proof {
                    lemma_named_at(self.entries@, i as int);
                }
                return Some(i);
            }
            i = i + 1;
        }
        proof {
            lemma_named_absent(self.entries@, name@);
        }
        None
    }

    /// Puts `s` in the table under its name, replacing the entry of that name.
    fn put(&mut self, s: ReceiverStatusSnapshot)
        requires
            old(self).wf(),
        ensures
            final(self).wf(),
            final(self).named(s.name@) == Some(s),
            forall|k: Seq<char>| k != s.name@ ==> #[trigger] final(self).named(k) == old(self).named(k),
    {
        let ghost before = self.entries@;
        let ghost key = s.name@;
        match self.find(s.name.as_str()) {
            Some(i) => {
                self.entries.set(i, s);
                proof {
                    let after = self.entries@;
                    assert forall|a: int, b: int| 0 <= a < b < after.len() implies (#[trigger] after[a]).name@ != (#[trigger] after[b]).name@ by {
                        assert(before[a].name@ != before[b].name@);
                        if a == i {
                            assert(after[b] == before[b]);
                        } else if b == i {
                            assert(after[a] == before[a]);
                        } else {
                            assert(after[a] == before[a] && after[b] == before[b]);
                        }
                    }
                    lemma_named_at(after, i as int);
                    assert forall|k: Seq<char>| k != key implies #[trigger] entry_named(after, k) == entry_named(before, k) by {
                        if exists|j: int| 0 <= j < before.len() && before[j].name@ == k {
                            let j = choose|j: int| 0 <= j < before.len() && before[j].name@ == k;
                            lemma_named_at(before, j);
                            assert(after[j] == before[j]);
                            lemma_named_at(after, j);
                        } else {
                            lemma_named_absent(before, k);
                            assert forall|j: int| 0 <= j < after.len() implies (#[trigger] after[j]).name@ != k by {
                                if j != i {
                                    assert(after[j] == before[j]);
                                }
                            }
                            lemma_named_absent(after, k);
                        }
                    }
                }
            },
            None => {
                self.entries.push(s);
                proof {
                    let after = self.entries@;
                    assert(after.drop_last() =~= before);
                    assert forall|a: int, b: int| 0 <= a < b < after.len() implies (#[trigger] after[a]).name@ != (#[trigger] after[b]).name@ by {
                        assert(after[a] == before[a]);
                        if b < before.len() {
                            assert(after[b] == before[b]);
                        } else if before[a].name@ == key {
                            lemma_named_at(before, a);
                        }
                    }
                }
            },
        }
    }

    /// Records a receiver that was started on `addr`: listening, no counts.
    pub fn register_listening(&mut self, name: &str, addr: String)
        requires
            old(self).wf(),
        ensures
            final(self).wf(),
            final(self).named(name@) matches Some(s) && fresh_status(s, name@, addr@, ReceiverState::Listening),
            forall|k: Seq<char>| k != name@ ==> #[trigger] final(self).named(k) == old(self).named(k),
    {
        self.put(ReceiverStatusSnapshot {
            name: owned(name),
            state: ReceiverState::Listening,
            addr,
            packet_count: 0,
            error_count: 0,
            last_packet_at_ns: None,
            last_error: None,
        });
    }

    /// Records a receiver that is configured off.
    pub fn register_disabled(&mut self, name: &str, addr: String)
        requires
            old(self).wf(),
        ensures
            final(self).wf(),
            final(self).named(name@) matches Some(s) && fresh_status(s, name@, addr@, ReceiverState::Disabled),
            forall|k: Seq<char>| k != name@ ==> #[trigger] final(self).named(k) == old(self).named(k),
    {
        self.put(ReceiverStatusSnapshot {
            name: owned(name),
            state: ReceiverState::Disabled,
            addr,
            packet_count: 0,
            error_count: 0,
            last_packet_at_ns: None,
            last_error: None,
        });
    }

    /// Records that receiver `name` was stopped; unknown names change nothing.
    pub fn mark_stopped(&mut self, name: &str)
        requires
            old(self).wf(),
        ensures
            final(self).wf(),
            final(self).named(name@) == match old(self).named(name@) {
                Some(s) => Some(ReceiverStatusSnapshot { state: ReceiverState::Stopped, ..s }),
                None => None,
            },
            forall|k: Seq<char>| k != name@ ==> #[trigger] final(self).named(k) == old(self).named(k),
    {
        match self.find(name) {
            Some(i) => {
                let mut s = self.entries[i].copy();
                s.state = ReceiverState::Stopped;
                self.put(s);
            },
            None => {},
        }
    }

    /// Records a bind failure: port conflict with the error text.
    pub fn mark_port_conflict(&mut self, name: &str, error: String)
        requires
            old(self).wf(),
        ensures
            final(self).wf(),
            final(self).named(name@) == match old(self).named(name@) {
                Some(s) => Some(ReceiverStatusSnapshot { state: ReceiverState::PortConflict, last_error: Some(error), ..s }),
                None => None,
            },
            forall|k: Seq<char>| k != name@ ==> #[trigger] final(self).named(k) == old(self).named(k),
    {
        match self.find(name) {
            Some(i) => {
                let mut s = self.entries[i].copy();
                s.state = ReceiverState::PortConflict;
                s.last_error = Some(error);
                self.put(s);
            },
            None => {},
        }
    }

    /// Records a receiver error with its text.
    pub fn mark_error(&mut self, name: &str, error: String)
        requires
            old(self).wf(),
        ensures
            final(self).wf(),
            final(self).named(name@) == match old(self).named(name@) {
                Some(s) => Some(ReceiverStatusSnapshot { state: ReceiverState::Error, last_error: Some(error), ..s }),
                None => None,
            },
            forall|k: Seq<char>| k != name@ ==> #[trigger] final(self).named(k) == old(self).named(k),
    {
        match self.find(name) {
            Some(i) => {
                let mut s = self.entries[i].copy();
                s.state = ReceiverState::Error;
                s.last_error = Some(error);
                self.put(s);
            },
            None => {},
        }
    }

    /// Counts a packet received at `now_ns`.
    pub fn record_packet(&mut self, name: &str, now_ns: i64)
        requires
            old(self).wf(),
            old(self).named(name@) matches Some(s) ==> s.packet_count < u64::MAX,
        ensures
            final(self).wf(),
            final(self).named(name@) == match old(self).named(name@) {
                Some(s) => Some(ReceiverStatusSnapshot {
                    packet_count: (s.packet_count + 1) as u64,
                    last_packet_at_ns: Some(now_ns),
                    ..s
                }),
                None => None,
            },
            forall|k: Seq<char>| k != name@ ==> #[trigger] final(self).named(k) == old(self).named(k),
    {
        match self.find(name) {
            Some(i) => {
                let mut s = self.entries[i].copy();
                s.packet_count = s.packet_count + 1;
                s.last_packet_at_ns = Some(now_ns);
                self.put(s);
            },
            None => {},
        }
    }

    /// The status of receiver `name`.
    pub fn status(&self, name: &str) -> (r: Option<&ReceiverStatusSnapshot>)
        requires
            self.wf(),
        ensures
            match r {
                Some(s) => self.named(name@) == Some(*s),
                None => self.named(name@) is None,
            },
    {
        match self.find(name) {
            Some(i) => Some(&self.entries[i]),
            None => None,
        }
    }

    /// Every status, ordered by name.
    pub fn status_snapshot(&self) -> (r: Vec<ReceiverStatusSnapshot>)
        requires
            self.wf(),
        ensures
            r@.len() == self.entries@.len(),
            forall|i: int| 0 <= i < r@.len() ==> self.entries@.contains(#[trigger] r@[i]),
            forall|j: int| 0 <= j < self.entries@.len() ==> r@.contains(#[trigger] self.entries@[j]),
            forall|a: int, b: int| 0 <= a < b < r@.len() ==> seq_lt((#[trigger] r@[a]).name@, (#[trigger] r@[b]).name@),
    {
        let ghost all = self.entries@;
        let mut out: Vec<ReceiverStatusSnapshot> = Vec::new();
        let mut i: usize = 0;
        while i < self.entries.len()
            invariant
                all == self.entries@,
                names_unique(all),
                i <= all.len(),
                out@.len() == i,
                forall|k: int| 0 <= k < out@.len() ==> all.subrange(0, i as int).contains(#[trigger] out@[k]),
                forall|j: int| 0 <= j < i ==> out@.contains(#[trigger] all[j]),
                forall|a: int, b: int| 0 <= a < b < out@.len() ==> seq_lt((#[trigger] out@[a]).name@, (#[trigger] out@[b]).name@),
            decreases all.len() - i,
        {
            let e = &self.entries[i];
            let mut p: usize = 0;
            while p < out.len() && compare_str(out[p].name.as_str(), e.name.as_str()) < 0
                invariant
                    p <= out@.len(),
                    forall|k: int| 0 <= k < p ==> seq_lt((#[trigger] out@[k]).name@, e.name@),
                decreases out@.len() - p,
            {
                p = p + 1;
            }
            proof {
                if p < out@.len() {
                    assert(all.subrange(0, i as int).contains(out@[p as int]));
                    let j = choose|j: int| 0 <= j < i && all.subrange(0, i as int)[j] == out@[p as int];
                    assert(all[j] == out@[p as int]);
                    assert(all[j].name@ != all[i as int].name@);
                    lemma_lt_trichotomy(out@[p as int].name@, e.name@);
                }
            }
            let ghost before = out@;
            let c = e.copy();
            out.insert(p, c);
            proof {
                let o = out@;
                assert(o =~= before.insert(p as int, c));
                assert forall|x: int, y: int| 0 <= x < y < o.len() implies seq_lt((#[trigger] o[x]).name@, (#[trigger] o[y]).name@) by {
                    if y < p {
                        assert(o[x] == before[x] && o[y] == before[y]);
                    } else if x < p && y == p {
                        assert(o[x] == before[x]);
                    } else if x < p {
                        assert(o[x] == before[x] && o[y] == before[y - 1]);
                        lemma_lt_trans(before[x].name@, c.name@, before[p as int].name@);
                        if y - 1 > p {
                            lemma_lt_trans(before[x].name@, before[p as int].name@, before[y - 1].name@);
                        }
                    } else if x == p {
                        assert(o[y] == before[y - 1]);
                        if y - 1 > p {
                            lemma_lt_trans(c.name@, before[p as int].name@, before[y - 1].name@);
                        }
                    } else {
                        assert(o[x] == before[x - 1] && o[y] == before[y - 1]);
                    }
                }
                assert forall|k: int| 0 <= k < o.len() implies all.subrange(0, i + 1).contains(#[trigger] o[k]) by {
                    if k < p {
                        assert(o[k] == before[k]);
                        assert(all.subrange(0, i as int).contains(before[k]));
                        let j = choose|j: int| 0 <= j < i && all.subrange(0, i as int)[j] == before[k];
                        assert(all.subrange(0, i + 1)[j] == before[k]);
                    } else if k > p {
                        assert(o[k] == before[k - 1]);
                        assert(all.subrange(0, i as int).contains(before[k - 1]));
                        let j = choose|j: int| 0 <= j < i && all.subrange(0, i as int)[j] == before[k - 1];
                        assert(all.subrange(0, i + 1)[j] == before[k - 1]);
                    } else {
                        assert(all.subrange(0, i + 1)[i as int] == o[k]);
                    }
                }
                assert forall|j: int| 0 <= j < i + 1 implies o.contains(#[trigger] all[j]) by {
                    if j == i {
                        assert(o[p as int] == all[j]);
                    } else {
                        assert(before.contains(all[j]));
                        let k = choose|k: int| 0 <= k < before.len() && before[k] == all[j];
                        if k < p {
                            assert(o[k] == before[k]);
                        } else {
                            assert(o[k + 1] == before[k]);
                        }
                    }
                }
            }
            i = i + 1;
        }
        proof {
            assert(all.subrange(0, all.len() as int) =~= all);
        }
        out
    }
}

impl Default for ReceiverSupervisor {
    fn default() -> (r: ReceiverSupervisor)
        ensures
            r.wf(),
            r.entries@.len() == 0,
    {
        ReceiverSupervisor::new()
    }
}

} // verus!
