//! Retention of state-change events: how many to delete so that at most a
//! given number of the most recent ones stay, and which ones: the oldest,
//! picked one by one so that equal timestamps never delete more than that.
//!
//! Reading and deleting the events in the graph belong to the caller.
use vstd::prelude::*;

verus! {

/// What a pruning pass deleted.
pub struct PruneStats {
    pub events_deleted: u64,
}

/// How many of `total` events to delete, oldest first, to keep at most
/// `max_count`; none when `max_count` is zero, which means no limit.
pub fn excess_events(total: u64, max_count: u64) -> (r: u64)
    ensures
        r == if max_count == 0 || total <= max_count { 0 } else { total - max_count },
{
    if max_count == 0 {
        0
    } else {
        total.saturating_sub(max_count)
    }
}

/// How many of `total` events go when at most `max_count` may stay.
pub open spec fn excess(total: int, max_count: u64) -> int {
    if max_count == 0 || total <= max_count { 0 } else { total - max_count }
}

/// `chosen` names distinct events of `events`, and none of them occurred
/// after an event that is not chosen.
pub open spec fn oldest_first(events: Seq<(String, i64)>, chosen: Seq<usize>) -> bool {
    &&& chosen.no_duplicates()
    &&& forall|k: int| 0 <= k < chosen.len() ==> (#[trigger] chosen[k]) < events.len()
    &&& forall|k: int, j: int|
        0 <= k < chosen.len() && 0 <= j < events.len() && !chosen.contains(j as usize) ==> events[
            #[trigger] chosen[k] as int
        ].1 <= (#[trigger] events[j]).1
}

/// The events to delete so that at most `max_count` of `events` (id and
/// occurrence time) stay: exactly the excess, by position, none of them
/// newer than an event that stays. Ties in time never make it delete more.
pub fn events_to_prune(events: &Vec<(String, i64)>, max_count: u64) -> (r: Vec<usize>)
    ensures
        r@.len() == excess(events@.len() as int, max_count),
        oldest_first(events@, r@),
{
    let n = events.len();
    let k: usize = if max_count == 0 || (n as u64) <= max_count {
        0
    } else {
        ((n as u64) - max_count) as usize
    };
    let mut chosen: Vec<usize> = Vec::new();
    let mut rest: Vec<usize> = Vec::new();
    let mut i: usize = 0;
    while i < n
        invariant
            n == events@.len(),
            i <= n,
            rest@.len() == i,
            forall|a: int| 0 <= a < i ==> #[trigger] rest@[a] == a,
        decreases n - i,
    {
        rest.push(i);
        i = i + 1;
    }
    assert forall|j: usize| j < n implies #[trigger] rest@.contains(j) by {
        assert(rest@[j as int] == j);
    }
    while chosen.len() < k
        invariant
            n == events@.len(),
            k <= n,
            k == excess(n as int, max_count),
            chosen@.len() <= k,
            chosen@.len() + rest@.len() == n,
            chosen@.no_duplicates(),
            rest@.no_duplicates(),
            forall|a: int| 0 <= a < chosen@.len() ==> (#[trigger] chosen@[a]) < n,
            forall|b: int| 0 <= b < rest@.len() ==> (#[trigger] rest@[b]) < n,
            forall|a: int, b: int| 0 <= a < chosen@.len() && 0 <= b < rest@.len() ==> #[trigger] chosen@[a] != #[trigger] rest@[b],
            forall|j: usize| #![trigger chosen@.contains(j)] #![trigger rest@.contains(j)] j < n ==> chosen@.contains(j) || rest@.contains(j),
            forall|a: int, b: int| 0 <= a < chosen@.len() && 0 <= b < rest@.len() ==>
                events@[#[trigger] chosen@[a] as int].1 <= events@[#[trigger] rest@[b] as int].1,
        decreases k - chosen@.len(),
    {
        let mut best: usize = 0;
        let mut p: usize = 1;
        while p < rest.len()
            invariant
                rest@.len() > 0,
                n == events@.len(),
                forall|b: int| 0 <= b < rest@.len() ==> (#[trigger] rest@[b]) < n,
                best < rest@.len(),
                1 <= p <= rest@.len(),
                forall|b: int| 0 <= b < p ==> events@[rest@[best as int] as int].1 <= events@[#[trigger] rest@[b] as int].1,
            decreases rest@.len() - p,
        {
            if events[rest[p]].1 < events[rest[best]].1 {
                best = p;
            }
            p = p + 1;
        }
        let ghost rest_before = rest@;
        let ghost chosen_before = chosen@;
        let x = rest.remove(best);
        chosen.push(x);
        proof {
            assert(rest@ == rest_before.remove(best as int));
            assert(chosen@ == chosen_before.push(x));
            assert forall|b: int| 0 <= b < rest@.len() implies #[trigger] rest@[b] == rest_before[if b < best { b } else { b + 1 }] by {}
            assert forall|a: int, b: int| 0 <= a < chosen@.len() && 0 <= b < rest@.len() implies #[trigger] chosen@[a] != #[trigger] rest@[b] by {
                let ob = if b < best { b } else { b + 1 };
                if a < chosen_before.len() {
                    assert(chosen@[a] == chosen_before[a]);
                } else {
                    assert(rest_before[best as int] != rest_before[ob]);
                }
            }
            assert forall|a: int, b: int| 0 <= a < chosen@.len() && 0 <= b < rest@.len() implies
                events@[#[trigger] chosen@[a] as int].1 <= events@[#[trigger] rest@[b] as int].1 by {
                let ob = if b < best { b } else { b + 1 };
                if a < chosen_before.len() {
                    assert(chosen@[a] == chosen_before[a]);
                } else {
                    assert(events@[rest_before[best as int] as int].1 <= events@[rest_before[ob] as int].1);
                }
            }
            assert forall|j: usize| #![trigger chosen@.contains(j)] #![trigger rest@.contains(j)] j < n implies chosen@.contains(j) || rest@.contains(j) by {
                if chosen_before.contains(j) {
                    let a = choose|a: int| 0 <= a < chosen_before.len() && chosen_before[a] == j;
                    assert(chosen@[a] == j);
                } else {
                    assert(rest_before.contains(j));
                    let b = choose|b: int| 0 <= b < rest_before.len() && rest_before[b] == j;
                    if b == best {
                        assert(chosen@[chosen_before.len() as int] == j);
                    } else if b < best {
                        assert(rest@[b] == j);
                    } else {
                        assert(rest@[b - 1] == j);
                    }
                }
            }
            assert(chosen@.no_duplicates()) by {
                assert forall|a: int, c: int| 0 <= a < c < chosen@.len() implies chosen@[a] != chosen@[c] by {
                    if c < chosen_before.len() {
                        assert(chosen@[a] == chosen_before[a] && chosen@[c] == chosen_before[c]);
                    } else {
                        assert(chosen@[a] == chosen_before[a]);
                        assert(chosen_before[a] != rest_before[best as int]);
                    }
                }
            }
            assert(rest@.no_duplicates()) by {
                assert forall|a: int, c: int| 0 <= a < c < rest@.len() implies rest@[a] != rest@[c] by {
                    let oa = if a < best { a } else { a + 1 };
                    let oc = if c < best { c } else { c + 1 };
                    assert(rest_before[oa] != rest_before[oc]);
                }
            }
        }
    }
    proof {
        assert forall|a: int, j: int|
            0 <= a < chosen@.len() && 0 <= j < events@.len() && !chosen@.contains(j as usize) implies events@[
                #[trigger] chosen@[a] as int
            ].1 <= (#[trigger] events@[j]).1 by {
            let ju = j as usize;
            assert(rest@.contains(ju));
            let b = choose|b: int| 0 <= b < rest@.len() && rest@[b] == ju;
            assert(events@[chosen@[a] as int].1 <= events@[rest@[b] as int].1);
        }
    }
    chosen
}

} // verus!
