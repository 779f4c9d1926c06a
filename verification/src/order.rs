//! The order of `str` (lexicographic by code point), and sorting helpers.
use vstd::prelude::*;

verus! {

/// `a < b` in the order of `str`: lexicographic by character code point,
/// which is the byte order of the UTF-8 encodings.
pub open spec fn seq_lt(a: Seq<char>, b: Seq<char>) -> bool
    decreases a.len(),
{
    if a.len() == 0 {
        b.len() > 0
    } else if b.len() == 0 {
        false
    } else if a[0] != b[0] {
        a[0] < b[0]
    } else {
        seq_lt(a.drop_first(), b.drop_first())
    }
}

pub proof fn lemma_lt_irrefl(a: Seq<char>)
    ensures
        !seq_lt(a, a),
    decreases a.len(),
{
    if a.len() > 0 {
        lemma_lt_irrefl(a.drop_first());
    }
}

pub proof fn lemma_lt_trichotomy(a: Seq<char>, b: Seq<char>)
    ensures
        seq_lt(a, b) || seq_lt(b, a) || a == b,
        !(seq_lt(a, b) && seq_lt(b, a)),
    decreases a.len(),
{
    if a.len() == 0 {
        if b.len() == 0 {
            assert(a =~= b);
        }
    } else if b.len() == 0 {
    } else if a[0] != b[0] {
    } else {
        lemma_lt_trichotomy(a.drop_first(), b.drop_first());
        if a.drop_first() == b.drop_first() {
            assert(a =~= seq![a[0]] + a.drop_first());
            assert(b =~= seq![b[0]] + b.drop_first());
        }
    }
}

pub proof fn lemma_lt_trans(a: Seq<char>, b: Seq<char>, c: Seq<char>)
    requires
        seq_lt(a, b),
        seq_lt(b, c),
    ensures
        seq_lt(a, c),
    decreases a.len(),
{
    if a.len() > 0 && b.len() > 0 && c.len() > 0 && a[0] == b[0] && b[0] == c[0] {
        lemma_lt_trans(a.drop_first(), b.drop_first(), c.drop_first());
    }
}

/// `a <= b` in the order of `str`.
pub open spec fn seq_le(a: Seq<char>, b: Seq<char>) -> bool {
    seq_lt(a, b) || a == b
}

/// Compares two strings in the order of `str`: `-1`, `0` or `1`.
pub fn compare_chars(a: &[char], b: &[char]) -> (r: i8)
    ensures
        r == -1 <==> seq_lt(a@, b@),
        r == 0 <==> a@ == b@,
        r == 1 <==> seq_lt(b@, a@),
        -1 <= r <= 1,
{
    let mut i: usize = 0;
    while i < a.len() && i < b.len()
        invariant
            i <= a@.len(),
            i <= b@.len(),
            a@.subrange(0, i as int) == b@.subrange(0, i as int),
        decreases a@.len() - i,
    {
        if a[i] != b[i] {
            proof {
                lemma_lt_common_prefix(a@, b@, i as int);
                lemma_lt_common_prefix(b@, a@, i as int);
                assert(a@ != b@ ) by {
                    assert(a@[i as int] != b@[i as int]);
                }
            }
            if a[i] < b[i] {
                return -1;
            } else {
                return 1;
            }
        }
        proof {
            assert(a@.subrange(0, i + 1) =~= a@.subrange(0, i as int).push(a@[i as int]));
            assert(b@.subrange(0, i + 1) =~= b@.subrange(0, i as int).push(b@[i as int]));
        }
        i = i + 1;
    }
    proof {
        lemma_lt_common_prefix(a@, b@, i as int);
        lemma_lt_common_prefix(b@, a@, i as int);
        if a@.len() == b@.len() {
            assert(a@ =~= a@.subrange(0, i as int));
            assert(b@ =~= b@.subrange(0, i as int));
        }
    }
    if a.len() == b.len() {
        0
    } else if a.len() < b.len() {
        -1
    } else {
        1
    }
}

/// With a common prefix of length `i`, the order is decided at position `i`.
proof fn lemma_lt_common_prefix(a: Seq<char>, b: Seq<char>, i: int)
    requires
        0 <= i <= a.len(),
        i <= b.len(),
        a.subrange(0, i) == b.subrange(0, i),
    ensures
        seq_lt(a, b) == (if i == a.len() {
            b.len() > i
        } else if i == b.len() {
            false
        } else if a[i] != b[i] {
            a[i] < b[i]
        } else {
            seq_lt(a.skip(i), b.skip(i))
        }),
    decreases i,
{
    if i > 0 {
        assert(a[0] == a.subrange(0, i)[0]);
        assert(b[0] == b.subrange(0, i)[0]);
        assert(a.drop_first().subrange(0, i - 1) =~= a.subrange(0, i).drop_first());
        assert(b.drop_first().subrange(0, i - 1) =~= b.subrange(0, i).drop_first());
        lemma_lt_common_prefix(a.drop_first(), b.drop_first(), i - 1);
        assert(a.drop_first().skip(i - 1) =~= a.skip(i));
        assert(b.drop_first().skip(i - 1) =~= b.skip(i));
        if i < a.len() {
            assert(a.drop_first()[i - 1] == a[i]);
        }
        if i < b.len() {
            assert(b.drop_first()[i - 1] == b[i]);
        }
    } else {
        assert(a.skip(0) =~= a);
        assert(b.skip(0) =~= b);
    }
}

/// The views are strictly increasing.
pub open spec fn strictly_sorted(s: Seq<Seq<char>>) -> bool {
    forall|i: int, j: int| 0 <= i < j < s.len() ==> seq_lt(s[i], s[j])
}

/// The views are non-decreasing.
pub open spec fn sorted(s: Seq<Seq<char>>) -> bool {
    forall|i: int, j: int| 0 <= i < j < s.len() ==> seq_le(s[i], s[j])
}

pub fn compare_str(a: &str, b: &str) -> (r: i8)
    ensures
        r == -1 <==> seq_lt(a@, b@),
        r == 0 <==> a@ == b@,
        r == 1 <==> seq_lt(b@, a@),
        -1 <= r <= 1,
{
    let va = crate::text::chars_of(a);
    let vb = crate::text::chars_of(b);
    compare_chars(va.as_slice(), vb.as_slice())
}

/// The views of a list of strings.
pub open spec fn string_views(v: Seq<String>) -> Seq<Seq<char>> {
    v.map_values(|s: String| s@)
}

/// Sorted, duplicate-free copy of a list of strings (the behaviour of
/// collecting into a set and sorting).
pub fn sorted_unique_strings(values: Vec<String>) -> (r: Vec<String>)
    ensures
        strictly_sorted(string_views(r@)),
        string_views(r@).to_set() == string_views(values@).to_set(),
{
    let mut out: Vec<String> = Vec::new();
    let mut i: usize = 0;
    while i < values.len()
        invariant
            i <= values@.len(),
            strictly_sorted(string_views(out@)),
            string_views(out@).to_set() == string_views(values@.subrange(0, i as int)).to_set(),
        decreases values@.len() - i,
    {
        let v = values[i].clone();
        let ghost before = string_views(out@);
        let ghost vv = v@;
        // Find the insertion position.
        let mut p: usize = 0;
        let mut found = false;
        let mut stop = false;
        while !stop && p < out.len()
            invariant
                p <= out@.len(),
                string_views(out@) == before,
                strictly_sorted(before),
                forall|k: int| 0 <= k < p ==> seq_lt(#[trigger] before[k], vv),
                vv == v@,
                found ==> stop,
                found ==> p < before.len() && before[p as int] == vv,
                stop && !found ==> p < before.len() && seq_lt(vv, before[p as int]),
            decreases out@.len() - p + (if stop { 0int } else { 1int }),
        {
            let c = compare_str(out[p].as_str(), v.as_str());
            if c == 0 {
                found = true;
                stop = true;
            } else if c == 1 {
                stop = true;
            } else {
                p = p + 1;
            }
        }
        proof {
            assert(string_views(values@.subrange(0, i + 1)) =~= string_views(values@.subrange(0, i as int)).push(vv));
        }
        if !found {
            proof {
                if p < out@.len() {
                    assert(seq_lt(vv, before[p as int]));
                }
            }
            out.insert(p, v);
            proof {
                let after = string_views(out@);
                assert(after =~= before.insert(p as int, vv));
                assert forall|a: int, b: int| 0 <= a < b < after.len() implies seq_lt(after[a], after[b]) by {
                    if b < p {
                    } else if a < p && b == p {
                    } else if a < p && b > p {
                        assert(after[b] == before[b - 1]);
                        if p < before.len() {
                            lemma_lt_trans(after[a], vv, before[p as int]);
                            if b - 1 > p {
                                lemma_lt_trans(after[a], before[p as int], before[b - 1]);
                            }
                        }
                    } else if a == p {
                        assert(after[b] == before[b - 1]);
                        if b - 1 > p {
                            lemma_lt_trans(vv, before[p as int], before[b - 1]);
                        }
                    } else {
                        assert(after[a] == before[a - 1]);
                        assert(after[b] == before[b - 1]);
                    }
                }
                assert(after.to_set() =~= before.to_set().insert(vv)) by {
                    assert forall|x: Seq<char>| after.to_set().contains(x) <==> before.to_set().insert(vv).contains(x) by {
                        if after.to_set().contains(x) {
                            let k = choose|k: int| 0 <= k < after.len() && after[k] == x;
                            if k < p {
                                assert(before[k] == x);
                            } else if k > p {
                                assert(before[k - 1] == x);
                            }
                        }
                        if before.to_set().contains(x) {
                            let k = choose|k: int| 0 <= k < before.len() && before[k] == x;
                            if k < p {
                                assert(after[k] == x);
                            } else {
                                assert(after[k + 1] == x);
                            }
                        }
                        if x == vv {
                            assert(after[p as int] == vv);
                        }
                    }
                }
                let pre = string_views(values@.subrange(0, i as int));
                assert(pre.push(vv).to_set() =~= pre.to_set().insert(vv)) by {
                    assert forall|x: Seq<char>| pre.push(vv).to_set().contains(x) <==> pre.to_set().insert(vv).contains(x) by {
                        if pre.push(vv).to_set().contains(x) {
                            let k = choose|k: int| 0 <= k < pre.push(vv).len() && pre.push(vv)[k] == x;
                            if k < pre.len() {
                                assert(pre[k] == x);
                            }
                        }
                        if pre.to_set().contains(x) {
                            let k = choose|k: int| 0 <= k < pre.len() && pre[k] == x;
                            assert(pre.push(vv)[k] == x);
                        }
                        if x == vv {
                            assert(pre.push(vv)[pre.len() as int] == vv);
                        }
                    }
                }
            }
        } else {
            proof {
                assert(before[p as int] == vv);
                let pre = string_views(values@.subrange(0, i as int));
                assert(pre.push(vv).to_set() =~= pre.to_set()) by {
                    assert forall|x: Seq<char>| pre.push(vv).to_set().contains(x) <==> pre.to_set().contains(x) by {
                        if pre.push(vv).to_set().contains(x) {
                            let k = choose|k: int| 0 <= k < pre.push(vv).len() && pre.push(vv)[k] == x;
                            if k < pre.len() {
                                assert(pre[k] == x);
                            } else {
                                assert(before.to_set().contains(vv));
                            }
                        }
                        if pre.to_set().contains(x) {
                            let k = choose|k: int| 0 <= k < pre.len() && pre[k] == x;
                            assert(pre.push(vv)[k] == x);
                        }
                    }
                }
            }
        }
        i = i + 1;
    }
    assert(values@.subrange(0, values@.len() as int) =~= values@);
    out
}

/// Every pair of elements of `t`, in order, is related by `rel`.
pub open spec fn pairwise<A>(t: Seq<A>, rel: spec_fn(A, A) -> bool) -> bool {
    forall|i: int, j: int| 0 <= i < j < t.len() ==> rel(#[trigger] t[i], #[trigger] t[j])
}

/// Filtering keeps a pairwise relation, and keeps only elements of the input.
pub proof fn lemma_filter_pairwise<A>(t: Seq<A>, f: spec_fn(A) -> bool, rel: spec_fn(A, A) -> bool)
    requires
        pairwise(t, rel),
    ensures
        pairwise(t.filter(f), rel),
        forall|i: int| 0 <= i < t.filter(f).len() ==> t.contains(#[trigger] t.filter(f)[i]),
        forall|i: int| 0 <= i < t.filter(f).len() ==> f(#[trigger] t.filter(f)[i]),
    decreases t.len(),
{
    reveal(Seq::filter);
    if t.len() > 0 {
        let pre = t.drop_last();
        assert(pairwise(pre, rel)) by {
            assert forall|i: int, j: int| 0 <= i < j < pre.len() implies rel(#[trigger] pre[i], #[trigger] pre[j]) by {
                assert(pre[i] == t[i] && pre[j] == t[j]);
            }
        }
        lemma_filter_pairwise(pre, f, rel);
        let fp = pre.filter(f);
        assert forall|i: int| 0 <= i < fp.len() implies t.contains(#[trigger] fp[i]) by {
            assert(pre.contains(fp[i]));
            let k = choose|k: int| 0 <= k < pre.len() && pre[k] == fp[i];
            assert(t[k] == pre[k]);
        }
        if f(t.last()) {
            let ft = fp.push(t.last());
            assert(t.filter(f) == ft);
            assert forall|i: int, j: int| 0 <= i < j < ft.len() implies rel(#[trigger] ft[i], #[trigger] ft[j]) by {
                if j == ft.len() - 1 {
                    assert(pre.contains(fp[i]));
                    let k = choose|k: int| 0 <= k < pre.len() && pre[k] == fp[i];
                    assert(t[k] == pre[k]);
                    assert(rel(t[k], t[t.len() - 1]));
                } else {
                    assert(ft[i] == fp[i] && ft[j] == fp[j]);
                }
            }
            assert forall|i: int| 0 <= i < ft.len() implies t.contains(#[trigger] ft[i]) && f(ft[i]) by {
                if i == ft.len() - 1 {
                    assert(t[t.len() - 1] == ft[i]);
                } else {
                    assert(ft[i] == fp[i]);
                }
            }
        } else {
            assert(t.filter(f) == fp);
        }
    }
}

} // verus!
