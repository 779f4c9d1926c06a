//! Tables kept as a sequence of records, each found by a text key: what a
//! lookup by key gives, and how it changes when a record is replaced, added
//! or taken out.
use vstd::prelude::*;

verus! {

/// The last record of `t` whose key is `k`.
pub open spec fn find_keyed<T>(t: Seq<T>, key: spec_fn(T) -> Seq<char>, k: Seq<char>) -> Option<T>
    decreases t.len(),
{
    if t.len() == 0 {
        None
    } else if key(t.last()) == k {
        Some(t.last())
    } else {
        find_keyed(t.drop_last(), key, k)
    }
}

/// No two records of `t` share a key.
pub open spec fn keys_unique<T>(t: Seq<T>, key: spec_fn(T) -> Seq<char>) -> bool {
    forall|i: int, j: int| 0 <= i < j < t.len() ==> key(#[trigger] t[i]) != key(#[trigger] t[j])
}

/// Whether some record of `t` has the key `k`.
pub open spec fn has_key<T>(t: Seq<T>, key: spec_fn(T) -> Seq<char>, k: Seq<char>) -> bool {
    exists|i: int| 0 <= i < t.len() && key(#[trigger] t[i]) == k
}

pub proof fn lemma_keyed_unique_prefix<T>(t: Seq<T>, key: spec_fn(T) -> Seq<char>)
    requires
        keys_unique(t, key),
        t.len() > 0,
    ensures
        keys_unique(t.drop_last(), key),
{
    let pre = t.drop_last();
    assert forall|a: int, b: int| 0 <= a < b < pre.len() implies key(#[trigger] pre[a]) != key(#[trigger] pre[b]) by {
        assert(pre[a] == t[a] && pre[b] == t[b]);
    }
}

/// In a table with unique keys, the key of a record finds that record.
pub proof fn lemma_keyed_at<T>(t: Seq<T>, key: spec_fn(T) -> Seq<char>, i: int)
    requires
        keys_unique(t, key),
        0 <= i < t.len(),
    ensures
        find_keyed(t, key, key(t[i])) == Some(t[i]),
    decreases t.len(),
{
    if i < t.len() - 1 {
        assert(key(t.last()) != key(t[i])) by {
            assert(t[t.len() - 1] == t.last());
        }
        lemma_keyed_unique_prefix(t, key);
        assert(t.drop_last()[i] == t[i]);
        lemma_keyed_at(t.drop_last(), key, i);
    }
}

/// A key that no record has finds nothing, and the other way round.
pub proof fn lemma_keyed_absent<T>(t: Seq<T>, key: spec_fn(T) -> Seq<char>, k: Seq<char>)
    ensures
        find_keyed(t, key, k) is None <==> !has_key(t, key, k),
    decreases t.len(),
{
    if t.len() > 0 {
        let pre = t.drop_last();
        lemma_keyed_absent(pre, key, k);
        if has_key(pre, key, k) {
            let i = choose|i: int| 0 <= i < pre.len() && key(#[trigger] pre[i]) == k;
            assert(t[i] == pre[i]);
        }
        if has_key(t, key, k) && key(t.last()) != k {
            let i = choose|i: int| 0 <= i < t.len() && key(#[trigger] t[i]) == k;
            assert(t[t.len() - 1] == t.last());
            assert(pre[i] == t[i]);
        }
        if key(t.last()) == k {
            assert(t[t.len() - 1] == t.last());
        }
    }
}

/// What a lookup finds has the key looked for and is a record of the table.
pub proof fn lemma_keyed_found<T>(t: Seq<T>, key: spec_fn(T) -> Seq<char>, k: Seq<char>)
    requires
        find_keyed(t, key, k) is Some,
    ensures
        key(find_keyed(t, key, k).unwrap()) == k,
        exists|i: int| 0 <= i < t.len() && t[i] == find_keyed(t, key, k).unwrap(),
    decreases t.len(),
{
    if key(t.last()) == k {
        assert(t[t.len() - 1] == t.last());
    } else {
        let pre = t.drop_last();
        lemma_keyed_found(pre, key, k);
        let i = choose|i: int| 0 <= i < pre.len() && pre[i] == find_keyed(pre, key, k).unwrap();
        assert(t[i] == pre[i]);
    }
}

/// Replacing a record by one with the same key changes the lookup of that
/// key only.
pub proof fn lemma_keyed_update<T>(t: Seq<T>, key: spec_fn(T) -> Seq<char>, i: int, x: T)
    requires
        keys_unique(t, key),
        0 <= i < t.len(),
        key(x) == key(t[i]),
    ensures
        keys_unique(t.update(i, x), key),
        forall|k: Seq<char>|
            #[trigger] find_keyed(t.update(i, x), key, k) == if k == key(x) {
                Some(x)
            } else {
                find_keyed(t, key, k)
            },
{
    let u = t.update(i, x);
    assert forall|a: int, b: int| 0 <= a < b < u.len() implies key(#[trigger] u[a]) != key(#[trigger] u[b]) by {
        assert(key(u[a]) == key(t[a]));
        assert(key(u[b]) == key(t[b]));
    }
    assert forall|k: Seq<char>|
        #[trigger] find_keyed(u, key, k) == if k == key(x) {
            Some(x)
        } else {
            find_keyed(t, key, k)
        } by {
        if k == key(x) {
            lemma_keyed_at(u, key, i);
        } else {
            lemma_keyed_update_other(t, key, i, x, k);
        }
    }
}

proof fn lemma_keyed_update_other<T>(t: Seq<T>, key: spec_fn(T) -> Seq<char>, i: int, x: T, k: Seq<char>)
    requires
        0 <= i < t.len(),
        key(x) == key(t[i]),
        k != key(x),
    ensures
        find_keyed(t.update(i, x), key, k) == find_keyed(t, key, k),
    decreases t.len(),
{
    let u = t.update(i, x);
    if i == t.len() - 1 {
        assert(u.drop_last() =~= t.drop_last());
        assert(u.last() == x);
        assert(t.last() == t[i]);
    } else {
        assert(u.last() == t.last());
        assert(u.drop_last() =~= t.drop_last().update(i, x));
        assert(t.drop_last()[i] == t[i]);
        lemma_keyed_update_other(t.drop_last(), key, i, x, k);
    }
}

/// Adding a record with a new key changes the lookup of that key only.
pub proof fn lemma_keyed_push<T>(t: Seq<T>, key: spec_fn(T) -> Seq<char>, x: T)
    requires
        keys_unique(t, key),
        !has_key(t, key, key(x)),
    ensures
        keys_unique(t.push(x), key),
        forall|k: Seq<char>|
            #[trigger] find_keyed(t.push(x), key, k) == if k == key(x) {
                Some(x)
            } else {
                find_keyed(t, key, k)
            },
{
    let u = t.push(x);
    assert(u.drop_last() =~= t);
    assert forall|a: int, b: int| 0 <= a < b < u.len() implies key(#[trigger] u[a]) != key(#[trigger] u[b]) by {
        if b == t.len() {
            assert(u[a] == t[a]);
            assert(u[b] == x);
        } else {
            assert(u[a] == t[a] && u[b] == t[b]);
        }
    }
}

/// Taking out the record at `i` removes its key and keeps the others.
pub proof fn lemma_keyed_remove<T>(t: Seq<T>, key: spec_fn(T) -> Seq<char>, i: int)
    requires
        keys_unique(t, key),
        0 <= i < t.len(),
    ensures
        keys_unique(t.remove(i), key),
        forall|k: Seq<char>|
            #[trigger] find_keyed(t.remove(i), key, k) == if k == key(t[i]) {
                None
            } else {
                find_keyed(t, key, k)
            },
{
    let u = t.remove(i);
    assert forall|a: int, b: int| 0 <= a < b < u.len() implies key(#[trigger] u[a]) != key(#[trigger] u[b]) by {
        let ta = if a < i { a } else { a + 1 };
        let tb = if b < i { b } else { b + 1 };
        assert(u[a] == t[ta] && u[b] == t[tb]);
    }
    assert forall|k: Seq<char>|
        #[trigger] find_keyed(u, key, k) == if k == key(t[i]) {
            None
        } else {
            find_keyed(t, key, k)
        } by {
        if k == key(t[i]) {
            assert forall|a: int| 0 <= a < u.len() implies key(#[trigger] u[a]) != k by {
                let ta = if a < i { a } else { a + 1 };
                assert(u[a] == t[ta]);
            }
            lemma_keyed_absent(u, key, k);
        } else {
            lemma_keyed_remove_other(t, key, i, k);
        }
    }
}

proof fn lemma_keyed_remove_other<T>(t: Seq<T>, key: spec_fn(T) -> Seq<char>, i: int, k: Seq<char>)
    requires
        0 <= i < t.len(),
        k != key(t[i]),
    ensures
        find_keyed(t.remove(i), key, k) == find_keyed(t, key, k),
    decreases t.len(),
{
    let u = t.remove(i);
    if i == t.len() - 1 {
        assert(u =~= t.drop_last());
        assert(t.last() == t[i]);
    } else {
        assert(u.last() == t.last());
        assert(u.drop_last() =~= t.drop_last().remove(i));
        assert(t.drop_last()[i] == t[i]);
        lemma_keyed_remove_other(t.drop_last(), key, i, k);
    }
}

} // verus!
