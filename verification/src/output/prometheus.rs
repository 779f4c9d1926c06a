//! Prometheus remote-write: metric names and labels derived from gNMI paths.
//!
//! A path such as `/interface[name=eth0]/statistics` gives the metric name
//! `interface_statistics` and the label `name="eth0"`: segments are joined
//! with `_`, hyphens become underscores, key predicates become labels.
use vstd::prelude::*;

use crate::order::{compare_chars, lemma_lt_irrefl, lemma_lt_trans, seq_lt};
use crate::text::{
    chars_of, concat, extend_chars, find_char, first_index_of, join, lowercase, owned,
    replace_char, replace_char_seq, slice_range, split_chars, split_on, string_of, to_lowercase,
    words, words_chars,
};

verus! {

/// A label: name and value.
pub type Label = (String, String);

/// The characters of a label's name and value.
pub open spec fn label_view(l: (String, String)) -> (Seq<char>, Seq<char>) {
    (l.0@, l.1@)
}

pub open spec fn label_views(v: Seq<(String, String)>) -> Seq<(Seq<char>, Seq<char>)> {
    v.map_values(|l: (String, String)| label_view(l))
}

// ── Specification ────────────────────────────────────────────────────────────

/// Number of leading `c` characters.
pub open spec fn leading_count(s: Seq<char>, c: char) -> nat
    decreases s.len(),
{
    if s.len() > 0 && s[0] == c {
        1 + leading_count(s.drop_first(), c)
    } else {
        0
    }
}

/// The path without its leading slashes.
pub open spec fn strip_slashes(s: Seq<char>) -> Seq<char> {
    s.skip(leading_count(s, '/') as int)
}

/// The label of one `key=value` predicate word, if it has an `=`.
pub open spec fn kv_label(kv: Seq<char>) -> Option<(Seq<char>, Seq<char>)> {
    match first_index_of(kv, '=') {
        Some(e) => Some((replace_char_seq(kv.take(e), '-', '_'), kv.skip(e + 1))),
        None => None,
    }
}

/// Labels of a list of predicate words, in order.
pub open spec fn kv_labels(kvs: Seq<Seq<char>>) -> Seq<(Seq<char>, Seq<char>)>
    decreases kvs.len(),
{
    if kvs.len() == 0 {
        Seq::empty()
    } else {
        let pre = kv_labels(kvs.drop_last());
        match kv_label(kvs.last()) {
            Some(l) => pre.push(l),
            None => pre,
        }
    }
}

/// The text between the first `[` of a segment and its last character.
pub open spec fn predicate_text(seg: Seq<char>, b: int) -> Seq<char> {
    seg.subrange(b + 1, seg.len() - 1)
}

/// Labels contributed by one segment.
pub open spec fn seg_labels(seg: Seq<char>) -> Seq<(Seq<char>, Seq<char>)> {
    match first_index_of(seg, '[') {
        Some(b) => kv_labels(words(predicate_text(seg, b))),
        None => Seq::empty(),
    }
}

/// Name part contributed by one segment, if any.
pub open spec fn seg_name(seg: Seq<char>) -> Option<Seq<char>> {
    if seg.len() == 0 {
        None
    } else {
        match first_index_of(seg, '[') {
            Some(b) => if b > 0 {
                Some(replace_char_seq(seg.take(b), '-', '_'))
            } else {
                None
            },
            None => Some(replace_char_seq(seg, '-', '_')),
        }
    }
}

/// Name parts of a list of segments, in order.
pub open spec fn names_of(segs: Seq<Seq<char>>) -> Seq<Seq<char>>
    decreases segs.len(),
{
    if segs.len() == 0 {
        Seq::empty()
    } else {
        let pre = names_of(segs.drop_last());
        match seg_name(segs.last()) {
            Some(n) => pre.push(n),
            None => pre,
        }
    }
}

/// A path has no more named segments than segments.
proof fn lemma_names_len(segs: Seq<Seq<char>>)
    ensures
        names_of(segs).len() <= segs.len(),
    decreases segs.len(),
{
    if segs.len() > 0 {
        lemma_names_len(segs.drop_last());
    }
}

/// Labels of a list of segments, in order.
pub open spec fn labels_of(segs: Seq<Seq<char>>) -> Seq<(Seq<char>, Seq<char>)>
    decreases segs.len(),
{
    if segs.len() == 0 {
        Seq::empty()
    } else if segs.last().len() == 0 {
        labels_of(segs.drop_last())
    } else {
        labels_of(segs.drop_last()) + seg_labels(segs.last())
    }
}

/// The segments of a path.
pub open spec fn path_segments(path: Seq<char>) -> Seq<Seq<char>> {
    split_on(strip_slashes(path), '/')
}

/// A segment with a `[` has a character after it, and its last character is
/// ASCII: otherwise the predicate text cannot be cut out of the segment.
pub open spec fn segment_ok(seg: Seq<char>) -> bool {
    match first_index_of(seg, '[') {
        Some(b) => b + 1 < seg.len() && (seg.last() as u32) < 0x80,
        None => true,
    }
}

/// Every segment of the path can be parsed.
pub open spec fn path_ok(path: Seq<char>) -> bool {
    forall|i: int| 0 <= i < path_segments(path).len() ==> segment_ok(#[trigger] path_segments(path)[i])
}

/// The metric name of a path: its name parts joined with `_`, lower-cased.
pub open spec fn path_metric_name(path: Seq<char>) -> Seq<char> {
    lowercase(join(names_of(path_segments(path)), seq!['_']))
}

/// The labels of a path, from its key predicates, in order.
pub open spec fn path_labels(path: Seq<char>) -> Seq<(Seq<char>, Seq<char>)> {
    labels_of(path_segments(path))
}

// ── Implementation ──────────────────────────────────────────────────────────

fn strip_leading_slashes(s: &[char]) -> (r: Vec<char>)
    ensures
        r@ == strip_slashes(s@),
{
    let mut i: usize = 0;
    assert(s@.skip(0) =~= s@);
    while i < s.len() && s[i] == '/'
        invariant
            i <= s@.len(),
            forall|j: int| 0 <= j < i ==> s@[j] == '/',
            leading_count(s@, '/') == i + leading_count(s@.skip(i as int), '/'),
        decreases s@.len() - i,
    {
        proof {
            let t = s@.skip(i as int);
            assert(t[0] == s@[i as int]);
            assert(t.drop_first() =~= s@.skip(i + 1));
        }
        i = i + 1;
    }
    proof {
        let t = s@.skip(i as int);
        if t.len() > 0 {
            assert(t[0] == s@[i as int]);
        }
        assert(leading_count(t, '/') == 0);
        assert(s@.skip(0) =~= s@);
    }
    slice_range(s, i, s.len())
}

fn kv_label_exec(kv: &[char]) -> (r: Option<(Vec<char>, Vec<char>)>)
    ensures
        match r {
            Some((k, v)) => kv_label(kv@) == Some((k@, v@)),
            None => kv_label(kv@) is None,
        },
{
    let n = kv.len();
    match find_char(kv, '=') {
        Some(e) => {
            assert(e < n);
            let k = slice_range(kv, 0, e);
            let k2 = replace_char(k.as_slice(), '-', '_');
            let v = slice_range(kv, e + 1, kv.len());
            assert(k@ =~= kv@.take(e as int));
            assert(v@ =~= kv@.skip(e + 1));
            Some((k2, v))
        },
        None => None,
    }
}

fn seg_labels_exec(seg: &[char], out: &mut Vec<Label>)
    requires
        segment_ok(seg@),
    ensures
        label_views(final(out)@) == label_views(old(out)@) + seg_labels(seg@),
{
    let n = seg.len();
    match find_char(seg, '[') {
        None => {
            assert(label_views(out@) =~= label_views(out@) + Seq::<(Seq<char>, Seq<char>)>::empty());
        },
        Some(b) => {
            assert(b + 1 < n);
            let inner = slice_range(seg, b + 1, seg.len() - 1);
            let kvs = words_chars(inner.as_slice());
            let ghost w = words(inner@);
            let ghost start = label_views(out@);
            let mut i: usize = 0;
            while i < kvs.len()
                invariant
                    kvs@.len() == w.len(),
                    forall|k: int| 0 <= k < w.len() ==> #[trigger] kvs@[k]@ == w[k],
                    i <= w.len(),
                    label_views(out@) == start + kv_labels(w.take(i as int)),
                decreases w.len() - i,
            {
                proof {
                    assert(w.take(i + 1).drop_last() =~= w.take(i as int));
                    assert(w.take(i + 1).last() == w[i as int]);
                }
                match kv_label_exec(kvs[i].as_slice()) {
                    Some((k, v)) => {
                        let ghost before = out@;
                        out.push((string_of(k.as_slice()), string_of(v.as_slice())));
                        assert(label_views(out@) =~= label_views(before).push((k@, v@)));
                    },
                    None => {},
                }
                i = i + 1;
            }
            assert(w.take(w.len() as int) =~= w);
        },
    }
}

fn seg_name_exec(seg: &[char]) -> (r: Option<Vec<char>>)
    ensures
        match r {
            Some(n) => seg_name(seg@) == Some(n@),
            None => seg_name(seg@) is None,
        },
{
    if seg.len() == 0 {
        return None;
    }
    match find_char(seg, '[') {
        Some(b) => {
            if b > 0 {
                let base = slice_range(seg, 0, b);
                assert(base@ =~= seg@.take(b as int));
                Some(replace_char(base.as_slice(), '-', '_'))
            } else {
                None
            }
        },
        None => Some(replace_char(seg, '-', '_')),
    }
}

/// The metric name and the key-predicate labels of a gNMI path.
pub fn parse_path(path: &str) -> (r: (String, Vec<Label>))
    requires
        path_ok(path@),
    ensures
        r.0@ == path_metric_name(path@),
        label_views(r.1@) == path_labels(path@),
{
    let chars = chars_of(path);
    let stripped = strip_leading_slashes(chars.as_slice());
    let segs = split_chars(stripped.as_slice(), '/');
    let ghost sv = path_segments(path@);
    let mut labels: Vec<Label> = Vec::new();
    let mut name: Vec<char> = Vec::new();
    let mut count: usize = 0;
    let mut i: usize = 0;
    while i < segs.len()
        invariant
            sv == path_segments(path@),
            path_ok(path@),
            segs@.len() == sv.len(),
            forall|k: int| 0 <= k < sv.len() ==> #[trigger] segs@[k]@ == sv[k],
            i <= sv.len(),
            label_views(labels@) == labels_of(sv.take(i as int)),
            name@ == join(names_of(sv.take(i as int)), seq!['_']),
            count == names_of(sv.take(i as int)).len(),
            count <= i,
        decreases sv.len() - i,
    {
        let seg = &segs[i];
        proof {
            assert(sv.take(i + 1).drop_last() =~= sv.take(i as int));
            assert(sv.take(i + 1).last() == sv[i as int]);
            assert(segment_ok(sv[i as int]));
            lemma_names_len(sv.take(i as int));
        }
        if seg.len() > 0 {
            seg_labels_exec(seg.as_slice(), &mut labels);
            match seg_name_exec(seg.as_slice()) {
                Some(n) => {
                    let ghost parts = names_of(sv.take(i as int));
                    if count > 0 {
                        name.push('_');
                    }
                    extend_chars(&mut name, n.as_slice());
                    proof {
                        let np = parts.push(n@);
                        assert(np.drop_last() =~= parts);
                        if count > 0 {
                            assert(join(np, seq!['_']) =~= join(parts, seq!['_']) + seq!['_'] + n@);
                        } else {
                            assert(np.len() == 1);
                        }
                    }
                    count = count + 1;
                },
                None => {},
            }
        }
        i = i + 1;
    }
    proof {
        assert(sv.take(sv.len() as int) =~= sv);
    }
    let joined = string_of(name.as_slice());
    (to_lowercase(joined.as_str()), labels)
}

/// The labels every metric of a target carries: device, instance (the
/// hostname, or the address when there is none), job, vendor, and role and
/// site when set.
pub fn base_labels_for(target: &str, hostname: &str, vendor: &str, job: &str, role: &str, site: &str) -> (r: Vec<Label>)
    ensures
        label_views(r@) == base_labels(target@, hostname@, vendor@, job@, role@, site@),
{
    let instance = if hostname.unicode_len() == 0 {
        target
    } else {
        hostname
    };
    let mut labels: Vec<Label> = Vec::new();
    labels.push((owned("device"), owned(target)));
    labels.push((owned("instance"), owned(instance)));
    labels.push((owned("job"), owned(job)));
    labels.push((owned("vendor"), owned(vendor)));
    if role.unicode_len() > 0 {
        labels.push((owned("role"), owned(role)));
    }
    if site.unicode_len() > 0 {
        labels.push((owned("site"), owned(site)));
    }
    let ghost l = label_views(labels@);
    assert(l =~= base_labels(target@, hostname@, vendor@, job@, role@, site@));
    labels
}

/// The base labels of a target, as `base_labels_for` builds them.
pub open spec fn base_labels(
    target: Seq<char>,
    hostname: Seq<char>,
    vendor: Seq<char>,
    job: Seq<char>,
    role: Seq<char>,
    site: Seq<char>,
) -> Seq<(Seq<char>, Seq<char>)> {
    let instance = if hostname.len() == 0 { target } else { hostname };
    let fixed = seq![("device"@, target), ("instance"@, instance), ("job"@, job), ("vendor"@, vendor)];
    let with_role = if role.len() > 0 { fixed.push(("role"@, role)) } else { fixed };
    if site.len() > 0 { with_role.push(("site"@, site)) } else { with_role }
}

/// The metric name of a point: `bonsai_<path>` for a number at the path, or
/// `bonsai_<path>_<field>` (or `bonsai_<field>` when the path gives no name)
/// for a field of an object; the field with hyphens replaced and lower-cased.
pub fn metric_name(path_prefix: &str, field: Option<&str>) -> (r: String)
    ensures
        r@ == match field {
            None => "bonsai_"@ + path_prefix@,
            Some(f) => if path_prefix@.len() == 0 {
                "bonsai_"@ + lowercase(replace_char_seq(f@, '-', '_'))
            } else {
                "bonsai_"@ + path_prefix@ + "_"@ + lowercase(replace_char_seq(f@, '-', '_'))
            },
        },
{
    match field {
        None => concat("bonsai_", path_prefix),
        Some(f) => {
            let fc = chars_of(f);
            let replaced = string_of(replace_char(fc.as_slice(), '-', '_').as_slice());
            let clean = to_lowercase(replaced.as_str());
            if path_prefix.unicode_len() == 0 {
                concat("bonsai_", clean.as_str())
            } else {
                let mut s = concat("bonsai_", path_prefix);
                s.append("_");
                s.append(clean.as_str());
                s
            }
        },
    }
}

/// Labels merged for a metric: `base` then `extra`, sorted by name, one
/// label per name, the first label given with a name winning.
pub open spec fn merged_labels_ok(
    base: Seq<(Seq<char>, Seq<char>)>,
    extra: Seq<(Seq<char>, Seq<char>)>,
    out: Seq<(Seq<char>, Seq<char>)>,
) -> bool {
    merge_state(base + extra, (base + extra).len() as int, out)
}

/// Merges the base labels of a target with the labels of a path: sorted by
/// name, one label per name, the first given (base before path) winning.
pub fn merge_labels(base: Vec<Label>, extra: Vec<Label>) -> (r: Vec<Label>)
    ensures
        merged_labels_ok(label_views(base@), label_views(extra@), label_views(r@)),
{
    let mut all = base;
    let ghost b = label_views(all@);
    let mut rest = extra;
    let ghost e = label_views(rest@);
    let mut rev: Vec<Label> = Vec::new();
    while rest.len() > 0
        invariant
            rest@.len() + rev@.len() == e.len(),
            label_views(rest@) =~= e.take(rest@.len() as int),
            forall|j: int| 0 <= j < rev@.len() ==> label_view(#[trigger] rev@[j]) == e[e.len() - 1 - j],
        decreases rest@.len(),
    {
        let ghost before = rest@;
        let x = rest.pop().unwrap();
        proof {
            assert(rest@ =~= before.drop_last());
            assert(label_views(before)[rest@.len() as int] == label_view(x));
        }
        rev.push(x);
    }
    while rev.len() > 0
        invariant
            label_views(all@) == b + e.take(e.len() - rev@.len()),
            rev@.len() <= e.len(),
            forall|j: int| 0 <= j < rev@.len() ==> label_view(#[trigger] rev@[j]) == e[e.len() - 1 - j],
        decreases rev@.len(),
    {
        let ghost m = e.len() - rev@.len();
        let ghost before_rev = rev@;
        let ghost before_all = all@;
        let x = rev.pop().unwrap();
        proof {
            assert(rev@ =~= before_rev.drop_last());
            assert(label_view(x) == e[m]);
        }
        all.push(x);
        proof {
            assert(label_views(all@) =~= label_views(before_all).push(label_view(x)));
            assert(e.take(m + 1) =~= e.take(m).push(e[m]));
        }
    }
    proof {
        assert(e.take(e.len() as int) =~= e);
    }
    // Insert each label in order; a name already present keeps its first label.
    let ghost av = label_views(all@);
    let mut out: Vec<Label> = Vec::new();
    let mut i: usize = 0;
    while i < all.len()
        invariant
            av == label_views(all@),
            i <= av.len(),
            merge_state(av, i as int, label_views(out@)),
        decreases av.len() - i,
    {
        let ghost ov = label_views(out@);
        let kc = chars_of(all[i].0.as_str());
        let (p, found) = key_position(&out, kc.as_slice());
        if !found {
            let l = (all[i].0.clone(), all[i].1.clone());
            out.insert(p, l);
            proof {
                assert(label_views(out@) =~= ov.insert(p as int, av[i as int]));
                lemma_merge_insert(av, i as int, ov, p as int);
            }
        } else {
            proof {
                lemma_merge_found(av, i as int, ov, p as int);
            }
        }
        i = i + 1;
    }
    proof {
        assert(av == label_views(base@) + label_views(extra@));
        lemma_merge_final(label_views(base@), label_views(extra@), label_views(out@));
    }
    out
}

/// Label names strictly increase.
pub open spec fn keys_sorted(ov: Seq<(Seq<char>, Seq<char>)>) -> bool {
    forall|x: int, y: int| 0 <= x < y < ov.len() ==> seq_lt(#[trigger] ov[x].0, #[trigger] ov[y].0)
}

/// No label before position `k` has this name.
pub open spec fn name_first_at(av: Seq<(Seq<char>, Seq<char>)>, k: int, name: Seq<char>) -> bool {
    forall|m: int| 0 <= m < k ==> av[m].0 != name
}

/// The label is the first among the first `i` labels with its name.
pub open spec fn first_of_name(av: Seq<(Seq<char>, Seq<char>)>, i: int, l: (Seq<char>, Seq<char>)) -> bool {
    exists|k: int| #![trigger av[k]] 0 <= k < i && av[k] == l && name_first_at(av, k, l.0)
}

/// Each kept label is the first among the first `i` labels with its name.
pub open spec fn kept_first(av: Seq<(Seq<char>, Seq<char>)>, i: int, ov: Seq<(Seq<char>, Seq<char>)>) -> bool {
    forall|x: int| #![trigger ov[x]] 0 <= x < ov.len() ==> first_of_name(av, i, ov[x])
}

/// Some kept label has this name.
pub open spec fn name_kept(ov: Seq<(Seq<char>, Seq<char>)>, name: Seq<char>) -> bool {
    exists|x: int| #![trigger ov[x]] 0 <= x < ov.len() && ov[x].0 == name
}

/// Every name among the first `i` labels is kept.
pub open spec fn names_covered(av: Seq<(Seq<char>, Seq<char>)>, i: int, ov: Seq<(Seq<char>, Seq<char>)>) -> bool {
    forall|k: int| #![trigger av[k]] 0 <= k < i ==> name_kept(ov, av[k].0)
}

pub open spec fn merge_state(av: Seq<(Seq<char>, Seq<char>)>, i: int, ov: Seq<(Seq<char>, Seq<char>)>) -> bool {
    keys_sorted(ov) && kept_first(av, i, ov) && names_covered(av, i, ov)
}

fn key_position(out: &Vec<Label>, kc: &[char]) -> (r: (usize, bool))
    requires
        keys_sorted(label_views(out@)),
    ensures
        r.0 <= out@.len(),
        forall|q: int| 0 <= q < r.0 ==> seq_lt(#[trigger] label_views(out@)[q].0, kc@),
        r.1 ==> r.0 < out@.len() && label_views(out@)[r.0 as int].0 == kc@,
        !r.1 ==> r.0 == out@.len() || seq_lt(kc@, label_views(out@)[r.0 as int].0),
{
    let ghost ov = label_views(out@);
    let mut p: usize = 0;
    let mut found = false;
    let mut stop = false;
    while !stop && p < out.len()
        invariant
            ov == label_views(out@),
            p <= ov.len(),
            forall|q: int| 0 <= q < p ==> seq_lt(#[trigger] ov[q].0, kc@),
            found ==> stop,
            found ==> p < ov.len() && ov[p as int].0 == kc@,
            stop && !found ==> p < ov.len() && seq_lt(kc@, ov[p as int].0),
        decreases ov.len() - p + (if stop { 0int } else { 1int }),
    {
        let oc = chars_of(out[p].0.as_str());
        let c = compare_chars(oc.as_slice(), kc);
        if c == 0 {
            found = true;
            stop = true;
        } else if c == 1 {
            stop = true;
        } else {
            p = p + 1;
        }
    }
    (p, found)
}

proof fn lemma_merge_insert(av: Seq<(Seq<char>, Seq<char>)>, i: int, ov: Seq<(Seq<char>, Seq<char>)>, p: int)
    requires
        0 <= i < av.len(),
        merge_state(av, i, ov),
        0 <= p <= ov.len(),
        forall|q: int| 0 <= q < p ==> seq_lt(#[trigger] ov[q].0, av[i].0),
        p == ov.len() || seq_lt(av[i].0, ov[p].0),
    ensures
        merge_state(av, i + 1, ov.insert(p, av[i])),
{
    lemma_insert_sorted(av[i], ov, p);
    lemma_name_new(av, i, ov, p);
    lemma_insert_kept(av, i, ov, p);
    lemma_insert_covered(av, i, ov, p);
}

proof fn lemma_insert_sorted(l: (Seq<char>, Seq<char>), ov: Seq<(Seq<char>, Seq<char>)>, p: int)
    requires
        keys_sorted(ov),
        0 <= p <= ov.len(),
        forall|q: int| 0 <= q < p ==> seq_lt(#[trigger] ov[q].0, l.0),
        p == ov.len() || seq_lt(l.0, ov[p].0),
    ensures
        keys_sorted(ov.insert(p, l)),
{
    let kc = l.0;
    let nv = ov.insert(p, l);
    assert forall|x: int, y: int| 0 <= x < y < nv.len() implies seq_lt(#[trigger] nv[x].0, #[trigger] nv[y].0) by {
        if y < p {
            assert(nv[x] == ov[x] && nv[y] == ov[y]);
        } else if x < p && y == p {
            assert(nv[x] == ov[x]);
        } else if x < p && y > p {
            assert(nv[x] == ov[x] && nv[y] == ov[y - 1]);
            lemma_lt_trans(ov[x].0, kc, ov[p].0);
            if y - 1 > p {
                lemma_lt_trans(ov[x].0, ov[p].0, ov[y - 1].0);
            }
        } else if x == p {
            assert(nv[y] == ov[y - 1]);
            if y - 1 > p {
                lemma_lt_trans(kc, ov[p].0, ov[y - 1].0);
            }
        } else {
            assert(nv[x] == ov[x - 1] && nv[y] == ov[y - 1]);
        }
    }
}

proof fn lemma_name_new(av: Seq<(Seq<char>, Seq<char>)>, i: int, ov: Seq<(Seq<char>, Seq<char>)>, p: int)
    requires
        0 <= i < av.len(),
        keys_sorted(ov),
        names_covered(av, i, ov),
        0 <= p <= ov.len(),
        forall|q: int| 0 <= q < p ==> seq_lt(#[trigger] ov[q].0, av[i].0),
        p == ov.len() || seq_lt(av[i].0, ov[p].0),
    ensures
        forall|m: int| 0 <= m < i ==> av[m].0 != av[i].0,
{
    let kc = av[i].0;
    assert forall|m: int| 0 <= m < i implies av[m].0 != kc by {
        assert(av[m] == av[m]);
        let x = choose|x: int| #![trigger ov[x]] 0 <= x < ov.len() && ov[x].0 == av[m].0;
        if x < p {
            assert(seq_lt(ov[x].0, kc));
            lemma_lt_irrefl(kc);
        } else {
            if x > p {
                assert(seq_lt(ov[p].0, ov[x].0));
                lemma_lt_trans(kc, ov[p].0, ov[x].0);
            }
            lemma_lt_irrefl(kc);
        }
    }
}

proof fn lemma_insert_kept(av: Seq<(Seq<char>, Seq<char>)>, i: int, ov: Seq<(Seq<char>, Seq<char>)>, p: int)
    requires
        0 <= i < av.len(),
        kept_first(av, i, ov),
        0 <= p <= ov.len(),
        forall|m: int| 0 <= m < i ==> av[m].0 != av[i].0,
    ensures
        kept_first(av, i + 1, ov.insert(p, av[i])),
{
    let nv = ov.insert(p, av[i]);
    assert forall|x: int| #![trigger nv[x]] 0 <= x < nv.len() implies first_of_name(av, i + 1, nv[x]) by {
        if x < p {
            assert(nv[x] == ov[x]);
            assert(ov[x] == ov[x]);
        } else if x > p {
            assert(nv[x] == ov[x - 1]);
            assert(ov[x - 1] == ov[x - 1]);
        } else {
            assert(av[i] == nv[x]);
        }
    }
}

proof fn lemma_insert_covered(av: Seq<(Seq<char>, Seq<char>)>, i: int, ov: Seq<(Seq<char>, Seq<char>)>, p: int)
    requires
        0 <= i < av.len(),
        names_covered(av, i, ov),
        0 <= p <= ov.len(),
    ensures
        names_covered(av, i + 1, ov.insert(p, av[i])),
{
    let nv = ov.insert(p, av[i]);
    assert forall|k: int| #![trigger av[k]] 0 <= k < i + 1 implies name_kept(nv, av[k].0) by {
        if k == i {
            assert(nv[p].0 == av[k].0);
        } else {
            let x = choose|x: int| #![trigger ov[x]] 0 <= x < ov.len() && ov[x].0 == av[k].0;
            if x < p {
                assert(nv[x] == ov[x]);
            } else {
                assert(nv[x + 1] == ov[x]);
            }
        }
    }
}

proof fn lemma_merge_found(av: Seq<(Seq<char>, Seq<char>)>, i: int, ov: Seq<(Seq<char>, Seq<char>)>, p: int)
    requires
        0 <= i < av.len(),
        merge_state(av, i, ov),
        0 <= p < ov.len(),
        ov[p].0 == av[i].0,
    ensures
        merge_state(av, i + 1, ov),
{
    lemma_found_kept(av, i, ov);
    lemma_found_covered(av, i, ov, p);
}

proof fn lemma_found_kept(av: Seq<(Seq<char>, Seq<char>)>, i: int, ov: Seq<(Seq<char>, Seq<char>)>)
    requires
        0 <= i < av.len(),
        kept_first(av, i, ov),
    ensures
        kept_first(av, i + 1, ov),
{
    assert forall|x: int| #![trigger ov[x]] 0 <= x < ov.len() implies first_of_name(av, i + 1, ov[x]) by {
        let t = ov[x];
        let k = choose|k: int| #![trigger av[k]] 0 <= k < i && av[k] == ov[x] && name_first_at(av, k, ov[x].0);
        assert(0 <= k < i + 1 && av[k] == ov[x] && name_first_at(av, k, ov[x].0));
    }
}

proof fn lemma_found_covered(av: Seq<(Seq<char>, Seq<char>)>, i: int, ov: Seq<(Seq<char>, Seq<char>)>, p: int)
    requires
        0 <= i < av.len(),
        names_covered(av, i, ov),
        0 <= p < ov.len(),
        ov[p].0 == av[i].0,
    ensures
        names_covered(av, i + 1, ov),
{
    assert forall|k: int| #![trigger av[k]] 0 <= k < i + 1 implies name_kept(ov, av[k].0) by {
        if k == i {
            assert(ov[p].0 == av[k].0);
        } else {
            let x = choose|x: int| #![trigger ov[x]] 0 <= x < ov.len() && ov[x].0 == av[k].0;
            assert(ov[x].0 == av[k].0);
        }
    }
}

proof fn lemma_merge_final(b: Seq<(Seq<char>, Seq<char>)>, e: Seq<(Seq<char>, Seq<char>)>, ov: Seq<(Seq<char>, Seq<char>)>)
    requires
        merge_state(b + e, (b + e).len() as int, ov),
    ensures
        merged_labels_ok(b, e, ov),
{
}

} // verus!
