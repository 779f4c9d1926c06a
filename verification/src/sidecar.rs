//! Registry of sidecar processes (rules, ML, AIOps workers) bound to this
//! instance.
//!
//! The registry is in memory only: after a restart it is empty until the
//! sidecars register again. Health is computed from the time of the last
//! heartbeat, and a configured list of required kinds can hold the instance
//! degraded once a startup grace window has passed.
use vstd::prelude::*;

use crate::order::{compare_str, lemma_lt_trans, lemma_lt_trichotomy, seq_lt};
use crate::registry::copy_strings;
use crate::text::{chars_of, split_chars, split_on, str_eq, string_of, trim, trim_chars, views};

verus! {

/// Heartbeat cadence a sidecar is expected to keep, in seconds.
pub const HEARTBEAT_INTERVAL_SECS: u64 = 15;

/// Seconds without a heartbeat after which a sidecar is `Stale`.
pub const STALE_AFTER_SECS: u64 = 45;

/// Seconds without a heartbeat after which a sidecar is `Lost`.
pub const LOST_AFTER_SECS: u64 = 120;

/// Seconds after startup during which the required-kinds gate is suppressed.
pub const REQUIRE_GRACE_SECS: u64 = 60;

/// Health of a registered sidecar relative to the current time.
#[derive(Debug, Clone, Copy, PartialEq, Eq)]
pub enum SidecarStatus {
    Healthy,
    Stale,
    Lost,
}

/// Whole seconds from `from_ns` to `now_ns`, zero when `now_ns` is earlier.
pub open spec fn whole_secs_since(from_ns: u64, now_ns: u64) -> int {
    (if now_ns >= from_ns { now_ns - from_ns } else { 0 }) / 1_000_000_000
}

/// The status of a sidecar whose last heartbeat was at `last_ns`.
pub open spec fn status_for(last_ns: u64, now_ns: u64) -> SidecarStatus {
    let secs = whole_secs_since(last_ns, now_ns);
    if secs >= LOST_AFTER_SECS {
        SidecarStatus::Lost
    } else if secs >= STALE_AFTER_SECS {
        SidecarStatus::Stale
    } else {
        SidecarStatus::Healthy
    }
}

/// How far a status has decayed: healthy, stale, lost.
pub open spec fn decay(s: SidecarStatus) -> int {
    match s {
        SidecarStatus::Healthy => 0,
        SidecarStatus::Stale => 1,
        SidecarStatus::Lost => 2,
    }
}

/// Without a new heartbeat a sidecar's status only decays as time passes.
pub proof fn lemma_status_decays(last_ns: u64, t1: u64, t2: u64)
    requires
        t1 <= t2,
    ensures
        decay(status_for(last_ns, t1)) <= decay(status_for(last_ns, t2)),
{
    let e1: int = if t1 >= last_ns { t1 - last_ns } else { 0 };
    let e2: int = if t2 >= last_ns { t2 - last_ns } else { 0 };
    assert(0 <= e1 <= e2);
    vstd::arithmetic::div_mod::lemma_div_is_ordered(e1, e2, 1_000_000_000);
}

/// One registered sidecar.
pub struct SidecarEntry {
    pub sidecar_id: String,
    pub name: String,
    pub kind: String,
    pub version: String,
    pub capabilities: Vec<String>,
    pub address: String,
    pub registered_at_ns: u64,
    pub last_heartbeat_ns: u64,
    pub events_in_total: u64,
    pub detections_out_total: u64,
    /// Sidecar-specific JSON, opaque to this registry.
    pub status_json: String,
}

/// The abstract value of an entry: every field, strings by their characters.
pub struct SidecarEntryView {
    pub sidecar_id: Seq<char>,
    pub name: Seq<char>,
    pub kind: Seq<char>,
    pub version: Seq<char>,
    pub capabilities: Seq<Seq<char>>,
    pub address: Seq<char>,
    pub registered_at_ns: u64,
    pub last_heartbeat_ns: u64,
    pub events_in_total: u64,
    pub detections_out_total: u64,
    pub status_json: Seq<char>,
}

impl View for SidecarEntry {
    type V = SidecarEntryView;

    open spec fn view(&self) -> SidecarEntryView {
        SidecarEntryView {
            sidecar_id: self.sidecar_id@,
            name: self.name@,
            kind: self.kind@,
            version: self.version@,
            capabilities: views(self.capabilities@),
            address: self.address@,
            registered_at_ns: self.registered_at_ns,
            last_heartbeat_ns: self.last_heartbeat_ns,
            events_in_total: self.events_in_total,
            detections_out_total: self.detections_out_total,
            status_json: self.status_json@,
        }
    }
}

/// The views of a list of entries.
pub open spec fn entry_views(t: Seq<SidecarEntry>) -> Seq<SidecarEntryView> {
    t.map_values(|e: SidecarEntry| e@)
}

impl SidecarEntry {
    /// The status relative to `now_ns`.
    pub fn status_at(&self, now_ns: u64) -> (r: SidecarStatus)
        ensures
            r == status_for(self.last_heartbeat_ns, now_ns),
    {
        let elapsed = now_ns.saturating_sub(self.last_heartbeat_ns);
        let elapsed_secs = elapsed / 1_000_000_000;
        if elapsed_secs >= LOST_AFTER_SECS {
            SidecarStatus::Lost
        } else if elapsed_secs >= STALE_AFTER_SECS {
            SidecarStatus::Stale
        } else {
            SidecarStatus::Healthy
        }
    }

    /// An exact copy.
    pub fn copy(&self) -> (r: SidecarEntry)
        ensures
            r@ == self@,
    {
        SidecarEntry {
            sidecar_id: self.sidecar_id.clone(),
            name: self.name.clone(),
            kind: self.kind.clone(),
            version: self.version.clone(),
            capabilities: copy_strings(&self.capabilities),
            address: self.address.clone(),
            registered_at_ns: self.registered_at_ns,
            last_heartbeat_ns: self.last_heartbeat_ns,
            events_in_total: self.events_in_total,
            detections_out_total: self.detections_out_total,
            status_json: self.status_json.clone(),
        }
    }
}

/// An entry together with its status at the time of the snapshot.
pub struct SidecarSnapshot {
    pub entry: SidecarEntry,
    pub status: SidecarStatus,
}

// ── Required kinds ───────────────────────────────────────────────────────────

/// The kinds listed in a comma-separated setting: each piece trimmed, empty
/// pieces dropped, order kept.
pub open spec fn required_kinds_of(raw: Seq<char>) -> Seq<Seq<char>> {
    split_on(raw, ',').map_values(|p: Seq<char>| trim(p)).filter(|p: Seq<char>| p.len() > 0)
}

// ── The registry ─────────────────────────────────────────────────────────────

/// Two entries that may not stand in the registry together: the same id, or
/// the same name and kind.
pub open spec fn clash(a: SidecarEntryView, b: SidecarEntryView) -> bool {
    a.sidecar_id == b.sidecar_id || (a.name == b.name && a.kind == b.kind)
}

/// No two entries clash.
pub open spec fn no_clash(t: Seq<SidecarEntryView>) -> bool {
    forall|i: int, j: int| 0 <= i < j < t.len() ==> !clash(#[trigger] t[i], #[trigger] t[j])
}

/// The state behind the registry: the entries, the kinds required for healthy
/// operation, and the time the process started.
pub struct SidecarRegistryInner {
    pub entries: Vec<SidecarEntry>,
    pub required_kinds: Vec<String>,
    pub started_at_ns: u64,
}

/// The sidecar registry.
pub struct SidecarRegistry {
    pub inner: SidecarRegistryInner,
}

/// Whether `e` survives the registration of `(name, kind)` under `id`.
pub open spec fn kept_on_register(e: SidecarEntryView, name: Seq<char>, kind: Seq<char>, id: Seq<char>) -> bool {
    !(e.name == name && e.kind == kind) && e.sidecar_id != id
}

/// `e` after a heartbeat at `now_ns` that reported the given counters.
pub open spec fn after_heartbeat(
    e: SidecarEntryView,
    now_ns: u64,
    events_in_total: u64,
    detections_out_total: u64,
    status_json: Seq<char>,
) -> SidecarEntryView {
    SidecarEntryView {
        last_heartbeat_ns: now_ns,
        events_in_total,
        detections_out_total,
        status_json,
        ..e
    }
}

/// Some entry of `kind` is healthy or stale at `now_ns`.
pub open spec fn kind_satisfied(t: Seq<SidecarEntryView>, kind: Seq<char>, now_ns: u64) -> bool {
    exists|j: int| 0 <= j < t.len() && #[trigger] t[j].kind == kind && status_for(t[j].last_heartbeat_ns, now_ns) != SidecarStatus::Lost
}

/// The required kinds that no healthy or stale entry provides, in order.
pub open spec fn missing_kinds(required: Seq<Seq<char>>, t: Seq<SidecarEntryView>, now_ns: u64) -> Seq<Seq<char>> {
    required.filter(|k: Seq<char>| !kind_satisfied(t, k, now_ns))
}

/// The order of snapshots: by name, then by kind.
pub open spec fn entry_lt(a: SidecarEntryView, b: SidecarEntryView) -> bool {
    seq_lt(a.name, b.name) || (a.name == b.name && seq_lt(a.kind, b.kind))
}

proof fn lemma_entry_lt_trans(a: SidecarEntryView, b: SidecarEntryView, c: SidecarEntryView)
    requires
        entry_lt(a, b),
        entry_lt(b, c),
    ensures
        entry_lt(a, c),
{
    if seq_lt(a.name, b.name) && seq_lt(b.name, c.name) {
        lemma_lt_trans(a.name, b.name, c.name);
    } else if a.name == b.name && b.name == c.name {
        lemma_lt_trans(a.kind, b.kind, c.kind);
    }
}

proof fn lemma_entry_lt_total(a: SidecarEntryView, b: SidecarEntryView)
    requires
        !(a.name == b.name && a.kind == b.kind),
    ensures
        entry_lt(a, b) || entry_lt(b, a),
        !(entry_lt(a, b) && entry_lt(b, a)),
{
    lemma_lt_trichotomy(a.name, b.name);
    lemma_lt_trichotomy(a.kind, b.kind);
}

/// Whether `a` comes before `b` in a snapshot.
fn entry_before(a: &SidecarEntry, b: &SidecarEntry) -> (r: bool)
    ensures
        r == entry_lt(a@, b@),
{
    let c = compare_str(a.name.as_str(), b.name.as_str());
    if c < 0 {
        true
    } else if c > 0 {
        false
    } else {
        compare_str(a.kind.as_str(), b.kind.as_str()) < 0
    }
}

/// Keeping the elements of `t` that `f` accepts keeps them pairwise unrelated
/// by `clash`.
proof fn lemma_filter_no_clash(t: Seq<SidecarEntryView>, f: spec_fn(SidecarEntryView) -> bool)
    requires
        no_clash(t),
    ensures
        no_clash(t.filter(f)),
        forall|i: int| 0 <= i < t.filter(f).len() ==> t.contains(#[trigger] t.filter(f)[i]),
    decreases t.len(),
{
    reveal(Seq::filter);
    if t.len() > 0 {
        let pre = t.drop_last();
        assert(no_clash(pre)) by {
            assert forall|i: int, j: int| 0 <= i < j < pre.len() implies !clash(#[trigger] pre[i], #[trigger] pre[j]) by {
                assert(pre[i] == t[i] && pre[j] == t[j]);
            }
        }
        lemma_filter_no_clash(pre, f);
        let fp = pre.filter(f);
        assert forall|i: int| 0 <= i < fp.len() implies t.contains(#[trigger] fp[i]) by {
            assert(pre.contains(fp[i]));
            let k = choose|k: int| 0 <= k < pre.len() && pre[k] == fp[i];
            assert(t[k] == pre[k]);
        }
        if f(t.last()) {
            let ft = fp.push(t.last());
            assert(t.filter(f) == ft);
            assert forall|i: int, j: int| 0 <= i < j < ft.len() implies !clash(#[trigger] ft[i], #[trigger] ft[j]) by {
                if j == ft.len() - 1 {
                    assert(pre.contains(fp[i]));
                    let k = choose|k: int| 0 <= k < pre.len() && pre[k] == fp[i];
                    assert(t[k] == pre[k]);
                    assert(!clash(t[k], t[t.len() - 1]));
                } else {
                    assert(ft[i] == fp[i] && ft[j] == fp[j]);
                }
            }
            assert forall|i: int| 0 <= i < ft.len() implies t.contains(#[trigger] ft[i]) by {
                if i == ft.len() - 1 {
                    assert(t[t.len() - 1] == ft[i]);
                } else {
                    assert(ft[i] == fp[i]);
                }
            }
        } else {
            assert(t.filter(f) == fp);
        }
    }
}

/// Some snapshot shows `e`.
pub open spec fn shown(s: Seq<SidecarSnapshot>, e: SidecarEntryView) -> bool {
    exists|k: int| 0 <= k < s.len() && s[k].entry@ == e
}

/// `e` is one of the first `n` entries of `all`.
pub open spec fn from_prefix(all: Seq<SidecarEntryView>, n: int, e: SidecarEntryView) -> bool {
    exists|j: int| 0 <= j < n && all[j] == e
}

/// Every snapshot shows one of the first `n` entries.
pub open spec fn drawn_from(s: Seq<SidecarSnapshot>, all: Seq<SidecarEntryView>, n: int) -> bool {
    forall|k: int| 0 <= k < s.len() ==> from_prefix(all, n, #[trigger] s[k].entry@)
}

/// Each of the first `n` entries is shown.
pub open spec fn shows_prefix(s: Seq<SidecarSnapshot>, all: Seq<SidecarEntryView>, n: int) -> bool {
    forall|j: int| 0 <= j < n ==> shown(s, #[trigger] all[j])
}

/// Each snapshot carries the status of its entry at `now_ns`.
pub open spec fn statuses_at(s: Seq<SidecarSnapshot>, now_ns: u64) -> bool {
    forall|k: int| 0 <= k < s.len() ==> (#[trigger] s[k]).status == status_for(s[k].entry.last_heartbeat_ns, now_ns)
}

/// Snapshots strictly ordered by name, then kind.
pub open spec fn snaps_sorted(s: Seq<SidecarSnapshot>) -> bool {
    forall|a: int, b: int| 0 <= a < b < s.len() ==> entry_lt(#[trigger] s[a].entry@, #[trigger] s[b].entry@)
}

proof fn lemma_insert_snapshot(
    b: Seq<SidecarSnapshot>,
    p: int,
    snap: SidecarSnapshot,
    all: Seq<SidecarEntryView>,
    i: int,
    now_ns: u64,
)
    requires
        0 <= i < all.len(),
        0 <= p <= b.len(),
        drawn_from(b, all, i),
        shows_prefix(b, all, i),
        statuses_at(b, now_ns),
        snaps_sorted(b),
        snap.entry@ == all[i],
        snap.status == status_for(snap.entry.last_heartbeat_ns, now_ns),
        forall|k: int| 0 <= k < p ==> entry_lt(#[trigger] b[k].entry@, snap.entry@),
        p < b.len() ==> entry_lt(snap.entry@, b[p].entry@),
    ensures
        drawn_from(b.insert(p, snap), all, i + 1),
        shows_prefix(b.insert(p, snap), all, i + 1),
        statuses_at(b.insert(p, snap), now_ns),
        snaps_sorted(b.insert(p, snap)),
{
    let o = b.insert(p, snap);
    let ev = snap.entry@;
    assert forall|x: int, y: int| 0 <= x < y < o.len() implies entry_lt(#[trigger] o[x].entry@, #[trigger] o[y].entry@) by {
        if y < p {
            assert(o[x] == b[x] && o[y] == b[y]);
        } else if x < p && y == p {
            assert(o[x] == b[x]);
        } else if x < p {
            assert(o[x] == b[x] && o[y] == b[y - 1]);
            lemma_entry_lt_trans(b[x].entry@, ev, b[p].entry@);
            if y - 1 > p {
                lemma_entry_lt_trans(b[x].entry@, b[p].entry@, b[y - 1].entry@);
            }
        } else if x == p {
            assert(o[y] == b[y - 1]);
            if y - 1 > p {
                lemma_entry_lt_trans(ev, b[p].entry@, b[y - 1].entry@);
            }
        } else {
            assert(o[x] == b[x - 1] && o[y] == b[y - 1]);
        }
    }
    assert forall|k: int| 0 <= k < o.len() implies from_prefix(all, i + 1, #[trigger] o[k].entry@) by {
        if k < p {
            assert(o[k] == b[k]);
            assert(from_prefix(all, i, b[k].entry@));
        } else if k > p {
            assert(o[k] == b[k - 1]);
            assert(from_prefix(all, i, b[k - 1].entry@));
        } else {
            assert(all[i] == o[k].entry@);
        }
    }
    assert forall|k: int| 0 <= k < o.len() implies (#[trigger] o[k]).status == status_for(o[k].entry.last_heartbeat_ns, now_ns) by {
        if k < p {
            assert(o[k] == b[k]);
        } else if k > p {
            assert(o[k] == b[k - 1]);
        }
    }
    assert forall|j: int| 0 <= j < i + 1 implies shown(o, #[trigger] all[j]) by {
        if j == i {
            assert(o[p].entry@ == all[j]);
        } else {
            assert(shown(b, all[j]));
            let k = choose|k: int| 0 <= k < b.len() && b[k].entry@ == all[j];
            if k < p {
                assert(o[k] == b[k]);
            } else {
                assert(o[k + 1] == b[k]);
            }
        }
    }
}

impl SidecarRegistryInner {
    /// No two entries share an id, or a name and a kind.
    pub open spec fn wf(&self) -> bool {
        no_clash(entry_views(self.entries@))
    }

    pub open spec fn views(&self) -> Seq<SidecarEntryView> {
        entry_views(self.entries@)
    }
}

impl SidecarRegistry {
    pub open spec fn wf(&self) -> bool {
        self.inner.wf()
    }

    /// The registered entries.
    pub open spec fn entries(&self) -> Seq<SidecarEntryView> {
        self.inner.views()
    }

    /// An empty registry requiring `required_kinds`, started at `started_at_ns`.
    pub fn new(required_kinds: Vec<String>, started_at_ns: u64) -> (r: SidecarRegistry)
        ensures
            r.wf(),
            r.entries().len() == 0,
            r.inner.required_kinds@ == required_kinds@,
            r.inner.started_at_ns == started_at_ns,
    {
        let r = SidecarRegistry {
            inner: SidecarRegistryInner { entries: Vec::new(), required_kinds, started_at_ns },
        };
        assert(r.entries() =~= Seq::<SidecarEntryView>::empty());
        r
    }

    /// Parses a comma-separated list of required kinds: pieces are trimmed
    /// and empty pieces dropped.
    pub fn parse_required_kinds(raw: &str) -> (r: Vec<String>)
        ensures
            views(r@) == required_kinds_of(raw@),
    {
        let chars = chars_of(raw);
        let pieces = split_chars(chars.as_slice(), ',');
        let ghost sp = split_on(raw@, ',');
        let ghost tr = sp.map_values(|p: Seq<char>| trim(p));
        let ghost f = |p: Seq<char>| p.len() > 0;
        let mut out: Vec<String> = Vec::new();
        let mut i: usize = 0;
        while i < pieces.len()
            invariant
                chars@ == raw@,
                sp == split_on(raw@, ','),
                tr == sp.map_values(|p: Seq<char>| trim(p)),
                f == |p: Seq<char>| p.len() > 0,
                pieces@.len() == sp.len(),
                forall|k: int| 0 <= k < pieces@.len() ==> #[trigger] pieces@[k]@ == sp[k],
                i <= pieces@.len(),
                views(out@) == tr.subrange(0, i as int).filter(f),
            decreases pieces@.len() - i,
        {
            let t = trim_chars(pieces[i].as_slice());
            proof {
                assert(tr.subrange(0, i + 1) =~= tr.subrange(0, i as int).push(tr[i as int]));
                tr.subrange(0, i as int).lemma_filter_push(tr[i as int], f);
                assert(t@ == tr[i as int]);
            }
            if t.len() > 0 {
                let s = string_of(t.as_slice());
                let ghost before = out@;
                out.push(s);
                proof {
                    assert(views(out@) =~= views(before).push(s@));
                }
            }
            i = i + 1;
        }
        proof {
            assert(tr.subrange(0, tr.len() as int) =~= tr);
        }
        out
    }

    /// Registers a sidecar under `sidecar_id` at time `now_ns`, replacing any
    /// entry with the same name and kind (a restarted sidecar). Returns the id.
    pub fn register(
        &mut self,
        name: String,
        kind: String,
        version: String,
        capabilities: Vec<String>,
        address: String,
        sidecar_id: String,
        now_ns: u64,
    ) -> (r: String)
        requires
            old(self).wf(),
        ensures
            final(self).wf(),
            r@ == sidecar_id@,
            final(self).entries() == old(self).entries().filter(
                |e: SidecarEntryView| kept_on_register(e, name@, kind@, sidecar_id@),
            ).push(
                SidecarEntryView {
                    sidecar_id: sidecar_id@,
                    name: name@,
                    kind: kind@,
                    version: version@,
                    capabilities: views(capabilities@),
                    address: address@,
                    registered_at_ns: now_ns,
                    last_heartbeat_ns: now_ns,
                    events_in_total: 0,
                    detections_out_total: 0,
                    status_json: Seq::empty(),
                },
            ),
            forall|j: int| 0 <= j < final(self).entries().len() && (#[trigger] final(self).entries()[j]).name == name@
                && final(self).entries()[j].kind == kind@ ==> final(self).entries()[j].sidecar_id == sidecar_id@,
            final(self).inner.required_kinds@ == old(self).inner.required_kinds@,
            final(self).inner.started_at_ns == old(self).inner.started_at_ns,
    {
        let ghost f = |e: SidecarEntryView| kept_on_register(e, name@, kind@, sidecar_id@);
        let ghost all = self.entries();
        let mut kept: Vec<SidecarEntry> = Vec::new();
        let mut i: usize = 0;
        while i < self.inner.entries.len()
            invariant
                all == entry_views(self.inner.entries@),
                f == |e: SidecarEntryView| kept_on_register(e, name@, kind@, sidecar_id@),
                i <= all.len(),
                entry_views(kept@) == all.subrange(0, i as int).filter(f),
            decreases all.len() - i,
        {
            let e = &self.inner.entries[i];
            proof {
                assert(all.subrange(0, i + 1) =~= all.subrange(0, i as int).push(all[i as int]));
                all.subrange(0, i as int).lemma_filter_push(all[i as int], f);
                assert(all[i as int] == e@);
            }
            if !(str_eq(e.name.as_str(), name.as_str()) && str_eq(e.kind.as_str(), kind.as_str()))
                && !str_eq(e.sidecar_id.as_str(), sidecar_id.as_str()) {
                let c = e.copy();
                let ghost before = kept@;
                kept.push(c);
                proof {
                    assert(entry_views(kept@) =~= entry_views(before).push(c@));
                }
            }
            i = i + 1;
        }
        proof {
            assert(all.subrange(0, all.len() as int) =~= all);
        }
        let id = sidecar_id.clone();
        let entry = SidecarEntry {
            sidecar_id,
            name,
            kind,
            version,
            capabilities,
            address,
            registered_at_ns: now_ns,
            last_heartbeat_ns: now_ns,
            events_in_total: 0,
            detections_out_total: 0,
            status_json: String::new(),
        };
        let ghost ev = entry@;
        let ghost before = kept@;
        kept.push(entry);
        proof {
            assert(entry_views(kept@) =~= entry_views(before).push(ev));
            let fl = all.filter(f);
            lemma_filter_no_clash(all, f);
            let nv = entry_views(kept@);
            assert forall|a: int, b: int| 0 <= a < b < nv.len() implies !clash(#[trigger] nv[a], #[trigger] nv[b]) by {
                if b == nv.len() - 1 {
                    assert(nv[a] == fl[a]);
                    all.lemma_filter_pred(f, a);
                } else {
                    assert(nv[a] == fl[a] && nv[b] == fl[b]);
                }
            }
            assert forall|j: int| 0 <= j < nv.len() && (#[trigger] nv[j]).name == ev.name && nv[j].kind == ev.kind implies nv[j].sidecar_id == ev.sidecar_id by {
                if j < nv.len() - 1 {
                    assert(nv[j] == fl[j]);
                    all.lemma_filter_pred(f, j);
                }
            }
        }
        self.inner.entries = kept;
        id
    }

    /// Records a heartbeat of `sidecar_id` at `now_ns` with its counters.
    /// Fails when the id is unknown: the sidecar must register again.
    pub fn heartbeat(
        &mut self,
        sidecar_id: &str,
        events_in_total: u64,
        detections_out_total: u64,
        status_json: String,
        now_ns: u64,
    ) -> (r: Result<(), ()>)
        requires
            old(self).wf(),
        ensures
            final(self).wf(),
            r is Ok <==> exists|j: int| 0 <= j < old(self).entries().len()
                && (#[trigger] old(self).entries()[j]).sidecar_id == sidecar_id@,
            final(self).entries().len() == old(self).entries().len(),
            forall|j: int| 0 <= j < old(self).entries().len() ==> #[trigger] final(self).entries()[j] == (
                if old(self).entries()[j].sidecar_id == sidecar_id@ {
                    after_heartbeat(old(self).entries()[j], now_ns, events_in_total, detections_out_total, status_json@)
                } else {
                    old(self).entries()[j]
                }),
            final(self).inner.required_kinds@ == old(self).inner.required_kinds@,
            final(self).inner.started_at_ns == old(self).inner.started_at_ns,
    {
        let ghost all = self.entries();
        let mut i: usize = 0;
        while i < self.inner.entries.len()
            invariant
                all == entry_views(self.inner.entries@),
                all == old(self).entries(),
                no_clash(all),
                self.inner.required_kinds@ == old(self).inner.required_kinds@,
                self.inner.started_at_ns == old(self).inner.started_at_ns,
                i <= all.len(),
                forall|j: int| 0 <= j < i ==> all[j].sidecar_id != sidecar_id@,
            decreases all.len() - i,
        {
            if str_eq(self.inner.entries[i].sidecar_id.as_str(), sidecar_id) {
                let mut e = self.inner.entries[i].copy();
                e.last_heartbeat_ns = now_ns;
                e.events_in_total = events_in_total;
                e.detections_out_total = detections_out_total;
                e.status_json = status_json;
                let ghost ev = e@;
                self.inner.entries.set(i, e);
                proof {
                    let nv = self.entries();
                    assert(nv =~= all.update(i as int, ev));
                    assert forall|a: int, b: int| 0 <= a < b < nv.len() implies !clash(#[trigger] nv[a], #[trigger] nv[b]) by {
                        assert(!clash(all[a], all[b]));
                        if a == i {
                            assert(nv[a].sidecar_id == all[a].sidecar_id && nv[a].name == all[a].name && nv[a].kind == all[a].kind);
                        }
                        if b == i {
                            assert(nv[b].sidecar_id == all[b].sidecar_id && nv[b].name == all[b].name && nv[b].kind == all[b].kind);
                        }
                    }
                    assert forall|j: int| 0 <= j < all.len() implies #[trigger] nv[j] == (
                        if all[j].sidecar_id == sidecar_id@ {
                            after_heartbeat(all[j], now_ns, events_in_total, detections_out_total, status_json@)
                        } else {
                            all[j]
                        }) by {
                        if j != i && all[j].sidecar_id == sidecar_id@ {
                            if j < i {
                                assert(!clash(all[j], all[i as int]));
                            } else {
                                assert(!clash(all[i as int], all[j]));
                            }
                        }
                        if j == i {
                            assert(nv[j] == ev);
                        }
                    }
                }
                assert(all[i as int].sidecar_id == sidecar_id@);
                return Ok(());
            }
            i = i + 1;
        }
        Err(())
    }

    /// Every entry with its status at `now_ns`, ordered by name and then kind.
    pub fn snapshot(&self, now_ns: u64) -> (r: Vec<SidecarSnapshot>)
        requires
            self.wf(),
        ensures
            r@.len() == self.entries().len(),
            forall|i: int| 0 <= i < r@.len() ==> self.entries().contains(#[trigger] r@[i].entry@),
            forall|j: int| 0 <= j < self.entries().len() ==> shown(r@, #[trigger] self.entries()[j]),
            statuses_at(r@, now_ns),
            snaps_sorted(r@),
    {
        let ghost all = self.entries();
        let mut out: Vec<SidecarSnapshot> = Vec::new();
        let mut i: usize = 0;
        while i < self.inner.entries.len()
            invariant
                all == entry_views(self.inner.entries@),
                no_clash(all),
                i <= all.len(),
                out@.len() == i,
                drawn_from(out@, all, i as int),
                shows_prefix(out@, all, i as int),
                statuses_at(out@, now_ns),
                snaps_sorted(out@),
            decreases all.len() - i,
        {
            let e = &self.inner.entries[i];
            let ghost ev = e@;
            assert(ev == all[i as int]);
            let mut p: usize = 0;
            while p < out.len() && entry_before(&out[p].entry, e)
                invariant
                    ev == e@,
                    p <= out@.len(),
                    forall|k: int| 0 <= k < p ==> entry_lt(#[trigger] out@[k].entry@, ev),
                decreases out@.len() - p,
            {
                p = p + 1;
            }
            proof {
                if p < out@.len() {
                    assert(from_prefix(all, i as int, out@[p as int].entry@));
                    let j = choose|j: int| 0 <= j < i && all[j] == out@[p as int].entry@;
                    assert(!clash(all[j], all[i as int]));
                    lemma_entry_lt_total(out@[p as int].entry@, ev);
                }
            }
            let ghost before = out@;
            let snap = SidecarSnapshot { entry: e.copy(), status: e.status_at(now_ns) };
            out.insert(p, snap);
            proof {
                lemma_insert_snapshot(before, p as int, snap, all, i as int, now_ns);
            }
            i = i + 1;
        }
        proof {
            assert forall|k: int| 0 <= k < out@.len() implies all.contains(#[trigger] out@[k].entry@) by {
                assert(from_prefix(all, i as int, out@[k].entry@));
                let j = choose|j: int| 0 <= j < i && all[j] == out@[k].entry@;
            }
            assert forall|j: int| 0 <= j < all.len() implies shown(out@, #[trigger] all[j]) by {
                assert(shown(out@, all[j]));
            }
        }
        out
    }

    /// The kinds required for healthy operation.
    pub fn required_kinds(&self) -> (r: Vec<String>)
        ensures
            r@ == self.inner.required_kinds@,
    {
        copy_strings(&self.inner.required_kinds)
    }

    /// The required kinds that no healthy or stale sidecar provides at
    /// `now_ns`; `None` while no kind is required or during the startup grace
    /// window.
    pub fn missing_required(&self, now_ns: u64) -> (r: Option<Vec<String>>)
        ensures
            r is None <==> self.inner.required_kinds@.len() == 0
                || whole_secs_since(self.inner.started_at_ns, now_ns) < REQUIRE_GRACE_SECS,
            r matches Some(m) ==> views(m@) == missing_kinds(views(self.inner.required_kinds@), self.entries(), now_ns),
    {
        if self.inner.required_kinds.len() == 0 {
            return None;
        }
        let grace_elapsed = now_ns.saturating_sub(self.inner.started_at_ns) / 1_000_000_000;
        if grace_elapsed < REQUIRE_GRACE_SECS {
            return None;
        }
        let ghost all = self.entries();
        let ghost req = views(self.inner.required_kinds@);
        let ghost f = |k: Seq<char>| !kind_satisfied(all, k, now_ns);
        let mut missing: Vec<String> = Vec::new();
        let mut i: usize = 0;
        while i < self.inner.required_kinds.len()
            invariant
                all == entry_views(self.inner.entries@),
                req == views(self.inner.required_kinds@),
                f == |k: Seq<char>| !kind_satisfied(all, k, now_ns),
                i <= req.len(),
                views(missing@) == req.subrange(0, i as int).filter(f),
            decreases req.len() - i,
        {
            let required = &self.inner.required_kinds[i];
            let mut satisfied = false;
            let mut j: usize = 0;
            while j < self.inner.entries.len() && !satisfied
                invariant
                    all == entry_views(self.inner.entries@),
                    j <= all.len(),
                    satisfied ==> kind_satisfied(all, required@, now_ns),
                    !satisfied ==> forall|m: int| 0 <= m < j ==> !(#[trigger] all[m].kind == required@
                        && status_for(all[m].last_heartbeat_ns, now_ns) != SidecarStatus::Lost),
                decreases all.len() - j,
            {
                let e = &self.inner.entries[j];
                assert(e@ == all[j as int]);
                if str_eq(e.kind.as_str(), required.as_str()) {
                    match e.status_at(now_ns) {
                        SidecarStatus::Lost => {},
                        _ => {
                            assert(all[j as int].kind == required@
                                && status_for(all[j as int].last_heartbeat_ns, now_ns) != SidecarStatus::Lost);
                            satisfied = true;
                        },
                    }
                }
                j = j + 1;
            }
            proof {
                assert(req.subrange(0, i + 1) =~= req.subrange(0, i as int).push(req[i as int]));
                req.subrange(0, i as int).lemma_filter_push(req[i as int], f);
                assert(req[i as int] == required@);
            }
            if !satisfied {
                let ghost before = missing@;
                missing.push(required.clone());
                proof {
                    assert(views(missing@) =~= views(before).push(required@));
                }
            }
            i = i + 1;
        }
        proof {
            assert(req.subrange(0, req.len() as int) =~= req);
        }
        Some(missing)
    }
}

} // verus!
