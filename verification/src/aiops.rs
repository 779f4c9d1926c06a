//! Correlation of detections into ServiceNow incidents, and the texts that
//! pass between the two systems.
//!
//! Detections that fire close together are grouped into one incident whose
//! root is the detection on the best-connected device. Incidents carry a
//! marker in their short description so that a later sync finds them again,
//! and operators can ask for a playbook from ServiceNow with a comment line.
use vstd::prelude::*;

use crate::order::{sorted_unique_strings, string_views, strictly_sorted};
use crate::text::{
    ascii_lower_chars, ascii_lower_seq, chars_of, decimal, decimal_signed, find_char, i64_to_string,
    join, join_strings, lines, lines_chars, owned, slice_range, starts_with, starts_with_exec, string_of,
    trim, trim_chars, u64_to_string, views, words, words_chars, str_eq, concat,
};
use crate::keyed::find_keyed;

verus! {

/// The marker that starts the short description of every incident.
pub open spec fn short_desc_prefix() -> Seq<char> {
    "[Bonsai incident "@
}

/// The command prefix that asks for a playbook.
pub open spec fn playbook_prefix() -> Seq<char> {
    "bonsai:playbook"@
}

/// Counts of one sync cycle.
#[derive(Debug, Clone, Copy, Default, PartialEq, Eq)]
pub struct SyncStats {
    pub incidents_created: usize,
    pub incidents_updated: usize,
    pub incidents_resolved: usize,
    pub local_incidents_synced: usize,
    pub playbook_proposals_created: usize,
}

// ── Incident id marker ───────────────────────────────────────────────────────

/// The incident id in a short description: what follows the marker, up to
/// the first `]`.
pub open spec fn incident_id_of(sd: Seq<char>) -> Option<Seq<char>> {
    if starts_with(sd, short_desc_prefix()) {
        let rest = sd.skip(short_desc_prefix().len() as int);
        match crate::text::first_index_of(rest, ']') {
            Some(e) => Some(rest.take(e)),
            None => None,
        }
    } else {
        None
    }
}

/// Reads the incident id back from a short description.
pub fn parse_incident_id(short_description: &str) -> (r: Option<String>)
    ensures
        match r {
            Some(s) => incident_id_of(short_description@) == Some(s@),
            None => incident_id_of(short_description@) is None,
        },
{
    proof {
        reveal_strlit("[Bonsai incident ");
    }
    let sd = chars_of(short_description);
    let prefix = chars_of("[Bonsai incident ");
    if !starts_with_exec(sd.as_slice(), prefix.as_slice()) {
        return None;
    }
    let rest = slice_range(sd.as_slice(), prefix.len(), sd.len());
    proof {
        assert(rest@ =~= short_description@.skip(short_desc_prefix().len() as int));
    }
    match find_char(rest.as_slice(), ']') {
        Some(end) => {
            let id = slice_range(rest.as_slice(), 0, end);
            proof {
                assert(id@ =~= rest@.take(end as int));
            }
            Some(string_of(id.as_slice()))
        },
        None => {
            proof {
                if crate::text::first_index_of(rest@, ']') is Some {
                    let i = choose|i: int| 0 <= i < rest@.len() && rest@[i] == ']';
                    assert(rest@[i] != ']');
                }
            }
            None
        },
    }
}

// ── Playbook commands ────────────────────────────────────────────────────────

/// The number of leading `:` and space characters.
pub open spec fn colon_space_prefix(s: Seq<char>) -> nat
    decreases s.len(),
{
    if s.len() > 0 && (s[0] == ':' || s[0] == ' ') {
        1 + colon_space_prefix(s.drop_first())
    } else {
        0
    }
}

/// The playbook a comment line asks for: after trimming, a line starting with
/// the command prefix in any ASCII case; the first word after the prefix and
/// any leading colons and spaces names the playbook.
pub open spec fn playbook_of_line(line: Seq<char>) -> Option<Seq<char>> {
    let t = trim(line);
    if starts_with(ascii_lower_seq(t), playbook_prefix()) {
        let rest = t.skip(playbook_prefix().len() as int);
        let args = rest.skip(colon_space_prefix(rest) as int);
        let ws = words(args);
        if ws.len() > 0 && trim(ws[0]).len() > 0 {
            Some(trim(ws[0]))
        } else {
            None
        }
    } else {
        None
    }
}

/// The playbooks asked for by a sequence of lines, in order.
pub open spec fn playbooks_of_lines(ls: Seq<Seq<char>>) -> Seq<Seq<char>>
    decreases ls.len(),
{
    if ls.len() == 0 {
        Seq::empty()
    } else {
        let pre = playbooks_of_lines(ls.drop_last());
        match playbook_of_line(ls.last()) {
            Some(p) => pre.push(p),
            None => pre,
        }
    }
}

fn colon_space_len(s: &[char]) -> (r: usize)
    ensures
        r == colon_space_prefix(s@),
        r <= s@.len(),
{
    let mut i: usize = 0;
    proof {
        assert(s@.skip(0) =~= s@);
    }
    while i < s.len() && (s[i] == ':' || s[i] == ' ')
        invariant
            i <= s@.len(),
            colon_space_prefix(s@) == i + colon_space_prefix(s@.skip(i as int)),
        decreases s@.len() - i,
    {
        proof {
            let t = s@.skip(i as int);
            assert(t.drop_first() =~= s@.skip(i + 1));
        }
        i = i + 1;
    }
    proof {
        assert(colon_space_prefix(s@.skip(i as int)) == 0) by {
            if i < s@.len() {
                assert(s@.skip(i as int)[0] == s@[i as int]);
            }
        }
    }
    i
}

/// The playbook a line asks for, if any.
fn playbook_in_line(line: &[char]) -> (r: Option<Vec<char>>)
    ensures
        match r {
            Some(p) => playbook_of_line(line@) == Some(p@),
            None => playbook_of_line(line@) is None,
        },
{
    proof {
        reveal_strlit("bonsai:playbook");
    }
    let t = trim_chars(line);
    let lower = ascii_lower_chars(t.as_slice());
    let prefix = chars_of("bonsai:playbook");
    if !starts_with_exec(lower.as_slice(), prefix.as_slice()) {
        return None;
    }
    let rest = slice_range(t.as_slice(), prefix.len(), t.len());
    let skip = colon_space_len(rest.as_slice());
    let args = slice_range(rest.as_slice(), skip, rest.len());
    proof {
        assert(rest@ =~= t@.skip(playbook_prefix().len() as int));
        assert(args@ =~= rest@.skip(colon_space_prefix(rest@) as int));
    }
    let ws = words_chars(args.as_slice());
    if ws.len() == 0 {
        return None;
    }
    proof {
        assert(ws@[0]@ == words(args@)[0]);
    }
    let p = trim_chars(ws[0].as_slice());
    if p.len() == 0 {
        return None;
    }
    Some(p)
}

/// The playbooks asked for in the comments and work notes of an incident:
/// sorted, each once.
pub fn parse_playbook_commands(comments: &str, work_notes: &str) -> (r: Vec<String>)
    ensures
        strictly_sorted(views(r@)),
        views(r@).to_set() == playbooks_of_lines(lines(comments@) + lines(work_notes@)).to_set(),
{
    let c = chars_of(comments);
    let w = chars_of(work_notes);
    let mut ls = lines_chars(c.as_slice());
    let ls2 = lines_chars(w.as_slice());
    let ghost all = lines(comments@) + lines(work_notes@);
    let ghost n1 = ls@.len();
    let mut k: usize = 0;
    while k < ls2.len()
        invariant
            n1 == lines(comments@).len(),
            ls@.len() == n1 + k,
            k <= ls2@.len(),
            ls2@.len() == lines(work_notes@).len(),
            forall|j: int| 0 <= j < ls2@.len() ==> #[trigger] ls2@[j]@ == lines(work_notes@)[j],
            forall|j: int| 0 <= j < ls@.len() ==> #[trigger] ls@[j]@ == all[j],
            all == lines(comments@) + lines(work_notes@),
        decreases ls2@.len() - k,
    {
        let piece = slice_range(ls2[k].as_slice(), 0, ls2[k].len());
        proof {
            assert(piece@ =~= ls2@[k as int]@);
        }
        ls.push(piece);
        k = k + 1;
    }
    let mut out: Vec<String> = Vec::new();
    let mut i: usize = 0;
    while i < ls.len()
        invariant
            ls@.len() == all.len(),
            forall|j: int| 0 <= j < ls@.len() ==> #[trigger] ls@[j]@ == all[j],
            i <= ls@.len(),
            views(out@) == playbooks_of_lines(all.subrange(0, i as int)),
        decreases ls@.len() - i,
    {
        let ghost pre = all.subrange(0, i as int);
        proof {
            assert(all.subrange(0, i + 1).drop_last() =~= pre);
            assert(all.subrange(0, i + 1).last() == all[i as int]);
        }
        match playbook_in_line(ls[i].as_slice()) {
            Some(p) => {
                let s = string_of(p.as_slice());
                let ghost before = out@;
                out.push(s);
                proof {
                    assert(views(out@) =~= views(before).push(s@));
                }
            },
            None => {},
        }
        i = i + 1;
    }
    proof {
        assert(all.subrange(0, all.len() as int) =~= all);
    }
    let r = sorted_unique_strings(out);
    proof {
        assert(views(r@) =~= string_views(r@));
    }
    r
}

// ── Severity ─────────────────────────────────────────────────────────────────

/// The rank of a detection severity: critical 3, high 2, warning 1, else 0.
pub open spec fn severity_rank(s: Seq<char>) -> int {
    if s == "critical"@ {
        3
    } else if s == "high"@ {
        2
    } else if s == "warning"@ || s == "warn"@ {
        1
    } else {
        0
    }
}

/// The ServiceNow impact of a severity.
pub open spec fn impact_of(s: Seq<char>) -> Seq<char> {
    if s == "critical"@ {
        "1"@
    } else if s == "high"@ || s == "warning"@ || s == "warn"@ {
        "2"@
    } else {
        "3"@
    }
}

/// The ServiceNow urgency of a severity.
pub open spec fn urgency_of(s: Seq<char>) -> Seq<char> {
    if s == "critical"@ || s == "high"@ {
        "1"@
    } else if s == "warning"@ || s == "warn"@ {
        "2"@
    } else {
        "3"@
    }
}

pub fn severity_to_impact(severity: &str) -> (r: &'static str)
    ensures
        r@ == impact_of(severity@),
{
    if crate::text::str_eq(severity, "critical") {
        "1"
    } else if crate::text::str_eq(severity, "high") || crate::text::str_eq(severity, "warning")
        || crate::text::str_eq(severity, "warn") {
        "2"
    } else {
        "3"
    }
}

pub fn severity_to_urgency(severity: &str) -> (r: &'static str)
    ensures
        r@ == urgency_of(severity@),
{
    if crate::text::str_eq(severity, "critical") || crate::text::str_eq(severity, "high") {
        "1"
    } else if crate::text::str_eq(severity, "warning") || crate::text::str_eq(severity, "warn") {
        "2"
    } else {
        "3"
    }
}

fn rank_of(severity: &str) -> (r: u8)
    ensures
        r as int == severity_rank(severity@),
{
    if crate::text::str_eq(severity, "critical") {
        3
    } else if crate::text::str_eq(severity, "high") {
        2
    } else if crate::text::str_eq(severity, "warning") || crate::text::str_eq(severity, "warn") {
        1
    } else {
        0
    }
}

// ── Grouping detections into incidents ───────────────────────────────────────

/// A recent detection as read from the graph.
pub struct DetectionSnapshot {
    pub id: String,
    pub device_address: String,
    pub hostname: String,
    pub rule_id: String,
    pub severity: String,
    pub fired_at_ns: i64,
    pub remediation_status: String,
    pub assignment_group: String,
}

/// An incident to open or update: a group of correlated detections and the
/// root among them.
pub struct IncidentCandidate {
    pub id: String,
    pub root_detection_id: String,
    pub root_device_address: String,
    pub root_hostname: String,
    pub root_rule_id: String,
    pub severity: String,
    pub affected_devices: Vec<String>,
    pub correlated_rules: Vec<String>,
    pub remediation_status: String,
    pub assignment_group: String,
    pub started_at_ns: i64,
    pub ended_at_ns: i64,
    pub root_cause_hint: String,
}

/// The position at which a detection fired at `t` is inserted into a list
/// kept in time order: after every detection that fired at or before `t`.
pub open spec fn later_index(s: Seq<DetectionSnapshot>, t: i64) -> int
    decreases s.len(),
{
    if s.len() == 0 {
        0
    } else if s[0].fired_at_ns > t {
        0
    } else {
        1 + later_index(s.drop_first(), t)
    }
}

/// The detections in the order in which they fired; detections that fired
/// at the same time keep their order.
pub open spec fn by_time(s: Seq<DetectionSnapshot>) -> Seq<DetectionSnapshot>
    decreases s.len(),
{
    if s.len() == 0 {
        s
    } else {
        let pre = by_time(s.drop_last());
        pre.insert(later_index(pre, s.last().fired_at_ns), s.last())
    }
}

/// `d` fits in a group that started at most `window` ns before it.
pub open spec fn fits(g: Seq<DetectionSnapshot>, d: DetectionSnapshot, window: int) -> bool {
    d.fired_at_ns - g[0].fired_at_ns <= window
}

/// The newest group that `d` fits in.
pub open spec fn last_fit(gs: Seq<Seq<DetectionSnapshot>>, d: DetectionSnapshot, window: int) -> Option<int>
    decreases gs.len(),
{
    if gs.len() == 0 {
        None
    } else if fits(gs.last(), d, window) {
        Some(gs.len() - 1)
    } else {
        last_fit(gs.drop_last(), d, window)
    }
}

/// The groups after `d` joins the newest group it fits in, or starts one.
pub open spec fn add_to_groups(gs: Seq<Seq<DetectionSnapshot>>, d: DetectionSnapshot, window: int) -> Seq<Seq<DetectionSnapshot>> {
    match last_fit(gs, d, window) {
        Some(i) => gs.update(i, gs[i].push(d)),
        None => gs.push(seq![d]),
    }
}

/// The groups of detections taken in order.
pub open spec fn groups_of(s: Seq<DetectionSnapshot>, window: int) -> Seq<Seq<DetectionSnapshot>>
    decreases s.len(),
{
    if s.len() == 0 {
        Seq::empty()
    } else {
        add_to_groups(groups_of(s.drop_last(), window), s.last(), window)
    }
}

/// All the detections of the groups, with their multiplicities.
pub open spec fn members(gs: Seq<Seq<DetectionSnapshot>>) -> vstd::multiset::Multiset<DetectionSnapshot>
    decreases gs.len(),
{
    if gs.len() == 0 {
        vstd::multiset::Multiset::empty()
    } else {
        members(gs.drop_last()).add(gs.last().to_multiset())
    }
}

/// Adding `d` to group `i` adds `d` to the members.
proof fn lemma_members_join(gs: Seq<Seq<DetectionSnapshot>>, i: int, d: DetectionSnapshot)
    requires
        0 <= i < gs.len(),
    ensures
        members(gs.update(i, gs[i].push(d))) =~= members(gs).insert(d),
    decreases gs.len(),
{
    broadcast use vstd::seq_lib::group_to_multiset_ensures;
    let u = gs.update(i, gs[i].push(d));
    if i == gs.len() - 1 {
        assert(u.drop_last() =~= gs.drop_last());
        assert(u.last() == gs[i].push(d));
    } else {
        assert(u.drop_last() =~= gs.drop_last().update(i, gs.drop_last()[i].push(d)));
        lemma_members_join(gs.drop_last(), i, d);
        assert(u.last() == gs.last());
    }
}

/// Every group holds a detection, and each member fired at most `window`
/// after the group's first.
pub open spec fn groups_within(gs: Seq<Seq<DetectionSnapshot>>, window: int) -> bool {
    forall|k: int| 0 <= k < gs.len() ==> {
        &&& (#[trigger] gs[k]).len() > 0
        &&& forall|j: int| 0 <= j < gs[k].len() ==> (#[trigger] gs[k][j]).fired_at_ns - gs[k][0].fired_at_ns <= window
    }
}

proof fn lemma_last_fit_fits(gs: Seq<Seq<DetectionSnapshot>>, d: DetectionSnapshot, window: int)
    ensures
        last_fit(gs, d, window) matches Some(i) ==> 0 <= i < gs.len() && fits(gs[i], d, window),
    decreases gs.len(),
{
    if gs.len() > 0 && !fits(gs.last(), d, window) {
        lemma_last_fit_fits(gs.drop_last(), d, window);
    }
}

proof fn lemma_groups_of_partition(s: Seq<DetectionSnapshot>, window: int)
    requires
        window >= 0,
    ensures
        members(groups_of(s, window)) =~= s.to_multiset(),
        groups_within(groups_of(s, window), window),
    decreases s.len(),
{
    broadcast use vstd::seq_lib::group_to_multiset_ensures;
    if s.len() > 0 {
        let pre = groups_of(s.drop_last(), window);
        let d = s.last();
        lemma_groups_of_partition(s.drop_last(), window);
        lemma_last_fit_fits(pre, d, window);
        assert(s =~= s.drop_last().push(d));
        match last_fit(pre, d, window) {
            Some(i) => {
                lemma_members_join(pre, i, d);
                let u = pre.update(i, pre[i].push(d));
                assert forall|k: int| 0 <= k < u.len() implies {
                    &&& (#[trigger] u[k]).len() > 0
                    &&& forall|j: int| 0 <= j < u[k].len() ==> (#[trigger] u[k][j]).fired_at_ns - u[k][0].fired_at_ns <= window
                } by {
                    if k == i {
                        assert forall|j: int| 0 <= j < u[k].len() implies (#[trigger] u[k][j]).fired_at_ns - u[k][0].fired_at_ns
                            <= window by {
                            if j < pre[i].len() {
                                assert(u[k][j] == pre[i][j]);
                            }
                        }
                    }
                }
            },
            None => {
                let u = pre.push(seq![d]);
                assert(u.drop_last() =~= pre);
                assert(seq![d].to_multiset() =~= vstd::multiset::Multiset::empty().insert(d));
                assert forall|k: int| 0 <= k < u.len() implies {
                    &&& (#[trigger] u[k]).len() > 0
                    &&& forall|j: int| 0 <= j < u[k].len() ==> (#[trigger] u[k][j]).fired_at_ns - u[k][0].fired_at_ns <= window
                } by {
                    if k < pre.len() {
                        assert(u[k] == pre[k]);
                    }
                }
            },
        }
    }
}

/// The grouping partitions the detections: every detection lands in exactly
/// one group (the groups' members are the detections, counted with
/// multiplicity), no group is empty, and every member fired at most the
/// window after its group's first and earliest detection.
pub proof fn lemma_grouping_partitions(detections: Seq<DetectionSnapshot>, window_secs: u64)
    requires
        window_ns(window_secs) >= 0,
    ensures
        members(groups_of(by_time(detections), window_ns(window_secs))) == detections.to_multiset(),
        groups_within(groups_of(by_time(detections), window_ns(window_secs)), window_ns(window_secs)),
{
    lemma_by_time_ordered(detections);
    lemma_groups_of_partition(by_time(detections), window_ns(window_secs));
}

/// The correlation window in ns: `secs` taken as `i64` (two's complement)
/// times 10^9, saturating.
pub open spec fn window_ns(secs: u64) -> int {
    let s: int = if secs <= i64::MAX { secs as int } else { secs - 0x1_0000_0000_0000_0000 };
    let p = s * 1_000_000_000;
    if p > i64::MAX {
        i64::MAX as int
    } else if p < i64::MIN {
        i64::MIN as int
    } else {
        p
    }
}

/// The interface degree of a device: its first entry, zero when absent.
pub open spec fn degree_of(m: Seq<(String, usize)>, dev: Seq<char>) -> int
    decreases m.len(),
{
    if m.len() == 0 {
        0
    } else if m[0].0@ == dev {
        m[0].1 as int
    } else {
        degree_of(m.drop_first(), dev)
    }
}

/// The root key of `a` is at most that of `b`: a lower degree, or the same
/// degree and a later (or equal) firing time.
pub open spec fn root_key_le(m: Seq<(String, usize)>, a: DetectionSnapshot, b: DetectionSnapshot) -> bool {
    degree_of(m, a.device_address@) < degree_of(m, b.device_address@) || (degree_of(m, a.device_address@)
        == degree_of(m, b.device_address@) && a.fired_at_ns >= b.fired_at_ns)
}

/// `r` is the root of `g`: its key is maximal (highest degree, then earliest),
/// and it is the last detection with that key.
pub open spec fn is_root_index(g: Seq<DetectionSnapshot>, m: Seq<(String, usize)>, r: int) -> bool {
    &&& 0 <= r < g.len()
    &&& forall|j: int| 0 <= j < g.len() ==> root_key_le(m, #[trigger] g[j], g[r])
    &&& forall|j: int| r < j < g.len() ==> !root_key_le(m, g[r], #[trigger] g[j])
}

/// The severity of highest rank; the last one among equals.
pub open spec fn max_severity(s: Seq<Seq<char>>) -> Seq<char>
    decreases s.len(),
{
    if s.len() == 0 {
        "info"@
    } else if s.len() == 1 {
        s[0]
    } else {
        let m = max_severity(s.drop_last());
        if severity_rank(s.last()) >= severity_rank(m) {
            s.last()
        } else {
            m
        }
    }
}

/// The first non-empty remediation status, or `none`.
pub open spec fn first_status(s: Seq<DetectionSnapshot>) -> Seq<char>
    decreases s.len(),
{
    if s.len() == 0 {
        "none"@
    } else if s[0].remediation_status@.len() > 0 {
        s[0].remediation_status@
    } else {
        first_status(s.drop_first())
    }
}

pub open spec fn device_views(s: Seq<DetectionSnapshot>) -> Seq<Seq<char>> {
    s.map_values(|d: DetectionSnapshot| d.device_address@)
}

pub open spec fn rule_views(s: Seq<DetectionSnapshot>) -> Seq<Seq<char>> {
    s.map_values(|d: DetectionSnapshot| d.rule_id@)
}

pub open spec fn severity_views(s: Seq<DetectionSnapshot>) -> Seq<Seq<char>> {
    s.map_values(|d: DetectionSnapshot| d.severity@)
}

/// `c` is the incident of group `g` with root index `r`; its root cause hint
/// is left empty for the caller, who asks the graph about the root device.
pub open spec fn incident_of(c: IncidentCandidate, g: Seq<DetectionSnapshot>, m: Seq<(String, usize)>, r: int) -> bool {
    let root = g[r];
    let rest = g.remove(r);
    let ordered = seq![root] + rest;
    &&& is_root_index(g, m, r)
    &&& c.id@ == root.id@
    &&& c.root_detection_id@ == root.id@
    &&& c.root_device_address@ == root.device_address@
    &&& c.root_hostname@ == root.hostname@
    &&& c.root_rule_id@ == root.rule_id@
    &&& c.severity@ == max_severity(severity_views(ordered))
    &&& strictly_sorted(views(c.affected_devices@))
    &&& views(c.affected_devices@).to_set() == device_views(ordered).to_set()
    &&& strictly_sorted(views(c.correlated_rules@))
    &&& views(c.correlated_rules@).to_set() == rule_views(ordered).to_set()
    &&& c.remediation_status@ == first_status(ordered)
    &&& c.assignment_group@ == (if trim(root.assignment_group@).len() > 0 {
        root.assignment_group@
    } else {
        Seq::empty()
    })
    &&& c.started_at_ns == root.fired_at_ns
    &&& c.ended_at_ns == (if rest.len() > 0 {
        rest.last().fired_at_ns
    } else {
        root.fired_at_ns
    })
}

/// `c` is the incident of group `g` around its root.
pub open spec fn incident_of_group(c: IncidentCandidate, g: Seq<DetectionSnapshot>, m: Seq<(String, usize)>) -> bool {
    exists|r: int| incident_of(c, g, m, r)
}

/// Any two detections fired within `i64` range of each other, and no firing
/// time is `i64::MIN` (whose negation the root key takes).
pub open spec fn times_in_range(s: Seq<DetectionSnapshot>) -> bool {
    &&& forall|i: int, j: int| 0 <= i < s.len() && 0 <= j < s.len() ==>
        #[trigger] s[i].fired_at_ns - #[trigger] s[j].fired_at_ns <= i64::MAX
    &&& forall|i: int| 0 <= i < s.len() ==> #[trigger] s[i].fired_at_ns != i64::MIN
}

/// `x` is one of the first `n` elements of `s`.
pub open spec fn in_prefix(s: Seq<DetectionSnapshot>, n: int, x: DetectionSnapshot) -> bool {
    exists|k: int| 0 <= k < n && s[k] == x
}

pub open spec fn group_views(gs: Seq<Vec<DetectionSnapshot>>) -> Seq<Seq<DetectionSnapshot>> {
    gs.map_values(|g: Vec<DetectionSnapshot>| g@)
}

/// Sorts detections by firing time, keeping the order of simultaneous ones.
fn sort_by_time(v: Vec<DetectionSnapshot>) -> (r: Vec<DetectionSnapshot>)
    ensures
        r@ == by_time(v@),
        r@.len() == v@.len(),
        forall|i: int| 0 <= i < r@.len() ==> in_prefix(v@, v@.len() as int, #[trigger] r@[i]),
{
    let ghost orig = v@;
    let total: usize = v.len();
    let mut v = v;
    let mut out: Vec<DetectionSnapshot> = Vec::new();
    let mut i: usize = 0;
    while v.len() > 0
        invariant
            i <= orig.len(),
            v@ == orig.subrange(i as int, orig.len() as int),
            out@ == by_time(orig.subrange(0, i as int)),
            out@.len() == i,
            orig.len() <= usize::MAX,
            forall|k: int| 0 <= k < out@.len() ==> in_prefix(orig, i as int, #[trigger] out@[k]),
        decreases v@.len(),
    {
        let d = v.remove(0);
        let t = d.fired_at_ns;
        let mut p: usize = 0;
        proof {
            assert(out@.skip(0) =~= out@);
        }
        while p < out.len() && out[p].fired_at_ns <= t
            invariant
                p <= out@.len(),
                later_index(out@, t) == p + later_index(out@.skip(p as int), t),
            decreases out@.len() - p,
        {
            proof {
                assert(out@.skip(p as int).drop_first() =~= out@.skip(p + 1));
            }
            p = p + 1;
        }
        proof {
            if p < out@.len() {
                assert(out@.skip(p as int)[0] == out@[p as int]);
            }
            let pre = orig.subrange(0, i as int);
            assert(orig.subrange(0, i + 1).drop_last() =~= pre);
            assert(orig.subrange(0, i + 1).last() == d);
        }
        let ghost before = out@;
        out.insert(p, d);
        proof {
            assert forall|k: int| 0 <= k < out@.len() implies in_prefix(orig, i + 1, #[trigger] out@[k]) by {
                if k < p {
                    assert(out@[k] == before[k]);
                    assert(in_prefix(orig, i as int, before[k]));
                    let q = choose|q: int| 0 <= q < i && orig[q] == before[k];
                } else if k > p {
                    assert(out@[k] == before[k - 1]);
                    assert(in_prefix(orig, i as int, before[k - 1]));
                    let q = choose|q: int| 0 <= q < i && orig[q] == before[k - 1];
                } else {
                    assert(orig[i as int] == d);
                }
            }
        }
        i = i + 1;
    }
    proof {
        assert(orig.subrange(0, orig.len() as int) =~= orig);
    }
    out
}

/// The correlation window in ns.
fn window_nanos(secs: u64) -> (r: i64)
    ensures
        r == window_ns(secs),
{
    if secs <= 9_223_372_036 {
        (secs as i64) * 1_000_000_000
    } else if secs <= 0x7fff_ffff_ffff_ffff {
        i64::MAX
    } else {
        let neg: u64 = (u64::MAX - secs) + 1;
        if neg <= 9_223_372_036 {
            -((neg as i64) * 1_000_000_000)
        } else {
            i64::MIN
        }
    }
}

/// Groups time-ordered detections by the correlation window.
fn group_by_window(sorted: Vec<DetectionSnapshot>, window: i64) -> (r: Vec<Vec<DetectionSnapshot>>)
    requires
        times_in_range(sorted@),
    ensures
        group_views(r@) == groups_of(sorted@, window as int),
        forall|g: int| 0 <= g < r@.len() ==> (#[trigger] r@[g])@.len() > 0,
        forall|g: int, k: int| 0 <= g < r@.len() && 0 <= k < r@[g]@.len() ==>
            in_prefix(sorted@, sorted@.len() as int, #[trigger] r@[g]@[k]),
{
    let ghost orig = sorted@;
    let total: usize = sorted.len();
    let mut v = sorted;
    let mut groups: Vec<Vec<DetectionSnapshot>> = Vec::new();
    let mut i: usize = 0;
    while v.len() > 0
        invariant
            times_in_range(orig),
            i <= orig.len(),
            v@ == orig.subrange(i as int, orig.len() as int),
            orig.len() <= usize::MAX,
            group_views(groups@) == groups_of(orig.subrange(0, i as int), window as int),
            forall|g: int| 0 <= g < groups@.len() ==> (#[trigger] groups@[g])@.len() > 0,
            forall|g: int, k: int| 0 <= g < groups@.len() && 0 <= k < groups@[g]@.len() ==>
                in_prefix(orig, i as int, #[trigger] groups@[g]@[k]),
        decreases v@.len(),
    {
        let d = v.remove(0);
        assert(d == orig[i as int]);
        let ghost gv = group_views(groups@);
        let mut j: usize = groups.len();
        let mut found = false;
        proof {
            assert(gv.take(j as int) =~= gv);
        }
        while j > 0 && !found
            invariant
                found ==> j > 0 && fits(gv[j - 1], d, window as int),
                times_in_range(orig),
                d == orig[i as int],
                i < orig.len(),
                j <= groups@.len(),
                gv == group_views(groups@),
                forall|g: int| 0 <= g < groups@.len() ==> (#[trigger] groups@[g])@.len() > 0,
                forall|g: int, k: int| 0 <= g < groups@.len() && 0 <= k < groups@[g]@.len() ==>
                    in_prefix(orig, i as int, #[trigger] groups@[g]@[k]),
                last_fit(gv, d, window as int) == last_fit(gv.take(j as int), d, window as int),
            decreases j + (if found { 0int } else { 1int }),
        {
            let first = &groups[j - 1][0];
            proof {
                assert(groups@[j - 1]@.len() > 0);
                assert(in_prefix(orig, i as int, groups@[j - 1]@[0]));
                let q = choose|q: int| 0 <= q < i && orig[q] == groups@[j - 1]@[0];
                assert(orig[i as int].fired_at_ns - orig[q].fired_at_ns <= i64::MAX);
                assert(orig[q].fired_at_ns - orig[i as int].fired_at_ns <= i64::MAX);
                assert(gv.take(j as int).last() == gv[j - 1]);
                assert(gv.take(j as int).drop_last() =~= gv.take(j - 1));
            }
            if d.fired_at_ns - first.fired_at_ns <= window {
                found = true;
            } else {
                j = j - 1;
            }
        }
        proof {
            let pre = orig.subrange(0, i as int);
            assert(orig.subrange(0, i + 1).drop_last() =~= pre);
            assert(orig.subrange(0, i + 1).last() == d);
            if !found {
                assert(gv.take(0) =~= Seq::<Seq<DetectionSnapshot>>::empty());
            }
        }
        let ghost before = groups@;
        if found {
            proof {
                assert(gv.take(j as int).last() == gv[j - 1]);
                assert(last_fit(gv, d, window as int) == Some(j - 1));
            }
            let mut g = groups.remove(j - 1);
            g.push(d);
            groups.insert(j - 1, g);
            proof {
                assert(group_views(groups@) =~= gv.update(j - 1, gv[j - 1].push(d)));
                assert forall|a: int, k: int| 0 <= a < groups@.len() && 0 <= k < groups@[a]@.len() implies
                    in_prefix(orig, i + 1, #[trigger] groups@[a]@[k]) by {
                    if a == j - 1 && k == groups@[a]@.len() - 1 {
                        assert(groups@[a]@[k] == d);
                    } else {
                        assert(groups@[a]@[k] == before[a]@[k]);
                        assert(in_prefix(orig, i as int, before[a]@[k]));
                        let q = choose|q: int| 0 <= q < i && orig[q] == before[a]@[k];
                    }
                }
            }
        } else {
            let mut g: Vec<DetectionSnapshot> = Vec::new();
            g.push(d);
            groups.push(g);
            proof {
                assert(group_views(groups@) =~= gv.push(seq![d]));
                assert forall|a: int, k: int| 0 <= a < groups@.len() && 0 <= k < groups@[a]@.len() implies
                    in_prefix(orig, i + 1, #[trigger] groups@[a]@[k]) by {
                    if a == groups@.len() - 1 {
                        assert(groups@[a]@[k] == d);
                    } else {
                        assert(groups@[a] == before[a]);
                        assert(in_prefix(orig, i as int, before[a]@[k]));
                        let q = choose|q: int| 0 <= q < i && orig[q] == before[a]@[k];
                    }
                }
            }
        }
        i = i + 1;
    }
    proof {
        assert(orig.subrange(0, orig.len() as int) =~= orig);
    }
    groups
}

/// The degree of `dev` in the degree map.
fn degree_lookup(m: &Vec<(String, usize)>, dev: &str) -> (r: usize)
    ensures
        r as int == degree_of(m@, dev@),
{
    let mut i: usize = 0;
    proof {
        assert(m@.skip(0) =~= m@);
    }
    while i < m.len()
        invariant
            i <= m@.len(),
            degree_of(m@, dev@) == degree_of(m@.skip(i as int), dev@),
        decreases m@.len() - i,
    {
        proof {
            assert(m@.skip(i as int)[0] == m@[i as int]);
            assert(m@.skip(i as int).drop_first() =~= m@.skip(i + 1));
        }
        if crate::text::str_eq(m[i].0.as_str(), dev) {
            return m[i].1;
        }
        i = i + 1;
    }
    0
}

/// The index of the root of a non-empty group.
fn root_index(g: &Vec<DetectionSnapshot>, m: &Vec<(String, usize)>) -> (r: usize)
    requires
        g@.len() > 0,
    ensures
        is_root_index(g@, m@, r as int),
{
    let mut best: usize = 0;
    let mut best_deg = degree_lookup(m, g[0].device_address.as_str());
    let mut j: usize = 1;
    while j < g.len()
        invariant
            1 <= j <= g@.len(),
            best < j,
            best_deg as int == degree_of(m@, g@[best as int].device_address@),
            forall|k: int| 0 <= k < j ==> root_key_le(m@, #[trigger] g@[k], g@[best as int]),
            forall|k: int| best < k < j ==> !root_key_le(m@, g@[best as int], #[trigger] g@[k]),
        decreases g@.len() - j,
    {
        let dj = degree_lookup(m, g[j].device_address.as_str());
        if best_deg < dj || (best_deg == dj && g[best].fired_at_ns >= g[j].fired_at_ns) {
            best = j;
            best_deg = dj;
        }
        j = j + 1;
    }
    best
}

/// The severity of highest rank among `sevs`, the last among equals.
fn max_severity_of(sevs: &Vec<String>) -> (r: String)
    ensures
        r@ == max_severity(views(sevs@)),
{
    if sevs.len() == 0 {
        return owned("info");
    }
    let mut best: usize = 0;
    let mut j: usize = 1;
    while j < sevs.len()
        invariant
            1 <= j <= sevs@.len(),
            best < j,
            sevs@[best as int]@ == max_severity(views(sevs@.subrange(0, j as int))),
        decreases sevs@.len() - j,
    {
        proof {
            let pre = views(sevs@.subrange(0, j + 1));
            assert(pre.drop_last() =~= views(sevs@.subrange(0, j as int)));
            assert(pre.last() == sevs@[j as int]@);
        }
        if rank_of(sevs[j].as_str()) >= rank_of(sevs[best].as_str()) {
            best = j;
        }
        j = j + 1;
    }
    proof {
        assert(sevs@.subrange(0, sevs@.len() as int) =~= sevs@);
    }
    sevs[best].clone()
}

/// The incident of a non-empty group; its root cause hint is left empty.
fn incident_for_group(g: Vec<DetectionSnapshot>, m: &Vec<(String, usize)>) -> (c: IncidentCandidate)
    requires
        g@.len() > 0,
    ensures
        incident_of_group(c, g@, m@),
{
    let ghost gs = g@;
    let r = root_index(&g, m);
    let mut rest = g;
    let root = rest.remove(r);
    let ghost ordered = seq![root] + rest@;
    assert(rest@ == gs.remove(r as int));
    let mut devices: Vec<String> = Vec::new();
    let mut rules: Vec<String> = Vec::new();
    let mut sevs: Vec<String> = Vec::new();
    devices.push(root.device_address.clone());
    rules.push(root.rule_id.clone());
    sevs.push(root.severity.clone());
    let mut status: Option<String> = if !root.remediation_status.as_str().is_empty() {
        Some(root.remediation_status.clone())
    } else {
        None
    };
    proof {
        assert(views(devices@) =~= device_views(ordered.subrange(0, 1)));
        assert(views(rules@) =~= rule_views(ordered.subrange(0, 1)));
        assert(views(sevs@) =~= severity_views(ordered.subrange(0, 1)));
        assert(ordered[0] == root);
        assert(rest@.skip(0) =~= rest@);
        assert(root.remediation_status@.len() == 0 ==> first_status(ordered) == first_status(rest@)) by {
            assert(ordered.drop_first() =~= rest@);
        }
    }
    let mut k: usize = 0;
    while k < rest.len()
        invariant
            ordered == seq![root] + rest@,
            k <= rest@.len(),
            views(devices@) == device_views(ordered.subrange(0, k + 1)),
            views(rules@) == rule_views(ordered.subrange(0, k + 1)),
            views(sevs@) == severity_views(ordered.subrange(0, k + 1)),
            match status {
                Some(s) => s@ == first_status(ordered),
                None => first_status(ordered) == first_status(rest@.skip(k as int)),
            },
        decreases rest@.len() - k,
    {
        let d = &rest[k];
        let ghost bd = devices@;
        let ghost br = rules@;
        let ghost bs = sevs@;
        devices.push(d.device_address.clone());
        rules.push(d.rule_id.clone());
        sevs.push(d.severity.clone());
        proof {
            let nxt = ordered.subrange(0, k + 2);
            assert(nxt =~= ordered.subrange(0, k + 1).push(rest@[k as int]));
            assert(views(devices@) =~= views(bd).push(d.device_address@));
            assert(views(rules@) =~= views(br).push(d.rule_id@));
            assert(views(sevs@) =~= views(bs).push(d.severity@));
            assert(device_views(nxt) =~= device_views(ordered.subrange(0, k + 1)).push(d.device_address@));
            assert(rule_views(nxt) =~= rule_views(ordered.subrange(0, k + 1)).push(d.rule_id@));
            assert(severity_views(nxt) =~= severity_views(ordered.subrange(0, k + 1)).push(d.severity@));
            assert(rest@.skip(k as int)[0] == rest@[k as int]);
            assert(rest@.skip(k as int).drop_first() =~= rest@.skip(k + 1));
        }
        if status.is_none() && !d.remediation_status.as_str().is_empty() {
            status = Some(d.remediation_status.clone());
        }
        k = k + 1;
    }
    proof {
        assert(ordered.subrange(0, rest@.len() + 1 as int) =~= ordered);
        assert(rest@.skip(rest@.len() as int) =~= Seq::<DetectionSnapshot>::empty());
    }
    let remediation_status = match status {
        Some(s) => s,
        None => owned("none"),
    };
    let ag_chars = chars_of(root.assignment_group.as_str());
    let ag_trim = trim_chars(ag_chars.as_slice());
    let assignment_group = if ag_trim.len() > 0 {
        root.assignment_group.clone()
    } else {
        String::new()
    };
    let ended_at_ns = if rest.len() > 0 {
        rest[rest.len() - 1].fired_at_ns
    } else {
        root.fired_at_ns
    };
    let severity = max_severity_of(&sevs);
    let affected = sorted_unique_strings(devices);
    let correlated = sorted_unique_strings(rules);
    let c = IncidentCandidate {
        id: root.id.clone(),
        root_detection_id: root.id.clone(),
        root_device_address: root.device_address.clone(),
        root_hostname: root.hostname.clone(),
        root_rule_id: root.rule_id.clone(),
        severity,
        affected_devices: affected,
        correlated_rules: correlated,
        remediation_status,
        assignment_group,
        started_at_ns: root.fired_at_ns,
        ended_at_ns,
        root_cause_hint: String::new(),
    };
    proof {
        assert(views(c.affected_devices@) =~= string_views(c.affected_devices@));
        assert(views(c.correlated_rules@) =~= string_views(c.correlated_rules@));
        assert(incident_of(c, gs, m@, r as int));
    }
    c
}

/// Groups recent detections into incidents: detections taken in time order
/// join the newest group that started at most the correlation window before
/// them, or start a new group; each group becomes one incident around its
/// root (highest interface degree, then earliest). The root cause hints are
/// left empty here; `group_detections` fills them.
pub fn group_incidents(
    detections: Vec<DetectionSnapshot>,
    window_secs: u64,
    degree_map: &Vec<(String, usize)>,
) -> (r: Vec<IncidentCandidate>)
    requires
        times_in_range(detections@),
    ensures
        r@.len() == groups_of(by_time(detections@), window_ns(window_secs)).len(),
        forall|i: int| 0 <= i < r@.len() ==>
            incident_of_group(#[trigger] r@[i], groups_of(by_time(detections@), window_ns(window_secs))[i], degree_map@),
{
    let ghost input = detections@;
    let sorted = sort_by_time(detections);
    proof {
        assert forall|i: int, j: int| 0 <= i < sorted@.len() && 0 <= j < sorted@.len() implies
            #[trigger] sorted@[i].fired_at_ns - #[trigger] sorted@[j].fired_at_ns <= i64::MAX by {
            assert(in_prefix(input, input.len() as int, sorted@[i]));
            assert(in_prefix(input, input.len() as int, sorted@[j]));
            let a = choose|a: int| 0 <= a < input.len() && input[a] == sorted@[i];
            let b = choose|b: int| 0 <= b < input.len() && input[b] == sorted@[j];
            assert(input[a].fired_at_ns - input[b].fired_at_ns <= i64::MAX);
        }
        assert forall|i: int| 0 <= i < sorted@.len() implies #[trigger] sorted@[i].fired_at_ns != i64::MIN by {
            assert(in_prefix(input, input.len() as int, sorted@[i]));
            let a = choose|a: int| 0 <= a < input.len() && input[a] == sorted@[i];
            assert(input[a].fired_at_ns != i64::MIN);
        }
    }
    let window = window_nanos(window_secs);
    let ghost gsv = groups_of(sorted@, window as int);
    let mut groups = group_by_window(sorted, window);
    let ghost n = groups@.len();
    let mut out: Vec<IncidentCandidate> = Vec::new();
    let mut rev: Vec<IncidentCandidate> = Vec::new();
    while groups.len() > 0
        invariant
            groups@.len() + rev@.len() == n,
            n == gsv.len(),
            forall|g: int| 0 <= g < groups@.len() ==> (#[trigger] groups@[g])@ == gsv[g],
            forall|g: int| 0 <= g < groups@.len() ==> (#[trigger] groups@[g])@.len() > 0,
            forall|t: int| 0 <= t < rev@.len() ==> incident_of_group(#[trigger] rev@[t], gsv[n - 1 - t], degree_map@),
        decreases groups@.len(),
    {
        let ghost before = groups@;
        let g = groups.pop().unwrap();
        proof {
            assert(groups@ =~= before.drop_last());
            assert(g@ == gsv[before.len() - 1]);
            assert(g@.len() > 0);
        }
        let c = incident_for_group(g, degree_map);
        rev.push(c);
    }
    while rev.len() > 0
        invariant
            out@.len() + rev@.len() == n,
            n == gsv.len(),
            forall|t: int| 0 <= t < rev@.len() ==> incident_of_group(#[trigger] rev@[t], gsv[n - 1 - t], degree_map@),
            forall|i: int| 0 <= i < out@.len() ==> incident_of_group(#[trigger] out@[i], gsv[i], degree_map@),
        decreases rev@.len(),
    {
        let ghost before = rev@;
        let c = rev.pop().unwrap();
        proof {
            assert(rev@ =~= before.drop_last());
            assert(incident_of_group(before[before.len() - 1], gsv[n - 1 - (before.len() - 1)], degree_map@));
        }
        out.push(c);
    }
    out
}

/// `f` may answer `h` for the device `dev`.
pub open spec fn hint_given<F: Fn(&str) -> Result<String, String>>(f: F, dev: Seq<char>, h: String) -> bool {
    exists|a: &str| a@ == dev && call_ensures(f, (a,), Ok::<String, String>(h))
}

/// `f` may fail with `e` for the device `dev`.
pub open spec fn hint_failed<F: Fn(&str) -> Result<String, String>>(f: F, dev: Seq<char>, e: String) -> bool {
    exists|a: &str| a@ == dev && call_ensures(f, (a,), Err::<String, String>(e))
}

/// The root device of group `g` got a hint from `f`.
pub open spec fn hinted_ok<F: Fn(&str) -> Result<String, String>>(f: F, g: Seq<DetectionSnapshot>, m: Seq<(String, usize)>) -> bool {
    exists|dev: Seq<char>, h: String| root_device_of(g, m, dev) && hint_given(f, dev, h)
}

/// The device address at the root of group `g`.
pub open spec fn root_device_of(g: Seq<DetectionSnapshot>, m: Seq<(String, usize)>, dev: Seq<char>) -> bool {
    exists|ri: int| is_root_index(g, m, ri) && g[ri].device_address@ == dev
}

/// The incidents of the detections, as `group_incidents` forms them, each
/// with the root cause hint that `root_cause_hint` gives for its root
/// device. The hint is asked for once per incident, in order, and the first
/// failure is returned as it came, with no more hints asked for.
pub fn group_detections<F: Fn(&str) -> Result<String, String>>(
    detections: Vec<DetectionSnapshot>,
    window_secs: u64,
    degree_map: &Vec<(String, usize)>,
    root_cause_hint: F,
) -> (r: Result<Vec<IncidentCandidate>, String>)
    requires
        times_in_range(detections@),
        forall|a: &str| #[trigger] call_requires(root_cause_hint, (a,)),
    ensures
        match r {
            Ok(v) => {
                &&& v@.len() == groups_of(by_time(detections@), window_ns(window_secs)).len()
                &&& forall|i: int| 0 <= i < v@.len() ==> incident_of_group(
                    #[trigger] v@[i],
                    groups_of(by_time(detections@), window_ns(window_secs))[i],
                    degree_map@,
                )
                &&& forall|i: int| 0 <= i < v@.len() ==> hint_given(
                    root_cause_hint,
                    (#[trigger] v@[i]).root_device_address@,
                    v@[i].root_cause_hint,
                )
            },
            Err(e) => exists|k: int, dev: Seq<char>|
                #![trigger root_device_of(groups_of(by_time(detections@), window_ns(window_secs))[k], degree_map@, dev)]
                0 <= k < groups_of(by_time(detections@), window_ns(window_secs)).len() && root_device_of(
                    groups_of(by_time(detections@), window_ns(window_secs))[k],
                    degree_map@,
                    dev,
                ) && hint_failed(root_cause_hint, dev, e) && forall|j: int| 0 <= j < k ==> hinted_ok(
                    root_cause_hint,
                    #[trigger] groups_of(by_time(detections@), window_ns(window_secs))[j],
                    degree_map@,
                ),
        },
{
    let ghost gs = groups_of(by_time(detections@), window_ns(window_secs));
    let mut pending = group_incidents(detections, window_secs, degree_map);
    let ghost all = pending@;
    let n = pending.len();
    let mut out: Vec<IncidentCandidate> = Vec::new();
    let mut i: usize = 0;
    while i < n
        invariant
            gs == groups_of(by_time(detections@), window_ns(window_secs)),
            n == all.len(),
            all.len() == gs.len(),
            i <= n,
            pending@ == all.skip(i as int),
            out@.len() == i,
            forall|k: int| 0 <= k < all.len() ==> incident_of_group(#[trigger] all[k], gs[k], degree_map@),
            forall|k: int| 0 <= k < i ==> incident_of_group(#[trigger] out@[k], gs[k], degree_map@),
            forall|k: int| 0 <= k < i ==> hint_given(
                root_cause_hint,
                (#[trigger] out@[k]).root_device_address@,
                out@[k].root_cause_hint,
            ),
            forall|a: &str| #[trigger] call_requires(root_cause_hint, (a,)),
        decreases n - i,
    {
        let ghost before = pending@;
        let mut c = pending.remove(0);
        proof {
            assert(c == all[i as int]);
            assert(pending@ =~= all.skip(i + 1));
        }
        let dev = c.root_device_address.as_str();
        let hint = root_cause_hint(dev);
        let ghost hv = hint;
        proof {
            assert(call_ensures(root_cause_hint, (dev,), hv));
            assert(dev@ == c.root_device_address@);
        }
        match hint {
            Ok(h) => {
                let ghost c0 = c;
                c.root_cause_hint = h;
                proof {
                    let ri = choose|ri: int| incident_of(c0, gs[i as int], degree_map@, ri);
                    assert(incident_of(c, gs[i as int], degree_map@, ri));
                }
                let ghost cv = c;
                let ghost out_before = out@;
                out.push(c);
                proof {
                    assert(out@ == out_before.push(cv));
                    assert(hint_given(root_cause_hint, cv.root_device_address@, cv.root_cause_hint));
                    assert forall|k: int| 0 <= k < i + 1 implies hint_given(
                        root_cause_hint,
                        (#[trigger] out@[k]).root_device_address@,
                        out@[k].root_cause_hint,
                    ) by {
                        if k < i {
                            assert(out@[k] == out_before[k]);
                        } else {
                            assert(out@[k] == cv);
                        }
                    }
                }
                i = i + 1;
            },
            Err(e) => {
                proof {
                    let ri = choose|ri: int| incident_of(c, gs[i as int], degree_map@, ri);
                    assert(root_device_of(gs[i as int], degree_map@, dev@));
                    assert(hint_failed(root_cause_hint, dev@, e));
                    assert forall|j: int| 0 <= j < i implies hinted_ok(root_cause_hint, #[trigger] gs[j], degree_map@) by {
                        let rj = choose|rj: int| incident_of(out@[j], gs[j], degree_map@, rj);
                        assert(root_device_of(gs[j], degree_map@, out@[j].root_device_address@));
                        assert(hint_given(root_cause_hint, out@[j].root_device_address@, out@[j].root_cause_hint));
                    }
                }
                return Err(e);
            },
        }
    }
    Ok(out)
}

// ── Texts ────────────────────────────────────────────────────────────────────

/// A device within the blast radius.
pub struct DeviceRef {
    pub address: String,
    pub hostname: String,
    pub vendor: String,
}

/// What the graph knows around a device.
pub struct BlastRadiusResult {
    pub origin_address: String,
    pub origin_hostname: String,
    pub site_name: String,
    pub env_name: String,
    pub reachable_devices: Vec<DeviceRef>,
    pub direct_apps: Vec<String>,
    pub neighbor_apps: Vec<String>,
    pub active_detections: Vec<String>,
}

/// The parts of a root cause hint that have something to say.
pub open spec fn hint_parts(reachable: nat, direct: nat, neighbor: nat, detections: Seq<Seq<char>>) -> Seq<Seq<char>> {
    let a: Seq<Seq<char>> = if reachable > 0 {
        seq![decimal(reachable) + " reachable devices"@]
    } else {
        Seq::empty()
    };
    let b: Seq<Seq<char>> = if direct > 0 || neighbor > 0 {
        seq![
            "applications in blast radius: "@ + decimal(direct) + " direct / "@ + decimal(neighbor)
                + " adjacent"@,
        ]
    } else {
        Seq::empty()
    };
    let c: Seq<Seq<char>> = if detections.len() > 0 {
        seq!["related detections: "@ + join(detections, ", "@)]
    } else {
        Seq::empty()
    };
    a + b + c
}

/// The root cause hint of a blast radius: its parts joined by `; `, or a
/// fixed sentence when there is nothing to say.
pub open spec fn root_cause_hint(reachable: nat, direct: nat, neighbor: nat, detections: Seq<Seq<char>>) -> Seq<char> {
    let parts = hint_parts(reachable, direct, neighbor, detections);
    if parts.len() == 0 {
        "No additional blast-radius context available yet."@
    } else {
        join(parts, "; "@)
    }
}

/// Summarises a blast radius for the incident description.
pub fn format_root_cause_hint(blast: &BlastRadiusResult) -> (r: String)
    ensures
        r@ == root_cause_hint(
            blast.reachable_devices@.len(),
            blast.direct_apps@.len(),
            blast.neighbor_apps@.len(),
            views(blast.active_detections@),
        ),
{
    let mut parts: Vec<String> = Vec::new();
    if blast.reachable_devices.len() > 0 {
        let mut p = u64_to_string(blast.reachable_devices.len() as u64);
        p.append(" reachable devices");
        parts.push(p);
    }
    if blast.direct_apps.len() > 0 || blast.neighbor_apps.len() > 0 {
        let mut p = owned("applications in blast radius: ");
        let d = u64_to_string(blast.direct_apps.len() as u64);
        p.append(d.as_str());
        p.append(" direct / ");
        let n = u64_to_string(blast.neighbor_apps.len() as u64);
        p.append(n.as_str());
        p.append(" adjacent");
        parts.push(p);
    }
    if blast.active_detections.len() > 0 {
        let mut p = owned("related detections: ");
        let j = join_strings(&blast.active_detections, ", ");
        p.append(j.as_str());
        parts.push(p);
    }
    proof {
        let want = hint_parts(
            blast.reachable_devices@.len(),
            blast.direct_apps@.len(),
            blast.neighbor_apps@.len(),
            views(blast.active_detections@),
        );
        assert(views(parts@) =~= want);
    }
    if parts.len() == 0 {
        owned("No additional blast-radius context available yet.")
    } else {
        join_strings(&parts, "; ")
    }
}

/// The description of an incident: root rule, affected devices, correlated
/// rules, remediation status, window, blast radius hint, and how to ask for
/// a playbook.
pub open spec fn incident_description(
    rule: Seq<char>,
    devices: Seq<Seq<char>>,
    rules: Seq<Seq<char>>,
    status: Seq<char>,
    started: i64,
    ended: i64,
    hint: Seq<char>,
) -> Seq<char> {
    "Bonsai correlated detection `"@ + rule + "` as the root cause.\nAffected devices: "@ + join(devices, ", "@)
        + "\nCorrelated rules: "@ + join(rules, ", "@) + "\nRemediation status: "@ + status + "\nIncident window: "@
        + decimal_signed(started as int) + " → "@ + decimal_signed(ended as int) + "\nBlast radius hint: "@ + hint
        + "\nTo request a Bonsai playbook proposal from ServiceNow, add a comment or work note with `"@
        + playbook_prefix() + " <playbook_id>`."@
}

/// Builds the description of an incident.
pub fn build_incident_description(c: &IncidentCandidate) -> (r: String)
    ensures
        r@ == incident_description(
            c.root_rule_id@,
            views(c.affected_devices@),
            views(c.correlated_rules@),
            c.remediation_status@,
            c.started_at_ns,
            c.ended_at_ns,
            c.root_cause_hint@,
        ),
{
    proof {
        reveal_strlit("bonsai:playbook");
    }
    let mut s = owned("Bonsai correlated detection `");
    s.append(c.root_rule_id.as_str());
    s.append("` as the root cause.\nAffected devices: ");
    let devs = join_strings(&c.affected_devices, ", ");
    s.append(devs.as_str());
    s.append("\nCorrelated rules: ");
    let rules = join_strings(&c.correlated_rules, ", ");
    s.append(rules.as_str());
    s.append("\nRemediation status: ");
    s.append(c.remediation_status.as_str());
    s.append("\nIncident window: ");
    let a = i64_to_string(c.started_at_ns);
    s.append(a.as_str());
    s.append(" → ");
    let b = i64_to_string(c.ended_at_ns);
    s.append(b.as_str());
    s.append("\nBlast radius hint: ");
    s.append(c.root_cause_hint.as_str());
    s.append("\nTo request a Bonsai playbook proposal from ServiceNow, add a comment or work note with `");
    s.append("bonsai:playbook");
    s.append(" <playbook_id>`.");
    s
}

/// The node an incident names: the root's hostname, or its address when the
/// hostname is blank.
pub open spec fn incident_node(c: IncidentCandidate) -> Seq<char> {
    if trim(c.root_hostname@).len() == 0 {
        c.root_device_address@
    } else {
        c.root_hostname@
    }
}

/// The short description: the marker with the incident id, then severity,
/// rule and node.
pub open spec fn incident_short_description(c: IncidentCandidate) -> Seq<char> {
    short_desc_prefix() + c.id@ + "] "@ + c.severity@ + " "@ + c.root_rule_id@ + " on "@ + incident_node(c)
}

/// The fields written to a ServiceNow incident.
pub struct IncidentPayload {
    pub short_description: String,
    pub state: String,
    pub category: String,
    pub subcategory: String,
    pub impact: String,
    pub urgency: String,
    pub description: String,
    pub assignment_group: Option<String>,
}

/// The assignment group written: the incident's own when not blank, else the
/// configured fallback when not blank, else none.
pub open spec fn assignment_group_for(own: Seq<char>, fallback: Seq<char>) -> Option<Seq<char>> {
    if trim(own).len() > 0 {
        Some(own)
    } else if trim(fallback).len() > 0 {
        Some(fallback)
    } else {
        None
    }
}

fn is_blank(s: &str) -> (r: bool)
    ensures
        r == (trim(s@).len() == 0),
{
    let c = chars_of(s);
    let t = trim_chars(c.as_slice());
    t.len() == 0
}

/// The fields to write for `c`; an existing incident is written the same
/// fields, which reopens it when it was resolved.
pub fn incident_payload(
    c: &IncidentCandidate,
    open_state: &str,
    assignment_group_fallback: &str,
) -> (r: IncidentPayload)
    ensures
        r.short_description@ == incident_short_description(*c),
        r.state@ == open_state@,
        r.category@ == "network"@,
        r.subcategory@ == "aiops"@,
        r.impact@ == impact_of(c.severity@),
        r.urgency@ == urgency_of(c.severity@),
        r.description@ == incident_description(
            c.root_rule_id@,
            views(c.affected_devices@),
            views(c.correlated_rules@),
            c.remediation_status@,
            c.started_at_ns,
            c.ended_at_ns,
            c.root_cause_hint@,
        ),
        match r.assignment_group {
            Some(g) => assignment_group_for(c.assignment_group@, assignment_group_fallback@) == Some(g@),
            None => assignment_group_for(c.assignment_group@, assignment_group_fallback@) is None,
        },
{
    proof {
        reveal_strlit("[Bonsai incident ");
    }
    let node: &str = if is_blank(c.root_hostname.as_str()) {
        c.root_device_address.as_str()
    } else {
        c.root_hostname.as_str()
    };
    let mut sd = owned("[Bonsai incident ");
    sd.append(c.id.as_str());
    sd.append("] ");
    sd.append(c.severity.as_str());
    sd.append(" ");
    sd.append(c.root_rule_id.as_str());
    sd.append(" on ");
    sd.append(node);
    let group = if !is_blank(c.assignment_group.as_str()) {
        Some(c.assignment_group.clone())
    } else if !is_blank(assignment_group_fallback) {
        Some(owned(assignment_group_fallback))
    } else {
        None
    };
    IncidentPayload {
        short_description: sd,
        state: owned(open_state),
        category: owned("network"),
        subcategory: owned("aiops"),
        impact: owned(severity_to_impact(c.severity.as_str())),
        urgency: owned(severity_to_urgency(c.severity.as_str())),
        description: build_incident_description(c),
        assignment_group: group,
    }
}

// ── The sync cycle ───────────────────────────────────────────────────────────

/// An incident as recorded in the graph.
pub struct LocalIncidentRecord {
    pub id: String,
    pub snow_sys_id: String,
    pub state: String,
    pub detection_id: String,
    pub assignment_group: String,
}

pub open spec fn local_key() -> spec_fn(LocalIncidentRecord) -> Seq<char> {
    |l: LocalIncidentRecord| l.id@
}

/// Whether the local incident `l` is resolved by the sync: it is not among
/// the active incidents and not already resolved.
pub open spec fn to_clear(l: LocalIncidentRecord, active_ids: Seq<Seq<char>>, resolved_state: Seq<char>) -> bool {
    !active_ids.contains(l.id@) && l.state@ != resolved_state
}

fn contains_str(v: &Vec<String>, s: &str) -> (r: bool)
    ensures
        r == views(v@).contains(s@),
{
    let mut i: usize = 0;
    while i < v.len()
        invariant
            i <= v@.len(),
            forall|j: int| 0 <= j < i ==> (#[trigger] v@[j])@ != s@,
        decreases v@.len() - i,
    {
        if str_eq(v[i].as_str(), s) {
            assert(views(v@)[i as int] == s@);
            return true;
        }
        i = i + 1;
    }
    assert forall|j: int| 0 <= j < views(v@).len() implies views(v@)[j] != s@ by {
        assert(views(v@)[j] == v@[j]@);
    }
    false
}

/// The local incidents that the sync resolves when auto-clear is on: those
/// whose detections went quiet, in the order given.
pub fn auto_clear_targets<'a>(
    locals: &'a Vec<LocalIncidentRecord>,
    active_ids: &Vec<String>,
    resolved_state: &str,
) -> (r: Vec<&'a LocalIncidentRecord>)
    ensures
        r@.len() == locals@.filter(|l: LocalIncidentRecord| to_clear(l, views(active_ids@), resolved_state@)).len(),
        forall|j: int| 0 <= j < r@.len() ==>
            *#[trigger] r@[j] == locals@.filter(|l: LocalIncidentRecord| to_clear(l, views(active_ids@), resolved_state@))[j],
{
    let ghost f = |l: LocalIncidentRecord| to_clear(l, views(active_ids@), resolved_state@);
    let mut r: Vec<&LocalIncidentRecord> = Vec::new();
    let mut i: usize = 0;
    while i < locals.len()
        invariant
            f == |l: LocalIncidentRecord| to_clear(l, views(active_ids@), resolved_state@),
            i <= locals@.len(),
            r@.len() == locals@.subrange(0, i as int).filter(f).len(),
            forall|j: int| 0 <= j < r@.len() ==> *#[trigger] r@[j] == locals@.subrange(0, i as int).filter(f)[j],
        decreases locals@.len() - i,
    {
        proof {
            assert(locals@.subrange(0, i + 1) =~= locals@.subrange(0, i as int).push(locals@[i as int]));
            locals@.subrange(0, i as int).lemma_filter_push(locals@[i as int], f);
        }
        let l = &locals[i];
        if !contains_str(active_ids, l.id.as_str()) && !str_eq(l.state.as_str(), resolved_state) {
            r.push(l);
        }
        i = i + 1;
    }
    assert(locals@.subrange(0, locals@.len() as int) =~= locals@);
    r
}

/// The first active incident with id `id`.
pub open spec fn first_candidate(active: Seq<IncidentCandidate>, id: Seq<char>) -> Option<IncidentCandidate>
    decreases active.len(),
{
    if active.len() == 0 {
        None
    } else if active[0].id@ == id {
        Some(active[0])
    } else {
        first_candidate(active.drop_first(), id)
    }
}

/// The detection that a playbook request on incident `id` concerns: the one
/// the local incident records, else the root of the active incident.
pub open spec fn bridge_detection(
    id: Seq<char>,
    locals: Seq<LocalIncidentRecord>,
    active: Seq<IncidentCandidate>,
) -> Option<Seq<char>> {
    match find_keyed(locals, local_key(), id) {
        Some(l) => Some(l.detection_id@),
        None => match first_candidate(active, id) {
            Some(c) => Some(c.root_detection_id@),
            None => None,
        },
    }
}

fn find_local(locals: &Vec<LocalIncidentRecord>, id: &str) -> (r: Option<usize>)
    ensures
        match r {
            Some(i) => i < locals@.len() && find_keyed(locals@, local_key(), id@) == Some(locals@[i as int]),
            None => find_keyed(locals@, local_key(), id@) is None,
        },
{
    let mut i: usize = locals.len();
    assert(locals@.subrange(0, i as int) =~= locals@);
    while i > 0
        invariant
            i <= locals@.len(),
            find_keyed(locals@, local_key(), id@) == find_keyed(locals@.subrange(0, i as int), local_key(), id@),
        decreases i,
    {
        let j = i - 1;
        assert(locals@.subrange(0, i as int).last() == locals@[j as int]);
        assert(locals@.subrange(0, i as int).drop_last() =~= locals@.subrange(0, j as int));
        if str_eq(locals[j].id.as_str(), id) {
            return Some(j);
        }
        i = j;
    }
    None
}

fn find_candidate(active: &Vec<IncidentCandidate>, id: &str) -> (r: Option<usize>)
    ensures
        match r {
            Some(i) => i < active@.len() && first_candidate(active@, id@) == Some(active@[i as int]),
            None => first_candidate(active@, id@) is None,
        },
{
    let mut i: usize = 0;
    assert(active@.skip(0) =~= active@);
    while i < active.len()
        invariant
            i <= active@.len(),
            first_candidate(active@, id@) == first_candidate(active@.skip(i as int), id@),
        decreases active@.len() - i,
    {
        assert(active@.skip(i as int)[0] == active@[i as int]);
        assert(active@.skip(i as int).drop_first() =~= active@.skip(i + 1));
        if str_eq(active[i].id.as_str(), id) {
            return Some(i);
        }
        i = i + 1;
    }
    None
}

/// The detection that a playbook request on incident `incident_id` concerns.
pub fn bridge_detection_id(
    incident_id: &str,
    locals: &Vec<LocalIncidentRecord>,
    active: &Vec<IncidentCandidate>,
) -> (r: Option<String>)
    ensures
        match r {
            Some(d) => bridge_detection(incident_id@, locals@, active@) == Some(d@),
            None => bridge_detection(incident_id@, locals@, active@) is None,
        },
{
    match find_local(locals, incident_id) {
        Some(i) => Some(locals[i].detection_id.clone()),
        None => match find_candidate(active, incident_id) {
            Some(i) => Some(active[i].root_detection_id.clone()),
            None => None,
        },
    }
}

/// Whether writing an incident that exists remotely reopens it: it was
/// resolved.
pub fn reopens(existing_state: &str, resolved_state: &str) -> (r: bool)
    ensures
        r == (existing_state@ == resolved_state@),
{
    str_eq(existing_state, resolved_state)
}

/// The address of the incident table.
pub fn incident_table_url(instance_url: &str, table: &str) -> (r: String)
    ensures
        r@ == instance_url@ + "/api/now/table/"@ + table@,
{
    let mut r = concat(instance_url, "/api/now/table/");
    r.append(table);
    r
}

/// The address of one incident.
pub fn incident_record_url(instance_url: &str, table: &str, sys_id: &str) -> (r: String)
    ensures
        r@ == instance_url@ + "/api/now/table/"@ + table@ + "/"@ + sys_id@,
{
    let mut r = incident_table_url(instance_url, table);
    r.append("/");
    r.append(sys_id);
    r
}

/// The close notes of an incident resolved by the sync.
pub fn auto_clear_close_notes() -> (r: &'static str)
    ensures
        r@ == "Bonsai auto-cleared this incident after detections went quiet."@,
{
    "Bonsai auto-cleared this incident after detections went quiet."
}

/// The work note that acknowledges a playbook request.
pub fn bridge_ack_note(playbook_id: &str) -> (r: String)
    ensures
        r@ == "Bonsai queued remediation proposal for playbook `"@ + playbook_id@ + "`."@,
{
    let mut r = concat("Bonsai queued remediation proposal for playbook `", playbook_id);
    r.append("`.");
    r
}

/// The work note on an incident that happened during a change window.
pub fn change_annotation_note(change_number: &str, change_description: &str) -> (r: String)
    ensures
        r@ == "Bonsai: This incident occurred during active change "@ + change_number@ + " ("@ + change_description@
            + "). The detection may be expected maintenance noise."@,
{
    let mut r = concat("Bonsai: This incident occurred during active change ", change_number);
    r.append(" (");
    r.append(change_description);
    r.append("). The detection may be expected maintenance noise.");
    r
}

// ── Laws ─────────────────────────────────────────────────────────────────────

/// The id written into an incident's short description is read back from it,
/// as long as the id holds no `]`.
pub proof fn lemma_incident_id_round_trip(c: IncidentCandidate)
    requires
        forall|i: int| 0 <= i < c.id@.len() ==> c.id@[i] != ']',
    ensures
        incident_id_of(incident_short_description(c)) == Some(c.id@),
{
    reveal_strlit("[Bonsai incident ");
    reveal_strlit("] ");
    let p = short_desc_prefix();
    let sd = incident_short_description(c);
    let tail = "] "@ + c.severity@ + " "@ + c.root_rule_id@ + " on "@ + incident_node(c);
    assert(sd =~= p + (c.id@ + tail));
    assert(sd.take(p.len() as int) =~= p);
    let rest = sd.skip(p.len() as int);
    assert(rest =~= c.id@ + tail);
    let n = c.id@.len() as int;
    assert(rest[n] == ']');
    let e = choose|i: int| 0 <= i < rest.len() && rest[i] == ']' && forall|j: int| 0 <= j < i ==> rest[j] != ']';
    assert(0 <= n < rest.len() && rest[n] == ']' && forall|j: int| 0 <= j < n ==> rest[j] != ']');
    if e < n {
        assert(rest[e] == c.id@[e]);
    } else if e > n {
        assert(rest[n] != ']');
    }
    assert(rest.take(n) =~= c.id@);
}

/// Inserting at `later_index` keeps a time-ordered list in time order.
proof fn lemma_insert_by_time(s: Seq<DetectionSnapshot>, d: DetectionSnapshot)
    requires
        forall|i: int, j: int| 0 <= i <= j < s.len() ==> s[i].fired_at_ns <= s[j].fired_at_ns,
    ensures
        0 <= later_index(s, d.fired_at_ns) <= s.len(),
        forall|i: int| 0 <= i < later_index(s, d.fired_at_ns) ==> s[i].fired_at_ns <= d.fired_at_ns,
        forall|i: int| later_index(s, d.fired_at_ns) <= i < s.len() ==> s[i].fired_at_ns > d.fired_at_ns,
    decreases s.len(),
{
    if s.len() > 0 && s[0].fired_at_ns <= d.fired_at_ns {
        let t = s.drop_first();
        lemma_insert_by_time(t, d);
        assert forall|i: int| 0 <= i < later_index(s, d.fired_at_ns) implies s[i].fired_at_ns <= d.fired_at_ns by {
            if i > 0 {
                assert(s[i] == t[i - 1]);
            }
        }
        assert forall|i: int| later_index(s, d.fired_at_ns) <= i < s.len() implies s[i].fired_at_ns > d.fired_at_ns by {
            assert(s[i] == t[i - 1]);
        }
    }
}

/// Detections are grouped in the order in which they fired, and none is lost
/// or added on the way.
pub proof fn lemma_by_time_ordered(s: Seq<DetectionSnapshot>)
    ensures
        by_time(s).len() == s.len(),
        by_time(s).to_multiset() == s.to_multiset(),
        forall|i: int, j: int| 0 <= i <= j < by_time(s).len() ==> by_time(s)[i].fired_at_ns <= by_time(s)[j].fired_at_ns,
    decreases s.len(),
{
    broadcast use vstd::seq_lib::group_to_multiset_ensures;
    if s.len() > 0 {
        let pre = by_time(s.drop_last());
        lemma_by_time_ordered(s.drop_last());
        let d = s.last();
        let k = later_index(pre, d.fired_at_ns);
        lemma_insert_by_time(pre, d);
        let out = pre.insert(k, d);
        assert(out == by_time(s));
        assert forall|i: int, j: int| 0 <= i <= j < out.len() implies out[i].fired_at_ns <= out[j].fired_at_ns by {
            if j < k {
            } else if i < k && j == k {
            } else if i < k {
                assert(out[j] == pre[j - 1]);
            } else if i == k {
                if j > k {
                    assert(out[j] == pre[j - 1]);
                }
            } else {
                assert(out[i] == pre[i - 1] && out[j] == pre[j - 1]);
            }
        }
        assert(out =~= pre.take(k) + seq![d] + pre.skip(k));
        assert(pre =~= pre.take(k) + pre.skip(k));
        assert(s =~= s.drop_last().push(d));
        vstd::seq_lib::lemma_multiset_commutative(pre.take(k), pre.skip(k));
        vstd::seq_lib::lemma_multiset_commutative(pre.take(k) + seq![d], pre.skip(k));
        vstd::seq_lib::lemma_multiset_commutative(pre.take(k), seq![d]);
    }
}

} // verus!
