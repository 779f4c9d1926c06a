//! Investigations by the AI analyst: the prompts it is given, the structured
//! root cause it is asked to return, and the report of the data it lacked.
use vstd::prelude::*;

use crate::text::{
    chars_of, contains, find_char, find_seq, first_index_of, join, join_strings, occurs_at, owned, slice_range, str_eq,
    string_of, trim, trim_chars, views,
};

use crate::json::{json_compact, json_encode, json_field_present, json_has_field, json_parses, parse_json};

verus! {

/// A device the graph knows too little about, with the signals it lacks.
pub struct WeakDevice {
    pub address: String,
    pub missing: Vec<String>,
}

/// What the graph quality check found: the sentences about coverage that is
/// too low (worded by the caller from the coverage figures) and the weak
/// devices.
pub struct QualityGaps {
    pub low_coverage: Vec<String>,
    pub weak_devices: Vec<WeakDevice>,
}

/// The sentences about the signals that `device` lacks.
pub open spec fn weak_device_gaps(ws: Seq<WeakDevice>, device: Seq<char>) -> Seq<Seq<char>>
    decreases ws.len(),
{
    if ws.len() == 0 {
        Seq::empty()
    } else {
        let pre = weak_device_gaps(ws.drop_last(), device);
        let w = ws.last();
        if w.address@ == device {
            pre + views(w.missing@).map_values(|m: Seq<char>| "Device "@ + device + " is missing "@ + m + " signal data."@)
        } else {
            pre
        }
    }
}

/// The tool a path names was queried.
pub open spec fn queried(paths: Seq<String>, name: Seq<char>) -> bool {
    exists|i: int| 0 <= i < paths.len() && #[trigger] paths[i]@ == name
}

/// The sentences about tools the analyst did not use.
pub open spec fn tool_gaps(paths: Seq<String>) -> Seq<Seq<char>> {
    (if !queried(paths, "get_device_blast_radius"@) {
        seq!["Blast radius was not checked — nearby device impact is unknown."@]
    } else {
        Seq::empty()
    }) + (if !queried(paths, "query_graph"@) {
        seq!["No direct graph queries were performed — deeper Cypher analysis may reveal additional context."@]
    } else {
        Seq::empty()
    }) + (if !queried(paths, "check_change_context"@) {
        seq!["Change management context was not checked — this fault may be correlated with an active change window."@]
    } else {
        Seq::empty()
    })
}

/// All the gaps, in report order.
pub open spec fn coverage_gaps(quality: Option<QualityGaps>, paths: Seq<String>, device: Seq<char>) -> Seq<Seq<char>> {
    (match quality {
        Some(q) => views(q.low_coverage@) + weak_device_gaps(q.weak_devices@, device),
        None => Seq::empty(),
    }) + tool_gaps(paths)
}

/// The bulleted lines of a list of gaps.
pub open spec fn bullets(gaps: Seq<Seq<char>>) -> Seq<char>
    decreases gaps.len(),
{
    if gaps.len() == 0 {
        Seq::empty()
    } else {
        bullets(gaps.drop_last()) + "- "@ + gaps.last() + "\n"@
    }
}

/// The report: nothing when there are no gaps, else a heading and a bullet
/// per gap.
pub open spec fn coverage_report(gaps: Seq<Seq<char>>) -> Seq<char> {
    if gaps.len() == 0 {
        Seq::empty()
    } else {
        "---\n## Coverage Gaps (auto-generated)\nThe following data gaps may affect investigation accuracy:\n"@ + bullets(gaps)
    }
}

fn was_queried(paths: &Vec<String>, name: &str) -> (r: bool)
    ensures
        r == queried(paths@, name@),
{
    let mut i: usize = 0;
    while i < paths.len()
        invariant
            i <= paths@.len(),
            forall|k: int| 0 <= k < i ==> paths@[k]@ != name@,
        decreases paths@.len() - i,
    {
        if str_eq(paths[i].as_str(), name) {
            return true;
        }
        i = i + 1;
    }
    false
}

fn push_str_view(v: &mut Vec<String>, s: String)
    ensures
        views(final(v)@) == views(old(v)@).push(s@),
{
    v.push(s);
    assert(views(v@) =~= views(old(v)@).push(s@));
}

/// Reports the data gaps that may affect an investigation of
/// `device_address`: low coverage and missing signals of the device from the
/// quality check, and the tools the analyst did not use.
pub fn compute_coverage_gaps(quality: &Option<QualityGaps>, queried_paths: &Vec<String>, device_address: &str) -> (r: String)
    ensures
        r@ == coverage_report(coverage_gaps(*quality, queried_paths@, device_address@)),
{
    let mut gaps: Vec<String> = Vec::new();
    match quality {
        Some(q) => {
            let mut i: usize = 0;
            while i < q.low_coverage.len()
                invariant
                    i <= q.low_coverage@.len(),
                    views(gaps@) == views(q.low_coverage@.subrange(0, i as int)),
                decreases q.low_coverage@.len() - i,
            {
                proof {
                    assert(views(q.low_coverage@.subrange(0, i + 1)) =~= views(q.low_coverage@.subrange(0, i as int)).push(
                        q.low_coverage@[i as int]@,
                    ));
                }
                push_str_view(&mut gaps, q.low_coverage[i].clone());
                i = i + 1;
            }
            proof {
                assert(q.low_coverage@.subrange(0, q.low_coverage@.len() as int) =~= q.low_coverage@);
            }
            let ghost base = views(gaps@);
            let mut w: usize = 0;
            while w < q.weak_devices.len()
                invariant
                    w <= q.weak_devices@.len(),
                    views(gaps@) == base + weak_device_gaps(q.weak_devices@.subrange(0, w as int), device_address@),
                decreases q.weak_devices@.len() - w,
            {
                let ghost pre = q.weak_devices@.subrange(0, w as int);
                proof {
                    assert(q.weak_devices@.subrange(0, w + 1).drop_last() =~= pre);
                    assert(q.weak_devices@.subrange(0, w + 1).last() == q.weak_devices@[w as int]);
                }
                let weak = &q.weak_devices[w];
                if str_eq(weak.address.as_str(), device_address) {
                    let ghost start = views(gaps@);
                    let mut k: usize = 0;
                    while k < weak.missing.len()
                        invariant
                            k <= weak.missing@.len(),
                            views(gaps@) == start + views(weak.missing@.subrange(0, k as int)).map_values(
                                |m: Seq<char>| "Device "@ + device_address@ + " is missing "@ + m + " signal data."@,
                            ),
                        decreases weak.missing@.len() - k,
                    {
                        let mut line = owned("Device ");
                        line.append(device_address);
                        line.append(" is missing ");
                        line.append(weak.missing[k].as_str());
                        line.append(" signal data.");
                        push_str_view(&mut gaps, line);
                        proof {
                            assert(views(weak.missing@.subrange(0, k + 1)) =~= views(weak.missing@.subrange(0, k as int)).push(
                                weak.missing@[k as int]@,
                            ));
                            assert(views(gaps@) =~= start + views(weak.missing@.subrange(0, k + 1)).map_values(
                                |m: Seq<char>| "Device "@ + device_address@ + " is missing "@ + m + " signal data."@,
                            ));
                        }
                        k = k + 1;
                    }
                    proof {
                        assert(weak.missing@.subrange(0, weak.missing@.len() as int) =~= weak.missing@);
                        assert(views(gaps@) =~= base + weak_device_gaps(q.weak_devices@.subrange(0, w + 1), device_address@));
                    }
                } else {
                    proof {
                        assert(views(gaps@) =~= base + weak_device_gaps(q.weak_devices@.subrange(0, w + 1), device_address@));
                    }
                }
                w = w + 1;
            }
            proof {
                assert(q.weak_devices@.subrange(0, q.weak_devices@.len() as int) =~= q.weak_devices@);
            }
        },
        None => {
            proof {
                assert(views(gaps@) =~= Seq::<Seq<char>>::empty());
            }
        },
    }
    let ghost before_tools = views(gaps@);
    if !was_queried(queried_paths, "get_device_blast_radius") {
        push_str_view(&mut gaps, owned("Blast radius was not checked — nearby device impact is unknown."));
    }
    let ghost a = views(gaps@);
    if !was_queried(queried_paths, "query_graph") {
        push_str_view(
            &mut gaps,
            owned("No direct graph queries were performed — deeper Cypher analysis may reveal additional context."),
        );
    }
    let ghost b = views(gaps@);
    if !was_queried(queried_paths, "check_change_context") {
        push_str_view(
            &mut gaps,
            owned("Change management context was not checked — this fault may be correlated with an active change window."),
        );
    }
    proof {
        assert(views(gaps@) =~= coverage_gaps(*quality, queried_paths@, device_address@));
    }
    if gaps.len() == 0 {
        return String::new();
    }
    let mut report = owned(
        "---\n## Coverage Gaps (auto-generated)\nThe following data gaps may affect investigation accuracy:\n",
    );
    let ghost head = report@;
    let mut i: usize = 0;
    while i < gaps.len()
        invariant
            i <= gaps@.len(),
            report@ == head + bullets(views(gaps@.subrange(0, i as int))),
        decreases gaps@.len() - i,
    {
        report.append("- ");
        report.append(gaps[i].as_str());
        report.append("\n");
        proof {
            let nxt = views(gaps@.subrange(0, i + 1));
            assert(nxt.drop_last() =~= views(gaps@.subrange(0, i as int)));
            assert(nxt.last() == gaps@[i as int]@);
        }
        i = i + 1;
    }
    proof {
        assert(gaps@.subrange(0, gaps@.len() as int) =~= gaps@);
    }
    report
}

/// The request that starts an investigation.
pub open spec fn user_prompt_text(device: Seq<char>, detection_id: Option<Seq<char>>) -> Seq<char> {
    match detection_id {
        Some(id) => "Investigate detection "@ + id + " on device "@ + device + ". Start with get_incident."@,
        None => "Investigate device "@ + device + ". List active detections and analyze blast radius."@,
    }
}

pub fn user_prompt(device_address: &str, detection_id: Option<&str>) -> (r: String)
    ensures
        r@ == user_prompt_text(device_address@, match detection_id {
            Some(id) => Some(id@),
            None => None,
        }),
{
    match detection_id {
        Some(id) => {
            let mut s = owned("Investigate detection ");
            s.append(id);
            s.append(" on device ");
            s.append(device_address);
            s.append(". Start with get_incident.");
            s
        },
        None => {
            let mut s = owned("Investigate device ");
            s.append(device_address);
            s.append(". List active detections and analyze blast radius.");
            s
        },
    }
}

/// The instructions of the analyst for `device`, with the graph schema it
/// writes queries against.
pub open spec fn system_prompt_text(device: Seq<char>, detection_id: Option<Seq<char>>, schema: Seq<char>) -> Seq<char> {
    "You are a network operations AI analyst for Bonsai, a network monitoring platform.\nYou have tools to query the live graph database.\n\nInvestigate the issue on device "@
        + device + (match detection_id {
        Some(id) => " (detection: "@ + id + ")"@,
        None => Seq::empty(),
    })
        + ".\n\nSteps:\n1. Get full incident context (get_incident) if a detection ID is provided.\n2. Check blast radius (get_device_blast_radius) for affected scope.\n3. Look for correlated detections on nearby devices (list_active_detections).\n4. Use query_graph for deeper Cypher analysis if needed.\n\nWhen using query_graph, write read-only openCypher using the schema below.\n\n"@
        + schema
        + "\n\nEnd with a JSON-formatted structured summary (inside a ```json code fence):\n{\n\"root_cause_type\": \"<bgp_session_loss | interface_down | config_error | link_flap | ...>\",\n\"confidence\": <0.0-1.0>,\n\"affected_scope\": [\"<device or service 1>\", \"<device or service 2>\"],\n\"recommended_action\": \"<one-line remediation step>\",\n\"missing_data\": [\"<signal or data that would increase confidence>\"]\n}"@
}

pub fn system_prompt(device_address: &str, detection_id: Option<&str>, graph_schema: &str) -> (r: String)
    ensures
        r@ == system_prompt_text(device_address@, match detection_id {
            Some(id) => Some(id@),
            None => None,
        }, graph_schema@),
{
    let mut s = owned(
        "You are a network operations AI analyst for Bonsai, a network monitoring platform.\nYou have tools to query the live graph database.\n\nInvestigate the issue on device ",
    );
    s.append(device_address);
    match detection_id {
        Some(id) => {
            s.append(" (detection: ");
            s.append(id);
            s.append(")");
        },
        None => {},
    }
    s.append(
        ".\n\nSteps:\n1. Get full incident context (get_incident) if a detection ID is provided.\n2. Check blast radius (get_device_blast_radius) for affected scope.\n3. Look for correlated detections on nearby devices (list_active_detections).\n4. Use query_graph for deeper Cypher analysis if needed.\n\nWhen using query_graph, write read-only openCypher using the schema below.\n\n",
    );
    s.append(graph_schema);
    s.append(
        "\n\nEnd with a JSON-formatted structured summary (inside a ```json code fence):\n{\n\"root_cause_type\": \"<bgp_session_loss | interface_down | config_error | link_flap | ...>\",\n\"confidence\": <0.0-1.0>,\n\"affected_scope\": [\"<device or service 1>\", \"<device or service 2>\"],\n\"recommended_action\": \"<one-line remediation step>\",\n\"missing_data\": [\"<signal or data that would increase confidence>\"]\n}",
    );
    s
}


// ── The final summary ────────────────────────────────────────────────────────

/// The first position at which `needle` occurs in `hay`.
pub open spec fn first_at(hay: Seq<char>, needle: Seq<char>) -> Option<int> {
    if contains(hay, needle) {
        Some(choose|i: int| occurs_at(hay, needle, i) && forall|j: int| 0 <= j < i ==> !occurs_at(hay, needle, j))
    } else {
        None
    }
}

fn find_first(hay: &[char], needle: &[char]) -> (r: Option<usize>)
    ensures
        match r {
            Some(i) => first_at(hay@, needle@) == Some(i as int) && i + needle@.len() <= hay@.len(),
            None => first_at(hay@, needle@) is None,
        },
{
    let r = find_seq(hay, needle);
    proof {
        if let Some(i) = r {
            let k = choose|k: int| occurs_at(hay@, needle@, k) && forall|j: int| 0 <= j < k ==> !occurs_at(hay@, needle@, j);
            assert(occurs_at(hay@, needle@, i as int));
            if k < i {
            } else if k > i {
                assert(!occurs_at(hay@, needle@, i as int));
            }
        }
    }
    r
}

/// The last position of `c` in `s`.
pub open spec fn last_index_of(s: Seq<char>, c: char) -> Option<int>
    decreases s.len(),
{
    if s.len() == 0 {
        None
    } else if s.last() == c {
        Some(s.len() - 1)
    } else {
        last_index_of(s.drop_last(), c)
    }
}

fn rfind_char(s: &[char], c: char) -> (r: Option<usize>)
    ensures
        match r {
            Some(i) => last_index_of(s@, c) == Some(i as int) && i < s@.len(),
            None => last_index_of(s@, c) is None,
        },
{
    let mut i: usize = s.len();
    assert(s@.subrange(0, i as int) =~= s@);
    while i > 0
        invariant
            i <= s@.len(),
            last_index_of(s@, c) == last_index_of(s@.subrange(0, i as int), c),
        decreases i,
    {
        let j = i - 1;
        assert(s@.subrange(0, i as int).last() == s@[j as int]);
        assert(s@.subrange(0, i as int).drop_last() =~= s@.subrange(0, j as int));
        if s[j] == c {
            return Some(j);
        }
        i = j;
    }
    None
}

/// The trimmed text between the first `open` of `s` and the next fence.
pub open spec fn fenced_after(s: Seq<char>, open: Seq<char>) -> Option<Seq<char>> {
    match first_at(s, open) {
        None => None,
        Some(a) => {
            let after = s.skip(a + open.len());
            match first_at(after, "```"@) {
                None => None,
                Some(e) => Some(trim(after.take(e))),
            }
        },
    }
}

/// The text from the first `{` to the last `}` of `s`, when in that order.
pub open spec fn braced(s: Seq<char>) -> Option<Seq<char>> {
    match (first_index_of(s, '{'), last_index_of(s, '}')) {
        (Some(a), Some(b)) => if b > a {
            Some(s.subrange(a, b + 1))
        } else {
            None
        },
        _ => None,
    }
}

pub open spec fn opt_seq(o: Option<Seq<char>>) -> Seq<Seq<char>> {
    match o {
        Some(x) => seq![x],
        None => Seq::empty(),
    }
}

/// Where a root-cause object may stand in an analyst's summary, in the order
/// they are tried: a ```json fenced block, any fenced block, the text from
/// the first `{` to the last `}`.
pub open spec fn rca_candidates_of(s: Seq<char>) -> Seq<Seq<char>> {
    opt_seq(fenced_after(s, "```json"@)) + opt_seq(fenced_after(s, "```"@)) + opt_seq(braced(s))
}

fn fenced(s: &Vec<char>, open: &str) -> (r: Option<String>)
    ensures
        match r {
            Some(t) => fenced_after(s@, open@) == Some(t@),
            None => fenced_after(s@, open@) is None,
        },
{
    let o = chars_of(open);
    let a = match find_first(s.as_slice(), o.as_slice()) {
        Some(a) => a,
        None => {
            return None;
        },
    };
    let total = s.len();
    assert(a + o@.len() <= total);
    let after = slice_range(s.as_slice(), a + o.len(), total);
    assert(after@ =~= s@.skip(a + open@.len()));
    let fence = chars_of("```");
    match find_first(after.as_slice(), fence.as_slice()) {
        Some(e) => {
            let inner = slice_range(after.as_slice(), 0, e);
            assert(inner@ =~= after@.take(e as int));
            let t = trim_chars(inner.as_slice());
            Some(string_of(t.as_slice()))
        },
        None => None,
    }
}

fn push_opt(v: &mut Vec<String>, o: Option<String>)
    ensures
        views(final(v)@) == views(old(v)@) + opt_seq(
            match o {
                Some(x) => Some(x@),
                None => None,
            },
        ),
{
    match o {
        Some(x) => {
            v.push(x);
            assert(views(v@) =~= views(old(v)@) + seq![v@.last()@]);
        },
        None => {
            assert(views(v@) =~= views(old(v)@) + Seq::<Seq<char>>::empty());
        },
    }
}

/// The texts of an analyst's summary that may hold its root-cause object,
/// in the order they are tried.
pub fn rca_candidates(summary: &str) -> (r: Vec<String>)
    ensures
        views(r@) == rca_candidates_of(summary@),
{
    let s = chars_of(summary);
    let mut r: Vec<String> = Vec::new();
    assert(views(r@) =~= Seq::<Seq<char>>::empty());
    let c1 = fenced(&s, "```json");
    push_opt(&mut r, c1);
    let c2 = fenced(&s, "```");
    push_opt(&mut r, c2);
    let c3 = match (find_char(s.as_slice(), '{'), rfind_char(s.as_slice(), '}')) {
        (Some(a), Some(b)) => if b > a {
            let t = slice_range(s.as_slice(), a, b + 1);
            Some(string_of(t.as_slice()))
        } else {
            None
        },
        _ => None,
    };
    push_opt(&mut r, c3);
    assert(views(r@) =~= rca_candidates_of(summary@));
    r
}

/// What one candidate text gives: `None` where it is not JSON with a
/// `root_cause_type` field, else what re-encoding it compactly gives.
pub open spec fn rca_probe_of(c: Seq<char>) -> Option<Option<Seq<char>>> {
    if json_parses(c) && json_has_field(c, "root_cause_type"@) {
        Some(json_compact(c))
    } else {
        None
    }
}

pub open spec fn probe_view(p: Option<Option<String>>) -> Option<Option<Seq<char>>> {
    match p {
        Some(Some(s)) => Some(Some(s@)),
        Some(None) => Some(None),
        None => None,
    }
}

/// The root-cause text chosen from the probes of the candidates, in order:
/// the first that found one gives its encoding, or `{}` where encoding
/// failed; `{}` when none found one.
pub open spec fn first_rca(probes: Seq<Option<Option<Seq<char>>>>) -> Seq<char>
    decreases probes.len(),
{
    if probes.len() == 0 {
        "{}"@
    } else {
        match probes[0] {
            Some(Some(s)) => s,
            Some(None) => "{}"@,
            None => first_rca(probes.drop_first()),
        }
    }
}

/// The root-cause text of an analyst's summary.
pub open spec fn rca_json_of(summary: Seq<char>) -> Seq<char> {
    first_rca(rca_candidates_of(summary).map_values(|c: Seq<char>| rca_probe_of(c)))
}

/// Chooses the root-cause text from the probes of the candidates, taken in
/// order.
pub fn pick_rca(probes: &Vec<Option<Option<String>>>) -> (r: String)
    ensures
        r@ == first_rca(probes@.map_values(|p: Option<Option<String>>| probe_view(p))),
{
    let ghost all = probes@.map_values(|p: Option<Option<String>>| probe_view(p));
    let mut i: usize = 0;
    assert(all.skip(0) =~= all);
    while i < probes.len()
        invariant
            i <= probes@.len(),
            all == probes@.map_values(|p: Option<Option<String>>| probe_view(p)),
            first_rca(all) == first_rca(all.skip(i as int)),
        decreases probes@.len() - i,
    {
        assert(all.skip(i as int).drop_first() =~= all.skip(i + 1));
        assert(all.skip(i as int)[0] == probe_view(probes@[i as int]));
        match &probes[i] {
            Some(Some(s)) => {
                return s.clone();
            },
            Some(None) => {
                return owned("{}");
            },
            None => {},
        }
        i = i + 1;
    }
    assert(all.skip(i as int).len() == 0);
    owned("{}")
}

fn rca_probe(c: &str) -> (r: Option<Option<String>>)
    ensures
        probe_view(r) == rca_probe_of(c@),
{
    match parse_json(c) {
        None => None,
        Some(d) => {
            if json_field_present(&d, "root_cause_type") {
                Some(json_encode(&d))
            } else {
                None
            }
        },
    }
}

fn probes_of(cands: &Vec<String>) -> (r: Vec<Option<Option<String>>>)
    ensures
        r@.map_values(|p: Option<Option<String>>| probe_view(p)) == views(cands@).map_values(
            |c: Seq<char>| rca_probe_of(c),
        ),
{
    let mut probes: Vec<Option<Option<String>>> = Vec::new();
    let mut i: usize = 0;
    while i < cands.len()
        invariant
            i <= cands@.len(),
            probes@.len() == i,
            forall|k: int| 0 <= k < i ==> #[trigger] probe_view(probes@[k]) == rca_probe_of(cands@[k]@),
        decreases cands@.len() - i,
    {
        let p = rca_probe(cands[i].as_str());
        probes.push(p);
        i = i + 1;
    }
    assert(probes@.map_values(|p: Option<Option<String>>| probe_view(p)) =~= views(cands@).map_values(
        |c: Seq<char>| rca_probe_of(c),
    ));
    probes
}

/// The root-cause object of an analyst's summary: the first candidate text
/// (see `rca_candidates`) that is JSON with a `root_cause_type` field,
/// re-encoded compactly; `{}` when there is none.
pub fn extract_rca_json(summary: &str) -> (r: String)
    ensures
        r@ == rca_json_of(summary@),
{
    let cands = rca_candidates(summary);
    let probes = probes_of(&cands);
    pick_rca(&probes)
}

/// The summary stored for an investigation: the data warning first when
/// there is one, then the analyst's text, then the gap report when it is
/// not empty.
pub open spec fn full_summary(warning: Option<Seq<char>>, raw: Seq<char>, gaps: Seq<char>) -> Seq<char> {
    let head = match warning {
        Some(w) => w + "\n\n"@ + raw,
        None => raw,
    };
    if gaps.len() == 0 {
        head
    } else {
        head + "\n\n"@ + gaps
    }
}

pub fn compose_summary(warning: Option<&str>, raw_summary: &str, gap_report: &str) -> (r: String)
    ensures
        r@ == full_summary(
            match warning {
                Some(w) => Some(w@),
                None => None,
            },
            raw_summary@,
            gap_report@,
        ),
{
    let mut r = match warning {
        Some(w) => {
            let mut h = owned(w);
            h.append("\n\n");
            h.append(raw_summary);
            h
        },
        None => owned(raw_summary),
    };
    let g = chars_of(gap_report);
    if g.len() > 0 {
        r.append("\n\n");
        r.append(gap_report);
    }
    r
}

/// The signals a sparse device lacks, for the data warning: those the
/// quality check lists for it, joined by `, `, or `multiple signal sources`
/// when it lists none.
pub open spec fn missing_signals(ws: Seq<WeakDevice>, device: Seq<char>) -> Seq<Seq<char>>
    decreases ws.len(),
{
    if ws.len() == 0 {
        Seq::empty()
    } else {
        let pre = missing_signals(ws.drop_last(), device);
        if ws.last().address@ == device {
            pre + views(ws.last().missing@)
        } else {
            pre
        }
    }
}

pub open spec fn missing_text(ws: Seq<WeakDevice>, device: Seq<char>) -> Seq<char> {
    let m = missing_signals(ws, device);
    if m.len() == 0 {
        "multiple signal sources"@
    } else {
        join(m, ", "@)
    }
}

pub fn missing_signals_text(weak_devices: &Vec<WeakDevice>, device_address: &str) -> (r: String)
    ensures
        r@ == missing_text(weak_devices@, device_address@),
{
    let mut all: Vec<String> = Vec::new();
    let mut i: usize = 0;
    assert(views(all@) =~= missing_signals(weak_devices@.subrange(0, 0), device_address@));
    while i < weak_devices.len()
        invariant
            i <= weak_devices@.len(),
            views(all@) == missing_signals(weak_devices@.subrange(0, i as int), device_address@),
        decreases weak_devices@.len() - i,
    {
        assert(weak_devices@.subrange(0, i + 1).drop_last() =~= weak_devices@.subrange(0, i as int));
        assert(weak_devices@.subrange(0, i + 1).last() == weak_devices@[i as int]);
        let w = &weak_devices[i];
        if str_eq(w.address.as_str(), device_address) {
            let ghost before = views(all@);
            let mut k: usize = 0;
            while k < w.missing.len()
                invariant
                    k <= w.missing@.len(),
                    views(all@) == before + views(w.missing@.subrange(0, k as int)),
                decreases w.missing@.len() - k,
            {
                let ghost prev = views(all@);
                all.push(w.missing[k].clone());
                assert(views(all@) =~= prev.push(w.missing@[k as int]@));
                assert(views(w.missing@.subrange(0, k + 1)) =~= views(w.missing@.subrange(0, k as int)).push(w.missing@[k as int]@));
                assert(views(all@) =~= before + views(w.missing@.subrange(0, k + 1)));
                k = k + 1;
            }
            assert(w.missing@.subrange(0, w.missing@.len() as int) =~= w.missing@);
        }
        i = i + 1;
    }
    assert(weak_devices@.subrange(0, weak_devices@.len() as int) =~= weak_devices@);
    if all.len() == 0 {
        owned("multiple signal sources")
    } else {
        join_strings(&all, ", ")
    }
}

/// The summary when the analyst stopped early: its last message with text,
/// or a fixed note.
pub open spec fn last_text(messages: Seq<(String, Option<String>)>) -> Seq<char>
    decreases messages.len(),
{
    if messages.len() == 0 {
        "Investigation terminated at iteration or budget limit."@
    } else if messages.last().0@ == "assistant"@ && messages.last().1 is Some {
        messages.last().1.unwrap()@
    } else {
        last_text(messages.drop_last())
    }
}

/// The last assistant message that has text, from (role, text) pairs.
pub fn fallback_summary(messages: &Vec<(String, Option<String>)>) -> (r: String)
    ensures
        r@ == last_text(messages@),
{
    let mut i: usize = messages.len();
    assert(messages@.subrange(0, i as int) =~= messages@);
    while i > 0
        invariant
            i <= messages@.len(),
            last_text(messages@) == last_text(messages@.subrange(0, i as int)),
        decreases i,
    {
        let j = i - 1;
        assert(messages@.subrange(0, i as int).last() == messages@[j as int]);
        assert(messages@.subrange(0, i as int).drop_last() =~= messages@.subrange(0, j as int));
        let (role, text) = &messages[j];
        if str_eq(role.as_str(), "assistant") {
            match text {
                Some(t) => {
                    return t.clone();
                },
                None => {},
            }
        }
        i = j;
    }
    owned("Investigation terminated at iteration or budget limit.")
}

// ── The investigation loop ───────────────────────────────────────────────────

/// The most model calls one investigation makes.
pub const MAX_ITERATIONS: usize = 15;

/// Whether the investigation may ask the model again before call number
/// `iteration` (counted from zero): only under the iteration limit. Past it
/// the investigation is completed from the last text it has.
pub fn iteration_allowed(iteration: usize) -> (r: bool)
    ensures
        r == (iteration < MAX_ITERATIONS),
{
    iteration < MAX_ITERATIONS
}

/// Whether a reply of the model ends the investigation: it asks for no tool
/// call, or it says it ended its turn.
pub fn reply_completes(tool_calls: usize, stop_reason: &str) -> (r: bool)
    ensures
        r == (tool_calls == 0 || stop_reason@ == "end_turn"@),
{
    tool_calls == 0 || str_eq(stop_reason, "end_turn")
}

} // verus!
