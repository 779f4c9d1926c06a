//! The parser chain: which parsers read a command's output, in what order,
//! and how their answers are combined into one decision.
//!
//! Parsed results are carried as JSON text. Calling the parser sidecars
//! belongs to the caller, which runs a `ParseRun`: it asks for the next
//! parser, calls it, and records the outcome.
use vstd::prelude::*;

use crate::keyed::find_keyed;
use crate::text::{
    ascii_lower_chars, ascii_lower_seq, chars_of, concat, lines, lines_chars, owned, str_eq, string_of, trim,
    trim_chars, views,
};
use crate::output::detections::{trim_trailing_slashes, without_trailing_slashes};

verus! {

/// A command output to parse.
pub struct ParseRequest {
    pub vendor: String,
    pub command_pattern: String,
    pub raw_output: String,
}

/// Where the parser sidecars listen.
pub struct ParserSidecarConfig {
    pub pyats_url: String,
    pub native_url: String,
}

/// The parser chain settings: the parsers to try for each
/// `vendor::command` (or `vendor::*`) key, and whether to run them all to
/// compare their answers.
pub struct ParserChainConfig {
    pub sidecars: ParserSidecarConfig,
    pub priorities: Vec<(String, Vec<String>)>,
    pub consensus_mode: bool,
}

/// One parser's try.
pub struct ParseAttempt {
    pub parser: String,
    pub success: bool,
    pub error: String,
    pub parsed_json: String,
}

/// The outcome of a parse: the first parser that succeeded, its result, and
/// whether the others that succeeded agree.
pub struct ParseDecision {
    pub primary_parser: String,
    pub consensus_state: String,
    pub parsed_json: String,
    pub attempts: Vec<ParseAttempt>,
}

/// Why a parse failed.
#[derive(Debug, Clone, Copy, PartialEq, Eq, Structural)]
pub enum ParseChainError {
    NoPriorities,
    AllFailed,
}

/// Where a parser runs.
#[derive(Debug, Clone, Copy, PartialEq, Eq, Structural)]
pub enum ParserBackend {
    /// In this process: the non-empty trimmed lines.
    Native,
    /// The pyATS sidecar.
    Pyats,
    /// The native-parsers sidecar.
    NativeSidecar,
    Unsupported,
}

pub open spec fn backend_of(parser: Seq<char>) -> ParserBackend {
    if parser == "bonsai_native"@ {
        ParserBackend::Native
    } else if parser == "pyats_genie"@ {
        ParserBackend::Pyats
    } else if parser == "ntc_templates"@ || parser == "suzieq_native"@ {
        ParserBackend::NativeSidecar
    } else {
        ParserBackend::Unsupported
    }
}

/// Where `parser` runs.
pub fn parser_backend(parser: &str) -> (r: ParserBackend)
    ensures
        r == backend_of(parser@),
{
    if str_eq(parser, "bonsai_native") {
        ParserBackend::Native
    } else if str_eq(parser, "pyats_genie") {
        ParserBackend::Pyats
    } else if str_eq(parser, "ntc_templates") || str_eq(parser, "suzieq_native") {
        ParserBackend::NativeSidecar
    } else {
        ParserBackend::Unsupported
    }
}

/// The address a sidecar parses at.
pub fn sidecar_parse_url(base_url: &str) -> (r: String)
    ensures
        r@ == without_trailing_slashes(base_url@) + "/parse"@,
{
    let mut r = trim_trailing_slashes(base_url);
    r.append("/parse");
    r
}

/// The parsers tried when no key matches.
pub open spec fn default_priorities() -> Seq<Seq<char>> {
    seq!["bonsai_native"@, "pyats_genie"@, "ntc_templates"@]
}

pub open spec fn priority_key() -> spec_fn((String, Vec<String>)) -> Seq<char> {
    |p: (String, Vec<String>)| p.0@
}

/// The exact key of a request: the vendor trimmed and lower-cased, `::`,
/// the command trimmed.
pub open spec fn exact_key(vendor: Seq<char>, command: Seq<char>) -> Seq<char> {
    ascii_lower_seq(trim(vendor)) + "::"@ + trim(command)
}

/// The wildcard key of a vendor.
pub open spec fn wildcard_key(vendor: Seq<char>) -> Seq<char> {
    ascii_lower_seq(trim(vendor)) + "::*"@
}

/// The parsers to try for a request: those of its exact key, else those of
/// its vendor's wildcard key, else the defaults.
pub open spec fn priorities_of(config: ParserChainConfig, vendor: Seq<char>, command: Seq<char>) -> Seq<Seq<char>> {
    match find_keyed(config.priorities@, priority_key(), exact_key(vendor, command)) {
        Some(p) => views(p.1@),
        None => match find_keyed(config.priorities@, priority_key(), wildcard_key(vendor)) {
            Some(p) => views(p.1@),
            None => default_priorities(),
        },
    }
}

fn lookup_priorities(table: &Vec<(String, Vec<String>)>, key: &str) -> (r: Option<Vec<String>>)
    ensures
        match r {
            Some(v) => find_keyed(table@, priority_key(), key@) matches Some(p) && views(v@) == views(p.1@),
            None => find_keyed(table@, priority_key(), key@) is None,
        },
{
    let mut i: usize = table.len();
    assert(table@.subrange(0, i as int) =~= table@);
    while i > 0
        invariant
            i <= table@.len(),
            find_keyed(table@, priority_key(), key@) == find_keyed(table@.subrange(0, i as int), priority_key(), key@),
        decreases i,
    {
        let j = i - 1;
        assert(table@.subrange(0, i as int).last() == table@[j as int]);
        assert(table@.subrange(0, i as int).drop_last() =~= table@.subrange(0, j as int));
        if str_eq(table[j].0.as_str(), key) {
            let v = crate::registry::copy_strings(&table[j].1);
            return Some(v);
        }
        i = j;
    }
    None
}

fn defaults() -> (r: Vec<String>)
    ensures
        views(r@) == default_priorities(),
{
    let mut r: Vec<String> = Vec::new();
    r.push(owned("bonsai_native"));
    r.push(owned("pyats_genie"));
    r.push(owned("ntc_templates"));
    assert(views(r@) =~= default_priorities());
    r
}

/// The parsers to try for `vendor` and `command_pattern`.
pub fn priorities_for(config: &ParserChainConfig, vendor: &str, command_pattern: &str) -> (r: Vec<String>)
    ensures
        views(r@) == priorities_of(*config, vendor@, command_pattern@),
{
    let v = ascii_lower_chars(trim_chars(chars_of(vendor).as_slice()).as_slice());
    let vendor_key = string_of(v.as_slice());
    let command = string_of(trim_chars(chars_of(command_pattern).as_slice()).as_slice());
    let mut exact = concat(vendor_key.as_str(), "::");
    exact.append(command.as_str());
    match lookup_priorities(&config.priorities, exact.as_str()) {
        Some(p) => p,
        None => {
            let wildcard = concat(vendor_key.as_str(), "::*");
            match lookup_priorities(&config.priorities, wildcard.as_str()) {
                Some(p) => p,
                None => defaults(),
            }
        },
    }
}

/// The non-empty lines of an output, trimmed, in order.
pub open spec fn native_lines_of(ls: Seq<Seq<char>>) -> Seq<Seq<char>>
    decreases ls.len(),
{
    if ls.len() == 0 {
        Seq::empty()
    } else {
        let pre = native_lines_of(ls.drop_last());
        if trim(ls.last()).len() == 0 {
            pre
        } else {
            pre.push(trim(ls.last()))
        }
    }
}

/// What the in-process parser reads from an output: its non-empty lines,
/// trimmed.
pub fn native_parse_lines(raw_output: &str) -> (r: Vec<String>)
    ensures
        views(r@) == native_lines_of(lines(raw_output@)),
{
    let ls = lines_chars(chars_of(raw_output).as_slice());
    let mut out: Vec<String> = Vec::new();
    let mut i: usize = 0;
    while i < ls.len()
        invariant
            i <= ls@.len(),
            ls@.len() == lines(raw_output@).len(),
            forall|k: int| 0 <= k < ls@.len() ==> #[trigger] ls@[k]@ == lines(raw_output@)[k],
            views(out@) == native_lines_of(lines(raw_output@).subrange(0, i as int)),
        decreases ls@.len() - i,
    {
        proof {
            assert(lines(raw_output@).subrange(0, i + 1).drop_last() =~= lines(raw_output@).subrange(0, i as int));
            assert(lines(raw_output@).subrange(0, i + 1).last() == ls@[i as int]@);
        }
        let t = trim_chars(ls[i].as_slice());
        if t.len() > 0 {
            let ghost before = views(out@);
            out.push(string_of(t.as_slice()));
            assert(views(out@) =~= before.push(t@));
        }
        i = i + 1;
    }
    assert(lines(raw_output@).subrange(0, ls@.len() as int) =~= lines(raw_output@));
    out
}

/// Whether the parsers that succeeded agree: `single-parser` when at most
/// one did, `agreed` when all their results equal the primary one, else
/// `disagreed`.
pub open spec fn consensus_of(attempts: Seq<ParseAttempt>, primary: Seq<char>) -> Seq<char> {
    let ok = attempts.filter(|a: ParseAttempt| a.success);
    if ok.len() <= 1 {
        "single-parser"@
    } else if forall|i: int| 0 <= i < ok.len() ==> (#[trigger] ok[i]).parsed_json@ == primary {
        "agreed"@
    } else {
        "disagreed"@
    }
}

/// The consensus over some attempts, given the primary result.
pub fn consensus_state(attempts: &Vec<ParseAttempt>, primary: &str) -> (r: String)
    ensures
        r@ == consensus_of(attempts@, primary@),
{
    let ghost f = |a: ParseAttempt| a.success;
    let mut n: usize = 0;
    let mut all_agree = true;
    let mut i: usize = 0;
    while i < attempts.len()
        invariant
            f == |a: ParseAttempt| a.success,
            i <= attempts@.len(),
            n == attempts@.subrange(0, i as int).filter(f).len(),
            n <= i,
            all_agree == forall|k: int| 0 <= k < attempts@.subrange(0, i as int).filter(f).len() ==> (
            #[trigger] attempts@.subrange(0, i as int).filter(f)[k]).parsed_json@ == primary@,
        decreases attempts@.len() - i,
    {
        let ghost pre = attempts@.subrange(0, i as int);
        proof {
            assert(attempts@.subrange(0, i + 1) =~= pre.push(attempts@[i as int]));
            pre.lemma_filter_push(attempts@[i as int], f);
        }
        let a = &attempts[i];
        let ghost old_agree = all_agree;
        let ghost p = pre.filter(f);
        let ghost g = attempts@.subrange(0, i + 1).filter(f);
        if a.success {
            n = n + 1;
            let same = str_eq(a.parsed_json.as_str(), primary);
            all_agree = all_agree && same;
            proof {
                assert(g == p.push(attempts@[i as int]));
                assert(g[g.len() - 1] == attempts@[i as int]);
                if all_agree {
                    assert forall|k: int| 0 <= k < g.len() implies (#[trigger] g[k]).parsed_json@ == primary@ by {
                        if k < p.len() {
                            assert(g[k] == p[k]);
                        }
                    }
                } else if !same {
                    assert(g[g.len() - 1].parsed_json@ != primary@);
                } else {
                    let k = choose|k: int| 0 <= k < p.len() && (#[trigger] p[k]).parsed_json@ != primary@;
                    assert(g[k] == p[k]);
                }
            }
        } else {
            assert(g == p);
        }
        i = i + 1;
    }
    assert(attempts@.subrange(0, attempts@.len() as int) =~= attempts@);
    if n <= 1 {
        owned("single-parser")
    } else if all_agree {
        owned("agreed")
    } else {
        owned("disagreed")
    }
}

/// A parse in progress: the parsers to try, how far the chain has got,
/// the tries so far, and the first success (the parser named by its answer,
/// and its result).
pub struct ParseRun {
    pub priorities: Vec<String>,
    pub next: usize,
    pub consensus_mode: bool,
    pub attempts: Vec<ParseAttempt>,
    pub primary: Option<(String, String)>,
}

impl ParseRun {
    /// One try per parser passed, in order.
    pub open spec fn wf(&self) -> bool {
        &&& self.next <= self.priorities@.len()
        &&& self.attempts@.len() == self.next
        &&& forall|i: int| 0 <= i < self.next ==> (#[trigger] self.attempts@[i]).parser@ == self.priorities@[i]@
    }

    /// The chain stops when every parser was tried, or, outside consensus
    /// mode, at the first success.
    pub open spec fn done(&self) -> bool {
        self.next >= self.priorities@.len() || (self.primary is Some && !self.consensus_mode)
    }

    /// Starts the parse of `request`: refused when its parser list is empty.
    pub fn start(config: &ParserChainConfig, request: &ParseRequest) -> (r: Result<ParseRun, ParseChainError>)
        ensures
            priorities_of(*config, request.vendor@, request.command_pattern@).len() == 0 ==> r == Err::<
                ParseRun,
                ParseChainError,
            >(ParseChainError::NoPriorities),
            priorities_of(*config, request.vendor@, request.command_pattern@).len() > 0 ==> (r matches Ok(run) && {
                &&& run.wf()
                &&& views(run.priorities@) == priorities_of(*config, request.vendor@, request.command_pattern@)
                &&& run.next == 0
                &&& run.consensus_mode == config.consensus_mode
                &&& run.primary is None
            }),
    {
        let priorities = priorities_for(config, request.vendor.as_str(), request.command_pattern.as_str());
        if priorities.len() == 0 {
            return Err(ParseChainError::NoPriorities);
        }
        Ok(ParseRun {
            priorities,
            next: 0,
            consensus_mode: config.consensus_mode,
            attempts: Vec::new(),
            primary: None,
        })
    }

    /// The parser to call next, until the chain stops.
    pub fn next_parser(&self) -> (r: Option<&String>)
        requires
            self.wf(),
        ensures
            match r {
                Some(p) => !self.done() && *p == self.priorities@[self.next as int],
                None => self.done(),
            },
    {
        if self.next >= self.priorities.len() || (self.primary.is_some() && !self.consensus_mode) {
            None
        } else {
            Some(&self.priorities[self.next])
        }
    }

    /// Records what the next parser answered: the parser named in its answer
    /// and its result, or an error.
    pub fn record(&mut self, outcome: Result<(String, String), String>)
        requires
            old(self).wf(),
            !old(self).done(),
        ensures
            final(self).wf(),
            final(self).next == old(self).next + 1,
            final(self).priorities == old(self).priorities,
            final(self).consensus_mode == old(self).consensus_mode,
            final(self).attempts@.drop_last() == old(self).attempts@,
            ({
                let a = final(self).attempts@.last();
                &&& a.parser@ == old(self).priorities@[old(self).next as int]@
                &&& a.success == outcome is Ok
                &&& a.error@ == match outcome {
                    Ok(_) => Seq::<char>::empty(),
                    Err(e) => e@,
                }
                &&& a.parsed_json@ == match outcome {
                    Ok(p) => p.1@,
                    Err(_) => "null"@,
                }
            }),
            final(self).primary == match (old(self).primary, outcome) {
                (None, Ok(p)) => Some(p),
                _ => old(self).primary,
            },
            (final(self).next as int, final(self).primary) == step((old(self).next as int, old(self).primary), outcome),
    {
        let total = self.priorities.len();
        assert(self.next < total);
        let parser = self.priorities[self.next].clone();
        let attempt = match &outcome {
            Ok(p) => ParseAttempt { parser, success: true, error: String::new(), parsed_json: p.1.clone() },
            Err(e) => ParseAttempt { parser, success: false, error: e.clone(), parsed_json: owned("null") },
        };
        let ghost before = self.attempts@;
        self.attempts.push(attempt);
        assert(self.attempts@.drop_last() =~= before);
        if self.primary.is_none() {
            match outcome {
                Ok(p) => {
                    self.primary = Some(p);
                },
                Err(_) => {},
            }
        }
        self.next = self.next + 1;
    }

    /// The decision once the chain has stopped: refused when every parser
    /// failed.
    pub fn finish(self) -> (r: Result<ParseDecision, ParseChainError>)
        ensures
            match self.primary {
                None => r == Err::<ParseDecision, ParseChainError>(ParseChainError::AllFailed),
                Some(p) => r matches Ok(d) && {
                    &&& d.primary_parser@ == p.0@
                    &&& d.parsed_json@ == p.1@
                    &&& d.consensus_state@ == consensus_of(self.attempts@, p.1@)
                    &&& d.attempts@ == self.attempts@
                },
            },
    {
        match self.primary {
            None => Err(ParseChainError::AllFailed),
            Some(p) => {
                let consensus = consensus_state(&self.attempts, p.1.as_str());
                Ok(ParseDecision { primary_parser: p.0, consensus_state: consensus, parsed_json: p.1, attempts: self.attempts })
            },
        }
    }
}

/// What a parse run has got to: how many parsers it tried and its first
/// success.
pub type RunPoint = (int, Option<(String, String)>);

/// The point after one more parser answered `o`, as `ParseRun::record`
/// moves it.
pub open spec fn step(st: RunPoint, o: Result<(String, String), String>) -> RunPoint {
    (
        st.0 + 1,
        match (st.1, o) {
            (None, Ok(p)) => Some(p),
            _ => st.1,
        },
    )
}

/// The point where a run over `len` parsers that answer `outs` in turn
/// stops, from `st`: when every parser was tried, or, outside consensus
/// mode, at the first success (as `ParseRun::done` says).
pub open spec fn run_from(st: RunPoint, outs: Seq<Result<(String, String), String>>, len: int, consensus: bool) -> RunPoint
    decreases len - st.0,
{
    if st.0 >= len || (st.1 is Some && !consensus) || st.0 < 0 {
        st
    } else {
        run_from(step(st, outs[st.0]), outs, len, consensus)
    }
}

/// The position of the first success among the first `n` answers.
pub open spec fn first_success(outs: Seq<Result<(String, String), String>>, n: int) -> Option<int>
    decreases n,
{
    if n <= 0 {
        None
    } else {
        match first_success(outs, n - 1) {
            Some(i) => Some(i),
            None => if outs[n - 1] is Ok { Some(n - 1) } else { None },
        }
    }
}

proof fn lemma_first_success_bounds(outs: Seq<Result<(String, String), String>>, n: int)
    ensures
        first_success(outs, n) matches Some(i) ==> 0 <= i < n && outs[i] is Ok && forall|j: int| 0 <= j < i ==> outs[j] is Err,
        first_success(outs, n) is None ==> forall|j: int| 0 <= j < n ==> outs[j] is Err,
    decreases n,
{
    if n > 0 {
        lemma_first_success_bounds(outs, n - 1);
    }
}

proof fn lemma_run_from(st: RunPoint, outs: Seq<Result<(String, String), String>>, len: int, consensus: bool)
    requires
        0 <= st.0 <= len <= outs.len(),
        st.1 is None <==> first_success(outs, st.0) is None,
        st.1 matches Some(p) ==> (first_success(outs, st.0) matches Some(i) && outs[i] == Ok::<(String, String), String>(p)),
        !consensus && st.1 is Some ==> (first_success(outs, st.0) matches Some(i) && st.0 == i + 1),
    ensures
        ({
            let end = run_from(st, outs, len, consensus);
            &&& end.0 == if consensus {
                len
            } else {
                match first_success(outs, len) {
                    Some(i) => i + 1,
                    None => len,
                }
            }
            &&& match first_success(outs, len) {
                Some(i) => i < end.0 && end.1 == Some(outs[i]->Ok_0),
                None => end.1 is None,
            }
        }),
    decreases len - st.0,
{
    lemma_first_success_bounds(outs, st.0);
    lemma_first_success_bounds(outs, len);
    if st.0 >= len || (st.1 is Some && !consensus) {
        if st.0 < len {
            let i = first_success(outs, st.0)->0;
            lemma_first_success_prefix(outs, st.0, len);
        }
    } else {
        let next = step(st, outs[st.0]);
        lemma_first_success_bounds(outs, st.0 + 1);
        assert(first_success(outs, st.0 + 1) == match first_success(outs, st.0) {
            Some(i) => Some(i),
            None => if outs[st.0] is Ok { Some(st.0) } else { None },
        });
        lemma_run_from(next, outs, len, consensus);
    }
}

/// A first success found among `n` answers stays the first among more.
proof fn lemma_first_success_prefix(outs: Seq<Result<(String, String), String>>, n: int, m: int)
    requires
        0 <= n <= m,
        first_success(outs, n) is Some,
    ensures
        first_success(outs, m) == first_success(outs, n),
    decreases m - n,
{
    if m > n {
        lemma_first_success_prefix(outs, n, m - 1);
    }
}

/// A whole parse run: started afresh over `len` parsers whose answers, in
/// order, are `outs`, it tries them in order and stops after the first
/// success unless consensus mode asks for every parser; its primary result
/// is the first success, and there is none only when every parser tried
/// failed.
pub proof fn lemma_parse_run(outs: Seq<Result<(String, String), String>>, len: int, consensus: bool)
    requires
        0 <= len <= outs.len(),
    ensures
        run_from((0, None), outs, len, consensus).0 == if consensus {
            len
        } else {
            match first_success(outs, len) {
                Some(i) => i + 1,
                None => len,
            }
        },
        run_from((0, None), outs, len, consensus).1 == match first_success(outs, len) {
            Some(i) => Some(outs[i]->Ok_0),
            None => None,
        },
{
    lemma_run_from((0, None), outs, len, consensus);
}

} // verus!
