//! Regular expressions from the `regex` crate, held together with the
//! pattern they were compiled from.
//!
//! A `CompiledPattern` can only be made by `compile_regex`, which builds its
//! regex with `Regex::new` from the pattern it keeps; so whether it matches a
//! text is a function of that pattern and the text alone.
use vstd::prelude::*;

use regex::Regex;

verus! {

#[verifier::external_type_specification]
#[verifier::external_body]
pub struct ExRegex(Regex);

/// Whether `regex::Regex::new` accepts the pattern.
pub uninterp spec fn regex_compiles(pattern: Seq<char>) -> bool;

/// Whether the regex that `Regex::new` builds from `pattern` matches
/// somewhere in `haystack` (what its `is_match` returns).
pub uninterp spec fn regex_is_match(pattern: Seq<char>, haystack: Seq<char>) -> bool;

/// A regex built by `Regex::new` from `pattern`. The fields are private so
/// that no other regex (one from a `RegexBuilder`, say) can stand here.
pub struct CompiledPattern {
    pattern: String,
    regex: Regex,
}

impl CompiledPattern {
    /// The pattern the regex was built from.
    pub closed spec fn pattern(&self) -> Seq<char> {
        self.pattern@
    }
}

/// `regex::Regex::new`: a compiled pattern when the pattern is accepted. The
/// contract claims that success depends on the pattern alone; the regex
/// grammar is not restated.
#[verifier::external_body]
pub(crate) fn compile_regex(pattern: &str) -> (r: Option<CompiledPattern>)
    ensures
        r is Some <==> regex_compiles(pattern@),
        r matches Some(p) ==> p.pattern() == pattern@,
{
    match Regex::new(pattern) {
        Ok(regex) => Some(CompiledPattern { pattern: pattern.to_string(), regex }),
        Err(_) => None,
    }
}

/// `regex::Regex::is_match` on a regex that `Regex::new` built: whether it
/// matches somewhere in `text`. The contract claims only that the answer
/// depends on the pattern and the text; the matching semantics are not
/// restated.
#[verifier::external_body]
pub(crate) fn regex_matches(p: &CompiledPattern, text: &str) -> (r: bool)
    ensures
        r == regex_is_match(p.pattern(), text@),
{
    p.regex.is_match(text)
}

} // verus!
