//! JSON texts parsed by `serde_json`, each held together with the text it
//! was parsed from.
//!
//! A `JsonDocument` can only be made by `parse_json`, which builds its value
//! with `serde_json::from_str` from the text it keeps; so what is read from
//! the value is a function of that text alone.
use vstd::prelude::*;

use serde_json::Value;

verus! {

#[verifier::external_type_specification]
#[verifier::external_body]
pub struct ExJsonValue(Value);

/// Whether `serde_json::from_str::<Value>` accepts the text.
pub uninterp spec fn json_parses(text: Seq<char>) -> bool;

/// Whether `Value::get` finds `key` in the value parsed from `text`: it does
/// only where that value is an object with such a key.
pub uninterp spec fn json_has_field(text: Seq<char>, key: Seq<char>) -> bool;

/// What `serde_json::to_string` writes for the value parsed from `text`:
/// its compact encoding, or `None` where serialising fails.
pub uninterp spec fn json_compact(text: Seq<char>) -> Option<Seq<char>>;

/// A value that `serde_json::from_str` parsed from `source`. The fields are
/// private so that no other value can stand beside that text.
pub struct JsonDocument {
    source: String,
    value: Value,
}

impl JsonDocument {
    /// The text the value was parsed from.
    pub closed spec fn source(&self) -> Seq<char> {
        self.source@
    }
}

/// `serde_json::from_str::<Value>`: the parsed document when the text is
/// JSON. The contract claims that success depends on the text alone; the
/// JSON grammar is not restated.
#[verifier::external_body]
pub(crate) fn parse_json(text: &str) -> (r: Option<JsonDocument>)
    ensures
        r is Some <==> json_parses(text@),
        r matches Some(d) ==> d.source() == text@,
{
    match serde_json::from_str::<Value>(text) {
        Ok(value) => Some(JsonDocument { source: text.to_string(), value }),
        Err(_) => None,
    }
}

/// `Value::get` with a string key: whether the document has that field.
/// The contract claims only that the answer depends on the text and the key.
#[verifier::external_body]
pub(crate) fn json_field_present(d: &JsonDocument, key: &str) -> (r: bool)
    ensures
        r == json_has_field(d.source(), key@),
{
    d.value.get(key).is_some()
}

/// `serde_json::to_string` on the document's value. The contract claims
/// only that the result depends on the text; the encoding is not restated.
#[verifier::external_body]
pub(crate) fn json_encode(d: &JsonDocument) -> (r: Option<String>)
    ensures
        match r {
            Some(s) => json_compact(d.source()) == Some(s@),
            None => json_compact(d.source()) is None,
        },
{
    serde_json::to_string(&d.value).ok()
}

} // verus!
