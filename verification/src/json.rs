//! JSON, parsed and pretty-printed by `serde_json`.

use vstd::prelude::*;

verus! {

/// What `serde_json` makes of a text: where `from_str::<serde_json::Value>`
/// accepts it, `Ok` of what `to_string_pretty` prints for the parsed value;
/// else `Err` of the parse error's message.
pub uninterp spec fn json_reformat(text: Seq<char>) -> Result<Seq<char>, Seq<char>>;

/// Whether `serde_json::from_str::<serde_json::Value>` accepts the text.
pub uninterp spec fn json_parses(text: Seq<char>) -> bool;

/// The view of a text result.
pub open spec fn result_view(r: Result<String, String>) -> Result<Seq<char>, Seq<char>> {
    match r {
        Ok(s) => Ok(s@),
        Err(e) => Err(e@),
    }
}

/// `serde_json::from_str::<serde_json::Value>` (whether it accepts the text
/// is `json_parses`) and, where it parses, `serde_json::to_string_pretty` of
/// the value; an error becomes its `Display` text. The result is a function
/// of the text (`json_reformat`). Pretty-printing a parsed `Value` does not fail: serde_json's
/// documentation names only a failing `Serialize` impl and non-string map
/// keys as causes, and a `Value`'s impl fails only where its writer does,
/// here a `Vec`. So the result is `Ok` exactly where the text parses.
#[verifier::external_body]
pub(crate) fn reformat_json(text: &str) -> (r: Result<String, String>)
    ensures
        result_view(r) == json_reformat(text@),
        r is Ok <==> json_parses(text@),
{
    let value = match serde_json::from_str::<serde_json::Value>(text) {
        Ok(v) => v,
        Err(e) => return Err(e.to_string()),
    };
    match serde_json::to_string_pretty(&value) {
        Ok(s) => Ok(s),
        Err(e) => Err(e.to_string()),
    }
}

} // verus!
