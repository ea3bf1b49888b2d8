//! Reading a string out of a JSON document by a path of object keys.

use vstd::prelude::*;

verus! {

/// The views of a list of strings.
pub open spec fn string_views(ps: Seq<String>) -> Seq<Seq<char>> {
    ps.map_values(|s: String| s@)
}

/// The string a JSON text holds at a path of object keys: what `serde_json` parses out of
/// `body`, indexed by each key of `path` in turn; `None` where `body` is not JSON, a step
/// meets something other than an object or lacks its key, or the value at the end is not a
/// string.
pub uninterp spec fn json_str_path_at(body: Seq<char>, path: Seq<Seq<char>>) -> Option<Seq<char>>;

/// `serde_json::from_str` into a `serde_json::Value`, then `value[k]` for each key `k` of
/// `path`, then `as_str()`.
///
/// Trusted: the result is `json_str_path_at` of the text and the keys; indexing a value by a
/// key never panics (a missing key or a non-object reads as null).
#[verifier::external_body]
pub(crate) fn json_str_path(body: &str, path: &Vec<String>) -> (r: Option<String>)
    ensures
        match r {
            Some(s) => json_str_path_at(body@, string_views(path@)) == Some(s@),
            None => json_str_path_at(body@, string_views(path@)) is None,
        },
{
    let value: serde_json::Value = serde_json::from_str(body).ok()?;
    let mut at = &value;
    for key in path {
        at = &at[key.as_str()];
    }
    at.as_str().map(|s| s.to_string())
}

} // verus!
