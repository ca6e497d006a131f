//! The calls that this library makes into `regex` and `serde_json`, with
//! what their contracts claim of them.
use vstd::prelude::*;

verus! {

/// What `regex` reports for a pattern and a haystack: `None` when
/// `Regex::new` refuses the pattern, else, for each successive
/// non-overlapping match that `captures_iter` yields, the text of every
/// capture group in order (group 0 being the whole match), `None` for a
/// group that did not take part in the match.
pub uninterp spec fn regex_captures_all(pattern: Seq<char>, haystack: Seq<char>) -> Option<Seq<Seq<Option<Seq<char>>>>>;

/// The views of the capture groups of a list of matches.
pub open spec fn captures_view(ms: Seq<Vec<Option<String>>>) -> Seq<Seq<Option<Seq<char>>>> {
    Seq::new(
        ms.len(),
        |i: int|
            Seq::new(
                ms[i]@.len(),
                |j: int|
                    match ms[i]@[j] {
                        Some(s) => Some(s@),
                        None => None,
                    },
            ),
    )
}

/// Compiles `pattern` with `regex::Regex::new` and collects, for every match
/// of `Regex::captures_iter` on `haystack`, the texts of `Captures::iter`.
/// Claimed: the result is `regex_captures_all` of the two arguments.  What
/// the matches are is not stated here: it is the regex crate's matching.
#[verifier::external_body]
pub(crate) fn regex_captures(pattern: &str, haystack: &str) -> (r: Option<Vec<Vec<Option<String>>>>)
    ensures
        match r {
            Some(ms) => regex_captures_all(pattern@, haystack@) == Some(captures_view(ms@)),
            None => regex_captures_all(pattern@, haystack@) is None,
        },
{
    let re = regex::Regex::new(pattern).ok()?;
    let mut all = Vec::new();
    for caps in re.captures_iter(haystack) {
        let mut groups = Vec::new();
        for m in caps.iter() {
            groups.push(match m {
                Some(m) => Some(m.as_str().to_string()),
                None => None,
            });
        }
        all.push(groups);
    }
    Some(all)
}

#[verifier::external_type_specification]
#[verifier::external_body]
#[verifier::reject_recursive_types(K)]
#[verifier::reject_recursive_types(V)]
pub struct ExJsonMap<K, V>(serde_json::Map<K, V>);

#[verifier::external_type_specification]
#[verifier::external_body]
pub struct ExJsonValue(serde_json::Value);

/// The keys of a JSON object map.
pub uninterp spec fn json_map_keys(m: serde_json::Map<String, serde_json::Value>) -> Set<Seq<char>>;

/// `serde_json::Map::new`, documented to make a new empty map.
/// Claimed: the new map has no keys.
#[verifier::external_body]
pub(crate) fn new_json_map() -> (m: serde_json::Map<String, serde_json::Value>)
    ensures
        json_map_keys(m) == Set::<Seq<char>>::empty(),
{
    serde_json::Map::new()
}

/// `serde_json::Map::clone`, which clones the underlying `BTreeMap` entry by
/// entry (keys and JSON values both cloned).  Claimed: the clone is the same
/// map value.
#[verifier::external_body]
pub(crate) fn clone_json_map(m: &serde_json::Map<String, serde_json::Value>) -> (r: serde_json::Map<
    String,
    serde_json::Value,
>)
    ensures
        r == *m,
{
    m.clone()
}

/// What `format!("{:?}", s)` writes for a string `s`: `s` between double
/// quotes, with the characters that `str::escape_debug` escapes escaped.
pub uninterp spec fn str_debug_text(s: Seq<char>) -> Seq<char>;

/// The `Debug` text of a string, `format!("{:?}", s)`.
/// Claimed: the result is `str_debug_text` of `s`; the escaping itself is
/// not stated here.
#[verifier::external_body]
pub(crate) fn debug_str(s: &str) -> (r: String)
    ensures
        r@ == str_debug_text(s@),
{
    format!("{:?}", s)
}

} // verus!
