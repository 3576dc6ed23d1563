use vstd::prelude::*;

verus! {

/// The lower-case form of a text, as `str::to_lowercase` computes it.
pub uninterp spec fn lower_of(s: Seq<char>) -> Seq<char>;

/// `needle` occurs in `hay` as a contiguous run of characters.
pub open spec fn is_substring(needle: Seq<char>, hay: Seq<char>) -> bool {
    exists|i: int| 0 <= i && i + needle.len() <= hay.len() &&
        #[trigger] hay.subrange(i, i + needle.len()) == needle
}

/// Whether a command is shown under a search: with no query every command is,
/// else those that hold the query, both folded to lower case.
pub open spec fn query_matches(query: Option<Seq<char>>, cmd: Seq<char>) -> bool {
    match query {
        None => true,
        Some(q) => is_substring(lower_of(q), lower_of(cmd)),
    }
}

/// The text of an optional query.
pub open spec fn query_view(query: Option<&str>) -> Option<Seq<char>> {
    match query {
        Some(q) => Some(q@),
        None => None,
    }
}

/// Relies on `str::to_lowercase`: the result depends on the characters alone,
/// and an empty text stays empty.
#[verifier::external_body]
pub(crate) fn lowercase(s: &str) -> (r: String)
    ensures
        r@ == lower_of(s@),
        s@.len() == 0 ==> r@.len() == 0,
{
    s.to_lowercase()
}

/// Relies on `str::contains` with a `&str` pattern: true exactly when the
/// pattern occurs in the text.
#[verifier::external_body]
fn str_contains(hay: &str, needle: &str) -> (r: bool)
    ensures
        r == is_substring(needle@, hay@),
{
    hay.contains(needle)
}

/// Whether a command, already folded to lower case, holds a query that is
/// folded too.
pub fn contains_folded(folded_cmd: &str, folded_query: &str) -> (r: bool)
    ensures
        r == is_substring(folded_query@, folded_cmd@),
{
    str_contains(folded_cmd, folded_query)
}

/// Whether `cmd` is shown under the search `query` (case-insensitive
/// substring; no query shows everything).
pub fn matches_query(query: Option<&str>, cmd: &str) -> (r: bool)
    ensures
        r == query_matches(query_view(query), cmd@),
{
    match query {
        None => true,
        Some(q) => {
            let fq = lowercase(q);
            let fc = lowercase(cmd);
            contains_folded(fc.as_str(), fq.as_str())
        },
    }
}

} // verus!
