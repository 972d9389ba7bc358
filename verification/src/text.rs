//! Views of strings held in options and vectors, and a substring test.

use vstd::prelude::*;

verus! {

/// The text of an optional string.
pub open spec fn opt_text(s: Option<String>) -> Option<Seq<char>> {
    match s {
        Some(t) => Some(t@),
        None => None,
    }
}

/// The texts of a sequence of strings, in order.
pub open spec fn texts(items: Seq<String>) -> Seq<Seq<char>> {
    Seq::new(items.len(), |i: int| items[i]@)
}

/// `pattern` occurs in `text` as a contiguous run of characters.
pub open spec fn occurs_in(pattern: Seq<char>, text: Seq<char>) -> bool {
    exists|i: int|
        0 <= i && i + pattern.len() <= text.len() && #[trigger] text.subrange(
            i,
            i + pattern.len(),
        ) == pattern
}

/// Appending one string extends the texts by its text.
pub proof fn lemma_texts_push(items: Seq<String>, item: String)
    ensures
        texts(items.push(item)) == texts(items).push(item@),
{
    assert(texts(items.push(item)) =~= texts(items).push(item@));
}

/// A copy of an optional string.
pub fn clone_opt(s: &Option<String>) -> (out: Option<String>)
    ensures
        opt_text(out) == opt_text(*s),
{
    match s {
        Some(t) => Some(t.clone()),
        None => None,
    }
}

/// Calls `str::contains` with a string pattern. Trusted: the result tells
/// whether `pattern` occurs in `text` as a contiguous run of characters.
#[verifier::external_body]
pub(crate) fn contains_text(text: &str, pattern: &str) -> (found: bool)
    ensures
        found == occurs_in(pattern@, text@),
{
    text.contains(pattern)
}

} // verus!
