//! Cache keys: `prefix "-" identifier ["-" suffix]`.
//!
//! The identifier is a commit identifier or a literal given by the caller.
//! A key is formed once and then compared as a whole, never taken apart, so
//! the delimiter is not escaped: a prefix or suffix that holds `-` is kept
//! as it is.

use vstd::prelude::*;
use vstd::string::*;

use crate::text::opt_text;

verus! {

/// The text of a cache key built from its parts.
pub open spec fn key_text(
    prefix: Seq<char>,
    identifier: Seq<char>,
    suffix: Option<Seq<char>>,
) -> Seq<char> {
    match suffix {
        Some(s) => prefix + seq!['-'] + identifier + seq!['-'] + s,
        None => prefix + seq!['-'] + identifier,
    }
}

/// Formats a cache key from a prefix, an identifier and an optional suffix.
pub fn format_cache_key_str(prefix: &str, key: String, suffix: Option<String>) -> (out: String)
    ensures
        out@ == key_text(prefix@, key@, opt_text(suffix)),
{
    proof {
        reveal_strlit("-");
    }
    let mut out = String::from_str(prefix);
    out.append("-");
    out.append(key.as_str());
    if let Some(s) = suffix {
        out.append("-");
        out.append(s.as_str());
    }
    assert("-"@ =~= seq!['-']);
    out
}

} // verus!
