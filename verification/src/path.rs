//! Archive-internal path names: `/`-separated text.
//!
//! An archived entry is named by an alias followed by the path below it. The
//! functions here take such a name apart and put an output path together.

use vstd::prelude::*;
use vstd::string::*;

verus! {

/// The character that separates the components of a path.
pub const SEPARATOR: char = '/';

/// The text before the first separator of `path`; all of it where it holds none.
pub open spec fn leading_component(path: Seq<char>) -> Seq<char> {
    match path.index_of_first(SEPARATOR) {
        Some(k) => path.take(k),
        None => path,
    }
}

/// The text behind the first separator of `path`; empty where it holds none.
pub open spec fn below_leading(path: Seq<char>) -> Seq<char> {
    match path.index_of_first(SEPARATOR) {
        Some(k) => path.skip(k + 1),
        None => Seq::empty(),
    }
}

/// `base` extended by the relative path `below`. An empty `below` leaves
/// `base` as it is; a separator is put between the two unless `base` is empty
/// or already ends in one.
pub open spec fn join_path(base: Seq<char>, below: Seq<char>) -> Seq<char> {
    if below.len() == 0 {
        base
    } else if base.len() == 0 || base.last() == SEPARATOR {
        base + below
    } else {
        base + seq![SEPARATOR] + below
    }
}

/// `k` is the position of the first separator of `path`, or its length where
/// it holds none.
pub open spec fn is_first_separator(path: Seq<char>, k: int) -> bool {
    &&& 0 <= k <= path.len()
    &&& forall|j: int| 0 <= j < k ==> path[j] != SEPARATOR
    &&& k < path.len() ==> path[k] == SEPARATOR
}

/// The two parts of a path are fixed by the position of its first separator.
pub proof fn lemma_first_separator(path: Seq<char>, k: int)
    requires
        is_first_separator(path, k),
    ensures
        leading_component(path) == path.take(k),
        k < path.len() ==> below_leading(path) == path.skip(k + 1),
        k == path.len() ==> below_leading(path) == Seq::<char>::empty(),
{
    path.index_of_first_ensures(SEPARATOR);
    match path.index_of_first(SEPARATOR) {
        Some(first) => {
            assert(path[first] == SEPARATOR);
            if first < k {
                assert(path[first] != SEPARATOR);
            }
            if k < first {
                assert(path[k] == SEPARATOR);
            }
            assert(first == k);
        },
        None => {
            if k < path.len() {
                assert(path.contains(path[k]));
            }
            assert(path.take(k) == path);
        },
    }
}

/// A name made of a component without separator, a separator and a path
/// below it is taken apart into exactly these two parts.
pub proof fn lemma_split_of_join(component: Seq<char>, below: Seq<char>)
    requires
        !component.contains(SEPARATOR),
    ensures
        leading_component(component) == component,
        below_leading(component) == Seq::<char>::empty(),
        leading_component(component + seq![SEPARATOR] + below) == component,
        below_leading(component + seq![SEPARATOR] + below) == below,
{
    assert forall|j: int| 0 <= j < component.len() implies component[j] != SEPARATOR by {
        if component[j] == SEPARATOR {
            assert(component.contains(component[j]));
        }
    }
    lemma_first_separator(component, component.len() as int);
    assert(component.take(component.len() as int) == component);
    let name = component + seq![SEPARATOR] + below;
    let k = component.len() as int;
    assert(name[k] == SEPARATOR);
    assert forall|j: int| 0 <= j < k implies name[j] != SEPARATOR by {
        assert(name[j] == component[j]);
    }
    lemma_first_separator(name, k);
    assert(name.take(k) == component);
    assert(name.skip(k + 1) == below);
}

/// The position of the first separator of `path`, or the number of its
/// characters where it holds none.
pub fn first_separator(path: &str) -> (k: usize)
    ensures
        is_first_separator(path@, k as int),
{
    let n = path.unicode_len();
    let mut k: usize = 0;
    for c in it: path.chars()
        invariant
            n == path@.len(),
            k == it.index(),
            it.seq() == path@,
            forall|j: int| 0 <= j < k ==> path@[j] != SEPARATOR,
    {
        if c == SEPARATOR {
            return k;
        }
        k = k + 1;
    }
    k
}

/// Takes an entry's name apart: its leading component, and the path below it.
pub fn split_leading(path: &str) -> (parts: (String, String))
    ensures
        parts.0@ == leading_component(path@),
        parts.1@ == below_leading(path@),
{
    let n = path.unicode_len();
    let k = first_separator(path);
    proof {
        lemma_first_separator(path@, k as int);
    }
    let leading = String::from_str(path.substring_char(0, k));
    assert(path@.subrange(0, k as int) == path@.take(k as int));
    if k < n {
        let below = String::from_str(path.substring_char(k + 1, n));
        assert(path@.subrange(k + 1, n as int) == path@.skip(k + 1));
        (leading, below)
    } else {
        (leading, String::new())
    }
}

/// Puts an output path together from a base path and the path below it.
pub fn join(base: &str, below: &str) -> (out: String)
    ensures
        out@ == join_path(base@, below@),
{
    let mut out = String::from_str(base);
    if below.unicode_len() == 0 {
        return out;
    }
    let n = base.unicode_len();
    if n > 0 && base.get_char(n - 1) != SEPARATOR {
        proof {
            reveal_strlit("/");
        }
        out.append("/");
        assert("/"@ == seq![SEPARATOR]);
    }
    out.append(below);
    out
}

} // verus!
