//! Cache key resolution: the key under which a run saves its cache, and the
//! ordered list of keys that a run probes to restore one.
//!
//! The repository itself is read elsewhere. The functions here work on what
//! was read: commit identifiers as text, the parents of HEAD, the commit that
//! the trunk reference points to, and the ancestry walked from HEAD.

use vstd::prelude::*;
use vstd::seq_lib::lemma_flatten_concat;
use vstd::string::*;

use crate::error::CacheError;
use crate::key::{format_cache_key_str, key_text};
use crate::text::{clone_opt, contains_text, lemma_texts_push, occurs_in, opt_text, texts};

verus! {

/// The number of walked commits that are considered at most.
pub const MAX_WALKED_COMMITS: usize = 10;

/// The remote-tracking reference that names the trunk.
pub const TRUNK_REFERENCE: &'static str = "origin/main";

/// The remote-tracking reference that names the trunk where
/// `TRUNK_REFERENCE` does not exist.
pub const OLDER_TRUNK_REFERENCE: &'static str = "origin/master";

/// What a continuous-integration reference holds when a pull request is built.
pub const PULL_REQUEST_MARK: &'static str = "refs/pull/";

/// A commit as the resolver sees it: its identifier and those of its parents,
/// in order. A root commit has no parent, a merge commit two or more.
pub struct Commit {
    pub id: String,
    pub parents: Vec<String>,
}

/// Where the identifier of the key to save under comes from.
pub enum KeySource {
    /// A literal given by the caller; the repository is not consulted.
    Fixed(String),
    /// The state of the repository.
    Head { head: Commit, trunk: String, merge_request: bool },
}

/// The first of `ids` that differs from `trunk`, if there is one.
pub open spec fn first_other(ids: Seq<Seq<char>>, trunk: Seq<char>) -> Option<Seq<char>>
    decreases ids.len(),
{
    if ids.len() == 0 {
        None
    } else if ids[0] != trunk {
        Some(ids[0])
    } else {
        first_other(ids.drop_first(), trunk)
    }
}

/// The identifier a run saves under. When a merge request is being built and
/// HEAD is a merge commit, it is the first parent that is not the trunk
/// commit; in every other case it is HEAD itself.
pub open spec fn save_identifier(
    head: Seq<char>,
    parents: Seq<Seq<char>>,
    trunk: Seq<char>,
    merge_request: bool,
) -> Seq<char> {
    if merge_request && parents.len() > 1 {
        match first_other(parents, trunk) {
            Some(parent) => parent,
            None => head,
        }
    } else {
        head
    }
}

/// The identifier that a key source stands for.
pub open spec fn source_identifier(source: KeySource) -> Seq<char> {
    match source {
        KeySource::Fixed(literal) => literal@,
        KeySource::Head { head, trunk, merge_request } => save_identifier(
            head.id@,
            texts(head.parents@),
            trunk@,
            merge_request,
        ),
    }
}

/// What `first_other` picks: the entry at the least position that differs
/// from `trunk`, and nothing where every entry equals it.
pub proof fn lemma_first_other(ids: Seq<Seq<char>>, trunk: Seq<char>)
    ensures
        match first_other(ids, trunk) {
            Some(id) => exists|k: int|
                0 <= k < ids.len() && #[trigger] ids[k] == id && id != trunk && forall|j: int|
                    0 <= j < k ==> ids[j] == trunk,
            None => forall|j: int| 0 <= j < ids.len() ==> ids[j] == trunk,
        },
    decreases ids.len(),
{
    if ids.len() == 0 {
    } else if ids[0] != trunk {
        assert(ids[0] == first_other(ids, trunk).unwrap());
    } else {
        let rest = ids.drop_first();
        lemma_first_other(rest, trunk);
        match first_other(rest, trunk) {
            Some(id) => {
                let k = choose|k: int|
                    0 <= k < rest.len() && #[trigger] rest[k] == id && id != trunk && forall|j: int|
                        0 <= j < k ==> rest[j] == trunk;
                assert(ids[k + 1] == id);
                assert forall|j: int| 0 <= j < k + 1 implies ids[j] == trunk by {
                    if j > 0 {
                        assert(ids[j] == rest[j - 1]);
                    }
                }
            },
            None => {
                assert forall|j: int| 0 <= j < ids.len() implies ids[j] == trunk by {
                    if j > 0 {
                        assert(ids[j] == rest[j - 1]);
                    }
                }
            },
        }
    }
}

/// Tells whether a continuous-integration reference marks a run that builds a
/// pull request: it does when it holds `refs/pull/`.
pub fn in_merge_request_ci(ci_ref: Option<&str>) -> (marked: bool)
    ensures
        marked == match ci_ref {
            Some(r) => occurs_in(PULL_REQUEST_MARK@, r@),
            None => false,
        },
{
    match ci_ref {
        Some(r) => contains_text(r, PULL_REQUEST_MARK),
        None => false,
    }
}

/// Picks the trunk commit from what the two remote-tracking references
/// resolve to: that of `origin/main` where it exists, else that of
/// `origin/master`. Without either there is no trunk.
pub fn main_commit(origin_main: Option<String>, origin_master: Option<String>) -> (trunk: Result<
    String,
    CacheError,
>)
    ensures
        origin_main is Some ==> trunk is Ok && trunk->Ok_0 == origin_main->Some_0,
        origin_main is None && origin_master is Some ==> trunk is Ok && trunk->Ok_0
            == origin_master->Some_0,
        origin_main is None && origin_master is None ==> trunk == Err::<String, CacheError>(
            CacheError::TrunkNotFound,
        ),
{
    match origin_main {
        Some(id) => Ok(id),
        None => match origin_master {
            Some(id) => Ok(id),
            None => Err(CacheError::TrunkNotFound),
        },
    }
}

/// The identifier to save under, given HEAD, the trunk commit and whether a
/// merge request is being built.
pub fn effective_identifier(head: &Commit, trunk: &String, merge_request: bool) -> (id: String)
    ensures
        id@ == save_identifier(head.id@, texts(head.parents@), trunk@, merge_request),
{
    if merge_request && head.parents.len() > 1 {
        let mut i: usize = 0;
        assert(texts(head.parents@).skip(0) == texts(head.parents@));
        while i < head.parents.len()
            invariant
                merge_request,
                head.parents.len() > 1,
                i <= head.parents.len(),
                first_other(texts(head.parents@), trunk@) == first_other(
                    texts(head.parents@).skip(i as int),
                    trunk@,
                ),
            decreases head.parents.len() - i,
        {
            let ghost rest = texts(head.parents@).skip(i as int);
            assert(rest[0] == head.parents@[i as int]@);
            assert(rest.drop_first() == texts(head.parents@).skip(i + 1));
            if head.parents[i] != *trunk {
                return head.parents[i].clone();
            }
            assert(rest[0] == trunk@);
            i = i + 1;
        }
        assert(texts(head.parents@).skip(i as int).len() == 0);
    }
    head.id.clone()
}

/// The key under which the current state of the repository saves its cache.
pub fn current_key(
    prefix: &str,
    suffix: Option<String>,
    head: &Commit,
    trunk: &String,
    merge_request: bool,
) -> (key: String)
    ensures
        key@ == key_text(
            prefix@,
            save_identifier(head.id@, texts(head.parents@), trunk@, merge_request),
            opt_text(suffix),
        ),
{
    let id = effective_identifier(head, trunk, merge_request);
    format_cache_key_str(prefix, id, suffix)
}

/// The key to save under: formed from the literal where one is given, else
/// from the state of the repository.
pub fn primary_key(prefix: &str, suffix: Option<String>, source: &KeySource) -> (key: String)
    ensures
        key@ == key_text(prefix@, source_identifier(*source), opt_text(suffix)),
{
    match source {
        KeySource::Fixed(literal) => format_cache_key_str(prefix, literal.clone(), suffix),
        KeySource::Head { head, trunk, merge_request } => current_key(
            prefix,
            suffix,
            head,
            trunk,
            *merge_request,
        ),
    }
}

/// Tells a commit apart from the trunk commit.
pub open spec fn differs_from(trunk: Seq<char>) -> spec_fn(Seq<char>) -> bool {
    |id: Seq<char>| id != trunk
}

/// The keys that one identifier contributes: with a suffix the suffixed key
/// and then the bare one, without a suffix the bare key alone.
pub open spec fn key_pair(prefix: Seq<char>, id: Seq<char>, suffix: Option<Seq<char>>) -> Seq<
    Seq<char>,
> {
    match suffix {
        Some(s) => seq![key_text(prefix, id, Some(s)), key_text(prefix, id, None)],
        None => seq![key_text(prefix, id, None)],
    }
}

/// The number of keys that one identifier contributes.
pub open spec fn keys_per_identifier(suffix: Option<Seq<char>>) -> nat {
    if suffix is Some {
        2
    } else {
        1
    }
}

/// Maps an identifier to the keys it contributes.
pub open spec fn pair_of(prefix: Seq<char>, suffix: Option<Seq<char>>) -> spec_fn(Seq<char>) -> Seq<
    Seq<char>,
> {
    |id: Seq<char>| key_pair(prefix, id, suffix)
}

/// The keys of a list of identifiers, in the order of the identifiers.
pub open spec fn keys_of(prefix: Seq<char>, suffix: Option<Seq<char>>, ids: Seq<Seq<char>>) -> Seq<
    Seq<char>,
> {
    ids.map_values(pair_of(prefix, suffix)).flatten()
}

/// The part of a walk that is looked at: its first ten commits.
pub open spec fn considered(walk: Seq<Seq<char>>) -> Seq<Seq<char>> {
    if walk.len() > MAX_WALKED_COMMITS {
        walk.take(MAX_WALKED_COMMITS as int)
    } else {
        walk
    }
}

/// The walked commits whose keys are probed: those among the first ten of
/// the walk that are not the trunk commit, nearest ancestor first.
pub open spec fn walked_commits(trunk: Seq<char>, walk: Seq<Seq<char>>) -> Seq<Seq<char>> {
    considered(walk).filter(differs_from(trunk))
}

/// The identifiers whose keys are probed, in probing order: the walked
/// commits, then the fallback literal where one is given, then the trunk.
pub open spec fn probe_identifiers(
    fallback: Option<Seq<char>>,
    trunk: Seq<char>,
    walk: Seq<Seq<char>>,
) -> Seq<Seq<char>> {
    let literal = match fallback {
        Some(f) => seq![f],
        None => Seq::empty(),
    };
    walked_commits(trunk, walk) + literal + seq![trunk]
}

/// The keys to probe when restoring, in probing order.
pub open spec fn restore_candidates(
    prefix: Seq<char>,
    suffix: Option<Seq<char>>,
    fallback: Option<Seq<char>>,
    trunk: Seq<char>,
    walk: Seq<Seq<char>>,
) -> Seq<Seq<char>> {
    keys_of(prefix, suffix, probe_identifiers(fallback, trunk, walk))
}

/// One more identifier adds its keys at the end.
pub proof fn lemma_keys_of_push(
    prefix: Seq<char>,
    suffix: Option<Seq<char>>,
    ids: Seq<Seq<char>>,
    id: Seq<char>,
)
    ensures
        keys_of(prefix, suffix, ids.push(id)) == keys_of(prefix, suffix, ids) + key_pair(
            prefix,
            id,
            suffix,
        ),
{
    let pair = pair_of(prefix, suffix);
    assert(ids.push(id).map_values(pair) == ids.map_values(pair).push(pair(id)));
    ids.map_values(pair).lemma_flatten_push(pair(id));
}

/// Every identifier contributes the same number of keys.
pub proof fn lemma_keys_of_len(prefix: Seq<char>, suffix: Option<Seq<char>>, ids: Seq<Seq<char>>)
    ensures
        keys_of(prefix, suffix, ids).len() == keys_per_identifier(suffix) * ids.len(),
    decreases ids.len(),
{
    if ids.len() == 0 {
        assert(ids.map_values(pair_of(prefix, suffix)) == Seq::<Seq<Seq<char>>>::empty());
    } else {
        let front = ids.drop_last();
        assert(ids == front.push(ids.last()));
        lemma_keys_of_len(prefix, suffix, front);
        lemma_keys_of_push(prefix, suffix, front, ids.last());
        assert(keys_per_identifier(suffix) * ids.len() == keys_per_identifier(suffix) * front.len()
            + keys_per_identifier(suffix)) by (nonlinear_arith)
            requires
                ids.len() == front.len() + 1,
        ;
    }
}

/// The list of candidates always ends with the bare key of the trunk commit.
pub proof fn lemma_candidates_end_with_trunk(
    prefix: Seq<char>,
    suffix: Option<Seq<char>>,
    fallback: Option<Seq<char>>,
    trunk: Seq<char>,
    walk: Seq<Seq<char>>,
)
    ensures
        restore_candidates(prefix, suffix, fallback, trunk, walk).len() > 0,
        restore_candidates(prefix, suffix, fallback, trunk, walk).last() == key_text(
            prefix,
            trunk,
            None,
        ),
{
    let ids = probe_identifiers(fallback, trunk, walk);
    let front = ids.drop_last();
    assert(ids == front.push(trunk));
    lemma_keys_of_push(prefix, suffix, front, trunk);
}

/// The length of the list of candidates: every probed identifier contributes
/// one key, or two where a suffix is given. The identifiers are the walked
/// commits, at most ten, the fallback literal where one is given, and the
/// trunk commit.
pub proof fn lemma_candidates_len(
    prefix: Seq<char>,
    suffix: Option<Seq<char>>,
    fallback: Option<Seq<char>>,
    trunk: Seq<char>,
    walk: Seq<Seq<char>>,
)
    ensures
        walked_commits(trunk, walk).len() <= MAX_WALKED_COMMITS,
        walked_commits(trunk, walk).len() <= walk.len(),
        restore_candidates(prefix, suffix, fallback, trunk, walk).len() == keys_per_identifier(
            suffix,
        ) * (walked_commits(trunk, walk).len() + (if fallback is Some {
            1nat
        } else {
            0nat
        }) + 1),
        suffix is Some ==> restore_candidates(prefix, suffix, fallback, trunk, walk).len() % 2 == 0,
{
    considered(walk).lemma_filter_len(differs_from(trunk));
    let ids = probe_identifiers(fallback, trunk, walk);
    lemma_keys_of_len(prefix, suffix, ids);
    if suffix is Some {
        assert(keys_of(prefix, suffix, ids).len() == 2 * ids.len());
    }
}

/// The keys of the walked commits come first in the list of candidates, and
/// none of them is derived from the trunk commit or from a commit beyond the
/// tenth of the walk.
pub proof fn lemma_walked_portion(
    prefix: Seq<char>,
    suffix: Option<Seq<char>>,
    fallback: Option<Seq<char>>,
    trunk: Seq<char>,
    walk: Seq<Seq<char>>,
)
    ensures
        keys_of(prefix, suffix, walked_commits(trunk, walk)).len() <= keys_per_identifier(suffix)
            * MAX_WALKED_COMMITS,
        keys_of(prefix, suffix, walked_commits(trunk, walk)).is_prefix_of(
            restore_candidates(prefix, suffix, fallback, trunk, walk),
        ),
        forall|i: int|
            0 <= i < walked_commits(trunk, walk).len() ==> {
                &&& (#[trigger] walked_commits(trunk, walk)[i]) != trunk
                &&& considered(walk).contains(walked_commits(trunk, walk)[i])
            },
{
    let commits = walked_commits(trunk, walk);
    let literal = match fallback {
        Some(f) => seq![f],
        None => Seq::empty(),
    };
    let pair = pair_of(prefix, suffix);
    considered(walk).lemma_filter_len(differs_from(trunk));
    lemma_keys_of_len(prefix, suffix, commits);
    assert(keys_per_identifier(suffix) * commits.len() <= keys_per_identifier(suffix)
        * MAX_WALKED_COMMITS) by (nonlinear_arith)
        requires
            commits.len() <= MAX_WALKED_COMMITS,
    ;
    let tail = literal + seq![trunk];
    assert(probe_identifiers(fallback, trunk, walk) == commits + tail);
    assert((commits + tail).map_values(pair) == commits.map_values(pair) + tail.map_values(pair));
    lemma_flatten_concat(commits.map_values(pair), tail.map_values(pair));
    assert forall|i: int| 0 <= i < commits.len() implies {
        &&& (#[trigger] commits[i]) != trunk
        &&& considered(walk).contains(commits[i])
    } by {
        considered(walk).lemma_filter_pred(differs_from(trunk), i);
        assert(commits.contains(commits[i]));
        considered(walk).lemma_filter_contains_rev(differs_from(trunk), commits[i]);
    }
}

/// Where the walk from HEAD stops: nowhere when HEAD is the trunk commit
/// itself, else at the trunk commit, which is then not part of the walk.
pub fn walk_boundary(head: &String, trunk: &String) -> (boundary: Option<String>)
    ensures
        head@ == trunk@ ==> boundary is None,
        head@ != trunk@ ==> boundary is Some && boundary->Some_0@ == trunk@,
{
    if *head == *trunk {
        None
    } else {
        Some(trunk.clone())
    }
}

/// Appends the keys of one identifier to `keys`.
fn push_key_pair(keys: &mut Vec<String>, prefix: &str, id: &String, suffix: &Option<String>)
    ensures
        texts(final(keys)@) == texts(old(keys)@) + key_pair(prefix@, id@, opt_text(*suffix)),
{
    let ghost before = keys@;
    if suffix.is_some() {
        let suffixed = format_cache_key_str(prefix, id.clone(), clone_opt(suffix));
        proof {
            lemma_texts_push(keys@, suffixed);
        }
        keys.push(suffixed);
    }
    let bare = format_cache_key_str(prefix, id.clone(), None);
    proof {
        lemma_texts_push(keys@, bare);
    }
    keys.push(bare);
    assert(texts(keys@) == texts(before) + key_pair(prefix@, id@, opt_text(*suffix)));
}

/// The ordered list of keys to probe when restoring: for each of the first
/// ten walked commits that is not the trunk commit its keys, nearest ancestor
/// first; then the keys of the fallback literal where one is given; last the
/// keys of the trunk commit.
pub fn possible_restore_keys(
    prefix: &str,
    suffix: Option<String>,
    fallback_key: Option<String>,
    trunk: &String,
    ancestry: &Vec<String>,
) -> (keys: Vec<String>)
    ensures
        texts(keys@) == restore_candidates(
            prefix@,
            opt_text(suffix),
            opt_text(fallback_key),
            trunk@,
            texts(ancestry@),
        ),
{
    let ghost walk = texts(ancestry@);
    let ghost wanted = differs_from(trunk@);
    let limit = if ancestry.len() > MAX_WALKED_COMMITS {
        MAX_WALKED_COMMITS
    } else {
        ancestry.len()
    };
    assert(considered(walk) == walk.take(limit as int));
    let mut keys: Vec<String> = Vec::new();
    let mut i: usize = 0;
    assert(walk.take(0) == Seq::<Seq<char>>::empty());
    assert(texts(keys@) == Seq::<Seq<char>>::empty());
    proof {
        reveal(Seq::filter);
        lemma_keys_of_len(prefix@, opt_text(suffix), walk.take(0).filter(wanted));
    }
    while i < limit
        invariant
            i <= limit <= ancestry.len(),
            walk == texts(ancestry@),
            wanted == differs_from(trunk@),
            texts(keys@) == keys_of(prefix@, opt_text(suffix), walk.take(i as int).filter(wanted)),
        decreases limit - i,
    {
        let ghost seen = walk.take(i as int);
        assert(walk.take(i + 1) == seen.push(ancestry@[i as int]@));
        proof {
            seen.lemma_filter_push(ancestry@[i as int]@, wanted);
        }
        if ancestry[i] != *trunk {
            proof {
                lemma_keys_of_push(prefix@, opt_text(suffix), seen.filter(wanted), ancestry@[i as int]@);
            }
            push_key_pair(&mut keys, prefix, &ancestry[i], &suffix);
        }
        i = i + 1;
    }
    let ghost commits = walked_commits(trunk@, walk);
    assert(texts(keys@) == keys_of(prefix@, opt_text(suffix), commits));
    let ghost literal: Seq<Seq<char>> = match opt_text(fallback_key) {
        Some(f) => seq![f],
        None => Seq::empty(),
    };
    if let Some(literal_key) = fallback_key {
        proof {
            lemma_keys_of_push(prefix@, opt_text(suffix), commits, literal_key@);
            assert(commits + literal == commits.push(literal_key@));
        }
        push_key_pair(&mut keys, prefix, &literal_key, &suffix);
    } else {
        assert(commits + literal == commits);
    }
    proof {
        lemma_keys_of_push(prefix@, opt_text(suffix), commits + literal, trunk@);
        assert(commits + literal + seq![trunk@] == (commits + literal).push(trunk@));
    }
    push_key_pair(&mut keys, prefix, trunk, &suffix);
    keys
}

} // verus!
