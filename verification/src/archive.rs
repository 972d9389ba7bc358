//! Packing and unpacking by alias.
//!
//! Inside a bundle a requested path is known by its alias, the hashed name
//! of the path's text, so that an archived entry does not depend on where it
//! came from. Packing names each source by its alias. Unpacking looks at the
//! leading component of each archived name, extracts what was requested below
//! the path that was asked for, and skips the rest. Reading and writing the
//! bundle itself is left to the caller.
//!
//! The requests are kept in the hash map that `gix` hands on from
//! `hashbrown`. What the map does is described here and trusted, not proved.

use gix::hashtable::hash_map::HashMap;
use vstd::prelude::*;
use vstd::string::*;
use vstd::utf8::encode_utf8;

use crate::digest::{hashed_name, lemma_hex_lower_shape, sha256, sha256_hex};
use crate::path::{
    below_leading,
    join,
    join_path,
    leading_component,
    lemma_split_of_join,
    split_leading,
    SEPARATOR,
};
use crate::text::texts;

verus! {

/// What is known of the requests, by alias: the path that was asked for, and
/// whether an entry was extracted for it.
pub type Requests = Map<Seq<char>, (Seq<char>, bool)>;

/// The alias of a path: the hashed name of its text in UTF-8.
pub open spec fn alias_of(path: Seq<char>) -> Seq<char> {
    hashed_name(encode_utf8(path))
}

/// The alias under which `path` is stored in a bundle.
pub fn hash_from_path(path: &str) -> (alias: String)
    ensures
        alias@ == alias_of(path@),
{
    sha256_hex(path.as_bytes())
}

/// One source to pack.
pub struct PackEntry {
    pub path: String,
    pub is_directory: bool,
}

/// How one source is added to a bundle: `source` is stored under the name
/// `alias`; where `recursive` is set, everything below `source` is stored
/// below `alias`, with the same relative structure.
pub struct PackStep {
    pub alias: String,
    pub source: String,
    pub recursive: bool,
}

/// The step that packs the source `path`.
pub open spec fn is_step_for(step: PackStep, path: Seq<char>, is_directory: bool) -> bool {
    &&& step.alias@ == alias_of(path)
    &&& step.source@ == path
    &&& step.recursive == is_directory
}

/// Decides how one source is packed.
pub fn pack_step(path: &str, is_directory: bool) -> (step: PackStep)
    ensures
        is_step_for(step, path@, is_directory),
{
    PackStep { alias: hash_from_path(path), source: String::from_str(path), recursive: is_directory }
}

/// Decides how a list of sources is packed: one step for each, in the order
/// in which they were given.
pub fn pack_plan(entries: &Vec<PackEntry>) -> (steps: Vec<PackStep>)
    ensures
        steps@.len() == entries@.len(),
        forall|i: int|
            0 <= i < entries@.len() ==> is_step_for(
                #[trigger] steps@[i],
                entries@[i].path@,
                entries@[i].is_directory,
            ),
{
    let mut steps: Vec<PackStep> = Vec::new();
    let mut i: usize = 0;
    while i < entries.len()
        invariant
            i <= entries@.len(),
            steps@.len() == i,
            forall|j: int|
                0 <= j < i ==> is_step_for(
                    #[trigger] steps@[j],
                    entries@[j].path@,
                    entries@[j].is_directory,
                ),
        decreases entries@.len() - i,
    {
        steps.push(pack_step(entries[i].path.as_str(), entries[i].is_directory));
        i = i + 1;
    }
    steps
}

/// A requested file: the path it is to be restored to, and whether an entry
/// of the bundle was extracted for it.
pub struct FileEntry {
    pub path: String,
    pub extracted: bool,
}

/// The hash map that holds the requests by alias: a `HashMap` of `hashbrown`
/// with strings as keys. Trusted: the verifier does not look inside, and
/// knows of it what the functions below say over `table_entries`.
#[verifier::external_body]
pub struct RequestTable {
    inner: HashMap<String, FileEntry>,
}

/// What a request table holds: for each alias in it the requested path and
/// whether an entry was extracted for it.
pub uninterp spec fn table_entries(table: RequestTable) -> Map<Seq<char>, (Seq<char>, bool)>;

/// `items` lists what `entries` holds: every item is an entry, no alias
/// occurs twice, and every entry is listed. The order is left open.
pub open spec fn lists_entries(items: Seq<(String, FileEntry)>, entries: Requests) -> bool {
    &&& forall|i: int|
        0 <= i < items.len() ==> {
            &&& entries.contains_key((#[trigger] items[i]).0@)
            &&& entries[items[i].0@] == (items[i].1.path@, items[i].1.extracted)
        }
    &&& forall|i: int, j: int|
        0 <= i < j < items.len() ==> (#[trigger] items[i]).0@ != (#[trigger] items[j]).0@
    &&& forall|alias: Seq<char>| #[trigger]
        entries.contains_key(alias) ==> exists|i: int|
            0 <= i < items.len() && (#[trigger] items[i]).0@ == alias
}

/// Calls `HashMap::new` of `hashbrown`. Trusted: the new map is empty.
#[verifier::external_body]
fn table_new() -> (table: RequestTable)
    ensures
        table_entries(table) =~= Map::empty(),
{
    RequestTable { inner: HashMap::new() }
}

/// Calls `HashMap::insert` of `hashbrown`. Trusted: afterwards the map holds
/// `entry` under `alias`, in place of what it held there before, and is
/// otherwise unchanged.
#[verifier::external_body]
fn table_insert(table: &mut RequestTable, alias: String, entry: FileEntry)
    ensures
        table_entries(*final(table)) == table_entries(*old(table)).insert(
            alias@,
            (entry.path@, entry.extracted),
        ),
{
    table.inner.insert(alias, entry);
}

/// Calls `HashMap::get_mut` of `hashbrown`. Trusted: the result is the entry
/// held under `alias`, if there is one. What the caller writes through it is
/// what the map holds under `alias` afterwards; nothing else changes.
#[verifier::external_body]
fn table_get_mut<'a>(table: &'a mut RequestTable, alias: &str) -> (found: Option<&'a mut FileEntry>)
    ensures
        match found {
            Some(entry) => {
                &&& table_entries(*old(table)).contains_key(alias@)
                &&& (entry.path@, entry.extracted) == table_entries(*old(table))[alias@]
                &&& table_entries(*final(table)) == table_entries(*old(table)).insert(
                    alias@,
                    (final(entry).path@, final(entry).extracted),
                )
            },
            None => {
                &&& !table_entries(*old(table)).contains_key(alias@)
                &&& table_entries(*final(table)) == table_entries(*old(table))
            },
        },
{
    table.inner.get_mut(alias)
}

/// Calls `HashMap::iter` of `hashbrown` and copies what it yields. Trusted:
/// every entry of the map is listed once, in an order that is left open.
#[verifier::external_body]
fn table_items(table: &RequestTable) -> (items: Vec<(String, FileEntry)>)
    ensures
        lists_entries(items@, table_entries(*table)),
{
    table
        .inner
        .iter()
        .map(|(alias, entry)| {
            (alias.clone(), FileEntry { path: entry.path.clone(), extracted: entry.extracted })
        })
        .collect()
}

/// The requests for a list of files: each file is entered under its alias as
/// not yet extracted. A file given twice is entered once.
pub open spec fn requests_for(files: Seq<Seq<char>>) -> Requests
    decreases files.len(),
{
    if files.len() == 0 {
        Map::empty()
    } else {
        requests_for(files.drop_last()).insert(alias_of(files.last()), (files.last(), false))
    }
}

/// The target that an archived name is extracted to, if it is extracted: the
/// requested path of its leading component, joined with the path below that
/// component.
pub open spec fn route_target(requests: Requests, name: Seq<char>) -> Option<Seq<char>> {
    let alias = leading_component(name);
    if requests.contains_key(alias) {
        Some(join_path(requests[alias].0, below_leading(name)))
    } else {
        None
    }
}

/// The requests after an archived name was routed: the request that its
/// leading component names is marked as extracted.
pub open spec fn route_mark(requests: Requests, name: Seq<char>) -> Requests {
    let alias = leading_component(name);
    if requests.contains_key(alias) {
        requests.insert(alias, (requests[alias].0, true))
    } else {
        requests
    }
}

/// The requests after a sequence of archived names was routed, in order.
pub open spec fn route_all(requests: Requests, names: Seq<Seq<char>>) -> Requests
    decreases names.len(),
{
    if names.len() == 0 {
        requests
    } else {
        route_mark(route_all(requests, names.drop_last()), names.last())
    }
}

/// The request held under `alias` asks for `path` and nothing was extracted
/// for it.
pub open spec fn is_missing(requests: Requests, alias: Seq<char>, path: Seq<char>) -> bool {
    requests.contains_key(alias) && requests[alias] == (path, false)
}

/// The requested paths for which nothing was extracted.
pub open spec fn missing_paths(requests: Requests) -> Set<Seq<char>> {
    Set::new(|path: Seq<char>| exists|alias: Seq<char>| is_missing(requests, alias, path))
}

/// Every request is held under the alias of its own path.
pub open spec fn keyed_by_alias(requests: Requests) -> bool {
    forall|alias: Seq<char>| #[trigger]
        requests.contains_key(alias) ==> alias_of(requests[alias].0) == alias
}

/// What is done with one entry of a bundle.
pub enum EntryAction {
    /// The entry was requested: it is materialized at `target`.
    Extract { target: String },
    /// The entry was not requested: it is passed over, which is no error.
    Skip,
}

/// The requests of one restore: made before extraction, marked during it,
/// and read afterwards to report what was asked for and not found.
pub struct FileRequests {
    table: RequestTable,
}

impl FileRequests {
    /// What is known of the requests, by alias.
    pub closed spec fn view(&self) -> Requests {
        table_entries(self.table)
    }

    /// Every request is held under the alias of its own path. This holds of
    /// the requests that `new` makes and is kept by `route`.
    pub open spec fn wf(&self) -> bool {
        keyed_by_alias(self@)
    }

    /// The requests for `files`, none of them extracted yet.
    pub fn new(files: &Vec<String>) -> (requests: Self)
        ensures
            requests.wf(),
            requests@ == requests_for(texts(files@)),
    {
        let mut table = table_new();
        let ghost wanted = texts(files@);
        let mut i: usize = 0;
        assert(wanted.take(0) == Seq::<Seq<char>>::empty());
        while i < files.len()
            invariant
                i <= files@.len(),
                wanted == texts(files@),
                table_entries(table) == requests_for(wanted.take(i as int)),
                keyed_by_alias(table_entries(table)),
            decreases files@.len() - i,
        {
            assert(wanted.take(i + 1).drop_last() == wanted.take(i as int));
            assert(wanted.take(i + 1).last() == files@[i as int]@);
            let alias = hash_from_path(files[i].as_str());
            table_insert(&mut table, alias, FileEntry { path: files[i].clone(), extracted: false });
            i = i + 1;
        }
        assert(wanted.take(i as int) == wanted);
        FileRequests { table }
    }

    /// Routes one entry of a bundle by its archived name. An entry whose
    /// leading component is the alias of a request is extracted below the
    /// requested path, and the request is marked; any other entry is skipped.
    pub fn route(&mut self, name: &str) -> (action: EntryAction)
        ensures
            old(self).wf() ==> final(self).wf(),
            final(self)@ == route_mark(old(self)@, name@),
            match action {
                EntryAction::Extract { target } => route_target(old(self)@, name@) == Some(target@),
                EntryAction::Skip => route_target(old(self)@, name@) is None,
            },
    {
        let (alias, below) = split_leading(name);
        match table_get_mut(&mut self.table, alias.as_str()) {
            Some(entry) => {
                entry.extracted = true;
                let target = join(entry.path.as_str(), below.as_str());
                EntryAction::Extract { target }
            },
            None => EntryAction::Skip,
        }
    }

    /// The requested paths for which no entry was extracted, in no
    /// particular order. Among the requests of one restore no path is
    /// reported twice.
    pub fn missing(&self) -> (paths: Vec<String>)
        ensures
            texts(paths@).to_set() == missing_paths(self@),
            self.wf() ==> texts(paths@).no_duplicates(),
    {
        let items = table_items(&self.table);
        let ghost entries = self@;
        let mut paths: Vec<String> = Vec::new();
        let ghost mut origin: Seq<int> = Seq::empty();
        let mut i: usize = 0;
        while i < items.len()
            invariant
                i <= items@.len(),
                entries == self@,
                lists_entries(items@, entries),
                origin.len() == paths@.len(),
                forall|k: int|
                    0 <= k < origin.len() ==> {
                        &&& 0 <= (#[trigger] origin[k]) < i
                        &&& !items@[origin[k]].1.extracted
                        &&& paths@[k]@ == items@[origin[k]].1.path@
                    },
                forall|k: int, l: int| 0 <= k < l < origin.len() ==> origin[k] < origin[l],
                forall|j: int|
                    0 <= j < i && !(#[trigger] items@[j]).1.extracted ==> exists|k: int|
                        0 <= k < origin.len() && #[trigger] origin[k] == j,
            decreases items@.len() - i,
        {
            if !items[i].1.extracted {
                let ghost before = origin;
                paths.push(items[i].1.path.clone());
                proof {
                    origin = origin.push(i as int);
                    assert forall|j: int|
                        0 <= j < i + 1 && !(#[trigger] items@[j]).1.extracted implies exists|k: int|
                        0 <= k < origin.len() && #[trigger] origin[k] == j by {
                        if j < i {
                            let k = choose|k: int| 0 <= k < before.len() && #[trigger] before[k] == j;
                            assert(origin[k] == j);
                        } else {
                            assert(origin[before.len() as int] == j);
                        }
                    }
                }
            }
            i = i + 1;
        }
        proof {
            let found = texts(paths@);
            if self.wf() {
                assert forall|k: int, l: int| 0 <= k < l < found.len() implies found[k] != found[l] by {
                    let a = items@[origin[k]];
                    let b = items@[origin[l]];
                    assert(origin[k] < origin[l]);
                    assert(a.0@ != b.0@);
                    assert(entries.contains_key(a.0@) && entries.contains_key(b.0@));
                    assert(alias_of(a.1.path@) == a.0@);
                    assert(alias_of(b.1.path@) == b.0@);
                }
            }
            assert forall|path: Seq<char>| found.to_set().contains(path) == missing_paths(
                entries,
            ).contains(path) by {
                if found.to_set().contains(path) {
                    let k = choose|k: int| 0 <= k < found.len() && found[k] == path;
                    let item = items@[origin[k]];
                    assert(is_missing(entries, item.0@, path));
                }
                if missing_paths(entries).contains(path) {
                    let alias = choose|alias: Seq<char>| is_missing(entries, alias, path);
                    assert(entries.contains_key(alias));
                    let j = choose|j: int| 0 <= j < items@.len() && (#[trigger] items@[j]).0@ == alias;
                    assert(!items@[j].1.extracted);
                    let k = choose|k: int| 0 <= k < origin.len() && #[trigger] origin[k] == j;
                    assert(found[k] == path);
                }
            }
            assert(found.to_set() =~= missing_paths(entries));
        }
        paths
    }
}

/// Some name of `names` has `alias` as its leading component.
pub open spec fn names_alias(names: Seq<Seq<char>>, alias: Seq<char>) -> bool {
    exists|i: int| 0 <= i < names.len() && leading_component(#[trigger] names[i]) == alias
}

/// Some file of `files` has the alias `alias`.
pub open spec fn has_alias(files: Seq<Seq<char>>, alias: Seq<char>) -> bool {
    exists|i: int| 0 <= i < files.len() && alias_of(#[trigger] files[i]) == alias
}

/// No other file of `files` shares the alias of `path`.
pub open spec fn alias_is_its_own(files: Seq<Seq<char>>, path: Seq<char>) -> bool {
    forall|j: int|
        0 <= j < files.len() && alias_of(#[trigger] files[j]) == alias_of(path) ==> files[j] == path
}

/// The requests made for a list of files hold exactly the aliases of these
/// files, each with one of the files of that alias and not yet extracted. A
/// file whose alias no other file shares is held under its alias itself.
pub proof fn lemma_requests_for(files: Seq<Seq<char>>)
    ensures
        keyed_by_alias(requests_for(files)),
        forall|alias: Seq<char>| #[trigger]
            requests_for(files).contains_key(alias) <==> has_alias(files, alias),
        forall|alias: Seq<char>| #[trigger]
            requests_for(files).contains_key(alias) ==> {
                &&& !requests_for(files)[alias].1
                &&& files.contains(requests_for(files)[alias].0)
            },
        forall|i: int|
            0 <= i < files.len() && alias_is_its_own(files, #[trigger] files[i]) ==> requests_for(
                files,
            )[alias_of(files[i])] == (files[i], false),
    decreases files.len(),
{
    let requests = requests_for(files);
    if files.len() == 0 {
        assert forall|alias: Seq<char>| !has_alias(files, alias) by {}
    } else {
        let front = files.drop_last();
        let last = files.last();
        let earlier = requests_for(front);
        lemma_requests_for(front);
        assert forall|alias: Seq<char>| #[trigger]
            requests.contains_key(alias) <==> has_alias(files, alias) by {
            if requests.contains_key(alias) {
                if alias == alias_of(last) {
                    assert(alias_of(files[files.len() - 1]) == alias);
                } else {
                    assert(earlier.contains_key(alias));
                    let i = choose|i: int| 0 <= i < front.len() && alias_of(#[trigger] front[i]) == alias;
                    assert(alias_of(files[i]) == alias);
                }
            }
            if has_alias(files, alias) {
                let i = choose|i: int| 0 <= i < files.len() && alias_of(#[trigger] files[i]) == alias;
                if i < front.len() {
                    assert(alias_of(front[i]) == alias);
                    assert(earlier.contains_key(alias));
                }
            }
        }
        assert forall|alias: Seq<char>| #[trigger] requests.contains_key(alias) implies {
            &&& !requests[alias].1
            &&& files.contains(requests[alias].0)
        } by {
            if alias == alias_of(last) {
                assert(files[files.len() - 1] == last);
            } else {
                assert(earlier.contains_key(alias));
                let path = earlier[alias].0;
                let i = choose|i: int| 0 <= i < front.len() && front[i] == path;
                assert(files[i] == path);
            }
        }
        assert forall|i: int|
            0 <= i < files.len() && alias_is_its_own(files, #[trigger] files[i]) implies requests[alias_of(
            files[i],
        )] == (files[i], false) by {
            if alias_of(files[i]) == alias_of(last) {
                assert(files[files.len() - 1] == files[i]);
            } else {
                assert(front[i] == files[i]);
                assert forall|j: int|
                    0 <= j < front.len() && alias_of(#[trigger] front[j]) == alias_of(
                        files[i],
                    ) implies front[j] == files[i] by {
                    assert(front[j] == files[j]);
                }
                assert(alias_is_its_own(front, front[i]));
            }
        }
    }
}

/// Routing the entries of a bundle keeps every request and its path. A
/// request is marked as extracted afterwards exactly if it was marked before
/// or its alias is the leading component of one of the routed names: whether
/// one request is found never depends on the entries of another.
pub proof fn lemma_route_all(requests: Requests, names: Seq<Seq<char>>)
    ensures
        route_all(requests, names).dom() == requests.dom(),
        keyed_by_alias(requests) ==> keyed_by_alias(route_all(requests, names)),
        forall|alias: Seq<char>| #[trigger]
            requests.contains_key(alias) ==> {
                &&& route_all(requests, names)[alias].0 == requests[alias].0
                &&& route_all(requests, names)[alias].1 == (requests[alias].1 || names_alias(
                    names,
                    alias,
                ))
            },
    decreases names.len(),
{
    let routed = route_all(requests, names);
    if names.len() == 0 {
        assert forall|alias: Seq<char>| !names_alias(names, alias) by {}
        assert(routed.dom() =~= requests.dom());
    } else {
        let front = names.drop_last();
        let last = names.last();
        let earlier = route_all(requests, front);
        lemma_route_all(requests, front);
        assert(routed.dom() =~= requests.dom());
        assert forall|alias: Seq<char>| #[trigger] requests.contains_key(alias) implies {
            &&& routed[alias].0 == requests[alias].0
            &&& routed[alias].1 == (requests[alias].1 || names_alias(names, alias))
        } by {
            assert(earlier.contains_key(alias));
            if names_alias(front, alias) {
                let i = choose|i: int| 0 <= i < front.len() && leading_component(#[trigger] front[i]) == alias;
                assert(leading_component(names[i]) == alias);
            }
            if leading_component(last) == alias {
                assert(leading_component(names[names.len() - 1]) == alias);
            }
            if names_alias(names, alias) {
                let i = choose|i: int| 0 <= i < names.len() && leading_component(#[trigger] names[i]) == alias;
                if i < front.len() {
                    assert(leading_component(front[i]) == alias);
                }
            }
        }
        if keyed_by_alias(requests) {
            assert forall|alias: Seq<char>| #[trigger] routed.contains_key(alias) implies alias_of(
                routed[alias].0,
            ) == alias by {
                assert(requests.contains_key(alias));
            }
        }
    }
}

/// A requested file whose alias leads none of the archived names is reported
/// as missing after the bundle was unpacked.
pub proof fn lemma_absent_alias_is_reported(
    files: Seq<Seq<char>>,
    names: Seq<Seq<char>>,
    path: Seq<char>,
)
    requires
        files.contains(path),
        alias_is_its_own(files, path),
        !names_alias(names, alias_of(path)),
    ensures
        missing_paths(route_all(requests_for(files), names)).contains(path),
{
    lemma_requests_for(files);
    lemma_route_all(requests_for(files), names);
    let i = choose|i: int| 0 <= i < files.len() && files[i] == path;
    assert(has_alias(files, alias_of(files[i])));
    assert(requests_for(files).contains_key(alias_of(path)));
    assert(is_missing(route_all(requests_for(files), names), alias_of(path), path));
}

/// A requested file whose alias leads one of the archived names is not
/// reported as missing.
pub proof fn lemma_present_alias_is_not_reported(
    files: Seq<Seq<char>>,
    names: Seq<Seq<char>>,
    path: Seq<char>,
)
    requires
        names_alias(names, alias_of(path)),
    ensures
        !missing_paths(route_all(requests_for(files), names)).contains(path),
{
    let routed = route_all(requests_for(files), names);
    lemma_requests_for(files);
    lemma_route_all(requests_for(files), names);
    if missing_paths(routed).contains(path) {
        let alias = choose|alias: Seq<char>| is_missing(routed, alias, path);
        assert(routed.contains_key(alias));
        assert(alias_of(routed[alias].0) == alias);
        assert(requests_for(files).contains_key(alias));
    }
}

/// An alias holds no separator: as an archived name it is one component.
pub proof fn lemma_alias_is_one_component(path: Seq<char>)
    ensures
        !alias_of(path).contains(SEPARATOR),
        leading_component(alias_of(path)) == alias_of(path),
        below_leading(alias_of(path)) == Seq::<char>::empty(),
{
    lemma_hex_lower_shape(sha256(encode_utf8(path)));
    lemma_split_of_join(alias_of(path), Seq::empty());
}

/// What was packed for a requested file is routed back to where it came
/// from. The source itself is stored under its alias and is extracted to the
/// requested path; what lies below a source directory is stored below the
/// alias and is extracted to the same relative place below the requested
/// path. This holds whatever else of the bundle was routed before.
pub proof fn lemma_packed_names_route_back(
    files: Seq<Seq<char>>,
    routed: Seq<Seq<char>>,
    path: Seq<char>,
    below: Seq<char>,
)
    requires
        files.contains(path),
        alias_is_its_own(files, path),
    ensures
        route_target(route_all(requests_for(files), routed), alias_of(path)) == Some(path),
        route_target(
            route_all(requests_for(files), routed),
            alias_of(path) + seq![SEPARATOR] + below,
        ) == Some(join_path(path, below)),
{
    lemma_requests_for(files);
    lemma_route_all(requests_for(files), routed);
    let i = choose|i: int| 0 <= i < files.len() && files[i] == path;
    assert(has_alias(files, alias_of(files[i])));
    assert(requests_for(files).contains_key(alias_of(path)));
    lemma_alias_is_one_component(path);
    lemma_split_of_join(alias_of(path), below);
}

} // verus!
