use vstd::prelude::*;

use crate::ids::fresh_id;
use crate::pane_tree::{first_index, is_first, lemma_first_index_facts, lemma_first_index_unique};
use crate::request_model::RequestTemplate;
use crate::text::{decimal, owned, push_decimal, push_str, str_eq, trim, trim_end, trim_start, trimmed};
use crate::workspace::{Collection, CollectionFolder, SavedRequest, Workspace, opt_view};

verus! {

/// A request read from an import: its name and definition.
#[derive(Debug)]
pub struct ImportedRequest {
    pub name: String,
    pub template: RequestTemplate,
}

/// A collection read from an import: its name, its folders as paths of
/// folder names, and its requests as positions in the bundle's request list
/// with the folder path each goes in (empty for the collection's root).
#[derive(Debug)]
pub struct ImportedCollection {
    pub name: String,
    pub folders: Vec<Vec<String>>,
    pub requests: Vec<(usize, Vec<String>)>,
}

/// What an import read: collections, the requests they refer to, warnings
/// about what was skipped, and the formats the sources were in.
#[derive(Debug)]
pub struct ImportBundle {
    pub collections: Vec<ImportedCollection>,
    pub requests: Vec<ImportedRequest>,
    pub warnings: Vec<String>,
    pub source_format: String,
}

/// A folder path as text.
pub open spec fn path_view(path: Seq<String>) -> Seq<Seq<char>> {
    path.map_values(|s: String| s@)
}

/// Paths equal to `p`.
pub open spec fn is_path(p: Seq<Seq<char>>) -> spec_fn(Seq<Seq<char>>) -> bool {
    |q: Seq<Seq<char>>| q == p
}

/// The position of the first occurrence of a path, or -1.
pub open spec fn path_index(paths: Seq<Seq<Seq<char>>>, p: Seq<Seq<char>>) -> int {
    first_index(paths, is_path(p))
}

/// The folder paths known after adding the first `n` prefixes of `path`
/// (those of length 1 to `n`) that were not known yet.
pub open spec fn with_prefixes(known: Seq<Seq<Seq<char>>>, path: Seq<Seq<char>>, n: nat) -> Seq<Seq<Seq<char>>>
    decreases n,
{
    if n == 0 {
        known
    } else {
        let k = with_prefixes(known, path, (n - 1) as nat);
        let p = path.take(n as int);
        if path_index(k, p) >= 0 {
            k
        } else {
            k.push(p)
        }
    }
}

/// The folders an imported collection needs, in the order they are made:
/// every prefix of every path, first appearance first.
pub open spec fn folder_plan(paths: Seq<Seq<Seq<char>>>) -> Seq<Seq<Seq<char>>>
    decreases paths.len(),
{
    if paths.len() == 0 {
        Seq::empty()
    } else {
        with_prefixes(folder_plan(paths.drop_last()), paths.last(), paths.last().len())
    }
}

/// The folders match the paths they were made for: each is named after the
/// last segment of its path, and sits in the folder made earlier for the path
/// without that segment, if there is one.
pub open spec fn folders_match(folders: Seq<CollectionFolder>, plan: Seq<Seq<Seq<char>>>) -> bool {
    &&& folders.len() == plan.len()
    &&& forall|i: int| 0 <= i < plan.len() ==> (#[trigger] plan[i]).len() > 0
    &&& forall|i: int|
        0 <= i < plan.len() ==> (#[trigger] folders[i]).name@ == plan[i].last() && opt_view(folders[i].parent_id) == {
            let q = path_index(plan.take(i), plan[i].drop_last());
            if q < 0 {
                None
            } else {
                Some(folders[q].id@)
            }
        }
}

fn same_path(a: &Vec<String>, b: &Vec<String>) -> (r: bool)
    ensures
        r == (path_view(a@) == path_view(b@)),
{
    if a.len() != b.len() {
        assert(path_view(a@).len() != path_view(b@).len());
        return false;
    }
    let mut k: usize = 0;
    while k < a.len()
        invariant
            a@.len() == b@.len(),
            0 <= k <= a@.len(),
            forall|m: int| 0 <= m < k ==> a@[m]@ == b@[m]@,
        decreases a@.len() - k,
    {
        if !str_eq(a[k].as_str(), b[k].as_str()) {
            assert(path_view(a@)[k as int] != path_view(b@)[k as int]);
            return false;
        }
        k = k + 1;
    }
    assert(path_view(a@) =~= path_view(b@));
    true
}

/// The paths of a list, as text.
pub open spec fn paths_view(paths: Seq<Vec<String>>) -> Seq<Seq<Seq<char>>> {
    paths.map_values(|p: Vec<String>| path_view(p@))
}

fn find_path(known: &Vec<Vec<String>>, key: &Vec<String>) -> (r: Option<usize>)
    ensures
        match r {
            Some(k) => k < known@.len() && path_index(paths_view(known@), path_view(key@)) == k,
            None => path_index(paths_view(known@), path_view(key@)) == -1,
        },
{
    let ghost view = paths_view(known@);
    let ghost pred = is_path(path_view(key@));
    let mut k: usize = 0;
    while k < known.len()
        invariant
            view == paths_view(known@),
            pred == is_path(path_view(key@)),
            0 <= k <= known@.len(),
            forall|m: int| 0 <= m < k ==> !pred(view[m]),
        decreases known@.len() - k,
    {
        if same_path(&known[k], key) {
            proof {
                assert(is_first(view, pred, k as int));
                lemma_first_index_unique(view, pred, k as int);
            }
            return Some(k);
        }
        k = k + 1;
    }
    proof {
        lemma_first_index_facts(view, pred);
    }
    None
}

fn copy_path(path: &Vec<String>, n: usize) -> (r: Vec<String>)
    requires
        n <= path@.len(),
    ensures
        path_view(r@) == path_view(path@).take(n as int),
{
    let mut r: Vec<String> = Vec::new();
    let mut k: usize = 0;
    while k < n
        invariant
            n <= path@.len(),
            0 <= k <= n,
            path_view(r@) == path_view(path@).take(k as int),
        decreases n - k,
    {
        let s = path[k].clone();
        let ghost prev = r@;
        r.push(s);
        assert(r@ == prev.push(s));
        assert(path_view(r@) =~= path_view(prev).push(s@));
        assert(path_view(r@) =~= path_view(path@).take(k + 1));
        k = k + 1;
    }
    r
}

/// Makes a folder for every prefix of `path` that has none yet.
fn add_path_folders(folders: &mut Vec<CollectionFolder>, known: &mut Vec<Vec<String>>, path: &Vec<String>)
    requires
        folders_match(old(folders)@, paths_view(old(known)@)),
    ensures
        paths_view(final(known)@) == with_prefixes(paths_view(old(known)@), path_view(path@), path@.len()),
        folders_match(final(folders)@, paths_view(final(known)@)),
        final(folders)@.take(old(folders)@.len() as int) == old(folders)@,
{
    let ghost start = paths_view(known@);
    let ghost first_folders = folders@;
    let mut done: usize = 0;
    while done < path.len()
        invariant
            0 <= done <= path@.len(),
            paths_view(known@) == with_prefixes(start, path_view(path@), done as nat),
            folders_match(folders@, paths_view(known@)),
            folders@.take(first_folders.len() as int) == first_folders,
            first_folders.len() <= folders@.len(),
        decreases path@.len() - done,
    {
        let length = done + 1;
        let key = copy_path(path, length);
        let ghost before = paths_view(known@);
        proof {
            assert(path_view(key@) == path_view(path@).take(length as int));
        }
        match find_path(known, &key) {
            Some(_) => {},
            None => {
                let parent_key = copy_path(path, length - 1);
                let parent_id = match find_path(known, &parent_key) {
                    Some(q) => Some(owned(folders[q].id.as_str())),
                    None => None,
                };
                let folder = CollectionFolder {
                    id: fresh_id(),
                    name: path[length - 1].clone(),
                    parent_id,
                };
                let ghost prev_folders = folders@;
                folders.push(folder);
                let ghost prev_known = known@;
                known.push(key);
                proof {
                    assert(folders@ == prev_folders.push(folder));
                    assert(known@ == prev_known.push(key));
                    assert(paths_view(known@) =~= before.push(path_view(key@)));
                    let p = path_view(path@).take(length as int);
                    assert(p.drop_last() =~= path_view(path@).take(length - 1));
                    assert(paths_view(known@).take(before.len() as int) =~= before);
                    assert forall|i: int| 0 <= i < paths_view(known@).len() implies (#[trigger] paths_view(known@)[i]).len() > 0 by {
                        if i < before.len() {
                            assert(paths_view(known@)[i] == before[i]);
                        }
                    }
                    assert forall|i: int| 0 <= i < paths_view(known@).len() implies (#[trigger] folders@[i]).name@
                        == paths_view(known@)[i].last() && opt_view(folders@[i].parent_id) == {
                        let q = path_index(paths_view(known@).take(i), paths_view(known@)[i].drop_last());
                        if q < 0 {
                            None
                        } else {
                            Some(folders@[q].id@)
                        }
                    } by {
                        if i < before.len() {
                            assert(paths_view(known@).take(i) =~= before.take(i));
                            assert(folders@[i] == prev_folders[i]);
                            assert(paths_view(known@)[i] == before[i]);
                            let q = path_index(before.take(i), before[i].drop_last());
                            if q >= 0 {
                                lemma_first_index_facts(before.take(i), is_path(before[i].drop_last()));
                                assert(folders@[q] == prev_folders[q]);
                            }
                        } else {
                            assert(paths_view(known@).take(i) =~= before);
                        }
                    }
                    assert(folders@.take(first_folders.len() as int) =~= first_folders);
                }
            },
        }
        done = length;
    }
}

/// Every path of an imported collection: its folders, then the paths of its
/// requests.
pub open spec fn collection_paths(c: ImportedCollection) -> Seq<Seq<Seq<char>>> {
    paths_view(c.folders@) + c.requests@.map_values(|r: (usize, Vec<String>)| path_view(r.1@))
}

/// The message for a collection whose name is only white space.
pub open spec fn unnamed_collection_message() -> Seq<char> {
    "A collection needs a name."@
}

/// The message for a request position that the bundle does not hold.
pub open spec fn invalid_index_message() -> Seq<char> {
    "Invalid imported request index"@
}

/// Why an imported collection cannot be saved, if it cannot: a blank name,
/// or a request position past the `count` requests of the bundle.
pub open spec fn collection_error(c: ImportedCollection, count: nat) -> Option<Seq<char>> {
    if trimmed(c.name@).len() == 0 {
        Some(unnamed_collection_message())
    } else if exists|j: int| 0 <= j < c.requests@.len() && (#[trigger] c.requests@[j]).0 >= count {
        Some(invalid_index_message())
    } else {
        None
    }
}

/// The first reason, collection by collection, why an import cannot be saved.
pub open spec fn import_error(collections: Seq<ImportedCollection>, count: nat) -> Option<Seq<char>>
    decreases collections.len(),
{
    if collections.len() == 0 {
        None
    } else {
        match import_error(collections.drop_last(), count) {
            Some(e) => Some(e),
            None => collection_error(collections.last(), count),
        }
    }
}

/// A collection made from an imported one: named after it without the white
/// space around the name, with a folder for every path prefix it needs (in
/// the order of `folder_plan`), and with its requests in order, each named
/// and defined as the bundle's request it points at, in the folder made for
/// its path (at the root for an empty path).
pub open spec fn built_from(made: Collection, c: ImportedCollection, requests: Seq<ImportedRequest>) -> bool {
    let plan = folder_plan(collection_paths(c));
    &&& made.name@ == trimmed(c.name@)
    &&& folders_match(made.folders@, plan)
    &&& made.requests@.len() == c.requests@.len()
    &&& forall|j: int|
        0 <= j < c.requests@.len() ==> {
            let (index, path) = c.requests@[j];
            let q = path_index(plan, path_view(path@));
            &&& (#[trigger] made.requests@[j]).name@ == requests[index as int].name@
            &&& made.requests@[j].definition@ == requests[index as int].template@
            &&& opt_view(made.requests@[j].folder_id) == if q < 0 {
                None
            } else {
                Some(made.folders@[q].id@)
            }
        }
}

/// Makes the folders an imported collection needs, with the path each was
/// made for.
fn plan_folders(c: &ImportedCollection) -> (r: (Vec<CollectionFolder>, Vec<Vec<String>>))
    ensures
        paths_view(r.1@) == folder_plan(collection_paths(*c)),
        folders_match(r.0@, paths_view(r.1@)),
{
    let ghost all = collection_paths(*c);
    let mut folders: Vec<CollectionFolder> = Vec::new();
    let mut known: Vec<Vec<String>> = Vec::new();
    assert(paths_view(known@) =~= Seq::<Seq<Seq<char>>>::empty());
    assert(folder_plan(all.take(0)) =~= Seq::<Seq<Seq<char>>>::empty());
    let n = c.folders.len();
    let mut k: usize = 0;
    while k < n
        invariant
            all == collection_paths(*c),
            n == c.folders@.len(),
            0 <= k <= n,
            paths_view(known@) == folder_plan(all.take(k as int)),
            folders_match(folders@, paths_view(known@)),
        decreases n - k,
    {
        proof {
            assert(all.take(k + 1).drop_last() =~= all.take(k as int));
            assert(all.take(k + 1).last() == path_view(c.folders@[k as int]@));
        }
        add_path_folders(&mut folders, &mut known, &c.folders[k]);
        k = k + 1;
    }
    let m = c.requests.len();
    let mut j: usize = 0;
    while j < m
        invariant
            all == collection_paths(*c),
            n == c.folders@.len(),
            m == c.requests@.len(),
            0 <= j <= m,
            paths_view(known@) == folder_plan(all.take(n + j)),
            folders_match(folders@, paths_view(known@)),
        decreases m - j,
    {
        proof {
            assert(all.take(n + j + 1).drop_last() =~= all.take(n + j));
            assert(all.take(n + j + 1).last() == path_view(c.requests@[j as int].1@));
        }
        add_path_folders(&mut folders, &mut known, &c.requests[j].1);
        j = j + 1;
    }
    assert(all.take(n + m) =~= all);
    (folders, known)
}

/// Makes the collection for an imported one, or says why it cannot be made.
fn build_collection(c: &ImportedCollection, requests: &Vec<ImportedRequest>) -> (r: Result<Collection, String>)
    ensures
        match collection_error(*c, requests@.len()) {
            Some(e) => r matches Err(m) && m@ == e,
            None => r matches Ok(made) && built_from(made, *c, requests@),
        },
{
    proof {
        reveal_strlit("A collection needs a name.");
        reveal_strlit("Invalid imported request index");
    }
    let name = trim(c.name.as_str());
    if name.unicode_len() == 0 {
        return Err(owned("A collection needs a name."));
    }
    let (folders, known) = plan_folders(c);
    let ghost plan = paths_view(known@);
    let mut saved: Vec<SavedRequest> = Vec::new();
    let mut j: usize = 0;
    while j < c.requests.len()
        invariant
            plan == paths_view(known@),
            plan == folder_plan(collection_paths(*c)),
            folders_match(folders@, plan),
            trimmed(c.name@).len() > 0,
            0 <= j <= c.requests@.len(),
            saved@.len() == j,
            forall|m: int| 0 <= m < j ==> (#[trigger] c.requests@[m]).0 < requests@.len(),
            forall|m: int|
                0 <= m < j ==> {
                    let (index, path) = c.requests@[m];
                    let q = path_index(plan, path_view(path@));
                    &&& (#[trigger] saved@[m]).name@ == requests@[index as int].name@
                    &&& saved@[m].definition@ == requests@[index as int].template@
                    &&& opt_view(saved@[m].folder_id) == if q < 0 {
                        None
                    } else {
                        Some(folders@[q].id@)
                    }
                },
        decreases c.requests@.len() - j,
    {
        let entry = &c.requests[j];
        let index = entry.0;
        if index >= requests.len() {
            assert(c.requests@[j as int].0 >= requests@.len());
            return Err(owned("Invalid imported request index"));
        }
        let request = &requests[index];
        let folder_id = match find_path(&known, &entry.1) {
            Some(q) => Some(owned(folders[q].id.as_str())),
            None => None,
        };
        let made = SavedRequest {
            id: fresh_id(),
            name: request.name.clone(),
            folder_id,
            definition: request.template.clone(),
        };
        let ghost prev = saved@;
        saved.push(made);
        assert(saved@ == prev.push(made));
        j = j + 1;
    }
    let made = Collection { id: fresh_id(), name: owned(name), folders, requests: saved };
    assert(!exists|m: int| 0 <= m < c.requests@.len() && (#[trigger] c.requests@[m]).0 >= requests@.len());
    Ok(made)
}

/// The name of the collection an import without collections is saved in.
pub open spec fn default_collection_name() -> Seq<char> {
    "Imported requests"@
}

/// A collection that holds every request of an import at its root, in
/// order, under the given name.
pub open spec fn is_default_collection(c: ImportedCollection, name: Seq<char>, count: nat) -> bool {
    &&& c.name@ == name
    &&& c.folders@.len() == 0
    &&& c.requests@.len() == count
    &&& forall|j: int| 0 <= j < count ==> (#[trigger] c.requests@[j]).0 == j && c.requests@[j].1@.len() == 0
}

/// The collection for an import that brings none.
fn default_collection(name: &str, count: usize) -> (c: ImportedCollection)
    ensures
        is_default_collection(c, name@, count as nat),
{
    let mut requests: Vec<(usize, Vec<String>)> = Vec::new();
    let mut j: usize = 0;
    while j < count
        invariant
            0 <= j <= count,
            requests@.len() == j,
            forall|m: int| 0 <= m < j ==> (#[trigger] requests@[m]).0 == m && requests@[m].1@.len() == 0,
        decreases count - j,
    {
        requests.push((j, Vec::new()));
        j = j + 1;
    }
    ImportedCollection { name: owned(name), folders: Vec::new(), requests }
}

/// Why an import cannot be saved, if it cannot: the first collection that
/// cannot be made; an import without collections is saved in the default
/// one, which can always be made.
pub open spec fn bundle_error(bundle: ImportBundle) -> Option<Seq<char>> {
    if bundle.collections@.len() > 0 {
        import_error(bundle.collections@, bundle.requests@.len())
    } else {
        None
    }
}

/// The collections after saving an import on top of `base`: `base`, then one
/// collection made from each imported one, or the default collection when
/// the import brings none.
pub open spec fn import_saved(bundle: ImportBundle, base: Seq<Collection>, made: Seq<Collection>) -> bool {
    &&& made.take(base.len() as int) == base
    &&& if bundle.collections@.len() > 0 {
        &&& made.len() == base.len() + bundle.collections@.len()
        &&& forall|k: int|
            0 <= k < bundle.collections@.len() ==> built_from(
                #[trigger] made[base.len() + k],
                bundle.collections@[k],
                bundle.requests@,
            )
    } else {
        &&& made.len() == base.len() + 1
        &&& exists|c: ImportedCollection|
            is_default_collection(c, default_collection_name(), bundle.requests@.len()) && built_from(
                made[base.len() as int],
                c,
                bundle.requests@,
            )
    }
}

/// Adds the collections of an import to a workspace; an import without
/// collections gets one named `Imported requests` holding all its requests.
/// The collections are made in order; the first one that cannot be made
/// stops the import with its reason.
pub fn build_import_workspace(workspace: Workspace, bundle: &ImportBundle) -> (r: Result<Workspace, String>)
    ensures
        match bundle_error(*bundle) {
            Some(e) => r matches Err(m) && m@ == e,
            None => r matches Ok(candidate) && import_saved(*bundle, workspace.collections@, candidate.collections@),
        },
{
    if bundle.collections.len() == 0 {
        let c = default_collection("Imported requests", bundle.requests.len());
        proof {
            reveal_strlit("Imported requests");
            assert(trim_start(c.name@) == c.name@);
            assert(trim_end(c.name@) == c.name@);
            assert(!exists|m: int| 0 <= m < c.requests@.len() && (#[trigger] c.requests@[m]).0 >= bundle.requests@.len());
        }
        let mut candidate = workspace;
        let ghost base = candidate.collections@;
        match build_collection(&c, &bundle.requests) {
            Ok(made) => {
                candidate.collections.push(made);
                assert(candidate.collections@.take(base.len() as int) =~= base);
                assert(candidate.collections@[base.len() as int] == made);
                assert(is_default_collection(c, default_collection_name(), bundle.requests@.len()));
                assert(built_from(candidate.collections@[base.len() as int], c, bundle.requests@));
                return Ok(candidate);
            },
            Err(message) => {
                return Err(message);
            },
        }
    }
    let mut candidate = workspace;
    let ghost base = candidate.collections@;
    let collections = &bundle.collections;
    let mut k: usize = 0;
    while k < collections.len()
        invariant
            *collections == bundle.collections,
            0 <= k <= collections@.len(),
            import_error(collections@.take(k as int), bundle.requests@.len()) is None,
            candidate.collections@.len() == base.len() + k,
            candidate.collections@.take(base.len() as int) == base,
            forall|m: int|
                0 <= m < k ==> built_from(
                    #[trigger] candidate.collections@[base.len() + m],
                    collections@[m],
                    bundle.requests@,
                ),
        decreases collections@.len() - k,
    {
        proof {
            assert(collections@.take(k + 1).drop_last() =~= collections@.take(k as int));
            assert(collections@.take(k + 1).last() == collections@[k as int]);
        }
        match build_collection(&collections[k], &bundle.requests) {
            Ok(made) => {
                let ghost prev = candidate.collections@;
                candidate.collections.push(made);
                proof {
                    assert(candidate.collections@ == prev.push(made));
                    assert(candidate.collections@.take(base.len() as int) =~= base);
                    assert forall|m: int| 0 <= m < k + 1 implies built_from(
                        #[trigger] candidate.collections@[base.len() + m],
                        collections@[m],
                        bundle.requests@,
                    ) by {
                        if m < k {
                            assert(candidate.collections@[base.len() + m] == prev[base.len() + m]);
                        }
                    }
                }
            },
            Err(message) => {
                proof {
                    lemma_import_error_prefix(collections@, bundle.requests@.len(), k as int + 1);
                }
                return Err(message);
            },
        }
        k = k + 1;
    }
    assert(collections@.take(k as int) =~= collections@);
    assert(candidate.collections@.take(base.len() as int) == base);
    Ok(candidate)
}

/// Once some prefix of the collections cannot be saved, the whole list fails
/// with the same reason.
proof fn lemma_import_error_prefix(collections: Seq<ImportedCollection>, count: nat, n: int)
    requires
        0 <= n <= collections.len(),
        import_error(collections.take(n), count) is Some,
    ensures
        import_error(collections, count) == import_error(collections.take(n), count),
    decreases collections.len(),
{
    if n < collections.len() {
        assert(collections.drop_last().take(n) =~= collections.take(n));
        lemma_import_error_prefix(collections.drop_last(), count, n);
    } else {
        assert(collections.take(n) =~= collections);
    }
}

/// How one imported collection is listed: its name and how many requests it
/// brings.
pub open spec fn collection_summary(c: ImportedCollection) -> Seq<char> {
    c.name@ + " ("@ + decimal(c.requests@.len()) + " requests)"@
}

/// The summaries of the first `n` collections, separated by commas.
pub open spec fn collection_summaries(collections: Seq<ImportedCollection>, n: int) -> Seq<char>
    decreases n,
{
    if n <= 0 {
        Seq::empty()
    } else if n == 1 {
        collection_summary(collections[0])
    } else {
        collection_summaries(collections, n - 1) + ", "@ + collection_summary(collections[n - 1])
    }
}

/// The first `n` warnings, each on a line of its own.
pub open spec fn warning_lines(warnings: Seq<String>, n: int) -> Seq<char>
    decreases n,
{
    if n <= 0 {
        Seq::empty()
    } else {
        warning_lines(warnings, n - 1) + "\n"@ + warnings[n - 1]@
    }
}

/// The note shown when the import cannot be saved.
pub open spec fn import_access_note() -> Seq<char> {
    "\nSaving requires collection and request creation access in a writable workspace."@
}

/// How the collections of an import are listed; an import without
/// collections lists the default collection that it would be saved in.
pub open spec fn import_summaries(bundle: ImportBundle) -> Seq<char> {
    if bundle.collections@.len() > 0 {
        collection_summaries(bundle.collections@, bundle.collections@.len() as int)
    } else {
        default_collection_name() + " ("@ + decimal(bundle.requests@.len()) + " requests)"@
    }
}

/// What saving an import would do: where it goes, each collection with how
/// many requests it brings, then the warnings, and a note when it cannot be
/// saved.
pub fn request_import_details(bundle: &ImportBundle, workspace_name: &str, can_save: bool) -> (details: String)
    ensures
        details@ == "Save to "@ + workspace_name@ + ": "@ + import_summaries(*bundle) + warning_lines(bundle.warnings@, bundle.warnings@.len() as int) + if can_save {
            Seq::empty()
        } else {
            import_access_note()
        },
{
    proof {
        reveal_strlit("Save to ");
        reveal_strlit(": ");
        reveal_strlit(" (");
        reveal_strlit(" requests)");
        reveal_strlit(", ");
        reveal_strlit("\n");
        reveal_strlit("\nSaving requires collection and request creation access in a writable workspace.");
    }
    let mut details = owned("Save to ");
    push_str(&mut details, workspace_name);
    push_str(&mut details, ": ");
    let ghost head = details@;
    let collections = &bundle.collections;
    let mut k: usize = 0;
    while k < collections.len()
        invariant
            *collections == bundle.collections,
            0 <= k <= collections@.len(),
            details@ == head + collection_summaries(collections@, k as int),
        decreases collections@.len() - k,
    {
        if k > 0 {
            push_str(&mut details, ", ");
        }
        let c = &collections[k];
        push_str(&mut details, c.name.as_str());
        push_str(&mut details, " (");
        push_decimal(&mut details, c.requests.len() as u64);
        push_str(&mut details, " requests)");
        proof {
            if k == 0 {
                assert(details@ =~= head + collection_summaries(collections@, 1));
            } else {
                assert(details@ =~= head + collection_summaries(collections@, k + 1));
            }
        }
        k = k + 1;
    }
    if collections.len() == 0 {
        proof {
            reveal_strlit("Imported requests");
            reveal_strlit("Imported requests (");
            assert(details@ =~= head);
        }
        push_str(&mut details, "Imported requests (");
        push_decimal(&mut details, bundle.requests.len() as u64);
        push_str(&mut details, " requests)");
        assert(details@ =~= head + import_summaries(*bundle));
    } else {
        assert(details@ == head + import_summaries(*bundle));
    }
    let ghost middle = details@;
    let warnings = &bundle.warnings;
    let mut w: usize = 0;
    while w < warnings.len()
        invariant
            *warnings == bundle.warnings,
            0 <= w <= warnings@.len(),
            details@ == middle + warning_lines(warnings@, w as int),
        decreases warnings@.len() - w,
    {
        push_str(&mut details, "\n");
        push_str(&mut details, warnings[w].as_str());
        assert(details@ =~= middle + warning_lines(warnings@, w + 1));
        w = w + 1;
    }
    if !can_save {
        push_str(&mut details, "\nSaving requires collection and request creation access in a writable workspace.");
    } else {
        assert(details@ =~= details@ + Seq::<char>::empty());
    }
    details
}

/// How many requests the first `n` parts bring.
pub open spec fn total_requests(parts: Seq<ImportBundle>, n: int) -> nat
    decreases n,
{
    if n <= 0 {
        0
    } else {
        total_requests(parts, n - 1) + parts[n - 1].requests@.len()
    }
}

/// An imported collection as text, its request positions moved by `offset`.
pub open spec fn collection_shape(c: ImportedCollection, offset: nat) -> (
    Seq<char>,
    Seq<Seq<Seq<char>>>,
    Seq<(int, Seq<Seq<char>>)>,
) {
    (
        c.name@,
        paths_view(c.folders@),
        c.requests@.map_values(|r: (usize, Vec<String>)| (r.0 + offset, path_view(r.1@))),
    )
}

/// The default collection of an import as text, its request positions
/// moved by `offset`: the name, no folders, every request at the root.
pub open spec fn default_shape(name: Seq<char>, count: nat, offset: nat) -> (
    Seq<char>,
    Seq<Seq<Seq<char>>>,
    Seq<(int, Seq<Seq<char>>)>,
) {
    (name, Seq::empty(), Seq::new(count, |i: int| (i + offset, Seq::<Seq<char>>::empty())))
}

/// The collections of one import as text, their request positions moved by
/// `offset`; an import without collections gets the default one, named
/// `name`.
pub open spec fn part_shapes(part: ImportBundle, name: Seq<char>, offset: nat) -> Seq<
    (Seq<char>, Seq<Seq<Seq<char>>>, Seq<(int, Seq<Seq<char>>)>),
> {
    if part.collections@.len() > 0 {
        part.collections@.map_values(|c: ImportedCollection| collection_shape(c, offset))
    } else {
        seq![default_shape(name, part.requests@.len(), offset)]
    }
}

/// The collections of the first `n` parts, in order, each part's request
/// positions moved past the requests of the parts before it; a part without
/// collections gets the default one under its name from `names`.
pub open spec fn merged_collections(parts: Seq<ImportBundle>, names: Seq<Seq<char>>, n: int) -> Seq<
    (Seq<char>, Seq<Seq<Seq<char>>>, Seq<(int, Seq<Seq<char>>)>),
>
    decreases n,
{
    if n <= 0 {
        Seq::empty()
    } else {
        merged_collections(parts, names, n - 1) + part_shapes(parts[n - 1], names[n - 1], total_requests(parts, n - 1))
    }
}

proof fn lemma_default_shape(c: ImportedCollection, name: Seq<char>, count: nat, offset: nat)
    requires
        is_default_collection(c, name, count),
    ensures
        collection_shape(c, offset) == default_shape(name, count, offset),
{
    assert(paths_view(c.folders@) =~= Seq::<Seq<Seq<char>>>::empty());
    assert forall|j: int| 0 <= j < count implies path_view(#[trigger] c.requests@[j].1@) == Seq::<Seq<char>>::empty() by {
        assert(path_view(c.requests@[j].1@) =~= Seq::<Seq<char>>::empty());
    }
    assert(c.requests@.map_values(|r: (usize, Vec<String>)| (r.0 + offset, path_view(r.1@))) =~= Seq::new(
        count,
        |i: int| (i + offset, Seq::<Seq<char>>::empty()),
    ));
}

/// The requests of the first `n` parts, in order.
pub open spec fn merged_requests(parts: Seq<ImportBundle>, n: int) -> Seq<ImportedRequest>
    decreases n,
{
    if n <= 0 {
        Seq::empty()
    } else {
        merged_requests(parts, n - 1) + parts[n - 1].requests@
    }
}

/// `known` with the texts of `more` that it does not hold yet, in order.
pub open spec fn add_new_texts(known: Seq<Seq<char>>, more: Seq<Seq<char>>) -> Seq<Seq<char>>
    decreases more.len(),
{
    if more.len() == 0 {
        known
    } else {
        let k = add_new_texts(known, more.drop_last());
        if k.contains(more.last()) {
            k
        } else {
            k.push(more.last())
        }
    }
}

/// The warnings of the first `n` parts, each once.
pub open spec fn merged_warnings(parts: Seq<ImportBundle>, n: int) -> Seq<Seq<char>>
    decreases n,
{
    if n <= 0 {
        Seq::empty()
    } else {
        add_new_texts(merged_warnings(parts, n - 1), parts[n - 1].warnings@.map_values(|w: String| w@))
    }
}

/// The source formats of the first `n` parts, each once.
pub open spec fn merged_formats(parts: Seq<ImportBundle>, n: int) -> Seq<Seq<char>>
    decreases n,
{
    if n <= 0 {
        Seq::empty()
    } else {
        add_new_texts(merged_formats(parts, n - 1), seq![parts[n - 1].source_format@])
    }
}

/// Texts joined with ` + `.
pub open spec fn joined_with_plus(texts: Seq<Seq<char>>) -> Seq<char>
    decreases texts.len(),
{
    if texts.len() == 0 {
        Seq::empty()
    } else if texts.len() == 1 {
        texts[0]
    } else {
        joined_with_plus(texts.drop_last()) + " + "@ + texts.last()
    }
}

/// The message for imports that bring too many requests.
pub open spec fn too_many_requests_message() -> Seq<char> {
    "the selected files contain more than 256 requests"@
}

/// The message for imports that bring no request.
pub open spec fn no_requests_message() -> Seq<char> {
    "the selected files contain no requests"@
}

/// The texts of a list.
pub open spec fn texts_view(v: Seq<String>) -> Seq<Seq<char>> {
    v.map_values(|s: String| s@)
}

proof fn lemma_total_requests_grows(parts: Seq<ImportBundle>, p: int, n: int)
    requires
        0 <= p <= n,
    ensures
        total_requests(parts, p) <= total_requests(parts, n),
    decreases n - p,
{
    if p < n {
        lemma_total_requests_grows(parts, p, n - 1);
    }
}

/// Adds a text unless the list holds it already.
fn push_new_text(list: &mut Vec<String>, text: String)
    ensures
        texts_view(final(list)@) == add_new_texts(texts_view(old(list)@), seq![text@]),
{
    let ghost more = seq![text@];
    assert(more.drop_last() =~= Seq::<Seq<char>>::empty());
    assert(add_new_texts(texts_view(list@), more.drop_last()) == texts_view(list@));
    assert(more.last() == text@);
    let mut k: usize = 0;
    while k < list.len()
        invariant
            0 <= k <= list@.len(),
            list@ == old(list)@,
            more == seq![text@],
            more.last() == text@,
            add_new_texts(texts_view(list@), more.drop_last()) == texts_view(list@),
            forall|m: int| 0 <= m < k ==> list@[m]@ != text@,
        decreases list@.len() - k,
    {
        if str_eq(list[k].as_str(), text.as_str()) {
            assert(texts_view(list@)[k as int] == text@);
            assert(texts_view(list@).contains(text@));
            return;
        }
        k = k + 1;
    }
    assert(!texts_view(list@).contains(text@)) by {
        if texts_view(list@).contains(text@) {
            let m = choose|m: int| 0 <= m < texts_view(list@).len() && texts_view(list@)[m] == text@;
            assert(list@[m]@ == text@);
        }
    }
    let ghost prev = list@;
    list.push(text);
    assert(list@ == prev.push(text));
    assert(texts_view(list@) =~= texts_view(prev).push(text@));
}

impl ImportedCollection {
    /// An unnamed collection without folders or requests.
    fn vacant() -> (c: ImportedCollection)
        ensures
            c.name@.len() == 0,
            c.folders@.len() == 0,
            c.requests@.len() == 0,
    {
        ImportedCollection { name: String::new(), folders: Vec::new(), requests: Vec::new() }
    }

    /// The collection with its request positions moved by `offset`.
    fn shifted(self, offset: usize) -> (r: ImportedCollection)
        requires
            forall|j: int| 0 <= j < self.requests@.len() ==> (#[trigger] self.requests@[j]).0 + offset <= usize::MAX,
        ensures
            collection_shape(r, 0) == collection_shape(self, offset as nat),
    {
        let ghost before = self.requests@;
        let mut entries = self.requests;
        let mut moved: Vec<(usize, Vec<String>)> = Vec::new();
        let mut j: usize = 0;
        while j < entries.len()
            invariant
                entries@.len() == before.len(),
                forall|m: int| j <= m < before.len() ==> entries@[m] == before[m],
                forall|m: int| 0 <= m < before.len() ==> (#[trigger] before[m]).0 + offset <= usize::MAX,
                0 <= j <= before.len(),
                moved@.len() == j,
                forall|m: int| 0 <= m < j ==> (#[trigger] moved@[m]).0 == before[m].0 + offset && path_view(moved@[m].1@) == path_view(before[m].1@),
            decreases before.len() - j,
        {
            let mut entry: (usize, Vec<String>) = (0, Vec::new());
            entries.set_and_swap(j, &mut entry);
            assert(entry == before[j as int]);
            let (index, path) = entry;
            let shifted_entry = (index + offset, path);
            let ghost prev = moved@;
            moved.push(shifted_entry);
            assert(moved@ == prev.push(shifted_entry));
            j = j + 1;
        }
        let r = ImportedCollection { name: self.name, folders: self.folders, requests: moved };
        assert(r.requests@.map_values(|e: (usize, Vec<String>)| (e.0 + 0nat, path_view(e.1@))) =~= before.map_values(
            |e: (usize, Vec<String>)| (e.0 + offset as nat, path_view(e.1@)),
        ));
        r
    }
}

impl ImportBundle {
    /// Gives an import that brings no collection one named `name`, holding
    /// all its requests at its root; an import with collections is left as
    /// it is.
    pub fn ensure_collection(&mut self, name: &str)
        ensures
            old(self).collections@.len() > 0 ==> *final(self) == *old(self),
            old(self).collections@.len() == 0 ==> {
                &&& final(self).collections@.len() == 1
                &&& is_default_collection(final(self).collections@[0], name@, old(self).requests@.len())
                &&& final(self).requests == old(self).requests
                &&& final(self).warnings == old(self).warnings
                &&& final(self).source_format == old(self).source_format
            },
    {
        if self.collections.len() == 0 {
            let c = default_collection(name, self.requests.len());
            self.collections.push(c);
        }
    }

    /// A bundle that brings nothing, of no format.
    fn vacant() -> (b: ImportBundle)
        ensures
            b.collections@.len() == 0,
            b.requests@.len() == 0,
            b.warnings@.len() == 0,
            b.source_format@.len() == 0,
    {
        ImportBundle { collections: Vec::new(), requests: Vec::new(), warnings: Vec::new(), source_format: String::new() }
    }
}

/// The collections of a list as text.
pub open spec fn collection_shapes(cs: Seq<ImportedCollection>) -> Seq<
    (Seq<char>, Seq<Seq<Seq<char>>>, Seq<(int, Seq<Seq<char>>)>),
> {
    cs.map_values(|c: ImportedCollection| collection_shape(c, 0))
}

fn append_shifted_collections(collections: &mut Vec<ImportedCollection>, added: Vec<ImportedCollection>, offset: usize)
    requires
        forall|c: int, j: int|
            0 <= c < added@.len() && 0 <= j < added@[c].requests@.len() ==> (#[trigger] added@[c].requests@[j]).0
                + offset <= usize::MAX,
    ensures
        collection_shapes(final(collections)@) == collection_shapes(old(collections)@) + added@.map_values(
            |c: ImportedCollection| collection_shape(c, offset as nat),
        ),
{
    let ghost before = added@;
    let ghost start = collection_shapes(collections@);
    let mut added = added;
    let mut c: usize = 0;
    while c < added.len()
        invariant
            added@.len() == before.len(),
            forall|m: int| c <= m < before.len() ==> added@[m] == before[m],
            forall|m: int, j: int|
                0 <= m < before.len() && 0 <= j < before[m].requests@.len() ==> (#[trigger] before[m].requests@[j]).0
                    + offset <= usize::MAX,
            0 <= c <= before.len(),
            collection_shapes(collections@) == start + before.take(c as int).map_values(
                |x: ImportedCollection| collection_shape(x, offset as nat),
            ),
        decreases before.len() - c,
    {
        let mut one = ImportedCollection::vacant();
        added.set_and_swap(c, &mut one);
        assert(one == before[c as int]);
        let moved = one.shifted(offset);
        let ghost prev = collections@;
        collections.push(moved);
        assert(collections@ == prev.push(moved));
        assert(collection_shapes(collections@) =~= collection_shapes(prev).push(collection_shape(moved, 0)));
        assert(before.take(c + 1).map_values(|x: ImportedCollection| collection_shape(x, offset as nat))
            =~= before.take(c as int).map_values(|x: ImportedCollection| collection_shape(x, offset as nat)).push(
            collection_shape(before[c as int], offset as nat),
        ));
        c = c + 1;
    }
    assert(before.take(before.len() as int) =~= before);
}

fn add_warnings(list: &mut Vec<String>, warnings: &Vec<String>)
    ensures
        texts_view(final(list)@) == add_new_texts(texts_view(old(list)@), texts_view(warnings@)),
{
    let ghost start = texts_view(list@);
    let ghost all = texts_view(warnings@);
    let mut k: usize = 0;
    while k < warnings.len()
        invariant
            all == texts_view(warnings@),
            0 <= k <= warnings@.len(),
            texts_view(list@) == add_new_texts(start, all.take(k as int)),
        decreases warnings@.len() - k,
    {
        let ghost mid = texts_view(list@);
        push_new_text(list, warnings[k].clone());
        proof {
            let more = all.take(k + 1);
            assert(more.drop_last() =~= all.take(k as int));
            assert(more.last() == all[k as int]);
            let one = seq![all[k as int]];
            assert(one.drop_last() =~= Seq::<Seq<char>>::empty());
            assert(add_new_texts(mid, one.drop_last()) == mid);
        }
        k = k + 1;
    }
    assert(all.take(warnings@.len() as int) =~= all);
}

fn join_with_plus(texts: &Vec<String>) -> (r: String)
    ensures
        r@ == joined_with_plus(texts_view(texts@)),
{
    proof {
        reveal_strlit(" + ");
    }
    let ghost all = texts_view(texts@);
    let mut r = String::new();
    let mut k: usize = 0;
    while k < texts.len()
        invariant
            all == texts_view(texts@),
            0 <= k <= texts@.len(),
            r@ == joined_with_plus(all.take(k as int)),
        decreases texts@.len() - k,
    {
        proof {
            assert(all.take(k + 1).drop_last() =~= all.take(k as int));
        }
        if k > 0 {
            push_str(&mut r, " + ");
        } else {
            assert(all.take(0) =~= Seq::<Seq<char>>::empty());
        }
        push_str(&mut r, texts[k].as_str());
        k = k + 1;
    }
    assert(all.take(texts@.len() as int) =~= all);
    r
}

/// Puts together what several import sources read, in order: their
/// collections (each source's request positions moved past the requests of
/// the sources before it; a source without collections gets one under its
/// name from `names`, holding all its requests), their requests, their
/// warnings and formats each once. More than 256 requests in all, or none,
/// is refused.
pub fn merge_import_bundles(parts: Vec<ImportBundle>, names: &Vec<String>) -> (r: Result<ImportBundle, String>)
    requires
        names@.len() == parts@.len(),
        forall|p: int, c: int, j: int|
            0 <= p < parts@.len() && total_requests(parts@, p) <= 256 && 0 <= c < parts@[p].collections@.len() && 0
                <= j < parts@[p].collections@[c].requests@.len() ==> (#[trigger] parts@[p].collections@[c].requests@[j]).0
                + total_requests(parts@, p) <= usize::MAX,
        forall|p: int|
            0 <= p < parts@.len() && total_requests(parts@, p) <= 256 ==> (#[trigger] parts@[p].requests@.len())
                + total_requests(parts@, p) <= usize::MAX,
    ensures
        ({
            let total = total_requests(parts@, parts@.len() as int);
            &&& total > 256 ==> (r matches Err(m) && m@ == too_many_requests_message())
            &&& total == 0 ==> (r matches Err(m) && m@ == no_requests_message())
            &&& 0 < total <= 256 ==> (r matches Ok(b) && {
                &&& collection_shapes(b.collections@) == merged_collections(parts@, texts_view(names@), parts@.len() as int)
                &&& b.requests@ == merged_requests(parts@, parts@.len() as int)
                &&& texts_view(b.warnings@) == merged_warnings(parts@, parts@.len() as int)
                &&& b.source_format@ == joined_with_plus(merged_formats(parts@, parts@.len() as int))
            })
        }),
{
    proof {
        reveal_strlit("the selected files contain more than 256 requests");
        reveal_strlit("the selected files contain no requests");
    }
    let ghost input = parts@;
    let mut parts = parts;
    let mut collections: Vec<ImportedCollection> = Vec::new();
    let mut requests: Vec<ImportedRequest> = Vec::new();
    let mut warnings: Vec<String> = Vec::new();
    let mut formats: Vec<String> = Vec::new();
    let ghost labels = texts_view(names@);
    assert(collection_shapes(collections@) =~= merged_collections(input, labels, 0));
    assert(texts_view(warnings@) =~= merged_warnings(input, 0));
    assert(texts_view(formats@) =~= merged_formats(input, 0));
    let mut p: usize = 0;
    while p < parts.len() && requests.len() <= 256
        invariant
            parts@.len() == input.len(),
            forall|q: int| p <= q < input.len() ==> parts@[q] == input[q],
            forall|q: int, c: int, j: int|
                0 <= q < input.len() && total_requests(input, q) <= 256 && 0 <= c < input[q].collections@.len() && 0
                    <= j < input[q].collections@[c].requests@.len() ==> (#[trigger] input[q].collections@[c].requests@[j]).0
                    + total_requests(input, q) <= usize::MAX,
            forall|q: int|
                0 <= q < input.len() && total_requests(input, q) <= 256 ==> (#[trigger] input[q].requests@.len())
                    + total_requests(input, q) <= usize::MAX,
            names@.len() == input.len(),
            labels == texts_view(names@),
            0 <= p <= input.len(),
            requests@.len() == total_requests(input, p as int),
            collection_shapes(collections@) == merged_collections(input, labels, p as int),
            requests@ == merged_requests(input, p as int),
            texts_view(warnings@) == merged_warnings(input, p as int),
            texts_view(formats@) == merged_formats(input, p as int),
        decreases input.len() - p,
    {
        let mut part = ImportBundle::vacant();
        parts.set_and_swap(p, &mut part);
        assert(part == input[p as int]);
        part.ensure_collection(names[p].as_str());
        let offset = requests.len();
        let ghost added = part.collections@;
        proof {
            if input[p as int].collections@.len() == 0 {
                lemma_default_shape(added[0], labels[p as int], input[p as int].requests@.len(), offset as nat);
                assert(added.map_values(|c: ImportedCollection| collection_shape(c, offset as nat)) =~= part_shapes(
                    input[p as int],
                    labels[p as int],
                    offset as nat,
                ));
            }
            assert(added.map_values(|c: ImportedCollection| collection_shape(c, offset as nat)) == part_shapes(
                input[p as int],
                labels[p as int],
                offset as nat,
            ));
        }
        push_new_text(&mut formats, part.source_format.clone());
        append_shifted_collections(&mut collections, part.collections, offset);
        add_warnings(&mut warnings, &part.warnings);
        let ghost before_requests = requests@;
        let mut added = part.requests;
        requests.append(&mut added);
        proof {
            assert(collection_shapes(collections@) =~= merged_collections(input, labels, p + 1));
            assert(requests@ == before_requests + input[p as int].requests@);
            assert(requests@.len() == total_requests(input, p + 1));
        }
        p = p + 1;
    }
    if requests.len() > 256 {
        proof {
            lemma_total_requests_grows(input, p as int, input.len() as int);
        }
        return Err(owned("the selected files contain more than 256 requests"));
    }
    if requests.len() == 0 {
        return Err(owned("the selected files contain no requests"));
    }
    let source_format = join_with_plus(&formats);
    Ok(ImportBundle { collections, requests, warnings, source_format })
}

} // verus!
