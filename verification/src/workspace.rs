use vstd::prelude::*;

use crate::ids::fresh_id;
use crate::request_model::RequestTemplate;
use crate::text::{owned, str_eq, trim, trimmed};
use vstd::pervasive::VecAdditionalExecFns;

verus! {

/// A folder inside a collection; `parent_id` names the folder it sits in.
#[derive(Debug, PartialEq, Eq)]
pub struct CollectionFolder {
    pub id: String,
    pub name: String,
    pub parent_id: Option<String>,
}

/// A request saved in a collection, optionally inside one of its folders.
#[derive(Debug, PartialEq, Eq)]
pub struct SavedRequest {
    pub id: String,
    pub name: String,
    pub folder_id: Option<String>,
    pub definition: RequestTemplate,
}

impl SavedRequest {
    /// A request without identity, name or folder, holding the blank definition.
    fn vacant() -> (r: SavedRequest)
        ensures
            r.id@.len() == 0,
            r.name@.len() == 0,
            r.folder_id is None,
            r.definition@.method == "GET"@,
            r.definition@.url.len() == 0,
            r.definition@.headers.len() == 0,
            r.definition@.body.len() == 0,
            r.definition@.body_fields.len() == 0,
    {
        SavedRequest {
            id: String::new(),
            name: String::new(),
            folder_id: None,
            definition: RequestTemplate::blank(),
        }
    }
}

/// A named collection of folders and saved requests.
#[derive(Debug, PartialEq, Eq)]
pub struct Collection {
    pub id: String,
    pub name: String,
    pub folders: Vec<CollectionFolder>,
    pub requests: Vec<SavedRequest>,
}

/// The collections of a workspace.
#[derive(Debug, PartialEq, Eq)]
pub struct Workspace {
    pub collections: Vec<Collection>,
}

/// The identifier held by an optional string, as text.
pub open spec fn opt_view(o: Option<String>) -> Option<Seq<char>> {
    match o {
        Some(s) => Some(s@),
        None => None,
    }
}

impl Collection {
    /// A collection without identity, name, folders or requests.
    fn vacant() -> (c: Collection)
        ensures
            c.id@.len() == 0,
            c.name@.len() == 0,
            c.folders@.len() == 0,
            c.requests@.len() == 0,
    {
        Collection { id: String::new(), name: String::new(), folders: Vec::new(), requests: Vec::new() }
    }

    /// The collection holds a folder with this identifier.
    pub open spec fn has_folder(self, id: Seq<char>) -> bool {
        exists|k: int| 0 <= k < self.folders@.len() && (#[trigger] self.folders@[k]).id@ == id
    }

    /// The position of the first saved request with this identifier.
    pub open spec fn request_position(self, id: Seq<char>) -> Option<int> {
        if exists|j: int| 0 <= j < self.requests@.len() && (#[trigger] self.requests@[j]).id@ == id {
            Some(
                choose|j: int|
                    0 <= j < self.requests@.len() && (#[trigger] self.requests@[j]).id@ == id
                        && forall|k: int| 0 <= k < j ==> (#[trigger] self.requests@[k]).id@ != id,
            )
        } else {
            None
        }
    }

    /// The folder with this identifier, if the collection holds one.
    pub fn folder(&self, id: &str) -> (r: Option<&CollectionFolder>)
        ensures
            r is Some <==> self.has_folder(id@),
            r is Some ==> r->0.id@ == id@,
    {
        let mut k: usize = 0;
        while k < self.folders.len()
            invariant
                0 <= k <= self.folders@.len(),
                forall|m: int| 0 <= m < k ==> (#[trigger] self.folders@[m]).id@ != id@,
            decreases self.folders@.len() - k,
        {
            if str_eq(self.folders[k].id.as_str(), id) {
                return Some(&self.folders[k]);
            }
            k = k + 1;
        }
        None
    }
}

proof fn lemma_first_request(c: Collection, id: Seq<char>, j: int)
    requires
        0 <= j < c.requests@.len(),
        c.requests@[j].id@ == id,
        forall|k: int| 0 <= k < j ==> (#[trigger] c.requests@[k]).id@ != id,
    ensures
        c.request_position(id) == Some(j),
{
    let p = choose|p: int|
        0 <= p < c.requests@.len() && (#[trigger] c.requests@[p]).id@ == id && forall|k: int|
            0 <= k < p ==> (#[trigger] c.requests@[k]).id@ != id;
    assert(0 <= p < c.requests@.len() && c.requests@[p].id@ == id);
    if p < j {
        assert(c.requests@[p].id@ != id);
    }
    if j < p {
        assert(c.requests@[j].id@ != id);
    }
}

proof fn lemma_first_collection(w: Workspace, id: Seq<char>, i: int)
    requires
        0 <= i < w.collections@.len(),
        w.collections@[i].id@ == id,
        forall|k: int| 0 <= k < i ==> (#[trigger] w.collections@[k]).id@ != id,
    ensures
        w.collection_position(id) == Some(i),
{
    let p = choose|p: int|
        0 <= p < w.collections@.len() && (#[trigger] w.collections@[p]).id@ == id && forall|k: int|
            0 <= k < p ==> (#[trigger] w.collections@[k]).id@ != id;
    assert(0 <= p < w.collections@.len() && w.collections@[p].id@ == id);
    if p < i {
        assert(w.collections@[p].id@ != id);
    }
    if i < p {
        assert(w.collections@[i].id@ != id);
    }
}

/// A saved request and the collection that holds it, by position.
pub struct RequestLocation {
    pub collection: int,
    pub request: int,
}

impl Workspace {
    /// Where the first saved request with this identifier lives: the first
    /// collection that holds one, and its first such request there.
    pub open spec fn locate(self, id: Seq<char>) -> Option<RequestLocation> {
        if exists|i: int|
            0 <= i < self.collections@.len() && (#[trigger] self.collections@[i]).request_position(
                id,
            ) is Some {
            let i = choose|i: int|
                0 <= i < self.collections@.len() && (#[trigger] self.collections@[i]).request_position(
                    id,
                ) is Some && forall|k: int|
                    0 <= k < i ==> (#[trigger] self.collections@[k]).request_position(id) is None;
            Some(
                RequestLocation {
                    collection: i,
                    request: self.collections@[i].request_position(id)->0,
                },
            )
        } else {
            None
        }
    }

    /// The position of the first collection with this identifier.
    pub open spec fn collection_position(self, id: Seq<char>) -> Option<int> {
        if exists|i: int|
            0 <= i < self.collections@.len() && (#[trigger] self.collections@[i]).id@ == id {
            Some(
                choose|i: int|
                    0 <= i < self.collections@.len() && (#[trigger] self.collections@[i]).id@ == id
                        && forall|k: int|
                        0 <= k < i ==> (#[trigger] self.collections@[k]).id@ != id,
            )
        } else {
            None
        }
    }

    /// A workspace without collections.
    pub fn new() -> (w: Workspace)
        ensures
            w.collections@.len() == 0,
    {
        Workspace { collections: Vec::new() }
    }

    /// The first collection with this identifier.
    pub fn collection(&self, id: &str) -> (r: Option<&Collection>)
        ensures
            match self.collection_position(id@) {
                Some(i) => r == Some(&self.collections@[i]),
                None => r is None,
            },
    {
        let mut i: usize = 0;
        while i < self.collections.len()
            invariant
                0 <= i <= self.collections@.len(),
                forall|m: int| 0 <= m < i ==> (#[trigger] self.collections@[m]).id@ != id@,
            decreases self.collections@.len() - i,
        {
            if str_eq(self.collections[i].id.as_str(), id) {
                proof {
                    lemma_first_collection(*self, id@, i as int);
                }
                return Some(&self.collections[i]);
            }
            i = i + 1;
        }
        None
    }

    fn collection_index(&self, id: &str) -> (r: Option<usize>)
        ensures
            r is Some ==> r->0 < self.collections@.len(),
            match r {
                Some(i) => self.collection_position(id@) == Some(i as int),
                None => self.collection_position(id@) is None,
            },
    {
        let mut i: usize = 0;
        while i < self.collections.len()
            invariant
                0 <= i <= self.collections@.len(),
                forall|m: int| 0 <= m < i ==> (#[trigger] self.collections@[m]).id@ != id@,
            decreases self.collections@.len() - i,
        {
            if str_eq(self.collections[i].id.as_str(), id) {
                proof {
                    lemma_first_collection(*self, id@, i as int);
                }
                return Some(i);
            }
            i = i + 1;
        }
        None
    }

    /// The first saved request with this identifier and the collection that
    /// holds it.
    pub fn saved_request(&self, id: &str) -> (r: Option<(&Collection, &SavedRequest)>)
        ensures
            match self.locate(id@) {
                Some(loc) => r == Some(
                    (
                        &self.collections@[loc.collection],
                        &self.collections@[loc.collection].requests@[loc.request],
                    ),
                ),
                None => r is None,
            },
    {
        let mut i: usize = 0;
        while i < self.collections.len()
            invariant
                0 <= i <= self.collections@.len(),
                forall|m: int|
                    0 <= m < i ==> (#[trigger] self.collections@[m]).request_position(id@) is None,
            decreases self.collections@.len() - i,
        {
            let collection = &self.collections[i];
            let mut j: usize = 0;
            while j < collection.requests.len()
                invariant
                    *collection == self.collections@[i as int],
                    0 <= i < self.collections@.len(),
                    forall|m: int|
                        0 <= m < i ==> (#[trigger] self.collections@[m]).request_position(id@) is None,
                    0 <= j <= collection.requests@.len(),
                    forall|k: int| 0 <= k < j ==> (#[trigger] collection.requests@[k]).id@ != id@,
                decreases collection.requests@.len() - j,
            {
                if str_eq(collection.requests[j].id.as_str(), id) {
                    proof {
                        lemma_first_request(*collection, id@, j as int);
                        let loc = self.locate(id@)->0;
                        let p = loc.collection;
                        assert(self.collections@[i as int].request_position(id@) is Some);
                        assert(0 <= p < self.collections@.len()
                            && self.collections@[p].request_position(id@) is Some);
                        if p < i {
                            assert(self.collections@[p].request_position(id@) is None);
                        }
                        if (i as int) < p {
                            assert(self.collections@[i as int].request_position(id@) is None);
                        }
                    }
                    return Some((collection, &collection.requests[j]));
                }
                j = j + 1;
            }
            proof {
                if collection.request_position(id@) is Some {
                    let q = collection.request_position(id@)->0;
                    assert(0 <= q < collection.requests@.len() && collection.requests@[q].id@
                        == id@);
                }
            }
            i = i + 1;
        }
        None
    }

    /// Adds an empty collection and gives back its identifier; a name that is
    /// only white space is refused.
    pub fn create_collection(&mut self, name: &str) -> (r: Result<String, String>)
        ensures
            trimmed(name@).len() == 0 ==> r is Err && *final(self) == *old(self),
            trimmed(name@).len() > 0 ==> r is Ok && final(self).collections@.len() == old(self).collections@.len() + 1 && final(self).collections@.drop_last() == old(self).collections@ && final(self).collections@.last().id == r->Ok_0
                && final(self).collections@.last().name@ == trimmed(name@)
                && final(self).collections@.last().folders@.len() == 0
                && final(self).collections@.last().requests@.len() == 0,
    {
        let name = trim(name);
        if name.unicode_len() == 0 {
            return Err(owned("A collection needs a name."));
        }
        let id = fresh_id();
        self.collections.push(
            Collection { id: id.clone(), name: owned(name), folders: Vec::new(), requests: Vec::new() },
        );
        assert(self.collections@.drop_last() =~= old(self).collections@);
        Ok(id)
    }

    /// Adds a folder to a collection, inside `parent` when one is given, and
    /// gives back its identifier. Fails when the collection or the parent
    /// folder is missing.
    pub fn create_collection_folder(&mut self, collection_id: &str, parent: Option<&str>, name: &str) -> (r: Result<String, String>)
        ensures
            match old(self).collection_position(collection_id@) {
                None => r is Err && *final(self) == *old(self),
                Some(i) => {
                    if parent is Some && !old(self).collections@[i].has_folder(parent->0@) {
                        r is Err && *final(self) == *old(self)
                    } else {
                        &&& r is Ok
                        &&& final(self).collections@.len() == old(self).collections@.len()
                        &&& forall|k: int|
                            0 <= k < old(self).collections@.len() && k != i
                                ==> final(self).collections@[k] == old(self).collections@[k]
                        &&& final(self).collections@[i].id == old(self).collections@[i].id
                        &&& final(self).collections@[i].requests@ == old(self).collections@[i].requests@
                        &&& final(self).collections@[i].folders@.drop_last() == old(self).collections@[i].folders@
                        &&& final(self).collections@[i].folders@.last().id == r->Ok_0
                        &&& final(self).collections@[i].folders@.last().name@ == name@
                    }
                },
            },
    {
        let Some(i) = self.collection_index(collection_id) else {
            return Err(owned("The collection no longer exists."));
        };
        if let Some(parent) = parent {
            if self.collections[i].folder(parent).is_none() {
                return Err(owned("The parent folder no longer exists."));
            }
        }
        let id = fresh_id();
        let parent_id = match parent {
            Some(p) => Some(owned(p)),
            None => None,
        };
        let folder = CollectionFolder { id: id.clone(), name: owned(name), parent_id };
        let mut collection = Collection::vacant();
        self.collections.set_and_swap(i, &mut collection);
        collection.folders.push(folder);
        self.collections.set(i, collection);
        proof {
            assert(self.collections@[i as int].folders@.drop_last() =~= old(self).collections@[i as int].folders@);
        }
        Ok(id)
    }

    /// Adds a saved request at the root of a collection.
    pub fn create_saved_request(&mut self, collection_id: &str, name: &str, definition: RequestTemplate) -> (r: Result<String, String>)
        ensures
            match old(self).collection_position(collection_id@) {
                None => r is Err && *final(self) == *old(self),
                Some(i) => {
                    &&& r is Ok
                    &&& final(self).collections@.len() == old(self).collections@.len()
                    &&& forall|k: int|
                        0 <= k < old(self).collections@.len() && k != i
                            ==> final(self).collections@[k] == old(self).collections@[k]
                    &&& final(self).collections@[i].requests@.drop_last() == old(self).collections@[i].requests@
                    &&& final(self).collections@[i].requests@.last() == (SavedRequest {
                        id: r->Ok_0,
                        name: final(self).collections@[i].requests@.last().name,
                        folder_id: None,
                        definition,
                    })
                    &&& final(self).collections@[i].requests@.last().name@ == name@
                },
            },
    {
        self.create_saved_request_in_folder(collection_id, None, name, definition)
    }

    /// Adds a saved request to a collection, inside `folder` when one is
    /// given. Fails when the collection or the folder is missing.
    pub fn create_saved_request_in_folder(&mut self, collection_id: &str, folder: Option<&str>, name: &str, definition: RequestTemplate) -> (r: Result<String, String>)
        ensures
            match old(self).collection_position(collection_id@) {
                None => r is Err && *final(self) == *old(self),
                Some(i) => {
                    if folder is Some && !old(self).collections@[i].has_folder(folder->0@) {
                        r is Err && *final(self) == *old(self)
                    } else {
                        &&& r is Ok
                        &&& final(self).collections@.len() == old(self).collections@.len()
                        &&& forall|k: int|
                            0 <= k < old(self).collections@.len() && k != i
                                ==> final(self).collections@[k] == old(self).collections@[k]
                        &&& final(self).collections@[i].id == old(self).collections@[i].id
                        &&& final(self).collections@[i].folders@ == old(self).collections@[i].folders@
                        &&& final(self).collections@[i].requests@.drop_last() == old(self).collections@[i].requests@
                        &&& final(self).collections@[i].requests@.last() == (SavedRequest {
                            id: r->Ok_0,
                            name: final(self).collections@[i].requests@.last().name,
                            folder_id: final(self).collections@[i].requests@.last().folder_id,
                            definition,
                        })
                        &&& final(self).collections@[i].requests@.last().name@ == name@
                        &&& opt_view(final(self).collections@[i].requests@.last().folder_id)
                            == match folder {
                            Some(f) => Some(f@),
                            None => None::<Seq<char>>,
                        }
                    }
                },
            },
    {
        let Some(i) = self.collection_index(collection_id) else {
            return Err(owned("The collection no longer exists."));
        };
        if let Some(folder) = folder {
            if self.collections[i].folder(folder).is_none() {
                return Err(owned("The folder no longer exists."));
            }
        }
        let id = fresh_id();
        let folder_id = match folder {
            Some(f) => Some(owned(f)),
            None => None,
        };
        let request = SavedRequest { id: id.clone(), name: owned(name), folder_id, definition };
        let mut collection = Collection::vacant();
        self.collections.set_and_swap(i, &mut collection);
        collection.requests.push(request);
        self.collections.set(i, collection);
        proof {
            assert(self.collections@[i as int].requests@.drop_last() =~= old(self).collections@[i as int].requests@);
        }
        Ok(id)
    }

    fn request_index(&self, i: usize, request_id: &str) -> (r: Option<usize>)
        requires
            i < self.collections@.len(),
        ensures
            r is Some ==> r->0 < self.collections@[i as int].requests@.len(),
            match r {
                Some(j) => self.collections@[i as int].request_position(request_id@) == Some(j as int),
                None => self.collections@[i as int].request_position(request_id@) is None,
            },
    {
        let collection = &self.collections[i];
        let mut j: usize = 0;
        while j < collection.requests.len()
            invariant
                *collection == self.collections@[i as int],
                0 <= j <= collection.requests@.len(),
                forall|k: int| 0 <= k < j ==> (#[trigger] collection.requests@[k]).id@ != request_id@,
            decreases collection.requests@.len() - j,
        {
            if str_eq(collection.requests[j].id.as_str(), request_id) {
                proof {
                    lemma_first_request(*collection, request_id@, j as int);
                }
                return Some(j);
            }
            j = j + 1;
        }
        proof {
            if collection.request_position(request_id@) is Some {
                let q = collection.request_position(request_id@)->0;
                assert(0 <= q < collection.requests@.len() && collection.requests@[q].id@
                    == request_id@);
            }
        }
        None
    }

    /// Replaces the definition of a saved request. Fails when the collection
    /// or the request is missing.
    pub fn update_saved_request(&mut self, collection_id: &str, request_id: &str, definition: RequestTemplate) -> (r: Result<(), String>)
        ensures
            match old(self).collection_position(collection_id@) {
                None => r is Err && *final(self) == *old(self),
                Some(i) => match old(self).collections@[i].request_position(request_id@) {
                    None => r is Err && *final(self) == *old(self),
                    Some(j) => {
                        &&& r is Ok
                        &&& final(self).collections@.len() == old(self).collections@.len()
                        &&& forall|k: int|
                            0 <= k < old(self).collections@.len() && k != i
                                ==> final(self).collections@[k] == old(self).collections@[k]
                        &&& final(self).collections@[i].id == old(self).collections@[i].id
                        &&& final(self).collections@[i].folders@ == old(self).collections@[i].folders@
                        &&& final(self).collections@[i].requests@ == old(self).collections@[i].requests@.update(
                            j,
                            SavedRequest {
                                definition,
                                ..old(self).collections@[i].requests@[j]
                            },
                        )
                    },
                },
            },
    {
        let Some(i) = self.collection_index(collection_id) else {
            return Err(owned("The collection no longer exists."));
        };
        let Some(j) = self.request_index(i, request_id) else {
            return Err(owned("The saved request no longer exists."));
        };
        let mut collection = Collection::vacant();
        self.collections.set_and_swap(i, &mut collection);
        let mut request = SavedRequest::vacant();
        collection.requests.set_and_swap(j, &mut request);
        request.definition = definition;
        collection.requests.set(j, request);
        self.collections.set(i, collection);
        proof {
            assert(self.collections@[i as int].requests@ =~= old(self).collections@[i as int].requests@.update(
                j as int,
                SavedRequest { definition, ..old(self).collections@[i as int].requests@[j as int] },
            ));
        }
        Ok(())
    }

    /// Renames a saved request. Fails when the collection or the request is
    /// missing.
    pub fn rename_saved_request(&mut self, collection_id: &str, request_id: &str, name: &str) -> (r: Result<(), String>)
        ensures
            match old(self).collection_position(collection_id@) {
                None => r is Err && *final(self) == *old(self),
                Some(i) => match old(self).collections@[i].request_position(request_id@) {
                    None => r is Err && *final(self) == *old(self),
                    Some(j) => {
                        &&& r is Ok
                        &&& final(self).collections@.len() == old(self).collections@.len()
                        &&& forall|k: int|
                            0 <= k < old(self).collections@.len() && k != i
                                ==> final(self).collections@[k] == old(self).collections@[k]
                        &&& final(self).collections@[i].id == old(self).collections@[i].id
                        &&& final(self).collections@[i].folders@ == old(self).collections@[i].folders@
                        &&& final(self).collections@[i].requests@.len() == old(self).collections@[i].requests@.len()
                        &&& forall|k: int|
                            0 <= k < old(self).collections@[i].requests@.len() && k != j
                                ==> final(self).collections@[i].requests@[k] == old(self).collections@[i].requests@[k]
                        &&& final(self).collections@[i].requests@[j].name@ == name@
                        &&& final(self).collections@[i].requests@[j].id == old(self).collections@[i].requests@[j].id
                        &&& final(self).collections@[i].requests@[j].folder_id == old(self).collections@[i].requests@[j].folder_id
                        &&& final(self).collections@[i].requests@[j].definition == old(self).collections@[i].requests@[j].definition
                    },
                },
            },
    {
        let Some(i) = self.collection_index(collection_id) else {
            return Err(owned("The collection no longer exists."));
        };
        let Some(j) = self.request_index(i, request_id) else {
            return Err(owned("The saved request no longer exists."));
        };
        let mut collection = Collection::vacant();
        self.collections.set_and_swap(i, &mut collection);
        let mut request = SavedRequest::vacant();
        collection.requests.set_and_swap(j, &mut request);
        request.name = owned(name);
        collection.requests.set(j, request);
        self.collections.set(i, collection);
        proof {
            assert forall|k: int|
                0 <= k < old(self).collections@[i as int].requests@.len() && k != j implies final(self).collections@[i as int].requests@[k] == old(self).collections@[i as int].requests@[k] by {
                if k < j {
                } else {
                }
            }
        }
        Ok(())
    }

    /// Removes a saved request. Fails when the collection or the request is
    /// missing.
    pub fn remove_saved_request(&mut self, collection_id: &str, request_id: &str) -> (r: Result<(), String>)
        ensures
            match old(self).collection_position(collection_id@) {
                None => r is Err && *final(self) == *old(self),
                Some(i) => match old(self).collections@[i].request_position(request_id@) {
                    None => r is Err && *final(self) == *old(self),
                    Some(j) => {
                        &&& r is Ok
                        &&& final(self).collections@.len() == old(self).collections@.len()
                        &&& forall|k: int|
                            0 <= k < old(self).collections@.len() && k != i
                                ==> final(self).collections@[k] == old(self).collections@[k]
                        &&& final(self).collections@[i].id == old(self).collections@[i].id
                        &&& final(self).collections@[i].folders@ == old(self).collections@[i].folders@
                        &&& final(self).collections@[i].requests@ == old(self).collections@[i].requests@.remove(j)
                    },
                },
            },
    {
        let Some(i) = self.collection_index(collection_id) else {
            return Err(owned("The collection no longer exists."));
        };
        let Some(j) = self.request_index(i, request_id) else {
            return Err(owned("The saved request no longer exists."));
        };
        let mut collection = Collection::vacant();
        self.collections.set_and_swap(i, &mut collection);
        let _ = collection.requests.remove(j);
        self.collections.set(i, collection);
        proof {
        }
        Ok(())
    }
}

impl Default for Workspace {
    fn default() -> (w: Workspace)
        ensures
            w.collections@.len() == 0,
    {
        Workspace::new()
    }
}

/// When some collection holds a request with this identity, a first such
/// collection exists.
pub proof fn lemma_first_collection_holding(w: Workspace, rid: Seq<char>, j: int)
    requires
        0 <= j < w.collections@.len(),
        w.collections@[j].request_position(rid) is Some,
    ensures
        exists|i: int|
            0 <= i < w.collections@.len() && (#[trigger] w.collections@[i]).request_position(rid) is Some
                && forall|k: int| 0 <= k < i ==> (#[trigger] w.collections@[k]).request_position(rid) is None,
    decreases j,
{
    if exists|m: int| 0 <= m < j && (#[trigger] w.collections@[m]).request_position(rid) is Some {
        let m = choose|m: int| 0 <= m < j && (#[trigger] w.collections@[m]).request_position(rid) is Some;
        lemma_first_collection_holding(w, rid, m);
    } else {
        assert(0 <= j < w.collections@.len() && w.collections@[j].request_position(rid) is Some
            && forall|k: int| 0 <= k < j ==> (#[trigger] w.collections@[k]).request_position(rid) is None);
    }
}

proof fn lemma_first_request_exists(c: Collection, id: Seq<char>, j: int)
    requires
        0 <= j < c.requests@.len(),
        c.requests@[j].id@ == id,
    ensures
        exists|k: int|
            0 <= k < c.requests@.len() && (#[trigger] c.requests@[k]).id@ == id && forall|m: int|
                0 <= m < k ==> (#[trigger] c.requests@[m]).id@ != id,
    decreases j,
{
    if exists|m: int| 0 <= m < j && (#[trigger] c.requests@[m]).id@ == id {
        let m = choose|m: int| 0 <= m < j && (#[trigger] c.requests@[m]).id@ == id;
        lemma_first_request_exists(c, id, m);
    } else {
        assert(0 <= j < c.requests@.len() && c.requests@[j].id@ == id && forall|m: int|
            0 <= m < j ==> (#[trigger] c.requests@[m]).id@ != id);
    }
}

/// The position of a request is in range and holds that request.
pub proof fn lemma_request_position_facts(c: Collection, id: Seq<char>)
    requires
        c.request_position(id) is Some,
    ensures
        0 <= c.request_position(id)->0 < c.requests@.len(),
        c.requests@[c.request_position(id)->0].id@ == id,
{
    let j = choose|j: int| 0 <= j < c.requests@.len() && (#[trigger] c.requests@[j]).id@ == id;
    lemma_first_request_exists(c, id, j);
}

proof fn lemma_first_collection_exists(w: Workspace, id: Seq<char>, j: int)
    requires
        0 <= j < w.collections@.len(),
        w.collections@[j].id@ == id,
    ensures
        exists|k: int|
            0 <= k < w.collections@.len() && (#[trigger] w.collections@[k]).id@ == id && forall|m: int|
                0 <= m < k ==> (#[trigger] w.collections@[m]).id@ != id,
    decreases j,
{
    if exists|m: int| 0 <= m < j && (#[trigger] w.collections@[m]).id@ == id {
        let m = choose|m: int| 0 <= m < j && (#[trigger] w.collections@[m]).id@ == id;
        lemma_first_collection_exists(w, id, m);
    } else {
        assert(0 <= j < w.collections@.len() && w.collections@[j].id@ == id && forall|m: int|
            0 <= m < j ==> (#[trigger] w.collections@[m]).id@ != id);
    }
}

/// A collection identity that some collection carries has a position, and
/// the collection there carries it.
pub proof fn lemma_collection_position_facts(w: Workspace, id: Seq<char>, j: int)
    requires
        0 <= j < w.collections@.len(),
        w.collections@[j].id@ == id,
    ensures
        w.collection_position(id) is Some,
        0 <= w.collection_position(id)->0 < w.collections@.len(),
        w.collections@[w.collection_position(id)->0].id@ == id,
{
    lemma_first_collection_exists(w, id, j);
}

} // verus!
