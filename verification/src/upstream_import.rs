use vstd::prelude::*;

use crate::request_model::RequestTemplate;
use crate::text::{owned, str_eq};
use crate::workspace::{Collection, CollectionFolder, SavedRequest, opt_view};

verus! {

/// A collection or folder as the server reports it after creating it.
#[derive(Debug, PartialEq, Eq)]
pub struct CreatedCollection {
    pub id: String,
    pub name: String,
    pub workspace_id: String,
    pub parent_collection_id: Option<String>,
}

/// A saved request as the server reports it after creating it.
#[derive(Debug)]
pub struct CreatedRequest {
    pub id: String,
    pub name: String,
    pub collection_id: String,
    pub definition: RequestTemplate,
}

/// The folders made so far for the collection being saved: the folder's
/// identifier in the import, then the identifier the server gave it.
pub open spec fn folder_map_view(m: Seq<(String, String)>) -> Seq<(Seq<char>, Seq<char>)> {
    m.map_values(|e: (String, String)| (e.0@, e.1@))
}

/// The server identifier of the folder made last for an imported folder
/// identifier, if one was made.
pub open spec fn made_folder(m: Seq<(Seq<char>, Seq<char>)>, id: Seq<char>) -> Option<Seq<char>>
    decreases m.len(),
{
    if m.len() == 0 {
        None
    } else if m.last().0 == id {
        Some(m.last().1)
    } else {
        made_folder(m.drop_last(), id)
    }
}

pub open spec fn login_again_message() -> Seq<char> {
    "Log in to this server again."@
}

pub open spec fn unexpected_collection_message() -> Seq<char> {
    "Server returned an unexpected collection location."@
}

pub open spec fn unexpected_folder_message() -> Seq<char> {
    "Server returned an unexpected folder location."@
}

pub open spec fn unexpected_request_message() -> Seq<char> {
    "Server returned an unexpected request location."@
}

pub open spec fn missing_parent_message() -> Seq<char> {
    "Missing imported parent folder."@
}

pub open spec fn missing_request_folder_message() -> Seq<char> {
    "Missing imported request folder."@
}

/// A stored login can be used to save on the server: there is one, and it
/// expires after `now` (both in the same clock).
pub fn check_upstream_login(stored: bool, expires_at: i64, now: i64) -> (r: Result<(), String>)
    ensures
        (stored && expires_at > now) ==> r is Ok,
        !(stored && expires_at > now) ==> (r matches Err(m) && m@ == login_again_message()),
{
    if !stored || expires_at <= now {
        return Err(owned("Log in to this server again."));
    }
    Ok(())
}

/// Takes in the collection the server made for an imported one: it must
/// sit at the root of the target workspace. Gives the local mirror of it,
/// still without folders or requests.
pub fn accept_created_collection(workspace_id: &str, created: &CreatedCollection) -> (r: Result<Collection, String>)
    ensures
        (created.workspace_id@ == workspace_id@ && created.parent_collection_id is None) ==> (r matches Ok(c) && {
            &&& c.id@ == created.id@
            &&& c.name@ == created.name@
            &&& c.folders@.len() == 0
            &&& c.requests@.len() == 0
        }),
        !(created.workspace_id@ == workspace_id@ && created.parent_collection_id is None) ==> (r matches Err(m)
            && m@ == unexpected_collection_message()),
{
    if !str_eq(created.workspace_id.as_str(), workspace_id) || created.parent_collection_id.is_some() {
        return Err(owned("Server returned an unexpected collection location."));
    }
    Ok(
        Collection {
            id: owned(created.id.as_str()),
            name: owned(created.name.as_str()),
            folders: Vec::new(),
            requests: Vec::new(),
        },
    )
}

fn find_made_folder(map: &Vec<(String, String)>, id: &str) -> (r: Option<String>)
    ensures
        opt_view(r) == made_folder(folder_map_view(map@), id@),
{
    let ghost view = folder_map_view(map@);
    let mut k: usize = map.len();
    assert(view.take(k as int) =~= view);
    while k > 0
        invariant
            view == folder_map_view(map@),
            k <= map@.len(),
            made_folder(view, id@) == made_folder(view.take(k as int), id@),
        decreases k,
    {
        assert(view.take(k as int).drop_last() =~= view.take(k - 1));
        assert(view.take(k as int).last() == view[k - 1]);
        if str_eq(map[k - 1].0.as_str(), id) {
            return Some(owned(map[k - 1].1.as_str()));
        }
        k = k - 1;
    }
    None
}

/// The server folder an imported folder goes under: none for a folder at
/// the collection's root, else the folder made for its parent, which must
/// have been made already.
pub fn imported_folder_parent(map: &Vec<(String, String)>, parent_folder_id: &Option<String>) -> (r: Result<
    Option<String>,
    String,
>)
    ensures
        match parent_folder_id {
            None => r matches Ok(p) && p is None,
            Some(id) => match made_folder(folder_map_view(map@), id@) {
                Some(made) => r matches Ok(p) && opt_view(p) == Some(made),
                None => r matches Err(m) && m@ == missing_parent_message(),
            },
        },
{
    match parent_folder_id {
        None => Ok(None),
        Some(id) => match find_made_folder(map, id.as_str()) {
            Some(made) => Ok(Some(made)),
            None => Err(owned("Missing imported parent folder.")),
        },
    }
}

/// The server folder an imported request goes in: none for a request at
/// the collection's root, else the folder made for its folder, which must
/// have been made.
pub fn imported_request_folder(map: &Vec<(String, String)>, folder_id: &Option<String>) -> (r: Result<
    Option<String>,
    String,
>)
    ensures
        match folder_id {
            None => r matches Ok(p) && p is None,
            Some(id) => match made_folder(folder_map_view(map@), id@) {
                Some(made) => r matches Ok(p) && opt_view(p) == Some(made),
                None => r matches Err(m) && m@ == missing_request_folder_message(),
            },
        },
{
    match folder_id {
        None => Ok(None),
        Some(id) => match find_made_folder(map, id.as_str()) {
            Some(made) => Ok(Some(made)),
            None => Err(owned("Missing imported request folder.")),
        },
    }
}

/// Where something is created on the server: the given folder, or the
/// collection itself.
pub open spec fn destination_of(collection_id: Seq<char>, folder: Option<Seq<char>>) -> Seq<char> {
    match folder {
        Some(f) => f,
        None => collection_id,
    }
}

/// The server identifier to create a folder or request under.
pub fn upstream_destination(current: &Collection, folder: &Option<String>) -> (r: String)
    ensures
        r@ == destination_of(current.id@, opt_view(*folder)),
{
    match folder {
        Some(f) => owned(f.as_str()),
        None => owned(current.id.as_str()),
    }
}

/// Takes in the folder the server made for an imported folder: it must sit
/// in the target workspace, under `parent` (or the collection itself). The
/// mirror gets the folder, and the folder map records it for the imported
/// identifier.
pub fn accept_created_folder(
    current: &mut Collection,
    map: &mut Vec<(String, String)>,
    workspace_id: &str,
    imported_id: &str,
    parent: Option<String>,
    created: &CreatedCollection,
) -> (r: Result<(), String>)
    ensures
        ({
            let expected = destination_of(old(current).id@, opt_view(parent));
            let placed = created.workspace_id@ == workspace_id@ && opt_view(created.parent_collection_id) == Some(
                expected,
            );
            &&& !placed ==> (r matches Err(m) && m@ == unexpected_folder_message()) && *final(current) == *old(current)
                && *final(map) == *old(map)
            &&& placed ==> r is Ok && folder_map_view(final(map)@) == folder_map_view(old(map)@).push(
                (imported_id@, created.id@),
            ) && final(current).id == old(current).id && final(current).name == old(current).name
                && final(current).requests == old(current).requests && final(current).folders@.len()
                == old(current).folders@.len() + 1 && final(current).folders@.drop_last() == old(current).folders@
                && final(current).folders@.last().id@ == created.id@ && final(current).folders@.last().name@
                == created.name@ && opt_view(final(current).folders@.last().parent_id) == opt_view(parent)
        }),
{
    let expected = upstream_destination(current, &parent);
    let placed = str_eq(created.workspace_id.as_str(), workspace_id) && match &created.parent_collection_id {
        Some(p) => str_eq(p.as_str(), expected.as_str()),
        None => false,
    };
    if !placed {
        return Err(owned("Server returned an unexpected folder location."));
    }
    let ghost before_map = map@;
    map.push((owned(imported_id), owned(created.id.as_str())));
    assert(folder_map_view(map@) =~= folder_map_view(before_map).push((imported_id@, created.id@)));
    let ghost before = current.folders@;
    current.folders.push(
        CollectionFolder { id: owned(created.id.as_str()), name: owned(created.name.as_str()), parent_id: parent },
    );
    assert(current.folders@.drop_last() =~= before);
    Ok(())
}

/// Takes in the request the server made for an imported one: it must sit
/// where it was sent, in `folder` or at the collection's root. The mirror
/// gets the request, in that folder.
pub fn accept_created_request(current: &mut Collection, folder: Option<String>, created: CreatedRequest) -> (r: Result<
    (),
    String,
>)
    ensures
        ({
            let placed = created.collection_id@ == destination_of(old(current).id@, opt_view(folder));
            &&& !placed ==> (r matches Err(m) && m@ == unexpected_request_message()) && *final(current) == *old(current)
            &&& placed ==> r is Ok && final(current).id == old(current).id && final(current).name == old(current).name
                && final(current).folders == old(current).folders && final(current).requests@.len()
                == old(current).requests@.len() + 1 && final(current).requests@.drop_last() == old(current).requests@
                && final(current).requests@.last() == (SavedRequest {
                id: created.id,
                name: created.name,
                folder_id: folder,
                definition: created.definition,
            })
        }),
{
    let destination = upstream_destination(current, &folder);
    if !str_eq(created.collection_id.as_str(), destination.as_str()) {
        return Err(owned("Server returned an unexpected request location."));
    }
    let ghost before = current.requests@;
    let CreatedRequest { id, name, collection_id: _, definition } = created;
    current.requests.push(SavedRequest { id, name, folder_id: folder, definition });
    assert(current.requests@.drop_last() =~= before);
    Ok(())
}

} // verus!
