use vstd::prelude::*;

use crate::api_tester::ApiTester;
use crate::local_execution_limits::LimitScope;
use crate::text::{owned, str_eq};
use crate::workspace::{Collection, SavedRequest, opt_view};

verus! {

/// How many requests of a list carry this identifier.
pub open spec fn request_matches(requests: Seq<SavedRequest>, id: Seq<char>) -> nat
    decreases requests.len(),
{
    if requests.len() == 0 {
        0
    } else {
        request_matches(requests.drop_last(), id) + if requests.last().id@ == id {
            1nat
        } else {
            0nat
        }
    }
}

/// How many saved requests of the collections carry this identifier.
pub open spec fn workspace_matches(collections: Seq<Collection>, id: Seq<char>) -> nat
    decreases collections.len(),
{
    if collections.len() == 0 {
        0
    } else {
        workspace_matches(collections.drop_last(), id) + request_matches(
            collections.last().requests@,
            id,
        )
    }
}

proof fn lemma_request_matches_prefix(requests: Seq<SavedRequest>, id: Seq<char>, k: int)
    requires
        0 <= k <= requests.len(),
    ensures
        request_matches(requests.take(k), id) <= request_matches(requests, id),
    decreases requests.len(),
{
    if k < requests.len() {
        lemma_request_matches_prefix(requests.drop_last(), id, k);
        assert(requests.drop_last().take(k) =~= requests.take(k));
    } else {
        assert(requests.take(k) =~= requests);
    }
}

proof fn lemma_workspace_matches_prefix(collections: Seq<Collection>, id: Seq<char>, k: int)
    requires
        0 <= k <= collections.len(),
    ensures
        workspace_matches(collections.take(k), id) <= workspace_matches(collections, id),
    decreases collections.len(),
{
    if k < collections.len() {
        lemma_workspace_matches_prefix(collections.drop_last(), id, k);
        assert(collections.drop_last().take(k) =~= collections.take(k));
    } else {
        assert(collections.take(k) =~= collections);
    }
}

proof fn lemma_request_matches_some(requests: Seq<SavedRequest>, id: Seq<char>)
    ensures
        request_matches(requests, id) > 0 <==> exists|j: int|
            0 <= j < requests.len() && (#[trigger] requests[j]).id@ == id,
    decreases requests.len(),
{
    if requests.len() > 0 {
        let rest = requests.drop_last();
        lemma_request_matches_some(rest, id);
        if request_matches(rest, id) > 0 {
            let j = choose|j: int| 0 <= j < rest.len() && (#[trigger] rest[j]).id@ == id;
            assert(requests[j] == rest[j]);
        }
        if exists|j: int| 0 <= j < requests.len() && (#[trigger] requests[j]).id@ == id {
            let j = choose|j: int| 0 <= j < requests.len() && (#[trigger] requests[j]).id@ == id;
            if j < requests.len() - 1 {
                assert(rest[j] == requests[j]);
            }
        }
    }
}

proof fn lemma_position_some(c: Collection, id: Seq<char>)
    ensures
        c.request_position(id) is Some <==> request_matches(c.requests@, id) > 0,
{
    lemma_request_matches_some(c.requests@, id);
}

proof fn lemma_workspace_matches_some(collections: Seq<Collection>, id: Seq<char>)
    ensures
        workspace_matches(collections, id) > 0 <==> exists|i: int|
            0 <= i < collections.len() && request_matches((#[trigger] collections[i]).requests@, id) > 0,
    decreases collections.len(),
{
    if collections.len() > 0 {
        let rest = collections.drop_last();
        lemma_workspace_matches_some(rest, id);
        if workspace_matches(rest, id) > 0 {
            let i = choose|i: int|
                0 <= i < rest.len() && request_matches((#[trigger] rest[i]).requests@, id) > 0;
            assert(collections[i] == rest[i]);
        }
        if request_matches(collections.last().requests@, id) > 0 {
            assert(collections[collections.len() - 1] == collections.last());
        }
        if exists|i: int|
            0 <= i < collections.len() && request_matches((#[trigger] collections[i]).requests@, id) > 0 {
            let i = choose|i: int|
                0 <= i < collections.len() && request_matches((#[trigger] collections[i]).requests@, id) > 0;
            if i < collections.len() - 1 {
                assert(rest[i] == collections[i]);
            }
        }
    }
}

/// The message for a workspace that is not a local one.
pub open spec fn not_local_message() -> Seq<char> {
    "Local execution limits require a local workspace"@
}

/// The message for a request that the workspace does not hold.
pub open spec fn request_not_found_message() -> Seq<char> {
    "Request not found in the local workspace"@
}

/// The message for an identifier that several saved requests carry.
pub open spec fn ambiguous_request_message() -> Seq<char> {
    "Ambiguous local request identity"@
}

proof fn lemma_partial_matches(collections: Seq<Collection>, id: Seq<char>, i: int, j: int)
    requires
        0 <= i < collections.len(),
        0 <= j <= collections[i].requests@.len(),
    ensures
        workspace_matches(collections.take(i), id) + request_matches(collections[i].requests@.take(j), id)
            <= workspace_matches(collections, id),
{
    lemma_request_matches_prefix(collections[i].requests@, id, j);
    assert(collections.take(i + 1).drop_last() =~= collections.take(i));
    assert(collections.take(i + 1).last() == collections[i]);
    lemma_workspace_matches_prefix(collections, id, i + 1);
}

/// How many saved requests carry this identifier, counted up to two.
fn count_request_matches(collections: &Vec<Collection>, id: &str) -> (n: usize)
    ensures
        n <= 2,
        n < 2 ==> n == workspace_matches(collections@, id@),
        n == 2 ==> workspace_matches(collections@, id@) >= 2,
{
    let ghost all = collections@;
    let mut count: usize = 0;
    let mut i: usize = 0;
    while i < collections.len()
        invariant
            all == collections@,
            0 <= i <= all.len(),
            count <= 1,
            count == workspace_matches(all.take(i as int), id@),
        decreases all.len() - i,
    {
        let requests = &collections[i].requests;
        let ghost reqs = requests@;
        let mut j: usize = 0;
        while j < requests.len()
            invariant
                all == collections@,
                0 <= i < all.len(),
                reqs == requests@,
                reqs == all[i as int].requests@,
                0 <= j <= reqs.len(),
                count <= 1,
                count == workspace_matches(all.take(i as int), id@) + request_matches(reqs.take(j as int), id@),
            decreases reqs.len() - j,
        {
            proof {
                assert(reqs.take(j + 1).drop_last() =~= reqs.take(j as int));
                assert(reqs.take(j + 1).last() == reqs[j as int]);
            }
            if str_eq(requests[j].id.as_str(), id) {
                if count == 1 {
                    proof {
                        lemma_partial_matches(all, id@, i as int, j + 1);
                    }
                    return 2;
                }
                count = count + 1;
            }
            j = j + 1;
        }
        proof {
            assert(reqs.take(j as int) =~= reqs);
            assert(all.take(i + 1).drop_last() =~= all.take(i as int));
            assert(all.take(i + 1).last() == all[i as int]);
        }
        i = i + 1;
    }
    proof {
        assert(all.take(i as int) =~= all);
    }
    count
}

impl ApiTester {
    /// The scope whose execution limits apply to a request of the local
    /// workspace `local_workspace_id` (`None` when the active workspace is
    /// not a local one): the workspace, and for a saved request its
    /// collection and folder. The identifier must name exactly one saved
    /// request.
    pub fn local_execution_limits_for_request(
        &self,
        local_workspace_id: Option<&str>,
        request_id: Option<&str>,
    ) -> (r: Result<LimitScope, String>)
        ensures
            local_workspace_id is None ==> (r matches Err(e) && e@ == not_local_message()),
            local_workspace_id matches Some(w) ==> match request_id {
                None => r matches Ok(scope) && opt_view(scope.workspace) == Some(w@) && scope.collection is None
                    && scope.folder is None,
                Some(id) => {
                    let n = workspace_matches(self.workspace.collections@, id@);
                    &&& n == 0 ==> (r matches Err(e) && e@ == request_not_found_message())
                    &&& n >= 2 ==> (r matches Err(e) && e@ == ambiguous_request_message())
                    &&& n == 1 ==> (r matches Ok(scope) && {
                        let loc = self.workspace.locate(id@)->0;
                        let collection = self.workspace.collections@[loc.collection];
                        &&& self.workspace.locate(id@) is Some
                        &&& opt_view(scope.workspace) == Some(w@)
                        &&& opt_view(scope.collection) == Some(collection.id@)
                        &&& opt_view(scope.folder) == opt_view(collection.requests@[loc.request].folder_id)
                    })
                },
            },
    {
        proof {
            reveal_strlit("Local execution limits require a local workspace");
            reveal_strlit("Request not found in the local workspace");
            reveal_strlit("Ambiguous local request identity");
        }
        let workspace_id = match local_workspace_id {
            Some(w) => w,
            None => return Err(owned("Local execution limits require a local workspace")),
        };
        let id = match request_id {
            Some(id) => id,
            None => return Ok(LimitScope { workspace: Some(owned(workspace_id)), collection: None, folder: None }),
        };
        let count = count_request_matches(&self.workspace.collections, id);
        if count == 2 {
            return Err(owned("Ambiguous local request identity"));
        }
        if count == 0 {
            return Err(owned("Request not found in the local workspace"));
        }
        proof {
            let all = self.workspace.collections@;
            lemma_workspace_matches_some(all, id@);
            let k = choose|k: int| 0 <= k < all.len() && request_matches((#[trigger] all[k]).requests@, id@) > 0;
            lemma_position_some(all[k], id@);
            assert(all[k].request_position(id@) is Some);
        }
        match self.workspace.saved_request(id) {
            Some((collection, request)) => {
                let folder = match &request.folder_id {
                    Some(f) => Some(owned(f.as_str())),
                    None => None,
                };
                Ok(
                    LimitScope {
                        workspace: Some(owned(workspace_id)),
                        collection: Some(owned(collection.id.as_str())),
                        folder,
                    },
                )
            },
            None => Err(owned("Request not found in the local workspace")),
        }
    }
}

} // verus!
