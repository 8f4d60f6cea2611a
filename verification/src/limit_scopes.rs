use vstd::prelude::*;

use crate::local_execution_limits::LimitScope;
use crate::pane_tree::{first_index, is_first, lemma_first_index_facts, lemma_first_index_unique};
use crate::text::{owned, push_str, str_eq};
use crate::workspace::{Collection, CollectionFolder, Workspace, opt_view};

verus! {

/// A scope as text: its workspace, collection and folder.
pub open spec fn scope_view(s: LimitScope) -> (Option<Seq<char>>, Option<Seq<char>>, Option<Seq<char>>) {
    (opt_view(s.workspace), opt_view(s.collection), opt_view(s.folder))
}

/// Scope choices as label and scope.
pub open spec fn choices_view(c: Seq<(String, LimitScope)>) -> Seq<
    (Seq<char>, (Option<Seq<char>>, Option<Seq<char>>, Option<Seq<char>>)),
> {
    c.map_values(|x: (String, LimitScope)| (x.0@, scope_view(x.1)))
}

/// Local workspaces as identifier and name.
pub open spec fn locals_view(l: Seq<(String, String)>) -> Seq<(Seq<char>, Seq<char>)> {
    l.map_values(|x: (String, String)| (x.0@, x.1@))
}

pub open spec fn folder_has_id(id: Seq<char>) -> spec_fn(CollectionFolder) -> bool {
    |f: CollectionFolder| f.id@ == id
}

pub open spec fn local_has_id(id: Seq<char>) -> spec_fn((Seq<char>, Seq<char>)) -> bool {
    |l: (Seq<char>, Seq<char>)| l.0 == id
}

pub open spec fn choice_has_scope(
    s: (Option<Seq<char>>, Option<Seq<char>>, Option<Seq<char>>),
) -> spec_fn((Seq<char>, (Option<Seq<char>>, Option<Seq<char>>, Option<Seq<char>>))) -> bool {
    |c: (Seq<char>, (Option<Seq<char>>, Option<Seq<char>>, Option<Seq<char>>))| c.1 == s
}

/// The folder names from the collection's root down to the folder at `k`,
/// joined by ` / `. Each parent is the first folder with the parent's
/// identifier. `None` where a parent is missing, or where the parent links
/// do not reach the root within `fuel` steps.
pub open spec fn folder_path_label(folders: Seq<CollectionFolder>, k: int, fuel: nat) -> Option<Seq<char>>
    decreases fuel,
{
    match folders[k].parent_id {
        None => Some(folders[k].name@),
        Some(p) => if fuel == 0 {
            None
        } else {
            let j = first_index(folders, folder_has_id(p@));
            if j < 0 {
                None
            } else {
                match folder_path_label(folders, j, (fuel - 1) as nat) {
                    Some(l) => Some(l + " / "@ + folders[k].name@),
                    None => None,
                }
            }
        },
    }
}

/// How a folder is listed among the scopes: the path of names down to the
/// first folder with its identifier, or its own name when that path cannot
/// be followed.
pub open spec fn folder_label(c: Collection, k: int) -> Seq<char> {
    let start = first_index(c.folders@, folder_has_id(c.folders@[k].id@));
    match folder_path_label(c.folders@, start, c.folders@.len()) {
        Some(l) => l,
        None => c.folders@[k].name@,
    }
}

/// The choices for the first `n` folders of a collection, listed under
/// `prefix`.
pub open spec fn folder_choices(prefix: Seq<char>, workspace_id: Seq<char>, c: Collection, n: int) -> Seq<
    (Seq<char>, (Option<Seq<char>>, Option<Seq<char>>, Option<Seq<char>>)),
>
    decreases n,
{
    if n <= 0 {
        Seq::empty()
    } else {
        folder_choices(prefix, workspace_id, c, n - 1).push(
            (
                prefix + " / "@ + folder_label(c, n - 1),
                (Some(workspace_id), Some(c.id@), Some(c.folders@[n - 1].id@)),
            ),
        )
    }
}

/// The choices for collections of the open local workspace: each
/// collection, then each of its folders.
pub open spec fn collection_choices(workspace_name: Seq<char>, workspace_id: Seq<char>, cs: Seq<Collection>) -> Seq<
    (Seq<char>, (Option<Seq<char>>, Option<Seq<char>>, Option<Seq<char>>)),
>
    decreases cs.len(),
{
    if cs.len() == 0 {
        Seq::empty()
    } else {
        let c = cs.last();
        let prefix = workspace_name + " / "@ + c.name@;
        collection_choices(workspace_name, workspace_id, cs.drop_last()).push(
            (prefix, (Some(workspace_id), Some(c.id@), None)),
        ) + folder_choices(prefix, workspace_id, c, c.folders@.len() as int)
    }
}

/// The name of the first local workspace with this identifier, or the
/// identifier itself.
pub open spec fn local_name(locals: Seq<(Seq<char>, Seq<char>)>, id: Seq<char>) -> Seq<char> {
    let k = first_index(locals, local_has_id(id));
    if k < 0 {
        id
    } else {
        locals[k].1
    }
}

pub open spec fn application_scope_label() -> Seq<char> {
    "Application \u{2014} all local workspaces"@
}

/// The scopes the limits editor offers, in order: the application, each
/// local workspace, and, when a local workspace is open, each collection of
/// the workspace shown and each of its folders.
pub open spec fn scope_choices(
    locals: Seq<(Seq<char>, Seq<char>)>,
    active_local: Option<Seq<char>>,
    w: Workspace,
) -> Seq<(Seq<char>, (Option<Seq<char>>, Option<Seq<char>>, Option<Seq<char>>))> {
    seq![(application_scope_label(), (None, None, None))] + locals.map_values(
        |l: (Seq<char>, Seq<char>)| ("Workspace: "@ + l.1, (Some(l.0), None, None)),
    ) + match active_local {
        None => Seq::empty(),
        Some(id) => collection_choices(local_name(locals, id), id, w.collections@),
    }
}

/// The label shown for a scope that is no longer offered.
pub open spec fn unavailable_scope_label() -> Seq<char> {
    "Scope no longer available \u{2014} select another scope"@
}

/// The label of the first choice for a scope, or the fallback.
pub open spec fn scope_label(
    choices: Seq<(Seq<char>, (Option<Seq<char>>, Option<Seq<char>>, Option<Seq<char>>))>,
    s: (Option<Seq<char>>, Option<Seq<char>>, Option<Seq<char>>),
) -> Seq<char> {
    let k = first_index(choices, choice_has_scope(s));
    if k < 0 {
        unavailable_scope_label()
    } else {
        choices[k].0
    }
}

fn find_folder(folders: &Vec<CollectionFolder>, id: &str) -> (r: Option<usize>)
    ensures
        match r {
            Some(j) => j < folders@.len() && first_index(folders@, folder_has_id(id@)) == j,
            None => first_index(folders@, folder_has_id(id@)) == -1,
        },
{
    let mut j: usize = 0;
    while j < folders.len()
        invariant
            0 <= j <= folders@.len(),
            forall|m: int| 0 <= m < j ==> !folder_has_id(id@)(#[trigger] folders@[m]),
        decreases folders@.len() - j,
    {
        if str_eq(folders[j].id.as_str(), id) {
            proof {
                assert(is_first(folders@, folder_has_id(id@), j as int));
                lemma_first_index_unique(folders@, folder_has_id(id@), j as int);
            }
            return Some(j);
        }
        j = j + 1;
    }
    proof {
        lemma_first_index_facts(folders@, folder_has_id(id@));
    }
    None
}

fn clone_text(s: &String) -> (r: String)
    ensures
        r@ == s@,
{
    owned(s.as_str())
}

fn opt_text(s: &String) -> (r: Option<String>)
    ensures
        opt_view(r) == Some(s@),
{
    Some(clone_text(s))
}

/// The label of the folder at `k` among the scopes.
fn folder_label_text(c: &Collection, k: usize) -> (r: String)
    requires
        k < c.folders@.len(),
    ensures
        r@ == folder_label(*c, k as int),
{
    let folders = &c.folders;
    let start = match find_folder(folders, folders[k].id.as_str()) {
        Some(j) => j,
        None => {
            proof {
                lemma_first_index_facts(folders@, folder_has_id(folders@[k as int].id@));
            }
            return clone_text(&folders[k].name);
        },
    };
    let ghost total = folders@.len() as nat;
    let mut cur = start;
    let mut fuel = folders.len();
    let mut suffix = String::new();
    assert(match folder_path_label(folders@, start as int, total) {
        Some(l) => folder_path_label(folders@, start as int, total) == Some(l + suffix@),
        None => true,
    }) by {
        match folder_path_label(folders@, start as int, total) {
            Some(l) => {
                assert(l + suffix@ =~= l);
            },
            None => {},
        }
    }
    loop
        invariant
            cur < folders@.len(),
            fuel <= total,
            total == folders@.len(),
            *folders == c.folders,
            start == first_index(folders@, folder_has_id(folders@[k as int].id@)),
            k < folders@.len(),
            folder_path_label(folders@, start as int, total) == match folder_path_label(folders@, cur as int, fuel as nat) {
                Some(l) => Some(l + suffix@),
                None => None,
            },
        decreases fuel,
    {
        match &folders[cur].parent_id {
            None => {
                let mut r = clone_text(&folders[cur].name);
                push_str(&mut r, suffix.as_str());
                return r;
            },
            Some(parent) => {
                if fuel == 0 {
                    return clone_text(&folders[k].name);
                }
                match find_folder(folders, parent.as_str()) {
                    None => {
                        return clone_text(&folders[k].name);
                    },
                    Some(j) => {
                        let ghost old_suffix = suffix@;
                        let mut t = owned(" / ");
                        push_str(&mut t, folders[cur].name.as_str());
                        push_str(&mut t, suffix.as_str());
                        proof {
                            match folder_path_label(folders@, j as int, (fuel - 1) as nat) {
                                Some(l) => {
                                    assert(l + " / "@ + folders@[cur as int].name@ + old_suffix =~= l + t@);
                                },
                                None => {},
                            }
                        }
                        suffix = t;
                        cur = j;
                        fuel = fuel - 1;
                    },
                }
            },
        }
    }
}

/// The name of the first local workspace with this identifier, or the
/// identifier itself.
fn local_workspace_name(locals: &Vec<(String, String)>, id: &str) -> (r: String)
    ensures
        r@ == local_name(locals_view(locals@), id@),
{
    let ghost view = locals_view(locals@);
    let mut k: usize = 0;
    while k < locals.len()
        invariant
            view == locals_view(locals@),
            0 <= k <= locals@.len(),
            forall|m: int| 0 <= m < k ==> !local_has_id(id@)(#[trigger] view[m]),
        decreases locals@.len() - k,
    {
        if str_eq(locals[k].0.as_str(), id) {
            proof {
                assert(is_first(view, local_has_id(id@), k as int));
                lemma_first_index_unique(view, local_has_id(id@), k as int);
            }
            return clone_text(&locals[k].1);
        }
        k = k + 1;
    }
    proof {
        lemma_first_index_facts(view, local_has_id(id@));
    }
    owned(id)
}

/// Adds the choices for one collection and its folders.
fn push_collection_choices(
    out: &mut Vec<(String, LimitScope)>,
    workspace_name: &String,
    workspace_id: &str,
    c: &Collection,
)
    ensures
        ({
            let prefix = workspace_name@ + " / "@ + c.name@;
            choices_view(final(out)@) == choices_view(old(out)@).push(
                (prefix, (Some(workspace_id@), Some(c.id@), None)),
            ) + folder_choices(prefix, workspace_id@, *c, c.folders@.len() as int)
        }),
{
    let mut prefix = clone_text(workspace_name);
    push_str(&mut prefix, " / ");
    push_str(&mut prefix, c.name.as_str());
    let ghost p = prefix@;
    let ghost start = choices_view(out@);
    let scope = LimitScope { workspace: Some(owned(workspace_id)), collection: opt_text(&c.id), folder: None };
    out.push((clone_text(&prefix), scope));
    let ghost head = choices_view(out@);
    assert(head =~= start.push((p, (Some(workspace_id@), Some(c.id@), None))));
    assert(folder_choices(p, workspace_id@, *c, 0) =~= Seq::empty());
    let mut j: usize = 0;
    while j < c.folders.len()
        invariant
            0 <= j <= c.folders@.len(),
            prefix@ == p,
            choices_view(out@) == head + folder_choices(p, workspace_id@, *c, j as int),
        decreases c.folders@.len() - j,
    {
        let mut label = clone_text(&prefix);
        push_str(&mut label, " / ");
        let name = folder_label_text(c, j);
        push_str(&mut label, name.as_str());
        let scope = LimitScope {
            workspace: Some(owned(workspace_id)),
            collection: opt_text(&c.id),
            folder: opt_text(&c.folders[j].id),
        };
        let ghost prev = out@;
        let ghost entry = (label@, scope_view(scope));
        out.push((label, scope));
        assert(choices_view(out@) =~= choices_view(prev).push(entry));
        assert(head + folder_choices(p, workspace_id@, *c, j + 1) =~= (head + folder_choices(
            p,
            workspace_id@,
            *c,
            j as int,
        )).push(entry));
        j = j + 1;
    }
}

/// The scopes the limits editor offers, with their labels: the
/// application, each local workspace, and, when a local workspace is open,
/// each collection of the workspace shown and each of its folders.
pub fn limit_scope_choices(
    local_workspaces: &Vec<(String, String)>,
    active_local: Option<&str>,
    workspace: &Workspace,
) -> (r: Vec<(String, LimitScope)>)
    ensures
        choices_view(r@) == scope_choices(
            locals_view(local_workspaces@),
            match active_local {
                Some(id) => Some(id@),
                None => None,
            },
            *workspace,
        ),
{
    let ghost locals = locals_view(local_workspaces@);
    let mut out: Vec<(String, LimitScope)> = Vec::new();
    out.push(
        (
            owned("Application \u{2014} all local workspaces"),
            LimitScope { workspace: None, collection: None, folder: None },
        ),
    );
    let ghost first = seq![(application_scope_label(), (None::<Seq<char>>, None::<Seq<char>>, None::<Seq<char>>))];
    assert(choices_view(out@) =~= first);
    let ghost named = locals.map_values(
        |l: (Seq<char>, Seq<char>)| ("Workspace: "@ + l.1, (Some(l.0), None::<Seq<char>>, None::<Seq<char>>)),
    );
    let mut k: usize = 0;
    while k < local_workspaces.len()
        invariant
            locals == locals_view(local_workspaces@),
            named == locals.map_values(
                |l: (Seq<char>, Seq<char>)| ("Workspace: "@ + l.1, (Some(l.0), None::<Seq<char>>, None::<Seq<char>>)),
            ),
            0 <= k <= local_workspaces@.len(),
            choices_view(out@) == first + named.take(k as int),
        decreases local_workspaces@.len() - k,
    {
        let mut label = owned("Workspace: ");
        push_str(&mut label, local_workspaces[k].1.as_str());
        let scope = LimitScope { workspace: opt_text(&local_workspaces[k].0), collection: None, folder: None };
        let ghost prev = out@;
        let ghost entry = (label@, scope_view(scope));
        out.push((label, scope));
        assert(entry == named[k as int]);
        assert(choices_view(out@) =~= choices_view(prev).push(entry));
        assert(first + named.take(k + 1) =~= (first + named.take(k as int)).push(entry));
        k = k + 1;
    }
    assert(named.take(k as int) =~= named);
    match active_local {
        None => {
            assert(choices_view(out@) =~= first + named + Seq::empty());
        },
        Some(id) => {
            let name = local_workspace_name(local_workspaces, id);
            let ghost base = choices_view(out@);
            let cs = &workspace.collections;
            let mut i: usize = 0;
            while i < cs.len()
                invariant
                    *cs == workspace.collections,
                    name@ == local_name(locals, id@),
                    0 <= i <= cs@.len(),
                    choices_view(out@) == base + collection_choices(name@, id@, cs@.take(i as int)),
                decreases cs@.len() - i,
            {
                let ghost before = choices_view(out@);
                push_collection_choices(&mut out, &name, id, &cs[i]);
                proof {
                    let taken = cs@.take(i + 1);
                    assert(taken.drop_last() =~= cs@.take(i as int));
                    assert(taken.last() == cs@[i as int]);
                    let c = cs@[i as int];
                    let prefix = name@ + " / "@ + c.name@;
                    let rest = collection_choices(name@, id@, cs@.take(i as int));
                    let entry = (prefix, (Some(id@), Some(c.id@), None::<Seq<char>>));
                    let folders = folder_choices(prefix, id@, c, c.folders@.len() as int);
                    assert(choices_view(out@) == (base + rest).push(entry) + folders);
                    assert((base + rest).push(entry) + folders =~= base + (rest.push(entry) + folders));
                }
                i = i + 1;
            }
            assert(cs@.take(i as int) =~= cs@);
        },
    }
    out
}

/// The label of the first choice for `selected`, or the note that the scope
/// is no longer offered.
pub fn limit_scope_label(choices: &Vec<(String, LimitScope)>, selected: &LimitScope) -> (r: String)
    ensures
        r@ == scope_label(choices_view(choices@), scope_view(*selected)),
{
    let ghost view = choices_view(choices@);
    let ghost target = scope_view(*selected);
    let mut k: usize = 0;
    while k < choices.len()
        invariant
            view == choices_view(choices@),
            target == scope_view(*selected),
            0 <= k <= choices@.len(),
            forall|m: int| 0 <= m < k ==> !choice_has_scope(target)(#[trigger] view[m]),
        decreases choices@.len() - k,
    {
        if same_opt(&choices[k].1.workspace, &selected.workspace) && same_opt(
            &choices[k].1.collection,
            &selected.collection,
        ) && same_opt(&choices[k].1.folder, &selected.folder) {
            proof {
                assert(view[k as int].1 == target);
                assert(is_first(view, choice_has_scope(target), k as int));
                lemma_first_index_unique(view, choice_has_scope(target), k as int);
            }
            return clone_text(&choices[k].0);
        }
        assert(view[k as int].1 != target);
        k = k + 1;
    }
    proof {
        lemma_first_index_facts(view, choice_has_scope(target));
    }
    owned("Scope no longer available \u{2014} select another scope")
}

fn same_opt(a: &Option<String>, b: &Option<String>) -> (r: bool)
    ensures
        r == (opt_view(*a) == opt_view(*b)),
{
    match (a, b) {
        (Some(x), Some(y)) => str_eq(x.as_str(), y.as_str()),
        (None, None) => true,
        _ => false,
    }
}

} // verus!
