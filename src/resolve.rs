//! Resolution of every archive folder path to an existing mailbox or to a
//! mailbox still to be created.
use vstd::prelude::*;
use crate::folders::{FolderPlan, PathView, find_path, plan_wf};
use crate::remote::{RemoteMailbox, first_at, located, locate};

verus! {

/// Where the parent of a mailbox to create is found.
#[derive(Clone, Debug, PartialEq, Eq)]
pub enum ParentRef {
    /// The mailbox goes at the top of the tree.
    TopLevel,
    /// Under an existing mailbox, by id.
    Existing(String),
    /// Under the mailbox to create for the folder path at this position.
    Pending(usize),
}

/// What a folder path resolves to.
#[derive(Clone, Debug, PartialEq, Eq)]
pub enum PendingMailbox {
    /// A mailbox that exists, by id.
    ExistingId(String),
    /// A mailbox still to be created, with its name and parent.
    ToCreate { name: String, parent: ParentRef },
    /// No mailbox: its creation, or that of an ancestor, failed.
    Unresolved,
}

pub enum ParentView {
    TopLevel,
    Existing(Seq<char>),
    Pending(nat),
}

pub enum PendingView {
    ExistingId(Seq<char>),
    ToCreate(Seq<char>, ParentView),
    Unresolved,
}

impl View for ParentRef {
    type V = ParentView;

    open spec fn view(&self) -> ParentView {
        match self {
            ParentRef::TopLevel => ParentView::TopLevel,
            ParentRef::Existing(id) => ParentView::Existing(id@),
            ParentRef::Pending(j) => ParentView::Pending(*j as nat),
        }
    }
}

impl PendingMailbox {
    /// Whether this is a mailbox still to be created.
    pub fn is_to_create(&self) -> (r: bool)
        ensures
            r == self@ is ToCreate,
    {
        match self {
            PendingMailbox::ToCreate { .. } => true,
            _ => false,
        }
    }
}

impl PendingMailbox {
    /// Whether this is an existing mailbox.
    pub fn is_existing(&self) -> (r: bool)
        ensures
            r == self@ is ExistingId,
    {
        match self {
            PendingMailbox::ExistingId(_) => true,
            _ => false,
        }
    }
}

impl View for PendingMailbox {
    type V = PendingView;

    open spec fn view(&self) -> PendingView {
        match self {
            PendingMailbox::ExistingId(id) => PendingView::ExistingId(id@),
            PendingMailbox::ToCreate { name, parent } => PendingView::ToCreate(name@, parent@),
            PendingMailbox::Unresolved => PendingView::Unresolved,
        }
    }
}

impl DeepView for PendingMailbox {
    type V = PendingView;

    open spec fn deep_view(&self) -> PendingView {
        self@
    }
}

/// Why folder resolution cannot start.
#[derive(Clone, Debug, PartialEq, Eq)]
pub enum ResolveError {
    /// The account has no mailbox with the Inbox role.
    MissingInbox,
}

/// Whether some mailbox carries the Inbox role.
pub open spec fn has_inbox(nodes: Seq<RemoteMailbox>) -> bool {
    exists|i: int| 0 <= i < nodes.len() && nodes[i].is_inbox
}

/// Mailbox `i` is the last in the listing that carries the Inbox role.
pub open spec fn last_inbox(nodes: Seq<RemoteMailbox>, i: int) -> bool {
    &&& 0 <= i < nodes.len()
    &&& nodes[i].is_inbox
    &&& forall|k: int| i < k < nodes.len() ==> !nodes[k].is_inbox
}

/// The last mailbox in the listing that carries the Inbox role.
pub fn find_inbox(nodes: &Vec<RemoteMailbox>) -> (r: Option<usize>)
    ensures
        match r {
            Some(i) => last_inbox(nodes@, i as int),
            None => !has_inbox(nodes@),
        },
{
    let mut k: usize = nodes.len();
    while k > 0
        invariant
            k <= nodes.len(),
            forall|x: int| k <= x < nodes.len() ==> !nodes[x].is_inbox,
        decreases k,
    {
        if nodes[k - 1].is_inbox {
            return Some(k - 1);
        }
        k = k - 1;
    }
    None
}

/// The parent reference of a mailbox to create at path `p`, listed at
/// position `k` of `paths`: top level for a one-segment path; the first
/// existing mailbox at the parent path if there is one; else the position of
/// the parent path, which comes earlier in the list.
pub open spec fn parent_as(
    nodes: Seq<RemoteMailbox>,
    paths: Seq<PathView>,
    k: int,
    parent: ParentView,
) -> bool {
    let p = paths[k];
    if p.len() == 1 {
        parent == ParentView::TopLevel
    } else if located(nodes, p.drop_last()) {
        exists|i: int|
            first_at(nodes, p.drop_last(), i) && parent == ParentView::Existing(nodes[i].id@)
    } else {
        exists|j: int|
            0 <= j < k && paths[j] == p.drop_last() && parent == ParentView::Pending(j as nat)
    }
}

/// What the folder path at position `k` of `paths` resolves to: the Inbox
/// for the empty path; the first existing mailbox at that path; otherwise a
/// mailbox to create, named by the last segment, under `parent_as`.
pub open spec fn resolved_as(
    nodes: Seq<RemoteMailbox>,
    inbox: Seq<char>,
    paths: Seq<PathView>,
    k: int,
    m: PendingView,
) -> bool {
    let p = paths[k];
    if p.len() == 0 {
        m == PendingView::ExistingId(inbox)
    } else if located(nodes, p) {
        exists|i: int| first_at(nodes, p, i) && m == PendingView::ExistingId(nodes[i].id@)
    } else {
        match m {
            PendingView::ToCreate(name, parent) => name == p.last() && parent_as(
                nodes,
                paths,
                k,
                parent,
            ),
            _ => false,
        }
    }
}

/// Every folder path of `paths` resolved as `resolved_as` says.
pub open spec fn resolution_of(
    nodes: Seq<RemoteMailbox>,
    inbox: Seq<char>,
    paths: Seq<PathView>,
    r: Seq<PendingView>,
) -> bool {
    &&& r.len() == paths.len()
    &&& forall|k: int| 0 <= k < paths.len() ==> resolved_as(nodes, inbox, paths, k, #[trigger] r[k])
}

/// Resolves the path at position `k` of the plan.
fn resolve_one(nodes: &Vec<RemoteMailbox>, inbox: &String, plan: &FolderPlan, k: usize) -> (r:
    PendingMailbox)
    requires
        plan_wf(plan.paths_view()),
        k < plan.paths.len(),
    ensures
        resolved_as(nodes@, inbox@, plan.paths_view(), k as int, r@),
{
    let ghost paths = plan.paths_view();
    let p = &plan.paths[k];
    assert(p.deep_view() == paths[k as int]);
    if p.len() == 0 {
        return PendingMailbox::ExistingId(inbox.clone());
    }
    match locate(nodes, p) {
        Some(i) => PendingMailbox::ExistingId(nodes[i].id.clone()),
        None => {
            let last = p.len() - 1;
            let name = p[last].clone();
            let parent = if last == 0 {
                ParentRef::TopLevel
            } else {
                let mut up: Vec<String> = Vec::new();
                let mut s: usize = 0;
                while s < last
                    invariant
                        last + 1 == p.len(),
                        s <= last,
                        up.deep_view() =~= p.deep_view().take(s as int),
                    decreases last - s,
                {
                    let ghost before = up.deep_view();
                    up.push(p[s].clone());
                    assert(up.deep_view() =~= before.push(p[s as int]@));
                    s = s + 1;
                }
                assert(up.deep_view() =~= p.deep_view().drop_last());
                match locate(nodes, &up) {
                    Some(i) => ParentRef::Existing(nodes[i].id.clone()),
                    None => {
                        assert(paths[k as int].len() > 1);
                        let ghost j0 = choose|j: int| 0 <= j < k && paths[j] == paths[k as int].drop_last();
                        match find_path(&plan.paths, &up) {
                            Some(j) => {
                                assert(j <= j0);
                                ParentRef::Pending(j)
                            },
                            None => {
                                assert(paths[j0] == up.deep_view());
                                assert(false);
                                ParentRef::TopLevel
                            },
                        }
                    },
                }
            };
            assert(p.deep_view().last() == name@);
            PendingMailbox::ToCreate { name, parent }
        },
    }
}

/// Resolves every folder path of the plan against the account's existing
/// mailboxes; fails when the account has no Inbox.
pub fn resolve_folders(nodes: &Vec<RemoteMailbox>, plan: &FolderPlan) -> (r: Result<
    Vec<PendingMailbox>,
    ResolveError,
>)
    requires
        plan.wf(),
    ensures
        r is Err <==> !has_inbox(nodes@),
        match r {
            Ok(ms) => exists|i: int|
                last_inbox(nodes@, i) && resolution_of(
                    nodes@,
                    nodes[i].id@,
                    plan.paths_view(),
                    ms.deep_view(),
                ),
            Err(_) => true,
        },
{
    let inbox = match find_inbox(nodes) {
        Some(i) => i,
        None => {
            return Err(ResolveError::MissingInbox);
        },
    };
    let inbox_id = &nodes[inbox].id;
    let mut ms: Vec<PendingMailbox> = Vec::new();
    let mut k: usize = 0;
    while k < plan.paths.len()
        invariant
            plan.wf(),
            k <= plan.paths.len(),
            ms.len() == k,
            forall|x: int|
                0 <= x < k ==> resolved_as(
                    nodes@,
                    inbox_id@,
                    plan.paths_view(),
                    x,
                    #[trigger] ms.deep_view()[x],
                ),
        decreases plan.paths.len() - k,
    {
        let m = resolve_one(nodes, inbox_id, plan, k);
        let ghost before = ms.deep_view();
        ms.push(m);
        assert(ms.deep_view() =~= before.push(m@));
        k = k + 1;
    }
    Ok(ms)
}

proof fn lemma_first_at_unique(nodes: Seq<RemoteMailbox>, p: PathView, a: int, b: int)
    requires
        first_at(nodes, p, a),
        first_at(nodes, p, b),
    ensures
        a == b,
{
}

/// Resolving the same folder paths twice against the same existing
/// mailboxes gives the same assignment, entry for entry.
pub proof fn resolution_is_idempotent(
    nodes: Seq<RemoteMailbox>,
    inbox: Seq<char>,
    paths: Seq<PathView>,
    first: Seq<PendingView>,
    second: Seq<PendingView>,
)
    requires
        plan_wf(paths),
        resolution_of(nodes, inbox, paths, first),
        resolution_of(nodes, inbox, paths, second),
    ensures
        first == second,
{
    assert forall|k: int| 0 <= k < paths.len() implies first[k] == second[k] by {
        let p = paths[k];
        assert(resolved_as(nodes, inbox, paths, k, first[k]));
        assert(resolved_as(nodes, inbox, paths, k, second[k]));
        if p.len() > 0 {
            if located(nodes, p) {
                let a = choose|i: int|
                    first_at(nodes, p, i) && first[k] == PendingView::ExistingId(nodes[i].id@);
                let b = choose|i: int|
                    first_at(nodes, p, i) && second[k] == PendingView::ExistingId(nodes[i].id@);
                lemma_first_at_unique(nodes, p, a, b);
            } else if p.len() > 1 {
                let pa = first[k]->ToCreate_1;
                let pb = second[k]->ToCreate_1;
                if located(nodes, p.drop_last()) {
                    let a = choose|i: int|
                        first_at(nodes, p.drop_last(), i) && pa == ParentView::Existing(
                            nodes[i].id@,
                        );
                    let b = choose|i: int|
                        first_at(nodes, p.drop_last(), i) && pb == ParentView::Existing(
                            nodes[i].id@,
                        );
                    lemma_first_at_unique(nodes, p.drop_last(), a, b);
                } else {
                    let a = choose|j: int|
                        0 <= j < k && paths[j] == p.drop_last() && pa == ParentView::Pending(
                            j as nat,
                        );
                    let b = choose|j: int|
                        0 <= j < k && paths[j] == p.drop_last() && pb == ParentView::Pending(
                            j as nat,
                        );
                    if a < b {
                        assert(paths[a] != paths[b]);
                    } else if b < a {
                        assert(paths[b] != paths[a]);
                    }
                }
            }
        }
    }
    assert(first =~= second);
}

} // verus!
