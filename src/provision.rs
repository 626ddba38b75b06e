//! Creation of the missing mailboxes in one batch, and the settling of each
//! folder path to a concrete mailbox id once the batch has been answered.
use vstd::prelude::*;
use crate::folders::{PathView, plan_wf};
use crate::remote::{RemoteMailbox, first_at, located};
use crate::resolve::{PendingMailbox, PendingView, ParentRef, ParentView, resolution_of, resolved_as};

verus! {

/// Where the parent of a batch entry is found.
#[derive(Clone, Debug, PartialEq, Eq)]
pub enum CreateParent {
    /// At the top of the tree.
    TopLevel,
    /// Under an existing mailbox, by id.
    Existing(String),
    /// Under the mailbox that an earlier entry of the same batch creates.
    Earlier(usize),
}

/// One mailbox creation in the batch.
#[derive(Clone, Debug, PartialEq, Eq)]
pub struct CreateEntry {
    /// The position of the folder path it is for.
    pub folder: usize,
    pub name: String,
    pub parent: CreateParent,
}

pub enum CreateParentView {
    TopLevel,
    Existing(Seq<char>),
    Earlier(nat),
}

pub struct CreateEntryView {
    pub folder: nat,
    pub name: Seq<char>,
    pub parent: CreateParentView,
}

impl View for CreateEntry {
    type V = CreateEntryView;

    open spec fn view(&self) -> CreateEntryView {
        CreateEntryView {
            folder: self.folder as nat,
            name: self.name@,
            parent: match self.parent {
                CreateParent::TopLevel => CreateParentView::TopLevel,
                CreateParent::Existing(id) => CreateParentView::Existing(id@),
                CreateParent::Earlier(b) => CreateParentView::Earlier(b as nat),
            },
        }
    }
}

impl DeepView for CreateEntry {
    type V = CreateEntryView;

    open spec fn deep_view(&self) -> CreateEntryView {
        self@
    }
}

/// Every mailbox to create whose parent is pending refers to an earlier
/// position that is itself to be created.
pub open spec fn pending_wf(ms: Seq<PendingView>) -> bool {
    forall|k: int|
        #![trigger ms[k]]
        0 <= k < ms.len() ==> match ms[k] {
            PendingView::ToCreate(_, ParentView::Pending(j)) => j < k && ms[j as int] is ToCreate,
            _ => true,
        }
}

/// Whether every pending parent refers to an earlier mailbox that is itself
/// to be created, as `create_batch` needs.
pub fn pending_is_wf(pending: &Vec<PendingMailbox>) -> (r: bool)
    ensures
        r == pending_wf(pending.deep_view()),
{
    let ghost ms = pending.deep_view();
    let mut k: usize = 0;
    while k < pending.len()
        invariant
            ms == pending.deep_view(),
            k <= pending.len(),
            forall|x: int|
                #![trigger ms[x]]
                0 <= x < k ==> match ms[x] {
                    PendingView::ToCreate(_, ParentView::Pending(j)) => j < x && ms[j as int] is ToCreate,
                    _ => true,
                },
        decreases pending.len() - k,
    {
        assert(ms[k as int] == pending[k as int]@);
        match &pending[k] {
            PendingMailbox::ToCreate { parent: ParentRef::Pending(j), .. } => {
                if *j >= k {
                    return false;
                }
                assert(ms[*j as int] == pending[*j as int]@);
                if !pending[*j].is_to_create() {
                    return false;
                }
            },
            _ => {},
        }
        k = k + 1;
    }
    true
}

/// How many of the first `k` entries are mailboxes to create: the batch
/// position of the entry at `k`.
pub open spec fn creates_before(ms: Seq<PendingView>, k: int) -> nat
    decreases k,
{
    if k <= 0 || ms.len() < k {
        0
    } else {
        creates_before(ms, k - 1) + if ms[k - 1] is ToCreate {
            1nat
        } else {
            0nat
        }
    }
}

/// The batch entry for the mailbox to create at position `k`.
pub open spec fn entry_for(ms: Seq<PendingView>, k: int) -> CreateEntryView {
    let name = ms[k]->ToCreate_0;
    let parent = match ms[k]->ToCreate_1 {
        ParentView::TopLevel => CreateParentView::TopLevel,
        ParentView::Existing(id) => CreateParentView::Existing(id),
        ParentView::Pending(j) => CreateParentView::Earlier(creates_before(ms, j as int)),
    };
    CreateEntryView { folder: k as nat, name, parent }
}

/// The batch: one entry per mailbox to create, in the order of the paths.
pub open spec fn batch_of(ms: Seq<PendingView>, batch: Seq<CreateEntryView>) -> bool {
    &&& batch.len() == creates_before(ms, ms.len() as int)
    &&& forall|k: int|
        0 <= k < ms.len() && #[trigger] ms[k] is ToCreate ==> batch[creates_before(ms, k) as int]
            == entry_for(ms, k)
}

proof fn lemma_creates_before_mono(ms: Seq<PendingView>, a: int, b: int)
    requires
        0 <= a <= b <= ms.len(),
    ensures
        creates_before(ms, a) <= creates_before(ms, b),
        creates_before(ms, b) <= creates_before(ms, a) + (b - a),
        a < b && ms[a] is ToCreate ==> creates_before(ms, a) < creates_before(ms, b),
    decreases b - a,
{
    if a < b {
        lemma_creates_before_mono(ms, a, b - 1);
        if a < b - 1 {
            lemma_creates_before_mono(ms, a, b - 1);
        }
    }
}

/// The batch entry for the mailbox to create at position `k`, given the
/// batch position of every path up to `k`.
fn entry_at(pending: &Vec<PendingMailbox>, pos: &Vec<usize>, k: usize) -> (r: CreateEntry)
    requires
        pending_wf(pending.deep_view()),
        k < pending.len(),
        pending.deep_view()[k as int] is ToCreate,
        pos.len() == k + 1,
        forall|x: int| 0 <= x <= k ==> pos[x] == creates_before(pending.deep_view(), x),
    ensures
        r@ == entry_for(pending.deep_view(), k as int),
        match r.parent {
            CreateParent::Earlier(b) => b < creates_before(pending.deep_view(), k as int),
            _ => true,
        },
{
    let ghost ms = pending.deep_view();
    assert(ms[k as int] == pending[k as int]@);
    match &pending[k] {
        PendingMailbox::ToCreate { name, parent } => {
            let p = match parent {
                ParentRef::TopLevel => CreateParent::TopLevel,
                ParentRef::Existing(id) => CreateParent::Existing(id.clone()),
                ParentRef::Pending(j) => {
                    proof {
                        lemma_creates_before_mono(ms, *j as int, k as int);
                    }
                    CreateParent::Earlier(pos[*j])
                },
            };
            CreateEntry { folder: k, name: name.clone(), parent: p }
        },
        _ => {
            assert(false);
            CreateEntry { folder: k, name: String::new(), parent: CreateParent::TopLevel }
        },
    }
}

/// Builds the creation batch for the mailboxes still to create. An entry
/// whose parent is created in the same batch refers to that earlier entry,
/// so no entry is ever submitted with a parent that is not yet known.
pub fn create_batch(pending: &Vec<PendingMailbox>) -> (r: Vec<CreateEntry>)
    requires
        pending_wf(pending.deep_view()),
    ensures
        batch_of(pending.deep_view(), r.deep_view()),
        forall|e: int|
            0 <= e < r.len() ==> match #[trigger] r[e].parent {
                CreateParent::Earlier(b) => b < e,
                _ => true,
            },
{
    let ghost ms = pending.deep_view();
    let mut r: Vec<CreateEntry> = Vec::new();
    // Batch position of the entry for each path, where it has one.
    let mut pos: Vec<usize> = Vec::new();
    let mut k: usize = 0;
    while k < pending.len()
        invariant
            ms == pending.deep_view(),
            pending_wf(ms),
            k <= pending.len(),
            r.len() == creates_before(ms, k as int),
            pos.len() == k,
            forall|x: int| 0 <= x < k ==> pos[x] == creates_before(ms, x),
            forall|x: int|
                0 <= x < k && #[trigger] ms[x] is ToCreate ==> r.deep_view()[creates_before(
                    ms,
                    x,
                ) as int] == entry_for(ms, x),
            forall|e: int|
                0 <= e < r.len() ==> match #[trigger] r[e].parent {
                    CreateParent::Earlier(b) => b < e,
                    _ => true,
                },
        decreases pending.len() - k,
    {
        assert(ms[k as int] == pending[k as int]@);
        let ghost before = r.deep_view();
        pos.push(r.len());
        if pending[k].is_to_create() {
            let entry = entry_at(pending, &pos, k);
            r.push(entry);
            assert(r.deep_view() =~= before.push(entry@));
        }
        proof {
            assert forall|x: int|
                0 <= x < k + 1 && #[trigger] ms[x] is ToCreate implies r.deep_view()[creates_before(
                    ms,
                    x,
                ) as int] == entry_for(ms, x) by {
                if x < k {
                    lemma_creates_before_mono(ms, x, k as int);
                    assert(r.deep_view()[creates_before(ms, x) as int] == before[creates_before(
                        ms,
                        x,
                    ) as int]);
                }
            }
        }
        k = k + 1;
    }
    r
}

/// What the path at position `k` comes to once the batch has been answered,
/// `results[b]` holding the id given to batch entry `b` or nothing where its
/// creation failed: existing mailboxes stay; a created one takes its new id,
/// unless its own creation failed or its parent in the batch came to
/// nothing, and then it comes to nothing too, as does all its subtree.
pub open spec fn settled(ms: Seq<PendingView>, results: Seq<Option<Seq<char>>>, k: int) -> PendingView
    decreases k,
{
    if !(0 <= k < ms.len()) {
        PendingView::Unresolved
    } else {
        match ms[k] {
            PendingView::ExistingId(id) => PendingView::ExistingId(id),
            PendingView::Unresolved => PendingView::Unresolved,
            PendingView::ToCreate(_, parent) => {
                let b = creates_before(ms, k);
                let parent_ok = match parent {
                    ParentView::Pending(j) => if j < k {
                        settled(ms, results, j as int) is ExistingId
                    } else {
                        false
                    },
                    _ => true,
                };
                if parent_ok && b < results.len() && results[b as int] is Some {
                    PendingView::ExistingId(results[b as int]->Some_0)
                } else {
                    PendingView::Unresolved
                }
            },
        }
    }
}

/// Settles every path once the batch has been answered: every entry comes
/// out as an existing id or as unresolved.
pub fn settle(pending: &Vec<PendingMailbox>, results: &Vec<Option<String>>) -> (r: Vec<
    PendingMailbox,
>)
    ensures
        r.len() == pending.len(),
        forall|k: int|
            0 <= k < r.len() ==> #[trigger] r[k]@ == settled(
                pending.deep_view(),
                results.deep_view(),
                k,
            ),
        forall|k: int| 0 <= k < r.len() ==> !(#[trigger] r[k]@ is ToCreate),
{
    let ghost ms = pending.deep_view();
    let ghost rs = results.deep_view();
    let mut r: Vec<PendingMailbox> = Vec::new();
    let mut b: usize = 0;
    let mut k: usize = 0;
    while k < pending.len()
        invariant
            ms == pending.deep_view(),
            rs == results.deep_view(),
            k <= pending.len(),
            r.len() == k,
            b == creates_before(ms, k as int),
            forall|x: int| 0 <= x < k ==> #[trigger] r[x]@ == settled(ms, rs, x),
        decreases pending.len() - k,
    {
        assert(ms[k as int] == pending[k as int]@);
        proof {
            lemma_creates_before_mono(ms, 0, k as int + 1);
        }
        let m = match &pending[k] {
            PendingMailbox::ExistingId(id) => PendingMailbox::ExistingId(id.clone()),
            PendingMailbox::Unresolved => PendingMailbox::Unresolved,
            PendingMailbox::ToCreate { parent, .. } => {
                let parent_ok = match parent {
                    ParentRef::Pending(j) => {
                        if *j < k {
                            assert(r[*j as int]@ == settled(ms, rs, *j as int));
                            r[*j].is_existing()
                        } else {
                            false
                        }
                    },
                    _ => true,
                };
                if parent_ok && b < results.len() {
                    assert(rs[b as int] == results[b as int].deep_view());
                    match &results[b] {
                        Some(id) => PendingMailbox::ExistingId(id.clone()),
                        None => PendingMailbox::Unresolved,
                    }
                } else {
                    PendingMailbox::Unresolved
                }
            },
        };
        assert(m@ == settled(ms, rs, k as int));
        if pending[k].is_to_create() {
            b = b + 1;
        }
        r.push(m);
        k = k + 1;
    }
    r
}

/// A resolution of well-formed folder paths refers each pending parent to
/// an earlier mailbox that is itself to be created.
pub proof fn resolution_is_well_formed(
    nodes: Seq<RemoteMailbox>,
    inbox: Seq<char>,
    paths: Seq<PathView>,
    ms: Seq<PendingView>,
)
    requires
        plan_wf(paths),
        resolution_of(nodes, inbox, paths, ms),
    ensures
        pending_wf(ms),
{
    assert forall|k: int| 0 <= k < ms.len() implies match #[trigger] ms[k] {
        PendingView::ToCreate(_, ParentView::Pending(j)) => j < k && ms[j as int] is ToCreate,
        _ => true,
    } by {
        assert(resolved_as(nodes, inbox, paths, k, ms[k]));
        if let PendingView::ToCreate(_, ParentView::Pending(j)) = ms[k] {
            let p = paths[k];
            assert(p.len() > 1 && !located(nodes, p.drop_last()));
            let j2 = choose|j2: int|
                0 <= j2 < k && paths[j2] == p.drop_last() && ms[k]->ToCreate_1
                    == ParentView::Pending(j2 as nat);
            assert(j2 == j);
            assert(resolved_as(nodes, inbox, paths, j2, ms[j2]));
        }
    }
}

proof fn lemma_batch_onto(ms: Seq<PendingView>, n: int, e: int)
    requires
        0 <= n <= ms.len(),
        0 <= e < creates_before(ms, n),
    ensures
        exists|k: int| 0 <= k < n && ms[k] is ToCreate && creates_before(ms, k) == e,
    decreases n,
{
    if e < creates_before(ms, n - 1) {
        lemma_batch_onto(ms, n - 1, e);
        let k = choose|k: int| 0 <= k < n - 1 && ms[k] is ToCreate && creates_before(ms, k) == e;
        assert(0 <= k < n);
    } else {
        assert(ms[n - 1] is ToCreate && creates_before(ms, n - 1) == e);
    }
}

/// Where paths P and P/Q both need creating, the batch entry for P/Q names
/// as its parent the entry for P, which comes earlier in the same batch: no
/// entry is submitted with a parent that is not yet known.
pub proof fn parent_created_before_child(
    nodes: Seq<RemoteMailbox>,
    inbox: Seq<char>,
    paths: Seq<PathView>,
    ms: Seq<PendingView>,
    batch: Seq<CreateEntryView>,
    kp: int,
    kq: int,
)
    requires
        plan_wf(paths),
        resolution_of(nodes, inbox, paths, ms),
        batch_of(ms, batch),
        0 <= kp < paths.len(),
        0 <= kq < paths.len(),
        paths[kq].len() > 1,
        paths[kq].drop_last() == paths[kp],
        ms[kp] is ToCreate,
        ms[kq] is ToCreate,
    ensures
        creates_before(ms, kp) < creates_before(ms, kq),
        batch[creates_before(ms, kq) as int].folder == kq,
        batch[creates_before(ms, kp) as int].folder == kp,
        batch[creates_before(ms, kq) as int].parent == CreateParentView::Earlier(
            creates_before(ms, kp),
        ),
{
    assert(resolved_as(nodes, inbox, paths, kp, ms[kp]));
    assert(resolved_as(nodes, inbox, paths, kq, ms[kq]));
    assert(!located(nodes, paths[kp]));
    let j = choose|j: int|
        0 <= j < kq && paths[j] == paths[kq].drop_last() && ms[kq]->ToCreate_1
            == ParentView::Pending(j as nat);
    if j < kp {
        assert(paths[j] != paths[kp]);
    } else if kp < j {
        assert(paths[kp] != paths[j]);
    }
    lemma_creates_before_mono(ms, kp, kq);
}

/// Where a mailbox already sits at a folder's path, the folder is given its
/// id, no batch entry creates it, and each child folder still to be created
/// goes directly under that id.
pub proof fn existing_mailboxes_are_reused(
    nodes: Seq<RemoteMailbox>,
    inbox: Seq<char>,
    paths: Seq<PathView>,
    ms: Seq<PendingView>,
    batch: Seq<CreateEntryView>,
    k: int,
)
    requires
        plan_wf(paths),
        resolution_of(nodes, inbox, paths, ms),
        batch_of(ms, batch),
        0 <= k < paths.len(),
        paths[k].len() > 0,
        located(nodes, paths[k]),
    ensures
        exists|i: int|
            #![trigger first_at(nodes, paths[k], i)]
            first_at(nodes, paths[k], i) && ms[k] == PendingView::ExistingId(nodes[i].id@) && (
            forall|c: int|
                0 <= c < paths.len() && paths[c].len() > 1 && paths[c].drop_last() == paths[k]
                    && #[trigger] ms[c] is ToCreate ==> ms[c]->ToCreate_1 == ParentView::Existing(
                    nodes[i].id@,
                )),
        forall|e: int| 0 <= e < batch.len() ==> #[trigger] batch[e].folder != k,
{
    assert(resolved_as(nodes, inbox, paths, k, ms[k]));
    let i = choose|i: int| first_at(nodes, paths[k], i) && ms[k] == PendingView::ExistingId(nodes[i].id@);
    assert forall|c: int|
        0 <= c < paths.len() && paths[c].len() > 1 && paths[c].drop_last() == paths[k]
            && #[trigger] ms[c] is ToCreate implies ms[c]->ToCreate_1 == ParentView::Existing(
            nodes[i].id@,
        ) by {
        assert(resolved_as(nodes, inbox, paths, c, ms[c]));
        let i2 = choose|i2: int|
            first_at(nodes, paths[c].drop_last(), i2) && ms[c]->ToCreate_1 == ParentView::Existing(
                nodes[i2].id@,
            );
        if i < i2 {
            assert(!crate::remote::has_path(nodes, i, paths[k]));
        } else if i2 < i {
            assert(!crate::remote::has_path(nodes, i2, paths[k]));
        }
    }
    assert forall|e: int| 0 <= e < batch.len() implies #[trigger] batch[e].folder != k by {
        lemma_batch_onto(ms, ms.len() as int, e);
        let k2 = choose|k2: int|
            0 <= k2 < ms.len() && ms[k2] is ToCreate && creates_before(ms, k2) == e;
        assert(batch[creates_before(ms, k2) as int] == entry_for(ms, k2));
    }
}

/// A mailbox to create under a parent that came to nothing comes to nothing
/// as well, whatever the batch answered for it.
pub proof fn failed_parent_fails_child(
    ms: Seq<PendingView>,
    results: Seq<Option<Seq<char>>>,
    c: int,
    j: nat,
)
    requires
        pending_wf(ms),
        0 <= c < ms.len(),
        ms[c]->ToCreate_1 == ParentView::Pending(j),
        ms[c] is ToCreate,
        settled(ms, results, j as int) is Unresolved,
    ensures
        settled(ms, results, c) is Unresolved,
{
}

} // verus!
