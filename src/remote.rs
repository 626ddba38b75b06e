//! The mailboxes that already exist on the target account, and the
//! resolution of each archive folder path against them.
use vstd::prelude::*;
use crate::folders::PathView;

verus! {

/// One mailbox of the account's existing tree.
#[derive(Clone, Debug, PartialEq, Eq)]
pub struct RemoteMailbox {
    pub id: String,
    pub name: String,
    pub parent_id: Option<String>,
    pub is_inbox: bool,
}

impl RemoteMailbox {
    /// A mailbox as the server lists it; one without a name is called
    /// `"Untitled"`.
    pub fn new(id: String, name: Option<String>, parent_id: Option<String>, is_inbox: bool) -> (r:
        RemoteMailbox)
        ensures
            r.id == id,
            r.name@ == (match name {
                Some(n) => n@,
                None => "Untitled"@,
            }),
            r.parent_id == parent_id,
            r.is_inbox == is_inbox,
    {
        let name = match name {
            Some(n) => n,
            None => String::from_str("Untitled"),
        };
        RemoteMailbox { id, name, parent_id, is_inbox }
    }
}

/// Whether mailbox `i`'s parent is mailbox `j`.
pub open spec fn is_child_of(nodes: Seq<RemoteMailbox>, i: int, j: int) -> bool {
    0 <= j < nodes.len() && match nodes[i].parent_id {
        Some(pid) => pid@ == nodes[j].id@,
        None => false,
    }
}

/// Whether mailbox `i` sits at full path `p`: its name is the last segment,
/// and it is a root for a one-segment path, or a child of a mailbox at the
/// path without the last segment.
pub open spec fn has_path(nodes: Seq<RemoteMailbox>, i: int, p: PathView) -> bool
    decreases p.len(),
{
    &&& 0 <= i < nodes.len()
    &&& p.len() > 0
    &&& nodes[i].name@ == p.last()
    &&& if p.len() == 1 {
        nodes[i].parent_id is None
    } else {
        exists|j: int| is_child_of(nodes, i, j) && has_path(nodes, j, p.drop_last())
    }
}

/// Whether some existing mailbox sits at path `p`.
pub open spec fn located(nodes: Seq<RemoteMailbox>, p: PathView) -> bool {
    exists|i: int| has_path(nodes, i, p)
}

/// Mailbox `i` is the first in the listing that sits at path `p`.
pub open spec fn first_at(nodes: Seq<RemoteMailbox>, p: PathView, i: int) -> bool {
    has_path(nodes, i, p) && forall|k: int| 0 <= k < i ==> !has_path(nodes, k, p)
}

/// Whether some position of `cand` holds a mailbox whose id is `id`.
fn has_id(nodes: &Vec<RemoteMailbox>, cand: &Vec<usize>, id: &String) -> (r: bool)
    requires
        forall|a: int| 0 <= a < cand.len() ==> cand[a] < nodes.len(),
    ensures
        r == exists|a: int| 0 <= a < cand.len() && nodes[cand[a] as int].id@ == id@,
{
    let mut a: usize = 0;
    while a < cand.len()
        invariant
            a <= cand.len(),
            forall|a: int| 0 <= a < cand.len() ==> cand[a] < nodes.len(),
            forall|b: int| 0 <= b < a ==> nodes[cand[b] as int].id@ != id@,
        decreases cand.len() - a,
    {
        if nodes[cand[a]].id == *id {
            return true;
        }
        a = a + 1;
    }
    false
}

/// The first mailbox of `nodes` that sits at path `p`, walking the tree
/// level by level from the roots.
pub fn locate(nodes: &Vec<RemoteMailbox>, p: &Vec<String>) -> (r: Option<usize>)
    ensures
        match r {
            Some(i) => first_at(nodes@, p.deep_view(), i as int),
            None => !located(nodes@, p.deep_view()),
        },
{
    let ghost pv = p.deep_view();
    if p.len() == 0 {
        return None;
    }
    let n = nodes.len();
    // Level one: the roots named like the first segment.
    let mut cand: Vec<usize> = Vec::new();
    let mut j: usize = 0;
    while j < n
        invariant
            n == nodes.len(),
            pv == p.deep_view(),
            p.len() > 0,
            j <= n,
            forall|a: int| 0 <= a < cand.len() ==> cand[a] < j,
            forall|a: int, b: int| 0 <= a < b < cand.len() ==> cand[a] < cand[b],
            forall|x: int|
                0 <= x < j ==> (cand@.contains(x as usize) <==> has_path(
                    nodes@,
                    x,
                    pv.take(1),
                )),
        decreases n - j,
    {
        assert(pv.take(1).last() == pv[0]);
        let ghost before = cand@;
        if nodes[j].parent_id.is_none() && nodes[j].name == p[0] {
            cand.push(j);
        }
        assert forall|x: int|
            0 <= x < j + 1 implies (cand@.contains(x as usize) <==> has_path(
                nodes@,
                x,
                pv.take(1),
            )) by {
            if x < j {
                if before.contains(x as usize) {
                    let a = choose|a: int| 0 <= a < before.len() && before[a] == x as usize;
                    assert(cand[a] == x as usize);
                }
                if cand@.contains(x as usize) {
                    let a = choose|a: int| 0 <= a < cand.len() && cand[a] == x as usize;
                    assert(a < before.len());
                    assert(before[a] == x as usize);
                }
            }
            if x == j {
                if has_path(nodes@, x, pv.take(1)) {
                    assert(cand[cand.len() - 1] == x);
                } else if cand@.contains(x as usize) {
                    let a = choose|a: int| 0 <= a < cand.len() && cand[a] == x as usize;
                    assert(cand[a] == j);
                }
            }
        }
        j = j + 1;
    }
    let mut k: usize = 1;
    while k < p.len()
        invariant
            n == nodes.len(),
            pv == p.deep_view(),
            1 <= k <= p.len(),
            forall|a: int| 0 <= a < cand.len() ==> cand[a] < n,
            forall|a: int, b: int| 0 <= a < b < cand.len() ==> cand[a] < cand[b],
            forall|x: int|
                0 <= x < n ==> (cand@.contains(x as usize) <==> has_path(
                    nodes@,
                    x,
                    pv.take(k as int),
                )),
        decreases p.len() - k,
    {
        let ghost q = pv.take(k as int + 1);
        assert(q.drop_last() =~= pv.take(k as int));
        assert(q.last() == pv[k as int]);
        let mut next: Vec<usize> = Vec::new();
        let mut j: usize = 0;
        while j < n
            invariant
                n == nodes.len(),
                pv == p.deep_view(),
                1 <= k < p.len(),
                q == pv.take(k as int + 1),
                q.drop_last() == pv.take(k as int),
                q.last() == pv[k as int],
                j <= n,
                forall|a: int| 0 <= a < cand.len() ==> cand[a] < n,
                forall|x: int|
                    0 <= x < n ==> (cand@.contains(x as usize) <==> has_path(
                        nodes@,
                        x,
                        pv.take(k as int),
                    )),
                forall|a: int| 0 <= a < next.len() ==> next[a] < j,
                forall|a: int, b: int| 0 <= a < b < next.len() ==> next[a] < next[b],
                forall|x: int|
                    0 <= x < j ==> (next@.contains(x as usize) <==> has_path(nodes@, x, q)),
            decreases n - j,
        {
            let take = if nodes[j].name == p[k] {
                match &nodes[j].parent_id {
                    Some(pid) => has_id(nodes, &cand, pid),
                    None => false,
                }
            } else {
                false
            };
            proof {
                if take {
                    let pid = nodes@[j as int].parent_id->Some_0;
                    let a = choose|a: int|
                        0 <= a < cand.len() && nodes[cand[a] as int].id@ == pid@;
                    let c = cand[a] as int;
                    assert(cand@.contains(cand[a]));
                    assert(is_child_of(nodes@, j as int, c));
                    assert(has_path(nodes@, c, q.drop_last()));
                    assert(has_path(nodes@, j as int, q));
                }
                if has_path(nodes@, j as int, q) {
                    let c = choose|c: int|
                        is_child_of(nodes@, j as int, c) && has_path(nodes@, c, q.drop_last());
                    assert(cand@.contains(c as usize));
                    let a = choose|a: int| 0 <= a < cand.len() && cand[a] == c as usize;
                    assert(nodes[cand[a] as int].id@ == nodes@[j as int].parent_id->Some_0@);
                }
            }
            let ghost before = next@;
            if take {
                next.push(j);
            }
            assert forall|x: int|
                0 <= x < j + 1 implies (next@.contains(x as usize) <==> has_path(
                    nodes@,
                    x,
                    q,
                )) by {
                if x < j {
                    if before.contains(x as usize) {
                        let a = choose|a: int| 0 <= a < before.len() && before[a] == x as usize;
                        assert(next[a] == x as usize);
                    }
                    if next@.contains(x as usize) {
                        let a = choose|a: int| 0 <= a < next.len() && next[a] == x as usize;
                        assert(a < before.len());
                        assert(before[a] == x as usize);
                    }
                }
                if x == j {
                    if has_path(nodes@, x, q) {
                        assert(next[next.len() - 1] == x);
                    } else if next@.contains(x as usize) {
                        let a = choose|a: int| 0 <= a < next.len() && next[a] == x as usize;
                        assert(next[a] == j);
                    }
                }
            }
            j = j + 1;
        }
        cand = next;
        k = k + 1;
    }
    assert(pv.take(p.len() as int) =~= pv);
    if cand.len() == 0 {
        assert forall|x: int| !has_path(nodes@, x, pv) by {
            if has_path(nodes@, x, pv) {
                assert(cand@.contains(x as usize));
            }
        }
        None
    } else {
        assert(cand@.contains(cand[0]));
        assert forall|x: int| 0 <= x < cand[0] implies !has_path(nodes@, x, pv) by {
            if has_path(nodes@, x, pv) {
                assert(cand@.contains(x as usize));
                let a = choose|a: int| 0 <= a < cand.len() && cand[a] == x as usize;
                if a > 0 {
                    assert(cand[0] < cand[a]);
                }
            }
        }
        Some(cand[0])
    }
}

} // verus!
