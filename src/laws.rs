use vstd::prelude::*;

use crate::llist::{ArenaView, Slot};

verus! {

/// Starting from a linked node (or from nothing), a walk of a well-formed arena
/// visits linked nodes only.
pub proof fn lemma_walk_linked(v: ArenaView, cur: Option<usize>, k: nat)
    requires
        v.wf(),
        match cur {
            Some(n) => v.linked(n),
            None => true,
        },
    ensures
        forall|i: int| 0 <= i < v.walk(cur, k).len() ==> v.linked(#[trigger] v.walk(cur, k)[i]),
    decreases k,
{
    if k > 0 {
        if let Some(n) = cur {
            let next = v.nodes[n as int].next;
            if let Some(t) = next {
                assert(v.nodes[t as int].next_of_prev == Some(Slot::Next(n)));
                assert(v.linked(t));
            }
            lemma_walk_linked(v, next, (k - 1) as nat);
            let rest = v.walk(next, (k - 1) as nat);
            assert(v.walk(cur, k) == seq![n] + rest);
            assert forall|i: int| 0 <= i < v.walk(cur, k).len() implies v.linked(
                #[trigger] v.walk(cur, k)[i],
            ) by {
                if i > 0 {
                    assert(v.walk(cur, k)[i] == rest[i - 1]);
                }
            }
        }
    }
}

/// A walk depends only on the successor fields of the nodes it visits.
pub proof fn lemma_walk_frame(v: ArenaView, w: ArenaView, cur: Option<usize>, k: nat)
    requires
        w.nodes.len() == v.nodes.len(),
        forall|i: int|
            0 <= i < v.walk(cur, k).len() ==> w.nodes[#[trigger] v.walk(cur, k)[i] as int].next
                == v.nodes[v.walk(cur, k)[i] as int].next,
    ensures
        w.walk(cur, k) == v.walk(cur, k),
    decreases k,
{
    if k > 0 {
        if let Some(n) = cur {
            if n < v.nodes.len() {
                let next = v.nodes[n as int].next;
                let rest = v.walk(next, (k - 1) as nat);
                assert(v.walk(cur, k) == seq![n] + rest);
                assert(v.walk(cur, k)[0] == n);
                assert forall|i: int| 0 <= i < rest.len() implies w.nodes[#[trigger] rest[i] as int].next
                    == v.nodes[rest[i] as int].next by {
                    assert(v.walk(cur, k)[i + 1] == rest[i]);
                }
                lemma_walk_frame(v, w, next, (k - 1) as nat);
            }
        }
    }
}

/// Inserting a node keeps back-references consistent, and links the node.
pub proof fn insert_keeps_back_references(v: ArenaView, node: usize, s: Slot, next: Option<usize>)
    requires
        v.wf(),
        v.can_insert(node, s, next),
    ensures
        v.inserted(node, s, next).wf(),
        v.inserted(node, s, next).linked(node),
{
    let w = v.inserted(node, s, next);
    assert forall|n: usize| #[trigger] w.linked(n) implies match w.nodes[n as int].next {
        Some(t) => t < w.nodes.len() && w.nodes[t as int].next_of_prev == Some(Slot::Next(n)),
        None => true,
    } by {
        if n != node && Some(n) != next && s != Slot::Next(n) {
            assert(v.linked(n));
        }
        if Some(n) == next && s != Slot::Next(n) {
            assert(v.linked(n));
        }
    }
}

/// Removing a linked node keeps back-references consistent, and the node is no
/// longer linked unless it was its own successor.
pub proof fn remove_keeps_back_references(v: ArenaView, node: usize)
    requires
        v.wf(),
        v.linked(node),
    ensures
        v.removed(node).wf(),
        v.nodes[node as int].next != Some(node) ==> !v.removed(node).linked(node),
{
    let w = v.removed(node);
    assert forall|n: usize| #[trigger] w.linked(n) implies match w.nodes[n as int].next {
        Some(t) => t < w.nodes.len() && w.nodes[t as int].next_of_prev == Some(Slot::Next(n)),
        None => true,
    } by {
        assert(v.linked(n));
    }
}

/// Inserting a node and removing it at once restores every root slot and every
/// other node; only the removed node's own fields keep what the insertion wrote.
pub proof fn insert_then_remove_restores(v: ArenaView, node: usize, s: Slot, next: Option<usize>)
    requires
        v.can_insert(node, s, next),
    ensures
        v.inserted(node, s, next).removed(node).roots == v.roots,
        v.inserted(node, s, next).removed(node).nodes.len() == v.nodes.len(),
        forall|i: int|
            0 <= i < v.nodes.len() && i != node ==> #[trigger] v.inserted(node, s, next).removed(
                node,
            ).nodes[i] == v.nodes[i],
{
    let w = v.inserted(node, s, next).removed(node);
    if let Some(t) = next {
        assert(t != node);
    }
    assert(w.roots =~= v.roots);
}

/// Inserting after a chain's head slot (a root slot, or the successor field of a
/// node that is not itself linked) puts the new node first: iteration from the
/// head yields it, then the nodes that the head held before.
pub proof fn insert_after_head_comes_first(v: ArenaView, node: usize, s: Slot, k: nat)
    requires
        v.wf(),
        v.can_insert(node, s, v.slot_get(s)),
        match s {
            Slot::Root(_) => true,
            Slot::Next(x) => !v.linked(x),
        },
    ensures
        v.inserted(node, s, v.slot_get(s)).slot_get(s) == Some(node),
        v.inserted(node, s, v.slot_get(s)).walk(Some(node), k + 1) == seq![node] + v.walk(
            v.slot_get(s),
            k,
        ),
{
    let next = v.slot_get(s);
    let w = v.inserted(node, s, next);
    if let Some(t) = next {
        assert(v.linked(t));
    }
    lemma_walk_linked(v, next, k);
    lemma_walk_frame(v, w, next, k);
}

/// Inserting after a linked node `p` puts the new node right behind it: iteration
/// from `p` yields `p`, the new node, then what followed `p` before. This holds
/// where `p` does not come back within those `k` nodes, as on every chain that
/// insertions have built.
pub proof fn insert_after_node_comes_next(v: ArenaView, node: usize, p: usize, k: nat)
    requires
        v.wf(),
        v.linked(p),
        v.can_insert(node, Slot::Next(p), v.nodes[p as int].next),
        !v.walk(v.nodes[p as int].next, k).contains(p),
    ensures
        v.inserted(node, Slot::Next(p), v.nodes[p as int].next).walk(Some(p), k + 2) == seq![
            p,
            node,
        ] + v.walk(v.nodes[p as int].next, k),
{
    let next = v.nodes[p as int].next;
    let w = v.inserted(node, Slot::Next(p), next);
    if let Some(t) = next {
        assert(v.linked(t));
    }
    lemma_walk_linked(v, next, k);
    assert forall|i: int| 0 <= i < v.walk(next, k).len() implies w.nodes[#[trigger] v.walk(
        next,
        k,
    )[i] as int].next == v.nodes[v.walk(next, k)[i] as int].next by {
        assert(v.walk(next, k)[i] != p);
    }
    lemma_walk_frame(v, w, next, k);
    assert(w.walk(Some(node), k + 1) == seq![node] + w.walk(next, k));
    assert(w.walk(Some(p), k + 2) == seq![p] + w.walk(Some(node), k + 1));
    assert(w.walk(Some(p), k + 2) =~= seq![p, node] + v.walk(next, k));
}

/// Removing a node that its chain's head slot links to (a root slot, or the
/// successor field of a node that is not itself linked) leaves the chain
/// contiguous: the head now yields what followed the removed node.
pub proof fn remove_after_head_bridges(v: ArenaView, node: usize, s: Slot, k: nat)
    requires
        v.wf(),
        v.linked(node),
        v.nodes[node as int].next_of_prev == Some(s),
        match s {
            Slot::Root(_) => true,
            Slot::Next(x) => !v.linked(x),
        },
    ensures
        v.removed(node).slot_get(s) == v.nodes[node as int].next,
        v.removed(node).walk(v.removed(node).slot_get(s), k) == v.walk(v.nodes[node as int].next, k),
{
    let next = v.nodes[node as int].next;
    let w = v.removed(node);
    if let Some(t) = next {
        assert(v.nodes[t as int].next_of_prev == Some(Slot::Next(node)));
        assert(v.linked(t));
    }
    lemma_walk_linked(v, next, k);
    lemma_walk_frame(v, w, next, k);
}

/// Removing the only node of a chain empties the slot that linked to it, and
/// iteration from that slot yields nothing.
pub proof fn remove_sole_node_empties(v: ArenaView, node: usize, s: Slot, k: nat)
    requires
        v.linked(node),
        v.nodes[node as int].next_of_prev == Some(s),
        v.nodes[node as int].next == None::<usize>,
    ensures
        v.removed(node).slot_get(s) == None::<usize>,
        v.removed(node).walk(v.removed(node).slot_get(s), k) == Seq::<usize>::empty(),
{
    assert(v.removed(node).walk(None, k) =~= Seq::<usize>::empty());
}

} // verus!
