use vstd::prelude::*;

use crate::laws::{insert_keeps_back_references, remove_keeps_back_references};

verus! {

/// A storage location that holds an optional link to a node.
#[derive(Clone, Copy, Debug, PartialEq, Eq, Structural)]
pub enum Slot {
    /// The external root slot with this index in the arena.
    Root(usize),
    /// The successor field of the node with this index.
    Next(usize),
}

/// A link record: the successor of a node and the slot that links to it.
#[derive(Clone, Copy, Debug, PartialEq, Eq)]
pub struct LlistNode {
    /// The next node of the chain; `None` ends the chain.
    pub next: Option<usize>,
    /// The slot that holds the link to this node; `None` for a node never linked.
    pub next_of_prev: Option<Slot>,
}

/// The storage that nodes and root slots live in, addressed by index.
///
/// Indices stay valid for as long as the arena lives, so a linked node never moves.
pub struct Llist {
    /// External root slots, each holding the first node of a chain or nothing.
    pub roots: Vec<Option<usize>>,
    /// The nodes, each addressed by its index.
    pub nodes: Vec<LlistNode>,
}

/// The mathematical content of an arena.
pub struct ArenaView {
    pub roots: Seq<Option<usize>>,
    pub nodes: Seq<LlistNode>,
}

impl View for Llist {
    type V = ArenaView;

    open spec fn view(&self) -> ArenaView {
        ArenaView { roots: self.roots@, nodes: self.nodes@ }
    }
}

impl ArenaView {
    /// `s` designates a root slot or a node of the arena.
    pub open spec fn slot_valid(self, s: Slot) -> bool {
        match s {
            Slot::Root(r) => r < self.roots.len(),
            Slot::Next(n) => n < self.nodes.len(),
        }
    }

    /// `l` is empty or designates a node of the arena.
    pub open spec fn link_valid(self, l: Option<usize>) -> bool {
        match l {
            Some(n) => n < self.nodes.len(),
            None => true,
        }
    }

    /// What slot `s` holds.
    pub open spec fn slot_get(self, s: Slot) -> Option<usize> {
        match s {
            Slot::Root(r) => self.roots[r as int],
            Slot::Next(n) => self.nodes[n as int].next,
        }
    }

    /// The arena with slot `s` overwritten by `l`.
    pub open spec fn slot_set(self, s: Slot, l: Option<usize>) -> ArenaView {
        match s {
            Slot::Root(r) => ArenaView { roots: self.roots.update(r as int, l), nodes: self.nodes },
            Slot::Next(n) => ArenaView {
                roots: self.roots,
                nodes: self.nodes.update(
                    n as int,
                    LlistNode { next: l, next_of_prev: self.nodes[n as int].next_of_prev },
                ),
            },
        }
    }

    /// The arena with the back-reference of node `n` overwritten by `s`.
    pub open spec fn back_set(self, n: usize, s: Slot) -> ArenaView {
        ArenaView {
            roots: self.roots,
            nodes: self.nodes.update(
                n as int,
                LlistNode { next: self.nodes[n as int].next, next_of_prev: Some(s) },
            ),
        }
    }

    /// Node `n` is a member of a chain: its back-reference designates a slot that
    /// holds the link to `n`.
    pub open spec fn linked(self, n: usize) -> bool {
        n < self.nodes.len() && match self.nodes[n as int].next_of_prev {
            Some(s) => self.slot_valid(s) && self.slot_get(s) == Some(n),
            None => false,
        }
    }

    /// Back-reference consistency: the successor of every linked node designates,
    /// as its back-reference, the successor field of that node.
    pub open spec fn wf(self) -> bool {
        forall|n: usize| #[trigger]
            self.linked(n) ==> match self.nodes[n as int].next {
                Some(t) => t < self.nodes.len() && self.nodes[t as int].next_of_prev == Some(
                    Slot::Next(n),
                ),
                None => true,
            }
    }

    /// Node `node` may be spliced in after slot `s`, in front of `next`: it is not
    /// linked, `s` is not its own successor field, `s` holds `next`, and a node
    /// `next` has `s` as its back-reference.
    pub open spec fn can_insert(self, node: usize, s: Slot, next: Option<usize>) -> bool {
        &&& node < self.nodes.len()
        &&& self.slot_valid(s)
        &&& s != Slot::Next(node)
        &&& !self.linked(node)
        &&& self.slot_get(s) == next
        &&& match next {
            Some(t) => t < self.nodes.len() && self.nodes[t as int].next_of_prev == Some(s),
            None => true,
        }
    }

    /// The arena after `node` is spliced in after slot `s`, in front of `next`.
    pub open spec fn inserted(self, node: usize, s: Slot, next: Option<usize>) -> ArenaView {
        let written = ArenaView {
            roots: self.roots,
            nodes: self.nodes.update(node as int, LlistNode { next, next_of_prev: Some(s) }),
        };
        let spliced = written.slot_set(s, Some(node));
        match next {
            Some(t) => spliced.back_set(t, Slot::Next(node)),
            None => spliced,
        }
    }

    /// Node `node` can be spliced out: its back-reference designates a slot of the
    /// arena and its successor, if any, is a node of the arena.
    pub open spec fn removable(self, node: usize) -> bool {
        node < self.nodes.len() && self.link_valid(self.nodes[node as int].next) && match self.nodes[
            node as int
        ].next_of_prev {
            Some(s) => self.slot_valid(s),
            None => false,
        }
    }

    /// The arena after `node` is spliced out; its own fields are left as they were.
    pub open spec fn removed(self, node: usize) -> ArenaView {
        let n = self.nodes[node as int];
        match n.next_of_prev {
            Some(s) => {
                let bridged = self.slot_set(s, n.next);
                match n.next {
                    Some(t) => bridged.back_set(t, s),
                    None => bridged,
                }
            },
            None => self,
        }
    }

    /// The first `k` nodes that forward iteration visits when it starts at `cur`.
    pub open spec fn walk(self, cur: Option<usize>, k: nat) -> Seq<usize>
        decreases k,
    {
        if k == 0 {
            seq![]
        } else {
            match cur {
                Some(n) => if n < self.nodes.len() {
                    seq![n] + self.walk(self.nodes[n as int].next, (k - 1) as nat)
                } else {
                    seq![]
                },
                None => seq![],
            }
        }
    }
}

impl Llist {
    /// An arena of `n_nodes` nodes, none of them linked, and `n_roots` empty root
    /// slots.
    pub fn new(n_nodes: usize, n_roots: usize) -> (r: Self)
        ensures
            r.roots@ == Seq::new(n_roots as nat, |i: int| None::<usize>),
            r.nodes@ == Seq::new(
                n_nodes as nat,
                |i: int| LlistNode { next: None, next_of_prev: None },
            ),
            r@.wf(),
    {
        let mut roots: Vec<Option<usize>> = Vec::new();
        let mut i: usize = 0;
        while i < n_roots
            invariant
                i <= n_roots,
                roots@ == Seq::new(i as nat, |j: int| None::<usize>),
            decreases n_roots - i,
        {
            roots.push(None);
            i = i + 1;
            assert(roots@ =~= Seq::new(i as nat, |j: int| None::<usize>));
        }
        let mut nodes: Vec<LlistNode> = Vec::new();
        let mut i: usize = 0;
        while i < n_nodes
            invariant
                i <= n_nodes,
                nodes@ == Seq::new(
                    i as nat,
                    |j: int| LlistNode { next: None, next_of_prev: None },
                ),
            decreases n_nodes - i,
        {
            nodes.push(LlistNode { next: None, next_of_prev: None });
            i = i + 1;
            assert(nodes@ =~= Seq::new(
                i as nat,
                |j: int| LlistNode { next: None, next_of_prev: None },
            ));
        }
        Llist { roots, nodes }
    }

    /// Overwrites slot `s` with the link `l`.
    fn write_slot(&mut self, s: Slot, l: Option<usize>)
        requires
            old(self)@.slot_valid(s),
        ensures
            final(self)@ == old(self)@.slot_set(s, l),
    {
        match s {
            Slot::Root(r) => {
                self.roots.set(r, l);
            },
            Slot::Next(n) => {
                let back = self.nodes[n].next_of_prev;
                self.nodes.set(n, LlistNode { next: l, next_of_prev: back });
            },
        }
    }

    /// Overwrites the back-reference of node `n` with `s`.
    fn write_back(&mut self, n: usize, s: Slot)
        requires
            n < old(self).nodes.len(),
        ensures
            final(self)@ == old(self)@.back_set(n, s),
    {
        let next = self.nodes[n].next;
        self.nodes.set(n, LlistNode { next, next_of_prev: Some(s) });
    }
}

impl LlistNode {
    /// The slot formed by the successor field of `node`, to insert after it.
    pub fn next_ptr(node: usize) -> (r: Slot)
        ensures
            r == Slot::Next(node),
    {
        Slot::Next(node)
    }

    /// Splices `node` into a chain after the slot `next_of_prev`, in front of
    /// `next`, the node that the slot held.
    ///
    /// The node's old fields are overwritten, whatever they held: a node still
    /// linked elsewhere must be removed first (see `ArenaView::can_insert`).
    pub fn insert(list: &mut Llist, node: usize, next_of_prev: Slot, next: Option<usize>)
        requires
            node < old(list).nodes.len(),
            old(list)@.slot_valid(next_of_prev),
            old(list)@.link_valid(next),
        ensures
            final(list)@ == old(list)@.inserted(node, next_of_prev, next),
            old(list)@.wf() && old(list)@.can_insert(node, next_of_prev, next) ==> final(list)@.wf()
                && final(list)@.linked(node),
    {
        proof {
            if old(list)@.wf() && old(list)@.can_insert(node, next_of_prev, next) {
                insert_keeps_back_references(old(list)@, node, next_of_prev, next);
            }
        }
        list.nodes.set(node, LlistNode { next, next_of_prev: Some(next_of_prev) });
        list.write_slot(next_of_prev, Some(node));
        if let Some(t) = next {
            list.write_back(t, Self::next_ptr(node));
        }
    }

    /// Splices `node` out of its chain: the slot that linked to it takes its
    /// successor, and that successor takes the slot as its back-reference.
    ///
    /// The node's own fields are left as they were.
    pub fn remove(list: &mut Llist, node: usize)
        requires
            old(list)@.removable(node),
        ensures
            final(list)@ == old(list)@.removed(node),
            old(list)@.wf() && old(list)@.linked(node) ==> final(list)@.wf(),
    {
        proof {
            if old(list)@.wf() && old(list)@.linked(node) {
                remove_keeps_back_references(old(list)@, node);
            }
        }
        let n = list.nodes[node];
        if let Some(s) = n.next_of_prev {
            list.write_slot(s, n.next);
            if let Some(t) = n.next {
                list.write_back(t, s);
            }
        }
    }

    /// An iterator over the chain that starts at `first`, `first` included.
    pub fn iter_mut(first: Option<usize>) -> (r: IterMut)
        ensures
            r.0 == first,
    {
        IterMut::new(first)
    }
}

/// Forward iteration over a chain: holds the node to be visited next.
#[derive(Clone, Copy, Debug)]
pub struct IterMut(pub Option<usize>);

impl IterMut {
    /// An iterator whose first visit is `first`.
    pub fn new(first: Option<usize>) -> (r: Self)
        ensures
            r.0 == first,
    {
        IterMut(first)
    }

    /// Visits the current node and moves to its successor, read from `list` at
    /// this moment; `None` once the chain has ended.
    pub fn next(&mut self, list: &Llist) -> (r: Option<usize>)
        requires
            list@.link_valid(old(self).0),
        ensures
            r == old(self).0,
            final(self).0 == match r {
                Some(c) => list@.nodes[c as int].next,
                None => None,
            },
    {
        match self.0 {
            Some(c) => {
                self.0 = list.nodes[c].next;
                Some(c)
            },
            None => None,
        }
    }
}

} // verus!
