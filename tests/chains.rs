use llist::{IterMut, Llist, LlistNode, Slot};

fn visit(list: &Llist, first: Option<usize>) -> Vec<usize> {
    let mut out = Vec::new();
    let mut iter = LlistNode::iter_mut(first);
    while let Some(n) = iter.next(list) {
        out.push(n);
    }
    out
}

fn back_references_consistent(list: &Llist, linked: &[usize]) -> bool {
    linked.iter().all(|&n| match list.nodes[n].next {
        Some(t) => list.nodes[t].next_of_prev == Some(Slot::Next(n)),
        None => true,
    })
}

#[test]
fn dostuff() {
    let (x, y, z) = (0usize, 1usize, 2usize);
    let mut list = Llist::new(3, 0);

    LlistNode::insert(&mut list, y, LlistNode::next_ptr(x), None);
    LlistNode::insert(&mut list, z, LlistNode::next_ptr(x), Some(y));

    let mut iter = LlistNode::iter_mut(Some(x));
    assert!(iter.next(&list).is_some_and(|n| n == x));
    assert!(iter.next(&list).is_some_and(|n| n == z));
    assert!(iter.next(&list).is_some_and(|n| n == y));
    assert!(iter.next(&list).is_none());

    let mut iter = LlistNode::iter_mut(Some(y));
    assert!(iter.next(&list).is_some_and(|n| n == y));
    assert!(iter.next(&list).is_none());

    LlistNode::remove(&mut list, z);

    let mut iter = LlistNode::iter_mut(Some(x));
    assert!(iter.next(&list).is_some_and(|n| n == x));
    assert!(iter.next(&list).is_some_and(|n| n == y));
    assert!(iter.next(&list).is_none());

    LlistNode::insert(&mut list, z, LlistNode::next_ptr(x), Some(y));

    let mut iter = LlistNode::iter_mut(Some(x));
    assert!(iter.next(&list).is_some_and(|n| n == x));
    assert!(iter.next(&list).is_some_and(|n| n == z));
    assert!(iter.next(&list).is_some_and(|n| n == y));
    assert!(iter.next(&list).is_none());

    LlistNode::remove(&mut list, z);
    LlistNode::remove(&mut list, y);

    let mut iter = LlistNode::iter_mut(Some(x));
    assert!(iter.next(&list).is_some_and(|n| n == x));
    assert!(iter.next(&list).is_none());
}

#[test]
fn next_ptr_names_the_successor_field() {
    assert_eq!(LlistNode::next_ptr(4), Slot::Next(4));
}

#[test]
fn new_arena_is_unlinked_and_empty() {
    let list = Llist::new(2, 3);
    assert_eq!(list.roots, vec![None, None, None]);
    assert_eq!(list.nodes.len(), 2);
    assert_eq!(list.nodes[1], LlistNode { next: None, next_of_prev: None });
}

#[test]
fn insert_writes_node_slot_and_successor() {
    let mut list = Llist::new(3, 1);
    LlistNode::insert(&mut list, 1, Slot::Root(0), None);
    LlistNode::insert(&mut list, 2, Slot::Root(0), Some(1));
    assert_eq!(list.roots[0], Some(2));
    assert_eq!(list.nodes[2], LlistNode { next: Some(1), next_of_prev: Some(Slot::Root(0)) });
    assert_eq!(list.nodes[1], LlistNode { next: None, next_of_prev: Some(Slot::Next(2)) });
}

#[test]
fn inserts_at_root_come_out_newest_first() {
    let mut list = Llist::new(4, 1);
    for n in 0..4usize {
        let head = list.roots[0];
        LlistNode::insert(&mut list, n, Slot::Root(0), head);
    }
    assert_eq!(visit(&list, list.roots[0]), vec![3, 2, 1, 0]);
}

#[test]
fn insert_after_a_node_comes_right_behind_it() {
    let mut list = Llist::new(5, 1);
    LlistNode::insert(&mut list, 0, Slot::Root(0), None);
    LlistNode::insert(&mut list, 1, LlistNode::next_ptr(0), None);
    LlistNode::insert(&mut list, 2, LlistNode::next_ptr(1), None);
    assert_eq!(visit(&list, list.roots[0]), vec![0, 1, 2]);
    let after = list.nodes[0].next;
    LlistNode::insert(&mut list, 3, LlistNode::next_ptr(0), after);
    assert_eq!(visit(&list, list.roots[0]), vec![0, 3, 1, 2]);
    assert_eq!(visit(&list, Some(3)), vec![3, 1, 2]);
}

#[test]
fn insert_then_remove_restores_the_chain() {
    let mut list = Llist::new(4, 1);
    LlistNode::insert(&mut list, 0, Slot::Root(0), None);
    LlistNode::insert(&mut list, 1, LlistNode::next_ptr(0), None);
    let roots_before = list.roots.clone();
    let nodes_before = list.nodes.clone();
    let after = list.nodes[0].next;
    LlistNode::insert(&mut list, 2, LlistNode::next_ptr(0), after);
    assert_eq!(visit(&list, list.roots[0]), vec![0, 2, 1]);
    LlistNode::remove(&mut list, 2);
    assert_eq!(list.roots, roots_before);
    for i in [0usize, 1, 3] {
        assert_eq!(list.nodes[i], nodes_before[i]);
    }
    assert_eq!(visit(&list, list.roots[0]), vec![0, 1]);
}

#[test]
fn back_references_stay_consistent() {
    let mut list = Llist::new(4, 1);
    let mut linked: Vec<usize> = Vec::new();
    for n in 0..4usize {
        let head = list.roots[0];
        LlistNode::insert(&mut list, n, Slot::Root(0), head);
        linked.push(n);
        assert!(back_references_consistent(&list, &linked));
    }
    for n in [2usize, 0, 3] {
        LlistNode::remove(&mut list, n);
        linked.retain(|&m| m != n);
        assert!(back_references_consistent(&list, &linked));
    }
    assert_eq!(visit(&list, list.roots[0]), vec![1]);
    assert_eq!(list.nodes[1].next_of_prev, Some(Slot::Root(0)));
}

#[test]
fn removing_the_sole_node_empties_the_root() {
    let mut list = Llist::new(1, 1);
    LlistNode::insert(&mut list, 0, Slot::Root(0), None);
    assert_eq!(visit(&list, list.roots[0]), vec![0]);
    LlistNode::remove(&mut list, 0);
    assert_eq!(list.roots[0], None);
    assert!(visit(&list, list.roots[0]).is_empty());
}

#[test]
fn removed_node_keeps_its_stale_fields() {
    let mut list = Llist::new(3, 1);
    LlistNode::insert(&mut list, 0, Slot::Root(0), None);
    LlistNode::insert(&mut list, 1, Slot::Root(0), Some(0));
    LlistNode::remove(&mut list, 1);
    assert_eq!(list.nodes[1], LlistNode { next: Some(0), next_of_prev: Some(Slot::Root(0)) });
    assert_eq!(list.nodes[0].next_of_prev, Some(Slot::Root(0)));
}

#[test]
fn empty_iterator_yields_nothing() {
    let list = Llist::new(1, 0);
    let mut iter = IterMut::new(None);
    assert_eq!(iter.next(&list), None);
    assert_eq!(iter.next(&list), None);
}

#[test]
fn iteration_reads_successors_as_it_goes() {
    let mut list = Llist::new(3, 1);
    LlistNode::insert(&mut list, 0, Slot::Root(0), None);
    LlistNode::insert(&mut list, 1, LlistNode::next_ptr(0), None);
    let mut iter = LlistNode::iter_mut(list.roots[0]);
    assert_eq!(iter.next(&list), Some(0));
    let after = list.nodes[0].next;
    LlistNode::insert(&mut list, 2, LlistNode::next_ptr(0), after);
    assert_eq!(iter.next(&list), Some(1));
    assert_eq!(iter.next(&list), None);
    let mut iter = LlistNode::iter_mut(list.roots[0]);
    assert_eq!(iter.next(&list), Some(0));
    LlistNode::remove(&mut list, 2);
    assert_eq!(iter.next(&list), Some(2));
    assert_eq!(iter.next(&list), Some(1));
    assert_eq!(iter.next(&list), None);
}
