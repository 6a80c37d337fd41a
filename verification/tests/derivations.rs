use river::kernel::capability::derivation::DerivationTree;

fn tree() -> DerivationTree<u8> {
    let mut t = DerivationTree::new(vec![10, 11, 12, 13, 14]);
    t.add_child(0, 1);
    t.add_child(0, 2);
    t.add_child(2, 3);
    t
}

#[test]
fn the_last_child_is_the_first_in_the_list() {
    let t = tree();
    assert_eq!(t.children(0), vec![2, 1]);
    assert_eq!(t.children(2), vec![3]);
    assert!(t.children(4).is_empty());
    assert!(t.dtnode(0).has_child());
    assert!(!t.dtnode(1).has_child());
    assert!(!t.is_ancestor_of(3));
    assert_eq!(t.dtnode(3).parent, Some(2));
}

#[test]
fn a_swap_exchanges_places_in_the_tree() {
    let mut t = tree();
    t.swap(2, 4);
    assert_eq!((t.cap(2), t.cap(4)), (14, 12));
    assert_eq!(t.children(0), vec![4, 1]);
    assert_eq!(t.children(4), vec![3]);
    assert_eq!(t.dtnode(3).parent, Some(4));
    assert_eq!(t.dtnode(2).parent, None);
    t.swap(2, 4);
    assert_eq!(t.children(0), vec![2, 1]);
    assert_eq!(t.cap(2), 12);
}

#[test]
fn neighbours_and_parents_are_swapped() {
    let mut t = tree();
    t.swap(1, 2);
    assert_eq!(t.children(0), vec![1, 2]);
    assert_eq!(t.children(1), vec![3]);
    let mut t = tree();
    t.swap(0, 2);
    assert_eq!(t.children(2), vec![0, 1]);
    assert_eq!(t.children(0), vec![3]);
    assert_eq!(t.dtnode(0).parent, Some(2));
}

#[test]
fn a_deleted_slot_is_in_no_list() {
    let mut t = tree();
    t.delete(2, 0);
    assert_eq!(t.cap(2), 0);
    assert_eq!(t.children(0), vec![1]);
    assert!(t.children(2).is_empty());
    assert_eq!(t.dtnode(2).parent, None);
}
