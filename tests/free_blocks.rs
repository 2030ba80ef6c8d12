use numa_alloc::error::AllocationError;
use numa_alloc::free_tree::BinarySearchTreeWithCachedKnowledgeOfFirstChild as Tree;
use numa_alloc::registry::BinarySearchTreesWithCachedKnowledgeOfFirstChild as Registry;

fn minimum_by_scan(tree: &Tree) -> Option<usize> {
    tree.iterate_ascending().iter().copied().min()
}

#[test]
fn cached_first_child_tracks_minimum() {
    let mut tree = Tree::new();
    assert!(!tree.has_blocks());
    assert_eq!(tree.cached_first_child(), None);
    let steps: Vec<(bool, usize)> = vec![
        (true, 0x5000), (true, 0x3000), (true, 0x9000), (true, 0x1000),
        (false, 0x1000), (false, 0x9000), (true, 0x2000), (false, 0x3000),
        (false, 0x2000), (false, 0x5000),
    ];
    for (insert, address) in steps {
        if insert {
            assert_eq!(tree.insert(address), Ok(()));
        } else {
            assert_eq!(tree.remove(address), Ok(()));
        }
        assert_eq!(tree.cached_first_child(), minimum_by_scan(&tree));
        assert_eq!(tree.has_blocks(), tree.cached_first_child().is_some());
    }
    assert!(!tree.has_blocks());
}

#[test]
fn duplicate_insert_and_absent_remove_fail() {
    let mut tree = Tree::new();
    assert_eq!(tree.insert(0x4000), Ok(()));
    assert_eq!(tree.insert(0x4000), Err(AllocationError::InvariantViolation));
    assert_eq!(tree.remove(0x8000), Err(AllocationError::InvariantViolation));
    assert_eq!(tree.iterate_ascending(), vec![0x4000]);
    assert!(tree.contains(0x4000));
    assert!(!tree.contains(0x8000));
}

#[test]
fn take_smallest_and_iteration_order() {
    let mut tree = Tree::new();
    for address in [0x300usize, 0x100, 0x200] {
        tree.insert(address).unwrap();
    }
    assert_eq!(tree.iterate_ascending(), vec![0x100, 0x200, 0x300]);
    assert_eq!(tree.iterate_descending(), vec![0x300, 0x200, 0x100]);
    assert_eq!(tree.take_smallest(), Some(0x100));
    assert_eq!(tree.take_smallest(), Some(0x200));
    assert_eq!(tree.take_smallest(), Some(0x300));
    assert_eq!(tree.take_smallest(), None);
}

#[test]
fn empty_registry_has_nothing_to_hand_out() {
    let mut registry = Registry::new();
    for index in 0..16 {
        assert_eq!(registry.allocate(index), None);
        assert!(!registry.binary_search_tree_for(index).has_blocks());
    }
}

#[test]
fn buddies_coalesce_into_next_class() {
    let mut registry = Registry::new();
    assert_eq!(registry.deallocate(0x10080, 1), Ok((0x10080, 1)));
    assert_eq!(registry.deallocate(0x10000, 1), Ok((0x10000, 2)));
    assert!(!registry.binary_search_tree_for(1).has_blocks());
    assert_eq!(registry.binary_search_tree_for(2).iterate_ascending(), vec![0x10000]);
}

#[test]
fn adjacent_blocks_that_are_not_buddies_stay_apart() {
    let mut registry = Registry::new();
    assert_eq!(registry.deallocate(0x10080, 1), Ok((0x10080, 1)));
    assert_eq!(registry.deallocate(0x10100, 1), Ok((0x10100, 1)));
    assert_eq!(registry.binary_search_tree_for(1).iterate_ascending(), vec![0x10080, 0x10100]);
    assert!(!registry.binary_search_tree_for(2).has_blocks());
}

#[test]
fn coalescing_climbs_several_classes() {
    let mut registry = Registry::new();
    assert_eq!(registry.deallocate(0x20000, 0), Ok((0x20000, 0)));
    assert_eq!(registry.deallocate(0x20080, 1), Ok((0x20080, 1)));
    assert_eq!(registry.deallocate(0x20040, 0), Ok((0x20000, 2)));
    for index in 0..2 {
        assert!(!registry.binary_search_tree_for(index).has_blocks());
    }
    assert_eq!(registry.binary_search_tree_for(2).iterate_ascending(), vec![0x20000]);
}

#[test]
fn largest_class_never_coalesces() {
    let mut registry = Registry::new();
    assert_eq!(registry.deallocate(0, 15), Ok((0, 15)));
    assert_eq!(registry.deallocate(1 << 21, 15), Ok((1 << 21, 15)));
    assert_eq!(registry.binary_search_tree_for(15).iterate_ascending(), vec![0, 1 << 21]);
}

#[test]
fn double_release_is_an_invariant_violation() {
    let mut registry = Registry::new();
    assert_eq!(registry.deallocate(0x10080, 1), Ok((0x10080, 1)));
    assert_eq!(registry.deallocate(0x10080, 1), Err(AllocationError::InvariantViolation));
}

#[test]
fn allocate_then_deallocate_restores_free_blocks() {
    let mut registry = Registry::new();
    registry.deallocate(0x40000, 3).unwrap();
    registry.deallocate(0x40400, 3).unwrap();
    let before: Vec<Vec<usize>> = (0..16).map(|i| registry.binary_search_tree_for(i).iterate_ascending()).collect();
    let taken = registry.allocate(3).unwrap();
    assert_eq!(taken, 0x40000);
    assert_eq!(registry.deallocate(taken, 3), Ok((0x40000, 3)));
    let after: Vec<Vec<usize>> = (0..16).map(|i| registry.binary_search_tree_for(i).iterate_ascending()).collect();
    assert_eq!(before, after);
}

#[test]
fn releasing_a_whole_region_leaves_one_block() {
    let mut registry = Registry::new();
    registry.deallocate(0x7000, 3).unwrap();
    let region = 0x60000usize;
    for piece in 0..8 {
        registry.deallocate(region + piece * 64, 0).unwrap();
    }
    for index in 0..3 {
        assert!(!registry.binary_search_tree_for(index).has_blocks());
    }
    assert_eq!(registry.binary_search_tree_for(3).iterate_ascending(), vec![0x7000, region]);
    assert_eq!(registry.block_counts().iter().sum::<usize>(), 2);
}
