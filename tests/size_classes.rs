use numa_alloc::error::AllocationError;
use numa_alloc::registry::BinarySearchTreesWithCachedKnowledgeOfFirstChild as Registry;
use numa_alloc::size_class::{MAXIMUM_ALLOCATION_SIZE, MINIMUM_ALLOCATION_SIZE, NUMBER_OF_BINARY_SEARCH_TREES};

#[test]
fn logarithm_rounds_down() {
    assert_eq!(Registry::logarithm_base2(1), 0);
    assert_eq!(Registry::logarithm_base2(64), 6);
    assert_eq!(Registry::logarithm_base2(127), 6);
    assert_eq!(Registry::logarithm_base2(128), 7);
    assert_eq!(Registry::logarithm_base2(usize::MAX), usize::BITS as usize - 1);
}

#[test]
fn class_index_and_block_size_are_inverse() {
    assert_eq!(MINIMUM_ALLOCATION_SIZE, 64);
    assert_eq!(MAXIMUM_ALLOCATION_SIZE, 1 << 21);
    for index in 0..NUMBER_OF_BINARY_SEARCH_TREES {
        let size = Registry::binary_search_tree_index_to_block_size(index);
        assert_eq!(size, 64 << index);
        assert_eq!(Registry::binary_search_tree_index(size), index);
        assert_eq!(Registry::binary_search_tree_index_to_power_of_two_exponent(index), 6 + index);
    }
}

#[test]
fn every_size_rounds_to_smallest_fitting_class() {
    let mut size: usize = 1;
    while size <= MAXIMUM_ALLOCATION_SIZE {
        let index = Registry::round_up_to_class(size).unwrap();
        let block = Registry::binary_search_tree_index_to_block_size(index);
        assert!(block >= size);
        if index > 0 {
            assert!(Registry::binary_search_tree_index_to_block_size(index - 1) < size);
        }
        size += 1;
    }
}

#[test]
fn size_seventy_rounds_to_one_hundred_twenty_eight() {
    let index = Registry::round_up_to_class(70).unwrap();
    assert_eq!(index, 1);
    assert_eq!(Registry::binary_search_tree_index_to_block_size(index), 128);
}

#[test]
fn size_above_maximum_is_rejected() {
    assert_eq!(Registry::round_up_to_class(MAXIMUM_ALLOCATION_SIZE + 1), Err(AllocationError::SizeTooLarge));
    assert_eq!(Registry::round_up_to_class(MAXIMUM_ALLOCATION_SIZE), Ok(15));
}

#[test]
fn zero_size_is_floored_to_minimum_class() {
    assert_eq!(Registry::round_up_to_class(0), Ok(0));
    assert_eq!(Registry::floor_size_to_minimum(0), 64);
}

#[test]
fn alignment_rounding() {
    assert_eq!(Registry::round_up_alignment(8), Ok(64));
    assert_eq!(Registry::round_up_alignment(4096), Ok(4096));
    assert_eq!(Registry::round_up_alignment(MAXIMUM_ALLOCATION_SIZE * 2), Err(AllocationError::AlignmentTooLarge));
    assert!(Registry::alignment_exceeds_maximum_alignment(MAXIMUM_ALLOCATION_SIZE + 1));
    assert!(!Registry::alignment_exceeds_maximum_alignment(MAXIMUM_ALLOCATION_SIZE));
    assert_eq!(Registry::floor_alignment_to_minimum(2), 64);
    assert_eq!(Registry::floor_alignment_to_minimum(128), 128);
}

#[test]
fn size_comparisons() {
    assert!(Registry::size_is_less_than_minimum_allocation_size(63));
    assert!(!Registry::size_is_less_than_minimum_allocation_size(64));
    assert!(Registry::size_is_greater_than_minimum_allocation_size(64));
    assert!(!Registry::size_is_greater_than_minimum_allocation_size(63));
    assert!(Registry::size_exceeds_maximum_allocation_size(MAXIMUM_ALLOCATION_SIZE + 1));
    assert!(!Registry::size_exceeds_maximum_allocation_size(MAXIMUM_ALLOCATION_SIZE));
}

#[test]
fn power_of_two_differences() {
    assert_eq!(Registry::smallest_power_of_two_difference(192), 64);
    assert_eq!(Registry::smallest_power_of_two_difference(4096), 4096);
    assert_eq!(Registry::smallest_power_of_two_difference(65), 1);
    assert_eq!(Registry::largest_power_of_two_difference(192), 128);
    assert_eq!(Registry::largest_power_of_two_difference(4096), 4096);
    assert_eq!(Registry::largest_power_of_two_difference(65), 64);
}
