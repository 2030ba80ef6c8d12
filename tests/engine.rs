use numa_alloc::allocator::{AllocationStep, NumaAllocator, Reallocation};
use numa_alloc::error::AllocationError;
use numa_alloc::numa::{AllocatorConfiguration, HugePageSize, NumaAllocationPolicy, NumaNodeBitSet, NumaSettings};

fn local() -> AllocatorConfiguration {
    AllocatorConfiguration::select(false, None).unwrap()
}

#[test]
fn request_of_seventy_bytes_uses_class_of_128() {
    let mut engine = NumaAllocator::new(local());
    assert_eq!(NumaAllocator::class_for(70, 8), Ok(1));
    assert_eq!(engine.allocate(70, 8), Ok(AllocationStep::Acquire { index: 1, block_size: 128 }));
    assert_eq!(NumaAllocator::class_for(10, 256), Ok(2));
    assert_eq!(NumaAllocator::class_for(0, 1), Ok(0));
}

#[test]
fn two_requests_freed_in_reverse_order_coalesce_when_buddies() {
    let mut engine = NumaAllocator::new(local());
    let step = AllocationStep::Acquire { index: 1, block_size: 128 };
    assert_eq!(engine.allocate(70, 8), Ok(step));
    let first = NumaAllocator::fresh_block(Some(0x80000)).unwrap();
    assert_eq!(engine.allocate(70, 8), Ok(step));
    let second = NumaAllocator::fresh_block(Some(0x80080)).unwrap();
    assert_eq!(engine.deallocate(second, 70, 8), Ok((second, 1)));
    assert_eq!(engine.deallocate(first, 70, 8), Ok((first, 2)));
    assert_eq!(engine.free_blocks(1), Vec::<usize>::new());
    assert_eq!(engine.free_blocks(2), vec![first]);
    assert_eq!(engine.allocate(200, 64), Ok(AllocationStep::Reuse(first)));
    assert!(!engine.has_blocks(2));
}

#[test]
fn two_requests_freed_that_are_not_buddies_stay_apart() {
    let mut engine = NumaAllocator::new(local());
    let first = 0x80080usize;
    let second = first + 128;
    assert_eq!(engine.deallocate(second, 70, 8), Ok((second, 1)));
    assert_eq!(engine.deallocate(first, 70, 8), Ok((first, 1)));
    assert_eq!(engine.free_blocks(1), vec![first, second]);
    assert_eq!(engine.cached_first_child(1), Some(first));
}

#[test]
fn oversized_requests_are_rejected() {
    let mut engine = NumaAllocator::new(local());
    assert_eq!(engine.allocate((1 << 21) + 1, 8), Err(AllocationError::SizeTooLarge));
    assert_eq!(engine.allocate(64, 1 << 22), Err(AllocationError::AlignmentTooLarge));
    assert_eq!(engine.deallocate(0x1000, (1 << 21) + 1, 8), Err(AllocationError::SizeTooLarge));
}

#[test]
fn reallocation_in_place_and_moved() {
    let mut engine = NumaAllocator::new(local());
    assert_eq!(engine.reallocate(0x1000, 100, 60, 8), Ok(Reallocation::InPlace(0x1000)));
    assert_eq!(engine.reallocate(0x1000, 100, 128, 8), Ok(Reallocation::InPlace(0x1000)));
    assert_eq!(
        engine.reallocate(0x1000, 100, 129, 8),
        Ok(Reallocation::Moved(AllocationStep::Acquire { index: 2, block_size: 256 }))
    );
    engine.deallocate(0x4000, 256, 8).unwrap();
    assert_eq!(engine.reallocate(0x1000, 100, 200, 8), Ok(Reallocation::Moved(AllocationStep::Reuse(0x4000))));
    assert_eq!(engine.reallocate(0x1000, 100, 1 << 22, 8), Err(AllocationError::SizeTooLarge));
}

#[test]
fn memory_source_exhaustion_is_out_of_memory() {
    assert_eq!(NumaAllocator::fresh_block(None), Err(AllocationError::OutOfMemory));
    assert_eq!(NumaAllocator::fresh_block(Some(0x2000)), Ok(0x2000));
}

#[test]
fn node_two_is_unsupported() {
    assert_eq!(AllocatorConfiguration::select(false, Some(2)), Err(AllocationError::UnsupportedNumaNode));
    assert_eq!(AllocatorConfiguration::select(true, Some(7)), Err(AllocationError::UnsupportedNumaNode));
}

#[test]
fn configurations_for_nodes_and_huge_pages() {
    let local = AllocatorConfiguration::select(true, None).unwrap();
    assert_eq!(local.huge_page, HugePageSize::Default);
    assert_eq!(local.numa_policy, NumaAllocationPolicy::Local);
    let settings = local.numa_settings();
    assert_eq!((settings.mbind_mode, settings.mbind_nodemask, settings.mbind_maxnode, settings.mbind_flags), (4, None, 0, 3));

    let node_one = AllocatorConfiguration::select(false, Some(1)).unwrap();
    assert_eq!(node_one.huge_page, HugePageSize::Standard);
    let settings = node_one.numa_settings();
    assert_eq!(settings.mbind_mode, 1 | 32768);
    assert_eq!(settings.mbind_nodemask, Some(2));
    assert_eq!(settings.mbind_maxnode, 2);

    let node_zero = AllocatorConfiguration::select(false, Some(0)).unwrap();
    assert_eq!(node_zero.numa_settings().mbind_nodemask, Some(1));
    assert_eq!(NumaAllocator::new(node_zero).configuration(), node_zero);
}

#[test]
fn node_bit_set_operations() {
    let mut set = NumaNodeBitSet::new();
    assert!(set.is_empty());
    assert_eq!(set.mask_and_size(), (0, None, 0));
    set.insert_numa_node(0);
    set.insert_numa_node(3);
    assert_eq!(set.bits, 0b1001);
    set.remove_numa_node(0);
    assert_eq!(set.bits, 0b1000);
    assert_eq!(set.mask_and_size(), (0, Some(0b1000), 2));
    let mut both = NumaNodeBitSet::new_static();
    both.relative_nodes = true;
    both.insert_numa_node(1);
    assert_eq!(both.mask_and_size(), (49152, Some(2), 2));
    let relative = set.new_relative();
    assert!(relative.relative_nodes && !relative.static_nodes && relative.is_empty());
}

#[test]
fn settings_from_policies() {
    let strict = NumaSettings::new(NumaAllocationPolicy::Local, true);
    assert_eq!(strict, NumaSettings { mbind_mode: 4, mbind_nodemask: None, mbind_maxnode: 0, mbind_flags: 3 });
    let mut set = NumaNodeBitSet::new_static();
    set.insert_numa_node(1);
    let bind = NumaSettings::new(NumaAllocationPolicy::Bind(set), false);
    assert_eq!(bind, NumaSettings { mbind_mode: 2 | 32768, mbind_nodemask: Some(2), mbind_maxnode: 2, mbind_flags: 0 });
    assert_eq!(NumaSettings::mbind_flags(true), 3);
    assert_eq!(NumaSettings::mbind_flags(false), 0);
    assert_eq!(bind.post_allocate(0), Ok(()));
    assert_eq!(bind.post_allocate(-22), Err(()));
    assert_eq!(NumaAllocationPolicy::Default.values(), (0, (0, None, 0)));
    assert_eq!(NumaAllocationPolicy::Interleave(set).values(), (3, (32768, Some(2), 2)));
}

#[test]
fn block_counts_per_class() {
    let mut engine = NumaAllocator::new(local());
    engine.deallocate(0x100000, 64, 8).unwrap();
    engine.deallocate(0x200000, 4096, 8).unwrap();
    engine.deallocate(0x300000, 4096, 8).unwrap();
    let counts = engine.block_counts();
    assert_eq!(counts.len(), 16);
    assert_eq!(counts[0], 1);
    assert_eq!(counts[6], 2);
    assert_eq!(counts.iter().sum::<usize>(), 3);
}
