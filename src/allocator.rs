//! The allocator engine behind the standard allocation interface: requests
//! by size and alignment, served from the free-block registry. Fresh ranges
//! come from the memory source, which the caller drives.
use vstd::prelude::*;
use crate::error::AllocationError;
use crate::free_tree::{is_minimum, strictly_ascending};
use crate::numa::AllocatorConfiguration;
use crate::registry::{BinarySearchTreesWithCachedKnowledgeOfFirstChild, coalesce, released};
use crate::size_class::{block_size_of, is_round_up_class, lemma_block_size_bounds, max_spec, MAXIMUM_ALIGNMENT, MAXIMUM_ALLOCATION_SIZE, MINIMUM_ALIGNMENT, NUMBER_OF_BINARY_SEARCH_TREES};

verus! {

/// The size class that serves `size` bytes at `alignment`, or why none does.
pub open spec fn class_result_ok(size: usize, alignment: usize, r: Result<usize, AllocationError>) -> bool {
    &&& size > MAXIMUM_ALLOCATION_SIZE ==> r == Err::<usize, AllocationError>(AllocationError::SizeTooLarge)
    &&& size <= MAXIMUM_ALLOCATION_SIZE && alignment > MAXIMUM_ALIGNMENT ==> r == Err::<usize, AllocationError>(AllocationError::AlignmentTooLarge)
    &&& size <= MAXIMUM_ALLOCATION_SIZE && alignment <= MAXIMUM_ALIGNMENT ==> r is Ok && is_round_up_class(
        max_spec(size as nat, alignment as nat),
        r->Ok_0 as nat,
    )
}

/// What serving a request needs.
#[derive(Debug, Clone, Copy, PartialEq, Eq, Structural)]
pub enum AllocationStep {
    /// The free block at this address is handed out.
    Reuse(usize),
    /// The class holds no free block: a fresh block of `block_size` bytes
    /// for class `index` has to come from the memory source.
    Acquire { index: usize, block_size: usize },
}

/// What a reallocation needs.
#[derive(Debug, Clone, Copy, PartialEq, Eq, Structural)]
pub enum Reallocation {
    /// The block already serves the new size and stays where it is.
    InPlace(usize),
    /// A block of the new class was taken: the caller copies the live bytes
    /// to it and then releases the old block.
    Moved(AllocationStep),
}

/// The allocator engine: the free blocks of every class and the memory
/// source's configuration.
pub struct NumaAllocator {
    registry: BinarySearchTreesWithCachedKnowledgeOfFirstChild,
    configuration: AllocatorConfiguration,
}

impl View for NumaAllocator {
    type V = Seq<Set<usize>>;

    /// The free block addresses of each size class.
    closed spec fn view(&self) -> Seq<Set<usize>> {
        self.registry@
    }
}

impl NumaAllocator {
    /// The registry is well formed.
    pub closed spec fn wf(&self) -> bool {
        self.registry.wf()
    }

    /// The configuration handed to the memory source.
    pub closed spec fn configuration_spec(&self) -> AllocatorConfiguration {
        self.configuration
    }

    /// An engine with no free block.
    pub fn new(configuration: AllocatorConfiguration) -> (r: Self)
        ensures
            r.wf(),
            r@ == Seq::new(16, |i: int| Set::<usize>::empty()),
            r.configuration_spec() == configuration,
    {
        NumaAllocator { registry: BinarySearchTreesWithCachedKnowledgeOfFirstChild::new(), configuration }
    }

    /// The configuration handed to the memory source.
    pub fn configuration(&self) -> (r: AllocatorConfiguration)
        ensures
            r == self.configuration_spec(),
    {
        self.configuration
    }

    /// The size class that serves `size` bytes at `alignment`: sizes and
    /// alignments below the minimum, zero included, are floored to it.
    pub fn class_for(size: usize, alignment: usize) -> (r: Result<usize, AllocationError>)
        ensures
            class_result_ok(size, alignment, r),
    {
        if BinarySearchTreesWithCachedKnowledgeOfFirstChild::size_exceeds_maximum_allocation_size(size) {
            return Err(AllocationError::SizeTooLarge);
        }
        let floored_alignment = match BinarySearchTreesWithCachedKnowledgeOfFirstChild::round_up_alignment(alignment) {
            Err(e) => return Err(e),
            Ok(a) => a,
        };
        let needed = if size >= floored_alignment { size } else { floored_alignment };
        let r = BinarySearchTreesWithCachedKnowledgeOfFirstChild::round_up_to_class(needed);
        proof {
            lemma_block_size_bounds(0);
            let c = r->Ok_0 as nat;
            assert forall|j: nat| j < c implies #[trigger] block_size_of(j) < max_spec(size as nat, alignment as nat) by {
                assert(block_size_of(j) < needed);
            }
            if alignment < MINIMUM_ALIGNMENT {
                assert(block_size_of(c) >= MINIMUM_ALIGNMENT) by {
                    lemma_block_size_bounds(c);
                }
            }
        }
        r
    }

    /// Serves a request for `size` bytes at `alignment` from the lowest free
    /// block of its class, or says which fresh block is needed.
    pub fn allocate(&mut self, size: usize, alignment: usize) -> (r: Result<AllocationStep, AllocationError>)
        requires
            old(self).wf(),
        ensures
            final(self).wf(),
            final(self).configuration_spec() == old(self).configuration_spec(),
            r is Err ==> final(self)@ == old(self)@,
            match Self::class_for_spec(size, alignment) {
                Err(e) => r == Err::<AllocationStep, AllocationError>(e),
                Ok(index) => if old(self)@[index as int].is_empty() {
                    r == Ok::<AllocationStep, AllocationError>(AllocationStep::Acquire { index, block_size: block_size_of(index as nat) as usize })
                        && final(self)@ == old(self)@
                } else {
                    exists|a: usize| #[trigger] is_minimum(old(self)@[index as int], a)
                        && r == Ok::<AllocationStep, AllocationError>(AllocationStep::Reuse(a))
                        && final(self)@ == old(self)@.update(index as int, old(self)@[index as int].remove(a))
                },
            },
    {
        let index = match Self::class_for(size, alignment) {
            Err(e) => return Err(e),
            Ok(index) => index,
        };
        proof {
            Self::lemma_class_for_spec(size, alignment, Ok(index));
        }
        match self.registry.allocate(index) {
            Some(a) => Ok(AllocationStep::Reuse(a)),
            None => Ok(AllocationStep::Acquire {
                index,
                block_size: BinarySearchTreesWithCachedKnowledgeOfFirstChild::binary_search_tree_index_to_block_size(index),
            }),
        }
    }

    /// Releases the block at `address` that served `size` bytes at
    /// `alignment`, merging it with free buddies; returns the address and
    /// class of the free block that results.
    pub fn deallocate(&mut self, address: usize, size: usize, alignment: usize) -> (r: Result<(usize, usize), AllocationError>)
        requires
            old(self).wf(),
            address + MAXIMUM_ALLOCATION_SIZE <= usize::MAX,
        ensures
            final(self).wf(),
            final(self).configuration_spec() == old(self).configuration_spec(),
            match Self::class_for_spec(size, alignment) {
                Err(e) => r == Err::<(usize, usize), AllocationError>(e) && final(self)@ == old(self)@,
                Ok(index) => {
                    let (pre, a, c) = coalesce(old(self)@, address, index as nat);
                    &&& pre[c as int].contains(a) ==> r == Err::<(usize, usize), AllocationError>(AllocationError::InvariantViolation) && final(self)@ == pre
                    &&& !pre[c as int].contains(a) ==> r == Ok::<(usize, usize), AllocationError>((a, c as usize)) && final(self)@ == released(old(self)@, address, index as nat)
                },
            },
    {
        let index = match Self::class_for(size, alignment) {
            Err(e) => return Err(e),
            Ok(index) => index,
        };
        proof {
            Self::lemma_class_for_spec(size, alignment, Ok(index));
            lemma_block_size_bounds(index as nat);
        }
        self.registry.deallocate(address, index)
    }

    /// Resizes the block at `address` from `old_size` to `new_size` bytes at
    /// `alignment`: a block whose class already serves the new size stays in
    /// place (its tail is not released); a larger class is served as a fresh
    /// request, after which the caller copies and releases the old block.
    pub fn reallocate(&mut self, address: usize, old_size: usize, new_size: usize, alignment: usize) -> (r: Result<Reallocation, AllocationError>)
        requires
            old(self).wf(),
        ensures
            final(self).wf(),
            final(self).configuration_spec() == old(self).configuration_spec(),
            r is Err ==> final(self)@ == old(self)@,
            match (Self::class_for_spec(old_size, alignment), Self::class_for_spec(new_size, alignment)) {
                (Err(e), _) => r == Err::<Reallocation, AllocationError>(e),
                (Ok(_), Err(e)) => r == Err::<Reallocation, AllocationError>(e),
                (Ok(old_index), Ok(new_index)) => if new_index <= old_index {
                    r == Ok::<Reallocation, AllocationError>(Reallocation::InPlace(address)) && final(self)@ == old(self)@
                } else if old(self)@[new_index as int].is_empty() {
                    r == Ok::<Reallocation, AllocationError>(Reallocation::Moved(AllocationStep::Acquire { index: new_index, block_size: block_size_of(new_index as nat) as usize }))
                        && final(self)@ == old(self)@
                } else {
                    exists|a: usize| #[trigger] is_minimum(old(self)@[new_index as int], a)
                        && r == Ok::<Reallocation, AllocationError>(Reallocation::Moved(AllocationStep::Reuse(a)))
                        && final(self)@ == old(self)@.update(new_index as int, old(self)@[new_index as int].remove(a))
                },
            },
    {
        let old_index = match Self::class_for(old_size, alignment) {
            Err(e) => return Err(e),
            Ok(index) => index,
        };
        let new_index = match Self::class_for(new_size, alignment) {
            Err(e) => return Err(e),
            Ok(index) => index,
        };
        proof {
            Self::lemma_class_for_spec(old_size, alignment, Ok(old_index));
            Self::lemma_class_for_spec(new_size, alignment, Ok(new_index));
        }
        if new_index <= old_index {
            Ok(Reallocation::InPlace(address))
        } else {
            match self.allocate(new_size, alignment) {
                Err(e) => Err(e),
                Ok(step) => Ok(Reallocation::Moved(step)),
            }
        }
    }

    /// The block that the memory source gave for an `Acquire` step, or
    /// `OutOfMemory` when it gave none.
    pub fn fresh_block(acquired: Option<usize>) -> (r: Result<usize, AllocationError>)
        ensures
            acquired matches Some(a) ==> r == Ok::<usize, AllocationError>(a),
            acquired is None ==> r == Err::<usize, AllocationError>(AllocationError::OutOfMemory),
    {
        match acquired {
            Some(a) => Ok(a),
            None => Err(AllocationError::OutOfMemory),
        }
    }

    /// Does class `index` hold a free block?
    pub fn has_blocks(&self, index: usize) -> (r: bool)
        requires
            self.wf(),
            index < NUMBER_OF_BINARY_SEARCH_TREES,
        ensures
            r == !self@[index as int].is_empty(),
    {
        self.registry.binary_search_tree_for(index).has_blocks()
    }

    /// The lowest free block of class `index`, if any.
    pub fn cached_first_child(&self, index: usize) -> (r: Option<usize>)
        requires
            self.wf(),
            index < NUMBER_OF_BINARY_SEARCH_TREES,
        ensures
            r is None <==> self@[index as int].is_empty(),
            r matches Some(a) ==> is_minimum(self@[index as int], a),
    {
        self.registry.binary_search_tree_for(index).cached_first_child()
    }

    /// The number of free blocks of each class.
    pub fn block_counts(&self) -> (r: Vec<usize>)
        requires
            self.wf(),
        ensures
            r@.len() == 16,
            forall|i: int| 0 <= i < 16 ==> #[trigger] r@[i] == self@[i].len(),
    {
        self.registry.block_counts()
    }

    /// The free blocks of class `index` in ascending order of address.
    pub fn free_blocks(&self, index: usize) -> (r: Vec<usize>)
        requires
            self.wf(),
            index < NUMBER_OF_BINARY_SEARCH_TREES,
        ensures
            strictly_ascending(r@),
            forall|a: usize| #[trigger] r@.contains(a) <==> self@[index as int].contains(a),
    {
        self.registry.binary_search_tree_for(index).iterate_ascending()
    }

    /// The class that `class_for` returns, as a value.
    pub open spec fn class_for_spec(size: usize, alignment: usize) -> Result<usize, AllocationError> {
        if size > MAXIMUM_ALLOCATION_SIZE {
            Err(AllocationError::SizeTooLarge)
        } else if alignment > MAXIMUM_ALIGNMENT {
            Err(AllocationError::AlignmentTooLarge)
        } else {
            Ok((choose|c: nat| is_round_up_class(max_spec(size as nat, alignment as nat), c)) as usize)
        }
    }

    /// `class_for` returns `class_for_spec`: the round-up class is unique.
    pub proof fn lemma_class_for_spec(size: usize, alignment: usize, r: Result<usize, AllocationError>)
        requires
            class_result_ok(size, alignment, r),
        ensures
            r == Self::class_for_spec(size, alignment),
    {
        if size <= MAXIMUM_ALLOCATION_SIZE && alignment <= MAXIMUM_ALIGNMENT {
            let need = max_spec(size as nat, alignment as nat);
            let c = r->Ok_0 as nat;
            let d = choose|d: nat| is_round_up_class(need, d);
            assert(is_round_up_class(need, c));
            if d < c {
                assert(block_size_of(d) < need);
            } else if c < d {
                assert(block_size_of(c) < need);
            }
        }
    }
}

} // verus!
