use vstd::prelude::*;

verus! {

/// Everything that can go wrong inside the allocator engine.
#[derive(Debug, Clone, Copy, PartialEq, Eq, Structural)]
pub enum AllocationError {
    /// The requested size is above the largest size class.
    SizeTooLarge,
    /// The requested alignment is above the largest supported alignment.
    AlignmentTooLarge,
    /// An internal consistency failure, such as inserting a free block twice.
    InvariantViolation,
    /// The memory source could not supply a fresh range.
    OutOfMemory,
    /// A NUMA node outside the supported set was requested.
    UnsupportedNumaNode,
}

} // verus!
