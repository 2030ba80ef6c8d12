//! Size-class arithmetic: the mapping between request sizes, power-of-two
//! block sizes and the indices of the per-class free trees.
use vstd::prelude::*;
use vstd::arithmetic::power2::{pow2, lemma_pow2_unfold, lemma_pow2_strictly_increases, lemma_pow2_pos, lemma2_to64, lemma2_to64_rest};
use crate::error::AllocationError;
use crate::registry::BinarySearchTreesWithCachedKnowledgeOfFirstChild;

verus! {

/// Exponent of the smallest block size: a free-block node fits in 64 bytes.
pub const SMALLEST_INCLUSIVE_POWER_OF_TWO_EXPONENT: usize = 6;

/// Number of size classes, and so of free trees.
pub const NUMBER_OF_BINARY_SEARCH_TREES: usize = 16;

/// Smallest block size.
pub const MINIMUM_ALLOCATION_SIZE: usize = 64;

/// Largest block size: two to the power of the smallest exponent plus 15.
pub const MAXIMUM_ALLOCATION_SIZE: usize = 2097152;

/// Smallest alignment that a block gets.
pub const MINIMUM_ALIGNMENT: usize = 64;

/// Largest alignment that can be asked for.
pub const MAXIMUM_ALIGNMENT: usize = 2097152;

/// Block size of the size class `index`.
pub open spec fn block_size_of(index: nat) -> nat {
    pow2(SMALLEST_INCLUSIVE_POWER_OF_TWO_EXPONENT as nat + index)
}

/// `size` is the block size of one of the size classes.
pub open spec fn is_class_size(size: nat) -> bool {
    exists|i: nat| i < NUMBER_OF_BINARY_SEARCH_TREES && #[trigger] block_size_of(i) == size
}

/// The size class that a request of `size` bytes is served from: the
/// smallest class whose block size is at least `size` (so a request below
/// the minimum is floored to the first class).
pub open spec fn is_round_up_class(size: nat, index: nat) -> bool {
    &&& index < NUMBER_OF_BINARY_SEARCH_TREES
    &&& size <= block_size_of(index)
    &&& forall|j: nat| j < index ==> #[trigger] block_size_of(j) < size
}

/// The larger of two numbers.
pub open spec fn max_spec(a: nat, b: nat) -> nat {
    if a >= b { a } else { b }
}

/// Block sizes grow strictly with the class index.
pub proof fn lemma_block_size_strictly_increases(i: nat, j: nat)
    requires
        i < j,
    ensures
        block_size_of(i) < block_size_of(j),
{
    lemma_pow2_strictly_increases(6 + i, 6 + j);
}

/// The next class holds blocks twice as large.
pub proof fn lemma_block_size_doubles(i: nat)
    ensures
        block_size_of(i + 1) == 2 * block_size_of(i),
{
    lemma_pow2_unfold(6 + i + 1);
    assert(6 + (i + 1) - 1 == 6 + i);
}

/// The first and the last block sizes.
pub proof fn lemma_block_size_bounds(i: nat)
    requires
        i < NUMBER_OF_BINARY_SEARCH_TREES,
    ensures
        MINIMUM_ALLOCATION_SIZE <= block_size_of(i) <= MAXIMUM_ALLOCATION_SIZE,
        block_size_of(0) == MINIMUM_ALLOCATION_SIZE,
        block_size_of(15) == MAXIMUM_ALLOCATION_SIZE,
{
    lemma2_to64();
    if i > 0 {
        lemma_block_size_strictly_increases(0, i);
    }
    if i < 15 {
        lemma_block_size_strictly_increases(i, 15);
    }
}

impl BinarySearchTreesWithCachedKnowledgeOfFirstChild {
    /// The base-2 logarithm of `value`, rounded down.
    pub fn logarithm_base2(value: usize) -> (r: usize)
        requires
            value > 0,
        ensures
            r < 64,
            pow2(r as nat) <= value < pow2(r as nat + 1),
    {
        let (exponent, _power) = Self::floor_power_of_two(value);
        exponent
    }

    /// The largest power of two that is at most `value`, with its exponent.
    fn floor_power_of_two(value: usize) -> (r: (usize, usize))
        requires
            value > 0,
        ensures
            r.0 < 64,
            r.1 == pow2(r.0 as nat),
            pow2(r.0 as nat) <= value < pow2(r.0 as nat + 1),
    {
        let mut remaining: usize = value;
        let mut exponent: usize = 0;
        let mut power: usize = 1;
        proof {
            lemma2_to64();
            lemma2_to64_rest();
        }
        while remaining > 1
            invariant
                remaining >= 1,
                exponent < 64,
                power == pow2(exponent as nat),
                pow2(exponent as nat) * remaining <= value,
                value < pow2(exponent as nat) * (remaining + 1),
                pow2(exponent as nat) * remaining <= usize::MAX,
            decreases remaining,
        {
            let half: usize = remaining / 2;
            proof {
                let p = pow2(exponent as nat);
                lemma_pow2_unfold(exponent as nat + 1);
                lemma_pow2_pos(exponent as nat);
                assert(pow2(exponent as nat + 1) == 2 * p);
                assert(2 * p * half <= p * remaining) by (nonlinear_arith)
                    requires
                        half == remaining / 2,
                        p > 0,
                ;
                assert(p * (remaining + 1) <= 2 * p * (half + 1)) by (nonlinear_arith)
                    requires
                        half == remaining / 2,
                        p > 0,
                ;
                assert(p * 2 <= p * remaining) by (nonlinear_arith)
                    requires
                        remaining >= 2,
                        p > 0,
                ;
                if exponent + 1 >= 64 {
                    lemma2_to64_rest();
                    if exponent + 1 > 64 {
                        lemma_pow2_strictly_increases(64, exponent as nat + 1);
                    }
                    assert(false);
                }
            }
            remaining = half;
            power = power * 2;
            exponent = exponent + 1;
        }
        proof {
            lemma_pow2_unfold(exponent as nat + 1);
            assert(remaining == 1);
            assert(pow2(exponent as nat) * 1 == pow2(exponent as nat));
            assert(pow2(exponent as nat) * 2 == pow2(exponent as nat + 1));
        }
        (exponent, power)
    }

    /// The index of the free tree that holds blocks of `block_size` bytes.
    pub fn binary_search_tree_index(block_size: usize) -> (r: usize)
        requires
            is_class_size(block_size as nat),
        ensures
            r < NUMBER_OF_BINARY_SEARCH_TREES,
            block_size_of(r as nat) == block_size,
    {
        let ghost i = choose|i: nat| i < NUMBER_OF_BINARY_SEARCH_TREES && #[trigger] block_size_of(i) == block_size;
        proof {
            lemma_block_size_bounds(i);
        }
        let power_of_two_exponent = Self::logarithm_base2(block_size);
        proof {
            let e = power_of_two_exponent as nat;
            let f = 6 + i;
            if e < f {
                if e + 1 < f {
                    lemma_pow2_strictly_increases(e + 1, f);
                }
            } else if e > f {
                lemma_pow2_strictly_increases(f, e);
            }
            assert(e == f);
        }
        power_of_two_exponent - SMALLEST_INCLUSIVE_POWER_OF_TWO_EXPONENT
    }

    /// The power-of-two exponent of the blocks of the free tree `index`.
    pub fn binary_search_tree_index_to_power_of_two_exponent(index: usize) -> (r: usize)
        requires
            index < NUMBER_OF_BINARY_SEARCH_TREES,
        ensures
            r == SMALLEST_INCLUSIVE_POWER_OF_TWO_EXPONENT + index,
    {
        SMALLEST_INCLUSIVE_POWER_OF_TWO_EXPONENT + index
    }

    /// The block size of the free tree `index`.
    pub fn binary_search_tree_index_to_block_size(index: usize) -> (r: usize)
        requires
            index < NUMBER_OF_BINARY_SEARCH_TREES,
        ensures
            r == block_size_of(index as nat),
    {
        let mut block_size: usize = MINIMUM_ALLOCATION_SIZE;
        let mut i: usize = 0;
        proof {
            lemma_block_size_bounds(0);
        }
        while i < index
            invariant
                i <= index < NUMBER_OF_BINARY_SEARCH_TREES,
                block_size == block_size_of(i as nat),
            decreases index - i,
        {
            proof {
                lemma_block_size_doubles(i as nat);
                lemma_block_size_bounds(i as nat + 1);
            }
            block_size = block_size * 2;
            i = i + 1;
        }
        block_size
    }

    /// Is `size` below the smallest block size?
    pub fn size_is_less_than_minimum_allocation_size(size: usize) -> (r: bool)
        ensures
            r == (size < MINIMUM_ALLOCATION_SIZE),
    {
        size < MINIMUM_ALLOCATION_SIZE
    }

    /// Is `size` at least the smallest block size?
    pub fn size_is_greater_than_minimum_allocation_size(size: usize) -> (r: bool)
        ensures
            r == (size >= MINIMUM_ALLOCATION_SIZE),
    {
        size >= MINIMUM_ALLOCATION_SIZE
    }

    /// Is `size` above the largest block size?
    pub fn size_exceeds_maximum_allocation_size(size: usize) -> (r: bool)
        ensures
            r == (size > MAXIMUM_ALLOCATION_SIZE),
    {
        size > MAXIMUM_ALLOCATION_SIZE
    }

    /// Is `alignment` above the largest supported alignment?
    pub fn alignment_exceeds_maximum_alignment(alignment: usize) -> (r: bool)
        ensures
            r == (alignment > MAXIMUM_ALIGNMENT),
    {
        alignment > MAXIMUM_ALIGNMENT
    }

    /// `size`, raised to the smallest block size.
    pub fn floor_size_to_minimum(size: usize) -> (r: usize)
        ensures
            r == max_spec(size as nat, MINIMUM_ALLOCATION_SIZE as nat),
    {
        if size >= MINIMUM_ALLOCATION_SIZE {
            size
        } else {
            MINIMUM_ALLOCATION_SIZE
        }
    }

    /// `alignment`, raised to the smallest alignment.
    pub fn floor_alignment_to_minimum(alignment: usize) -> (r: usize)
        ensures
            r == max_spec(alignment as nat, MINIMUM_ALIGNMENT as nat),
    {
        if alignment >= MINIMUM_ALIGNMENT {
            alignment
        } else {
            MINIMUM_ALIGNMENT
        }
    }

    /// The largest power of two that divides `difference`.
    pub fn smallest_power_of_two_difference(difference: usize) -> (r: usize)
        requires
            difference >= MINIMUM_ALLOCATION_SIZE,
        ensures
            exists|k: nat| k < 64 && r == pow2(k),
            r > 0,
            difference % r == 0,
            (difference / r) % 2 == 1,
    {
        let mut power: usize = 1;
        let mut exponent: usize = 0;
        let mut quotient: usize = difference;
        proof {
            lemma2_to64();
            lemma2_to64_rest();
        }
        while quotient % 2 == 0
            invariant
                exponent < 64,
                power == pow2(exponent as nat),
                quotient >= 1,
                power * quotient == difference,
            decreases quotient,
        {
            proof {
                lemma_pow2_unfold(exponent as nat + 1);
                lemma_pow2_pos(exponent as nat);
                assert(power * 2 * (quotient / 2) == difference) by (nonlinear_arith)
                    requires
                        quotient % 2 == 0,
                        power * quotient == difference,
                ;
                assert(power * 2 <= difference) by (nonlinear_arith)
                    requires
                        quotient >= 2,
                        power * quotient == difference,
                        power > 0,
                ;
                if exponent + 1 >= 64 {
                    lemma2_to64_rest();
                    if exponent + 1 > 64 {
                        lemma_pow2_strictly_increases(64, exponent as nat + 1);
                    }
                    assert(false);
                }
            }
            power = power * 2;
            quotient = quotient / 2;
            exponent = exponent + 1;
        }
        proof {
            lemma_pow2_pos(exponent as nat);
            assert(difference % power == 0 && difference / power == quotient) by (nonlinear_arith)
                requires
                    power * quotient == difference,
                    power > 0,
            ;
        }
        power
    }

    /// The largest power of two that is at most `difference`.
    pub fn largest_power_of_two_difference(difference: usize) -> (r: usize)
        requires
            difference >= MINIMUM_ALLOCATION_SIZE,
        ensures
            exists|k: nat| k < 64 && r == pow2(k),
            r <= difference < 2 * r,
    {
        let (shift, power) = Self::floor_power_of_two(difference);
        proof {
            lemma_pow2_unfold(shift as nat + 1);
        }
        power
    }

    /// The size class that serves a request of `size` bytes; a request below
    /// the smallest block size, zero included, is floored to the first class.
    pub fn round_up_to_class(size: usize) -> (r: Result<usize, AllocationError>)
        ensures
            size > MAXIMUM_ALLOCATION_SIZE <==> r == Err::<usize, AllocationError>(AllocationError::SizeTooLarge),
            size <= MAXIMUM_ALLOCATION_SIZE ==> (r is Ok && is_round_up_class(size as nat, r->Ok_0 as nat)),
    {
        if Self::size_exceeds_maximum_allocation_size(size) {
            return Err(AllocationError::SizeTooLarge);
        }
        let mut index: usize = 0;
        let mut block_size: usize = MINIMUM_ALLOCATION_SIZE;
        proof {
            lemma_block_size_bounds(0);
        }
        while block_size < size
            invariant
                size <= MAXIMUM_ALLOCATION_SIZE,
                index < NUMBER_OF_BINARY_SEARCH_TREES,
                block_size == block_size_of(index as nat),
                forall|j: nat| j < index ==> #[trigger] block_size_of(j) < size,
            decreases NUMBER_OF_BINARY_SEARCH_TREES - index,
        {
            proof {
                lemma_block_size_bounds(index as nat);
                if index == 15 {
                    assert(false);
                }
                lemma_block_size_doubles(index as nat);
                assert forall|j: nat| j < index + 1 implies #[trigger] block_size_of(j) < size by {
                    if j < index {
                    }
                }
            }
            block_size = block_size * 2;
            index = index + 1;
        }
        Ok(index)
    }

    /// The alignment that a request for `alignment` is served with, floored
    /// to the smallest alignment.
    pub fn round_up_alignment(alignment: usize) -> (r: Result<usize, AllocationError>)
        ensures
            alignment > MAXIMUM_ALIGNMENT <==> r == Err::<usize, AllocationError>(AllocationError::AlignmentTooLarge),
            alignment <= MAXIMUM_ALIGNMENT ==> r == Ok::<usize, AllocationError>(max_spec(alignment as nat, MINIMUM_ALIGNMENT as nat) as usize),
    {
        if Self::alignment_exceeds_maximum_alignment(alignment) {
            Err(AllocationError::AlignmentTooLarge)
        } else {
            Ok(Self::floor_alignment_to_minimum(alignment))
        }
    }
}

/// Rounding a size up to its class and mapping the class back to its block
/// size gives the smallest block size that holds the request.
pub proof fn lemma_round_up_is_smallest_fitting_class(size: nat, index: nat)
    requires
        1 <= size <= MAXIMUM_ALLOCATION_SIZE,
        is_round_up_class(size, index),
    ensures
        block_size_of(index) >= size,
        forall|j: nat| j < NUMBER_OF_BINARY_SEARCH_TREES && #[trigger] block_size_of(j) >= size ==> index <= j,
{
}

} // verus!
