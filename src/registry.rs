//! The free-block registry: one ordered free tree per size class, with
//! coalescing of buddies into the next class on release.
use vstd::prelude::*;
use vstd::arithmetic::power2::{pow2, lemma_pow2_unfold, lemma_pow2_adds, lemma_pow2_pos, lemma2_to64};
use vstd::arithmetic::div_mod::lemma_fundamental_div_mod_converse;
use crate::error::AllocationError;
use crate::free_tree::{BinarySearchTreeWithCachedKnowledgeOfFirstChild, is_minimum};
use crate::size_class::{block_size_of, lemma_block_size_bounds, lemma_block_size_doubles, NUMBER_OF_BINARY_SEARCH_TREES};

verus! {

/// Index of the largest size class, whose blocks are never coalesced.
pub const LARGEST_INCLUSIVE_BINARY_SEARCH_TREE_INDEX: usize = 15;

/// The buddy of the block at `address` in class `index`: the neighbour of the
/// same size with which it forms a block of the next class, the following
/// block when `address` is an even number of blocks in, else the preceding.
pub open spec fn buddy_of(address: usize, index: nat) -> usize {
    let size = block_size_of(index) as int;
    if (address as int / size) % 2 == 0 {
        (address + size) as usize
    } else {
        (address - size) as usize
    }
}

/// The lower of two addresses.
pub open spec fn min_address(a: usize, b: usize) -> usize {
    if a <= b { a } else { b }
}

/// Releasing the block at `address` in class `index` against the free sets
/// `free`: while the buddy is free (below the largest class), it is taken out
/// of its set and the two become one block of the next class. The result is
/// the free sets after those removals, and the address and class of the
/// block that is then to be inserted.
pub open spec fn coalesce(free: Seq<Set<usize>>, address: usize, index: nat) -> (Seq<Set<usize>>, usize, nat)
    decreases 16 - index,
{
    if index < 15 && free[index as int].contains(buddy_of(address, index)) {
        let buddy = buddy_of(address, index);
        coalesce(
            free.update(index as int, free[index as int].remove(buddy)),
            min_address(address, buddy),
            index + 1,
        )
    } else {
        (free, address, index)
    }
}

/// The free sets after releasing the block at `address` in class `index`,
/// when that release succeeds.
pub open spec fn released(free: Seq<Set<usize>>, address: usize, index: nat) -> Seq<Set<usize>> {
    let (pre, a, c) = coalesce(free, address, index);
    pre.update(c as int, pre[c as int].insert(a))
}

/// Well-formed free sets: sixteen classes, every block ends within the
/// address space, and no block below the largest class has its buddy free
/// beside it in the same class.
pub open spec fn free_sets_wf(free: Seq<Set<usize>>) -> bool {
    &&& free.len() == 16
    &&& forall|c: int, a: usize| 0 <= c < 16 && #[trigger] free[c].contains(a) ==> a + block_size_of(c as nat) <= usize::MAX
    &&& forall|c: int, a: usize| 0 <= c < 15 && #[trigger] free[c].contains(a) ==> !free[c].contains(buddy_of(a, c as nat))
}

proof fn lemma_block_size_positive(index: nat)
    ensures
        block_size_of(index) > 0,
{
    lemma_pow2_pos(6 + index);
}

/// The buddy relation is symmetric.
pub proof fn lemma_buddy_symmetric(address: usize, index: nat)
    requires
        index < 16,
        address + block_size_of(index) <= usize::MAX,
    ensures
        buddy_of(buddy_of(address, index), index) == address,
        buddy_of(address, index) != address,
{
    let s = block_size_of(index) as int;
    lemma_block_size_bounds(index);
    let q = address as int / s;
    if q % 2 == 0 {
        assert((address as int + s) / s == q + 1) by (nonlinear_arith)
            requires
                q == address as int / s,
                s > 0,
        ;
    } else {
        assert(address as int >= s) by (nonlinear_arith)
            requires
                q == address as int / s,
                q % 2 == 1,
                s > 0,
                address >= 0,
        ;
        assert((address as int - s) / s == q - 1) by (nonlinear_arith)
            requires
                q == address as int / s,
                s > 0,
        ;
    }
}

/// Taking a free block out of its class and releasing it again at once
/// succeeds and gives back exactly the free sets that were there before.
pub proof fn lemma_allocate_then_deallocate_restores(free: Seq<Set<usize>>, index: nat, address: usize)
    requires
        free_sets_wf(free),
        index < 16,
        free[index as int].contains(address),
    ensures
        ({
            let taken = free.update(index as int, free[index as int].remove(address));
            let (pre, a, c) = coalesce(taken, address, index);
            &&& !pre[c as int].contains(a)
            &&& released(taken, address, index) == free
        }),
{
    let taken = free.update(index as int, free[index as int].remove(address));
    if index < 15 {
        assert(!taken[index as int].contains(buddy_of(address, index)));
    }
    assert(coalesce(taken, address, index) == (taken, address, index));
    assert(taken.update(index as int, taken[index as int].insert(address)) =~= free);
}

/// Releasing both halves of a block of the next class, when neither half
/// nor the joined block is free yet and the joined block's own buddy is not
/// free, leaves exactly one new free block: the joined one, one class up.
pub proof fn lemma_released_buddies_coalesce(free: Seq<Set<usize>>, index: nat, address: usize)
    requires
        free_sets_wf(free),
        index < 15,
        address + block_size_of(index) <= usize::MAX,
        buddy_of(address, index) + block_size_of(index) <= usize::MAX,
        !free[index as int].contains(address),
        !free[index as int].contains(buddy_of(address, index)),
        !free[(index + 1) as int].contains(min_address(address, buddy_of(address, index))),
        index + 1 == 15 || !free[(index + 1) as int].contains(
            buddy_of(min_address(address, buddy_of(address, index)), index + 1),
        ),
    ensures
        ({
            let buddy = buddy_of(address, index);
            let first = released(free, address, index);
            let (pre, a, c) = coalesce(first, buddy, index);
            &&& !first[index as int].contains(buddy)
            &&& !pre[c as int].contains(a)
            &&& released(first, buddy, index) == free.update((index + 1) as int, free[(index + 1) as int].insert(min_address(address, buddy)))
        }),
{
    let buddy = buddy_of(address, index);
    let joined = min_address(address, buddy);
    lemma_buddy_symmetric(address, index);
    assert(coalesce(free, address, index) == (free, address, index));
    let first = free.update(index as int, free[index as int].insert(address));
    assert(released(free, address, index) == first);
    let second = first.update(index as int, first[index as int].remove(address));
    assert(second[index as int] =~= free[index as int]);
    assert(second =~= free);
    assert(coalesce(second, joined, index + 1) == (second, joined, index + 1));
    assert(coalesce(first, buddy, index) == coalesce(second, min_address(buddy, address), index + 1));
    assert(min_address(buddy, address) == joined);
}

/// What coalescing keeps: the free sets stay well formed and only lose
/// blocks, the block to insert ends within the address space, and it is in
/// the largest class or its buddy is not free.
pub proof fn lemma_coalesce_keeps_wf(free: Seq<Set<usize>>, address: usize, index: nat)
    requires
        free_sets_wf(free),
        index < 16,
        address + block_size_of(index) <= usize::MAX,
    ensures
        ({
            let (pre, a, c) = coalesce(free, address, index);
            &&& free_sets_wf(pre)
            &&& index <= c < 16
            &&& a + block_size_of(c) <= usize::MAX
            &&& (c == 15 || !pre[c as int].contains(buddy_of(a, c)))
            &&& forall|k: int, x: usize| 0 <= k < 16 && #[trigger] pre[k].contains(x) ==> free[k].contains(x)
        }),
    decreases 16 - index,
{
    if index < 15 && free[index as int].contains(buddy_of(address, index)) {
        let buddy = buddy_of(address, index);
        let next = free.update(index as int, free[index as int].remove(buddy));
        lemma_buddy_symmetric(address, index);
        lemma_block_size_doubles(index);
        lemma_block_size_bounds(index);
        assert(free_sets_wf(next));
        lemma_coalesce_keeps_wf(next, min_address(address, buddy), index + 1);
    }
}

/// A successful release leaves well-formed free sets: no block of a class
/// below the largest is left beside a free buddy of the same class.
pub proof fn lemma_release_keeps_wf(free: Seq<Set<usize>>, address: usize, index: nat)
    requires
        free_sets_wf(free),
        index < 16,
        address + block_size_of(index) <= usize::MAX,
        !coalesce(free, address, index).0[coalesce(free, address, index).2 as int].contains(coalesce(free, address, index).1),
    ensures
        free_sets_wf(released(free, address, index)),
{
    lemma_coalesce_keeps_wf(free, address, index);
    let (pre, a, c) = coalesce(free, address, index);
    let after = released(free, address, index);
    assert forall|k: int, b: usize| 0 <= k < 15 && #[trigger] after[k].contains(b) implies !after[k].contains(buddy_of(b, k as nat)) by {
        if k == c {
            if b == a {
                lemma_buddy_symmetric(a, c);
            } else if buddy_of(b, k as nat) == a {
                lemma_buddy_symmetric(b, k as nat);
            }
        }
    }
}

/// Releasing `count` consecutive blocks of class `index`, the first at
/// `address`, one after the other in ascending order.
pub open spec fn release_run(free: Seq<Set<usize>>, address: usize, index: nat, count: nat) -> Seq<Set<usize>>
    decreases count,
{
    if count == 0 {
        free
    } else {
        release_run(released(free, address, index), (address + block_size_of(index)) as usize, index, (count - 1) as nat)
    }
}

proof fn lemma_release_run_split(free: Seq<Set<usize>>, address: usize, index: nat, n: nat, m: nat)
    requires
        address + (n + m) * block_size_of(index) <= usize::MAX,
    ensures
        release_run(free, address, index, n + m) == release_run(
            release_run(free, address, index, n),
            (address + n * block_size_of(index)) as usize,
            index,
            m,
        ),
    decreases n,
{
    lemma_block_size_positive(index);
    let s = block_size_of(index) as int;
    if n > 0 {
        let next = (address + s) as usize;
        assert((n + m) * s == s + ((n - 1) as nat + m) * s) by (nonlinear_arith)
            requires
                n > 0,
        ;
        assert(n * s == s + (n - 1) * s) by (nonlinear_arith)
            requires
                n > 0,
        ;
        assert(((n - 1) as nat + m) * s >= 0) by (nonlinear_arith)
            requires
                s > 0,
        ;
        lemma_block_size_positive(index);
        lemma_release_run_split(released(free, address, index), next, index, (n - 1) as nat, m);
        assert((n + m - 1) as nat == ((n - 1) as nat + m));
    } else {
        assert(0 * s == 0);
    }
}

/// Releasing, in ascending order, every block of class `index` that makes up
/// an aligned region of class `index + levels` with nothing inside it free
/// ends in the same free sets as releasing the region as one block: the
/// pieces coalesce into it, and no smaller block of the region stays free.
pub proof fn lemma_region_release_coalesces(free: Seq<Set<usize>>, region: usize, index: nat, levels: nat)
    requires
        free.len() == 16,
        index + levels < 16,
        region as int % block_size_of(index + levels) as int == 0,
        region + block_size_of(index + levels) <= usize::MAX,
        forall|k: int, x: usize| 0 <= k < 16 && #[trigger] free[k].contains(x)
            ==> !(region <= x < region + block_size_of(index + levels)),
    ensures
        release_run(free, region, index, pow2(levels)) == released(free, region, index + levels),
    decreases levels,
{
    if levels == 0 {
        assert(pow2(0) == 1) by {
            lemma2_to64();
        }
        let next = (region + block_size_of(index)) as usize;
        assert(release_run(released(free, region, index), next, index, 0) == released(free, region, index));
    } else {
        let lower = (index + levels - 1) as nat;
        let h = block_size_of(lower);
        let n = pow2((levels - 1) as nat);
        lemma_block_size_doubles(lower);
        lemma_block_size_bounds(lower);
        assert(index + levels == lower + 1);
        lemma_pow2_unfold(levels);
        lemma_pow2_adds(6 + index, (levels - 1) as nat);
        assert(n * block_size_of(index) == h) by (nonlinear_arith)
            requires
                pow2(6 + index) * n == h,
                block_size_of(index) == pow2(6 + index),
        ;
        let q = region as int / (2 * h as int);
        assert(region as int == (2 * q) * h as int) by (nonlinear_arith)
            requires
                region as int % (2 * h as int) == 0,
                q == region as int / (2 * h as int),
                h > 0,
        ;
        lemma_fundamental_div_mod_converse(region as int, h as int, 2 * q, 0);
        let upper = (region + h) as usize;
        assert(upper as int == (2 * q + 1) * h as int) by (nonlinear_arith)
            requires
                region as int == (2 * q) * h as int,
                upper == region + h,
        ;
        lemma_fundamental_div_mod_converse(upper as int, h as int, 2 * q + 1, 0);
        assert(region + (n + n) * block_size_of(index) <= usize::MAX) by (nonlinear_arith)
            requires
                n * block_size_of(index) == h,
                region + 2 * h <= usize::MAX,
        ;
        assert(buddy_of(region, lower) == upper);
        assert(buddy_of(upper, lower) == region);
        lemma_release_run_split(free, region, index, n, n);
        lemma_region_release_coalesces(free, region, index, (levels - 1) as nat);
        assert(!free[lower as int].contains(upper));
        assert(coalesce(free, region, lower) == (free, region, lower));
        let half = free.update(lower as int, free[lower as int].insert(region));
        assert(released(free, region, lower) == half);
        lemma_region_release_coalesces(half, upper, index, (levels - 1) as nat);
        assert(half[lower as int].contains(region));
        let rest = half.update(lower as int, half[lower as int].remove(region));
        assert(rest[lower as int] =~= free[lower as int]);
        assert(rest =~= free);
        assert(coalesce(half, upper, lower) == coalesce(rest, region, lower + 1));
    }
}

/// The free blocks of every size class.
pub struct BinarySearchTreesWithCachedKnowledgeOfFirstChild {
    trees: Vec<BinarySearchTreeWithCachedKnowledgeOfFirstChild>,
}

impl View for BinarySearchTreesWithCachedKnowledgeOfFirstChild {
    type V = Seq<Set<usize>>;

    /// The set of free block addresses of each size class.
    closed spec fn view(&self) -> Seq<Set<usize>> {
        Seq::new(self.trees@.len(), |i: int| self.trees@[i]@)
    }
}

impl BinarySearchTreesWithCachedKnowledgeOfFirstChild {
    /// Every tree is well formed and the free sets are.
    pub closed spec fn wf(&self) -> bool {
        &&& self.trees@.len() == 16
        &&& forall|i: int| 0 <= i < 16 ==> #[trigger] self.trees@[i].wf()
        &&& free_sets_wf(self@)
    }

    /// A registry with no free block.
    pub fn new() -> (r: Self)
        ensures
            r.wf(),
            r@ == Seq::new(16, |i: int| Set::<usize>::empty()),
    {
        let mut trees: Vec<BinarySearchTreeWithCachedKnowledgeOfFirstChild> = Vec::new();
        let mut i: usize = 0;
        while i < NUMBER_OF_BINARY_SEARCH_TREES
            invariant
                i <= 16,
                trees@.len() == i,
                forall|k: int| 0 <= k < i ==> (#[trigger] trees@[k]).wf() && trees@[k]@ == Set::<usize>::empty(),
            decreases 16 - i,
        {
            trees.push(BinarySearchTreeWithCachedKnowledgeOfFirstChild::new());
            i = i + 1;
        }
        let r = BinarySearchTreesWithCachedKnowledgeOfFirstChild { trees };
        assert forall|i: int| 0 <= i < 16 implies #[trigger] r@[i] == Set::<usize>::empty() by {
            assert(r.trees@[i]@ == Set::<usize>::empty());
        }
        assert(r@ =~= Seq::new(16, |i: int| Set::<usize>::empty()));
        r
    }

    /// The free tree of class `index`.
    pub fn binary_search_tree_for(&self, index: usize) -> (r: &BinarySearchTreeWithCachedKnowledgeOfFirstChild)
        requires
            self.wf(),
            index < NUMBER_OF_BINARY_SEARCH_TREES,
        ensures
            r.wf(),
            r@ == self@[index as int],
    {
        &self.trees[index]
    }

    /// The number of free blocks of each class.
    pub fn block_counts(&self) -> (r: Vec<usize>)
        requires
            self.wf(),
        ensures
            r@.len() == 16,
            forall|i: int| 0 <= i < 16 ==> #[trigger] r@[i] == self@[i].len(),
    {
        let mut r: Vec<usize> = Vec::new();
        let mut i: usize = 0;
        while i < NUMBER_OF_BINARY_SEARCH_TREES
            invariant
                self.wf(),
                i <= 16,
                r@.len() == i,
                forall|k: int| 0 <= k < i ==> #[trigger] r@[k] == self@[k].len(),
            decreases 16 - i,
        {
            r.push(self.trees[i].len());
            i = i + 1;
        }
        r
    }

    /// Takes the lowest free block of class `index`. `None` means the class
    /// is empty and a fresh block of its size has to come from the memory
    /// source.
    pub fn allocate(&mut self, index: usize) -> (r: Option<usize>)
        requires
            old(self).wf(),
            index < NUMBER_OF_BINARY_SEARCH_TREES,
        ensures
            final(self).wf(),
            r is None <==> old(self)@[index as int].is_empty(),
            r is None ==> final(self)@ == old(self)@,
            r matches Some(a) ==> is_minimum(old(self)@[index as int], a)
                && final(self)@ == old(self)@.update(index as int, old(self)@[index as int].remove(a)),
    {
        let ghost before = self@;
        let r = self.trees[index].take_smallest();
        proof {
            assert forall|i: int| 0 <= i < 16 implies #[trigger] self.trees@[i].wf() by {
                if i != index {
                    assert(self.trees@[i] == old(self).trees@[i]);
                }
            }
            match r {
                None => {
                    assert(self@ =~= before);
                },
                Some(a) => {
                    assert(self@ =~= before.update(index as int, before[index as int].remove(a)));
                },
            }
        }
        r
    }

    /// Releases the block at `address` of class `index`: buddies are merged
    /// upward while they are free, and the resulting block is inserted in its
    /// class. Returns that block's address and class. A block that is free
    /// already at that point is an internal consistency failure.
    pub fn deallocate(&mut self, address: usize, index: usize) -> (r: Result<(usize, usize), AllocationError>)
        requires
            old(self).wf(),
            index < NUMBER_OF_BINARY_SEARCH_TREES,
            address + block_size_of(index as nat) <= usize::MAX,
        ensures
            final(self).wf(),
            ({
                let (pre, a, c) = coalesce(old(self)@, address, index as nat);
                &&& pre[c as int].contains(a) ==> r == Err::<(usize, usize), AllocationError>(AllocationError::InvariantViolation) && final(self)@ == pre
                &&& !pre[c as int].contains(a) ==> r == Ok::<(usize, usize), AllocationError>((a, c as usize)) && final(self)@ == released(old(self)@, address, index as nat)
            }),
    {
        let mut a: usize = address;
        let mut c: usize = index;
        loop
            invariant
                self.wf(),
                c < 16,
                a + block_size_of(c as nat) <= usize::MAX,
                coalesce(self@, a, c as nat) == coalesce(old(self)@, address, index as nat),
            ensures
                self.wf(),
                c < 16,
                a + block_size_of(c as nat) <= usize::MAX,
                coalesce(self@, a, c as nat) == coalesce(old(self)@, address, index as nat),
                c == 15 || !self@[c as int].contains(buddy_of(a, c as nat)),
            decreases 16 - c,
        {
            if c == LARGEST_INCLUSIVE_BINARY_SEARCH_TREE_INDEX {
                break;
            }
            let size = Self::binary_search_tree_index_to_block_size(c);
            proof {
                lemma_block_size_bounds(c as nat);
            }
            let buddy = if (a / size) % 2 == 0 {
                a + size
            } else {
                proof {
                    assert(a >= size) by (nonlinear_arith)
                        requires
                            (a / size) % 2 == 1,
                            size > 0,
                    ;
                }
                a - size
            };
            assert(buddy == buddy_of(a, c as nat));
            if !self.trees[c].contains(buddy) {
                break;
            }
            let ghost before = self@;
            let ghost trees_before = self.trees@;
            let removed = self.trees[c].remove(buddy);
            proof {
                lemma_buddy_symmetric(a, c as nat);
                lemma_block_size_doubles(c as nat);
                assert(self@ =~= before.update(c as int, before[c as int].remove(buddy)));
                assert forall|i: int| 0 <= i < 16 implies #[trigger] self.trees@[i].wf() by {
                    if i != c {
                        assert(self.trees@[i] == trees_before[i]);
                    }
                }
            }
            a = if buddy < a { buddy } else { a };
            c = c + 1;
        }
        let ghost pre = self@;
        let ghost trees_before = self.trees@;
        proof {
            assert(coalesce(pre, a, c as nat) == (pre, a, c as nat));
        }
        let inserted = self.trees[c].insert(a);
        proof {
            assert forall|i: int| 0 <= i < 16 implies #[trigger] self.trees@[i].wf() by {
                if i != c {
                    assert(self.trees@[i] == trees_before[i]);
                }
            }
        }
        match inserted {
            Err(e) => {
                assert(self@ =~= pre);
                Err(e)
            },
            Ok(()) => {
                proof {
                    assert(self@ =~= pre.update(c as int, pre[c as int].insert(a)));
                    assert forall|k: int, b: usize| 0 <= k < 15 && #[trigger] self@[k].contains(b) implies !self@[k].contains(buddy_of(b, k as nat)) by {
                        if k == c {
                            if b == a {
                                lemma_buddy_symmetric(a, c as nat);
                            } else if buddy_of(b, k as nat) == a {
                                lemma_buddy_symmetric(b, k as nat);
                            }
                        }
                    }
                }
                Ok((a, c))
            },
        }
    }
}

} // verus!
