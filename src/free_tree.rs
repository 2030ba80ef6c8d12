//! One size class's free blocks: an ordered set of block addresses with a
//! cached reference to the lowest one.
use vstd::prelude::*;
use crate::error::AllocationError;

verus! {

/// `s` is in strictly ascending order.
pub open spec fn strictly_ascending(s: Seq<usize>) -> bool {
    forall|i: int, j: int| 0 <= i < j < s.len() ==> s[i] < s[j]
}

/// `s` is in strictly descending order.
pub open spec fn strictly_descending(s: Seq<usize>) -> bool {
    forall|i: int, j: int| 0 <= i < j < s.len() ==> s[i] > s[j]
}

/// `a` is the lowest address of `blocks`.
pub open spec fn is_minimum(blocks: Set<usize>, a: usize) -> bool {
    blocks.contains(a) && forall|b: usize| #[trigger] blocks.contains(b) ==> a <= b
}

/// The free blocks of one size class, ordered by address, with the lowest
/// address cached so that the allocation path finds it at once.
pub struct BinarySearchTreeWithCachedKnowledgeOfFirstChild {
    blocks: Vec<usize>,
    cached_first_child: Option<usize>,
}

impl View for BinarySearchTreeWithCachedKnowledgeOfFirstChild {
    type V = Set<usize>;

    /// The set of free block addresses.
    closed spec fn view(&self) -> Set<usize> {
        Set::new(|a: usize| self.blocks@.contains(a))
    }
}

impl BinarySearchTreeWithCachedKnowledgeOfFirstChild {
    /// The blocks are kept in ascending order and the cached first child is
    /// the lowest of them, or nothing when there are none.
    pub closed spec fn wf(&self) -> bool {
        &&& strictly_ascending(self.blocks@)
        &&& self.cached_first_child == if self.blocks@.len() == 0 {
            None
        } else {
            Some(self.blocks@[0])
        }
    }

    /// The blocks in ascending order of address.
    pub closed spec fn ordered(&self) -> Seq<usize> {
        self.blocks@
    }

    /// An empty tree.
    pub fn new() -> (r: Self)
        ensures
            r.wf(),
            r@ == Set::<usize>::empty(),
    {
        let r = BinarySearchTreeWithCachedKnowledgeOfFirstChild { blocks: Vec::new(), cached_first_child: None };
        assert(r@ =~= Set::<usize>::empty());
        r
    }

    /// Does the tree hold any block?
    pub fn has_blocks(&self) -> (r: bool)
        requires
            self.wf(),
        ensures
            r == !self@.is_empty(),
    {
        if self.cached_first_child.is_some() {
            assert(self@.contains(self.blocks@[0]));
            true
        } else {
            assert(self@ =~= Set::<usize>::empty());
            false
        }
    }

    /// The lowest free block address, or `None` when the tree is empty.
    pub fn cached_first_child(&self) -> (r: Option<usize>)
        requires
            self.wf(),
        ensures
            r is None <==> self@.is_empty(),
            r matches Some(a) ==> is_minimum(self@, a),
    {
        proof {
            self.lemma_minimum();
        }
        self.cached_first_child
    }

    proof fn lemma_minimum(&self)
        requires
            self.wf(),
        ensures
            self.blocks@.len() == 0 ==> self@ =~= Set::<usize>::empty(),
            self.blocks@.len() > 0 ==> is_minimum(self@, self.blocks@[0]),
    {
        if self.blocks@.len() > 0 {
            assert(self@.contains(self.blocks@[0]));
            assert forall|b: usize| #[trigger] self@.contains(b) implies self.blocks@[0] <= b by {
                let i = choose|i: int| 0 <= i < self.blocks@.len() && self.blocks@[i] == b;
                if i > 0 {
                    assert(self.blocks@[0] < self.blocks@[i]);
                }
            }
        }
    }

    /// The first position whose address is not below `address`.
    fn position_of(&self, address: usize) -> (r: usize)
        requires
            self.wf(),
        ensures
            r <= self.blocks@.len(),
            forall|i: int| 0 <= i < r ==> self.blocks@[i] < address,
            forall|i: int| r <= i < self.blocks@.len() ==> self.blocks@[i] >= address,
    {
        let mut low: usize = 0;
        let mut high: usize = self.blocks.len();
        while low < high
            invariant
                self.wf(),
                low <= high <= self.blocks@.len(),
                forall|i: int| 0 <= i < low ==> self.blocks@[i] < address,
                forall|i: int| high <= i < self.blocks@.len() ==> self.blocks@[i] >= address,
            decreases high - low,
        {
            let middle = low + (high - low) / 2;
            if self.blocks[middle] < address {
                low = middle + 1;
            } else {
                high = middle;
            }
        }
        low
    }

    /// Is `address` a free block of this tree?
    pub fn contains(&self, address: usize) -> (r: bool)
        requires
            self.wf(),
        ensures
            r == self@.contains(address),
    {
        let position = self.position_of(address);
        if position < self.blocks.len() && self.blocks[position] == address {
            true
        } else {
            proof {
                if self@.contains(address) {
                    let i = choose|i: int| 0 <= i < self.blocks@.len() && self.blocks@[i] == address;
                    if i < position as int {
                    } else if i > position as int {
                        assert(self.blocks@[position as int] < self.blocks@[i]);
                    }
                }
            }
            false
        }
    }

    /// Adds a free block at `address`; a block already present is an
    /// internal consistency failure and leaves the tree as it was.
    pub fn insert(&mut self, address: usize) -> (r: Result<(), AllocationError>)
        requires
            old(self).wf(),
        ensures
            final(self).wf(),
            old(self)@.contains(address) ==> r == Err::<(), AllocationError>(AllocationError::InvariantViolation) && final(self)@ == old(self)@,
            !old(self)@.contains(address) ==> r is Ok && final(self)@ == old(self)@.insert(address),
    {
        let position = self.position_of(address);
        if position < self.blocks.len() && self.blocks[position] == address {
            return Err(AllocationError::InvariantViolation);
        }
        let ghost before = self.blocks@;
        proof {
            if self@.contains(address) {
                let i = choose|i: int| 0 <= i < before.len() && before[i] == address;
                if i > position as int {
                    assert(before[position as int] < before[i]);
                }
            }
        }
        self.blocks.insert(position, address);
        let ghost after = self.blocks@;
        assert(after =~= before.insert(position as int, address));
        assert forall|i: int, j: int| 0 <= i < j < after.len() implies after[i] < after[j] by {
            if j < position {
            } else if j == position {
            } else if i < position {
                assert(after[j] == before[j - 1]);
                assert(before[j - 1] >= address);
            } else if i == position {
                assert(after[j] == before[j - 1]);
            } else {
                assert(after[i] == before[i - 1]);
                assert(after[j] == before[j - 1]);
            }
        }
        self.cached_first_child = Some(self.blocks[0]);
        assert forall|a: usize| #[trigger] self@.contains(a) <==> old(self)@.insert(address).contains(a) by {
            if after.contains(a) {
                let i = choose|i: int| 0 <= i < after.len() && after[i] == a;
                if i < position {
                    assert(before[i] == a);
                } else if i > position {
                    assert(before[i - 1] == a);
                }
            }
            if before.contains(a) {
                let i = choose|i: int| 0 <= i < before.len() && before[i] == a;
                if i < position {
                    assert(after[i] == a);
                } else {
                    assert(after[i + 1] == a);
                }
            }
            if a == address {
                assert(after[position as int] == a);
            }
        }
        assert(self@ =~= old(self)@.insert(address));
        Ok(())
    }

    /// Removes the block at index `position` and returns its address.
    fn remove_at(&mut self, position: usize) -> (r: usize)
        requires
            old(self).wf(),
            position < old(self).blocks@.len(),
        ensures
            final(self).wf(),
            r == old(self).blocks@[position as int],
            final(self)@ == old(self)@.remove(r),
    {
        let ghost before = self.blocks@;
        let r = self.blocks.remove(position);
        let ghost after = self.blocks@;
        assert(after =~= before.remove(position as int));
        assert forall|i: int, j: int| 0 <= i < j < after.len() implies after[i] < after[j] by {
            if j < position {
            } else if i < position {
                assert(after[j] == before[j + 1]);
            } else {
                assert(after[i] == before[i + 1]);
                assert(after[j] == before[j + 1]);
            }
        }
        if self.blocks.len() == 0 {
            self.cached_first_child = None;
        } else {
            self.cached_first_child = Some(self.blocks[0]);
        }
        assert forall|a: usize| #[trigger] self@.contains(a) <==> old(self)@.remove(r).contains(a) by {
            if after.contains(a) {
                let i = choose|i: int| 0 <= i < after.len() && after[i] == a;
                if i < position {
                    assert(before[i] == a);
                    assert(before[i] < before[position as int]);
                } else {
                    assert(before[i + 1] == a);
                    assert(before[i + 1] > before[position as int]);
                }
            }
            if before.contains(a) && a != r {
                let i = choose|i: int| 0 <= i < before.len() && before[i] == a;
                if i < position {
                    assert(after[i] == a);
                } else {
                    assert(after[i - 1] == a);
                }
            }
        }
        assert(self@ =~= old(self)@.remove(r));
        r
    }

    /// Removes the free block at `address`; an absent block is an internal
    /// consistency failure and leaves the tree as it was.
    pub fn remove(&mut self, address: usize) -> (r: Result<(), AllocationError>)
        requires
            old(self).wf(),
        ensures
            final(self).wf(),
            !old(self)@.contains(address) ==> r == Err::<(), AllocationError>(AllocationError::InvariantViolation) && final(self)@ == old(self)@,
            old(self)@.contains(address) ==> r is Ok && final(self)@ == old(self)@.remove(address),
    {
        let found = self.contains(address);
        if !found {
            return Err(AllocationError::InvariantViolation);
        }
        let position = self.position_of(address);
        proof {
            let i = choose|i: int| 0 <= i < self.blocks@.len() && self.blocks@[i] == address;
            if i < position as int {
            } else if i > position as int {
                assert(self.blocks@[position as int] < self.blocks@[i]);
            }
        }
        self.remove_at(position);
        Ok(())
    }

    /// Removes and returns the lowest free block, or `None` when the tree is
    /// empty.
    pub fn take_smallest(&mut self) -> (r: Option<usize>)
        requires
            old(self).wf(),
        ensures
            final(self).wf(),
            r is None <==> old(self)@.is_empty(),
            r is None ==> final(self)@ == old(self)@,
            r matches Some(a) ==> is_minimum(old(self)@, a) && final(self)@ == old(self)@.remove(a),
    {
        proof {
            self.lemma_minimum();
        }
        match self.cached_first_child {
            None => None,
            Some(first) => {
                self.remove_at(0);
                Some(first)
            },
        }
    }

    /// The number of free blocks.
    pub fn len(&self) -> (r: usize)
        requires
            self.wf(),
        ensures
            r == self@.len(),
            self@.finite(),
    {
        proof {
            assert(self.blocks@.no_duplicates()) by {
                assert forall|i: int, j: int| 0 <= i < self.blocks@.len() && 0 <= j < self.blocks@.len() && i != j implies self.blocks@[i] != self.blocks@[j] by {
                    if i < j {
                    } else {
                    }
                }
            }
            self.blocks@.unique_seq_to_set();
            assert(self@ =~= self.blocks@.to_set());
        }
        self.blocks.len()
    }

    /// The free block addresses in ascending order.
    pub fn iterate_ascending(&self) -> (r: Vec<usize>)
        requires
            self.wf(),
        ensures
            r@ == self.ordered(),
            strictly_ascending(r@),
            forall|a: usize| #[trigger] r@.contains(a) <==> self@.contains(a),
    {
        self.blocks.clone()
    }

    /// The free block addresses in descending order.
    pub fn iterate_descending(&self) -> (r: Vec<usize>)
        requires
            self.wf(),
        ensures
            strictly_descending(r@),
            r@.len() == self.ordered().len(),
            forall|k: int| 0 <= k < r@.len() ==> r@[k] == self.ordered()[r@.len() - 1 - k],
            forall|a: usize| #[trigger] r@.contains(a) <==> self@.contains(a),
    {
        let mut r: Vec<usize> = Vec::new();
        let mut i: usize = self.blocks.len();
        while i > 0
            invariant
                self.wf(),
                i <= self.blocks@.len(),
                r@.len() == self.blocks@.len() - i,
                forall|k: int| 0 <= k < r@.len() ==> r@[k] == self.blocks@[self.blocks@.len() - 1 - k],
            decreases i,
        {
            i = i - 1;
            r.push(self.blocks[i]);
        }
        assert forall|a: usize| #[trigger] r@.contains(a) <==> self@.contains(a) by {
            if r@.contains(a) {
                let k = choose|k: int| 0 <= k < r@.len() && r@[k] == a;
                assert(self.blocks@[self.blocks@.len() - 1 - k] == a);
            }
            if self.blocks@.contains(a) {
                let k = choose|k: int| 0 <= k < self.blocks@.len() && self.blocks@[k] == a;
                assert(r@[self.blocks@.len() - 1 - k] == a);
            }
        }
        r
    }
}

} // verus!
