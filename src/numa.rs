//! NUMA placement settings handed to the memory source: node sets, the
//! allocation policy, the arguments of the kernel's memory binding call, and
//! the choice of configuration from a huge-page flag and a node.
use vstd::prelude::*;
use crate::error::AllocationError;

verus! {

/// Mode flag: node numbers are physical node numbers.
pub const MPOL_F_STATIC_NODES: i32 = 32768;

/// Mode flag: node numbers are relative to the thread's allowed nodes.
pub const MPOL_F_RELATIVE_NODES: i32 = 16384;

/// Binding flag: fail if pages do not follow the policy.
pub const MPOL_MF_STRICT: u32 = 1;

/// Binding flag: move existing pages to follow the policy.
pub const MPOL_MF_MOVE: u32 = 2;

/// Policy number of the system default.
pub const MPOL_DEFAULT: i32 = 0;

/// Policy number of a preferred node set.
pub const MPOL_PREFERRED: i32 = 1;

/// Policy number of a strict binding to a node set.
pub const MPOL_BIND: i32 = 2;

/// Policy number of interleaving over a node set.
pub const MPOL_INTERLEAVE: i32 = 3;

/// Policy number of allocation on the local node.
pub const MPOL_LOCAL: i32 = 4;

/// Largest number of nodes that a configuration can name.
pub const SUPPORTED_NUMA_NODES: u8 = 2;

/// The mode flags that a node set carries.
pub open spec fn mode_flags_of(static_nodes: bool, relative_nodes: bool) -> i32 {
    ((if static_nodes { MPOL_F_STATIC_NODES } else { 0i32 }) + (if relative_nodes { MPOL_F_RELATIVE_NODES } else { 0i32 })) as i32
}

/// NUMA nodes to allocate on; an empty set means the local node.
#[derive(Debug, Clone, Copy, PartialEq, Eq, Structural)]
pub struct NumaNodeBitSet {
    /// One bit per node, bit `n` for node `n`.
    pub bits: usize,
    /// Node numbers are physical node numbers.
    pub static_nodes: bool,
    /// Node numbers are relative to the nodes the thread may use.
    pub relative_nodes: bool,
}

impl NumaNodeBitSet {
    /// An empty set without mode flags.
    pub fn new() -> (r: Self)
        ensures
            r.bits == 0,
            !r.static_nodes,
            !r.relative_nodes,
    {
        NumaNodeBitSet { bits: 0, static_nodes: false, relative_nodes: false }
    }

    /// An empty set of physical node numbers.
    pub fn new_static() -> (r: Self)
        ensures
            r.bits == 0,
            r.static_nodes,
            !r.relative_nodes,
    {
        NumaNodeBitSet { bits: 0, static_nodes: true, relative_nodes: false }
    }

    /// An empty set of relative node numbers.
    pub fn new_relative(&self) -> (r: Self)
        ensures
            r.bits == 0,
            !r.static_nodes,
            r.relative_nodes,
    {
        NumaNodeBitSet { bits: 0, static_nodes: false, relative_nodes: true }
    }

    /// Is this the empty set?
    pub fn is_empty(&self) -> (r: bool)
        ensures
            r == (self.bits == 0),
    {
        self.bits == 0
    }

    /// Adds node `zero_based_node_index` to the set.
    pub fn insert_numa_node(&mut self, zero_based_node_index: u8)
        requires
            (zero_based_node_index as u32) < usize::BITS,
        ensures
            final(self).bits == old(self).bits | (1usize << (zero_based_node_index as usize)),
            final(self).static_nodes == old(self).static_nodes,
            final(self).relative_nodes == old(self).relative_nodes,
    {
        self.bits = self.bits | (1usize << (zero_based_node_index as usize));
    }

    /// Removes node `zero_based_node_index` from the set.
    pub fn remove_numa_node(&mut self, zero_based_node_index: u8)
        requires
            (zero_based_node_index as u32) < usize::BITS,
        ensures
            final(self).bits == old(self).bits & !(1usize << (zero_based_node_index as usize)),
            final(self).static_nodes == old(self).static_nodes,
            final(self).relative_nodes == old(self).relative_nodes,
    {
        self.bits = self.bits & !(1usize << (zero_based_node_index as usize));
    }

    /// The mode flags, node mask and maximum node count of the binding call:
    /// nothing for the empty set, else the flags of the set, its bits and two
    /// nodes.
    pub fn mask_and_size(&self) -> (r: (i32, Option<usize>, usize))
        ensures
            self.bits == 0 ==> r == (0i32, None::<usize>, 0usize),
            self.bits != 0 ==> r == (mode_flags_of(self.static_nodes, self.relative_nodes), Some(self.bits), 2usize),
    {
        if self.is_empty() {
            (0, None, 0)
        } else {
            let mut mode_flags: i32 = 0;
            if self.static_nodes {
                mode_flags = mode_flags + MPOL_F_STATIC_NODES;
            }
            if self.relative_nodes {
                mode_flags = mode_flags + MPOL_F_RELATIVE_NODES;
            }
            (mode_flags, Some(self.bits), 2)
        }
    }
}

/// Where the pages of a fresh range are placed.
#[derive(Debug, Clone, Copy, PartialEq, Eq, Structural)]
pub enum NumaAllocationPolicy {
    /// The system default.
    Default,
    /// The given nodes if possible, else others.
    Preferred(NumaNodeBitSet),
    /// The given nodes only.
    Bind(NumaNodeBitSet),
    /// Spread over the given nodes.
    Interleave(NumaNodeBitSet),
    /// The node of the thread that allocates.
    Local,
}

impl NumaAllocationPolicy {
    /// The policy number and the node set's binding arguments.
    pub open spec fn values_spec(self) -> (i32, (i32, Option<usize>, usize)) {
        let none = (0i32, None::<usize>, 0usize);
        let of_set = |set: NumaNodeBitSet|
            if set.bits == 0 {
                none
            } else {
                (mode_flags_of(set.static_nodes, set.relative_nodes), Some(set.bits), 2usize)
            };
        match self {
            NumaAllocationPolicy::Default => (MPOL_DEFAULT, none),
            NumaAllocationPolicy::Preferred(set) => (MPOL_PREFERRED, of_set(set)),
            NumaAllocationPolicy::Bind(set) => (MPOL_BIND, of_set(set)),
            NumaAllocationPolicy::Interleave(set) => (MPOL_INTERLEAVE, of_set(set)),
            NumaAllocationPolicy::Local => (MPOL_LOCAL, none),
        }
    }

    /// The policy number and the node set's binding arguments.
    pub fn values(&self) -> (r: (i32, (i32, Option<usize>, usize)))
        ensures
            r == self.values_spec(),
    {
        match self {
            NumaAllocationPolicy::Default => (MPOL_DEFAULT, (0, None, 0)),
            NumaAllocationPolicy::Preferred(set) => (MPOL_PREFERRED, set.mask_and_size()),
            NumaAllocationPolicy::Bind(set) => (MPOL_BIND, set.mask_and_size()),
            NumaAllocationPolicy::Interleave(set) => (MPOL_INTERLEAVE, set.mask_and_size()),
            NumaAllocationPolicy::Local => (MPOL_LOCAL, (0, None, 0)),
        }
    }
}

/// The arguments of the memory binding call made on each fresh range.
#[derive(Debug, Clone, Copy, PartialEq, Eq, Structural)]
pub struct NumaSettings {
    /// Policy number with its mode flags.
    pub mbind_mode: i32,
    /// The node mask, if any.
    pub mbind_nodemask: Option<usize>,
    /// The number of nodes that the mask covers.
    pub mbind_maxnode: usize,
    /// Binding flags.
    pub mbind_flags: u32,
}

impl NumaSettings {
    /// Settings for `allocation_policy`; `strict` makes pages move to the
    /// policy's nodes or the binding fail.
    pub fn new(allocation_policy: NumaAllocationPolicy, strict: bool) -> (r: Self)
        ensures
            ({
                let (policy, (mode_flags, nodemask, maxnode)) = allocation_policy.values_spec();
                &&& r.mbind_mode == policy | mode_flags
                &&& r.mbind_nodemask == nodemask
                &&& r.mbind_maxnode == maxnode
                &&& r.mbind_flags == (if strict { MPOL_MF_STRICT | MPOL_MF_MOVE } else { 0u32 })
            }),
    {
        let (policy, (mode_flags, mbind_nodemask, mbind_maxnode)) = allocation_policy.values();
        NumaSettings {
            mbind_mode: policy | mode_flags,
            mbind_nodemask,
            mbind_maxnode,
            mbind_flags: Self::mbind_flags(strict),
        }
    }

    /// Binding flags: strict and move when `strict`, else none.
    pub fn mbind_flags(strict: bool) -> (r: u32)
        ensures
            r == (if strict { MPOL_MF_STRICT | MPOL_MF_MOVE } else { 0u32 }),
    {
        if strict {
            MPOL_MF_STRICT | MPOL_MF_MOVE
        } else {
            0
        }
    }

    /// The outcome of binding a fresh range, from the number that the binding
    /// call returned: zero or more is success, a negative error number failure.
    pub fn post_allocate(&self, error_number: isize) -> (r: Result<(), ()>)
        ensures
            r is Ok <==> error_number >= 0,
    {
        if error_number >= 0 {
            Ok(())
        } else {
            Err(())
        }
    }
}

/// Which huge pages a fresh range uses.
#[derive(Debug, Clone, Copy, PartialEq, Eq, Structural)]
pub enum HugePageSize {
    /// Ordinary pages.
    Standard,
    /// The system's default huge page size.
    Default,
}

/// The memory source's configuration: huge pages and NUMA placement.
#[derive(Debug, Clone, Copy, PartialEq, Eq, Structural)]
pub struct AllocatorConfiguration {
    /// Huge-page choice.
    pub huge_page: HugePageSize,
    /// NUMA placement.
    pub numa_policy: NumaAllocationPolicy,
}

/// The configuration chosen for a huge-page flag and an optional node.
pub open spec fn configuration_spec(huge_page: bool, node: Option<u8>) -> Result<AllocatorConfiguration, AllocationError> {
    let pages = if huge_page { HugePageSize::Default } else { HugePageSize::Standard };
    match node {
        None => Ok(AllocatorConfiguration { huge_page: pages, numa_policy: NumaAllocationPolicy::Local }),
        Some(n) => if n < SUPPORTED_NUMA_NODES {
            Ok(AllocatorConfiguration {
                huge_page: pages,
                numa_policy: NumaAllocationPolicy::Preferred(
                    NumaNodeBitSet { bits: (1usize << (n as usize)), static_nodes: true, relative_nodes: false },
                ),
            })
        } else {
            Err(AllocationError::UnsupportedNumaNode)
        },
    }
}

impl AllocatorConfiguration {
    /// Chooses the configuration: huge pages of the default size when
    /// `huge_page`; allocation on the local node when no node is given, else
    /// a preference for the physical node `node`, which must be 0 or 1.
    pub fn select(huge_page: bool, node: Option<u8>) -> (r: Result<AllocatorConfiguration, AllocationError>)
        ensures
            r == configuration_spec(huge_page, node),
    {
        let pages = if huge_page { HugePageSize::Default } else { HugePageSize::Standard };
        match node {
            None => Ok(AllocatorConfiguration { huge_page: pages, numa_policy: NumaAllocationPolicy::Local }),
            Some(n) => {
                if n < SUPPORTED_NUMA_NODES {
                    let mut set = NumaNodeBitSet::new_static();
                    set.insert_numa_node(n);
                    assert(0usize | (1usize << (n as usize)) == (1usize << (n as usize))) by (bit_vector);
                    Ok(AllocatorConfiguration { huge_page: pages, numa_policy: NumaAllocationPolicy::Preferred(set) })
                } else {
                    Err(AllocationError::UnsupportedNumaNode)
                }
            },
        }
    }

    /// The binding settings of this configuration, strict as the memory
    /// source uses them.
    pub fn numa_settings(&self) -> (r: NumaSettings)
        ensures
            r == ({
                let (policy, (mode_flags, nodemask, maxnode)) = self.numa_policy.values_spec();
                NumaSettings { mbind_mode: policy | mode_flags, mbind_nodemask: nodemask, mbind_maxnode: maxnode, mbind_flags: MPOL_MF_STRICT | MPOL_MF_MOVE }
            }),
    {
        NumaSettings::new(self.numa_policy, true)
    }
}

} // verus!
