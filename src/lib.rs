//! A NUMA-aware segregated-fit memory allocator engine: size classes,
//! per-class ordered free sets with a cached lowest address, and a registry
//! of those sets that coalesces buddies on release.
use vstd::prelude::*;

pub mod allocator;
pub mod error;
pub mod free_tree;
pub mod numa;
pub mod registry;
pub mod size_class;

