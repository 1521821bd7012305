//! Sizes of allocations by their number, kept while pool diagnostics are on.

use std::collections::BTreeMap;
use vstd::prelude::*;

verus! {

/// The sizes that were recorded. A registry that is switched off stays empty.
pub struct AllocSizes {
    enabled: bool,
    sizes: BTreeMap<u64, u64>,
}

impl AllocSizes {
    /// Whether diagnostics are on.
    pub closed spec fn enabled(self) -> bool {
        self.enabled
    }

    /// Recorded sizes by allocation number.
    pub closed spec fn sizes(self) -> Map<u64, u64> {
        self.sizes@
    }

    /// Nothing is kept while diagnostics are off.
    pub open spec fn wf(self) -> bool {
        !self.enabled() ==> self.sizes() == Map::<u64, u64>::empty()
    }

    /// An empty registry.
    pub fn new(enabled: bool) -> (r: AllocSizes)
        ensures
            r.wf(),
            r.enabled() == enabled,
            r.sizes() == Map::<u64, u64>::empty(),
    {
        AllocSizes { enabled, sizes: BTreeMap::new() }
    }
}

/// Whether diagnostics are on, given the value of the switch in the environment: only the
/// text `1` turns them on.
pub fn diag_enabled(var: Option<&str>) -> (r: bool)
    ensures
        r == crate::text::on_only(var, "1"@),
{
    match var {
        Some(v) => crate::text::same(v, "1"),
        None => false,
    }
}

/// The sizes after that of an allocation was noted, if diagnostics are on.
pub open spec fn noted(on: bool, sizes: Map<u64, u64>, id: u64, size: u64) -> Map<u64, u64> {
    if on {
        sizes.insert(id, size)
    } else {
        sizes
    }
}

/// The size that is found for an allocation.
pub open spec fn found(on: bool, sizes: Map<u64, u64>, id: u64) -> Option<u64> {
    if on && sizes.contains_key(id) {
        Some(sizes[id])
    } else {
        None
    }
}

/// Notes the size of an allocation, if diagnostics are on.
pub fn record(reg: &mut AllocSizes, id: u64, size: u64)
    requires
        old(reg).wf(),
    ensures
        final(reg).wf(),
        final(reg).enabled() == old(reg).enabled(),
        final(reg).sizes() == noted(old(reg).enabled(), old(reg).sizes(), id, size),
{
    broadcast use vstd::std_specs::btree::group_btree_axioms;
    if reg.enabled {
        reg.sizes.insert(id, size);
    }
}

/// The size of an allocation, if it was noted and diagnostics are on.
pub fn lookup(reg: &AllocSizes, id: u64) -> (r: Option<u64>)
    requires
        reg.wf(),
    ensures
        r == found(reg.enabled(), reg.sizes(), id),
{
    broadcast use vstd::std_specs::btree::group_btree_axioms;
    if !reg.enabled {
        return None;
    }
    match reg.sizes.get(&id) {
        Some(s) => Some(*s),
        None => None,
    }
}

/// A size that was noted is found, the last one if there were several; noting one allocation does
/// not touch another; and nothing is ever found while diagnostics are off.
pub proof fn noted_sizes_are_found(
    on: bool,
    sizes: Map<u64, u64>,
    id: u64,
    size: u64,
    other: u64,
)
    ensures
        found(true, noted(true, sizes, id, size), id) == Some(size),
        other != id ==> found(on, noted(on, sizes, id, size), other) == found(on, sizes, other),
        found(false, sizes, id) is None,
        noted(false, sizes, id, size) == sizes,
        found(on, Map::empty(), id) is None,
{
}

} // verus!
