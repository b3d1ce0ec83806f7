use vstd::prelude::*;

use crate::epoch::{Epoch, LarivEpoch, NoEpoch};

verus! {

/// Where an element stands in a Lariv: the number of its node, its place in that node,
/// and the epoch of the slot when the element was written there.
#[derive(Copy, Clone, Debug)]
pub struct LarivIndex<E: Epoch = NoEpoch> {
    pub node: u64,
    pub index: u64,
    pub epoch: E,
}

/// The 128-bit form of an index: the node in the low 64 bits, the place in the high 64.
pub open spec fn packed_index(node: u64, index: u64) -> u128 {
    (node + index * 0x1_0000_0000_0000_0000) as u128
}

impl LarivIndex {
    pub fn new(node: usize, index: usize) -> (r: Self)
        ensures
            r.node == node,
            r.index == index,
    {
        LarivIndex { node: node as u64, index: index as u64, epoch: NoEpoch }
    }
}

impl LarivIndex<LarivEpoch> {
    pub fn new_with_epoch(node: usize, index: usize, epoch: usize) -> (r: Self)
        ensures
            r.node == node,
            r.index == index,
            r.epoch.0 == epoch,
    {
        LarivIndex { node: node as u64, index: index as u64, epoch: LarivEpoch(epoch as u64) }
    }
}

impl From<LarivIndex> for u128 {
    fn from(value: LarivIndex) -> (r: u128)
        ensures
            r == packed_index(value.node, value.index),
    {
        value.node as u128 + value.index as u128 * 0x1_0000_0000_0000_0000u128
    }
}

impl vstd::std_specs::convert::FromSpecImpl<LarivIndex> for u128 {
    open spec fn obeys_from_spec() -> bool {
        true
    }

    open spec fn from_spec(v: LarivIndex) -> u128 {
        packed_index(v.node, v.index)
    }
}

impl From<u128> for LarivIndex {
    fn from(value: u128) -> (r: LarivIndex)
        ensures
            r.node == value % 0x1_0000_0000_0000_0000,
            r.index == value / 0x1_0000_0000_0000_0000,
    {
        LarivIndex {
            node: (value % 0x1_0000_0000_0000_0000u128) as u64,
            index: (value / 0x1_0000_0000_0000_0000u128) as u64,
            epoch: NoEpoch,
        }
    }
}

impl vstd::std_specs::convert::FromSpecImpl<u128> for LarivIndex {
    open spec fn obeys_from_spec() -> bool {
        true
    }

    open spec fn from_spec(v: u128) -> LarivIndex {
        LarivIndex {
            node: (v % 0x1_0000_0000_0000_0000) as u64,
            index: (v / 0x1_0000_0000_0000_0000) as u64,
            epoch: NoEpoch,
        }
    }
}

} // verus!
