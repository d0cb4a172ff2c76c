//! Buffers typed by item kind, and the machine and recipe submodules.

use vstd::prelude::*;

use crate::pipeline::machine::ItemBuffer;
use crate::ItemType;

pub mod laws;
pub mod machine;
pub mod recipe;

verus! {

/// A bounded counter for one item type: the unit a machine's input and
/// output ports are made of.
#[derive(Clone, Copy, Debug, PartialEq, Eq, Structural)]
pub struct IoBuffer {
    pub buffer: ItemBuffer,
    pub item_type: ItemType,
}

impl IoBuffer {
    /// The buffer counter never exceeds its bound.
    pub open spec fn inv(self) -> bool {
        self.buffer.inv()
    }

    pub fn new(item_type: ItemType) -> (r: IoBuffer)
        ensures
            r == (IoBuffer { buffer: ItemBuffer::default_spec(), item_type }),
    {
        IoBuffer { buffer: ItemBuffer::new(), item_type }
    }

    pub fn with_capacity(item_type: ItemType, capacity: u64) -> (r: IoBuffer)
        ensures
            r.buffer.current == 0,
            r.buffer.max == capacity,
            r.item_type == item_type,
    {
        IoBuffer { buffer: ItemBuffer::with_capacity(capacity), item_type }
    }
}

} // verus!
