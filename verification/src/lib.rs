//! A verified simulation core for networks of production machines.
//!
//! Machines convert typed items into other typed items over time, subject to
//! bounded buffers and multi-tick crafting durations. The heart of the crate
//! is the per-tick scheduler in [`pipeline::machine`]: the Ready, Progress,
//! Craft and Push phases that start batches, advance in-progress crafts,
//! materialize outputs and move items across machine-to-machine couplings.

use vstd::prelude::*;

pub mod pipeline;

verus! {

/// Enumerated resource kind flowing through the simulation (closed set).
#[derive(Clone, Copy, Debug, PartialEq, Eq, Structural)]
pub enum ItemType {
    Producer,
    Transformer,
    Combinator,
    Separator,
    Storage,
    Input,
    Output,
}

} // verus!
