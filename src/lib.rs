//! Message routing and shared-memory lifecycle of a dataflow daemon.
//!
//! The daemon keeps a registry of running dataflows, tracks the shared-memory
//! regions that nodes write their outputs into, fans published regions out to
//! the subscribed inputs and frees a region once every receiver has
//! acknowledged it, reporting its drop token back to the producing node.
use vstd::prelude::*;

pub mod regions;
pub mod registry;
pub mod daemon;
pub mod events;
pub mod pump;

verus! {

/// Identifier of one running dataflow instance.
pub type DataflowId = u128;

/// Identifier of a node, unique within its dataflow.
pub type NodeId = String;

/// Identifier of an output or an input, unique within its node.
pub type DataId = String;

/// Identifier of an OS shared-memory region.
pub type RegionId = String;

/// Tag of one published message instance.
pub type DropToken = u64;

} // verus!
