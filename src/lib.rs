//! Deterministic assignment of shared-object versions to a consensus-ordered
//! batch of schedulable work items.
use vstd::prelude::*;

pub mod types;
pub mod table;
pub mod schedulable;
pub mod model;
pub mod manager;
pub mod epoch_store;
pub mod laws;

verus! {

} // verus!
