//! Zero-knowledge private-inventory toolkit.
//!
//! The crate has two layers. The inventory layer models a fixed-slot
//! collection of `(item_id, quantity)` records, its hiding commitment, and
//! the arithmetic relations that the four operation proofs (item-exists,
//! withdraw, deposit, transfer) enforce. The optimizer layer holds a
//! normalized R1CS constraint matrix and a set of reduction passes that
//! shrink it while preserving its solution set.

use vstd::prelude::*;

pub mod field;
pub mod commitment;
pub mod constraint;
pub mod interop;
pub mod inventory;
pub mod optimizer;
pub mod passes;
pub mod reduction;
pub mod relations;
pub mod semantics;
pub mod verify;

pub use commitment::create_inventory_commitment;
pub use commitment::poseidon_config;
pub use constraint::ConstraintMatrix;
pub use inventory::Inventory;
pub use optimizer::Optimizer;
pub use optimizer::OptimizerConfig;

verus! {

/// Number of item slots in every inventory.
pub const MAX_ITEM_SLOTS: usize = 16;

} // verus!
