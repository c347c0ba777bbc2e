//! Receipt-and-bundle state machine of an executor coordination layer.
//!
//! The primary chain records execution receipts submitted in bundles, tracks the
//! best execution head, keeps a bounded window of recent receipts and rolls the
//! head back when a fraud proof is accepted.
pub mod error;
pub mod gateway;
pub mod hash;
pub mod laws;
pub mod model;
pub mod pallet;
pub mod receipt;
pub mod table;
pub mod types;
pub mod validation;
