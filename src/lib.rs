//! Storage model of the memorial bridge contract: an administrative supply
//! record, a fixed supply, a fixed memorial message and an anchored letter
//! reference, with the transitions that the contract's entry points make.
pub mod bridge;
pub mod laws;

pub use bridge::{BridgeError, BridgeState, OinioMemorialBridge, MEMORIAL_MESSAGE, TOTAL_SUPPLY};
