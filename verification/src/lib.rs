//! Off-chain replica of a concentrated-liquidity constant-product pool.
//!
//! The crate maintains a local copy of a pool's tick-indexed liquidity
//! distribution by replaying mint/burn/swap event logs, and simulates
//! exact-input swaps against that replica with the same fixed-point
//! arithmetic the on-chain contract uses.

pub mod bitmap;
pub mod calldata;
pub mod errors;
pub mod events;
pub mod intdiv;
pub mod laws;
pub mod math;
pub mod mutator;
pub mod pool;
pub mod swap;
pub mod u256;
