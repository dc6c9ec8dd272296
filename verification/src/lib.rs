//! Fees of swaps between the Bitcoin chain, the Liquid chain and Lightning.
//!
//! `swaps::fees` holds the fee rules, `swaps::estimations` the fee rates they read and
//! `swaps::laws` what holds of them together. `binary64` and `rounding` supply the
//! arithmetic on fee rates and percentages, and `arithmetic_laws` says what it computes.
pub mod arithmetic_laws;
pub mod binary64;
pub mod error;
pub mod network;
pub mod rounding;
pub mod swaps;
pub mod text;
