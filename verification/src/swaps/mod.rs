//! Swaps and their fees.
pub mod boltz;
pub mod estimations;
pub mod fees;
pub mod laws;
