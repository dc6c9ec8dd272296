//! The kinds of swaps.
use vstd::prelude::*;

verus! {

/// The direction of a swap.
#[derive(Clone, Copy, Debug, PartialEq, Eq, Structural)]
pub enum SwapType {
    /// From a chain to Lightning.
    Submarine,
    /// From Lightning to a chain.
    ReverseSubmarine,
    /// From one chain to another.
    Chain,
}

} // verus!
