//! Fee rate estimations.
use crate::binary64::Binary64;
use crate::network::Chain;
use std::collections::HashMap;
use vstd::prelude::*;

verus! {

broadcast use vstd::std_specs::hash::group_hash_axioms;

/// Estimated fee rates for chains, in satoshis per virtual byte.
pub struct FeeEstimations {
    /// The rates, filed under the chains' numbers.
    rates: HashMap<u64, Binary64>,
}

impl View for FeeEstimations {
    type V = Map<Chain, Binary64>;

    closed spec fn view(&self) -> Map<Chain, Binary64> {
        Map::new(
            |chain: Chain| self.rates@.contains_key(chain.number()),
            |chain: Chain| self.rates@[chain.number()],
        )
    }
}

impl FeeEstimations {
    /// No estimations.
    pub fn new() -> (r: FeeEstimations)
        ensures
            r@ == Map::<Chain, Binary64>::empty(),
    {
        let r = FeeEstimations { rates: HashMap::new() };
        assert(r@ =~= Map::<Chain, Binary64>::empty());
        r
    }

    /// Sets the rate for a chain and returns the one it had.
    pub fn insert(&mut self, chain: Chain, rate: Binary64) -> (previous: Option<Binary64>)
        ensures
            final(self)@ == old(self)@.insert(chain, rate),
            previous == if old(self)@.contains_key(chain) {
                Some(old(self)@[chain])
            } else {
                None
            },
    {
        let previous = self.rates.insert(chain.to_number(), rate);
        assert(self@ =~= old(self)@.insert(chain, rate));
        previous
    }

    /// The rate for a chain, if there is one.
    pub fn get(&self, chain: &Chain) -> (rate: Option<Binary64>)
        ensures
            rate == if self@.contains_key(*chain) {
                Some(self@[*chain])
            } else {
                None
            },
    {
        match self.rates.get(&chain.to_number()) {
            Some(rate) => Some(*rate),
            None => None,
        }
    }

    /// Whether there is a rate for a chain.
    pub fn contains_key(&self, chain: &Chain) -> (known: bool)
        ensures
            known == self@.contains_key(*chain),
    {
        self.rates.contains_key(&chain.to_number())
    }
}

} // verus!
