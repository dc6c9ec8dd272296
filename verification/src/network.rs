//! The chains on which transactions are made.
use vstd::prelude::*;

verus! {

/// A network of the Bitcoin chain.
#[derive(Clone, Copy, Debug, PartialEq, Eq, Hash, Structural)]
pub enum BitcoinChain {
    Bitcoin,
    BitcoinTestnet,
    BitcoinRegtest,
}

/// A network of the Liquid chain.
#[derive(Clone, Copy, Debug, PartialEq, Eq, Hash, Structural)]
pub enum LiquidChain {
    Liquid,
    LiquidTestnet,
    LiquidRegtest,
}

/// A chain together with its network.
#[derive(Clone, Copy, Debug, PartialEq, Eq, Hash, Structural)]
pub enum Chain {
    Bitcoin(BitcoinChain),
    Liquid(LiquidChain),
}

impl Chain {
    /// The name of this chain, as messages show it.
    pub open spec fn name(self) -> Seq<char> {
        match self {
            Chain::Bitcoin(BitcoinChain::Bitcoin) => "Bitcoin"@,
            Chain::Bitcoin(BitcoinChain::BitcoinTestnet) => "BitcoinTestnet"@,
            Chain::Bitcoin(BitcoinChain::BitcoinRegtest) => "BitcoinRegtest"@,
            Chain::Liquid(LiquidChain::Liquid) => "Liquid"@,
            Chain::Liquid(LiquidChain::LiquidTestnet) => "LiquidTestnet"@,
            Chain::Liquid(LiquidChain::LiquidRegtest) => "LiquidRegtest"@,
        }
    }

    /// A number that no other chain has.
    pub open spec fn number(self) -> u64 {
        match self {
            Chain::Bitcoin(BitcoinChain::Bitcoin) => 0,
            Chain::Bitcoin(BitcoinChain::BitcoinTestnet) => 1,
            Chain::Bitcoin(BitcoinChain::BitcoinRegtest) => 2,
            Chain::Liquid(LiquidChain::Liquid) => 3,
            Chain::Liquid(LiquidChain::LiquidTestnet) => 4,
            Chain::Liquid(LiquidChain::LiquidRegtest) => 5,
        }
    }

    /// The name of this chain.
    pub fn to_string(&self) -> (s: String)
        ensures
            s@ == self.name(),
            match *self {
                Chain::Bitcoin(BitcoinChain::Bitcoin) => s@ == "Bitcoin"@,
                Chain::Bitcoin(BitcoinChain::BitcoinTestnet) => s@ == "BitcoinTestnet"@,
                Chain::Bitcoin(BitcoinChain::BitcoinRegtest) => s@ == "BitcoinRegtest"@,
                Chain::Liquid(LiquidChain::Liquid) => s@ == "Liquid"@,
                Chain::Liquid(LiquidChain::LiquidTestnet) => s@ == "LiquidTestnet"@,
                Chain::Liquid(LiquidChain::LiquidRegtest) => s@ == "LiquidRegtest"@,
            },
    {
        let name = match *self {
            Chain::Bitcoin(BitcoinChain::Bitcoin) => "Bitcoin",
            Chain::Bitcoin(BitcoinChain::BitcoinTestnet) => "BitcoinTestnet",
            Chain::Bitcoin(BitcoinChain::BitcoinRegtest) => "BitcoinRegtest",
            Chain::Liquid(LiquidChain::Liquid) => "Liquid",
            Chain::Liquid(LiquidChain::LiquidTestnet) => "LiquidTestnet",
            Chain::Liquid(LiquidChain::LiquidRegtest) => "LiquidRegtest",
        };
        name.to_owned()
    }

    /// The number of this chain.
    pub fn to_number(&self) -> (n: u64)
        ensures
            n == self.number(),
    {
        match *self {
            Chain::Bitcoin(BitcoinChain::Bitcoin) => 0,
            Chain::Bitcoin(BitcoinChain::BitcoinTestnet) => 1,
            Chain::Bitcoin(BitcoinChain::BitcoinRegtest) => 2,
            Chain::Liquid(LiquidChain::Liquid) => 3,
            Chain::Liquid(LiquidChain::LiquidTestnet) => 4,
            Chain::Liquid(LiquidChain::LiquidRegtest) => 5,
        }
    }
}

/// Two chains have the same name or the same number only if they are the same.
pub proof fn law_chains_are_told_apart(a: Chain, b: Chain)
    ensures
        a.name() == b.name() <==> a == b,
        a.number() == b.number() <==> a == b,
{
    reveal_strlit("Bitcoin");
    reveal_strlit("BitcoinTestnet");
    reveal_strlit("BitcoinRegtest");
    reveal_strlit("Liquid");
    reveal_strlit("LiquidTestnet");
    reveal_strlit("LiquidRegtest");
    // Names of one length differ in the first letter or in the one where the network's
    // name begins.
    let (s, t) = (a.name(), b.name());
    if s == t {
        assert(s.len() == t.len());
        assert(s[0] == t[0]);
        if s.len() > 7 {
            assert(s[6] == t[6]);
            assert(s[7] == t[7]);
        }
    }
}

} // verus!
