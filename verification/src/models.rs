//! Core data model: chains, tokens, fixed-point prices and block updates.

use vstd::prelude::*;

verus! {

/// A spot price as a fixed-point integer. The scale (units per 1.0) is chosen
/// by the feed layer when it converts a raw quote; all logic here only
/// compares prices on one common scale.
pub type Price = u64;

/// Network identifier. The set of supported chains is fixed at compile time
/// and the chain is used as a partition key throughout.
#[derive(Clone, Copy, Debug, PartialEq, Eq, Structural, Hash)]
pub enum Chain {
    Ethereum,
    Base,
    Unichain,
}

impl View for Chain {
    type V = Chain;

    open spec fn view(&self) -> Chain {
        *self
    }
}

impl DeepView for Chain {
    type V = Chain;

    open spec fn deep_view(&self) -> Chain {
        *self
    }
}

/// Immutable token identity: address, decimal precision and symbol.
#[derive(Debug)]
pub struct Token {
    pub address: String,
    pub decimals: u32,
    pub symbol: String,
}

/// Mathematical image of a [`Token`].
pub ghost struct TokenModel {
    pub address: Seq<char>,
    pub decimals: u32,
    pub symbol: Seq<char>,
}

impl View for Token {
    type V = TokenModel;

    open spec fn view(&self) -> TokenModel {
        TokenModel { address: self.address@, decimals: self.decimals, symbol: self.symbol@ }
    }
}

impl DeepView for Token {
    type V = TokenModel;

    open spec fn deep_view(&self) -> TokenModel {
        self@
    }
}

impl Clone for Token {
    fn clone(&self) -> (t: Self)
        ensures
            t@ == self@,
    {
        Token {
            address: self.address.clone(),
            decimals: self.decimals,
            symbol: self.symbol.clone(),
        }
    }
}

impl Token {
    pub fn new(address: String, decimals: u32, symbol: String) -> (t: Token)
        ensures
            t@ == (TokenModel { address: address@, decimals, symbol: symbol@ }),
    {
        Token { address, decimals, symbol }
    }
}

/// Absolute difference of two prices, the measure of divergence between the
/// same pair's quotes on two chains.
pub open spec fn spec_price_diff(p: Price, q: Price) -> Price {
    if p >= q {
        (p - q) as Price
    } else {
        (q - p) as Price
    }
}

/// Exec counterpart of [`spec_price_diff`].
pub fn price_diff(p: Price, q: Price) -> (d: Price)
    ensures
        d == spec_price_diff(p, q),
{
    if p >= q {
        p - q
    } else {
        q - p
    }
}

/// Divergence is symmetric: comparing chain A's quote against chain B's
/// reports the same absolute difference as comparing B's against A's.
pub proof fn lemma_price_diff_symmetric(p: Price, q: Price)
    ensures
        spec_price_diff(p, q) == spec_price_diff(q, p),
{
}

/// Linear membership test on a vector of strings, by string value.
pub fn string_vec_contains(v: &Vec<String>, s: &String) -> (r: bool)
    ensures
        r == v.deep_view().contains(s@),
{
    let ghost dv = v.deep_view();
    let n = v.len();
    let mut i: usize = 0;
    while i < n
        invariant
            n == v.len(),
            dv == v.deep_view(),
            i <= n,
            forall|m: int| 0 <= m < i ==> (#[trigger] dv[m]) != s@,
        decreases n - i,
    {
        proof {
            assert(dv[i as int] == v@[i as int]@);
        }
        if v[i] == *s {
            proof {
                assert(dv.contains(s@)) by {
                    assert(dv[i as int] == s@);
                }
            }
            return true;
        }
        i += 1;
    }
    proof {
        assert(!dv.contains(s@)) by {
            if dv.contains(s@) {
                let j = choose|j: int| 0 <= j < dv.len() && dv[j] == s@;
            }
        }
    }
    false
}

/// One chain's batch of pool events for a single block: pools added with
/// their token symbol lists, pools removed, and the pools for which this
/// block carries a fresh state (and so can be asked for a spot price).
/// All entries are applied as one atomic unit before any divergence check.
#[derive(Debug)]
pub struct BlockUpdate {
    pub block_number: u64,
    pub new_pairs: Vec<(String, Vec<String>)>,
    pub removed_pairs: Vec<String>,
    pub state_ids: Vec<String>,
}

} // verus!
