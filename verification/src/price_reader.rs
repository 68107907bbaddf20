//! Price observations and the two-feed price comparison state machine.
//!
//! The feed layer delivers one [`PriceInfo`] per freshly priced pool. The
//! [`PriceManager`] keeps the latest price seen on each of the two chains
//! and, on every new observation, compares it against the other chain's
//! latest price: any nonzero absolute difference is a divergence.

use vstd::prelude::*;

use crate::models::{price_diff, spec_price_diff, Chain, Price, Token, TokenModel};

verus! {

/// One priced observation: a pool on one chain, at one block.
#[derive(Debug)]
pub struct PriceInfo {
    pub price: Price,
    pub block_number: u64,
    pub token1: Token,
    pub token2: Token,
    pub chain: Chain,
    pub component_id: String,
}

/// Mathematical image of a [`PriceInfo`].
pub ghost struct PriceInfoModel {
    pub price: Price,
    pub block_number: u64,
    pub token1: TokenModel,
    pub token2: TokenModel,
    pub chain: Chain,
    pub component_id: Seq<char>,
}

impl View for PriceInfo {
    type V = PriceInfoModel;

    open spec fn view(&self) -> PriceInfoModel {
        PriceInfoModel {
            price: self.price,
            block_number: self.block_number,
            token1: self.token1@,
            token2: self.token2@,
            chain: self.chain,
            component_id: self.component_id@,
        }
    }
}

impl DeepView for PriceInfo {
    type V = PriceInfoModel;

    open spec fn deep_view(&self) -> PriceInfoModel {
        self@
    }
}

impl Clone for PriceInfo {
    fn clone(&self) -> (r: Self)
        ensures
            r@ == self@,
    {
        PriceInfo {
            price: self.price,
            block_number: self.block_number,
            token1: self.token1.clone(),
            token2: self.token2.clone(),
            chain: self.chain,
            component_id: self.component_id.clone(),
        }
    }
}

impl PriceInfo {
    pub fn new(
        price: Price,
        block_number: u64,
        chain: Chain,
        component_id: String,
        token1: Token,
        token2: Token,
    ) -> (r: Self)
        ensures
            r@ == (PriceInfoModel {
                price,
                block_number,
                token1: token1@,
                token2: token2@,
                chain,
                component_id: component_id@,
            }),
    {
        PriceInfo { price, block_number, chain, component_id, token1, token2 }
    }
}

/// The divergence a fresh price `p` raises against the other chain's latest
/// price, if any: the nonzero absolute difference, `None` when the other
/// chain has no price yet or the prices agree exactly.
pub open spec fn spec_divergence(p: Price, other: Option<Price>) -> Option<Price> {
    match other {
        Some(q) => if spec_price_diff(p, q) > 0 {
            Some(spec_price_diff(p, q))
        } else {
            None
        },
        None => None,
    }
}

/// Law (divergence symmetry): a fresh price `p` against a cached price `q`
/// reports exactly the divergence that a fresh `q` against a cached `p`
/// would report.
pub proof fn lemma_divergence_symmetric(p: Price, q: Price)
    ensures
        spec_divergence(p, Some(q)) == spec_divergence(q, Some(p)),
{
    crate::models::lemma_price_diff_symmetric(p, q);
}

/// Latest-price state of the two feeds and the block number of the most
/// recent observation from either.
#[derive(Debug)]
pub struct PriceManager {
    pub latest_block_number: u64,
    pub chain1_latest_price: Option<Price>,
    pub chain2_latest_price: Option<Price>,
}

impl PriceManager {
    pub fn new() -> (m: Self)
        ensures
            m.latest_block_number == 0,
            m.chain1_latest_price is None,
            m.chain2_latest_price is None,
    {
        PriceManager {
            latest_block_number: 0,
            chain1_latest_price: None,
            chain2_latest_price: None,
        }
    }

    /// A fresh observation from the first chain's feed: remember its price
    /// and block number, and report the divergence against the second
    /// chain's latest price, if any.
    pub fn on_chain1_price(&mut self, price: &PriceInfo) -> (r: Option<Price>)
        ensures
            final(self).chain1_latest_price == Some(price.price),
            final(self).chain2_latest_price == old(self).chain2_latest_price,
            final(self).latest_block_number == price.block_number,
            r == spec_divergence(price.price, old(self).chain2_latest_price),
    {
        let r = match self.chain2_latest_price {
            Some(q) => {
                let d = price_diff(price.price, q);
                if d > 0 {
                    Some(d)
                } else {
                    None
                }
            },
            None => None,
        };
        self.chain1_latest_price = Some(price.price);
        self.latest_block_number = price.block_number;
        r
    }

    /// A fresh observation from the second chain's feed, symmetrically.
    pub fn on_chain2_price(&mut self, price: &PriceInfo) -> (r: Option<Price>)
        ensures
            final(self).chain2_latest_price == Some(price.price),
            final(self).chain1_latest_price == old(self).chain1_latest_price,
            final(self).latest_block_number == price.block_number,
            r == spec_divergence(price.price, old(self).chain1_latest_price),
    {
        let r = match self.chain1_latest_price {
            Some(q) => {
                let d = price_diff(price.price, q);
                if d > 0 {
                    Some(d)
                } else {
                    None
                }
            },
            None => None,
        };
        self.chain2_latest_price = Some(price.price);
        self.latest_block_number = price.block_number;
        r
    }
}

} // verus!
