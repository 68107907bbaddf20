//! Configuration of one chain's protocol-state subscription, for the runner
//! that consumes raw block-update streams.
//!
//! Opening the subscription itself is network work and lives with the feed
//! layer; this module fixes what the subscription is made of: endpoint,
//! auth key, TVL thresholds, the watched token pair, and the token universe
//! the source must be initialised with (both watched tokens, keyed by
//! address).

use vstd::prelude::*;

use crate::models::{Chain, Price, Token, TokenModel};

verus! {

/// The token universe handed to the protocol state source: each watched
/// token keyed by its address. Inserting the second token over the first
/// leaves one entry when the two addresses coincide.
pub open spec fn spec_token_map(t1: TokenModel, t2: TokenModel) -> Seq<(Seq<char>, TokenModel)> {
    if t1.address == t2.address {
        seq![(t1.address, t2)]
    } else {
        seq![(t1.address, t1), (t2.address, t2)]
    }
}

/// Everything a chain's protocol-state subscription is built from.
#[derive(Debug)]
pub struct TychoSimulation {
    pub url: String,
    pub api_key: String,
    pub remove_tvl_threshold: Price,
    pub add_tvl_threshold: Price,
    pub token_map: Vec<(String, Token)>,
    pub token1: Token,
    pub token2: Token,
    pub chain: Chain,
}

impl TychoSimulation {
    pub fn new(
        url: String,
        api_key: String,
        remove_tvl_threshold: Price,
        add_tvl_threshold: Price,
        token1: Token,
        token2: Token,
        chain: Chain,
    ) -> (r: Self)
        ensures
            r.url@ == url@,
            r.api_key@ == api_key@,
            r.remove_tvl_threshold == remove_tvl_threshold,
            r.add_tvl_threshold == add_tvl_threshold,
            r.token1@ == token1@,
            r.token2@ == token2@,
            r.chain == chain,
            r.token_map.deep_view() == spec_token_map(token1@, token2@),
    {
        let mut token_map: Vec<(String, Token)> = Vec::new();
        if token1.address == token2.address {
            token_map.push((token1.address.clone(), token2.clone()));
            proof {
                assert(token_map.deep_view() =~= spec_token_map(token1@, token2@));
            }
        } else {
            token_map.push((token1.address.clone(), token1.clone()));
            token_map.push((token2.address.clone(), token2.clone()));
            proof {
                assert(token_map.deep_view() =~= spec_token_map(token1@, token2@));
            }
        }
        TychoSimulation {
            url,
            api_key,
            remove_tvl_threshold,
            add_tvl_threshold,
            token_map,
            token1,
            token2,
            chain,
        }
    }
}

} // verus!
