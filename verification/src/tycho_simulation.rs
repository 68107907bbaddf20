//! One chain's feed processor for the channel pipeline: subscription
//! configuration plus the per-chain relevance filter, and the verified
//! per-block steps around the external spot-price query.
//!
//! The feed layer drives it per block: [`TychoSimulation::apply_block`]
//! digests the block's pool churn and names the pools to price; the feed
//! layer asks the protocol state source for those prices (aborting the
//! block if a query fails, as the next block supersedes it anyway); and
//! [`TychoSimulation::price_infos`] turns the priced pools into the
//! observations sent downstream.

use vstd::prelude::*;

use crate::models::{BlockUpdate, Chain, Price, Token, TokenModel};
use crate::pool_relevance_filter::{apply_events, batch_events, pools_with_state, PoolRelevanceFilter};
use crate::price_reader::{PriceInfo, PriceInfoModel};
use crate::simulation_stream::spec_token_map;
use crate::simulation_stream_runner::prepare_block_update;

verus! {

/// The observations one priced batch yields, in batch order, all at one
/// block for one chain and token pair.
pub open spec fn spec_price_infos(
    priced: Seq<(Seq<char>, Price)>,
    block_number: u64,
    chain: Chain,
    t1: TokenModel,
    t2: TokenModel,
) -> Seq<PriceInfoModel> {
    priced.map_values(
        |e: (Seq<char>, Price)|
            PriceInfoModel {
                price: e.1,
                block_number,
                token1: t1,
                token2: t2,
                chain,
                component_id: e.0,
            },
    )
}

/// One chain's feed processor: subscription configuration and the live
/// relevant-pool set.
#[derive(Debug)]
pub struct TychoSimulation {
    pub url: String,
    pub api_key: String,
    pub remove_tvl_threshold: Price,
    pub add_tvl_threshold: Price,
    pub token_map: Vec<(String, Token)>,
    pub token1: Token,
    pub token2: Token,
    pub relevant_pool_ids: PoolRelevanceFilter,
    pub chain: Chain,
}

impl TychoSimulation {
    /// Structural invariant: the relevance filter is well formed and
    /// watches this processor's token pair, by symbol.
    pub open spec fn wf(&self) -> bool {
        self.relevant_pool_ids.wf() && self.relevant_pool_ids.sym1() == self.token1.symbol@
            && self.relevant_pool_ids.sym2() == self.token2.symbol@
    }

    pub fn new(
        url: String,
        api_key: String,
        remove_tvl_threshold: Price,
        add_tvl_threshold: Price,
        token1: Token,
        token2: Token,
        chain: Chain,
    ) -> (r: Self)
        ensures
            r.wf(),
            r.url@ == url@,
            r.api_key@ == api_key@,
            r.remove_tvl_threshold == remove_tvl_threshold,
            r.add_tvl_threshold == add_tvl_threshold,
            r.token1@ == token1@,
            r.token2@ == token2@,
            r.chain == chain,
            r.token_map.deep_view() == spec_token_map(token1@, token2@),
            r.relevant_pool_ids@ == Set::<Seq<char>>::empty(),
    {
        let mut token_map: Vec<(String, Token)> = Vec::new();
        if token1.address == token2.address {
            token_map.push((token1.address.clone(), token2.clone()));
            proof {
                assert(token_map.deep_view() =~= spec_token_map(token1@, token2@));
            }
        } else {
            token_map.push((token1.address.clone(), token1.clone()));
            token_map.push((token2.address.clone(), token2.clone()));
            proof {
                assert(token_map.deep_view() =~= spec_token_map(token1@, token2@));
            }
        }
        let relevant_pool_ids = PoolRelevanceFilter::new(
            token1.symbol.clone(),
            token2.symbol.clone(),
        );
        TychoSimulation {
            url,
            api_key,
            remove_tvl_threshold,
            add_tvl_threshold,
            token_map,
            token1,
            token2,
            relevant_pool_ids,
            chain,
        }
    }

    /// Digest one block's pool churn and name the pools to price: the
    /// relevant pools carrying a state entry in this block.
    pub fn apply_block(&mut self, block_update: &BlockUpdate) -> (to_price: Vec<String>)
        requires
            old(self).wf(),
        ensures
            final(self).wf(),
            final(self).url == old(self).url,
            final(self).api_key == old(self).api_key,
            final(self).remove_tvl_threshold == old(self).remove_tvl_threshold,
            final(self).add_tvl_threshold == old(self).add_tvl_threshold,
            final(self).token_map == old(self).token_map,
            final(self).token1 == old(self).token1,
            final(self).token2 == old(self).token2,
            final(self).chain == old(self).chain,
            final(self).relevant_pool_ids@ == apply_events(
                old(self).relevant_pool_ids@,
                batch_events(
                    block_update.new_pairs.deep_view(),
                    block_update.removed_pairs.deep_view(),
                ),
                old(self).token1.symbol@,
                old(self).token2.symbol@,
            ),
            to_price.deep_view() == pools_with_state(
                final(self).relevant_pool_ids.pool_seq(),
                block_update.state_ids.deep_view(),
            ),
    {
        prepare_block_update(&mut self.relevant_pool_ids, block_update)
    }

    /// Turn one block's priced pools into the observations to send
    /// downstream, in batch order.
    pub fn price_infos(&self, priced: &Vec<(String, Price)>, block_number: u64) -> (r: Vec<
        PriceInfo,
    >)
        ensures
            r.deep_view() == spec_price_infos(
                priced.deep_view(),
                block_number,
                self.chain,
                self.token1@,
                self.token2@,
            ),
    {
        let ghost pr = priced.deep_view();
        let n = priced.len();
        let mut r: Vec<PriceInfo> = Vec::new();
        let mut i: usize = 0;
        proof {
            assert(r.deep_view() =~= spec_price_infos(
                pr.subrange(0, 0),
                block_number,
                self.chain,
                self.token1@,
                self.token2@,
            ));
        }
        while i < n
            invariant
                n == priced.len(),
                i <= n,
                pr == priced.deep_view(),
                r.deep_view() == spec_price_infos(
                    pr.subrange(0, i as int),
                    block_number,
                    self.chain,
                    self.token1@,
                    self.token2@,
                ),
            decreases n - i,
        {
            let ghost r0 = r.deep_view();
            proof {
                assert(pr[i as int] == priced@[i as int].deep_view());
            }
            let info = PriceInfo::new(
                priced[i].1,
                block_number,
                self.chain,
                priced[i].0.clone(),
                self.token1.clone(),
                self.token2.clone(),
            );
            r.push(info);
            proof {
                assert(r.deep_view() =~= r0.push(
                    PriceInfoModel {
                        price: pr[i as int].1,
                        block_number,
                        token1: self.token1@,
                        token2: self.token2@,
                        chain: self.chain,
                        component_id: pr[i as int].0,
                    },
                ));
                assert(spec_price_infos(
                    pr.subrange(0, i + 1),
                    block_number,
                    self.chain,
                    self.token1@,
                    self.token2@,
                ) =~= r0.push(
                    PriceInfoModel {
                        price: pr[i as int].1,
                        block_number,
                        token1: self.token1@,
                        token2: self.token2@,
                        chain: self.chain,
                        component_id: pr[i as int].0,
                    },
                ));
            }
            i += 1;
        }
        proof {
            assert(pr.subrange(0, n as int) =~= pr);
        }
        r
    }
}

} // verus!
