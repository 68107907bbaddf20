//! Per-block processing for the dual-feed runner.
//!
//! A block update is handled in two verified steps around the one external
//! query the feed layer must make (asking each pool's state for a spot
//! price, which is not modelled here):
//!
//! 1. [`prepare_block_update`] feeds the block's added/removed pairs into
//!    the chain's [`PoolRelevanceFilter`] and returns exactly the relevant
//!    pools that carry a state entry in this block — the pools to price.
//! 2. [`process_priced_pools`] records every priced pool in the
//!    [`ComponentStateManager`] and compares each fresh price against the
//!    other chain's whole snapshot, emitting one divergence signal per
//!    nonzero absolute difference.

use vstd::prelude::*;

use crate::component_state_manager::{
    chain_states, ComponentState, ComponentStateManager, ComponentStateModel, StateEntry,
    lemma_chain_isolation,
};
use crate::kv::kv_upsert;
use crate::models::{price_diff, spec_price_diff, BlockUpdate, Chain, Price, Token};
use crate::pool_relevance_filter::{
    apply_events, batch_events, pools_with_state, PoolRelevanceFilter,
};

verus! {

/// Divergence signal: a fresh observation on `chain` differs from a cached
/// price on `other_chain` for the watched token pair by `price_diff`.
#[derive(Debug)]
pub struct DivergenceSignal {
    pub chain: Chain,
    pub other_chain: Chain,
    pub token1_symbol: String,
    pub token2_symbol: String,
    pub price_diff: Price,
}

/// Mathematical image of a [`DivergenceSignal`].
pub ghost struct DivergenceSignalModel {
    pub chain: Chain,
    pub other_chain: Chain,
    pub token1_symbol: Seq<char>,
    pub token2_symbol: Seq<char>,
    pub price_diff: Price,
}

impl View for DivergenceSignal {
    type V = DivergenceSignalModel;

    open spec fn view(&self) -> DivergenceSignalModel {
        DivergenceSignalModel {
            chain: self.chain,
            other_chain: self.other_chain,
            token1_symbol: self.token1_symbol@,
            token2_symbol: self.token2_symbol@,
            price_diff: self.price_diff,
        }
    }
}

impl DeepView for DivergenceSignal {
    type V = DivergenceSignalModel;

    open spec fn deep_view(&self) -> DivergenceSignalModel {
        self@
    }
}

/// The signals one fresh price raises against a snapshot of the other
/// chain's cached states, in snapshot order: one signal per entry whose
/// absolute difference from the fresh price is nonzero.
pub open spec fn signals_against(
    p: Price,
    snapshot: Seq<ComponentStateModel>,
    chain: Chain,
    other_chain: Chain,
    sym1: Seq<char>,
    sym2: Seq<char>,
) -> Seq<DivergenceSignalModel>
    decreases snapshot.len(),
{
    if snapshot.len() == 0 {
        Seq::empty()
    } else {
        let rest = signals_against(p, snapshot.drop_last(), chain, other_chain, sym1, sym2);
        if spec_price_diff(p, snapshot.last().spot_price) > 0 {
            rest.push(
                DivergenceSignalModel {
                    chain,
                    other_chain,
                    token1_symbol: sym1,
                    token2_symbol: sym2,
                    price_diff: spec_price_diff(p, snapshot.last().spot_price),
                },
            )
        } else {
            rest
        }
    }
}

/// The signals a whole priced batch raises, pool by pool in batch order,
/// each against the same snapshot of the other chain.
pub open spec fn batch_signals(
    snapshot: Seq<ComponentStateModel>,
    priced: Seq<(Seq<char>, Price)>,
    chain: Chain,
    other_chain: Chain,
    sym1: Seq<char>,
    sym2: Seq<char>,
) -> Seq<DivergenceSignalModel>
    decreases priced.len(),
{
    if priced.len() == 0 {
        Seq::empty()
    } else {
        batch_signals(snapshot, priced.drop_last(), chain, other_chain, sym1, sym2)
            + signals_against(priced.last().1, snapshot, chain, other_chain, sym1, sym2)
    }
}

/// The cache entries after recording a priced batch for `chain`, in batch
/// order.
pub open spec fn record_all(es: Seq<StateEntry>, chain: Chain, priced: Seq<(Seq<char>, Price)>) -> Seq<
    StateEntry,
>
    decreases priced.len(),
{
    if priced.len() == 0 {
        es
    } else {
        kv_upsert(
            record_all(es, chain, priced.drop_last()),
            (chain, priced.last().0),
            ComponentStateModel { spot_price: priced.last().1, id: priced.last().0 },
        )
    }
}

/// First step of a block: apply the block's pool churn to the chain's
/// relevance filter, and name the pools to ask for a price — the relevant
/// pools that carry a state entry in this block, in the filter's order.
pub fn prepare_block_update(
    relevant_pool_ids: &mut PoolRelevanceFilter,
    block_update: &BlockUpdate,
) -> (to_price: Vec<String>)
    requires
        old(relevant_pool_ids).wf(),
    ensures
        final(relevant_pool_ids).wf(),
        final(relevant_pool_ids).token1_symbol == old(relevant_pool_ids).token1_symbol,
        final(relevant_pool_ids).token2_symbol == old(relevant_pool_ids).token2_symbol,
        final(relevant_pool_ids)@ == apply_events(
            old(relevant_pool_ids)@,
            batch_events(
                block_update.new_pairs.deep_view(),
                block_update.removed_pairs.deep_view(),
            ),
            old(relevant_pool_ids).sym1(),
            old(relevant_pool_ids).sym2(),
        ),
        to_price.deep_view() == pools_with_state(
            final(relevant_pool_ids).pool_seq(),
            block_update.state_ids.deep_view(),
        ),
{
    relevant_pool_ids.apply(&block_update.new_pairs, &block_update.removed_pairs);
    relevant_pool_ids.pools_to_price(&block_update.state_ids)
}

/// Second step of a block: record each freshly priced pool for `chain` and
/// compare it against every state currently cached for `other_chain`. The
/// cache ends exactly as the batch of upserts leaves it, and the returned
/// signals are precisely one per (priced pool, other-chain entry) pair with
/// a nonzero absolute price difference, computed against the other chain's
/// snapshot from before this block (which the block's own writes never
/// touch, the two chains being distinct).
pub fn process_priced_pools(
    component_state_manager: &mut ComponentStateManager,
    token1: &Token,
    token2: &Token,
    chain: Chain,
    other_chain: Chain,
    priced: &Vec<(String, Price)>,
) -> (signals: Vec<DivergenceSignal>)
    requires
        old(component_state_manager).wf(),
        chain != other_chain,
    ensures
        final(component_state_manager).wf(),
        final(component_state_manager).entry_seq() == record_all(
            old(component_state_manager).entry_seq(),
            chain,
            priced.deep_view(),
        ),
        signals.deep_view() == batch_signals(
            chain_states(old(component_state_manager).entry_seq(), other_chain),
            priced.deep_view(),
            chain,
            other_chain,
            token1.symbol@,
            token2.symbol@,
        ),
{
    let ghost es0 = old(component_state_manager).entry_seq();
    let ghost snapshot = chain_states(es0, other_chain);
    let ghost pr = priced.deep_view();
    let mut signals: Vec<DivergenceSignal> = Vec::new();
    let n = priced.len();
    let mut i: usize = 0;
    proof {
        assert(pr.subrange(0, 0).len() == 0);
        assert(signals.deep_view() =~= batch_signals(
            snapshot,
            pr.subrange(0, 0),
            chain,
            other_chain,
            token1.symbol@,
            token2.symbol@,
        ));
    }
    while i < n
        invariant
            n == priced.len(),
            i <= n,
            pr == priced.deep_view(),
            es0 == old(component_state_manager).entry_seq(),
            snapshot == chain_states(es0, other_chain),
            chain != other_chain,
            crate::kv::kv_unique(es0),
            component_state_manager.wf(),
            component_state_manager.entry_seq() == record_all(es0, chain, pr.subrange(0, i as int)),
            chain_states(component_state_manager.entry_seq(), other_chain) == snapshot,
            signals.deep_view() == batch_signals(
                snapshot,
                pr.subrange(0, i as int),
                chain,
                other_chain,
                token1.symbol@,
                token2.symbol@,
            ),
        decreases n - i,
    {
        proof {
            assert(pr[i as int] == priced@[i as int].deep_view());
            assert(pr[i as int].0 == priced@[i as int].0@);
            assert(pr[i as int].1 == priced@[i as int].1);
            assert(pr.subrange(0, i + 1).drop_last() =~= pr.subrange(0, i as int));
            assert(pr.subrange(0, i + 1).last() == pr[i as int]);
        }
        let pool_id = priced[i].0.clone();
        let price = priced[i].1;
        let state = ComponentState::new(price, pool_id.clone());
        let ghost es_before = component_state_manager.entry_seq();
        component_state_manager.update_component_state(chain, pool_id.clone(), state);
        proof {
            assert(component_state_manager.entry_seq() == record_all(
                es0,
                chain,
                pr.subrange(0, i + 1),
            ));
            lemma_chain_isolation(es_before, other_chain, chain, pool_id@, state@);
        }
        let others = component_state_manager.get_all_component_state_for_chain(other_chain);
        proof {
            assert(others.deep_view() == snapshot);
        }
        let m = others.len();
        let mut j: usize = 0;
        proof {
            assert(snapshot.subrange(0, 0).len() == 0);
            assert(signals.deep_view() =~= batch_signals(
                snapshot,
                pr.subrange(0, i as int),
                chain,
                other_chain,
                token1.symbol@,
                token2.symbol@,
            ) + signals_against(
                price,
                snapshot.subrange(0, 0),
                chain,
                other_chain,
                token1.symbol@,
                token2.symbol@,
            ));
        }
        while j < m
            invariant
                m == others.len(),
                j <= m,
                others.deep_view() == snapshot,
                signals.deep_view() == batch_signals(
                    snapshot,
                    pr.subrange(0, i as int),
                    chain,
                    other_chain,
                    token1.symbol@,
                    token2.symbol@,
                ) + signals_against(
                    price,
                    snapshot.subrange(0, j as int),
                    chain,
                    other_chain,
                    token1.symbol@,
                    token2.symbol@,
                ),
            decreases m - j,
        {
            proof {
                assert(snapshot.subrange(0, j + 1).drop_last() =~= snapshot.subrange(0, j as int));
                assert(snapshot.subrange(0, j + 1).last() == snapshot[j as int]);
                assert(snapshot[j as int] == others@[j as int]@);
            }
            let other_price = others[j].get_spot_price();
            let d = price_diff(price, other_price);
            if d > 0 {
                let sig = DivergenceSignal {
                    chain,
                    other_chain,
                    token1_symbol: token1.symbol.clone(),
                    token2_symbol: token2.symbol.clone(),
                    price_diff: d,
                };
                let ghost sg0 = signals.deep_view();
                proof {
                    assert(sig@ == (DivergenceSignalModel {
                        chain,
                        other_chain,
                        token1_symbol: token1.symbol@,
                        token2_symbol: token2.symbol@,
                        price_diff: spec_price_diff(price, snapshot[j as int].spot_price),
                    }));
                }
                signals.push(sig);
                proof {
                    assert(signals.deep_view() =~= sg0.push(
                        DivergenceSignalModel {
                            chain,
                            other_chain,
                            token1_symbol: token1.symbol@,
                            token2_symbol: token2.symbol@,
                            price_diff: spec_price_diff(price, snapshot[j as int].spot_price),
                        },
                    ));
                }
            }
            j += 1;
        }
        proof {
            assert(snapshot.subrange(0, m as int) =~= snapshot);
            assert(signals.deep_view() == batch_signals(
                snapshot,
                pr.subrange(0, i + 1),
                chain,
                other_chain,
                token1.symbol@,
                token2.symbol@,
            ));
        }
        i += 1;
    }
    proof {
        assert(pr.subrange(0, n as int) =~= pr);
    }
    signals
}

} // verus!
