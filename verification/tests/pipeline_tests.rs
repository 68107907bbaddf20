// Scenario tests for the full per-block flow. Prices are fixed-point with
// 10^4 units per 1.0, so 1.0007 is written 10007.

use tycho_cross_chain_arb_bot::component_state_manager::ComponentStateManager;
use tycho_cross_chain_arb_bot::models::{price_diff, BlockUpdate, Chain, Token};
use tycho_cross_chain_arb_bot::price_reader::{PriceInfo, PriceManager};
use tycho_cross_chain_arb_bot::simulation_stream_runner::{
    prepare_block_update, process_priced_pools,
};
use tycho_cross_chain_arb_bot::pool_relevance_filter::PoolRelevanceFilter;
use tycho_cross_chain_arb_bot::simulation_stream;
use tycho_cross_chain_arb_bot::tycho_simulation::TychoSimulation;
use tycho_cross_chain_arb_bot::util::{
    register_exchanges, ComponentFilterKind, ExchangeStateKind,
};

fn usdc() -> Token {
    Token::new(
        "0xa0b86991c6218b36c1d19d4a2e9eb0ce3606eb48".to_string(),
        6,
        "USDC".to_string(),
    )
}

fn usdt() -> Token {
    Token::new(
        "0xdac17f958d2ee523a2206206994597c13d831ec7".to_string(),
        6,
        "USDT".to_string(),
    )
}

fn block(
    number: u64,
    new_pairs: Vec<(&str, Vec<&str>)>,
    removed: Vec<&str>,
    state_ids: Vec<&str>,
) -> BlockUpdate {
    BlockUpdate {
        block_number: number,
        new_pairs: new_pairs
            .into_iter()
            .map(|(id, toks)| (id.to_string(), toks.into_iter().map(|t| t.to_string()).collect()))
            .collect(),
        removed_pairs: removed.into_iter().map(|s| s.to_string()).collect(),
        state_ids: state_ids.into_iter().map(|s| s.to_string()).collect(),
    }
}

#[test]
fn scenario_price_observation_lands_in_cache() {
    // Pool "p1" is added with {USDC, USDT}; a later block prices it at
    // 1.0007 and the cache answers with exactly that price.
    let mut filter = PoolRelevanceFilter::new("USDC".to_string(), "USDT".to_string());
    let mut manager = ComponentStateManager::new();
    let t1 = usdc();
    let t2 = usdt();

    let b1 = block(100, vec![("p1", vec!["USDC", "USDT"])], vec![], vec![]);
    let to_price = prepare_block_update(&mut filter, &b1);
    assert!(to_price.is_empty());

    let b2 = block(101, vec![], vec![], vec!["p1"]);
    let to_price = prepare_block_update(&mut filter, &b2);
    assert_eq!(to_price, vec!["p1".to_string()]);

    let priced = vec![("p1".to_string(), 10007u64)];
    let signals =
        process_priced_pools(&mut manager, &t1, &t2, Chain::Ethereum, Chain::Unichain, &priced);
    assert!(signals.is_empty());
    let st = manager.get_component_state(Chain::Ethereum, "p1".to_string()).unwrap();
    assert_eq!(st.get_spot_price(), 10007);
}

#[test]
fn scenario_cross_chain_divergence_is_reported() {
    // Chain A's "p1" at 1.0007 against chain B's already-cached "p2" at
    // 1.0015: one divergence of 0.0008.
    let mut manager = ComponentStateManager::new();
    let t1 = usdc();
    let t2 = usdt();

    let b_priced = vec![("p2".to_string(), 10015u64)];
    let signals =
        process_priced_pools(&mut manager, &t1, &t2, Chain::Unichain, Chain::Ethereum, &b_priced);
    assert!(signals.is_empty());

    let a_priced = vec![("p1".to_string(), 10007u64)];
    let signals =
        process_priced_pools(&mut manager, &t1, &t2, Chain::Ethereum, Chain::Unichain, &a_priced);
    assert_eq!(signals.len(), 1);
    assert_eq!(signals[0].price_diff, 8);
    assert_eq!(signals[0].chain, Chain::Ethereum);
    assert_eq!(signals[0].other_chain, Chain::Unichain);
    assert_eq!(signals[0].token1_symbol, "USDC".to_string());
    assert_eq!(signals[0].token2_symbol, "USDT".to_string());
}

#[test]
fn scenario_equal_prices_raise_no_signal() {
    let mut manager = ComponentStateManager::new();
    let t1 = usdc();
    let t2 = usdt();
    let priced = vec![("p2".to_string(), 10007u64)];
    process_priced_pools(&mut manager, &t1, &t2, Chain::Unichain, Chain::Ethereum, &priced);
    let priced = vec![("p1".to_string(), 10007u64)];
    let signals =
        process_priced_pools(&mut manager, &t1, &t2, Chain::Ethereum, Chain::Unichain, &priced);
    assert!(signals.is_empty());
}

#[test]
fn scenario_pool_removed_before_any_price_never_enters_cache() {
    // "p1" added and removed within two consecutive blocks before any
    // price observation: no cache entry ever appears for it.
    let mut filter = PoolRelevanceFilter::new("USDC".to_string(), "USDT".to_string());
    let mut manager = ComponentStateManager::new();
    let t1 = usdc();
    let t2 = usdt();

    let b1 = block(100, vec![("p1", vec!["USDC", "USDT"])], vec![], vec![]);
    let to_price = prepare_block_update(&mut filter, &b1);
    assert!(to_price.is_empty());

    let b2 = block(101, vec![], vec!["p1"], vec!["p1"]);
    let to_price = prepare_block_update(&mut filter, &b2);
    assert!(to_price.is_empty());

    let signals =
        process_priced_pools(&mut manager, &t1, &t2, Chain::Ethereum, Chain::Unichain, &Vec::new());
    assert!(signals.is_empty());
    assert!(manager.get_component_state(Chain::Ethereum, "p1".to_string()).is_none());
}

#[test]
fn scenario_one_sided_activity_raises_nothing() {
    // A thousand blocks of activity on chain A with chain B silent: every
    // divergence check runs against an empty snapshot and reports nothing.
    let mut filter = PoolRelevanceFilter::new("USDC".to_string(), "USDT".to_string());
    let mut manager = ComponentStateManager::new();
    let t1 = usdc();
    let t2 = usdt();

    let b0 = block(100, vec![("p1", vec!["USDC", "USDT"])], vec![], vec![]);
    prepare_block_update(&mut filter, &b0);

    for k in 0..1000u64 {
        let b = block(101 + k, vec![], vec![], vec!["p1"]);
        let to_price = prepare_block_update(&mut filter, &b);
        assert_eq!(to_price, vec!["p1".to_string()]);
        let priced = vec![("p1".to_string(), 10000 + k)];
        let signals =
            process_priced_pools(&mut manager, &t1, &t2, Chain::Ethereum, Chain::Unichain, &priced);
        assert!(signals.is_empty());
    }
    assert!(manager.get_all_component_state_for_chain(Chain::Unichain).is_empty());
    let st = manager.get_component_state(Chain::Ethereum, "p1".to_string()).unwrap();
    assert_eq!(st.get_spot_price(), 10999);
}

#[test]
fn divergence_is_symmetric() {
    assert_eq!(price_diff(10007, 10015), 8);
    assert_eq!(price_diff(10015, 10007), 8);
    assert_eq!(price_diff(42, 42), 0);

    // The same pair of prices reported from either side yields the same
    // divergence, through the price manager as well.
    let a = PriceInfo::new(10007, 7, Chain::Ethereum, "p1".to_string(), usdc(), usdt());
    let b = PriceInfo::new(10015, 9, Chain::Unichain, "p2".to_string(), usdc(), usdt());

    let mut m1 = PriceManager::new();
    m1.on_chain2_price(&b);
    let d1 = m1.on_chain1_price(&a);

    let mut m2 = PriceManager::new();
    m2.on_chain1_price(&a);
    let d2 = m2.on_chain2_price(&b);

    assert_eq!(d1, Some(8));
    assert_eq!(d2, Some(8));
}

#[test]
fn price_manager_needs_both_feeds() {
    let a = PriceInfo::new(10007, 7, Chain::Ethereum, "p1".to_string(), usdc(), usdt());
    let mut m = PriceManager::new();
    assert_eq!(m.on_chain1_price(&a), None);
    assert_eq!(m.latest_block_number, 7);
    let same = PriceInfo::new(10007, 8, Chain::Unichain, "p2".to_string(), usdc(), usdt());
    assert_eq!(m.on_chain2_price(&same), None);
    let moved = PriceInfo::new(10010, 9, Chain::Unichain, "p2".to_string(), usdc(), usdt());
    assert_eq!(m.on_chain2_price(&moved), Some(3));
    assert_eq!(m.latest_block_number, 9);
}

#[test]
fn ethereum_registers_six_exchanges() {
    let regs = register_exchanges(Chain::Ethereum);
    let names: Vec<String> = regs.iter().map(|r| r.protocol_system.clone()).collect();
    assert_eq!(
        names,
        vec![
            "uniswap_v2".to_string(),
            "uniswap_v3".to_string(),
            "vm:balancer_v2".to_string(),
            "vm:curve".to_string(),
            "ekubo_v2".to_string(),
            "uniswap_v4".to_string(),
        ],
    );
    assert_eq!(regs[2].state, ExchangeStateKind::EvmPool);
    assert_eq!(regs[2].filter, ComponentFilterKind::BalancerPool);
    assert_eq!(regs[3].filter, ComponentFilterKind::CurvePool);
    assert_eq!(regs[5].filter, ComponentFilterKind::UniswapV4Hook);
}

#[test]
fn base_and_unichain_register_three_exchanges() {
    for chain in [Chain::Base, Chain::Unichain] {
        let regs = register_exchanges(chain);
        let names: Vec<String> = regs.iter().map(|r| r.protocol_system.clone()).collect();
        assert_eq!(
            names,
            vec!["uniswap_v2".to_string(), "uniswap_v3".to_string(), "uniswap_v4".to_string()],
        );
        assert_eq!(regs[0].filter, ComponentFilterKind::NoFilter);
        assert_eq!(regs[2].filter, ComponentFilterKind::UniswapV4Hook);
    }
}

#[test]
fn simulation_config_keys_tokens_by_address() {
    let sim = TychoSimulation::new(
        "https://tycho-beta.example".to_string(),
        "key".to_string(),
        10,
        10,
        usdc(),
        usdt(),
        Chain::Ethereum,
    );
    assert_eq!(sim.token_map.len(), 2);
    assert_eq!(sim.token_map[0].0, usdc().address);
    assert_eq!(sim.token_map[0].1.symbol, "USDC".to_string());
    assert_eq!(sim.token_map[1].0, usdt().address);
    assert_eq!(sim.token_map[1].1.symbol, "USDT".to_string());

    let twin = Token::new(usdc().address, 6, "USDC2".to_string());
    let sim = TychoSimulation::new(
        "https://tycho-beta.example".to_string(),
        "key".to_string(),
        10,
        10,
        usdc(),
        twin,
        Chain::Ethereum,
    );
    assert_eq!(sim.token_map.len(), 1);
    assert_eq!(sim.token_map[0].1.symbol, "USDC2".to_string());
}

#[test]
fn stream_config_holds_subscription_identity() {
    let sim = simulation_stream::TychoSimulation::new(
        "https://tycho-beta.example".to_string(),
        "key".to_string(),
        10,
        10,
        usdc(),
        usdt(),
        Chain::Unichain,
    );
    assert_eq!(sim.url, "https://tycho-beta.example".to_string());
    assert_eq!(sim.api_key, "key".to_string());
    assert_eq!(sim.remove_tvl_threshold, 10);
    assert_eq!(sim.add_tvl_threshold, 10);
    assert_eq!(sim.chain, Chain::Unichain);
    assert_eq!(sim.token_map.len(), 2);
    assert_eq!(sim.token1.symbol, "USDC".to_string());
    assert_eq!(sim.token2.symbol, "USDT".to_string());
}

#[test]
fn feed_processor_builds_price_infos() {
    let mut sim = TychoSimulation::new(
        "https://tycho-beta.example".to_string(),
        "key".to_string(),
        10,
        10,
        usdc(),
        usdt(),
        Chain::Ethereum,
    );
    let b1 = block(100, vec![("p1", vec!["USDC", "USDT"])], vec![], vec!["p1"]);
    let to_price = sim.apply_block(&b1);
    assert_eq!(to_price, vec!["p1".to_string()]);
    let infos = sim.price_infos(&vec![("p1".to_string(), 10007u64)], 100);
    assert_eq!(infos.len(), 1);
    assert_eq!(infos[0].price, 10007);
    assert_eq!(infos[0].block_number, 100);
    assert_eq!(infos[0].chain, Chain::Ethereum);
    assert_eq!(infos[0].component_id, "p1".to_string());
    assert_eq!(infos[0].token1.symbol, "USDC".to_string());
    assert_eq!(infos[0].token2.symbol, "USDT".to_string());
}
