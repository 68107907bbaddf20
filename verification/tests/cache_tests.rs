use tycho_cross_chain_arb_bot::component_info::{ChainComponentMap, ComponentMap, ProtocolComponent};
use tycho_cross_chain_arb_bot::component_state_manager::{ComponentState, ComponentStateManager};
use tycho_cross_chain_arb_bot::models::Chain;

fn component(id: &str, system: &str, tokens: &[&str]) -> ProtocolComponent {
    ProtocolComponent {
        id: id.to_string(),
        protocol_system: system.to_string(),
        tokens: tokens.iter().map(|t| t.to_string()).collect(),
    }
}

#[test]
fn cache_update_then_get() {
    let mut m = ComponentStateManager::new();
    m.update_component_state(
        Chain::Ethereum,
        "p1".to_string(),
        ComponentState::new(10007, "p1".to_string()),
    );
    let st = m.get_component_state(Chain::Ethereum, "p1".to_string()).unwrap();
    assert_eq!(st.get_spot_price(), 10007);
    assert_eq!(st.get_id(), &"p1".to_string());
}

#[test]
fn cache_overwrite_leaves_second_value() {
    let mut m = ComponentStateManager::new();
    m.update_component_state(
        Chain::Ethereum,
        "p1".to_string(),
        ComponentState::new(10007, "p1".to_string()),
    );
    m.update_component_state(
        Chain::Ethereum,
        "p1".to_string(),
        ComponentState::new(10015, "p1".to_string()),
    );
    let st = m.get_component_state(Chain::Ethereum, "p1".to_string()).unwrap();
    assert_eq!(st.get_spot_price(), 10015);
    let all = m.get_all_component_state_for_chain(Chain::Ethereum);
    assert_eq!(all.len(), 1);
    assert_eq!(all[0].get_spot_price(), 10015);
}

#[test]
fn cache_missing_key_is_none() {
    let m = ComponentStateManager::new();
    assert!(m.get_component_state(Chain::Ethereum, "p1".to_string()).is_none());
}

#[test]
fn same_pool_id_on_two_chains_is_two_entries() {
    let mut m = ComponentStateManager::new();
    m.update_component_state(
        Chain::Ethereum,
        "p1".to_string(),
        ComponentState::new(11, "p1".to_string()),
    );
    m.update_component_state(
        Chain::Unichain,
        "p1".to_string(),
        ComponentState::new(22, "p1".to_string()),
    );
    assert_eq!(
        m.get_component_state(Chain::Ethereum, "p1".to_string()).unwrap().get_spot_price(),
        11,
    );
    assert_eq!(
        m.get_component_state(Chain::Unichain, "p1".to_string()).unwrap().get_spot_price(),
        22,
    );
}

#[test]
fn chain_snapshot_never_carries_other_chain() {
    let mut m = ComponentStateManager::new();
    m.update_component_state(
        Chain::Ethereum,
        "e1".to_string(),
        ComponentState::new(1, "e1".to_string()),
    );
    m.update_component_state(
        Chain::Unichain,
        "u1".to_string(),
        ComponentState::new(2, "u1".to_string()),
    );
    m.update_component_state(
        Chain::Ethereum,
        "e2".to_string(),
        ComponentState::new(3, "e2".to_string()),
    );
    m.update_component_state(
        Chain::Unichain,
        "u2".to_string(),
        ComponentState::new(4, "u2".to_string()),
    );
    let eth = m.get_all_component_state_for_chain(Chain::Ethereum);
    let ids: Vec<String> = eth.iter().map(|s| s.get_id().clone()).collect();
    assert_eq!(ids, vec!["e1".to_string(), "e2".to_string()]);
    let uni = m.get_all_component_state_for_chain(Chain::Unichain);
    let ids: Vec<String> = uni.iter().map(|s| s.get_id().clone()).collect();
    assert_eq!(ids, vec!["u1".to_string(), "u2".to_string()]);
    let base = m.get_all_component_state_for_chain(Chain::Base);
    assert!(base.is_empty());
}

#[test]
fn component_map_add_get_overwrite() {
    let mut m = ComponentMap::new();
    m.add_component(component("c1", "uniswap_v2", &["USDC", "USDT"]));
    m.add_component(component("c2", "uniswap_v3", &["WETH", "USDC"]));
    let c = m.get_component("c1".to_string()).unwrap();
    assert_eq!(c.protocol_system, "uniswap_v2".to_string());
    m.add_component(component("c1", "uniswap_v4", &["USDC", "USDT"]));
    let c = m.get_component("c1".to_string()).unwrap();
    assert_eq!(c.protocol_system, "uniswap_v4".to_string());
    assert!(m.get_component("c9".to_string()).is_none());
    let all = m.get_all_components();
    assert_eq!(all.len(), 2);
    assert_eq!(all[0].id, "c1".to_string());
    assert_eq!(all[1].id, "c2".to_string());
}

#[test]
fn component_map_add_components_page() {
    let mut m = ComponentMap::new();
    m.add_components(vec![
        component("c1", "uniswap_v2", &["USDC", "USDT"]),
        component("c2", "uniswap_v2", &["WETH", "DAI"]),
    ]);
    assert_eq!(m.get_all_components().len(), 2);
    assert!(m.get_component("c2".to_string()).is_some());
}

#[test]
fn chain_component_map_partitions_by_chain() {
    let mut m = ChainComponentMap::new();
    m.add_component(Chain::Ethereum, component("c1", "uniswap_v2", &["USDC", "USDT"]));
    m.add_component(Chain::Unichain, component("c1", "uniswap_v3", &["USDC", "USDT"]));
    let c = m.get_component(Chain::Ethereum, "c1".to_string()).unwrap();
    assert_eq!(c.protocol_system, "uniswap_v2".to_string());
    let c = m.get_component(Chain::Unichain, "c1".to_string()).unwrap();
    assert_eq!(c.protocol_system, "uniswap_v3".to_string());
    assert!(m.get_component(Chain::Base, "c1".to_string()).is_none());
    assert!(m.get_component_map(Chain::Ethereum).is_some());
    assert!(m.get_component_map(Chain::Base).is_none());
}
