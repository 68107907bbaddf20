use tycho_cross_chain_arb_bot::models::string_vec_contains;
use tycho_cross_chain_arb_bot::pool_relevance_filter::PoolRelevanceFilter;

fn usdc_usdt_filter() -> PoolRelevanceFilter {
    PoolRelevanceFilter::new("USDC".to_string(), "USDT".to_string())
}

fn pair(id: &str, tokens: &[&str]) -> (String, Vec<String>) {
    (id.to_string(), tokens.iter().map(|t| t.to_string()).collect())
}

#[test]
fn add_with_both_symbols_is_relevant() {
    let mut f = usdc_usdt_filter();
    f.apply(&vec![pair("p1", &["USDC", "USDT"])], &vec![]);
    assert!(f.is_relevant(&"p1".to_string()));
}

#[test]
fn add_with_one_symbol_is_not_relevant() {
    let mut f = usdc_usdt_filter();
    f.apply(&vec![pair("p1", &["USDC", "WETH"])], &vec![]);
    assert!(!f.is_relevant(&"p1".to_string()));
}

#[test]
fn add_with_empty_token_list_is_not_relevant() {
    let mut f = usdc_usdt_filter();
    f.apply(&vec![pair("p1", &[])], &vec![]);
    assert!(!f.is_relevant(&"p1".to_string()));
}

#[test]
fn extra_tokens_still_relevant() {
    let mut f = usdc_usdt_filter();
    f.apply(&vec![pair("p1", &["WETH", "USDT", "DAI", "USDC"])], &vec![]);
    assert!(f.is_relevant(&"p1".to_string()));
}

#[test]
fn remove_in_later_batch_deletes() {
    let mut f = usdc_usdt_filter();
    f.apply(&vec![pair("p1", &["USDC", "USDT"])], &vec![]);
    f.apply(&vec![], &vec!["p1".to_string()]);
    assert!(!f.is_relevant(&"p1".to_string()));
}

#[test]
fn remove_unknown_id_is_noop() {
    let mut f = usdc_usdt_filter();
    f.apply(&vec![pair("p1", &["USDC", "USDT"])], &vec![]);
    f.apply(&vec![], &vec!["p9".to_string()]);
    assert!(f.is_relevant(&"p1".to_string()));
}

#[test]
fn adds_apply_before_removes_within_one_batch() {
    let mut f = usdc_usdt_filter();
    f.apply(&vec![pair("p1", &["USDC", "USDT"])], &vec!["p1".to_string()]);
    assert!(!f.is_relevant(&"p1".to_string()));
}

#[test]
fn re_add_after_remove_is_relevant_again() {
    let mut f = usdc_usdt_filter();
    f.apply(&vec![pair("p1", &["USDC", "USDT"])], &vec![]);
    f.apply(&vec![], &vec!["p1".to_string()]);
    f.apply(&vec![pair("p1", &["USDC", "USDT"])], &vec![]);
    assert!(f.is_relevant(&"p1".to_string()));
}

#[test]
fn duplicate_add_keeps_single_entry() {
    let mut f = usdc_usdt_filter();
    f.apply(&vec![pair("p1", &["USDC", "USDT"]), pair("p1", &["USDC", "USDT"])], &vec![]);
    f.apply(&vec![], &vec!["p1".to_string()]);
    assert!(!f.is_relevant(&"p1".to_string()));
}

#[test]
fn pools_to_price_keeps_relevance_order_and_filters_by_state() {
    let mut f = usdc_usdt_filter();
    f.apply(
        &vec![
            pair("p1", &["USDC", "USDT"]),
            pair("p2", &["USDC", "WETH"]),
            pair("p3", &["USDT", "USDC"]),
            pair("p4", &["USDC", "USDT"]),
        ],
        &vec![],
    );
    let state_ids = vec!["p4".to_string(), "p2".to_string(), "p1".to_string()];
    let to_price = f.pools_to_price(&state_ids);
    assert_eq!(to_price, vec!["p1".to_string(), "p4".to_string()]);
}

#[test]
fn string_vec_contains_finds_value() {
    let v = vec!["a".to_string(), "b".to_string()];
    assert!(string_vec_contains(&v, &"b".to_string()));
    assert!(!string_vec_contains(&v, &"c".to_string()));
    assert!(!string_vec_contains(&Vec::new(), &"a".to_string()));
}
