//! Cross-chain arbitrage watcher: consumes per-chain liquidity-pool block
//! updates, tracks the pools that hold a watched token pair, caches the most
//! recent spot price per (chain, pool), and reports price divergence between
//! the two chains.
//!
//! Spot prices are carried as fixed-point integers: the feed layer picks a
//! scale when it converts the raw floating-point quotes, and every comparison
//! here is exact integer arithmetic on that scale.

pub mod component_info;
pub mod component_state_manager;
pub mod kv;
pub mod models;
pub mod pool_relevance_filter;
pub mod price_reader;
pub mod simulation_stream;
pub mod simulation_stream_runner;
pub mod tycho_simulation;
pub mod util;
