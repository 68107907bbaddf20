[package]
name = "tycho_cross_chain_arb_bot"
version = "0.1.0"
edition = "2021"
publish = false

[dependencies]
anyhow = "*"
futures = "*"
num-bigint = "*"
tokio = { version = "*", features = ["macros", "rt-multi-thread", "sync"] }
tracing = "*"
tracing-subscriber = { version = "*", features = ["env-filter"] }
tycho-client = "*"
tycho-common = "*"
