[package]
name = "solana_simulation"
version = "0.1.0"
edition = "2021"
publish = false

[dependencies]
anyhow = "=1.0.104"
async-trait = "=0.1.92"
bincode = "=1.3.3"
hashbrown = "=0.12.3"
lazy_static = "=1.5.1"
solana-account-decoder = "=1.14.29"
solana-bpf-loader-program = "=1.14.29"
solana-program-runtime = "=1.14.29"
solana-runtime = "=1.14.29"
solana-sdk = "=1.14.29"
solana-transaction-status = "=1.14.29"
tokio = { version = "=1.54.1", features = ["rt", "rt-multi-thread", "macros"] }

[dev-dependencies]
rand = "=0.7.3"
