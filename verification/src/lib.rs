//! The logic of a small toolkit for testing Solana programs: clients of a live network, and a
//! runtime in memory.
//!
//! - `network`, `config`: which network to talk to, and how.
//! - `account`, `keypair`, `keys`: addresses, signatures, key pairs, and key pairs under names.
//! - `message`, `transaction`: instructions become a message, and a message gets signed.
//! - `client`, `rpc`: the two clients, and what they decide.
//! - `programs`, `handler`, `runtime`: native programs in a runtime, and what becomes of a call.
//! - `clock`, `rng`, `program_error`, `error`: time, key pairs for tests, and errors.
//!
//! What only `solana_sdk`, `hashbrown` or `bincode` can do is done by them, in private functions
//! whose doc comments say what is relied on.

pub mod account;
pub mod client;
pub mod clock;
pub mod config;
pub mod error;
pub mod handler;
pub mod keypair;
pub mod keys;
pub mod message;
pub mod network;
pub mod program_error;
pub mod programs;
pub mod rng;
pub mod rpc;
pub mod runtime;
pub mod transaction;
