//! Mutao, a cash-free barter platform: items and demands, the discovery of swap cycles
//! among demands, the item lifecycle, authentication, attestation of swaps on chains,
//! and the rules of its HTTP handlers. Storage, the network and the runtime are left to
//! the caller.
pub mod auth;
pub mod blockchain;
pub mod clock;
pub mod error;
pub mod handlers;
pub mod matcher;
pub mod models;
pub mod store;
pub mod text;
pub mod ws;
