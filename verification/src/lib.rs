//! Core of a cross-chain NFT bridge: a token ledger, a collection registry,
//! an escrow vault and the relay protocol that ties them together.
//!
//! Every function in this crate carries a contract that Verus proves. The few
//! calls into other crates are isolated in small trusted wrappers, each
//! documented where it stands.

pub mod account;
pub mod ledger;
pub mod ledger_model;
pub mod manager;
pub mod message;
pub mod metadata;
pub mod registry;
pub mod relay;
pub mod token_id;
pub mod vault;
