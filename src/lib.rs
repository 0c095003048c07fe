//! Notebook balance-proof protocol: the balance-chain model, the notebook
//! assembler, the audit engine, the channel-hold rules, the notarization
//! builder and the wallet-side reconciliation state machine.

pub mod bytes;
pub mod model;
pub mod crypto;
pub mod history;
pub mod audit;
pub mod notebook;
pub mod chain_transfer;
pub mod builder;
pub mod channel_hold;
pub mod sync;
pub mod laws;
pub mod notify;
