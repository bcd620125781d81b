//! A ledger of non-fungible tokens.
//!
//! The ledger records which account owns which token and lets tokens be
//! minted, approved for a spender and transferred, singly or in batches. Its
//! state is a [`ledger::Ledger`]; the parameters of a collection are a
//! [`config::Config`], whose methods are the ledger's operations. Each
//! operation says in its contract what it answers and what it leaves behind,
//! over `ledger::LedgerView`; `laws` holds what follows for every call.
//!
//! The ledger reads no clock and knows no caller: who calls and at what time
//! are arguments.

pub mod approve;
pub mod config;
pub mod dedup;
pub mod errors;
pub mod init_call;
pub mod laws;
pub mod ledger;
pub mod mint;
pub mod query_calls;
pub mod store;
pub mod token;
pub mod transfer;
pub mod types;
pub mod update_calls;
