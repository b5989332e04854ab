//! Core logic of a bridge between a Bitcoin-style UTXO chain and an
//! EVM-style account chain: a retryable task scheduler, a UTXO ledger with
//! two-phase spend reservation, keyed stores for in-flight operations, and
//! the deposit / withdrawal orchestration rules.
//!
//! All chain, signer and indexer access is left to the host; the modules
//! here hold the decisions and the bookkeeping, stated in contracts and
//! verified.

pub mod assoc;
pub mod codec;
pub mod events;
pub mod hexstr;
pub mod ledger;
pub mod ops;
pub mod orders;
pub mod rpc;
pub mod scheduler;
pub mod state;
pub mod types;
pub mod wallet;
