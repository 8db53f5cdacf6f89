//! A signed, content-addressed transaction record for a DAG ledger, and the
//! world state that applies such records to account balances.
//!
//! `codec` writes the canonical encoding that is signed and hashed, `digest`
//! turns bytes into content hashes and Base64 text, `transaction` holds the
//! payload and its signed form, and `state` applies signed transactions.

pub mod codec;
pub mod digest;
pub mod state;
pub mod transaction;
