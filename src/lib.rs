//! A consensus-weighted vote ledger with period-based reward accounting.
//!
//! Participants append hash proposals for blocks; when the next block is
//! appended, the majority proposal of the previous block is resolved and the
//! endorsers named in the ballot are credited. Credit accumulates per period
//! and is redeemed pro rata against a fixed reward pool once the period closes.
pub mod error;
pub mod identity;
pub mod ledger;
pub mod accounts;
pub mod consensus;
pub mod growth;
pub mod period;
pub mod reward;
pub mod program;
pub mod book;
