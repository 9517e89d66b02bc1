//! Validator lifecycle and epoch economics for a proof-of-stake chain.
//!
//! The crate tracks every validator's operational state and bonding status,
//! rolls exchange rates forward at epoch boundaries, applies slashing
//! penalties, follows block-signing uptime and produces the power set that is
//! handed to the consensus engine. Every function carries a contract over a
//! mathematical model of the staking data.

pub mod address;
pub mod chain;
pub mod changes;
pub mod epoch_end;
pub mod error;
pub mod keys;
pub mod laws;
pub mod ledger;
pub mod machine;
pub mod penalty;
pub mod rate;
pub mod read;
pub mod rollover;
pub mod roster;
pub mod staking;
pub mod state;
pub mod table;
pub mod tracker;
pub mod updates;
pub mod uptime;
pub mod validator;
pub mod write;
