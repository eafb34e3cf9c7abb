//! Consensus core of a permissioned e-voting chain.
//!
//! A committee of validators, selected by stake, reputation and zone,
//! agrees on blocks of vote transactions in three phases and is held to
//! account for its part in each finalized block.
//!
//! - [`selector`] seats a committee from a validator pool, over the
//!   ranking of [`ranking`].
//! - [`merkle`] commits to an ordered list of transactions, each encoded
//!   as [`encoding`] lays down.
//! - [`pbft`] is the agreement on one block as a state machine, with the
//!   quorum rule of [`quorum`].
//! - [`reputation`] settles a finalized block on the validators.
//! - [`engine`] owns the committee and runs the block lifecycle.
//!
//! Hashing and signature verification come from outside, through the
//! trait of [`crypto`]; [`simulation`] implements it for tests and dry
//! runs.

pub mod bytes;
pub mod clock;
pub mod crypto;
pub mod encoding;
pub mod engine;
pub mod merkle;
pub mod pbft;
pub mod quorum;
pub mod ranking;
pub mod reputation;
pub mod selector;
pub mod simulation;
pub mod types;
