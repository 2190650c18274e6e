//! A verified staking ledger for non-fungible collectible items.
//!
//! Participants lock items into a pool and receive a proportional share of a
//! periodically funded reward pool, paid in a fungible token.  The engine in
//! this crate is the pure, verified core: item classification, the stake
//! ledger, proportional reward distribution, claims and unstaking, and the
//! two-phase callback protocol that verifies item ownership before a stake is
//! accepted.  All interaction with the outside world (the item registry and
//! the token ledger) happens through plain values handed in by the caller and
//! action values handed back.

pub mod classify;
pub mod engine;
pub mod errors;
pub mod ledger;
pub mod metadata;
pub mod rewards;
pub mod text;
