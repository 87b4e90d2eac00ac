//! A raffle-management ledger.
//!
//! The ledger tracks a pool of participants, referral relationships,
//! redeemable bonus codes and the lifecycle of raffles (timed campaigns
//! that award priority-ranked winners). Every operation is specified
//! against a mathematical view of the five tables the ledger owns.

pub mod config;
pub mod db;
pub mod laws;
pub mod ledger;
pub mod model;
pub mod platform;
pub mod rank;
