//! A referral-graph and points-ledger engine for a multi-level affiliate
//! program.
//!
//! Users register under an optional referrer, forming an acyclic referral
//! forest; admin-issued rewards cascade up the referral chain with decaying
//! per-level rates and tier multipliers; a balance-ordered leaderboard
//! answers ranked queries.  All state lives in a [`state::Registry`] arena
//! that the surrounding environment persists; every operation is a
//! sequential call on it.

pub mod contract;
pub mod decimal;
pub mod error;
pub mod execute;
pub mod msg;
pub mod order;
pub mod points;
pub mod query;
pub mod referral;
pub mod security;
pub mod state;
pub mod user;
