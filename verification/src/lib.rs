//! A small multi-user project tracker: accounts, sessions and projects that
//! each belong to exactly one account.
//!
//! The crate holds the state and the rules. It reads no clock and draws no
//! random number: the caller hands in the current time as Unix seconds, a
//! fresh session token and, for a new password, a fresh salt.

pub mod auth;
pub mod db;
pub mod models;
pub mod service;
pub mod sessions;
pub mod text;
