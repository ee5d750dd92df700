//! Ticket pools for livestream giveaways.
//!
//! Raw participant names are collected page by page, brought to a canonical
//! form, merged and deduplicated into a pool of tickets, optionally weighted,
//! filtered against a discard list, and finally drawn from uniformly.

pub mod auth;
pub mod collector;
pub mod dedup;
pub mod draw;
pub mod error;
pub mod exclusion;
pub mod giveaway;
pub mod pool;
pub mod text;
pub mod ticket;
