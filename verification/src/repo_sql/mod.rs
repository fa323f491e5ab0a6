//! Per-statement SQL text for the hourly quote store.

pub mod get_quotes_by_symbol;
pub mod get_returns;
pub mod insert_chromosome;
