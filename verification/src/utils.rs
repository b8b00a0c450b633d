//! Helpers that are not about cards.
pub mod statistics;
