//! Poker-style hand classification over a deck with a wildcard suit.
//!
//! A [`card::Card`] is a rank and a suit; the `Wild` suit stands for any of the
//! four real suits wherever suits are compared. A [`deck::Deck`] is an ordered
//! pool of cards in which a card may occur more than once. A [`hand::Hand`] is
//! classified into the set of [`hand::PokerHand`] categories that it satisfies:
//! the categories do not exclude one another, and no best one is picked.
//! [`trial`] counts how often each category occurs over repeated random draws.
//!
//! The classification reads a hand twice: [`suit_scan`] reads it by suit and
//! [`rank_scan`] by rank, each as a fold of one step over the sorted cards.
//! [`hand_laws`] says what a hand must hold to satisfy each category; it rests
//! on what [`suit_laws`], [`rank_laws`] and [`house_laws`] show of the passes.
pub mod card;
pub mod counting;
pub mod deck;
pub mod hand;
pub mod hand_laws;
pub mod hand_set;
pub mod house_laws;
pub mod rank_laws;
pub mod rank_scan;
pub mod sorting;
pub mod suit_laws;
pub mod suit_scan;
pub mod suit_set;
pub mod text;
pub mod trial;
pub mod utils;

pub use crate::trial::draw_trial;
