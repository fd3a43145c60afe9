//! The rules engine of a terminal blackjack game: deck construction
//! and dealing, hand valuation under the soft-ace rule, action
//! legality, and bet settlement with chip accounting. Console input,
//! output and pacing live outside this crate, in the session driver.

pub mod deck;
pub mod player;
