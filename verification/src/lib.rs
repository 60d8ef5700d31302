//! A deterministic two-player "War"-style card game: number cards pay down a
//! pending penalty counter, face cards set or reset it, and a trick's play
//! pile moves beneath the deck of the player who pays the penalty off.
//!
//! The library holds the card and deck model, the single-step game engine
//! with exact-state cycle detection, the result rendering, the random-deal
//! construction, the best-result tracking used by an exploration search,
//! and the pigeonhole bound that caps any run by its deal's state space.

pub mod card;
pub mod deck;
pub mod outcome;
pub mod game;
pub mod deal;
pub mod search;
pub mod bound;
