//! Rules engine for a Wizard-style trick-taking card game: deck and card
//! modelling, dealing, bidding, trick resolution and scoring across rounds.
use vstd::prelude::*;

pub mod cards;
pub mod game;

verus! {

pub use crate::cards::Card;
pub use crate::cards::Rank;
pub use crate::cards::Suit;
pub use crate::game::GameState;

} // verus!
