//! Turn-resolution rules of a small economic card game: the phase state
//! machine, the bank and effect ledger, the card resolver, the end-of-game
//! test and the deck catalog. Every function carries a contract over the
//! mathematical model of the game state.

pub mod cards;
pub mod events;
pub mod game_over;
pub mod queue;
pub mod resolver;
pub mod state;
pub mod turn;
