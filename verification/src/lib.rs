//! Rules engine of a turn-based, UNO-style card game.
//!
//! One `State` value is one game. Requests (join, leave, draw, play) are
//! applied to it by the functions of this crate; each either changes the
//! state as the rules say or returns an error and leaves it untouched.

pub mod card;
pub mod error;
pub mod deck;
pub mod state;
pub mod turn;
pub mod registry;
pub mod rules;
pub mod msg;
pub mod contract;
pub mod theorems;
