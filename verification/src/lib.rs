//! A game of liar's dice: bids, players, the computer players' strategy and
//! the bookkeeping of a round, with their contracts.

pub mod guess;
pub mod player;
pub mod random;
pub mod strategy;
pub mod input;
pub mod render;
pub mod game;
