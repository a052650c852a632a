//! The Neutrino board game: the rules of play on the 5x5 board, and the
//! agents that choose moves on it.

pub mod agents;
pub mod move_laws;
pub mod neutrino_board;
pub mod rules;
pub mod seq_laws;
