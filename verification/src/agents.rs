//! The agents: each chooses a move for a board.

pub mod agent;
pub mod human;
pub mod minimax;
pub mod monte_carlo_tree_search;
pub mod random_agent;
pub mod tree_laws;
