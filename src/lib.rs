//! A single-player grid adventure: a token moves on a 10x10 board, picks up
//! quest markers and, on reaching the far corner, is paid from a shared pool
//! an amount scaled by how efficiently it got there.

pub mod board;
pub mod game;
pub mod quest_gen;
pub mod reward;
pub mod treasury;

pub use board::{Game, MyError, QuestPosition};
pub use game::{
    distribute_reward, game_is_consistent, initialize, move_player, reset, reset_game, Initialize,
    Move, Quest, Reset,
};
pub use quest_gen::generate_random_positions;
pub use reward::{calculate_reward, compute_optimal_moves};
pub use treasury::{deposit_sol, DepositSol, Treasure};
