pub mod game;
pub mod protocol;
pub mod judge;
pub mod api;
pub mod render;
pub mod client;

pub use game::{BoardState, Player, UltimateTicTacToe};
