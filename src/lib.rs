//! A Connect-Four engine: an immutable board parameterised by its dimensions,
//! legal-move and turn rules, four-in-a-row detection, and a collision-free
//! 64-bit position key.
pub mod board;
pub mod cell;
pub mod error;
pub mod game;
pub mod hashing;
pub mod state;

pub use board::{Board, TurnResult};
pub use cell::CellState;
pub use error::{GameplayError, WrapperError};
pub use game::GameWrapper;
pub use state::{Draw, GameState, InProgress, Victory};
