//! Move selection for a falling-block puzzle game.
//!
//! Boards and pieces are flat row-major cell buffers (0 = empty, anything
//! else = occupied). The engine enumerates every rotation and horizontal
//! offset of the active piece, drops it under gravity, scores the resulting
//! board with a weighted sum of board features and returns the best
//! placement, optionally looking one piece ahead with a beam search.
//! Scores are exact integers in hundredths of a point.
pub mod bitmap;
pub mod rotation;
pub mod placement;
pub mod features;
pub mod evaluate;
pub mod search;
pub mod engine;

pub use bitmap::{Grid, Shape, MAX_DEPTH_SUM};
pub use engine::{MoveError, TetrisAI};
pub use evaluate::Weights;
pub use search::Move;
