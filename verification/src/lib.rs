//! A tic-tac-toe engine: the board, its scoring, and a lazily expanded
//! game tree searched by minimax with alpha-beta pruning.
//!
//! - `state` holds the board, its score and its successors.
//! - `search` defines the minimax value of a position and the search with
//!   and without pruning, and proves that both find the same move.
//! - `tree` describes the game tree that is held in memory.
//! - `minimax` is the engine: the tree of the game in play, the moves made
//!   on it and the search for the next move.
//! - `text` writes numbers and spaces for the dumps.

pub mod minimax;
pub mod search;
pub mod state;
pub mod text;
pub mod tree;
