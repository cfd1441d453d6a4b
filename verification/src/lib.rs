//! The core of a chess engine: a position held as sets of squares, the generation of
//! its legal moves, moves that can be made and taken back, and the count of the leaves
//! of its move tree.
//!
//! The position and the rules are stated over a model of the board in `position` and
//! `rules`; `board`, `make`, `movegen` and `fen` hold the code that is proved to follow
//! them; `laws`, `safety`, `complete`, `move_laws` and `fen_laws` hold what is proved of
//! every position and every move.

pub mod attacks;
pub mod bitboard;
pub mod bits;
pub mod board;
pub mod complete;
pub mod engine;
pub mod error;
pub mod fen;
pub mod fen_laws;
pub mod laws;
pub mod legality;
pub mod make;
pub mod move_laws;
pub mod movegen;
pub mod moves;
pub mod piece;
pub mod position;
pub mod profiler;
pub mod replay;
pub mod rules;
pub mod safety;
pub mod square;
pub mod text;
pub mod uci;
pub mod utils;
pub mod walks;
