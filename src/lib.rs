//! A chess rules engine: board state kept as a square grid and per-side piece
//! lists, an attack oracle, check detection and a legality pipeline that
//! produces exactly the legal moves of a position.

pub mod piece;
pub mod pos;
pub mod board;
pub mod validator;
pub mod fen;
pub mod input;
pub mod laws;
