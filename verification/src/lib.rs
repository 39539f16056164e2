//! Move-quality analysis for chess games: move extraction from game text,
//! the engine line protocol, and accuracy scoring.

pub mod engine;
pub mod game;
pub mod pgn;
pub mod replay;
pub mod score;
pub mod summary;
pub mod text;
