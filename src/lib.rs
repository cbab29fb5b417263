//! Board simulation and scoring for a puzzle in which tiles enter a square
//! grid from any of its four edges, slide inward until blocked, and clear
//! full rows and columns.

pub mod matrix;
pub mod error;
pub mod insertion;
pub mod score;
pub mod rotation;
pub mod board;
pub mod state;
pub mod music;
