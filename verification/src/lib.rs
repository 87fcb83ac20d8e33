//! A bitboard chess engine: board representation, pseudo-legal move
//! generation, move application and text rendering helpers.
pub mod chess;
pub mod common;
pub mod game_state;
pub mod view;
