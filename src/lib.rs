//! A chess rules engine: legal moves, check, checkmate and stalemate, and moves
//! played with castling, en passant and promotion.
pub mod model;
pub mod board;
pub mod move_calculator;
pub mod check_verifier;
pub mod allowed_movement;
pub mod movement;
pub mod game;
pub mod application;
pub mod infrastructure;
