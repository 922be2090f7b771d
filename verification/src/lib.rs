//! A two-player chess rules engine.
//!
//! The crate models the board, the pieces, per-piece move generation,
//! check / checkmate / stalemate detection, and the turn state machine
//! that sequences piece selection, move validation, capture resolution
//! and player alternation.  Rendering, input picking and animation are
//! outside collaborators: they feed the engine discrete square-selection
//! and animation-completion events and consume its move signals.

pub mod board;
pub mod game;
pub mod pieces;
pub mod turn;
