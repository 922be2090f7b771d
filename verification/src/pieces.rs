//! Piece values: a colour and a kind.
//!
//! The pawn's `has_moved` flag is the only mutable piece state; it is
//! flipped the first time the pawn is relocated and gates the two-square
//! opening advance.  The board is the sole source of truth for which piece
//! stands where: a piece value carries no position of its own.

use vstd::prelude::*;

use crate::board::BoardPosition;

verus! {

/// The two players.
#[derive(Clone, Copy, Debug, PartialEq, Eq, Structural)]
pub enum PieceColor {
    White,
    Black,
}

/// The colour opposing `c`.
pub open spec fn other_color(c: PieceColor) -> PieceColor {
    match c {
        PieceColor::White => PieceColor::Black,
        PieceColor::Black => PieceColor::White,
    }
}

impl PieceColor {
    /// The opposing colour.
    pub fn next(self) -> (r: Self)
        ensures
            r == other_color(self),
    {
        match self {
            Self::White => Self::Black,
            Self::Black => Self::White,
        }
    }
}

impl Default for PieceColor {
    /// White moves first.
    fn default() -> (r: Self)
        ensures
            r == PieceColor::White,
    {
        PieceColor::White
    }
}

/// The kind of a piece.  A pawn carries whether it has already moved,
/// which gates its two-square opening advance.
#[derive(Clone, Copy, Debug, PartialEq, Eq, Structural)]
pub enum PieceKind {
    King,
    Queen,
    Rook,
    Bishop,
    Knight,
    Pawn(bool),
}

/// A piece: colour plus kind.
#[derive(Clone, Copy, Debug, PartialEq, Eq, Structural)]
pub struct Piece {
    pub color: PieceColor,
    pub kind: PieceKind,
}

/// The piece as it stands after being relocated once: a pawn is marked as
/// having moved, every other piece is unchanged.
pub open spec fn mark_moved(p: Piece) -> Piece {
    match p.kind {
        PieceKind::Pawn(false) => Piece { color: p.color, kind: PieceKind::Pawn(true) },
        _ => p,
    }
}

/// Announces a committed move to the animation collaborator, which starts
/// interpolating the moved piece's display towards `target`.  The board
/// is the sole source of truth for piece identity, so the piece is named
/// by the squares it moves between.
#[derive(Clone, Copy, Debug, PartialEq, Eq, Structural)]
pub struct PieceMoveEvent {
    pub source: BoardPosition,
    pub target: BoardPosition,
}

impl PieceMoveEvent {
    pub fn new(source: BoardPosition, target: BoardPosition) -> (r: Self)
        ensures
            r.source == source,
            r.target == target,
    {
        Self { source, target }
    }
}

/// The animation collaborator reports that the piece moving to `target`
/// has reached it.
#[derive(Clone, Copy, Debug, PartialEq, Eq, Structural)]
pub struct PieceAnimCompleteEvent {
    pub target: BoardPosition,
}

} // verus!
