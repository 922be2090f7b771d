//! Board coordinates.
//!
//! A `BoardPosition` is a (row, column) pair.  Row 0 is the rank nearest
//! White, column 0 is file "A".  Positions outside `[0, 8)` in either
//! coordinate are only transient values produced while probing moves; they
//! are rejected by `is_in_bounds` before anything is stored.

use vstd::prelude::*;

verus! {

/// A square coordinate on (or transiently off) the 8x8 board.
#[derive(Clone, Copy, Debug, PartialEq, Eq, Structural)]
pub struct BoardPosition {
    pub row: i8,
    pub col: i8,
}

impl BoardPosition {
    /// True when the position denotes a real board square.
    pub open spec fn in_bounds_spec(self) -> bool {
        0 <= self.row < 8 && 0 <= self.col < 8
    }

    /// Row-major scan index of an in-bounds position.
    pub open spec fn idx(self) -> int {
        self.row * 8 + self.col
    }

    /// The first position in row-major scan order.
    pub fn new() -> (r: Self)
        ensures
            r.row == 0 && r.col == 0,
    {
        Self { row: 0, col: 0 }
    }

    /// Bounds check: both coordinates in `[0, 8)`.
    pub fn is_in_bounds(self) -> (r: bool)
        ensures
            r == self.in_bounds_spec(),
    {
        0 <= self.row && self.row < 8 && 0 <= self.col && self.col < 8
    }

    /// The successor in row-major scan order, `None` after the last square
    /// (and for positions that are already out of bounds).
    pub fn next(self) -> (r: Option<Self>)
        ensures
            r matches Some(n) ==> {
                &&& self.in_bounds_spec()
                &&& n.in_bounds_spec()
                &&& n.idx() == self.idx() + 1
            },
            r is None <==> !self.in_bounds_spec() || self.idx() == 63,
    {
        if self.is_in_bounds() {
            if self.col < 7 {
                Some(Self { row: self.row, col: self.col + 1 })
            } else if self.row < 7 {
                Some(Self { row: self.row + 1, col: 0 })
            } else {
                None
            }
        } else {
            None
        }
    }

    /// The position displaced by `(dr, dc)`.  The result may be out of
    /// bounds; callers bounds-check it before use.
    pub fn offset(self, dr: i8, dc: i8) -> (r: Self)
        requires
            i8::MIN <= self.row + dr <= i8::MAX,
            i8::MIN <= self.col + dc <= i8::MAX,
        ensures
            r.row == self.row + dr,
            r.col == self.col + dc,
    {
        Self { row: self.row + dr, col: self.col + dc }
    }
}

/// The mouse button a square was selected with.
#[derive(Clone, Copy, Debug, PartialEq, Eq, Structural)]
pub enum MouseButton {
    Primary,
    Secondary,
    Tertiary,
}

/// A discrete square-selection event from the picking collaborator.  A
/// `None` position denotes a click that hit the background plane or
/// nothing pickable at all.
#[derive(Clone, Copy, Debug, PartialEq, Eq, Structural)]
pub struct ClickSquareEvent {
    pub kind: MouseButton,
    pub board_pos: Option<BoardPosition>,
}

/// Distinct in-bounds positions have distinct scan indices.
pub proof fn lemma_idx_injective(p: BoardPosition, q: BoardPosition)
    requires
        p.in_bounds_spec(),
        q.in_bounds_spec(),
        p.idx() == q.idx(),
    ensures
        p == q,
{
}

} // verus!
