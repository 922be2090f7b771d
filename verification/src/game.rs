//! The rules engine: board state, move generation, check detection and
//! game-over classification.
//!
//! The board is a row-major vector of 64 optional pieces; the cell for
//! `(row, col)` sits at index `row * 8 + col`.  Specification-level
//! predicates speak about the board's view, a `Seq` of 64 cells, so the
//! contracts of the mutating operations and of move generation compose.

use vstd::prelude::*;

use crate::board::BoardPosition;
use crate::pieces::{mark_moved, other_color, Piece, PieceColor, PieceKind};

verus! {

broadcast use vstd::seq_lib::lemma_seq_contains_after_push, vstd::seq_lib::lemma_seq_concat_contains_all_elements;

/// How a finished game ended.
#[derive(Clone, Copy, Debug, PartialEq, Eq, Structural)]
pub enum GameOver {
    /// The named colour won by checkmate.
    Checkmate(PieceColor),
    Stalemate,
}

/// The full game state: the board, whose turn it is, and whether the game
/// has ended.
#[derive(Clone, Debug)]
pub struct GameState {
    /// Row-major cells; `board[row * 8 + col]` is the square at
    /// `(row, col)`.  Always exactly 64 entries.
    pub board: Vec<Option<Piece>>,
    pub curr_player: PieceColor,
    pub game_over: Option<GameOver>,
}

/// A well-formed board view holds exactly one cell per square.
pub open spec fn board_wf(b: Seq<Option<Piece>>) -> bool {
    b.len() == 64
}

/// The occupant of `(r, c)`, and `None` both for an empty square and for an
/// out-of-bounds coordinate (callers bounds-check separately where the
/// distinction matters).
pub open spec fn cell_at(b: Seq<Option<Piece>>, r: int, c: int) -> Option<Piece> {
    if 0 <= r < 8 && 0 <= c < 8 {
        b[r * 8 + c]
    } else {
        None
    }
}

/// The occupant of a position.
pub open spec fn piece_at(b: Seq<Option<Piece>>, p: BoardPosition) -> Option<Piece> {
    cell_at(b, p.row as int, p.col as int)
}

/// An in-bounds empty square.
pub open spec fn free_at(b: Seq<Option<Piece>>, p: BoardPosition) -> bool {
    p.in_bounds_spec() && piece_at(b, p) is None
}

/// An in-bounds square occupied by a piece of the colour opposing `c`.
pub open spec fn enemy_at(b: Seq<Option<Piece>>, c: PieceColor, p: BoardPosition) -> bool {
    p.in_bounds_spec() && match piece_at(b, p) {
        Some(q) => q.color != c,
        None => false,
    }
}

/// The board after relocating the occupant of `from` to `to`: `from` is
/// cleared, `to` is overwritten with the moved piece (a pawn gets its
/// `has_moved` flag set), every other cell is unchanged.
pub open spec fn moved_board(
    b: Seq<Option<Piece>>,
    from: BoardPosition,
    to: BoardPosition,
) -> Seq<Option<Piece>> {
    let moving = match piece_at(b, from) {
        Some(p) => Some(mark_moved(p)),
        None => None,
    };
    b.update(from.idx(), None).update(to.idx(), moving)
}

/// An in-bounds empty square, by integer coordinates.
pub open spec fn cell_free(b: Seq<Option<Piece>>, r: int, c: int) -> bool {
    0 <= r < 8 && 0 <= c < 8 && cell_at(b, r, c) is None
}

/// One king step: the destination differs from the source by at most one
/// in each coordinate, and is not the source itself.
pub open spec fn king_step(from: BoardPosition, to: BoardPosition) -> bool {
    let dr = to.row - from.row;
    let dc = to.col - from.col;
    (dr != 0 || dc != 0) && -1 <= dr <= 1 && -1 <= dc <= 1
}

/// One knight step: an L-shaped displacement of two in one coordinate and
/// one in the other.
pub open spec fn knight_step(from: BoardPosition, to: BoardPosition) -> bool {
    let dr = to.row - from.row;
    let dc = to.col - from.col;
    ((dr == 1 || dr == -1) && (dc == 2 || dc == -2)) || ((dr == 2 || dr == -2) && (dc == 1 || dc
        == -1))
}

/// The four orthogonal ray directions of a rook.
pub open spec fn rook_dir(d: (i8, i8)) -> bool {
    d == (-1i8, 0i8) || d == (1i8, 0i8) || d == (0i8, 1i8) || d == (0i8, -1i8)
}

/// The four diagonal ray directions of a bishop.
pub open spec fn bishop_dir(d: (i8, i8)) -> bool {
    d == (-1i8, -1i8) || d == (-1i8, 1i8) || d == (1i8, -1i8) || d == (1i8, 1i8)
}

/// The eight ray directions of a queen.
pub open spec fn queen_dir(d: (i8, i8)) -> bool {
    rook_dir(d) || bishop_dir(d)
}

/// The square `j` steps from `from` along `d` is an in-bounds empty square.
pub open spec fn ray_cell_free(
    b: Seq<Option<Piece>>,
    from: BoardPosition,
    d: (i8, i8),
    j: int,
) -> bool {
    cell_free(b, from.row + j * d.0, from.col + j * d.1)
}

/// `to` lies exactly `k` steps from `from` along direction `d`.
pub open spec fn ray_hits(from: BoardPosition, d: (i8, i8), k: int, to: BoardPosition) -> bool {
    to.row == from.row + k * d.0 && to.col == from.col + k * d.1
}

/// Every square strictly between `from` and the `k`-th step along `d` is
/// an in-bounds empty square.
pub open spec fn ray_clear(b: Seq<Option<Piece>>, from: BoardPosition, d: (i8, i8), k: int) -> bool {
    forall|j: int| 1 <= j < k ==> #[trigger] ray_cell_free(b, from, d, j)
}

/// A ray cast from `from` along `d` reaches `to` with nothing in between:
/// the first piece (or board edge) the ray meets is no nearer than `to`.
pub open spec fn line_sees(
    b: Seq<Option<Piece>>,
    from: BoardPosition,
    d: (i8, i8),
    to: BoardPosition,
) -> bool {
    exists|k: int| 1 <= k && #[trigger] ray_hits(from, d, k, to) && ray_clear(b, from, d, k)
}

/// The forward direction of a pawn: White advances towards higher rows,
/// Black towards lower ones.
pub open spec fn pawn_dir(c: PieceColor) -> int {
    if c == PieceColor::White {
        1
    } else {
        -1
    }
}

/// A pawn move (never a capture): one square forward onto an empty square,
/// or — for a pawn that has not yet moved — two squares forward with both
/// the intermediate and the destination square empty.
pub open spec fn pawn_move(
    b: Seq<Option<Piece>>,
    color: PieceColor,
    has_moved: bool,
    from: BoardPosition,
    to: BoardPosition,
) -> bool {
    let d = pawn_dir(color);
    to.col == from.col && free_at(b, to) && (to.row == from.row + d || (!has_moved && to.row
        == from.row + 2 * d && cell_free(b, from.row + d, from.col as int)))
}

/// A pawn capture: one of the two forward-diagonal squares, holding an
/// enemy piece.
pub open spec fn pawn_capture(
    b: Seq<Option<Piece>>,
    color: PieceColor,
    from: BoardPosition,
    to: BoardPosition,
) -> bool {
    to.row == from.row + pawn_dir(color) && (to.col == from.col + 1 || to.col == from.col - 1)
        && enemy_at(b, color, to)
}

/// A pseudo-legal move of `piece` from `from` to `to`: legal by the
/// piece-movement and occupancy rules alone, ignoring whether the mover's
/// own king is left in check.  Never a capture.
pub open spec fn pseudo_move(
    b: Seq<Option<Piece>>,
    piece: Piece,
    from: BoardPosition,
    to: BoardPosition,
) -> bool {
    match piece.kind {
        PieceKind::King => king_step(from, to) && free_at(b, to),
        PieceKind::Queen => free_at(b, to) && exists|d: (i8, i8)|
            queen_dir(d) && #[trigger] line_sees(b, from, d, to),
        PieceKind::Rook => free_at(b, to) && exists|d: (i8, i8)|
            rook_dir(d) && #[trigger] line_sees(b, from, d, to),
        PieceKind::Bishop => free_at(b, to) && exists|d: (i8, i8)|
            bishop_dir(d) && #[trigger] line_sees(b, from, d, to),
        PieceKind::Knight => knight_step(from, to) && free_at(b, to),
        PieceKind::Pawn(has_moved) => pawn_move(b, piece.color, has_moved, from, to),
    }
}

/// A pseudo-legal capture of `piece` from `from` onto the enemy piece at
/// `to`, ignoring whether the mover's own king is left in check.
pub open spec fn pseudo_capture(
    b: Seq<Option<Piece>>,
    piece: Piece,
    from: BoardPosition,
    to: BoardPosition,
) -> bool {
    match piece.kind {
        PieceKind::King => king_step(from, to) && enemy_at(b, piece.color, to),
        PieceKind::Queen => enemy_at(b, piece.color, to) && exists|d: (i8, i8)|
            queen_dir(d) && #[trigger] line_sees(b, from, d, to),
        PieceKind::Rook => enemy_at(b, piece.color, to) && exists|d: (i8, i8)|
            rook_dir(d) && #[trigger] line_sees(b, from, d, to),
        PieceKind::Bishop => enemy_at(b, piece.color, to) && exists|d: (i8, i8)|
            bishop_dir(d) && #[trigger] line_sees(b, from, d, to),
        PieceKind::Knight => knight_step(from, to) && enemy_at(b, piece.color, to),
        PieceKind::Pawn(_) => pawn_capture(b, piece.color, from, to),
    }
}

/// Whether the destination of a probed square is a move, a capture, or
/// rejected (off-board or blocked by a friendly piece).
enum MoveCapture {
    Move,
    Capture,
}

/// A king of colour `c` stands at `p`.
pub open spec fn king_at(b: Seq<Option<Piece>>, c: PieceColor, p: BoardPosition) -> bool {
    p.in_bounds_spec() && piece_at(b, p) == Some(Piece { color: c, kind: PieceKind::King })
}

/// Some king of colour `c` stands on the board.  Exactly one king per
/// colour is expected in ordinary play; querying a king's position on a
/// board without one is a programming error, excluded by precondition.
pub open spec fn king_exists(b: Seq<Option<Piece>>, c: PieceColor) -> bool {
    exists|p: BoardPosition| #[trigger] king_at(b, c, p)
}

/// `p` is the first square in row-major scan order holding a king of
/// colour `c`.  There is at most one such square.
pub open spec fn first_king_at(b: Seq<Option<Piece>>, c: PieceColor, p: BoardPosition) -> bool {
    king_at(b, c, p) && forall|q: BoardPosition| #[trigger] king_at(b, c, q) ==> p.idx() <= q.idx()
}

/// The piece standing at `ap` opposes colour `c` and pseudo-captures `t`.
pub open spec fn attacks_from(
    b: Seq<Option<Piece>>,
    c: PieceColor,
    ap: BoardPosition,
    t: BoardPosition,
) -> bool {
    match piece_at(b, ap) {
        Some(p) => p.color != c && pseudo_capture(b, p, ap, t),
        None => false,
    }
}

/// Some piece opposing colour `c` pseudo-captures the square `t`.
pub open spec fn attacked(b: Seq<Option<Piece>>, c: PieceColor, t: BoardPosition) -> bool {
    exists|ap: BoardPosition| #[trigger] attacks_from(b, c, ap, t)
}

/// Colour `c` is in check: the square of its first king in scan order is
/// pseudo-captured by some opposing piece.
pub open spec fn in_check(b: Seq<Option<Piece>>, c: PieceColor) -> bool {
    exists|kp: BoardPosition| #[trigger] first_king_at(b, c, kp) && attacked(b, c, kp)
}

/// A legal move: a pseudo-legal move that does not leave the mover's own
/// colour in check afterwards.
pub open spec fn legal_move(
    b: Seq<Option<Piece>>,
    piece: Piece,
    from: BoardPosition,
    to: BoardPosition,
) -> bool {
    pseudo_move(b, piece, from, to) && !in_check(moved_board(b, from, to), piece.color)
}

/// A legal capture: a pseudo-legal capture that does not leave the mover's
/// own colour in check afterwards.
pub open spec fn legal_capture(
    b: Seq<Option<Piece>>,
    piece: Piece,
    from: BoardPosition,
    to: BoardPosition,
) -> bool {
    pseudo_capture(b, piece, from, to) && !in_check(moved_board(b, from, to), piece.color)
}

/// A piece of colour `c` stands at `from` and has `to` as a legal move or
/// capture.
pub open spec fn can_play(
    b: Seq<Option<Piece>>,
    c: PieceColor,
    from: BoardPosition,
    to: BoardPosition,
) -> bool {
    match piece_at(b, from) {
        Some(p) => p.color == c && (legal_move(b, p, from, to) || legal_capture(b, p, from, to)),
        None => false,
    }
}

/// Colour `c` has at least one legal move or capture.
pub open spec fn has_legal_move(b: Seq<Option<Piece>>, c: PieceColor) -> bool {
    exists|from: BoardPosition, to: BoardPosition| #[trigger] can_play(b, c, from, to)
}

/// Two first kings of the same colour stand on the same square.
proof fn lemma_first_king_unique(
    b: Seq<Option<Piece>>,
    c: PieceColor,
    p: BoardPosition,
    q: BoardPosition,
)
    requires
        first_king_at(b, c, p),
        first_king_at(b, c, q),
    ensures
        p == q,
{
    assert(king_at(b, c, p));
    assert(king_at(b, c, q));
    crate::board::lemma_idx_injective(p, q);
}

/// A pseudo-legal move or capture never removes the mover's own king: the
/// destination square is empty or holds an enemy piece, so the mover's
/// king either stays where it was or — when it is itself the moving piece
/// — stands on the destination square.
pub proof fn lemma_move_preserves_own_king(
    b: Seq<Option<Piece>>,
    piece: Piece,
    from: BoardPosition,
    to: BoardPosition,
)
    requires
        board_wf(b),
        from.in_bounds_spec(),
        piece_at(b, from) == Some(piece),
        pseudo_move(b, piece, from, to) || pseudo_capture(b, piece, from, to),
        king_exists(b, piece.color),
    ensures
        king_exists(moved_board(b, from, to), piece.color),
{
    let c = piece.color;
    let kp = choose|p: BoardPosition| #[trigger] king_at(b, c, p);
    let b2 = moved_board(b, from, to);
    assert(free_at(b, to) || enemy_at(b, c, to));
    assert(to.in_bounds_spec());
    if from == kp {
        assert(piece == Piece { color: c, kind: PieceKind::King });
        assert(mark_moved(piece) == piece);
        assert(b2[to.idx()] == Some(piece));
        assert(king_at(b2, c, to));
    } else {
        if to == kp {
            assert(piece_at(b, kp) == Some(Piece { color: c, kind: PieceKind::King }));
            assert(false);
        }
        if from.idx() == kp.idx() {
            crate::board::lemma_idx_injective(from, kp);
        }
        if to.idx() == kp.idx() {
            crate::board::lemma_idx_injective(to, kp);
        }
        assert(b2[kp.idx()] == b[kp.idx()]);
        assert(king_at(b2, c, kp));
    }
}

/// Whether the vector holds the given position.
pub(crate) fn contains_pos(v: &Vec<BoardPosition>, p: BoardPosition) -> (r: bool)
    ensures
        r == v@.contains(p),
{
    let mut i: usize = 0;
    while i < v.len()
        invariant
            i <= v@.len(),
            forall|j: int| 0 <= j < i ==> v@[j] != p,
        decreases v@.len() - i,
    {
        if v[i] == p {
            return true;
        }
        i = i + 1;
    }
    false
}

/// The piece kind on the back rank's column `c` in the standard starting
/// position: rook, knight, bishop, queen (column 3), king (column 4),
/// bishop, knight, rook.
pub open spec fn back_rank_kind(c: int) -> PieceKind {
    if c == 0 || c == 7 {
        PieceKind::Rook
    } else if c == 1 || c == 6 {
        PieceKind::Knight
    } else if c == 2 || c == 5 {
        PieceKind::Bishop
    } else if c == 3 {
        PieceKind::Queen
    } else {
        PieceKind::King
    }
}

/// The occupant of `(r, c)` in the standard starting position: White's
/// back rank on row 0 and pawns on row 1, Black's pawns on row 6 and back
/// rank on row 7.
pub open spec fn starting_cell(r: int, c: int) -> Option<Piece> {
    if r == 0 {
        Some(Piece { color: PieceColor::White, kind: back_rank_kind(c) })
    } else if r == 1 {
        Some(Piece { color: PieceColor::White, kind: PieceKind::Pawn(false) })
    } else if r == 6 {
        Some(Piece { color: PieceColor::Black, kind: PieceKind::Pawn(false) })
    } else if r == 7 {
        Some(Piece { color: PieceColor::Black, kind: back_rank_kind(c) })
    } else {
        None
    }
}

/// The executable back-rank table.
fn back_rank_piece(c: i8) -> (r: PieceKind)
    requires
        0 <= c < 8,
    ensures
        r == back_rank_kind(c as int),
{
    if c == 0 || c == 7 {
        PieceKind::Rook
    } else if c == 1 || c == 6 {
        PieceKind::Knight
    } else if c == 2 || c == 5 {
        PieceKind::Bishop
    } else if c == 3 {
        PieceKind::Queen
    } else {
        PieceKind::King
    }
}

/// The executable starting-position table.
fn starting_piece(row: i8, col: i8) -> (r: Option<Piece>)
    requires
        0 <= row < 8,
        0 <= col < 8,
    ensures
        r == starting_cell(row as int, col as int),
{
    if row == 0 {
        Some(Piece { color: PieceColor::White, kind: back_rank_piece(col) })
    } else if row == 1 {
        Some(Piece { color: PieceColor::White, kind: PieceKind::Pawn(false) })
    } else if row == 6 {
        Some(Piece { color: PieceColor::Black, kind: PieceKind::Pawn(false) })
    } else if row == 7 {
        Some(Piece { color: PieceColor::Black, kind: back_rank_piece(col) })
    } else {
        None
    }
}

impl GameState {
    /// The board always holds exactly 64 cells.
    pub open spec fn wf(self) -> bool {
        board_wf(self.board@)
    }

    /// The standard starting position: White to move, game not over.
    pub fn new() -> (r: Self)
        ensures
            r.wf(),
            forall|p: BoardPosition|
                p.in_bounds_spec() ==> #[trigger] piece_at(r.board@, p) == starting_cell(
                    p.row as int,
                    p.col as int,
                ),
            r.curr_player == PieceColor::White,
            r.game_over is None,
    {
        let mut board: Vec<Option<Piece>> = Vec::new();
        let mut row: i8 = 0;
        while row < 8
            invariant
                0 <= row <= 8,
                board@.len() == row * 8,
                forall|p: BoardPosition|
                    p.in_bounds_spec() && p.idx() < row * 8 ==> board@[p.idx()] == starting_cell(
                        p.row as int,
                        p.col as int,
                    ),
            decreases 8 - row,
        {
            let mut col: i8 = 0;
            while col < 8
                invariant
                    0 <= row < 8,
                    0 <= col <= 8,
                    board@.len() == row * 8 + col,
                    forall|p: BoardPosition|
                        p.in_bounds_spec() && p.idx() < row * 8 + col ==> board@[p.idx()]
                            == starting_cell(p.row as int, p.col as int),
                decreases 8 - col,
            {
                board.push(starting_piece(row, col));
                proof {
                    let ghost pc = BoardPosition { row, col };
                    assert forall|p: BoardPosition|
                        p.in_bounds_spec() && p.idx() < row * 8 + col + 1 implies board@[p.idx()]
                        == starting_cell(p.row as int, p.col as int) by {
                        if p.idx() == row * 8 + col {
                            crate::board::lemma_idx_injective(p, pc);
                        }
                    }
                }
                col = col + 1;
            }
            row = row + 1;
        }
        Self { board, curr_player: PieceColor::White, game_over: None }
    }

    /// An empty board: no pieces, White to move, game not over.
    pub fn empty() -> (r: Self)
        ensures
            r.wf(),
            forall|p: BoardPosition| piece_at(r.board@, p) is None,
            r.curr_player == PieceColor::White,
            r.game_over is None,
    {
        let mut board: Vec<Option<Piece>> = Vec::new();
        let mut i: usize = 0;
        while i < 64
            invariant
                i <= 64,
                board@.len() == i,
                forall|j: int| 0 <= j < i ==> board@[j] is None,
            decreases 64 - i,
        {
            board.push(None);
            i = i + 1;
        }
        Self { board, curr_player: PieceColor::White, game_over: None }
    }

    /// The occupant of `pos`; `None` both for an empty square and for an
    /// out-of-bounds position.
    pub fn get_pos(&self, pos: BoardPosition) -> (r: Option<Piece>)
        requires
            self.wf(),
        ensures
            r == piece_at(self.board@, pos),
    {
        if pos.is_in_bounds() {
            self.board[(pos.row as usize) * 8 + (pos.col as usize)]
        } else {
            None
        }
    }

    /// Replaces the occupant of `pos`, returning the previous occupant;
    /// a no-op returning `None` when `pos` is out of bounds.
    pub fn set_pos(&mut self, pos: BoardPosition, piece: Option<Piece>) -> (r: Option<Piece>)
        requires
            old(self).wf(),
        ensures
            final(self).wf(),
            r == piece_at(old(self).board@, pos),
            pos.in_bounds_spec() ==> final(self).board@ == old(self).board@.update(
                pos.idx(),
                piece,
            ),
            !pos.in_bounds_spec() ==> final(self).board@ == old(self).board@,
            final(self).curr_player == old(self).curr_player,
            final(self).game_over == old(self).game_over,
    {
        if pos.is_in_bounds() {
            let i = (pos.row as usize) * 8 + (pos.col as usize);
            let prev = self.board[i];
            self.board[i] = piece;
            prev
        } else {
            None
        }
    }

    /// Relocates the occupant of `from` to `to` and returns whatever piece
    /// previously occupied `to` (the captured piece, if any).  A moving
    /// pawn is marked as having moved.  Both positions must be in bounds
    /// and `from` must be occupied: a violation is a caller bug, so the
    /// inputs are excluded by precondition rather than handled.
    pub fn apply_movement(&mut self, from_pos: BoardPosition, to_pos: BoardPosition) -> (r: Option<
        Piece,
    >)
        requires
            old(self).wf(),
            from_pos.in_bounds_spec(),
            to_pos.in_bounds_spec(),
            piece_at(old(self).board@, from_pos) is Some,
        ensures
            final(self).wf(),
            r == piece_at(old(self).board@, to_pos),
            final(self).board@ == moved_board(old(self).board@, from_pos, to_pos),
            final(self).curr_player == old(self).curr_player,
            final(self).game_over == old(self).game_over,
    {
        let moving_piece = self.get_pos(from_pos);
        let updated = match moving_piece {
            Some(p) => match p.kind {
                PieceKind::Pawn(false) => Some(
                    Piece { color: p.color, kind: PieceKind::Pawn(true) },
                ),
                _ => Some(p),
            },
            None => None,
        };
        let taken_piece = self.get_pos(to_pos);
        self.set_pos(from_pos, None);
        self.set_pos(to_pos, updated);
        taken_piece
    }

    /// Checks the fatal preconditions of `apply_movement` at run time:
    /// returns `None`, leaving the state untouched, exactly when `from_pos`
    /// or `to_pos` is out of bounds or `from_pos` is empty; otherwise
    /// performs the move and returns the captured piece wrapped in `Some`.
    pub fn try_apply_movement(&mut self, from_pos: BoardPosition, to_pos: BoardPosition) -> (r:
        Option<Option<Piece>>)
        requires
            old(self).wf(),
        ensures
            final(self).wf(),
            r is Some <==> from_pos.in_bounds_spec() && to_pos.in_bounds_spec() && piece_at(
                old(self).board@,
                from_pos,
            ) is Some,
            r matches Some(taken) ==> {
                &&& taken == piece_at(old(self).board@, to_pos)
                &&& final(self).board@ == moved_board(old(self).board@, from_pos, to_pos)
            },
            r is None ==> final(self).board@ == old(self).board@,
            final(self).curr_player == old(self).curr_player,
            final(self).game_over == old(self).game_over,
    {
        if from_pos.is_in_bounds() && to_pos.is_in_bounds() {
            match self.get_pos(from_pos) {
                Some(_) => Some(self.apply_movement(from_pos, to_pos)),
                None => None,
            }
        } else {
            None
        }
    }

    /// Hands the turn to the other player.
    pub fn advance_turn(&mut self)
        ensures
            final(self).board == old(self).board,
            final(self).curr_player == other_color(old(self).curr_player),
            final(self).game_over == old(self).game_over,
    {
        self.curr_player = match self.curr_player {
            PieceColor::White => PieceColor::Black,
            PieceColor::Black => PieceColor::White,
        };
    }

    /// Classifies a probed destination for `piece`: a move when empty, a
    /// capture when held by an enemy, rejected when off-board or held by a
    /// friendly piece.
    fn is_move_or_capture(&self, piece: Piece, pos: BoardPosition) -> (r: Option<MoveCapture>)
        requires
            self.wf(),
        ensures
            r == Some(MoveCapture::Move) <==> free_at(self.board@, pos),
            r == Some(MoveCapture::Capture) <==> enemy_at(self.board@, piece.color, pos),
    {
        if !pos.is_in_bounds() {
            None
        } else {
            match self.get_pos(pos) {
                Some(q) => if q.color == piece.color {
                    None  // blocked by a friendly piece
                } else {
                    Some(MoveCapture::Capture)
                },
                None => Some(MoveCapture::Move),
            }
        }
    }

    /// Records the probed square `pos` as a move or a capture of `piece`,
    /// or as neither.
    fn save_moves_captures(
        &self,
        piece: Piece,
        pos: BoardPosition,
        moves: &mut Vec<BoardPosition>,
        captures: &mut Vec<BoardPosition>,
    )
        requires
            self.wf(),
        ensures
            forall|t: BoardPosition|
                final(moves)@.contains(t) <==> old(moves)@.contains(t) || (t == pos && free_at(
                    self.board@,
                    pos,
                )),
            forall|t: BoardPosition|
                final(captures)@.contains(t) <==> old(captures)@.contains(t) || (t == pos
                    && enemy_at(self.board@, piece.color, pos)),
            final(moves)@.len() >= old(moves)@.len(),
            final(captures)@.len() >= old(captures)@.len(),
    {
        match self.is_move_or_capture(piece, pos) {
            Some(MoveCapture::Move) => moves.push(pos),
            Some(MoveCapture::Capture) => captures.push(pos),
            _ => (),
        }
    }

    /// Casts a ray from `from_pos` along `direction`, one square at a time:
    /// every empty square passed is a move; the ray stops at the first
    /// piece met, which is a capture when it is an enemy and nothing when
    /// it is friendly; the board edge also stops the ray.
    fn check_line(&self, piece: Piece, from_pos: BoardPosition, direction: (i8, i8)) -> (r: (
        Vec<BoardPosition>,
        Vec<BoardPosition>,
    ))
        requires
            self.wf(),
            from_pos.in_bounds_spec(),
            queen_dir(direction),
        ensures
            forall|to: BoardPosition|
                r.0@.contains(to) <==> line_sees(self.board@, from_pos, direction, to) && free_at(
                    self.board@,
                    to,
                ),
            forall|to: BoardPosition|
                r.1@.contains(to) <==> line_sees(self.board@, from_pos, direction, to) && enemy_at(
                    self.board@,
                    piece.color,
                    to,
                ),
    {
        let ghost b = self.board@;
        let mut moves: Vec<BoardPosition> = Vec::new();
        let mut captures: Vec<BoardPosition> = Vec::new();
        let mut new_pos = from_pos;
        let ghost mut steps: int = 0;
        loop
            invariant
                self.wf(),
                b == self.board@,
                from_pos.in_bounds_spec(),
                queen_dir(direction),
                steps >= 0,
                new_pos.row == from_pos.row + steps * direction.0,
                new_pos.col == from_pos.col + steps * direction.1,
                new_pos.in_bounds_spec(),
                ray_clear(b, from_pos, direction, steps + 1),
                moves@.len() == steps,
                forall|j: int|
                    0 <= j < steps ==> #[trigger] ray_hits(from_pos, direction, j + 1, moves@[j]),
                captures@.len() == 0,
            decreases ray_fuel(new_pos, direction),
        {
            let next_pos = new_pos.offset(direction.0, direction.1);
            proof {
                assert((steps + 1) * direction.0 == steps * direction.0 + direction.0)
                    by (nonlinear_arith);
                assert((steps + 1) * direction.1 == steps * direction.1 + direction.1)
                    by (nonlinear_arith);
            }
            match self.is_move_or_capture(piece, next_pos) {
                Some(MoveCapture::Move) => {
                    moves.push(next_pos);
                    new_pos = next_pos;
                    proof {
                        steps = steps + 1;
                        assert forall|j: int| 1 <= j < steps + 1 implies #[trigger] ray_cell_free(
                            b,
                            from_pos,
                            direction,
                            j,
                        ) by {
                            if j == steps {
                                assert(cell_free(b, new_pos.row as int, new_pos.col as int));
                            }
                        }
                    }
                },
                Some(MoveCapture::Capture) => {
                    captures.push(next_pos);
                    proof {
                        assert(captures@ =~= seq![next_pos]);
                        lemma_check_line_exit(
                            b,
                            from_pos,
                            direction,
                            moves@,
                            captures@,
                            steps,
                            next_pos,
                            piece.color,
                        );
                    }
                    return (moves, captures);
                },
                None => {
                    proof {
                        lemma_check_line_exit(
                            b,
                            from_pos,
                            direction,
                            moves@,
                            captures@,
                            steps,
                            next_pos,
                            piece.color,
                        );
                    }
                    return (moves, captures);
                },
            }
        }
    }

    /// All rook-like rays from `piece_pos`: the four orthogonal directions.
    fn check_rook_lines(&self, piece: Piece, piece_pos: BoardPosition) -> (r: (
        Vec<BoardPosition>,
        Vec<BoardPosition>,
    ))
        requires
            self.wf(),
            piece_pos.in_bounds_spec(),
        ensures
            forall|to: BoardPosition|
                r.0@.contains(to) <==> free_at(self.board@, to) && exists|d: (i8, i8)|
                    rook_dir(d) && #[trigger] line_sees(self.board@, piece_pos, d, to),
            forall|to: BoardPosition|
                r.1@.contains(to) <==> enemy_at(self.board@, piece.color, to) && exists|d: (i8, i8)|
                    rook_dir(d) && #[trigger] line_sees(self.board@, piece_pos, d, to),
    {
        let ghost b = self.board@;
        let mut moves: Vec<BoardPosition> = Vec::new();
        let mut captures: Vec<BoardPosition> = Vec::new();
        let (mut m1, mut c1) = self.check_line(piece, piece_pos, (-1, 0));
        let ghost gm1 = m1@;
        let ghost gc1 = c1@;
        moves.append(&mut m1);
        captures.append(&mut c1);
        let (mut m2, mut c2) = self.check_line(piece, piece_pos, (1, 0));
        let ghost gm2 = m2@;
        let ghost gc2 = c2@;
        moves.append(&mut m2);
        captures.append(&mut c2);
        let (mut m3, mut c3) = self.check_line(piece, piece_pos, (0, 1));
        let ghost gm3 = m3@;
        let ghost gc3 = c3@;
        moves.append(&mut m3);
        captures.append(&mut c3);
        let (mut m4, mut c4) = self.check_line(piece, piece_pos, (0, -1));
        let ghost gm4 = m4@;
        let ghost gc4 = c4@;
        moves.append(&mut m4);
        captures.append(&mut c4);
        proof {
            assert forall|to: BoardPosition|
                moves@.contains(to) <==> (free_at(b, to) && exists|d: (i8, i8)|
                    rook_dir(d) && #[trigger] line_sees(b, piece_pos, d, to)) by {
                if free_at(b, to) && exists|d: (i8, i8)|
                    rook_dir(d) && #[trigger] line_sees(b, piece_pos, d, to) {
                    let d = choose|d: (i8, i8)|
                        rook_dir(d) && #[trigger] line_sees(b, piece_pos, d, to);
                    if d == (-1i8, 0i8) {
                        assert(gm1.contains(to));
                    } else if d == (1i8, 0i8) {
                        assert(gm2.contains(to));
                    } else if d == (0i8, 1i8) {
                        assert(gm3.contains(to));
                    } else {
                        assert(gm4.contains(to));
                    }
                }
            }
            assert forall|to: BoardPosition|
                captures@.contains(to) <==> (enemy_at(b, piece.color, to) && exists|d: (i8, i8)|
                    rook_dir(d) && #[trigger] line_sees(b, piece_pos, d, to)) by {
                if enemy_at(b, piece.color, to) && exists|d: (i8, i8)|
                    rook_dir(d) && #[trigger] line_sees(b, piece_pos, d, to) {
                    let d = choose|d: (i8, i8)|
                        rook_dir(d) && #[trigger] line_sees(b, piece_pos, d, to);
                    if d == (-1i8, 0i8) {
                        assert(gc1.contains(to));
                    } else if d == (1i8, 0i8) {
                        assert(gc2.contains(to));
                    } else if d == (0i8, 1i8) {
                        assert(gc3.contains(to));
                    } else {
                        assert(gc4.contains(to));
                    }
                }
            }
        }
        (moves, captures)
    }

    /// All bishop-like rays from `piece_pos`: the four diagonal directions.
    fn check_bishop_lines(&self, piece: Piece, piece_pos: BoardPosition) -> (r: (
        Vec<BoardPosition>,
        Vec<BoardPosition>,
    ))
        requires
            self.wf(),
            piece_pos.in_bounds_spec(),
        ensures
            forall|to: BoardPosition|
                r.0@.contains(to) <==> free_at(self.board@, to) && exists|d: (i8, i8)|
                    bishop_dir(d) && #[trigger] line_sees(self.board@, piece_pos, d, to),
            forall|to: BoardPosition|
                r.1@.contains(to) <==> enemy_at(self.board@, piece.color, to) && exists|d: (i8, i8)|
                    bishop_dir(d) && #[trigger] line_sees(self.board@, piece_pos, d, to),
    {
        let ghost b = self.board@;
        let mut moves: Vec<BoardPosition> = Vec::new();
        let mut captures: Vec<BoardPosition> = Vec::new();
        let (mut m1, mut c1) = self.check_line(piece, piece_pos, (-1, -1));
        let ghost gm1 = m1@;
        let ghost gc1 = c1@;
        moves.append(&mut m1);
        captures.append(&mut c1);
        let (mut m2, mut c2) = self.check_line(piece, piece_pos, (-1, 1));
        let ghost gm2 = m2@;
        let ghost gc2 = c2@;
        moves.append(&mut m2);
        captures.append(&mut c2);
        let (mut m3, mut c3) = self.check_line(piece, piece_pos, (1, -1));
        let ghost gm3 = m3@;
        let ghost gc3 = c3@;
        moves.append(&mut m3);
        captures.append(&mut c3);
        let (mut m4, mut c4) = self.check_line(piece, piece_pos, (1, 1));
        let ghost gm4 = m4@;
        let ghost gc4 = c4@;
        moves.append(&mut m4);
        captures.append(&mut c4);
        proof {
            assert forall|to: BoardPosition|
                moves@.contains(to) <==> (free_at(b, to) && exists|d: (i8, i8)|
                    bishop_dir(d) && #[trigger] line_sees(b, piece_pos, d, to)) by {
                if free_at(b, to) && exists|d: (i8, i8)|
                    bishop_dir(d) && #[trigger] line_sees(b, piece_pos, d, to) {
                    let d = choose|d: (i8, i8)|
                        bishop_dir(d) && #[trigger] line_sees(b, piece_pos, d, to);
                    if d == (-1i8, -1i8) {
                        assert(gm1.contains(to));
                    } else if d == (-1i8, 1i8) {
                        assert(gm2.contains(to));
                    } else if d == (1i8, -1i8) {
                        assert(gm3.contains(to));
                    } else {
                        assert(gm4.contains(to));
                    }
                }
            }
            assert forall|to: BoardPosition|
                captures@.contains(to) <==> (enemy_at(b, piece.color, to) && exists|d: (i8, i8)|
                    bishop_dir(d) && #[trigger] line_sees(b, piece_pos, d, to)) by {
                if enemy_at(b, piece.color, to) && exists|d: (i8, i8)|
                    bishop_dir(d) && #[trigger] line_sees(b, piece_pos, d, to) {
                    let d = choose|d: (i8, i8)|
                        bishop_dir(d) && #[trigger] line_sees(b, piece_pos, d, to);
                    if d == (-1i8, -1i8) {
                        assert(gc1.contains(to));
                    } else if d == (-1i8, 1i8) {
                        assert(gc2.contains(to));
                    } else if d == (1i8, -1i8) {
                        assert(gc3.contains(to));
                    } else {
                        assert(gc4.contains(to));
                    }
                }
            }
        }
        (moves, captures)
    }

    /// Computes `piece`'s pseudo-legal moves and captures from `piece_pos`:
    /// legality with respect to the piece-movement rules, staying on the
    /// board and not crossing or capturing a friendly piece — but not with
    /// respect to leaving the mover's own king in check.
    pub fn pseudo_moves_and_captures(&self, piece: Piece, piece_pos: BoardPosition) -> (r: (
        Vec<BoardPosition>,
        Vec<BoardPosition>,
    ))
        requires
            self.wf(),
            piece_pos.in_bounds_spec(),
        ensures
            forall|to: BoardPosition|
                r.0@.contains(to) <==> pseudo_move(self.board@, piece, piece_pos, to),
            forall|to: BoardPosition|
                r.1@.contains(to) <==> pseudo_capture(self.board@, piece, piece_pos, to),
    {
        let ghost b = self.board@;
        match piece.kind {
            PieceKind::King => {
                let mut moves: Vec<BoardPosition> = Vec::new();
                let mut captures: Vec<BoardPosition> = Vec::new();
                let p1 = piece_pos.offset(-1, -1);
                self.save_moves_captures(piece, p1, &mut moves, &mut captures);
                let p2 = piece_pos.offset(-1, 0);
                self.save_moves_captures(piece, p2, &mut moves, &mut captures);
                let p3 = piece_pos.offset(-1, 1);
                self.save_moves_captures(piece, p3, &mut moves, &mut captures);
                let p4 = piece_pos.offset(0, -1);
                self.save_moves_captures(piece, p4, &mut moves, &mut captures);
                let p5 = piece_pos.offset(0, 1);
                self.save_moves_captures(piece, p5, &mut moves, &mut captures);
                let p6 = piece_pos.offset(1, -1);
                self.save_moves_captures(piece, p6, &mut moves, &mut captures);
                let p7 = piece_pos.offset(1, 0);
                self.save_moves_captures(piece, p7, &mut moves, &mut captures);
                let p8 = piece_pos.offset(1, 1);
                self.save_moves_captures(piece, p8, &mut moves, &mut captures);
                proof {
                    assert forall|to: BoardPosition|
                        moves@.contains(to) <==> (king_step(piece_pos, to) && free_at(b, to)) by {
                        if king_step(piece_pos, to) && free_at(b, to) {
                            assert(to == p1 || to == p2 || to == p3 || to == p4 || to == p5 || to
                                == p6 || to == p7 || to == p8);
                        }
                    }
                    assert forall|to: BoardPosition|
                        captures@.contains(to) <==> (king_step(piece_pos, to) && enemy_at(
                            b,
                            piece.color,
                            to,
                        )) by {
                        if king_step(piece_pos, to) && enemy_at(b, piece.color, to) {
                            assert(to == p1 || to == p2 || to == p3 || to == p4 || to == p5 || to
                                == p6 || to == p7 || to == p8);
                        }
                    }
                }
                (moves, captures)
            },
            PieceKind::Queen => {
                let (mut moves, mut captures) = self.check_rook_lines(piece, piece_pos);
                let ghost gm = moves@;
                let ghost gc = captures@;
                let (mut m2, mut c2) = self.check_bishop_lines(piece, piece_pos);
                let ghost gm2 = m2@;
                let ghost gc2 = c2@;
                moves.append(&mut m2);
                captures.append(&mut c2);
                proof {
                    assert forall|to: BoardPosition|
                        moves@.contains(to) <==> (free_at(b, to) && exists|d: (i8, i8)|
                            queen_dir(d) && #[trigger] line_sees(b, piece_pos, d, to)) by {
                        if free_at(b, to) && exists|d: (i8, i8)|
                            queen_dir(d) && #[trigger] line_sees(b, piece_pos, d, to) {
                            let d = choose|d: (i8, i8)|
                                queen_dir(d) && #[trigger] line_sees(b, piece_pos, d, to);
                            if rook_dir(d) {
                                assert(gm.contains(to));
                            } else {
                                assert(gm2.contains(to));
                            }
                        }
                    }
                    assert forall|to: BoardPosition|
                        captures@.contains(to) <==> (enemy_at(b, piece.color, to) && exists|
                            d: (i8, i8),
                        |
                            queen_dir(d) && #[trigger] line_sees(b, piece_pos, d, to)) by {
                        if enemy_at(b, piece.color, to) && exists|d: (i8, i8)|
                            queen_dir(d) && #[trigger] line_sees(b, piece_pos, d, to) {
                            let d = choose|d: (i8, i8)|
                                queen_dir(d) && #[trigger] line_sees(b, piece_pos, d, to);
                            if rook_dir(d) {
                                assert(gc.contains(to));
                            } else {
                                assert(gc2.contains(to));
                            }
                        }
                    }
                }
                (moves, captures)
            },
            PieceKind::Rook => self.check_rook_lines(piece, piece_pos),
            PieceKind::Bishop => self.check_bishop_lines(piece, piece_pos),
            PieceKind::Knight => {
                let mut moves: Vec<BoardPosition> = Vec::new();
                let mut captures: Vec<BoardPosition> = Vec::new();
                let p1 = piece_pos.offset(-2, -1);
                self.save_moves_captures(piece, p1, &mut moves, &mut captures);
                let p2 = piece_pos.offset(-1, -2);
                self.save_moves_captures(piece, p2, &mut moves, &mut captures);
                let p3 = piece_pos.offset(-2, 1);
                self.save_moves_captures(piece, p3, &mut moves, &mut captures);
                let p4 = piece_pos.offset(-1, 2);
                self.save_moves_captures(piece, p4, &mut moves, &mut captures);
                let p5 = piece_pos.offset(2, -1);
                self.save_moves_captures(piece, p5, &mut moves, &mut captures);
                let p6 = piece_pos.offset(1, -2);
                self.save_moves_captures(piece, p6, &mut moves, &mut captures);
                let p7 = piece_pos.offset(2, 1);
                self.save_moves_captures(piece, p7, &mut moves, &mut captures);
                let p8 = piece_pos.offset(1, 2);
                self.save_moves_captures(piece, p8, &mut moves, &mut captures);
                proof {
                    assert forall|to: BoardPosition|
                        moves@.contains(to) <==> (knight_step(piece_pos, to) && free_at(b, to)) by {
                        if knight_step(piece_pos, to) && free_at(b, to) {
                            assert(to == p1 || to == p2 || to == p3 || to == p4 || to == p5 || to
                                == p6 || to == p7 || to == p8);
                        }
                    }
                    assert forall|to: BoardPosition|
                        captures@.contains(to) <==> (knight_step(piece_pos, to) && enemy_at(
                            b,
                            piece.color,
                            to,
                        )) by {
                        if knight_step(piece_pos, to) && enemy_at(b, piece.color, to) {
                            assert(to == p1 || to == p2 || to == p3 || to == p4 || to == p5 || to
                                == p6 || to == p7 || to == p8);
                        }
                    }
                }
                (moves, captures)
            },
            PieceKind::Pawn(has_moved) => {
                let mut moves: Vec<BoardPosition> = Vec::new();
                let mut captures: Vec<BoardPosition> = Vec::new();
                let next_row: i8 = match piece.color {
                    PieceColor::White => 1,
                    PieceColor::Black => -1,
                };

                // one square forward, onto an empty square
                let one = piece_pos.offset(next_row, 0);
                let one_free = one.is_in_bounds() && self.get_pos(one).is_none();
                if one_free {
                    moves.push(one);
                }
                // two squares forward for a pawn that has not yet moved,
                // with the intermediate and destination squares both empty
                let two = piece_pos.offset(2 * next_row, 0);
                if !has_moved && one_free && two.is_in_bounds() && self.get_pos(two).is_none() {
                    moves.push(two);
                }
                // diagonal captures only: no diagonal move without a piece
                // to capture
                let cap1 = piece_pos.offset(next_row, -1);
                if cap1.is_in_bounds() {
                    match self.get_pos(cap1) {
                        Some(q) => if q.color != piece.color {
                            captures.push(cap1);
                        },
                        None => (),
                    }
                }
                let cap2 = piece_pos.offset(next_row, 1);
                if cap2.is_in_bounds() {
                    match self.get_pos(cap2) {
                        Some(q) => if q.color != piece.color {
                            captures.push(cap2);
                        },
                        None => (),
                    }
                }
                proof {
                    assert forall|to: BoardPosition|
                        moves@.contains(to) <==> pawn_move(b, piece.color, has_moved, piece_pos, to)
                        by {
                        if pawn_move(b, piece.color, has_moved, piece_pos, to) {
                            assert(to == one || to == two);
                        }
                    }
                    assert forall|to: BoardPosition|
                        captures@.contains(to) <==> pawn_capture(b, piece.color, piece_pos, to) by {
                        if pawn_capture(b, piece.color, piece_pos, to) {
                            assert(to == cap1 || to == cap2);
                        }
                    }
                }
                (moves, captures)
            },
        }
    }

    /// The square of `player`'s king, the first in row-major scan order
    /// when more than one stands on the board.  A board without a king of
    /// that colour is a programming error, excluded by precondition.
    pub fn get_king_pos(&self, player: PieceColor) -> (r: BoardPosition)
        requires
            self.wf(),
            king_exists(self.board@, player),
        ensures
            first_king_at(self.board@, player, r),
    {
        let ghost b = self.board@;
        let mut row: i8 = 0;
        while row < 8
            invariant
                self.wf(),
                b == self.board@,
                0 <= row <= 8,
                forall|q: BoardPosition|
                    q.in_bounds_spec() && q.idx() < row * 8 ==> !#[trigger] king_at(b, player, q),
            decreases 8 - row,
        {
            let mut col: i8 = 0;
            while col < 8
                invariant
                    self.wf(),
                    b == self.board@,
                    0 <= row < 8,
                    0 <= col <= 8,
                    forall|q: BoardPosition|
                        q.in_bounds_spec() && q.idx() < row * 8 + col ==> !#[trigger] king_at(
                            b,
                            player,
                            q,
                        ),
                decreases 8 - col,
            {
                let p = BoardPosition { row, col };
                match self.get_pos(p) {
                    Some(q) => {
                        let is_king = match q.kind {
                            PieceKind::King => true,
                            _ => false,
                        };
                        if is_king && q.color == player {
                            proof {
                                assert(king_at(b, player, p));
                                assert forall|o: BoardPosition| #[trigger] king_at(b, player, o)
                                    implies p.idx() <= o.idx() by {
                                    if o.idx() < p.idx() {
                                        assert(!king_at(b, player, o));
                                    }
                                }
                            }
                            return p;
                        }
                    },
                    None => (),
                }
                proof {
                    let ghost pc = BoardPosition { row, col };
                    assert forall|q: BoardPosition|
                        q.in_bounds_spec() && q.idx() < row * 8 + col + 1 implies !#[trigger] king_at(
                        b,
                        player,
                        q,
                    ) by {
                        if q.idx() == row * 8 + col {
                            crate::board::lemma_idx_injective(q, pc);
                            assert(q == pc);
                        }
                    }
                }
                col = col + 1;
            }
            row = row + 1;
        }
        proof {
            let kp = choose|p: BoardPosition| king_at(b, player, p);
            assert(kp.in_bounds_spec() && kp.idx() < 64);
            assert(false);
        }
        vstd::pervasive::unreached()
    }

    /// Whether `player` is in check: whether any opposing piece's
    /// pseudo-captures include the square of `player`'s king.  A pure
    /// query; the state is not touched.
    pub fn is_in_check(&self, player: PieceColor) -> (r: bool)
        requires
            self.wf(),
            king_exists(self.board@, player),
        ensures
            r == in_check(self.board@, player),
    {
        let ghost b = self.board@;
        let king_pos = self.get_king_pos(player);
        let mut row: i8 = 0;
        while row < 8
            invariant
                self.wf(),
                b == self.board@,
                first_king_at(b, player, king_pos),
                0 <= row <= 8,
                forall|q: BoardPosition|
                    q.in_bounds_spec() && q.idx() < row * 8 ==> !#[trigger] attacks_from(
                        b,
                        player,
                        q,
                        king_pos,
                    ),
            decreases 8 - row,
        {
            let mut col: i8 = 0;
            while col < 8
                invariant
                    self.wf(),
                    b == self.board@,
                    first_king_at(b, player, king_pos),
                    0 <= row < 8,
                    0 <= col <= 8,
                    forall|q: BoardPosition|
                        q.in_bounds_spec() && q.idx() < row * 8 + col ==> !#[trigger] attacks_from(
                            b,
                            player,
                            q,
                            king_pos,
                        ),
                decreases 8 - col,
            {
                let p = BoardPosition { row, col };
                match self.get_pos(p) {
                    Some(q) => if q.color != player {
                        let pmc = self.pseudo_moves_and_captures(q, p);
                        if contains_pos(&pmc.1, king_pos) {
                            proof {
                                assert(attacks_from(b, player, p, king_pos));
                                assert(attacked(b, player, king_pos));
                            }
                            return true;
                        }
                    },
                    None => (),
                }
                proof {
                    let ghost pc = BoardPosition { row, col };
                    assert(!attacks_from(b, player, pc, king_pos));
                    assert forall|q: BoardPosition|
                        q.in_bounds_spec() && q.idx() < row * 8 + col + 1 implies !#[trigger] attacks_from(
                        b,
                        player,
                        q,
                        king_pos,
                    ) by {
                        if q.idx() == row * 8 + col {
                            crate::board::lemma_idx_injective(q, pc);
                        }
                    }
                }
                col = col + 1;
            }
            row = row + 1;
        }
        proof {
            assert forall|ap: BoardPosition| !#[trigger] attacks_from(b, player, ap, king_pos) by {
                if ap.in_bounds_spec() {
                    assert(ap.idx() < 64);
                } else {
                    assert(piece_at(b, ap) is None);
                }
            }
            assert(!attacked(b, player, king_pos));
            assert forall|kp: BoardPosition| #[trigger] first_king_at(b, player, kp) implies !attacked(
                b,
                player,
                kp,
            ) by {
                lemma_first_king_unique(b, player, kp, king_pos);
            }
        }
        false
    }

    /// Every `(piece, position)` pair on the board, in row-major scan
    /// order: the restartable piece enumeration behind check detection and
    /// the no-legal-moves scan.
    pub fn pieces(&self) -> (r: Vec<(Piece, BoardPosition)>)
        requires
            self.wf(),
        ensures
            forall|i: int|
                0 <= i < r@.len() ==> (#[trigger] r@[i]).1.in_bounds_spec() && piece_at(
                    self.board@,
                    r@[i].1,
                ) == Some(r@[i].0),
            forall|i: int, j: int|
                0 <= i < j < r@.len() ==> (#[trigger] r@[i]).1.idx() < (#[trigger] r@[j]).1.idx(),
            forall|p: BoardPosition|
                p.in_bounds_spec() && #[trigger] piece_at(self.board@, p) is Some ==> r@.contains(
                    (piece_at(self.board@, p)->Some_0, p),
                ),
    {
        let ghost b = self.board@;
        let mut out: Vec<(Piece, BoardPosition)> = Vec::new();
        let mut row: i8 = 0;
        while row < 8
            invariant
                self.wf(),
                b == self.board@,
                0 <= row <= 8,
                forall|i: int|
                    0 <= i < out@.len() ==> (#[trigger] out@[i]).1.in_bounds_spec() && piece_at(
                        b,
                        out@[i].1,
                    ) == Some(out@[i].0) && out@[i].1.idx() < row * 8,
                forall|i: int, j: int|
                    0 <= i < j < out@.len() ==> (#[trigger] out@[i]).1.idx() < (
                    #[trigger] out@[j]).1.idx(),
                forall|p: BoardPosition|
                    p.in_bounds_spec() && p.idx() < row * 8 && #[trigger] piece_at(b, p) is Some
                        ==> out@.contains((piece_at(b, p)->Some_0, p)),
            decreases 8 - row,
        {
            let mut col: i8 = 0;
            while col < 8
                invariant
                    self.wf(),
                    b == self.board@,
                    0 <= row < 8,
                    0 <= col <= 8,
                    forall|i: int|
                        0 <= i < out@.len() ==> (#[trigger] out@[i]).1.in_bounds_spec() && piece_at(
                            b,
                            out@[i].1,
                        ) == Some(out@[i].0) && out@[i].1.idx() < row * 8 + col,
                    forall|i: int, j: int|
                        0 <= i < j < out@.len() ==> (#[trigger] out@[i]).1.idx() < (
                        #[trigger] out@[j]).1.idx(),
                    forall|p: BoardPosition|
                        p.in_bounds_spec() && p.idx() < row * 8 + col && #[trigger] piece_at(
                            b,
                            p,
                        ) is Some ==> out@.contains((piece_at(b, p)->Some_0, p)),
                decreases 8 - col,
            {
                let p = BoardPosition { row, col };
                match self.get_pos(p) {
                    Some(q) => out.push((q, p)),
                    None => (),
                }
                proof {
                    let ghost pc = BoardPosition { row, col };
                    assert forall|p2: BoardPosition|
                        p2.in_bounds_spec() && p2.idx() < row * 8 + col + 1 && #[trigger] piece_at(
                            b,
                            p2,
                        ) is Some implies out@.contains((piece_at(b, p2)->Some_0, p2)) by {
                        if p2.idx() == row * 8 + col {
                            crate::board::lemma_idx_injective(p2, pc);
                        }
                    }
                }
                col = col + 1;
            }
            row = row + 1;
        }
        proof {
            assert forall|p: BoardPosition|
                p.in_bounds_spec() && #[trigger] piece_at(b, p) is Some implies out@.contains(
                (piece_at(b, p)->Some_0, p),
            ) by {
                assert(p.idx() < 64);
            }
        }
        out
    }

    /// An independent copy of the state, used to simulate a candidate move
    /// without touching the real game.  Unlike the derived `Clone`, its
    /// contract states that the copy equals the original.
    fn snapshot(&self) -> (r: GameState)
        requires
            self.wf(),
        ensures
            r.board@ == self.board@,
            r.curr_player == self.curr_player,
            r.game_over == self.game_over,
    {
        let mut board: Vec<Option<Piece>> = Vec::new();
        let mut i: usize = 0;
        while i < self.board.len()
            invariant
                self.wf(),
                i <= self.board@.len(),
                board@.len() == i,
                forall|j: int| 0 <= j < i ==> board@[j] == self.board@[j],
            decreases self.board@.len() - i,
        {
            board.push(self.board[i]);
            i = i + 1;
        }
        proof {
            assert(board@ =~= self.board@);
        }
        GameState { board, curr_player: self.curr_player, game_over: self.game_over }
    }

    /// Computes `piece`'s legal moves and captures from `piece_pos`: the
    /// pseudo-legal candidates that survive the check-safety filter.  Each
    /// candidate is tried on a copy of the state — apply the move, hand
    /// the turn over, and discard the candidate if the moving piece's own
    /// colour is then in check.
    pub fn moves_and_captures(&self, piece: Piece, piece_pos: BoardPosition) -> (r: (
        Vec<BoardPosition>,
        Vec<BoardPosition>,
    ))
        requires
            self.wf(),
            piece_pos.in_bounds_spec(),
            piece_at(self.board@, piece_pos) == Some(piece),
            king_exists(self.board@, piece.color),
        ensures
            forall|to: BoardPosition|
                r.0@.contains(to) <==> legal_move(self.board@, piece, piece_pos, to),
            forall|to: BoardPosition|
                r.1@.contains(to) <==> legal_capture(self.board@, piece, piece_pos, to),
    {
        let ghost b = self.board@;
        let (pm, pc) = self.pseudo_moves_and_captures(piece, piece_pos);
        let mut moves: Vec<BoardPosition> = Vec::new();
        let mut captures: Vec<BoardPosition> = Vec::new();

        let mut i: usize = 0;
        while i < pm.len()
            invariant
                self.wf(),
                b == self.board@,
                piece_pos.in_bounds_spec(),
                piece_at(b, piece_pos) == Some(piece),
                king_exists(b, piece.color),
                forall|to: BoardPosition|
                    pm@.contains(to) <==> pseudo_move(b, piece, piece_pos, to),
                i <= pm@.len(),
                forall|to: BoardPosition|
                    moves@.contains(to) ==> legal_move(b, piece, piece_pos, to),
                forall|j: int|
                    0 <= j < i && legal_move(b, piece, piece_pos, #[trigger] pm@[j])
                        ==> moves@.contains(pm@[j]),
            decreases pm@.len() - i,
        {
            let to = pm[i];
            proof {
                assert(pm@.contains(pm@[i as int]));
                assert(pseudo_move(b, piece, piece_pos, to));
                lemma_move_preserves_own_king(b, piece, piece_pos, to);
            }
            let mut sim = self.snapshot();
            sim.apply_movement(piece_pos, to);
            sim.advance_turn();
            if !sim.is_in_check(piece.color) {
                moves.push(to);
            }
            i = i + 1;
        }
        proof {
            assert forall|to: BoardPosition|
                moves@.contains(to) <==> legal_move(b, piece, piece_pos, to) by {
                if legal_move(b, piece, piece_pos, to) {
                    assert(pm@.contains(to));
                    let j = choose|j: int| 0 <= j < pm@.len() && pm@[j] == to;
                    assert(moves@.contains(pm@[j]));
                }
            }
        }

        let mut i: usize = 0;
        while i < pc.len()
            invariant
                self.wf(),
                b == self.board@,
                piece_pos.in_bounds_spec(),
                piece_at(b, piece_pos) == Some(piece),
                king_exists(b, piece.color),
                forall|to: BoardPosition|
                    pc@.contains(to) <==> pseudo_capture(b, piece, piece_pos, to),
                i <= pc@.len(),
                forall|to: BoardPosition|
                    captures@.contains(to) ==> legal_capture(b, piece, piece_pos, to),
                forall|j: int|
                    0 <= j < i && legal_capture(b, piece, piece_pos, #[trigger] pc@[j])
                        ==> captures@.contains(pc@[j]),
            decreases pc@.len() - i,
        {
            let to = pc[i];
            proof {
                assert(pc@.contains(pc@[i as int]));
                assert(pseudo_capture(b, piece, piece_pos, to));
                lemma_move_preserves_own_king(b, piece, piece_pos, to);
            }
            let mut sim = self.snapshot();
            sim.apply_movement(piece_pos, to);
            sim.advance_turn();
            if !sim.is_in_check(piece.color) {
                captures.push(to);
            }
            i = i + 1;
        }
        proof {
            assert forall|to: BoardPosition|
                captures@.contains(to) <==> legal_capture(b, piece, piece_pos, to) by {
                if legal_capture(b, piece, piece_pos, to) {
                    assert(pc@.contains(to));
                    let j = choose|j: int| 0 <= j < pc@.len() && pc@[j] == to;
                    assert(captures@.contains(pc@[j]));
                }
            }
        }
        (moves, captures)
    }

    /// Whether the player to move has no legal move or capture with any of
    /// their pieces: the game-over test.  The most expensive query, run
    /// once per turn boundary.
    pub fn no_legal_moves(&self) -> (r: bool)
        requires
            self.wf(),
            king_exists(self.board@, self.curr_player),
        ensures
            r == !has_legal_move(self.board@, self.curr_player),
    {
        let ghost b = self.board@;
        let player = self.curr_player;
        let mut row: i8 = 0;
        while row < 8
            invariant
                self.wf(),
                b == self.board@,
                player == self.curr_player,
                king_exists(b, player),
                0 <= row <= 8,
                forall|from: BoardPosition, to: BoardPosition|
                    from.in_bounds_spec() && from.idx() < row * 8 ==> !#[trigger] can_play(
                        b,
                        player,
                        from,
                        to,
                    ),
            decreases 8 - row,
        {
            let mut col: i8 = 0;
            while col < 8
                invariant
                    self.wf(),
                    b == self.board@,
                    player == self.curr_player,
                    king_exists(b, player),
                    0 <= row < 8,
                    0 <= col <= 8,
                    forall|from: BoardPosition, to: BoardPosition|
                        from.in_bounds_spec() && from.idx() < row * 8 + col ==> !#[trigger] can_play(
                            b,
                            player,
                            from,
                            to,
                        ),
                decreases 8 - col,
            {
                let p = BoardPosition { row, col };
                match self.get_pos(p) {
                    Some(q) => if q.color == player {
                        let mc = self.moves_and_captures(q, p);
                        if mc.0.len() > 0 {
                            proof {
                                assert(mc.0@.contains(mc.0@[0]));
                                assert(can_play(b, player, p, mc.0@[0]));
                            }
                            return false;
                        }
                        if mc.1.len() > 0 {
                            proof {
                                assert(mc.1@.contains(mc.1@[0]));
                                assert(can_play(b, player, p, mc.1@[0]));
                            }
                            return false;
                        }
                        proof {
                            assert forall|to: BoardPosition| !(#[trigger] can_play(
                                b,
                                player,
                                p,
                                to,
                            )) by {
                                assert(!mc.0@.contains(to));
                                assert(!mc.1@.contains(to));
                            }
                        }
                    },
                    None => (),
                }
                proof {
                    let ghost pp = BoardPosition { row, col };
                    assert forall|from: BoardPosition, to: BoardPosition|
                        from.in_bounds_spec() && from.idx() < row * 8 + col + 1 implies !#[trigger] can_play(
                        b,
                        player,
                        from,
                        to,
                    ) by {
                        if from.idx() == row * 8 + col {
                            crate::board::lemma_idx_injective(from, pp);
                            assert(!can_play(b, player, pp, to));
                        }
                    }
                }
                col = col + 1;
            }
            row = row + 1;
        }
        proof {
            assert forall|from: BoardPosition, to: BoardPosition| !#[trigger] can_play(
                b,
                player,
                from,
                to,
            ) by {
                if from.in_bounds_spec() {
                    assert(from.idx() < 64);
                } else {
                    assert(piece_at(b, from) is None);
                }
            }
        }
        true
    }
}

/// At the end of a ray cast, the accumulated squares are exactly the ones
/// the ray sees: `moves` holds the `steps` empty squares passed, `probe` is
/// the square that stopped the ray, and `captures` holds `probe` exactly
/// when an enemy stands there.
proof fn lemma_check_line_exit(
    b: Seq<Option<Piece>>,
    from: BoardPosition,
    d: (i8, i8),
    moves: Seq<BoardPosition>,
    captures: Seq<BoardPosition>,
    steps: int,
    probe: BoardPosition,
    color: PieceColor,
)
    requires
        steps >= 0,
        moves.len() == steps,
        forall|j: int| 0 <= j < steps ==> #[trigger] ray_hits(from, d, j + 1, moves[j]),
        ray_clear(b, from, d, steps + 1),
        ray_hits(from, d, steps + 1, probe),
        !free_at(b, probe),
        enemy_at(b, color, probe) ==> captures == seq![probe],
        !enemy_at(b, color, probe) ==> captures.len() == 0,
    ensures
        forall|to: BoardPosition|
            moves.contains(to) <==> line_sees(b, from, d, to) && free_at(b, to),
        forall|to: BoardPosition|
            captures.contains(to) <==> line_sees(b, from, d, to) && enemy_at(b, color, to),
{
    let k0 = steps + 1;
    assert forall|to: BoardPosition|
        moves.contains(to) <==> (line_sees(b, from, d, to) && free_at(b, to)) by {
        if moves.contains(to) {
            let j = choose|j: int| 0 <= j < moves.len() && moves[j] == to;
            assert(ray_hits(from, d, j + 1, moves[j]));
            assert(ray_cell_free(b, from, d, j + 1));
            assert(free_at(b, to));
            assert(line_sees(b, from, d, to));
        }
        if line_sees(b, from, d, to) && free_at(b, to) {
            let k = choose|k: int|
                1 <= k && #[trigger] ray_hits(from, d, k, to) && ray_clear(b, from, d, k);
            if k < k0 {
                assert(ray_hits(from, d, (k - 1) + 1, moves[k - 1]));
                assert(moves[k - 1] == to);
                assert(moves.contains(to));
            } else if k == k0 {
                assert(to == probe);
                assert(false);
            } else {
                assert(ray_cell_free(b, from, d, k0));
                assert(free_at(b, probe));
                assert(false);
            }
        }
    }
    assert forall|to: BoardPosition|
        captures.contains(to) <==> (line_sees(b, from, d, to) && enemy_at(b, color, to)) by {
        if captures.contains(to) {
            assert(captures == seq![probe]);
            assert(to == probe);
            assert(ray_hits(from, d, k0, to));
            assert(line_sees(b, from, d, to));
        }
        if line_sees(b, from, d, to) && enemy_at(b, color, to) {
            let k = choose|k: int|
                1 <= k && #[trigger] ray_hits(from, d, k, to) && ray_clear(b, from, d, k);
            if k < k0 {
                assert(ray_cell_free(b, from, d, k));
                assert(free_at(b, to));
                assert(false);
            } else if k == k0 {
                assert(to == probe);
                assert(enemy_at(b, color, probe));
                assert(captures == seq![probe]);
                assert(captures[0] == to);
                assert(captures.contains(to));
            } else {
                assert(ray_cell_free(b, from, d, k0));
                assert(free_at(b, probe));
                assert(false);
            }
        }
    }
}

/// How many further steps a ray at `p` can take along `d` before leaving
/// the board: the termination measure of the ray-casting loop.
spec fn ray_fuel(p: BoardPosition, d: (i8, i8)) -> int {
    if d.0 == 1 {
        8 - p.row
    } else if d.0 == -1 {
        p.row + 1
    } else if d.1 == 1 {
        8 - p.col
    } else {
        p.col + 1
    }
}

/// Both colours still have a king on the board.
pub open spec fn kings_present(b: Seq<Option<Piece>>) -> bool {
    king_exists(b, PieceColor::White) && king_exists(b, PieceColor::Black)
}

/// The invariant of ordinary play, with `c` the colour to move: the board
/// is well-formed, both kings stand on it, and the colour that just moved
/// is not in check (its move would otherwise have been illegal).
pub open spec fn play_invariant(b: Seq<Option<Piece>>, c: PieceColor) -> bool {
    board_wf(b) && kings_present(b) && !in_check(b, other_color(c))
}

/// Wherever some king of colour `c` stands, a first one (in scan order)
/// stands somewhere too.
pub proof fn lemma_first_king_exists(b: Seq<Option<Piece>>, c: PieceColor)
    requires
        king_exists(b, c),
    ensures
        exists|p: BoardPosition| #[trigger] first_king_at(b, c, p),
{
    let kp = choose|p: BoardPosition| #[trigger] king_at(b, c, p);
    lemma_first_king_from(b, c, kp);
}

/// Helper for `lemma_first_king_exists`: walks down to ever-earlier kings
/// until the first one is reached.
proof fn lemma_first_king_from(b: Seq<Option<Piece>>, c: PieceColor, p: BoardPosition)
    requires
        king_at(b, c, p),
    ensures
        exists|q: BoardPosition| #[trigger] first_king_at(b, c, q),
    decreases p.idx(),
{
    if exists|q: BoardPosition| #[trigger] king_at(b, c, q) && q.idx() < p.idx() {
        let q = choose|q: BoardPosition| #[trigger] king_at(b, c, q) && q.idx() < p.idx();
        lemma_first_king_from(b, c, q);
    } else {
        assert(first_king_at(b, c, p));
    }
}

/// Law: a king is never captured under legal play.  When both kings stand
/// on the board and the colour that is not about to move is not in check
/// — as in every position reached by legal play — any legal move or
/// capture of the mover leaves both kings on the board; and, by the
/// legality filter itself, leaves the mover out of check.  A capture of
/// the opposing king would require that king's square to be pseudo-
/// captured already, that is, the opponent to be in check before the
/// move, which the hypothesis excludes.
pub proof fn lemma_legal_move_preserves_kings(
    b: Seq<Option<Piece>>,
    piece: Piece,
    from: BoardPosition,
    to: BoardPosition,
)
    requires
        board_wf(b),
        from.in_bounds_spec(),
        piece_at(b, from) == Some(piece),
        legal_move(b, piece, from, to) || legal_capture(b, piece, from, to),
        kings_present(b),
        !in_check(b, other_color(piece.color)),
    ensures
        kings_present(moved_board(b, from, to)),
        !in_check(moved_board(b, from, to), piece.color),
{
    let c = piece.color;
    let d = other_color(c);
    let b2 = moved_board(b, from, to);

    // the mover's own king survives the move
    lemma_move_preserves_own_king(b, piece, from, to);

    // the opposing king survives: take its first king in scan order
    lemma_first_king_exists(b, d);
    let kp = choose|p: BoardPosition| #[trigger] first_king_at(b, d, p);
    assert(king_at(b, d, kp));
    if from == kp {
        // the mover's piece would have to be the opposing king
        assert(false);
    }
    if to == kp {
        // capturing the opposing king: its square is pseudo-captured, so
        // the opponent was already in check, contradicting the hypothesis
        assert(enemy_at(b, c, to));
        assert(attacks_from(b, d, from, kp));
        assert(attacked(b, d, kp));
        assert(in_check(b, d));
        assert(false);
    }
    if from.idx() == kp.idx() {
        crate::board::lemma_idx_injective(from, kp);
    }
    if to.idx() == kp.idx() {
        crate::board::lemma_idx_injective(to, kp);
    }
    assert(b2[kp.idx()] == b[kp.idx()]);
    assert(king_at(b2, d, kp));
}

/// Law: moving a piece and then moving it straight back restores the
/// occupancy of both squares — provided the destination was empty, since
/// a captured piece is gone for good — except that a pawn's `has_moved`
/// flag is not reversed: flag-setting is one-directional.  Every other
/// square is untouched.
pub proof fn lemma_apply_movement_round_trip(
    b: Seq<Option<Piece>>,
    from: BoardPosition,
    to: BoardPosition,
)
    requires
        board_wf(b),
        from.in_bounds_spec(),
        to.in_bounds_spec(),
        piece_at(b, from) is Some,
        piece_at(b, to) is None,
    ensures
        ({
            let b2 = moved_board(moved_board(b, from, to), to, from);
            &&& piece_at(b2, from) == Some(mark_moved(piece_at(b, from)->Some_0))
            &&& piece_at(b2, to) is None
            &&& forall|p: BoardPosition|
                p.in_bounds_spec() && p != from && p != to ==> #[trigger] piece_at(b2, p)
                    == piece_at(b, p)
        }),
{
    let b1 = moved_board(b, from, to);
    let b2 = moved_board(b1, to, from);
    let orig = piece_at(b, from)->Some_0;
    assert(from != to);
    if from.idx() == to.idx() {
        crate::board::lemma_idx_injective(from, to);
    }
    assert(piece_at(b1, to) == Some(mark_moved(orig)));
    assert(mark_moved(mark_moved(orig)) == mark_moved(orig));
    assert(piece_at(b2, from) == Some(mark_moved(orig)));
    assert(piece_at(b2, to) is None);
    assert forall|p: BoardPosition|
        p.in_bounds_spec() && p != from && p != to implies #[trigger] piece_at(b2, p) == piece_at(
        b,
        p,
    ) by {
        if p.idx() == from.idx() {
            crate::board::lemma_idx_injective(p, from);
        }
        if p.idx() == to.idx() {
            crate::board::lemma_idx_injective(p, to);
        }
    }
}

/// A ray can only connect two squares whose displacement is horizontal,
/// vertical, or exactly diagonal.
proof fn lemma_line_geometry(
    b: Seq<Option<Piece>>,
    ap: BoardPosition,
    d: (i8, i8),
    t: BoardPosition,
)
    requires
        queen_dir(d),
        line_sees(b, ap, d, t),
    ensures
        ({
            let dr = t.row - ap.row;
            let dc = t.col - ap.col;
            (dr == 0 && dc != 0) || (dc == 0 && dr != 0) || (dr == dc && dr != 0) || (dr == -dc
                && dr != 0)
        }),
{
    let k = choose|k: int| 1 <= k && #[trigger] ray_hits(ap, d, k, t) && ray_clear(b, ap, d, k);
    assert((d.0 == 0 ==> k * d.0 == 0) && (d.0 == 1 ==> k * d.0 == k) && (d.0 == -1 ==> k * d.0
        == -k) && (d.1 == 0 ==> k * d.1 == 0) && (d.1 == 1 ==> k * d.1 == k) && (d.1 == -1 ==> k
        * d.1 == -k)) by (nonlinear_arith);
}

/// Law: in the standard starting position both kings stand on the board
/// and neither colour is in check, so play begins in the invariant state
/// that `lemma_legal_move_preserves_kings` keeps re-establishing.
pub proof fn lemma_starting_position_invariant(b: Seq<Option<Piece>>)
    requires
        board_wf(b),
        forall|p: BoardPosition|
            p.in_bounds_spec() ==> #[trigger] piece_at(b, p) == starting_cell(
                p.row as int,
                p.col as int,
            ),
    ensures
        kings_present(b),
        !in_check(b, PieceColor::White),
        !in_check(b, PieceColor::Black),
        play_invariant(b, PieceColor::White),
{
    let wk = BoardPosition { row: 0, col: 4 };
    let bk = BoardPosition { row: 7, col: 4 };
    assert(piece_at(b, wk) == starting_cell(0, 4));
    assert(king_at(b, PieceColor::White, wk));
    assert(piece_at(b, bk) == starting_cell(7, 4));
    assert(king_at(b, PieceColor::Black, bk));

    assert forall|ap: BoardPosition| !#[trigger] attacks_from(b, PieceColor::White, ap, wk) by {
        if attacks_from(b, PieceColor::White, ap, wk) {
            assert(ap.in_bounds_spec());
            let p = piece_at(b, ap)->Some_0;
            assert(piece_at(b, ap) == starting_cell(ap.row as int, ap.col as int));
            assert(p.color == PieceColor::Black);
            assert(ap.row == 6 || ap.row == 7);
            match p.kind {
                PieceKind::King => assert(false),  // a king step spans at most one row
                PieceKind::Knight => assert(false),  // a knight step spans at most two rows
                PieceKind::Pawn(_) => assert(false),  // a black pawn captures one row down
                PieceKind::Rook => {
                    let d = choose|d: (i8, i8)|
                        rook_dir(d) && #[trigger] line_sees(b, ap, d, wk);
                    lemma_line_geometry(b, ap, d, wk);
                    // only a vertical ray could span seven rows, putting
                    // the attacker on the king's own file — the king's
                    // back-rank square, which holds the king, not a rook
                    assert(ap.col == 4 && false);
                },
                PieceKind::Bishop => {
                    let d = choose|d: (i8, i8)|
                        bishop_dir(d) && #[trigger] line_sees(b, ap, d, wk);
                    lemma_line_geometry(b, ap, d, wk);
                    assert(ap.col == 4 && false);
                },
                PieceKind::Queen => {
                    let d = choose|d: (i8, i8)|
                        queen_dir(d) && #[trigger] line_sees(b, ap, d, wk);
                    lemma_line_geometry(b, ap, d, wk);
                    assert(ap.col == 4 && false);
                },
            }
        }
    }
    assert(!attacked(b, PieceColor::White, wk));
    assert forall|kp: BoardPosition| #[trigger] first_king_at(b, PieceColor::White, kp)
        implies !attacked(b, PieceColor::White, kp) by {
        assert(king_at(b, PieceColor::White, kp));
        assert(piece_at(b, kp) == starting_cell(kp.row as int, kp.col as int));
        assert(kp == wk);
    }

    assert forall|ap: BoardPosition| !#[trigger] attacks_from(b, PieceColor::Black, ap, bk) by {
        if attacks_from(b, PieceColor::Black, ap, bk) {
            assert(ap.in_bounds_spec());
            let p = piece_at(b, ap)->Some_0;
            assert(piece_at(b, ap) == starting_cell(ap.row as int, ap.col as int));
            assert(p.color == PieceColor::White);
            assert(ap.row == 0 || ap.row == 1);
            match p.kind {
                PieceKind::King => assert(false),
                PieceKind::Knight => assert(false),
                PieceKind::Pawn(_) => assert(false),  // a white pawn captures one row up
                PieceKind::Rook => {
                    let d = choose|d: (i8, i8)|
                        rook_dir(d) && #[trigger] line_sees(b, ap, d, bk);
                    lemma_line_geometry(b, ap, d, bk);
                    assert(ap.col == 4 && false);
                },
                PieceKind::Bishop => {
                    let d = choose|d: (i8, i8)|
                        bishop_dir(d) && #[trigger] line_sees(b, ap, d, bk);
                    lemma_line_geometry(b, ap, d, bk);
                    assert(ap.col == 4 && false);
                },
                PieceKind::Queen => {
                    let d = choose|d: (i8, i8)|
                        queen_dir(d) && #[trigger] line_sees(b, ap, d, bk);
                    lemma_line_geometry(b, ap, d, bk);
                    assert(ap.col == 4 && false);
                },
            }
        }
    }
    assert(!attacked(b, PieceColor::Black, bk));
    assert forall|kp: BoardPosition| #[trigger] first_king_at(b, PieceColor::Black, kp)
        implies !attacked(b, PieceColor::Black, kp) by {
        assert(king_at(b, PieceColor::Black, kp));
        assert(piece_at(b, kp) == starting_cell(kp.row as int, kp.col as int));
        assert(kp == bk);
    }
}

/// Law: check detection is a pure function of the position — two results
/// that both meet `is_in_check`'s contract on the same board and colour
/// are the same, so repeated calls without mutation return identical
/// results.
pub proof fn lemma_is_in_check_deterministic(
    b: Seq<Option<Piece>>,
    c: PieceColor,
    r1: bool,
    r2: bool,
)
    requires
        r1 == in_check(b, c),
        r2 == in_check(b, c),
    ensures
        r1 == r2,
{
}

/// Law: legal-move generation is a pure function of the position — any
/// two results that meet `moves_and_captures`'s contract on the same
/// board, piece and square hold exactly the same destinations, so
/// repeated calls without mutation return identical move sets.
pub proof fn lemma_moves_and_captures_deterministic(
    b: Seq<Option<Piece>>,
    piece: Piece,
    from: BoardPosition,
    m1: Seq<BoardPosition>,
    m2: Seq<BoardPosition>,
)
    requires
        forall|to: BoardPosition| m1.contains(to) <==> legal_move(b, piece, from, to),
        forall|to: BoardPosition| m2.contains(to) <==> legal_move(b, piece, from, to),
    ensures
        forall|to: BoardPosition| m1.contains(to) <==> m2.contains(to),
{
}

} // verus!
