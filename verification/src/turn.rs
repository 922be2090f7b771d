//! The turn state machine: a finite-state controller driving one full
//! turn — select a piece, highlight its legal destinations, pick a
//! target, animate, resolve the capture, hand the turn over.
//!
//! The machine consumes discrete external events (square selections from
//! the picking collaborator, animation completions from the animation
//! collaborator) and produces commands for the rendering collaborators.
//! It is advanced once per external tick by `turn_step`; no call ever
//! blocks.  `AnimateMove` is a state that persists across ticks while an
//! animation runs outside, not a wait.

use vstd::prelude::*;

use crate::board::{BoardPosition, ClickSquareEvent, MouseButton};
use crate::game::{
    can_play, contains_pos, in_check, kings_present, moved_board, piece_at, GameOver, GameState,
};
use crate::pieces::{other_color, PieceAnimCompleteEvent, PieceMoveEvent};

verus! {

broadcast use vstd::seq_lib::lemma_seq_concat_contains_all_elements;

/// The phases of one turn, in fixed cycle order.
#[derive(Clone, Copy, Debug, PartialEq, Eq, Structural)]
pub enum TurnState {
    /// Evaluate checkmate / stalemate before the player may pick a piece.
    CheckForGameOver,
    /// Await a square selection naming one of the current player's pieces.
    SelectPiece,
    /// Compute and publish the selected piece's legal destinations.
    ShowHighlights,
    /// Await a square selection naming one of those destinations.
    SelectTarget,
    /// Await the animation collaborator's completion signal.
    AnimateMove,
    /// Remove the captured piece's display, if the move captured one.
    CheckCapture,
    /// Clear the transient selection and hand the turn over.
    EndTurn,
}

/// The transient selection state of one turn, cleared at `EndTurn`.
#[derive(Clone, Debug)]
pub struct TurnData {
    pub state: TurnState,
    /// The selected piece, identified by the square it stood on when it
    /// was picked: the board is the sole source of truth for identity.
    pub move_piece: Option<BoardPosition>,
    /// The committed destination, once a target has been chosen.
    pub move_target: Option<BoardPosition>,
    /// The legal destinations currently highlighted for the selection.
    pub valid_moves: Vec<BoardPosition>,
}

impl TurnData {
    /// A fresh turn: about to test for game over, nothing selected.
    pub fn new() -> (r: Self)
        ensures
            r.state == TurnState::CheckForGameOver,
            r.move_piece is None,
            r.move_target is None,
            r.valid_moves@.len() == 0,
    {
        Self {
            state: TurnState::CheckForGameOver,
            move_piece: None,
            move_target: None,
            valid_moves: Vec::new(),
        }
    }

    /// Clears the selection and restarts the cycle.
    pub fn reset(&mut self)
        ensures
            final(self).state == TurnState::CheckForGameOver,
            final(self).move_piece is None,
            final(self).move_target is None,
            final(self).valid_moves@.len() == 0,
    {
        self.state = TurnState::CheckForGameOver;
        self.move_piece = None;
        self.move_target = None;
        self.valid_moves = Vec::new();
    }
}

impl Default for TurnData {
    fn default() -> (r: Self)
        ensures
            r.state == TurnState::CheckForGameOver,
            r.move_piece is None,
            r.move_target is None,
            r.valid_moves@.len() == 0,
    {
        Self::new()
    }
}

/// One external input handed to the machine for one step: nothing, a
/// square selection, or an animation completion.
#[derive(Clone, Copy, Debug)]
pub enum TurnEvent {
    Tick,
    Click(ClickSquareEvent),
    AnimComplete(PieceAnimCompleteEvent),
}

/// The commands one step hands back to the rendering collaborators.
#[derive(Clone, Debug)]
pub struct TurnOutput {
    /// Squares to mark as legal destinations of the current selection.
    pub highlights: Vec<BoardPosition>,
    /// Un-mark every highlighted square.
    pub clear_highlights: bool,
    /// A committed move for the animation collaborator to interpolate.
    pub moved: Option<PieceMoveEvent>,
    /// The committed move captured the piece on its target square; its
    /// display should be marked for later removal.
    pub captured: bool,
    /// Remove the marked captured piece's display now.
    pub remove_captured: bool,
}

/// A step that commands nothing.
pub open spec fn output_empty(o: TurnOutput) -> bool {
    &&& o.highlights@.len() == 0
    &&& !o.clear_highlights
    &&& o.moved is None
    &&& !o.captured
    &&& !o.remove_captured
}

impl TurnOutput {
    fn empty() -> (r: Self)
        ensures
            output_empty(r),
    {
        Self {
            highlights: Vec::new(),
            clear_highlights: false,
            moved: None,
            captured: false,
            remove_captured: false,
        }
    }
}

/// The phases after the move has been applied to the board but before the
/// turn is handed over.
pub open spec fn post_move_phase(s: TurnState) -> bool {
    s == TurnState::AnimateMove || s == TurnState::CheckCapture || s == TurnState::EndTurn
}

/// In the selection phases a piece of the current player stands on the
/// remembered square.
pub open spec fn selection_ok(t: TurnData, g: GameState) -> bool {
    &&& t.move_piece matches Some(src)
    &&& t.move_piece->Some_0.in_bounds_spec()
    &&& piece_at(g.board@, t.move_piece->Some_0) matches Some(p)
    &&& piece_at(g.board@, t.move_piece->Some_0)->Some_0.color == g.curr_player
}

/// While a target is awaited, every highlighted square is a legal
/// destination of the remembered piece.
pub open spec fn highlights_ok(t: TurnData, g: GameState) -> bool {
    forall|m: BoardPosition|
        t.valid_moves@.contains(m) ==> can_play(g.board@, g.curr_player, t.move_piece->Some_0, m)
}

/// The machine's invariant, tying the transient selection to the game
/// state.  Both kings stand on the board; before the move is applied the
/// colour that last completed a move is not in check, afterwards the
/// colour that just moved is not (its move would otherwise have been
/// illegal); and the remembered selection and highlights stay consistent
/// with the board.
pub open spec fn turn_wf(t: TurnData, g: GameState) -> bool {
    &&& g.wf()
    &&& kings_present(g.board@)
    &&& (if post_move_phase(t.state) {
        !in_check(g.board@, g.curr_player)
    } else {
        !in_check(g.board@, other_color(g.curr_player))
    })
    &&& (t.state == TurnState::ShowHighlights || t.state == TurnState::SelectTarget)
        ==> selection_ok(t, g)
    &&& t.state == TurnState::SelectTarget ==> highlights_ok(t, g)
}

/// Law: a fresh game satisfies the machine's invariant.  Together with
/// `turn_step`'s contract, which re-establishes `turn_wf` after every
/// step, this gives the invariant of every reachable state: both kings
/// stand on the board — a king is never captured — and the colour whose
/// move was last completed is never left in check.
pub proof fn lemma_new_game_turn_wf(g: GameState, t: TurnData)
    requires
        g.wf(),
        forall|p: BoardPosition|
            p.in_bounds_spec() ==> #[trigger] piece_at(g.board@, p) == crate::game::starting_cell(
                p.row as int,
                p.col as int,
            ),
        t.state == TurnState::CheckForGameOver,
    ensures
        turn_wf(t, g),
{
    crate::game::lemma_starting_position_invariant(g.board@);
}

/// Copies a list of positions.
fn copy_positions(v: &Vec<BoardPosition>) -> (r: Vec<BoardPosition>)
    ensures
        r@ == v@,
{
    let mut out: Vec<BoardPosition> = Vec::new();
    let mut i: usize = 0;
    while i < v.len()
        invariant
            i <= v@.len(),
            out@.len() == i,
            forall|j: int| 0 <= j < i ==> out@[j] == v@[j],
        decreases v@.len() - i,
    {
        out.push(v[i]);
        i = i + 1;
    }
    proof {
        assert(out@ =~= v@);
    }
    out
}

/// Advances the machine by one step, consuming at most one external
/// event.  A step while the game is over is ignored entirely.  Queued
/// events are fed in arrival order, one step each, so a rapid re-click
/// sequence walks through several states across successive steps.
pub fn turn_step(game: &mut GameState, turn: &mut TurnData, event: TurnEvent) -> (out: TurnOutput)
    requires
        turn_wf(*old(turn), *old(game)),
    ensures
        turn_wf(*final(turn), *final(game)),
        // a click while the game is over is ignored entirely
        old(game).game_over is Some ==> *final(game) == *old(game) && *final(turn) == *old(turn)
            && output_empty(out),
        // game-over test: classify checkmate or stalemate, or open the turn
        old(game).game_over is None && old(turn).state == TurnState::CheckForGameOver ==> {
            &&& final(game).board == old(game).board
            &&& final(game).curr_player == old(game).curr_player
            &&& output_empty(out)
            &&& final(turn).move_piece == old(turn).move_piece
            &&& final(turn).move_target == old(turn).move_target
            &&& (crate::game::has_legal_move(old(game).board@, old(game).curr_player) ==> {
                &&& final(game).game_over is None
                &&& final(turn).state == TurnState::SelectPiece
            })
            &&& (!crate::game::has_legal_move(old(game).board@, old(game).curr_player) ==> {
                &&& final(turn).state == old(turn).state
                &&& (in_check(old(game).board@, old(game).curr_player) ==> final(game).game_over
                    == Some(GameOver::Checkmate(other_color(old(game).curr_player))))
                &&& (!in_check(old(game).board@, old(game).curr_player) ==> final(game).game_over
                    == Some(GameOver::Stalemate))
            })
        },
        // piece selection: remember a click on an own piece, forget the
        // selection on a background click, ignore everything else
        old(game).game_over is None && old(turn).state == TurnState::SelectPiece ==> {
            &&& *final(game) == *old(game)
            &&& output_empty(out)
            &&& final(turn).move_target == old(turn).move_target
            &&& final(turn).valid_moves == old(turn).valid_moves
            &&& (match event {
                TurnEvent::Click(ev) => {
                    if ev.kind != MouseButton::Primary {
                        *final(turn) == *old(turn)
                    } else {
                        match ev.board_pos {
                            Some(pos) => {
                                if piece_at(old(game).board@, pos) matches Some(p) && p.color
                                    == old(game).curr_player {
                                    &&& final(turn).state == TurnState::ShowHighlights
                                    &&& final(turn).move_piece == Some(pos)
                                } else {
                                    *final(turn) == *old(turn)
                                }
                            },
                            None => {
                                &&& final(turn).state == old(turn).state
                                &&& final(turn).move_piece is None
                            },
                        }
                    }
                },
                _ => *final(turn) == *old(turn),
            })
        },
        // highlight the selection's legal destinations, exactly
        old(game).game_over is None && old(turn).state == TurnState::ShowHighlights ==> {
            &&& *final(game) == *old(game)
            &&& final(turn).state == TurnState::SelectTarget
            &&& final(turn).move_piece == old(turn).move_piece
            &&& final(turn).move_target == old(turn).move_target
            &&& final(turn).valid_moves@ == out.highlights@
            &&& (forall|m: BoardPosition|
                out.highlights@.contains(m) <==> can_play(
                    old(game).board@,
                    old(game).curr_player,
                    old(turn).move_piece->Some_0,
                    m,
                ))
            &&& !out.clear_highlights
            &&& out.moved is None
            &&& !out.captured
            &&& !out.remove_captured
        },
        // target selection: re-select a friendly piece, commit a
        // highlighted destination, abandon anything else
        old(game).game_over is None && old(turn).state == TurnState::SelectTarget ==> (match event {
            TurnEvent::Click(ev) => {
                if ev.kind != MouseButton::Primary {
                    *final(game) == *old(game) && *final(turn) == *old(turn) && output_empty(out)
                } else {
                    {
                        &&& out.highlights@.len() == 0
                        &&& out.clear_highlights
                        &&& !out.remove_captured
                        &&& final(turn).valid_moves@.len() == 0
                        &&& (match ev.board_pos {
                            Some(target) => {
                                if piece_at(old(game).board@, target) matches Some(p) && p.color
                                    == old(game).curr_player {
                                    // friendly piece: use it as the new selection
                                    &&& *final(game) == *old(game)
                                    &&& final(turn).state == TurnState::ShowHighlights
                                    &&& final(turn).move_piece == Some(target)
                                    &&& final(turn).move_target == old(turn).move_target
                                    &&& out.moved is None
                                    &&& !out.captured
                                } else if old(turn).valid_moves@.contains(target) {
                                    // commit the move
                                    &&& final(game).board@ == moved_board(
                                        old(game).board@,
                                        old(turn).move_piece->Some_0,
                                        target,
                                    )
                                    &&& final(game).curr_player == old(game).curr_player
                                    &&& final(game).game_over == old(game).game_over
                                    &&& final(turn).state == TurnState::AnimateMove
                                    &&& final(turn).move_piece == old(turn).move_piece
                                    &&& final(turn).move_target == Some(target)
                                    &&& out.moved == Some(
                                        PieceMoveEvent {
                                            source: old(turn).move_piece->Some_0,
                                            target,
                                        },
                                    )
                                    &&& (out.captured <==> piece_at(
                                        old(game).board@,
                                        target,
                                    ) is Some)
                                } else {
                                    // enemy or empty non-candidate: abandon
                                    &&& *final(game) == *old(game)
                                    &&& final(turn).state == TurnState::SelectPiece
                                    &&& final(turn).move_piece is None
                                    &&& final(turn).move_target == old(turn).move_target
                                    &&& out.moved is None
                                    &&& !out.captured
                                }
                            },
                            None => {
                                // off-board: abandon
                                &&& *final(game) == *old(game)
                                &&& final(turn).state == TurnState::SelectPiece
                                &&& final(turn).move_piece is None
                                &&& final(turn).move_target == old(turn).move_target
                                &&& out.moved is None
                                &&& !out.captured
                            },
                        })
                    }
                }
            },
            _ => *final(game) == *old(game) && *final(turn) == *old(turn) && output_empty(out),
        }),
        // wait for the matching animation-completion signal
        old(game).game_over is None && old(turn).state == TurnState::AnimateMove ==> {
            &&& *final(game) == *old(game)
            &&& output_empty(out)
            &&& final(turn).move_piece == old(turn).move_piece
            &&& final(turn).move_target == old(turn).move_target
            &&& final(turn).valid_moves == old(turn).valid_moves
            &&& (match event {
                TurnEvent::AnimComplete(ev) => {
                    if old(turn).move_target == Some(ev.target) {
                        final(turn).state == TurnState::CheckCapture
                    } else {
                        final(turn).state == old(turn).state
                    }
                },
                _ => final(turn).state == old(turn).state,
            })
        },
        // remove the captured piece's display
        old(game).game_over is None && old(turn).state == TurnState::CheckCapture ==> {
            &&& *final(game) == *old(game)
            &&& final(turn).state == TurnState::EndTurn
            &&& final(turn).move_piece == old(turn).move_piece
            &&& final(turn).move_target == old(turn).move_target
            &&& final(turn).valid_moves == old(turn).valid_moves
            &&& out.highlights@.len() == 0
            &&& !out.clear_highlights
            &&& out.moved is None
            &&& !out.captured
            &&& out.remove_captured
        },
        // clear the selection and hand the turn over
        old(game).game_over is None && old(turn).state == TurnState::EndTurn ==> {
            &&& final(game).board == old(game).board
            &&& final(game).game_over == old(game).game_over
            &&& final(game).curr_player == other_color(old(game).curr_player)
            &&& final(turn).state == TurnState::CheckForGameOver
            &&& final(turn).move_piece is None
            &&& final(turn).move_target is None
            &&& final(turn).valid_moves@.len() == 0
            &&& output_empty(out)
        },
{
    if game.game_over.is_some() {
        return TurnOutput::empty();
    }
    match turn.state {
        TurnState::CheckForGameOver => {
            if game.no_legal_moves() {
                if game.is_in_check(game.curr_player) {
                    game.game_over = Some(GameOver::Checkmate(game.curr_player.next()));
                } else {
                    game.game_over = Some(GameOver::Stalemate);
                }
            } else {
                turn.state = TurnState::SelectPiece;
            }
            TurnOutput::empty()
        },
        TurnState::SelectPiece => {
            match event {
                TurnEvent::Click(ev) => {
                    if ev.kind == MouseButton::Primary {
                        match ev.board_pos {
                            Some(pos) => {
                                match game.get_pos(pos) {
                                    Some(p) => if p.color == game.curr_player {
                                        turn.move_piece = Some(pos);
                                        turn.state = TurnState::ShowHighlights;
                                    },
                                    None => (),
                                }
                            },
                            None => {
                                turn.move_piece = None;
                            },
                        }
                    }
                },
                _ => (),
            }
            TurnOutput::empty()
        },
        TurnState::ShowHighlights => {
            let src = match turn.move_piece {
                Some(src) => src,
                None => vstd::pervasive::unreached(),
            };
            let piece = match game.get_pos(src) {
                Some(p) => p,
                None => vstd::pervasive::unreached(),
            };
            let (moves, mut captures) = game.moves_and_captures(piece, src);
            let mut highlights = moves;
            highlights.append(&mut captures);
            turn.valid_moves = copy_positions(&highlights);
            turn.state = TurnState::SelectTarget;
            TurnOutput {
                highlights,
                clear_highlights: false,
                moved: None,
                captured: false,
                remove_captured: false,
            }
        },
        TurnState::SelectTarget => {
            match event {
                TurnEvent::Click(ev) => {
                    if ev.kind == MouseButton::Primary {
                        let mut out = TurnOutput::empty();
                        out.clear_highlights = true;
                        match ev.board_pos {
                            Some(target) => {
                                let friendly = match game.get_pos(target) {
                                    Some(p) => p.color == game.curr_player,
                                    None => false,
                                };
                                if friendly {
                                    turn.move_piece = Some(target);
                                    turn.state = TurnState::ShowHighlights;
                                    turn.valid_moves = Vec::new();
                                } else if contains_pos(&turn.valid_moves, target) {
                                    let src = match turn.move_piece {
                                        Some(src) => src,
                                        None => vstd::pervasive::unreached(),
                                    };
                                    proof {
                                        assert(can_play(game.board@, game.curr_player, src, target));
                                        crate::game::lemma_legal_move_preserves_kings(
                                            game.board@,
                                            piece_at(game.board@, src)->Some_0,
                                            src,
                                            target,
                                        );
                                    }
                                    let captured_piece = game.apply_movement(src, target);
                                    turn.move_target = Some(target);
                                    turn.state = TurnState::AnimateMove;
                                    turn.valid_moves = Vec::new();
                                    out.moved = Some(PieceMoveEvent::new(src, target));
                                    out.captured = captured_piece.is_some();
                                } else {
                                    turn.move_piece = None;
                                    turn.state = TurnState::SelectPiece;
                                    turn.valid_moves = Vec::new();
                                }
                            },
                            None => {
                                turn.move_piece = None;
                                turn.state = TurnState::SelectPiece;
                                turn.valid_moves = Vec::new();
                            },
                        }
                        out
                    } else {
                        TurnOutput::empty()
                    }
                },
                _ => TurnOutput::empty(),
            }
        },
        TurnState::AnimateMove => {
            match event {
                TurnEvent::AnimComplete(ev) => {
                    let matches_target = match turn.move_target {
                        Some(t) => t == ev.target,
                        None => false,
                    };
                    if matches_target {
                        turn.state = TurnState::CheckCapture;
                    }
                },
                _ => (),
            }
            TurnOutput::empty()
        },
        TurnState::CheckCapture => {
            turn.state = TurnState::EndTurn;
            let mut out = TurnOutput::empty();
            out.remove_captured = true;
            out
        },
        TurnState::EndTurn => {
            turn.reset();
            game.advance_turn();
            TurnOutput::empty()
        },
    }
}

} // verus!
