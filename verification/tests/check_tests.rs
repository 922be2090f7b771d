use schach::board::BoardPosition;
use schach::game::{GameOver, GameState};
use schach::pieces::{Piece, PieceColor, PieceKind};
use schach::turn::{turn_step, TurnData, TurnEvent, TurnState};

fn pos(row: i8, col: i8) -> BoardPosition {
    BoardPosition { row, col }
}

fn piece(color: PieceColor, kind: PieceKind) -> Piece {
    Piece { color, kind }
}

#[test]
fn queen_checks_along_a_clear_rank() {
    // White king alone at row 0 / col 4, Black queen at row 0 / col 0,
    // nothing in between: the queen's rook-like ray reaches the king
    let mut g = GameState::empty();
    g.set_pos(pos(0, 4), Some(piece(PieceColor::White, PieceKind::King)));
    g.set_pos(pos(0, 0), Some(piece(PieceColor::Black, PieceKind::Queen)));
    assert!(g.is_in_check(PieceColor::White));
}

#[test]
fn a_blocker_breaks_the_check() {
    let mut g = GameState::empty();
    g.set_pos(pos(0, 4), Some(piece(PieceColor::White, PieceKind::King)));
    g.set_pos(pos(0, 0), Some(piece(PieceColor::Black, PieceKind::Queen)));
    g.set_pos(pos(0, 2), Some(piece(PieceColor::White, PieceKind::Bishop)));
    assert!(!g.is_in_check(PieceColor::White));
}

#[test]
fn starting_position_has_no_check_and_legal_moves() {
    let mut g = GameState::new();
    assert!(!g.is_in_check(PieceColor::White));
    assert!(!g.is_in_check(PieceColor::Black));
    assert!(!g.no_legal_moves());
}

#[test]
fn checkmate_is_classified_for_the_other_colour() {
    // king against king and queen: the cornered king is in check with no
    // legal move left, so the game-over test declares the queen's colour
    // the winner
    let mut g = GameState::empty();
    g.set_pos(pos(7, 7), Some(piece(PieceColor::Black, PieceKind::King)));
    g.set_pos(pos(6, 6), Some(piece(PieceColor::White, PieceKind::Queen)));
    g.set_pos(pos(5, 5), Some(piece(PieceColor::White, PieceKind::King)));
    g.curr_player = PieceColor::Black;
    assert!(g.is_in_check(PieceColor::Black));
    assert!(g.no_legal_moves());

    let mut t = TurnData::new();
    let out = turn_step(&mut g, &mut t, TurnEvent::Tick);
    assert_eq!(g.game_over, Some(GameOver::Checkmate(PieceColor::White)));
    assert!(out.moved.is_none());

    // once classified, the machine is inert
    let out2 = turn_step(&mut g, &mut t, TurnEvent::Tick);
    assert_eq!(t.state, TurnState::CheckForGameOver);
    assert!(out2.moved.is_none());
    assert_eq!(g.game_over, Some(GameOver::Checkmate(PieceColor::White)));
}

#[test]
fn stalemate_is_classified_when_not_in_check() {
    // the side to move has a piece but no legal move and is not in check
    let mut g = GameState::empty();
    g.set_pos(pos(7, 0), Some(piece(PieceColor::Black, PieceKind::King)));
    g.set_pos(pos(5, 1), Some(piece(PieceColor::White, PieceKind::Queen)));
    g.set_pos(pos(0, 7), Some(piece(PieceColor::White, PieceKind::King)));
    g.curr_player = PieceColor::Black;
    assert!(!g.is_in_check(PieceColor::Black));
    assert!(g.no_legal_moves());

    let mut t = TurnData::new();
    turn_step(&mut g, &mut t, TurnEvent::Tick);
    assert_eq!(g.game_over, Some(GameOver::Stalemate));
}

#[test]
fn king_may_not_capture_a_defended_queen() {
    let mut g = GameState::empty();
    g.set_pos(pos(7, 7), Some(piece(PieceColor::Black, PieceKind::King)));
    g.set_pos(pos(6, 6), Some(piece(PieceColor::White, PieceKind::Queen)));
    g.set_pos(pos(5, 5), Some(piece(PieceColor::White, PieceKind::King)));
    let bk = g.get_pos(pos(7, 7)).unwrap();
    let (_, pseudo_captures) = g.pseudo_moves_and_captures(bk, pos(7, 7));
    assert_eq!(pseudo_captures, vec![pos(6, 6)]);
    let (moves, captures) = g.moves_and_captures(bk, pos(7, 7));
    assert!(moves.is_empty());
    assert!(captures.is_empty());
}

#[test]
fn undefended_queen_next_to_the_king_is_no_mate() {
    let mut g = GameState::empty();
    g.set_pos(pos(7, 7), Some(piece(PieceColor::Black, PieceKind::King)));
    g.set_pos(pos(6, 6), Some(piece(PieceColor::White, PieceKind::Queen)));
    g.set_pos(pos(0, 0), Some(piece(PieceColor::White, PieceKind::King)));
    g.curr_player = PieceColor::Black;
    assert!(g.is_in_check(PieceColor::Black));
    // the king simply takes the queen
    assert!(!g.no_legal_moves());
    let bk = g.get_pos(pos(7, 7)).unwrap();
    let (_, captures) = g.moves_and_captures(bk, pos(7, 7));
    assert_eq!(captures, vec![pos(6, 6)]);
}
