use schach::board::BoardPosition;
use schach::game::GameState;
use schach::pieces::{Piece, PieceColor, PieceKind};

fn pos(row: i8, col: i8) -> BoardPosition {
    BoardPosition { row, col }
}

fn piece(color: PieceColor, kind: PieceKind) -> Piece {
    Piece { color, kind }
}

#[test]
fn starting_position_layout() {
    let g = GameState::new();
    assert_eq!(g.curr_player, PieceColor::White);
    assert!(g.game_over.is_none());
    assert_eq!(
        g.get_pos(pos(0, 0)),
        Some(piece(PieceColor::White, PieceKind::Rook))
    );
    assert_eq!(
        g.get_pos(pos(0, 4)),
        Some(piece(PieceColor::White, PieceKind::King))
    );
    assert_eq!(
        g.get_pos(pos(0, 3)),
        Some(piece(PieceColor::White, PieceKind::Queen))
    );
    assert_eq!(
        g.get_pos(pos(1, 4)),
        Some(piece(PieceColor::White, PieceKind::Pawn(false)))
    );
    for col in 0..8 {
        assert!(g.get_pos(pos(2, col)).is_none());
        assert!(g.get_pos(pos(5, col)).is_none());
    }
    assert_eq!(
        g.get_pos(pos(6, 2)),
        Some(piece(PieceColor::Black, PieceKind::Pawn(false)))
    );
    assert_eq!(
        g.get_pos(pos(7, 4)),
        Some(piece(PieceColor::Black, PieceKind::King))
    );
    assert_eq!(
        g.get_pos(pos(7, 1)),
        Some(piece(PieceColor::Black, PieceKind::Knight))
    );
    assert_eq!(
        g.get_pos(pos(7, 5)),
        Some(piece(PieceColor::Black, PieceKind::Bishop))
    );
}

#[test]
fn get_pos_out_of_bounds_is_none() {
    let g = GameState::new();
    assert_eq!(g.get_pos(pos(-1, 0)), None);
    assert_eq!(g.get_pos(pos(0, 8)), None);
}

#[test]
fn set_pos_replaces_and_returns_previous() {
    let mut g = GameState::empty();
    let q = piece(PieceColor::Black, PieceKind::Queen);
    assert_eq!(g.set_pos(pos(4, 4), Some(q)), None);
    assert_eq!(g.set_pos(pos(4, 4), None), Some(q));
    assert_eq!(g.get_pos(pos(4, 4)), None);
    // out of bounds: a no-op returning None
    assert_eq!(g.set_pos(pos(9, 0), Some(q)), None);
}

#[test]
fn pawn_double_step_succeeds_and_flags_the_pawn() {
    // White pawn E2 (row 1, col 4) to E4 (row 3, col 4)
    let mut g = GameState::new();
    let taken = g.apply_movement(pos(1, 4), pos(3, 4));
    assert_eq!(taken, None);
    assert_eq!(g.get_pos(pos(1, 4)), None);
    assert_eq!(
        g.get_pos(pos(3, 4)),
        Some(piece(PieceColor::White, PieceKind::Pawn(true)))
    );
    // from the new square only the one-square advance remains
    let moved_pawn = g.get_pos(pos(3, 4)).unwrap();
    let (moves, captures) = g.moves_and_captures(moved_pawn, pos(3, 4));
    assert_eq!(moves, vec![pos(4, 4)]);
    assert!(captures.is_empty());
}

#[test]
fn apply_movement_returns_the_captured_piece() {
    let mut g = GameState::empty();
    let wr = piece(PieceColor::White, PieceKind::Rook);
    let bn = piece(PieceColor::Black, PieceKind::Knight);
    g.set_pos(pos(0, 0), Some(wr));
    g.set_pos(pos(0, 5), Some(bn));
    let taken = g.apply_movement(pos(0, 0), pos(0, 5));
    assert_eq!(taken, Some(bn));
    assert_eq!(g.get_pos(pos(0, 5)), Some(wr));
    assert_eq!(g.get_pos(pos(0, 0)), None);
}

#[test]
fn try_apply_movement_rejects_an_empty_source() {
    // the fatal precondition of apply_movement, caught at run time:
    // moving from an empty square never silently succeeds
    let mut g = GameState::new();
    let before = g.board.clone();
    assert_eq!(g.try_apply_movement(pos(4, 4), pos(5, 4)), None);
    assert_eq!(g.board, before);
}

#[test]
fn try_apply_movement_rejects_out_of_bounds() {
    let mut g = GameState::new();
    assert_eq!(g.try_apply_movement(pos(-1, 0), pos(0, 0)), None);
    assert_eq!(g.try_apply_movement(pos(1, 4), pos(8, 4)), None);
}

#[test]
fn try_apply_movement_performs_a_valid_move() {
    let mut g = GameState::new();
    let r = g.try_apply_movement(pos(1, 4), pos(3, 4));
    assert_eq!(r, Some(None));
    assert_eq!(
        g.get_pos(pos(3, 4)),
        Some(piece(PieceColor::White, PieceKind::Pawn(true)))
    );
}

#[test]
fn round_trip_restores_occupancy_except_pawn_flag() {
    // moving there and back restores both squares; the knight is unchanged
    let mut g = GameState::new();
    let before = g.get_pos(pos(0, 1));
    g.apply_movement(pos(0, 1), pos(2, 2));
    g.apply_movement(pos(2, 2), pos(0, 1));
    assert_eq!(g.get_pos(pos(0, 1)), before);
    assert_eq!(g.get_pos(pos(2, 2)), None);

    // a pawn keeps its has_moved flag: flag-setting is one-directional
    g.apply_movement(pos(1, 0), pos(2, 0));
    g.apply_movement(pos(2, 0), pos(1, 0));
    assert_eq!(
        g.get_pos(pos(1, 0)),
        Some(piece(PieceColor::White, PieceKind::Pawn(true)))
    );
    assert_eq!(g.get_pos(pos(2, 0)), None);
}

#[test]
fn advance_turn_alternates_players() {
    let mut g = GameState::new();
    assert_eq!(g.curr_player, PieceColor::White);
    g.advance_turn();
    assert_eq!(g.curr_player, PieceColor::Black);
    g.advance_turn();
    assert_eq!(g.curr_player, PieceColor::White);
}

#[test]
fn pieces_enumerates_in_row_major_order() {
    let g = GameState::new();
    let all = g.pieces();
    assert_eq!(all.len(), 32);
    assert_eq!(all[0].1, pos(0, 0));
    assert_eq!(all[0].0, piece(PieceColor::White, PieceKind::Rook));
    assert_eq!(all[31].1, pos(7, 7));
    assert_eq!(all[31].0, piece(PieceColor::Black, PieceKind::Rook));
    for w in all.windows(2) {
        let a = &w[0].1;
        let b = &w[1].1;
        assert!(a.row as i32 * 8 + (a.col as i32) < b.row as i32 * 8 + b.col as i32);
    }
}

#[test]
fn queries_are_idempotent_without_mutation() {
    let mut g = GameState::new();
    g.apply_movement(pos(1, 4), pos(3, 4));
    let c1 = g.is_in_check(PieceColor::White);
    let c2 = g.is_in_check(PieceColor::White);
    assert_eq!(c1, c2);
    let knight = g.get_pos(pos(0, 6)).unwrap();
    let first = g.moves_and_captures(knight, pos(0, 6));
    let second = g.moves_and_captures(knight, pos(0, 6));
    assert_eq!(first, second);
    let n1 = g.no_legal_moves();
    let n2 = g.no_legal_moves();
    assert_eq!(n1, n2);
}
