use schach::board::{BoardPosition, ClickSquareEvent, MouseButton};
use schach::game::GameState;
use schach::pieces::{PieceAnimCompleteEvent, PieceColor, PieceKind, PieceMoveEvent};
use schach::turn::{turn_step, TurnData, TurnEvent, TurnState};

fn pos(row: i8, col: i8) -> BoardPosition {
    BoardPosition { row, col }
}

fn click(p: Option<BoardPosition>) -> TurnEvent {
    TurnEvent::Click(ClickSquareEvent {
        kind: MouseButton::Primary,
        board_pos: p,
    })
}

#[test]
fn a_full_turn_walks_the_cycle() {
    let mut g = GameState::new();
    let mut t = TurnData::new();

    // game continues: open the turn
    turn_step(&mut g, &mut t, TurnEvent::Tick);
    assert_eq!(t.state, TurnState::SelectPiece);

    // pick the pawn on E2
    turn_step(&mut g, &mut t, click(Some(pos(1, 4))));
    assert_eq!(t.state, TurnState::ShowHighlights);
    assert_eq!(t.move_piece, Some(pos(1, 4)));

    // its legal destinations are highlighted
    let out = turn_step(&mut g, &mut t, TurnEvent::Tick);
    assert_eq!(t.state, TurnState::SelectTarget);
    let mut hl: Vec<(i8, i8)> = out.highlights.iter().map(|p| (p.row, p.col)).collect();
    hl.sort();
    assert_eq!(hl, vec![(2, 4), (3, 4)]);
    assert_eq!(t.valid_moves, out.highlights);

    // commit the double step
    let out = turn_step(&mut g, &mut t, click(Some(pos(3, 4))));
    assert_eq!(t.state, TurnState::AnimateMove);
    assert!(out.clear_highlights);
    assert!(!out.captured);
    assert_eq!(
        out.moved,
        Some(PieceMoveEvent {
            source: pos(1, 4),
            target: pos(3, 4),
        })
    );
    assert_eq!(g.get_pos(pos(1, 4)), None);
    assert_eq!(
        g.get_pos(pos(3, 4)).map(|p| p.kind),
        Some(PieceKind::Pawn(true))
    );

    // a completion signal for another piece is ignored
    turn_step(
        &mut g,
        &mut t,
        TurnEvent::AnimComplete(PieceAnimCompleteEvent { target: pos(5, 5) }),
    );
    assert_eq!(t.state, TurnState::AnimateMove);

    // the matching signal releases the machine
    turn_step(
        &mut g,
        &mut t,
        TurnEvent::AnimComplete(PieceAnimCompleteEvent { target: pos(3, 4) }),
    );
    assert_eq!(t.state, TurnState::CheckCapture);

    // capture resolution, then the turn is handed over
    let out = turn_step(&mut g, &mut t, TurnEvent::Tick);
    assert!(out.remove_captured);
    assert_eq!(t.state, TurnState::EndTurn);

    turn_step(&mut g, &mut t, TurnEvent::Tick);
    assert_eq!(t.state, TurnState::CheckForGameOver);
    assert_eq!(g.curr_player, PieceColor::Black);
    assert!(t.move_piece.is_none());
    assert!(t.move_target.is_none());
    assert!(t.valid_moves.is_empty());
}

#[test]
fn selecting_an_enemy_piece_does_nothing() {
    let mut g = GameState::new();
    let mut t = TurnData::new();
    turn_step(&mut g, &mut t, TurnEvent::Tick);
    turn_step(&mut g, &mut t, click(Some(pos(6, 0))));
    assert_eq!(t.state, TurnState::SelectPiece);
    assert!(t.move_piece.is_none());
}

#[test]
fn a_background_click_clears_the_selection() {
    let mut g = GameState::new();
    let mut t = TurnData::new();
    turn_step(&mut g, &mut t, TurnEvent::Tick);
    turn_step(&mut g, &mut t, click(None));
    assert_eq!(t.state, TurnState::SelectPiece);
    assert!(t.move_piece.is_none());
}

#[test]
fn secondary_clicks_are_ignored() {
    let mut g = GameState::new();
    let mut t = TurnData::new();
    turn_step(&mut g, &mut t, TurnEvent::Tick);
    turn_step(
        &mut g,
        &mut t,
        TurnEvent::Click(ClickSquareEvent {
            kind: MouseButton::Secondary,
            board_pos: Some(pos(1, 4)),
        }),
    );
    assert_eq!(t.state, TurnState::SelectPiece);
    assert!(t.move_piece.is_none());
}

#[test]
fn reselecting_a_friendly_piece_loops_back() {
    let mut g = GameState::new();
    let mut t = TurnData::new();
    turn_step(&mut g, &mut t, TurnEvent::Tick);
    turn_step(&mut g, &mut t, click(Some(pos(1, 4))));
    turn_step(&mut g, &mut t, TurnEvent::Tick);
    assert_eq!(t.state, TurnState::SelectTarget);

    // clicking the knight instead re-selects it
    let out = turn_step(&mut g, &mut t, click(Some(pos(0, 6))));
    assert_eq!(t.state, TurnState::ShowHighlights);
    assert_eq!(t.move_piece, Some(pos(0, 6)));
    assert!(out.clear_highlights);
    assert!(out.moved.is_none());
}

#[test]
fn an_invalid_target_abandons_the_selection() {
    let mut g = GameState::new();
    let mut t = TurnData::new();
    turn_step(&mut g, &mut t, TurnEvent::Tick);
    turn_step(&mut g, &mut t, click(Some(pos(1, 4))));
    turn_step(&mut g, &mut t, TurnEvent::Tick);

    // an empty square that is not highlighted
    let out = turn_step(&mut g, &mut t, click(Some(pos(5, 5))));
    assert_eq!(t.state, TurnState::SelectPiece);
    assert!(t.move_piece.is_none());
    assert!(out.clear_highlights);
    assert!(out.moved.is_none());
    // the board is untouched
    assert_eq!(
        g.get_pos(pos(1, 4)).map(|p| p.kind),
        Some(PieceKind::Pawn(false))
    );
}

#[test]
fn an_off_board_target_abandons_the_selection() {
    let mut g = GameState::new();
    let mut t = TurnData::new();
    turn_step(&mut g, &mut t, TurnEvent::Tick);
    turn_step(&mut g, &mut t, click(Some(pos(1, 4))));
    turn_step(&mut g, &mut t, TurnEvent::Tick);
    let out = turn_step(&mut g, &mut t, click(None));
    assert_eq!(t.state, TurnState::SelectPiece);
    assert!(t.move_piece.is_none());
    assert!(out.clear_highlights);
}

#[test]
fn a_capture_is_signalled_and_resolved() {
    // put a black pawn where the white knight can take it
    let mut g = GameState::new();
    g.set_pos(
        pos(2, 2),
        Some(schach::pieces::Piece {
            color: PieceColor::Black,
            kind: PieceKind::Pawn(true),
        }),
    );
    let mut t = TurnData::new();
    turn_step(&mut g, &mut t, TurnEvent::Tick);
    turn_step(&mut g, &mut t, click(Some(pos(0, 1))));
    let out = turn_step(&mut g, &mut t, TurnEvent::Tick);
    assert!(out.highlights.contains(&pos(2, 2)));

    let out = turn_step(&mut g, &mut t, click(Some(pos(2, 2))));
    assert!(out.captured);
    assert_eq!(
        out.moved,
        Some(PieceMoveEvent {
            source: pos(0, 1),
            target: pos(2, 2),
        })
    );
    assert_eq!(
        g.get_pos(pos(2, 2)).map(|p| p.kind),
        Some(PieceKind::Knight)
    );

    turn_step(
        &mut g,
        &mut t,
        TurnEvent::AnimComplete(PieceAnimCompleteEvent { target: pos(2, 2) }),
    );
    let out = turn_step(&mut g, &mut t, TurnEvent::Tick);
    assert!(out.remove_captured);
}

#[test]
fn clicks_after_game_over_are_ignored() {
    let mut g = GameState::empty();
    g.set_pos(
        pos(7, 7),
        Some(schach::pieces::Piece {
            color: PieceColor::Black,
            kind: PieceKind::King,
        }),
    );
    g.set_pos(
        pos(6, 6),
        Some(schach::pieces::Piece {
            color: PieceColor::White,
            kind: PieceKind::Queen,
        }),
    );
    g.set_pos(
        pos(5, 5),
        Some(schach::pieces::Piece {
            color: PieceColor::White,
            kind: PieceKind::King,
        }),
    );
    g.curr_player = PieceColor::Black;
    let mut t = TurnData::new();
    turn_step(&mut g, &mut t, TurnEvent::Tick);
    assert!(g.game_over.is_some());
    let before_board = g.board.clone();
    let out = turn_step(&mut g, &mut t, click(Some(pos(7, 7))));
    assert_eq!(g.board, before_board);
    assert_eq!(t.state, TurnState::CheckForGameOver);
    assert!(out.moved.is_none() && !out.clear_highlights && !out.remove_captured);
}

#[test]
fn piece_color_next_alternates() {
    assert_eq!(PieceColor::White.next(), PieceColor::Black);
    assert_eq!(PieceColor::Black.next(), PieceColor::White);
    assert_eq!(PieceColor::default(), PieceColor::White);
}

#[test]
fn piece_move_event_new_keeps_its_fields() {
    let ev = PieceMoveEvent::new(pos(1, 4), pos(3, 4));
    assert_eq!(ev.source, pos(1, 4));
    assert_eq!(ev.target, pos(3, 4));
}
