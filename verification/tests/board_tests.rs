use schach::board::BoardPosition;

fn pos(row: i8, col: i8) -> BoardPosition {
    BoardPosition { row, col }
}

#[test]
fn new_is_origin() {
    let p = BoardPosition::new();
    assert_eq!(p, pos(0, 0));
}

#[test]
fn bounds_checking() {
    assert!(pos(0, 0).is_in_bounds());
    assert!(pos(7, 7).is_in_bounds());
    assert!(pos(3, 5).is_in_bounds());
    assert!(!pos(-1, 0).is_in_bounds());
    assert!(!pos(0, -1).is_in_bounds());
    assert!(!pos(8, 0).is_in_bounds());
    assert!(!pos(0, 8).is_in_bounds());
}

#[test]
fn next_walks_row_major() {
    assert_eq!(pos(0, 0).next(), Some(pos(0, 1)));
    assert_eq!(pos(0, 7).next(), Some(pos(1, 0)));
    assert_eq!(pos(6, 7).next(), Some(pos(7, 0)));
    assert_eq!(pos(7, 7).next(), None);
    assert_eq!(pos(8, 0).next(), None);
}

#[test]
fn next_visits_all_64_squares() {
    let mut count = 0;
    let mut cur = Some(BoardPosition::new());
    while let Some(p) = cur {
        count += 1;
        cur = p.next();
    }
    assert_eq!(count, 64);
}

#[test]
fn offset_adds_componentwise() {
    assert_eq!(pos(3, 3).offset(1, -1), pos(4, 2));
    assert_eq!(pos(0, 0).offset(-1, 0), pos(-1, 0));
    assert!(!pos(0, 0).offset(-1, 0).is_in_bounds());
}
