use minesweeper::cell::{Cell, CellState};

#[test]
fn new_cell_is_fresh() {
    let c = Cell::new();
    assert!(!c.is_mine);
    assert_eq!(c.state, CellState::Hidden);
    assert_eq!(c.adjacent_mines, 0);
    assert!(!c.is_exploded);
    assert_eq!(c, Cell::default());
}

#[test]
fn with_mine_sets_only_the_mine() {
    let c = Cell::new().with_mine();
    assert!(c.is_mine);
    assert_eq!(c.state, CellState::Hidden);
    assert_eq!(c.adjacent_mines, 0);
}

#[test]
fn uncover_opens_hidden_and_questioned_cells() {
    let mut c = Cell::new();
    c.uncover();
    assert!(c.is_revealed());
    let mut q = Cell::new();
    q.toggle_question();
    q.uncover();
    assert!(q.is_revealed());
}

#[test]
fn flag_protects_from_uncover() {
    let mut c = Cell::new();
    c.toggle_flag();
    c.uncover();
    assert!(c.is_flagged());
    assert!(!c.is_revealed());
}

#[test]
fn toggle_flag_twice_restores() {
    let mut c = Cell::new();
    c.toggle_flag();
    assert_eq!(c.state, CellState::Flagged);
    c.toggle_flag();
    assert_eq!(c.state, CellState::Hidden);
}

#[test]
fn toggle_flag_ignores_questioned_and_revealed() {
    let mut q = Cell::new();
    q.toggle_question();
    q.toggle_flag();
    assert_eq!(q.state, CellState::Questioned);
    let mut r = Cell::new();
    r.uncover();
    r.toggle_flag();
    assert_eq!(r.state, CellState::Revealed);
}

#[test]
fn toggle_question_twice_restores_and_ignores_flags() {
    let mut c = Cell::new();
    c.toggle_question();
    assert_eq!(c.state, CellState::Questioned);
    c.toggle_question();
    assert_eq!(c.state, CellState::Hidden);
    let mut f = Cell::new();
    f.toggle_flag();
    f.toggle_question();
    assert_eq!(f.state, CellState::Flagged);
}

#[test]
fn hidden_means_covered() {
    let mut c = Cell::new();
    assert!(c.is_hidden() && !c.is_revealed());
    c.toggle_flag();
    assert!(c.is_hidden() && c.is_flagged());
    c.toggle_flag();
    c.toggle_question();
    assert!(c.is_hidden() && !c.is_flagged());
    c.uncover();
    assert!(!c.is_hidden() && c.is_revealed());
}
