use minesweeper::board::Board;
use minesweeper::cell::CellState;

fn board(width: usize, height: usize, mines: &[(usize, usize)]) -> Board {
    let positions: Vec<usize> = mines.iter().map(|(r, c)| r * width + c).collect();
    Board::from_mine_positions(width, height, mines.len(), &positions)
}

fn brute_count(b: &Board, row: usize, col: usize) -> u8 {
    let mut n = 0;
    for r in row.saturating_sub(1)..=(row + 1).min(b.height - 1) {
        for c in col.saturating_sub(1)..=(col + 1).min(b.width - 1) {
            if (r, c) != (row, col) && b.cells[r][c].is_mine {
                n += 1;
            }
        }
    }
    n
}

fn count_state(b: &Board, s: CellState) -> usize {
    b.cells.iter().flatten().filter(|c| c.state == s).count()
}

#[test]
fn numbers_around_a_centre_mine() {
    let b = board(3, 3, &[(1, 1)]);
    for r in 0..3 {
        for c in 0..3 {
            let cell = b.get_cell(r, c).unwrap();
            if (r, c) == (1, 1) {
                assert!(cell.is_mine);
                assert_eq!(cell.adjacent_mines, 0);
            } else {
                assert!(!cell.is_mine);
                assert_eq!(cell.adjacent_mines, 1);
            }
        }
    }
}

#[test]
fn numbers_count_corner_and_edge_neighbours() {
    let b = board(4, 3, &[(0, 0), (0, 1), (2, 3)]);
    assert_eq!(b.cells[1][0].adjacent_mines, 2);
    assert_eq!(b.cells[1][1].adjacent_mines, 2);
    assert_eq!(b.cells[1][2].adjacent_mines, 2);
    assert_eq!(b.cells[1][3].adjacent_mines, 1);
    assert_eq!(b.cells[0][2].adjacent_mines, 1);
    assert_eq!(b.cells[2][2].adjacent_mines, 1);
    assert_eq!(b.cells[2][0].adjacent_mines, 0);
}

#[test]
fn new_board_has_requested_mines_and_right_numbers() {
    let b = Board::new(9, 9, 10);
    assert_eq!((b.width, b.height, b.mine_count), (9, 9, 10));
    assert_eq!((b.flag_count, b.revealed_count), (0, 0));
    assert_eq!(b.cells.len(), 9);
    let mines = b.cells.iter().flatten().filter(|c| c.is_mine).count();
    assert_eq!(mines, 10);
    for r in 0..9 {
        assert_eq!(b.cells[r].len(), 9);
        for c in 0..9 {
            let cell = b.cells[r][c];
            assert_eq!(cell.state, CellState::Hidden);
            if !cell.is_mine {
                assert_eq!(cell.adjacent_mines, brute_count(&b, r, c));
            }
        }
    }
}

#[test]
fn new_board_caps_mines_at_cell_count() {
    let b = Board::new(3, 2, 50);
    assert_eq!(b.mine_count, 50);
    assert!(b.cells.iter().flatten().all(|c| c.is_mine));
}

#[test]
fn flood_opens_everything_but_the_mine() {
    let mut b = board(5, 5, &[(4, 4)]);
    let exploded = b.reveal_cell(0, 0);
    assert!(!exploded);
    assert_eq!(b.revealed_count, 24);
    assert_eq!(count_state(&b, CellState::Revealed), 24);
    assert_eq!(b.cells[4][4].state, CellState::Hidden);
    assert!(b.check_victory());
}

#[test]
fn flood_stops_at_numbers() {
    // mines in the right column: the flood from the left stops at column 3
    let mut b = board(5, 3, &[(0, 4), (1, 4), (2, 4)]);
    assert!(!b.reveal_cell(1, 0));
    for r in 0..3 {
        for c in 0..4 {
            assert_eq!(b.cells[r][c].state, CellState::Revealed);
        }
        assert_eq!(b.cells[r][4].state, CellState::Hidden);
    }
    assert_eq!(b.revealed_count, 12);
}

#[test]
fn numbered_cell_opens_alone() {
    let mut b = board(3, 3, &[(0, 0)]);
    assert!(!b.reveal_cell(1, 1));
    assert_eq!(b.revealed_count, 1);
    assert_eq!(count_state(&b, CellState::Revealed), 1);
}

#[test]
fn flood_skips_flags_but_opens_question_marks() {
    let mut b = board(4, 4, &[(3, 3)]);
    b.toggle_flag(0, 3);
    b.toggle_question(1, 1);
    assert!(!b.reveal_cell(0, 0));
    assert_eq!(b.cells[0][3].state, CellState::Flagged);
    assert_eq!(b.cells[1][1].state, CellState::Revealed);
    assert_eq!(b.revealed_count, 14);
    assert_eq!(b.flag_count, 1);
}

#[test]
fn hitting_a_mine_explodes_it() {
    let mut b = board(3, 3, &[(2, 2)]);
    assert!(b.reveal_cell(2, 2));
    assert!(b.cells[2][2].is_exploded);
    assert_eq!(b.cells[2][2].state, CellState::Revealed);
    assert_eq!(b.revealed_count, 1);
}

#[test]
fn revealing_twice_or_off_board_does_nothing() {
    let mut b = board(3, 3, &[(2, 2)]);
    assert!(!b.reveal_cell(0, 0));
    let count = b.revealed_count;
    assert!(!b.reveal_cell(0, 0));
    assert!(!b.reveal_cell(3, 0));
    assert!(!b.reveal_cell(0, 7));
    assert_eq!(b.revealed_count, count);
}

#[test]
fn revealing_a_flagged_cell_counts_it_but_keeps_the_flag() {
    let mut b = board(3, 3, &[(0, 0)]);
    b.toggle_flag(2, 2);
    assert_eq!(b.flag_count, 1);
    assert!(!b.reveal_cell(2, 2));
    assert_eq!(b.cells[2][2].state, CellState::Flagged);
    assert_eq!(b.flag_count, 0);
    // the flagged cell has no neighbouring mines, so the flood opens around it
    assert_eq!(b.cells[1][1].state, CellState::Revealed);
}

#[test]
fn revealing_a_flagged_mine_explodes() {
    let mut b = board(3, 3, &[(0, 0)]);
    b.toggle_flag(0, 0);
    assert!(b.reveal_cell(0, 0));
    assert!(b.cells[0][0].is_exploded);
    assert_eq!(b.cells[0][0].state, CellState::Flagged);
}

#[test]
fn toggle_flag_counts_flags() {
    let mut b = board(3, 3, &[(0, 0)]);
    b.toggle_flag(1, 1);
    b.toggle_flag(0, 0);
    assert_eq!(b.flag_count, 2);
    b.toggle_flag(1, 1);
    assert_eq!(b.flag_count, 1);
    assert_eq!(b.cells[1][1].state, CellState::Hidden);
    b.toggle_flag(5, 5);
    assert_eq!(b.flag_count, 1);
}

#[test]
fn toggle_flag_on_questioned_cell_counts_without_flagging() {
    let mut b = board(3, 3, &[(0, 0)]);
    b.toggle_question(1, 1);
    b.toggle_flag(1, 1);
    assert_eq!(b.flag_count, 1);
    assert_eq!(b.cells[1][1].state, CellState::Questioned);
}

#[test]
fn toggle_flag_ignores_revealed_cells() {
    let mut b = board(3, 3, &[(0, 0)]);
    b.reveal_cell(2, 2);
    b.toggle_flag(2, 2);
    assert_eq!(b.flag_count, 0);
    assert_eq!(b.cells[2][2].state, CellState::Revealed);
}

#[test]
fn toggle_question_only_marks_hidden_cells() {
    let mut b = board(3, 3, &[(0, 0)]);
    b.toggle_question(1, 1);
    assert_eq!(b.cells[1][1].state, CellState::Questioned);
    b.toggle_question(1, 1);
    assert_eq!(b.cells[1][1].state, CellState::Questioned);
    b.toggle_flag(2, 2);
    b.toggle_question(2, 2);
    assert_eq!(b.cells[2][2].state, CellState::Flagged);
    b.toggle_question(9, 9);
}

#[test]
fn get_cell_on_and_off_board() {
    let b = board(4, 2, &[(1, 3)]);
    assert!(b.get_cell(1, 3).unwrap().is_mine);
    assert!(b.get_cell(2, 0).is_none());
    assert!(b.get_cell(0, 4).is_none());
}

#[test]
fn cell_totals() {
    let b = board(4, 3, &[(0, 0), (1, 1)]);
    assert_eq!(b.total_cells(), 12);
    assert_eq!(b.non_mine_cells(), 10);
    assert!(!b.check_victory());
}

#[test]
fn reveal_all_mines_skips_flagged_mines() {
    let mut b = board(3, 3, &[(0, 0), (2, 2)]);
    b.toggle_flag(2, 2);
    b.reveal_all_mines();
    assert_eq!(b.cells[0][0].state, CellState::Revealed);
    assert_eq!(b.cells[2][2].state, CellState::Flagged);
    assert_eq!(b.cells[1][1].state, CellState::Hidden);
    assert_eq!(b.revealed_count, 0);
}

#[test]
fn first_reveal_with_choice_moves_the_mine() {
    let mut b = board(3, 3, &[(0, 0)]);
    let exploded = b.safe_reveal_first_with(0, 0, Some((2, 2)));
    assert!(!exploded);
    assert!(!b.cells[0][0].is_mine);
    assert!(b.cells[2][2].is_mine);
    assert_eq!(b.cells[0][0].adjacent_mines, 0);
    assert_eq!(b.cells[1][1].adjacent_mines, 1);
    // (0, 0) now has no neighbouring mines: the flood opens all but the mine
    assert_eq!(b.revealed_count, 8);
}

#[test]
fn first_reveal_on_safe_cell_is_a_plain_reveal() {
    let mut b = board(3, 3, &[(0, 0)]);
    assert!(!b.safe_reveal_first_with(1, 1, None));
    assert!(b.cells[0][0].is_mine);
    assert_eq!(b.revealed_count, 1);
}

#[test]
fn first_reveal_on_all_mine_board_explodes() {
    let mut b = board(2, 1, &[(0, 0), (0, 1)]);
    assert!(b.safe_reveal_first_with(0, 0, None));
    let mut b2 = Board::new(2, 2, 4);
    assert!(b2.safe_reveal_first(1, 1));
}

#[test]
fn random_first_reveal_never_explodes_with_a_free_cell() {
    // 8 mines on 9 cells: the click at (0, 0) is a mine unless it is the free cell
    let mut tries = 0;
    loop {
        let mut b = Board::new(3, 3, 8);
        let was_mine = b.cells[0][0].is_mine;
        let exploded = b.safe_reveal_first(0, 0);
        assert!(!exploded);
        assert!(!b.cells[0][0].is_mine);
        assert_eq!(b.cells.iter().flatten().filter(|c| c.is_mine).count(), 8);
        assert_eq!(b.cells[0][0].state, CellState::Revealed);
        assert_eq!(b.cells[0][0].adjacent_mines, 3);
        tries += 1;
        if was_mine || tries > 50 {
            assert!(was_mine);
            break;
        }
    }
}

#[test]
fn counters_track_the_cells() {
    let mut b = board(6, 5, &[(0, 5), (2, 2), (4, 0)]);
    b.toggle_flag(0, 5);
    b.toggle_question(4, 0);
    b.reveal_cell(0, 0);
    b.toggle_flag(4, 5);
    b.reveal_cell(3, 3);
    b.toggle_flag(4, 5);
    b.reveal_cell(4, 5);
    assert_eq!(b.revealed_count, count_state(&b, CellState::Revealed));
    assert_eq!(b.flag_count, count_state(&b, CellState::Flagged));
    assert!(b.cells.iter().flatten().all(|c| !(c.is_mine && c.state == CellState::Revealed)));
}

#[test]
fn flag_twice_restores_the_board() {
    let mut b = board(4, 4, &[(1, 2)]);
    let before = b.clone();
    b.toggle_flag(1, 2);
    b.toggle_flag(1, 2);
    assert_eq!(b.cells, before.cells);
    assert_eq!(b.flag_count, before.flag_count);
}

#[test]
fn marks_keep_mines_and_numbers() {
    let mut b = board(4, 4, &[(1, 2), (3, 0)]);
    let before = b.clone();
    b.toggle_flag(0, 0);
    b.toggle_question(2, 2);
    b.reveal_cell(0, 3);
    for r in 0..4 {
        for c in 0..4 {
            assert_eq!(b.cells[r][c].is_mine, before.cells[r][c].is_mine);
            assert_eq!(b.cells[r][c].adjacent_mines, before.cells[r][c].adjacent_mines);
        }
    }
}

#[test]
fn board_clone_copies_cells_and_counters() {
    let mut b = board(4, 3, &[(0, 0), (2, 3)]);
    b.toggle_flag(0, 0);
    b.reveal_cell(1, 1);
    let c = b.clone();
    assert_eq!(c.cells, b.cells);
    assert_eq!((c.width, c.height, c.mine_count), (4, 3, 2));
    assert_eq!((c.flag_count, c.revealed_count), (b.flag_count, b.revealed_count));
}

#[test]
fn random_first_reveal_on_free_cell_is_plain_reveal() {
    let mut b = Board::new(9, 9, 10);
    let (r, c) = (0..81).map(|k| (k / 9, k % 9)).find(|&(r, c)| !b.cells[r][c].is_mine).unwrap();
    let mut plain = b.clone();
    let e1 = plain.reveal_cell(r, c);
    let e2 = b.safe_reveal_first(r, c);
    assert_eq!(e1, e2);
    assert_eq!(plain.cells, b.cells);
    assert_eq!(plain.revealed_count, b.revealed_count);
}
