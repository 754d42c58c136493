use minesweeper::board::Board;
use minesweeper::cell::CellState;
use minesweeper::clock::{format_clock, Elapsed};
use minesweeper::game::{Game, GameState};
use minesweeper::settings::Difficulty;

fn game(width: usize, height: usize, mines: &[(usize, usize)], state: GameState) -> Game {
    let positions: Vec<usize> = mines.iter().map(|(r, c)| r * width + c).collect();
    Game {
        board: Board::from_mine_positions(width, height, mines.len(), &positions),
        state,
        time_elapsed: Elapsed::zero(),
        start_time: None,
    }
}

#[test]
fn new_game_is_not_started() {
    let g = Game::new(8, 6, 5);
    assert_eq!(g.state, GameState::NotStarted);
    assert!(g.start_time.is_none());
    assert_eq!(g.time_elapsed, Elapsed { secs: 0, nanos: 0 });
    assert_eq!((g.board.width, g.board.height, g.board.mine_count), (8, 6, 5));
    assert_eq!(g.format_time(), "000:00");
}

#[test]
fn from_difficulty_uses_its_dimensions() {
    for d in [
        Difficulty::Easy,
        Difficulty::Medium,
        Difficulty::Hard,
        Difficulty::Custom { width: 7, height: 5, mines: 3 },
    ] {
        let g = Game::from_difficulty(d);
        let (w, h, m) = d.dimensions();
        assert_eq!((g.board.width, g.board.height, g.board.mine_count), (w, h, m));
        assert_eq!(g.board.cells.iter().flatten().filter(|c| c.is_mine).count(), m);
    }
}

#[test]
fn reset_replaces_the_game() {
    let mut g = game(3, 3, &[(0, 0)], GameState::Lost);
    g.reset(5, 4, 2);
    assert_eq!(g.state, GameState::NotStarted);
    assert_eq!((g.board.width, g.board.height, g.board.mine_count), (5, 4, 2));
    g.reset_with_difficulty(Difficulty::Medium);
    assert_eq!((g.board.width, g.board.height, g.board.mine_count), (16, 16, 40));
}

#[test]
fn start_runs_the_clock_once() {
    let mut g = game(3, 3, &[(0, 0)], GameState::NotStarted);
    g.start();
    assert_eq!(g.state, GameState::Running);
    assert!(g.start_time.is_some());
    let t = g.start_time;
    g.start();
    assert_eq!(g.start_time, t);
    g.update_time();
    assert!(g.time_elapsed.secs < 60);
    assert!(g.time_elapsed.nanos < 1_000_000_000);
}

#[test]
fn update_time_waits_for_a_running_game() {
    let mut g = game(3, 3, &[(0, 0)], GameState::Won);
    g.update_time();
    assert_eq!(g.time_elapsed, Elapsed::zero());
}

#[test]
fn first_reveal_starts_the_game() {
    let mut g = game(4, 4, &[(3, 3)], GameState::NotStarted);
    assert!(!g.reveal_at(0, 0));
    assert_eq!(g.state, GameState::Running);
    assert!(g.start_time.is_some());
    assert_eq!(g.board.revealed_count, 15);
}

#[test]
fn reveal_in_running_game_can_explode() {
    let mut g = game(3, 3, &[(1, 1)], GameState::Running);
    assert!(g.reveal_at(1, 1));
    assert!(g.board.cells[1][1].is_exploded);
}

#[test]
fn finished_games_ignore_moves() {
    for state in [GameState::Won, GameState::Lost] {
        let mut g = game(3, 3, &[(1, 1)], state);
        assert!(!g.reveal_at(1, 1));
        g.flag(0, 0);
        g.question(0, 1);
        g.check_game_end();
        assert_eq!(g.state, state);
        assert_eq!(g.board.revealed_count, 0);
        assert_eq!(g.board.flag_count, 0);
        assert_eq!(g.board.cells[0][1].state, CellState::Hidden);
        assert!(g.is_game_over());
    }
}

#[test]
fn flag_and_question_only_while_running() {
    let mut g = game(3, 3, &[(1, 1)], GameState::NotStarted);
    g.flag(0, 0);
    g.question(0, 1);
    assert_eq!(g.board.flag_count, 0);
    assert_eq!(g.board.cells[0][1].state, CellState::Hidden);
    g.state = GameState::Running;
    g.flag(0, 0);
    g.question(0, 1);
    assert_eq!(g.board.flag_count, 1);
    assert_eq!(g.board.cells[0][0].state, CellState::Flagged);
    assert_eq!(g.board.cells[0][1].state, CellState::Questioned);
    assert!(!g.is_game_over());
}

#[test]
fn mines_remaining_subtracts_flags() {
    let mut g = game(3, 3, &[(1, 1)], GameState::Running);
    assert_eq!(g.get_mines_remaining(), 1);
    g.flag(0, 0);
    g.flag(0, 1);
    assert_eq!(g.get_mines_remaining(), -1);
}

#[test]
fn check_game_end_declares_victory() {
    let mut g = game(3, 3, &[(0, 0)], GameState::Running);
    g.check_game_end();
    assert_eq!(g.state, GameState::Running);
    g.reveal_at(2, 2);
    g.check_game_end();
    assert_eq!(g.state, GameState::Won);
}

#[test]
fn primary_click_on_mine_loses_and_shows_mines() {
    let mut g = game(3, 3, &[(0, 0), (2, 2)], GameState::Running);
    g.flag(2, 2);
    g.on_primary_click(0, 0, 3, 3);
    assert_eq!(g.state, GameState::Lost);
    assert_eq!(g.board.cells[0][0].state, CellState::Revealed);
    assert_eq!(g.board.cells[2][2].state, CellState::Flagged);
}

#[test]
fn primary_click_can_win() {
    let mut g = game(4, 4, &[(3, 3)], GameState::NotStarted);
    g.on_primary_click(0, 0, 4, 4);
    assert_eq!(g.state, GameState::Won);
}

#[test]
fn clicks_outside_the_board_do_nothing() {
    let mut g = game(3, 3, &[(0, 0)], GameState::Running);
    g.on_primary_click(3, 0, 3, 3);
    g.on_secondary_click(0, 3, 3, 3);
    assert_eq!(g.board.revealed_count, 0);
    assert_eq!(g.board.flag_count, 0);
}

#[test]
fn secondary_click_flags() {
    let mut g = game(3, 3, &[(0, 0)], GameState::Running);
    g.on_secondary_click(0, 0, 3, 3);
    assert_eq!(g.board.cells[0][0].state, CellState::Flagged);
    g.on_secondary_click(0, 0, 3, 3);
    assert_eq!(g.board.cells[0][0].state, CellState::Hidden);
}

#[test]
fn clock_formats() {
    assert_eq!(format_clock(0), "000:00");
    assert_eq!(format_clock(61), "001:01");
    assert_eq!(format_clock(3599), "059:59");
    assert_eq!(format_clock(6000), "100:00");
    assert_eq!(format_clock(60_000 + 7), "1000:07");
}

#[test]
fn game_clone_keeps_everything() {
    let g = game(3, 3, &[(0, 0)], GameState::Running);
    let h = g.clone();
    assert_eq!(h.state, g.state);
    assert_eq!(h.board.cells, g.board.cells);
    assert_eq!((h.board.width, h.board.height, h.board.mine_count), (3, 3, 1));
    assert_eq!(h.time_elapsed, g.time_elapsed);
}

#[test]
fn format_time_shows_whole_seconds_elapsed() {
    let mut g = Game::new(9, 9, 10);
    g.time_elapsed = Elapsed { secs: 125, nanos: 0 };
    assert_eq!(g.format_time(), "002:05");
    g.time_elapsed = Elapsed { secs: 59, nanos: 999_000_000 };
    assert_eq!(g.format_time(), "000:59");
    g.time_elapsed = Elapsed { secs: 60_000, nanos: 0 };
    assert_eq!(g.format_time(), "1000:00");
}

#[test]
fn reset_clears_the_clock() {
    let mut g = game(3, 3, &[(0, 0)], GameState::Won);
    g.time_elapsed = Elapsed { secs: 42, nanos: 7 };
    g.reset(4, 4, 1);
    assert_eq!(g.time_elapsed, Elapsed::zero());
    assert!(g.start_time.is_none());
}

#[test]
fn record_elapsed_only_while_running() {
    let mut g = game(3, 3, &[(0, 0)], GameState::NotStarted);
    g.record_elapsed(Elapsed { secs: 9, nanos: 1 });
    assert_eq!(g.time_elapsed, Elapsed::zero());
    g.start();
    g.record_elapsed(Elapsed { secs: 9, nanos: 1 });
    assert_eq!(g.time_elapsed, Elapsed { secs: 9, nanos: 1 });
    assert_eq!(g.format_time(), "000:09");
    g.state = GameState::Lost;
    g.record_elapsed(Elapsed { secs: 70, nanos: 0 });
    assert_eq!(g.time_elapsed, Elapsed { secs: 9, nanos: 1 });
}
