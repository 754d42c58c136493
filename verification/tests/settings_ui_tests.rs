use minesweeper::cell::{Cell, CellState};
use minesweeper::settings::{Difficulty, Settings};
use minesweeper::theme::{Color, ThemeColors};
use minesweeper::ui::{cell_face, cell_mark, CellFace, CellMark, CellPainter};

#[test]
fn difficulty_names_and_sizes() {
    assert_eq!(Difficulty::Easy.display_name(), "Easy");
    assert_eq!(Difficulty::Medium.display_name(), "Medium");
    assert_eq!(Difficulty::Hard.display_name(), "Hard");
    let custom = Difficulty::Custom { width: 12, height: 7, mines: 9 };
    assert_eq!(custom.display_name(), "Custom");
    assert_eq!(Difficulty::Easy.dimensions(), (9, 9, 10));
    assert_eq!(Difficulty::Medium.dimensions(), (16, 16, 40));
    assert_eq!(Difficulty::Hard.dimensions(), (30, 16, 99));
    assert_eq!(custom.dimensions(), (12, 7, 9));
    assert_eq!(Difficulty::default(), Difficulty::Easy);
}

#[test]
fn default_settings() {
    let s = Settings::default();
    assert_eq!(s.difficulty, Difficulty::Easy);
    assert!(s.dark_mode && s.sound_enabled && s.animations_enabled);
    assert_eq!(s.validate(), Ok(()));
}

fn custom(width: usize, height: usize, mines: usize) -> Settings {
    Settings { difficulty: Difficulty::Custom { width, height, mines }, ..Settings::default() }
}

#[test]
fn presets_validate() {
    for d in [Difficulty::Easy, Difficulty::Medium, Difficulty::Hard] {
        let s = Settings { difficulty: d, ..Settings::default() };
        assert_eq!(s.validate(), Ok(()));
    }
}

#[test]
fn validate_messages() {
    assert_eq!(custom(4, 10, 3).validate(), Err("Width must be between 5 and 50".to_string()));
    assert_eq!(custom(51, 10, 3).validate(), Err("Width must be between 5 and 50".to_string()));
    assert_eq!(custom(10, 4, 3).validate(), Err("Height must be between 5 and 50".to_string()));
    assert_eq!(custom(10, 51, 3).validate(), Err("Height must be between 5 and 50".to_string()));
    assert_eq!(custom(10, 10, 0).validate(), Err("Must have at least 1 mine".to_string()));
    assert_eq!(custom(10, 10, 100).validate(), Err("Mines must be fewer than total cells".to_string()));
    assert_eq!(custom(10, 10, 99).validate(), Ok(()));
    assert_eq!(custom(5, 50, 1).validate(), Ok(()));
    // width is checked before height
    assert_eq!(custom(2, 2, 0).validate(), Err("Width must be between 5 and 50".to_string()));
}

#[test]
fn hover_tracking() {
    let mut p = CellPainter::new();
    assert!(!p.is_hovered(0, 0));
    assert_eq!(p.hover_cell(), None);
    p.set_hover(Some((2, 3)));
    assert!(p.is_hovered(2, 3));
    assert!(!p.is_hovered(3, 2));
    assert_eq!(p.hover_cell(), Some((2, 3)));
    p.set_hover(None);
    assert!(!p.is_hovered(2, 3));
    assert_eq!(CellPainter::default().hover_cell(), None);
}

#[test]
fn faces_and_marks() {
    let hidden = Cell::new();
    assert_eq!(cell_face(&hidden), CellFace::Covered);
    assert_eq!(cell_mark(&hidden), CellMark::Blank);
    let mut flagged = Cell::new();
    flagged.toggle_flag();
    assert_eq!(cell_face(&flagged), CellFace::Covered);
    assert_eq!(cell_mark(&flagged), CellMark::Flag);
    let mut questioned = Cell::new();
    questioned.toggle_question();
    assert_eq!(cell_mark(&questioned), CellMark::Question);
    let number = Cell { state: CellState::Revealed, adjacent_mines: 3, ..Cell::new() };
    assert_eq!(cell_face(&number), CellFace::Open);
    assert_eq!(cell_mark(&number), CellMark::Number(3));
    let empty = Cell { state: CellState::Revealed, ..Cell::new() };
    assert_eq!(cell_mark(&empty), CellMark::Blank);
    let mine = Cell { state: CellState::Revealed, ..Cell::new().with_mine() };
    assert_eq!(cell_face(&mine), CellFace::MineShown);
    assert_eq!(cell_mark(&mine), CellMark::Mine);
    let boom = Cell { is_exploded: true, ..mine };
    assert_eq!(cell_mark(&boom), CellMark::Exploded);
    let flagged_boom = Cell { is_exploded: true, ..flagged.with_mine() };
    assert_eq!(cell_mark(&flagged_boom), CellMark::Exploded);
}

#[test]
fn theme_colours() {
    let dark = ThemeColors::dark();
    assert_eq!(dark.background, Color { r: 18, g: 18, b: 24, a: 255 });
    assert_eq!(dark.flag_color, Color::from_rgb(242, 72, 72));
    assert_eq!(dark.accent_win, Color::from_rgb(72, 200, 100));
    let light = ThemeColors::light();
    assert_eq!(light.background, Color::from_rgb(235, 235, 245));
    assert_eq!(light.text, Color::from_rgb(30, 30, 40));
    assert_eq!(ThemeColors::default().surface, dark.surface);
    assert_eq!(ThemeColors::palette(true).cell_hidden, dark.cell_hidden);
    assert_eq!(ThemeColors::palette(false).cell_hidden, light.cell_hidden);
    assert_eq!(ThemeColors::number_color(1), Color::from_rgb(72, 142, 242));
    assert_eq!(ThemeColors::number_color(8), Color::from_rgb(128, 128, 140));
    assert_eq!(ThemeColors::number_color(0), Color::white());
    assert_eq!(ThemeColors::number_color(9), Color { r: 255, g: 255, b: 255, a: 255 });
}
