//! The colours of the dark and light themes.

use vstd::prelude::*;

verus! {

/// An sRGB colour with alpha, one byte per channel.
#[derive(Clone, Copy, PartialEq, Eq, Debug, Structural)]
pub struct Color {
    pub r: u8,
    pub g: u8,
    pub b: u8,
    pub a: u8,
}

impl Color {
    /// The opaque colour with these red, green and blue channels.
    pub open spec fn rgb(r: u8, g: u8, b: u8) -> Color {
        Color { r, g, b, a: 255 }
    }

    pub fn from_rgb(r: u8, g: u8, b: u8) -> (c: Color)
        ensures
            c == Color::rgb(r, g, b),
    {
        Color { r, g, b, a: 255 }
    }

    pub fn white() -> (c: Color)
        ensures
            c == Color::rgb(255, 255, 255),
    {
        Color::from_rgb(255, 255, 255)
    }
}

/// The colours the interface is drawn with.
#[derive(Clone, Copy, Debug)]
pub struct ThemeColors {
    pub background: Color,
    pub surface: Color,
    pub surface_elevated: Color,
    pub primary: Color,
    pub primary_hover: Color,
    pub secondary: Color,
    pub text: Color,
    pub text_secondary: Color,
    pub cell_hidden: Color,
    pub cell_revealed: Color,
    pub cell_hover: Color,
    pub flag_color: Color,
    pub mine_color: Color,
    pub accent_win: Color,
    pub accent_lose: Color,
}

impl ThemeColors {
    pub open spec fn dark_palette() -> ThemeColors {
        ThemeColors {
            background: Color::rgb(18, 18, 24),
            surface: Color::rgb(30, 30, 40),
            surface_elevated: Color::rgb(45, 45, 60),
            primary: Color::rgb(72, 142, 242),
            primary_hover: Color::rgb(92, 162, 252),
            secondary: Color::rgb(60, 60, 80),
            text: Color::rgb(240, 240, 250),
            text_secondary: Color::rgb(160, 160, 180),
            cell_hidden: Color::rgb(55, 55, 70),
            cell_revealed: Color::rgb(40, 40, 55),
            cell_hover: Color::rgb(70, 70, 90),
            flag_color: Color::rgb(242, 72, 72),
            mine_color: Color::rgb(50, 50, 60),
            accent_win: Color::rgb(72, 200, 100),
            accent_lose: Color::rgb(242, 72, 72),
        }
    }

    pub open spec fn light_palette() -> ThemeColors {
        ThemeColors {
            background: Color::rgb(235, 235, 245),
            surface: Color::rgb(250, 250, 255),
            surface_elevated: Color::rgb(255, 255, 255),
            primary: Color::rgb(48, 122, 232),
            primary_hover: Color::rgb(68, 142, 252),
            secondary: Color::rgb(200, 200, 210),
            text: Color::rgb(30, 30, 40),
            text_secondary: Color::rgb(100, 100, 120),
            cell_hidden: Color::rgb(210, 210, 220),
            cell_revealed: Color::rgb(225, 225, 235),
            cell_hover: Color::rgb(190, 190, 205),
            flag_color: Color::rgb(232, 72, 72),
            mine_color: Color::rgb(80, 80, 90),
            accent_win: Color::rgb(48, 180, 80),
            accent_lose: Color::rgb(232, 72, 72),
        }
    }

    /// The colour of the number `n` on a revealed cell; white for numbers without one.
    pub open spec fn number_rgb(n: u8) -> Color {
        match n {
        1 => Color::rgb(72, 142, 242),
        2 => Color::rgb(72, 180, 100),
        3 => Color::rgb(242, 72, 72),
        4 => Color::rgb(142, 72, 242),
        5 => Color::rgb(242, 142, 72),
        6 => Color::rgb(72, 200, 200),
        7 => Color::rgb(30, 30, 40),
        8 => Color::rgb(128, 128, 140),
            _ => Color::rgb(255, 255, 255),
        }
    }

    pub fn dark() -> (t: Self)
        ensures
            t == ThemeColors::dark_palette(),
    {
        Self {
            background: Color::from_rgb(18, 18, 24),
            surface: Color::from_rgb(30, 30, 40),
            surface_elevated: Color::from_rgb(45, 45, 60),
            primary: Color::from_rgb(72, 142, 242),
            primary_hover: Color::from_rgb(92, 162, 252),
            secondary: Color::from_rgb(60, 60, 80),
            text: Color::from_rgb(240, 240, 250),
            text_secondary: Color::from_rgb(160, 160, 180),
            cell_hidden: Color::from_rgb(55, 55, 70),
            cell_revealed: Color::from_rgb(40, 40, 55),
            cell_hover: Color::from_rgb(70, 70, 90),
            flag_color: Color::from_rgb(242, 72, 72),
            mine_color: Color::from_rgb(50, 50, 60),
            accent_win: Color::from_rgb(72, 200, 100),
            accent_lose: Color::from_rgb(242, 72, 72),
        }
    }

    pub fn light() -> (t: Self)
        ensures
            t == ThemeColors::light_palette(),
    {
        Self {
            background: Color::from_rgb(235, 235, 245),
            surface: Color::from_rgb(250, 250, 255),
            surface_elevated: Color::from_rgb(255, 255, 255),
            primary: Color::from_rgb(48, 122, 232),
            primary_hover: Color::from_rgb(68, 142, 252),
            secondary: Color::from_rgb(200, 200, 210),
            text: Color::from_rgb(30, 30, 40),
            text_secondary: Color::from_rgb(100, 100, 120),
            cell_hidden: Color::from_rgb(210, 210, 220),
            cell_revealed: Color::from_rgb(225, 225, 235),
            cell_hover: Color::from_rgb(190, 190, 205),
            flag_color: Color::from_rgb(232, 72, 72),
            mine_color: Color::from_rgb(80, 80, 90),
            accent_win: Color::from_rgb(48, 180, 80),
            accent_lose: Color::from_rgb(232, 72, 72),
        }
    }

    /// The dark palette or the light one.
    pub fn palette(is_dark: bool) -> (t: Self)
        ensures
            t == if is_dark {
                ThemeColors::dark_palette()
            } else {
                ThemeColors::light_palette()
            },
    {
        if is_dark {
            Self::dark()
        } else {
            Self::light()
        }
    }

    pub fn number_color(n: u8) -> (c: Color)
        ensures
            c == ThemeColors::number_rgb(n),
    {
        match n {
            1 => Color::from_rgb(72, 142, 242),
            2 => Color::from_rgb(72, 180, 100),
            3 => Color::from_rgb(242, 72, 72),
            4 => Color::from_rgb(142, 72, 242),
            5 => Color::from_rgb(242, 142, 72),
            6 => Color::from_rgb(72, 200, 200),
            7 => Color::from_rgb(30, 30, 40),
            8 => Color::from_rgb(128, 128, 140),
            _ => Color::white(),
        }
    }
}

impl Default for ThemeColors {
    fn default() -> (t: Self)
        ensures
            t == ThemeColors::dark_palette(),
    {
        Self::dark()
    }
}

} // verus!
