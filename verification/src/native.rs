//! The value conversions of the native (AppKit) frontend's bridge: cell
//! colors as RGB, cell styles as bits, and the bridge's key codes and
//! modifier bits as key presses.
use vstd::prelude::*;

use crate::keymap::KeyCode;
use crate::text::char_from_u32;

verus! {

/// RGB color passed over the C ABI. `valid == 0` asks AppKit to use its
/// default foreground/background color.
#[derive(Clone, Copy, Debug, Default, PartialEq, Eq, Structural)]
pub struct MmColor {
    pub valid: u8,
    pub red: u8,
    pub green: u8,
    pub blue: u8,
}

/// A terminal cell color: the terminal's default, one of the sixteen named
/// ANSI colors, an RGB triple, or an index into the 256-color palette.
#[derive(Clone, Copy, Debug, PartialEq, Eq, Structural)]
pub enum TermColor {
    Reset,
    Black,
    Red,
    Green,
    Yellow,
    Blue,
    Magenta,
    Cyan,
    Gray,
    DarkGray,
    LightRed,
    LightGreen,
    LightYellow,
    LightBlue,
    LightMagenta,
    LightCyan,
    White,
    Rgb(u8, u8, u8),
    Indexed(u8),
}

/// The RGB of ANSI color `i` (0 to 15), as the named colors have it.
pub open spec fn ansi_rgb(i: int) -> (u8, u8, u8) {
    if i == 0 {
        (0, 0, 0)
    } else if i == 1 {
        (128, 0, 0)
    } else if i == 2 {
        (0, 128, 0)
    } else if i == 3 {
        (128, 128, 0)
    } else if i == 4 {
        (0, 0, 128)
    } else if i == 5 {
        (128, 0, 128)
    } else if i == 6 {
        (0, 128, 128)
    } else if i == 7 {
        (192, 192, 192)
    } else if i == 8 {
        (128, 128, 128)
    } else if i == 9 {
        (255, 0, 0)
    } else if i == 10 {
        (0, 255, 0)
    } else if i == 11 {
        (255, 255, 0)
    } else if i == 12 {
        (0, 0, 255)
    } else if i == 13 {
        (255, 0, 255)
    } else if i == 14 {
        (0, 255, 255)
    } else {
        (255, 255, 255)
    }
}

/// One axis of the 6×6×6 color cube: level 0 is dark, level `p` > 0 is
/// 55 + 40·p.
pub open spec fn cube_level(p: int) -> int {
    if p == 0 {
        0
    } else {
        55 + 40 * p
    }
}

/// The RGB of entry `index` of the 256-color palette: the sixteen ANSI
/// colors, then the 6×6×6 cube (16 to 231), then the gray ramp (232 to
/// 255) from 8 in steps of 10.
pub open spec fn palette_rgb(index: u8) -> (int, int, int) {
    if index <= 15 {
        let c = ansi_rgb(index as int);
        (c.0 as int, c.1 as int, c.2 as int)
    } else if index <= 231 {
        let v = index - 16;
        (cube_level(v / 36), cube_level((v % 36) / 6), cube_level(v % 6))
    } else {
        let g = 8 + (index - 232) * 10;
        (g, g, g)
    }
}

fn ansi(i: u8) -> (c: (u8, u8, u8))
    requires
        i <= 15,
    ensures
        c == ansi_rgb(i as int),
{
    if i == 0 {
        (0, 0, 0)
    } else if i == 1 {
        (128, 0, 0)
    } else if i == 2 {
        (0, 128, 0)
    } else if i == 3 {
        (128, 128, 0)
    } else if i == 4 {
        (0, 0, 128)
    } else if i == 5 {
        (128, 0, 128)
    } else if i == 6 {
        (0, 128, 128)
    } else if i == 7 {
        (192, 192, 192)
    } else if i == 8 {
        (128, 128, 128)
    } else if i == 9 {
        (255, 0, 0)
    } else if i == 10 {
        (0, 255, 0)
    } else if i == 11 {
        (255, 255, 0)
    } else if i == 12 {
        (0, 0, 255)
    } else if i == 13 {
        (255, 0, 255)
    } else if i == 14 {
        (0, 255, 255)
    } else {
        (255, 255, 255)
    }
}

fn component(part: u8) -> (c: u8)
    requires
        part <= 5,
    ensures
        c == cube_level(part as int),
{
    if part == 0 {
        0
    } else {
        55 + 40 * part
    }
}

/// The RGB of entry `index` of the 256-color palette.
pub fn indexed_color(index: u8) -> (c: (u8, u8, u8))
    ensures
        (c.0 as int, c.1 as int, c.2 as int) == palette_rgb(index),
{
    if index <= 15 {
        ansi(index)
    } else if index <= 231 {
        let value = index - 16;
        assert(value / 36 <= 5) by (nonlinear_arith)
            requires
                value <= 215,
        ;
        (component(value / 36), component((value % 36) / 6), component(value % 6))
    } else {
        let gray = 8 + (index - 232) * 10;
        (gray, gray, gray)
    }
}

/// The bridge color of `color`: invalid (the default) for `Reset`, else
/// valid with the color's RGB.
pub open spec fn bridge_color(color: TermColor) -> MmColor {
    let rgb: (int, int, int) = match color {
        TermColor::Reset => (0, 0, 0),
        TermColor::Black => (0, 0, 0),
        TermColor::Red => (128, 0, 0),
        TermColor::Green => (0, 128, 0),
        TermColor::Yellow => (128, 128, 0),
        TermColor::Blue => (0, 0, 128),
        TermColor::Magenta => (128, 0, 128),
        TermColor::Cyan => (0, 128, 128),
        TermColor::Gray => (192, 192, 192),
        TermColor::DarkGray => (128, 128, 128),
        TermColor::LightRed => (255, 0, 0),
        TermColor::LightGreen => (0, 255, 0),
        TermColor::LightYellow => (255, 255, 0),
        TermColor::LightBlue => (0, 0, 255),
        TermColor::LightMagenta => (255, 0, 255),
        TermColor::LightCyan => (0, 255, 255),
        TermColor::White => (255, 255, 255),
        TermColor::Rgb(r, g, b) => (r as int, g as int, b as int),
        TermColor::Indexed(i) => palette_rgb(i),
    };
    if color is Reset {
        MmColor { valid: 0, red: 0, green: 0, blue: 0 }
    } else {
        MmColor { valid: 1, red: rgb.0 as u8, green: rgb.1 as u8, blue: rgb.2 as u8 }
    }
}

/// The bridge color of `color` (see `bridge_color`).
pub fn color_to_rgb(color: TermColor) -> (c: MmColor)
    ensures
        c == bridge_color(color),
{
    let rgb: (u8, u8, u8) = match color {
        TermColor::Reset => {
            return MmColor { valid: 0, red: 0, green: 0, blue: 0 };
        },
        TermColor::Black => (0, 0, 0),
        TermColor::Red => (128, 0, 0),
        TermColor::Green => (0, 128, 0),
        TermColor::Yellow => (128, 128, 0),
        TermColor::Blue => (0, 0, 128),
        TermColor::Magenta => (128, 0, 128),
        TermColor::Cyan => (0, 128, 128),
        TermColor::Gray => (192, 192, 192),
        TermColor::DarkGray => (128, 128, 128),
        TermColor::LightRed => (255, 0, 0),
        TermColor::LightGreen => (0, 255, 0),
        TermColor::LightYellow => (255, 255, 0),
        TermColor::LightBlue => (0, 0, 255),
        TermColor::LightMagenta => (255, 0, 255),
        TermColor::LightCyan => (0, 255, 255),
        TermColor::White => (255, 255, 255),
        TermColor::Rgb(red, green, blue) => (red, green, blue),
        TermColor::Indexed(index) => indexed_color(index),
    };
    MmColor { valid: 1, red: rgb.0, green: rgb.1, blue: rgb.2 }
}

/// The bit of a bold cell.
pub const CELL_BOLD: u8 = 1;

/// The bit of an italic cell.
pub const CELL_ITALIC: u8 = 2;

/// The bit of an underlined cell.
pub const CELL_UNDERLINED: u8 = 4;

/// The bit of a reversed cell.
pub const CELL_REVERSED: u8 = 8;

/// The style of a cell.
#[derive(Clone, Copy, Debug, PartialEq, Eq, Structural)]
pub struct CellStyle {
    pub bold: bool,
    pub italic: bool,
    pub underlined: bool,
    pub reversed: bool,
}

/// The bridge's style bits of `style`: one bit per attribute set.
pub fn modifier_bits(style: CellStyle) -> (bits: u8)
    ensures
        bits == (if style.bold {
            CELL_BOLD
        } else {
            0
        }) + (if style.italic {
            CELL_ITALIC
        } else {
            0
        }) + (if style.underlined {
            CELL_UNDERLINED
        } else {
            0
        }) + (if style.reversed {
            CELL_REVERSED
        } else {
            0
        }),
{
    let mut bits: u8 = 0;
    if style.bold {
        bits = bits + CELL_BOLD;
    }
    if style.italic {
        bits = bits + CELL_ITALIC;
    }
    if style.underlined {
        bits = bits + CELL_UNDERLINED;
    }
    if style.reversed {
        bits = bits + CELL_REVERSED;
    }
    bits
}

/// Bridge key code of a char key; its scalar carries the char.
pub const KEY_CHAR: u32 = 0;

pub const KEY_ENTER: u32 = 1;

pub const KEY_TAB: u32 = 2;

pub const KEY_BACKSPACE: u32 = 3;

pub const KEY_DELETE: u32 = 4;

pub const KEY_ESCAPE: u32 = 5;

pub const KEY_LEFT: u32 = 6;

pub const KEY_RIGHT: u32 = 7;

pub const KEY_UP: u32 = 8;

pub const KEY_DOWN: u32 = 9;

pub const KEY_HOME: u32 = 10;

pub const KEY_END: u32 = 11;

pub const KEY_PAGE_UP: u32 = 12;

pub const KEY_PAGE_DOWN: u32 = 13;

/// The key of bridge key code `code` (with `scalar` for a char key):
/// `None` for an unknown code or a scalar that is no char.
pub open spec fn bridge_key(code: u32, scalar: u32) -> Option<KeyCode> {
    if code == KEY_CHAR {
        if scalar < 0xd800 || (0xe000 <= scalar && scalar <= 0x10ffff) {
            Some(KeyCode::Char(scalar as char))
        } else {
            None
        }
    } else if code == KEY_ENTER {
        Some(KeyCode::Enter)
    } else if code == KEY_TAB {
        Some(KeyCode::Tab)
    } else if code == KEY_BACKSPACE {
        Some(KeyCode::Backspace)
    } else if code == KEY_DELETE {
        Some(KeyCode::Delete)
    } else if code == KEY_ESCAPE {
        Some(KeyCode::Esc)
    } else if code == KEY_LEFT {
        Some(KeyCode::Left)
    } else if code == KEY_RIGHT {
        Some(KeyCode::Right)
    } else if code == KEY_UP {
        Some(KeyCode::Up)
    } else if code == KEY_DOWN {
        Some(KeyCode::Down)
    } else if code == KEY_HOME {
        Some(KeyCode::Home)
    } else if code == KEY_END {
        Some(KeyCode::End)
    } else if code == KEY_PAGE_UP {
        Some(KeyCode::PageUp)
    } else if code == KEY_PAGE_DOWN {
        Some(KeyCode::PageDown)
    } else {
        None
    }
}

/// The key of bridge key code `code` (see `bridge_key`).
pub fn key_code(code: u32, scalar: u32) -> (k: Option<KeyCode>)
    ensures
        k == bridge_key(code, scalar),
{
    if code == KEY_CHAR {
        match char_from_u32(scalar) {
            Some(c) => Some(KeyCode::Char(c)),
            None => None,
        }
    } else if code == KEY_ENTER {
        Some(KeyCode::Enter)
    } else if code == KEY_TAB {
        Some(KeyCode::Tab)
    } else if code == KEY_BACKSPACE {
        Some(KeyCode::Backspace)
    } else if code == KEY_DELETE {
        Some(KeyCode::Delete)
    } else if code == KEY_ESCAPE {
        Some(KeyCode::Esc)
    } else if code == KEY_LEFT {
        Some(KeyCode::Left)
    } else if code == KEY_RIGHT {
        Some(KeyCode::Right)
    } else if code == KEY_UP {
        Some(KeyCode::Up)
    } else if code == KEY_DOWN {
        Some(KeyCode::Down)
    } else if code == KEY_HOME {
        Some(KeyCode::Home)
    } else if code == KEY_END {
        Some(KeyCode::End)
    } else if code == KEY_PAGE_UP {
        Some(KeyCode::PageUp)
    } else if code == KEY_PAGE_DOWN {
        Some(KeyCode::PageDown)
    } else {
        None
    }
}

/// Bridge modifier bit of Control.
pub const MOD_CONTROL: u8 = 1;

/// Bridge modifier bit of Alt.
pub const MOD_ALT: u8 = 2;

/// Bridge modifier bit of Shift.
pub const MOD_SHIFT: u8 = 4;

/// The modifiers held, as the bridge's modifier bits give them.
#[derive(Clone, Copy, Debug, PartialEq, Eq, Structural)]
pub struct Modifiers {
    pub ctrl: bool,
    pub alt: bool,
    pub shift: bool,
}

/// The modifiers of bridge modifier bits `bits`.
pub fn key_modifiers(bits: u8) -> (m: Modifiers)
    ensures
        m.ctrl == (bits & MOD_CONTROL != 0),
        m.alt == (bits & MOD_ALT != 0),
        m.shift == (bits & MOD_SHIFT != 0),
{
    Modifiers {
        ctrl: bits & MOD_CONTROL != 0,
        alt: bits & MOD_ALT != 0,
        shift: bits & MOD_SHIFT != 0,
    }
}

} // verus!
