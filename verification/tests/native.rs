use minimacs::keymap::KeyCode;
use minimacs::native::{
    color_to_rgb, indexed_color, key_code, key_modifiers, modifier_bits, CellStyle, MmColor,
    TermColor, CELL_BOLD, CELL_ITALIC, CELL_REVERSED, CELL_UNDERLINED, KEY_CHAR, KEY_ENTER,
    KEY_PAGE_DOWN, MOD_ALT, MOD_CONTROL, MOD_SHIFT,
};

#[test]
fn color_and_modifier_conversion_covers_terminal_palette() {
    assert_eq!(color_to_rgb(TermColor::Reset), MmColor::default());
    assert_eq!(color_to_rgb(TermColor::Rgb(1, 2, 3)).blue, 3);
    assert_eq!(color_to_rgb(TermColor::Indexed(16)).red, 0);
    assert_eq!(color_to_rgb(TermColor::Indexed(231)).red, 255);
    assert_eq!(color_to_rgb(TermColor::Indexed(232)).red, 8);
    assert_eq!(color_to_rgb(TermColor::Indexed(255)).red, 238);
    for color in [
        TermColor::Black,
        TermColor::Red,
        TermColor::Green,
        TermColor::Yellow,
        TermColor::Blue,
        TermColor::Magenta,
        TermColor::Cyan,
        TermColor::Gray,
        TermColor::DarkGray,
        TermColor::LightRed,
        TermColor::LightGreen,
        TermColor::LightYellow,
        TermColor::LightBlue,
        TermColor::LightMagenta,
        TermColor::LightCyan,
        TermColor::White,
    ] {
        assert_eq!(color_to_rgb(color).valid, 1);
    }
    let all = CellStyle { bold: true, italic: true, underlined: true, reversed: true };
    assert_eq!(
        modifier_bits(all),
        CELL_BOLD | CELL_ITALIC | CELL_UNDERLINED | CELL_REVERSED
    );
}

#[test]
fn every_native_key_code_maps() {
    for code in KEY_ENTER..=KEY_PAGE_DOWN {
        assert!(key_code(code, 0).is_some(), "code {code}");
    }
    assert_eq!(key_code(KEY_CHAR, 'x' as u32), Some(KeyCode::Char('x')));
    let modifiers = key_modifiers(MOD_CONTROL | MOD_ALT | MOD_SHIFT);
    assert!(modifiers.ctrl);
    assert!(modifiers.alt);
    assert!(modifiers.shift);
}

// Further cases.

#[test]
fn palette_entries() {
    assert_eq!(indexed_color(1), (128, 0, 0));
    assert_eq!(indexed_color(15), (255, 255, 255));
    // Cube entry 16 + 36·1 + 6·2 + 3: levels 95, 135, 175.
    assert_eq!(indexed_color(16 + 36 + 12 + 3), (95, 135, 175));
    assert_eq!(indexed_color(244), (128, 128, 128));
    assert_eq!(color_to_rgb(TermColor::Gray), MmColor { valid: 1, red: 192, green: 192, blue: 192 });
}

#[test]
fn unknown_codes_and_bad_scalars() {
    assert_eq!(key_code(99, 0), None);
    assert_eq!(key_code(KEY_CHAR, 0xd800), None);
    assert_eq!(key_code(KEY_CHAR, 0x110000), None);
    let none = key_modifiers(0);
    assert!(!none.ctrl && !none.alt && !none.shift);
    let plain = CellStyle { bold: false, italic: true, underlined: false, reversed: false };
    assert_eq!(modifier_bits(plain), CELL_ITALIC);
}
