use minimacs::buffer::Buffer;
use minimacs::display::{
    advance_visual_col, buffer_col_for_visual_col, line_is_printable_ascii, char_width, line_chars_without_ending, line_visual_width,
    stream_visible_visual_rows, tab_width_at, terminal_safe_char, terminal_safe_text,
    visible_visual_rows, visual_col_for_buffer_col, visual_width_for_chars, VisualRow,
    buffer_col_for_visual_position, visual_row_col_in_line, VisualLineLayout,
    INDENT_WIDTH,
};

fn row_text(row: &VisualRow) -> String {
    row.cells.iter().map(|c| c.text.as_str()).collect()
}

#[test]
fn control_chars_become_visible() {
    assert_eq!(terminal_safe_char('\u{1}'), '\u{2401}');
    assert_eq!(terminal_safe_char('\u{0}'), '\u{2400}');
    assert_eq!(terminal_safe_char('\u{1b}'), '\u{241b}');
    assert_eq!(terminal_safe_char('\u{7f}'), '\u{2421}');
    assert_eq!(terminal_safe_char('\u{85}'), '\u{fffd}');
    assert_eq!(terminal_safe_char('\t'), '\t');
    assert_eq!(terminal_safe_char('\n'), '\n');
    assert_eq!(terminal_safe_char('a'), 'a');
    assert_eq!(terminal_safe_text("a\u{7}b\u{9f}"), "a\u{2407}b\u{fffd}");
}

#[test]
fn char_widths() {
    assert_eq!(char_width('a'), 1);
    assert_eq!(char_width('中'), 2);
    assert_eq!(char_width('\u{301}'), 0);
    assert_eq!(char_width('\t'), 0);
    assert_eq!(char_width('\u{1}'), 1);
}

#[test]
fn tab_stops() {
    assert_eq!(INDENT_WIDTH, 4);
    assert_eq!(tab_width_at(0), 4);
    assert_eq!(tab_width_at(1), 3);
    assert_eq!(tab_width_at(3), 1);
    assert_eq!(tab_width_at(4), 4);
    assert_eq!(advance_visual_col(1, '\t'), 4);
    assert_eq!(advance_visual_col(1, '中'), 3);
    assert_eq!(advance_visual_col(5, '\u{301}'), 5);
}

#[test]
fn visual_widths_and_columns() {
    let line: Vec<char> = "a\tb中".chars().collect();
    assert_eq!(visual_width_for_chars(&line), 7);
    assert_eq!(visual_col_for_buffer_col(&line, 0), 0);
    assert_eq!(visual_col_for_buffer_col(&line, 1), 1);
    assert_eq!(visual_col_for_buffer_col(&line, 2), 4);
    assert_eq!(visual_col_for_buffer_col(&line, 3), 5);
    assert_eq!(visual_col_for_buffer_col(&line, 99), 7);
}

#[test]
fn buffer_lines_and_widths() {
    let buf = Buffer::from_str(0, "t", "ab\n\tx\n");
    assert_eq!(line_chars_without_ending(&buf, 0), vec!['a', 'b']);
    assert_eq!(line_chars_without_ending(&buf, 2), Vec::<char>::new());
    assert_eq!(line_visual_width(&buf, 1), 5);
}

#[test]
fn long_line_wraps_with_continuation_column() {
    let line: Vec<char> = "abcdef".chars().collect();
    let rows = stream_visible_visual_rows(&line, 0, 0, 4, 0, 10);
    assert_eq!(rows.rows.len(), 2);
    assert!(rows.exhausted);
    assert_eq!(row_text(&rows.rows[0]), "abc");
    assert!(rows.rows[0].continues);
    assert_eq!(row_text(&rows.rows[1]), "def");
    assert!(!rows.rows[1].continues);
    assert_eq!(rows.rows[1].cells[0].buffer_char_pos, 3);
}

#[test]
fn line_that_fills_the_width_is_one_row() {
    let line: Vec<char> = "abcd".chars().collect();
    let rows = stream_visible_visual_rows(&line, 10, 20, 4, 0, 10);
    assert_eq!(rows.rows.len(), 1);
    assert_eq!(row_text(&rows.rows[0]), "abcd");
    assert!(!rows.rows[0].continues);
    assert_eq!(rows.rows[0].cells[3].buffer_char_pos, 13);
    assert_eq!(rows.rows[0].cells[3].buffer_byte_start, 23);
}

#[test]
fn skip_and_max_select_rows() {
    let line: Vec<char> = "abcdefghijk".chars().collect();
    // Width 4: rows "abc", "def", "ghi", "jk".
    let rows = stream_visible_visual_rows(&line, 0, 0, 4, 1, 2);
    assert_eq!(rows.rows.len(), 2);
    assert_eq!(row_text(&rows.rows[0]), "def");
    assert_eq!(row_text(&rows.rows[1]), "ghi");
    assert!(!rows.exhausted);
    let rows = stream_visible_visual_rows(&line, 0, 0, 4, 3, 5);
    assert_eq!(rows.rows.len(), 1);
    assert_eq!(row_text(&rows.rows[0]), "jk");
    assert!(rows.exhausted);
    let rows = stream_visible_visual_rows(&line, 0, 0, 4, 9, 5);
    assert!(rows.rows.is_empty());
    assert!(rows.exhausted);
    let rows = stream_visible_visual_rows(&line, 0, 0, 4, 0, 0);
    assert!(rows.rows.is_empty());
    assert!(!rows.exhausted);
}

#[test]
fn final_row_may_use_every_column() {
    let line: Vec<char> = "abcdefghij".chars().collect();
    let rows = stream_visible_visual_rows(&line, 0, 0, 4, 0, 9);
    assert_eq!(rows.rows.len(), 3);
    assert_eq!(row_text(&rows.rows[2]), "ghij");
    assert!(rows.exhausted);
}

#[test]
fn tabs_expand_and_wide_glyphs_take_two_cells() {
    let line: Vec<char> = "\t中".chars().collect();
    let rows = stream_visible_visual_rows(&line, 0, 0, 10, 0, 5);
    let row = &rows.rows[0];
    assert_eq!(row.cells.len(), 6);
    for cell in &row.cells[..4] {
        assert_eq!(cell.text, " ");
        assert_eq!(cell.buffer_char_pos, 0);
    }
    assert_eq!(row.cells[4].text, "中");
    assert_eq!(row.cells[5].text, "");
    assert_eq!(row.cells[5].buffer_byte_start, 1);
    assert_eq!(row.cells[5].buffer_byte_end, 4);
}

#[test]
fn wide_glyph_moves_whole_to_the_next_row() {
    let line: Vec<char> = "ab中c".chars().collect();
    // Width 3: content width 2 holds "ab"; the glyph never splits.
    let rows = stream_visible_visual_rows(&line, 0, 0, 3, 0, 5);
    assert_eq!(row_text(&rows.rows[0]), "ab");
    assert_eq!(row_text(&rows.rows[1]), "中c");
}

#[test]
fn combining_mark_joins_previous_glyph() {
    let line: Vec<char> = "e\u{301}x".chars().collect();
    let rows = stream_visible_visual_rows(&line, 0, 0, 10, 0, 5);
    let row = &rows.rows[0];
    assert_eq!(row.cells.len(), 2);
    assert_eq!(row.cells[0].text, "e\u{301}");
    assert_eq!(row.cells[0].buffer_byte_end, 3);
    assert_eq!(row.cells[1].buffer_char_pos, 2);
}

#[test]
fn controls_show_as_pictures_in_cells() {
    let line: Vec<char> = "a\u{1}".chars().collect();
    let rows = stream_visible_visual_rows(&line, 0, 0, 10, 0, 5);
    assert_eq!(row_text(&rows.rows[0]), "a\u{2401}");
}

#[test]
fn zero_width_is_one_empty_row() {
    let line: Vec<char> = "abc".chars().collect();
    let rows = stream_visible_visual_rows(&line, 0, 0, 0, 0, 5);
    assert_eq!(rows.rows.len(), 1);
    assert!(rows.rows[0].cells.is_empty());
    assert!(rows.exhausted);
}

#[test]
fn empty_line_is_one_row() {
    let rows = stream_visible_visual_rows(&[], 0, 0, 8, 0, 5);
    assert_eq!(rows.rows.len(), 1);
    assert!(rows.rows[0].cells.is_empty());
    assert!(!rows.rows[0].continues);
}

#[test]
fn width_two_with_a_leading_wide_glyph_emits_empty_rows() {
    // The wide glyph cannot move to a later row of width two, so each row
    // comes out empty; asking for three rows gives three.
    let line: Vec<char> = "中a".chars().collect();
    let rows = stream_visible_visual_rows(&line, 0, 0, 2, 0, 3);
    assert_eq!(rows.rows.len(), 3);
    assert!(rows.rows.iter().all(|r| r.cells.is_empty() && r.continues));
    assert!(!rows.exhausted);
}

#[test]
fn buffer_rows_carry_buffer_positions() {
    let buf = Buffer::from_str(0, "t", "héllo\nwörld!");
    let rows = visible_visual_rows(&buf, 1, 4, 0, 5);
    assert_eq!(rows.rows.len(), 2);
    assert_eq!(row_text(&rows.rows[0]), "wör");
    assert_eq!(rows.rows[0].cells[0].buffer_char_pos, 6);
    assert_eq!(rows.rows[0].cells[0].buffer_byte_start, 7);
    assert_eq!(row_text(&rows.rows[1]), "ld!");
}

#[test]
fn visual_columns_land_on_buffer_columns() {
    let line: Vec<char> = "a\tb中".chars().collect();
    let expected = [(0, 0), (1, 1), (2, 2), (3, 2), (4, 2), (5, 3), (6, 4), (7, 4), (100, 4)];
    for (target, col) in expected {
        assert_eq!(buffer_col_for_visual_col(&line, target), col, "target {target}");
    }
    let marks: Vec<char> = "e\u{301}x".chars().collect();
    assert_eq!(buffer_col_for_visual_col(&marks, 0), 0);
    assert_eq!(buffer_col_for_visual_col(&marks, 1), 2);
    assert_eq!(buffer_col_for_visual_col(&marks, 2), 3);
}

#[test]
fn printable_ascii_lines() {
    let buf = Buffer::from_str(0, "t", "plain ascii\ntab\there\né\n");
    assert!(line_is_printable_ascii(&buf, 0));
    assert!(!line_is_printable_ascii(&buf, 1));
    assert!(!line_is_printable_ascii(&buf, 2));
    assert!(line_is_printable_ascii(&buf, 3));
    assert!(line_is_printable_ascii(&buf, 99));
}

fn row_texts(rows: &[VisualRow]) -> Vec<(String, bool)> {
    rows.iter()
        .map(|r| (r.cells.iter().map(|c| c.text.clone()).collect::<String>(), r.continues))
        .collect()
}

#[test]
fn plain_ascii_rows_agree_with_the_streaming_layout() {
    let text = "abcdefghijklmnopqrstuvwxy";
    let buf = Buffer::from_str(0, "t", text);
    let fast = visible_visual_rows(&buf, 0, 10, 0, 10);
    let chars: Vec<char> = text.chars().collect();
    let streamed = stream_visible_visual_rows(&chars, 0, 0, 10, 0, 10);
    assert_eq!(fast.rows.len(), 3);
    assert_eq!(row_texts(&fast.rows), row_texts(&streamed.rows));
    assert_eq!(
        row_texts(&fast.rows),
        vec![
            ("abcdefghi".to_string(), true),
            ("jklmnopqr".to_string(), true),
            ("stuvwxy".to_string(), false),
        ]
    );
    assert!(fast.exhausted && streamed.exhausted);
    for (f, s) in fast.rows.iter().zip(streamed.rows.iter()) {
        for (a, b) in f.cells.iter().zip(s.cells.iter()) {
            assert_eq!(a.buffer_char_pos, b.buffer_char_pos);
            assert_eq!(a.buffer_byte_start, b.buffer_byte_start);
            assert_eq!(a.buffer_byte_end, b.buffer_byte_end);
        }
    }
    let middle = visible_visual_rows(&buf, 0, 10, 1, 1);
    assert_eq!(row_texts(&middle.rows), vec![("jklmnopqr".to_string(), true)]);
    assert!(!middle.exhausted);
    let past = visible_visual_rows(&buf, 0, 10, 3, 2);
    assert!(past.rows.is_empty() && past.exhausted);
}

#[test]
fn plain_rows_on_a_later_line_carry_buffer_positions() {
    let buf = Buffer::from_str(0, "t", "xy\nhello world");
    let rows = visible_visual_rows(&buf, 1, 6, 0, 5);
    assert_eq!(
        row_texts(&rows.rows),
        vec![("hello".to_string(), true), (" world".to_string(), false)]
    );
    assert_eq!(rows.rows[1].cells[0].buffer_char_pos, 8);
    assert_eq!(rows.rows[1].cells[0].buffer_byte_start, 8);
}

#[test]
fn row_col_of_plain_line_wraps_full_rows() {
    let buf = Buffer::from_str(0, "t", "hello world");
    let layout = VisualLineLayout::new(&buf, 0, 6);
    assert!(layout.plain_ascii);
    assert_eq!(layout.row_col(0), (0, 0));
    assert_eq!(layout.row_col(4), (0, 4));
    assert_eq!(layout.row_col(5), (1, 0));
    assert_eq!(layout.row_col(10), (1, 5));
    assert_eq!(layout.row_col(11), (2, 0));
    assert_eq!(layout.row_col(99), (2, 0));
    assert_eq!(visual_row_col_in_line(&buf, 0, 7, 6), (1, 2));
}

#[test]
fn row_col_of_wide_glyphs_follows_the_streamed_rows() {
    let buf = Buffer::from_str(0, "t", "日本");
    let layout = VisualLineLayout::new(&buf, 0, 3);
    assert!(!layout.plain_ascii);
    assert_eq!(layout.row_col(0), (0, 0));
    assert_eq!(layout.row_col(1), (1, 0));
    assert_eq!(layout.row_col(2), (1, 2));
    let accented = Buffer::from_str(0, "t", "aé");
    assert_eq!(visual_row_col_in_line(&accented, 0, 1, 10), (0, 1));
    assert_eq!(visual_row_col_in_line(&accented, 0, 2, 10), (0, 2));
}

#[test]
fn buffer_col_at_maps_clicks_back_to_columns() {
    let buf = Buffer::from_str(0, "t", "hello world");
    let layout = VisualLineLayout::new(&buf, 0, 6);
    assert_eq!(layout.buffer_col_at(1, 2), 7);
    assert_eq!(layout.buffer_col_at(0, 100), 11);
    assert_eq!(layout.buffer_col_at(0, 3), 3);
    let wide = Buffer::from_str(0, "t", "日本");
    assert_eq!(buffer_col_for_visual_position(&wide, 0, 1, 0, 3), 1);
    assert_eq!(buffer_col_for_visual_position(&wide, 0, 1, 1, 3), 2);
    assert_eq!(buffer_col_for_visual_position(&wide, 0, 0, 1, 3), 1);
    assert_eq!(buffer_col_for_visual_position(&wide, 0, 5, 3, 3), 2);
}

#[test]
fn layout_visual_width_counts_tabs_and_plain_chars() {
    let buf = Buffer::from_str(0, "t", "abc\n\tx");
    assert_eq!(VisualLineLayout::new(&buf, 0, 80).visual_width(), 3);
    assert_eq!(VisualLineLayout::new(&buf, 1, 80).visual_width(), 5);
}

#[test]
fn glyph_straddling_the_wrap_point_moves_to_the_next_row() {
    let line: Vec<char> = "a中b".chars().collect();
    let rows = stream_visible_visual_rows(&line, 0, 0, 3, 0, 5);
    assert_eq!(row_text(&rows.rows[0]), "a");
    assert!(rows.rows[0].continues);
    assert_eq!(row_text(&rows.rows[1]), "中b");
    assert_eq!(rows.rows[1].cells[1].text, "");
    assert_eq!(rows.rows[1].cells[1].buffer_char_pos, 1);
    for row in &rows.rows {
        for (j, cell) in row.cells.iter().enumerate() {
            if cell.text.is_empty() {
                assert!(j > 0);
                assert_eq!(row.cells[j - 1].buffer_char_pos, cell.buffer_char_pos);
            }
        }
    }
}
