use minimacs::buffer::Buffer;
use minimacs::editing::{
    active_region, backward_word_position, dedent_line, dedent_line_plan, dedent_region_plan,
    forward_word_position, indent_line, indent_line_plan, indent_region_plan, is_word_char,
    kill_line_range, newline_with_indent, next_recenter_position, normalized_paste,
    recenter_scroll_top, vertical_motion, LineMotion, RecenterPosition,
};

fn buf(text: &str) -> Buffer {
    Buffer::from_str(0, "t", text)
}

#[test]
fn word_chars() {
    assert!(is_word_char('a'));
    assert!(is_word_char('Z'));
    assert!(is_word_char('7'));
    assert!(is_word_char('_'));
    assert!(is_word_char('é'));
    assert!(!is_word_char(' '));
    assert!(!is_word_char('-'));
}

#[test]
fn forward_word_skips_gap_then_word() {
    let b = buf("foo bar_baz  qux");
    assert_eq!(forward_word_position(&b, 0), 3);
    assert_eq!(forward_word_position(&b, 3), 11);
    assert_eq!(forward_word_position(&b, 11), 16);
    assert_eq!(forward_word_position(&b, 16), 16);
}

#[test]
fn backward_word_skips_gap_then_word() {
    let b = buf("foo bar_baz  qux");
    assert_eq!(backward_word_position(&b, 16), 13);
    assert_eq!(backward_word_position(&b, 13), 4);
    assert_eq!(backward_word_position(&b, 2), 0);
    assert_eq!(backward_word_position(&b, 0), 0);
}

#[test]
fn word_motion_moves_by_graphemes() {
    let b = buf("e\u{301}x y");
    assert_eq!(forward_word_position(&b, 0), 3);
    // From inside the cluster the start snaps back first.
    assert_eq!(forward_word_position(&b, 1), 3);
    assert_eq!(backward_word_position(&b, 3), 0);
}

#[test]
fn newline_copies_indentation() {
    assert_eq!(newline_with_indent(&buf("  \tfoo"), 6), "\n    ");
    assert_eq!(newline_with_indent(&buf("abc"), 3), "\n");
    assert_eq!(newline_with_indent(&buf("    x\n  y"), 9), "\n  ");
    assert_eq!(newline_with_indent(&buf("  "), 1), "\n  ");
}

#[test]
fn indent_and_dedent_one_line() {
    let p = indent_line_plan(&buf("  ab\ncd"), 3);
    assert_eq!((p.start, p.end, p.text.as_str(), p.point, p.mark), (0, 2, "      ", 7, None));

    let b = buf("      ab");
    let p = dedent_line_plan(&b, 7).unwrap();
    assert_eq!((p.start, p.end, p.text.as_str(), p.point), (0, 6, "  ", 3));
    let p = dedent_line_plan(&b, 2).unwrap();
    assert_eq!(p.point, 0);
    assert!(dedent_line_plan(&buf("ab"), 1).is_none());
}

#[test]
fn indent_region_shifts_lines_point_and_mark() {
    let b = buf("a\nb\nc");
    // A region ending at column 0 of a line leaves that line out.
    let p = indent_region_plan(&b, 0, 2);
    assert_eq!((p.start, p.end, p.text.as_str()), (0, 2, "    a\n"));
    assert_eq!((p.point, p.mark), (4, Some(6)));

    let p = indent_region_plan(&b, 0, 3);
    assert_eq!((p.start, p.end, p.text.as_str()), (0, 4, "    a\n    b\n"));
    assert_eq!((p.point, p.mark), (4, Some(11)));
}

#[test]
fn dedent_region_takes_up_to_one_step_per_line() {
    let b = buf("    a\n  b\nc");
    let p = dedent_region_plan(&b, 0, 11).unwrap();
    assert_eq!((p.start, p.end, p.text.as_str()), (0, 11, "a\nb\nc"));
    assert_eq!((p.point, p.mark), (0, Some(5)));
    assert!(dedent_region_plan(&buf("a\nb"), 0, 3).is_none());
}

#[test]
fn indent_and_dedent_choose_the_region_when_a_mark_is_set() {
    let b = buf("x\ny");
    let with_mark = indent_line(&b, 0, Some(3));
    assert_eq!(with_mark.text, "    x\n    y");
    let without = indent_line(&b, 0, None);
    assert_eq!(without.text, "    ");
    assert!(dedent_line(&b, 0, Some(3)).is_none());
    assert!(dedent_line(&b, 0, None).is_none());
}

#[test]
fn dedent_after_indent_restores_the_region() {
    let b = buf("ab\n cd\n");
    let p = indent_region_plan(&b, 0, 6);
    let mut b2 = buf("ab\n cd\n");
    b2.replace(p.start, p.end, &p.text);
    let q = dedent_region_plan(&b2, p.point, p.mark.unwrap()).unwrap();
    b2.replace(q.start, q.end, &q.text);
    assert_eq!(b2.text.to_string(), "ab\n cd\n");
}

#[test]
fn kill_line_ranges() {
    let b = buf("ab\ncd");
    assert_eq!(kill_line_range(&b, 0), Some((0, 2)));
    assert_eq!(kill_line_range(&b, 2), Some((2, 3)));
    assert_eq!(kill_line_range(&b, 4), Some((4, 5)));
    assert_eq!(kill_line_range(&b, 5), None);
}

#[test]
fn recenter_cycles_center_top_bottom() {
    assert_eq!(next_recenter_position(false, Some(RecenterPosition::Top)), RecenterPosition::Center);
    assert_eq!(next_recenter_position(true, None), RecenterPosition::Center);
    assert_eq!(next_recenter_position(true, Some(RecenterPosition::Center)), RecenterPosition::Top);
    assert_eq!(next_recenter_position(true, Some(RecenterPosition::Top)), RecenterPosition::Bottom);
    assert_eq!(next_recenter_position(true, Some(RecenterPosition::Bottom)), RecenterPosition::Center);
}

#[test]
fn recenter_scroll_positions() {
    assert_eq!(recenter_scroll_top(RecenterPosition::Center, 10, 6), 7);
    assert_eq!(recenter_scroll_top(RecenterPosition::Top, 10, 6), 10);
    assert_eq!(recenter_scroll_top(RecenterPosition::Bottom, 10, 6), 5);
    assert_eq!(recenter_scroll_top(RecenterPosition::Bottom, 2, 6), 0);
    assert_eq!(recenter_scroll_top(RecenterPosition::Center, 1, 6), 0);
    assert_eq!(recenter_scroll_top(RecenterPosition::Bottom, 3, 0), 3);
}

#[test]
fn pasted_text_is_normalized() {
    assert_eq!(normalized_paste("a\r\nb\rc\n", false), "a\nb\nc\n");
    assert_eq!(normalized_paste("a\r\nb\rc\n", true), "a b c ");
    assert_eq!(normalized_paste("\r\r\n", false), "\n\n");
    assert_eq!(normalized_paste("plain", true), "plain");
}

#[test]
fn regions_order_point_and_mark() {
    assert_eq!(active_region(5, Some(2)), Some((2, 5)));
    assert_eq!(active_region(2, Some(5)), Some((2, 5)));
    assert_eq!(active_region(5, None), None);
}

#[test]
fn vertical_motion_keeps_the_goal_column() {
    let buf = Buffer::from_str(0, "t", "abc\nd\nefgh");
    assert_eq!(vertical_motion(&buf, 2, None, LineMotion::NextLine), Some((5, 2)));
    assert_eq!(vertical_motion(&buf, 5, Some(2), LineMotion::NextLine), Some((8, 2)));
    assert_eq!(vertical_motion(&buf, 8, Some(2), LineMotion::NextLine), None);
    assert_eq!(vertical_motion(&buf, 1, None, LineMotion::PreviousLine), None);
    assert_eq!(vertical_motion(&buf, 2, None, LineMotion::PageDown(10)), Some((8, 2)));
    assert_eq!(vertical_motion(&buf, 8, None, LineMotion::PageUp(10)), Some((2, 2)));
    assert_eq!(vertical_motion(&buf, 9, None, LineMotion::PageDown(0)), Some((9, 3)));
}

#[test]
fn vertical_motion_snaps_out_of_grapheme_clusters() {
    let buf = Buffer::from_str(0, "t", "e\u{301}x\nab");
    assert_eq!(vertical_motion(&buf, 5, None, LineMotion::PreviousLine), Some((0, 1)));
}
