use minimacs::buffer::Buffer;
use minimacs::editing::{LineMotion, RecenterPosition};
use minimacs::pane::Pane;

fn text_of(buf: &Buffer) -> String {
    buf.slice_string(0, buf.char_count())
}

fn setup(text: &str, point: usize) -> (Buffer, Pane) {
    let buf = Buffer::from_str(0, "t", text);
    let mut pane = Pane::new(10);
    pane.point = point;
    (buf, pane)
}

#[test]
fn typing_inserts_at_point_and_moves_past() {
    let (mut buf, mut pane) = setup("hello", 5);
    pane.insert_char(&mut buf, '!');
    assert_eq!(text_of(&buf), "hello!");
    assert_eq!(pane.point, 6);
    assert!(buf.modified);
}

#[test]
fn insertion_before_the_mark_shifts_it() {
    let (mut buf, mut pane) = setup("abc", 0);
    pane.mark = Some(2);
    pane.insert_char(&mut buf, 'x');
    assert_eq!(pane.mark, Some(3));
    pane.mark = Some(1);
    pane.point = 1;
    pane.insert_char(&mut buf, 'y');
    assert_eq!(pane.mark, Some(1));
}

#[test]
fn newline_keeps_the_line_indentation() {
    let (mut buf, mut pane) = setup("    let x = 1;", 14);
    pane.insert_newline(&mut buf);
    assert_eq!(text_of(&buf), "    let x = 1;\n    ");
    assert_eq!(pane.point, 19);
}

#[test]
fn delete_backward_removes_a_whole_grapheme() {
    let (mut buf, mut pane) = setup("ae\u{301}", 3);
    pane.delete_backward(&mut buf);
    assert_eq!(text_of(&buf), "a");
    assert_eq!(pane.point, 1);
    pane.point = 0;
    pane.delete_backward(&mut buf);
    assert_eq!(text_of(&buf), "a");
}

#[test]
fn delete_forward_and_word_backward() {
    let (mut buf, mut pane) = setup("hello world", 0);
    pane.delete_forward(&mut buf);
    assert_eq!(text_of(&buf), "ello world");
    assert_eq!(pane.point, 0);
    pane.point = 10;
    pane.delete_word_backward(&mut buf);
    assert_eq!(text_of(&buf), "ello ");
    assert_eq!(pane.point, 5);
}

#[test]
fn motions_move_point() {
    let (buf, mut pane) = setup("one two\nthree", 0);
    pane.forward_word(&buf);
    assert_eq!(pane.point, 3);
    pane.end_of_line(&buf);
    assert_eq!(pane.point, 7);
    pane.beginning_of_line(&buf);
    assert_eq!(pane.point, 0);
    pane.forward_char(&buf);
    assert_eq!(pane.point, 1);
    pane.move_vertically(&buf, LineMotion::NextLine);
    assert_eq!(pane.point, 9);
    assert_eq!(pane.preferred_column, Some(1));
    pane.move_vertically(&buf, LineMotion::NextLine);
    assert_eq!(pane.point, 9);
    pane.backward_word(&buf);
    assert_eq!(pane.point, 8);
    pane.backward_char(&buf);
    assert_eq!(pane.point, 7);
    assert_eq!(pane.preferred_column, None);
    pane.buffer_end(&buf);
    assert_eq!(pane.point, 13);
    pane.buffer_beginning();
    assert_eq!(pane.point, 0);
    pane.move_vertically(&buf, LineMotion::PageDown(usize::MAX));
    assert_eq!(pane.point, 8);
}

#[test]
fn kill_line_kills_to_end_then_the_break_and_chains() {
    let (mut buf, mut pane) = setup("abc\ndef", 1);
    let mut clipboard = String::from("old");
    assert!(pane.kill_line(&mut buf, &mut clipboard, false));
    assert_eq!(text_of(&buf), "a\ndef");
    assert_eq!(clipboard, "bc");
    assert!(pane.kill_line(&mut buf, &mut clipboard, true));
    assert_eq!(text_of(&buf), "adef");
    assert_eq!(clipboard, "bc\n");
    pane.point = 4;
    assert!(!pane.kill_line(&mut buf, &mut clipboard, true));
    assert_eq!(clipboard, "bc\n");
}

#[test]
fn undo_restores_the_text_and_redo_remakes_it() {
    let (mut buf, mut pane) = setup("hello", 5);
    pane.insert_char(&mut buf, 'X');
    buf.history.commit();
    assert!(buf.modified);
    assert!(pane.undo(&mut buf));
    assert_eq!(text_of(&buf), "hello");
    assert!(!buf.modified);
    assert_eq!(pane.point, 5);
    assert!(pane.redo(&mut buf));
    assert_eq!(text_of(&buf), "helloX");
    assert_eq!(pane.point, 6);
    assert!(buf.modified);
    assert!(pane.redo(&mut buf) == false);
}

#[test]
fn cut_copy_and_paste_through_the_clipboard() {
    let (mut buf, mut pane) = setup("hello world", 6);
    let mut clipboard = String::new();
    assert!(!pane.copy(&buf, &mut clipboard));
    pane.set_mark();
    pane.buffer_end(&buf);
    assert!(pane.copy(&buf, &mut clipboard));
    assert_eq!(clipboard, "world");
    assert_eq!(pane.mark, None);
    pane.mark = Some(5);
    assert!(pane.cut(&mut buf, &mut clipboard));
    assert_eq!(text_of(&buf), "hello");
    assert_eq!(clipboard, " world");
    assert_eq!(pane.point, 5);
    pane.buffer_beginning();
    pane.paste_text(&mut buf, "a\r\nb", false);
    assert_eq!(text_of(&buf), "a\nbhello");
    assert_eq!(pane.point, 3);
}

#[test]
fn swap_point_and_mark_needs_a_mark() {
    let (_buf, mut pane) = setup("abcdef", 2);
    assert!(!pane.swap_point_and_mark());
    pane.mark = Some(5);
    assert!(pane.swap_point_and_mark());
    assert_eq!(pane.point, 5);
    assert_eq!(pane.mark, Some(2));
}

#[test]
fn indent_and_dedent_the_line_of_point() {
    let (mut buf, mut pane) = setup("x\n  y", 4);
    pane.indent(&mut buf);
    assert_eq!(text_of(&buf), "x\n      y");
    assert_eq!(pane.point, 8);
    pane.dedent(&mut buf);
    assert_eq!(text_of(&buf), "x\n  y");
    assert_eq!(pane.point, 4);
    pane.dedent(&mut buf);
    assert_eq!(text_of(&buf), "x\ny");
    assert_eq!(pane.point, 2);
}

#[test]
fn pane_recenter_cycles_through_the_three_positions() {
    let (buf, mut pane) = setup("0\n1\n2\n3\n4\n5\n6\n7\n8\n9\n10\n11\n12\n13\n14\n15", 0);
    pane.move_vertically(&buf, LineMotion::PageDown(12));
    let pos = pane.recenter(&buf, false, None);
    assert_eq!(pos, RecenterPosition::Center);
    assert_eq!(pane.scroll_top, 7);
    let pos = pane.recenter(&buf, true, Some(pos));
    assert_eq!(pos, RecenterPosition::Top);
    assert_eq!(pane.scroll_top, 12);
    let pos = pane.recenter(&buf, true, Some(pos));
    assert_eq!(pos, RecenterPosition::Bottom);
    assert_eq!(pane.scroll_top, 3);
}

#[test]
fn kill_then_paste_gives_the_text_back() {
    let (mut buf, mut pane) = setup("one\ntwo three\n", 4);
    let mut clipboard = String::new();
    assert!(pane.kill_line(&mut buf, &mut clipboard, false));
    assert_eq!(text_of(&buf), "one\n\n");
    let killed = clipboard.clone();
    pane.paste_text(&mut buf, &killed, false);
    assert_eq!(text_of(&buf), "one\ntwo three\n");
}

#[test]
fn cut_then_paste_gives_the_text_back() {
    let (mut buf, mut pane) = setup("alpha beta gamma", 6);
    pane.mark = Some(11);
    let mut clipboard = String::new();
    assert!(pane.cut(&mut buf, &mut clipboard));
    let cut = clipboard.clone();
    pane.paste_text(&mut buf, &cut, false);
    assert_eq!(text_of(&buf), "alpha beta gamma");
    assert_eq!(pane.point, 11);
}

use minimacs::pane::{PaneTree, SplitDir};

#[test]
fn split_vertical_creates_two_panes() {
    let mut tree = PaneTree::new(3, 20);
    tree.windows[0].pane.point = 4;
    tree.split(SplitDir::Vertical);
    assert_eq!(tree.pane_count(), 2);
    assert_eq!(tree.windows[1].buffer_id, 3);
    assert_eq!(tree.windows[1].pane.point, 4);
    assert_eq!(tree.splits, vec![SplitDir::Vertical]);
    assert_eq!(tree.focus, 0);
}

#[test]
fn split_horizontal_creates_two_panes() {
    let mut tree = PaneTree::new(0, 20);
    tree.split(SplitDir::Horizontal);
    assert_eq!(tree.pane_count(), 2);
}

#[test]
fn cycle_focus_between_panes() {
    let mut tree = PaneTree::new(7, 20);
    tree.split(SplitDir::Vertical);
    let first = tree.focused().buffer_id;
    tree.cycle_focus();
    assert_eq!(tree.focus, 1);
    assert_eq!(tree.focused().buffer_id, first);
    tree.cycle_focus();
    assert_eq!(tree.focus, 0);
}

#[test]
fn delete_pane_works() {
    let mut tree = PaneTree::new(0, 20);
    tree.split(SplitDir::Vertical);
    tree.cycle_focus();
    assert!(tree.delete_focused());
    assert_eq!(tree.pane_count(), 1);
    assert_eq!(tree.focus, 0);
}

#[test]
fn delete_only_pane_shows_message() {
    let mut tree = PaneTree::new(0, 20);
    assert!(!tree.delete_focused());
    assert_eq!(tree.pane_count(), 1);
}

#[test]
fn delete_other_panes() {
    let mut tree = PaneTree::new(0, 20);
    tree.split(SplitDir::Vertical);
    tree.split(SplitDir::Horizontal);
    assert_eq!(tree.pane_count(), 3);
    tree.cycle_focus();
    tree.windows[1].pane.point = 9;
    tree.delete_others();
    assert_eq!(tree.pane_count(), 1);
    assert_eq!(tree.windows[0].pane.point, 9);
}

#[test]
fn windows_on_a_killed_buffer_show_another() {
    let mut tree = PaneTree::new(1, 20);
    tree.windows[0].pane.point = 5;
    tree.split(SplitDir::Vertical);
    tree.windows[1].buffer_id = 2;
    tree.replace_buffer(1, 2);
    assert_eq!(tree.windows[0].buffer_id, 2);
    assert_eq!(tree.windows[0].pane.point, 0);
    assert_eq!(tree.windows[1].pane.point, 5);
}
