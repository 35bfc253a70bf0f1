use minimacs::buffer::{decode_file_contents, Buffer, EditRecord, LineEnding, LoadError, Point};
use minimacs::disk::{present_state, Stamp};

#[test]
fn new_scratch_buffer() {
    let buf = Buffer::new_scratch(0);
    assert_eq!(buf.name, "*scratch*");
    assert_eq!(buf.char_count(), 0);
    assert!(!buf.modified);
}

#[test]
fn from_str_basic() {
    let buf = Buffer::from_str(0, "test", "hello\nworld");
    assert_eq!(buf.char_count(), 11);
    assert_eq!(buf.line_count(), 2);
}

#[test]
fn char_to_line_col_basic() {
    let buf = Buffer::from_str(0, "test", "hello\nworld");
    assert_eq!(buf.char_to_line_col(0), (0, 0));
    assert_eq!(buf.char_to_line_col(5), (0, 5));
    assert_eq!(buf.char_to_line_col(6), (1, 0));
    assert_eq!(buf.char_to_line_col(11), (1, 5));
}

#[test]
fn line_col_to_char_basic() {
    let buf = Buffer::from_str(0, "test", "hello\nworld");
    assert_eq!(buf.line_col_to_char(0, 0), 0);
    assert_eq!(buf.line_col_to_char(1, 0), 6);
    assert_eq!(buf.line_col_to_char(1, 5), 11);
}

#[test]
fn line_col_to_char_clamps_col() {
    let buf = Buffer::from_str(0, "test", "hi\nworld");
    assert_eq!(buf.line_col_to_char(0, 10), 2);
}

#[test]
fn line_len_chars_excludes_newline() {
    let buf = Buffer::from_str(0, "test", "hello\nworld\n");
    assert_eq!(buf.line_len_chars(0), 5);
    assert_eq!(buf.line_len_chars(1), 5);
    assert_eq!(buf.line_len_chars(2), 0);
}

const EX_LINE_BREAKS: [char; 6] = ['\r', '\u{0b}', '\u{0c}', '\u{85}', '\u{2028}', '\u{2029}'];

#[test]
fn only_newline_breaks_lines() {
    for ch in EX_LINE_BREAKS {
        let buf = Buffer::from_str(0, "test", &format!("ab{ch}cd\n"));
        assert_eq!(buf.line_count(), 2, "{ch:?} must not break lines");
        assert_eq!(buf.line_len_chars(0), 5, "{ch:?} counts as content");
    }
}

#[test]
fn line_break_len_chars_counts_only_newline() {
    let buf = Buffer::from_str(0, "test", "ab\ncd");
    assert_eq!(buf.line_break_len_chars(0), 1);
    assert_eq!(buf.line_break_len_chars(1), 0, "final line");
    for ch in EX_LINE_BREAKS {
        let buf = Buffer::from_str(0, "test", &format!("ab{ch}"));
        assert_eq!(buf.line_break_len_chars(0), 0, "{ch:?}");
    }
    let empty = Buffer::from_str(0, "test", "");
    assert_eq!(empty.line_break_len_chars(0), 0);
}

#[test]
fn line_col_to_char_clamps_at_line_text_end() {
    let buf = Buffer::from_str(0, "test", "a\u{0c}b\n");
    assert_eq!(buf.line_col_to_char(0, 10), 3);
}

#[test]
fn snap_to_grapheme_boundary_is_identity_on_boundaries() {
    let buf = Buffer::from_str(0, "test", "ae\u{301}b\ncd");
    for pos in [0, 1, 3, 4, 5, 6, 7] {
        assert_eq!(buf.snap_to_grapheme_boundary(pos), pos, "pos {pos}");
    }
}

#[test]
fn snap_to_grapheme_boundary_snaps_mid_cluster_to_start() {
    let buf = Buffer::from_str(0, "test", "ae\u{301}b");
    assert_eq!(buf.snap_to_grapheme_boundary(2), 1);
    let buf = Buffer::from_str(0, "test", "x\u{1F468}\u{200D}\u{1F469}\u{200D}\u{1F467}z");
    for pos in 2..6 {
        assert_eq!(buf.snap_to_grapheme_boundary(pos), 1, "pos {pos}");
    }
    assert_eq!(buf.snap_to_grapheme_boundary(6), 6);
}

#[test]
fn snap_to_grapheme_boundary_clamps_past_end() {
    let buf = Buffer::from_str(0, "test", "ab");
    assert_eq!(buf.snap_to_grapheme_boundary(10), 2);
}

#[test]
fn grapheme_movement_crosses_rope_chunks() {
    let marks = "\u{301}".repeat(3_000);
    let buf = Buffer::from_str(0, "test", &format!("x{marks}z"));
    let z = 1 + marks.chars().count();

    assert_eq!(buf.next_grapheme_boundary(0), z);
    assert_eq!(buf.prev_grapheme_boundary(z), 0);
    assert_eq!(buf.snap_to_grapheme_boundary(z / 2), 0);
    assert_eq!(buf.next_grapheme_boundary(z), z + 1);
    assert_eq!(buf.prev_grapheme_boundary(z + 1), z);
}

#[test]
fn grapheme_movement_treats_newline_as_one_step() {
    let buf = Buffer::from_str(0, "test", "ab\ncd");
    assert_eq!(buf.next_grapheme_boundary(2), 3);
    assert_eq!(buf.prev_grapheme_boundary(3), 2);
}

#[test]
fn grapheme_movement_clamps_to_buffer_bounds() {
    let buf = Buffer::from_str(0, "test", "abc");
    assert_eq!(buf.prev_grapheme_boundary(0), 0);
    assert_eq!(buf.next_grapheme_boundary(3), 3);
    assert_eq!(buf.next_grapheme_boundary(usize::MAX), 3);
    assert_eq!(buf.prev_grapheme_boundary(usize::MAX), 2);
}

#[test]
fn replace_can_insert_and_remove() {
    let mut buf = Buffer::from_str(0, "test", "hello");
    buf.replace(5, 5, " world");
    assert_eq!(buf.text.to_string(), "hello world");
    assert!(buf.modified);

    buf.replace(5, 11, "");
    assert_eq!(buf.text.to_string(), "hello");
}

#[test]
fn edit_generation_increments_once_per_replace() {
    let mut buf = Buffer::from_str(0, "test", "hello");
    assert_eq!(buf.edit_generation, 0);

    buf.replace(5, 5, " world");
    assert_eq!(buf.edit_generation, 1);

    buf.replace(11, 11, "!");
    assert_eq!(buf.edit_generation, 2);

    buf.replace(11, 12, "");
    assert_eq!(buf.edit_generation, 3);

    buf.replace(5, 5, "");
    assert_eq!(buf.edit_generation, 3);
}

#[test]
fn replace_is_one_atomic_generation() {
    let mut buf = Buffer::from_str(0, "test", "hello world");
    buf.replace(6, 11, "tree-house");

    assert_eq!(buf.text.to_string(), "hello tree-house");
    assert_eq!(buf.edit_generation, 1);
    assert!(buf.modified);
}

#[test]
fn empty_replace_is_a_noop() {
    let mut buf = Buffer::from_str(0, "test", "hello");
    buf.replace(2, 2, "");
    assert_eq!(buf.text.to_string(), "hello");
    assert_eq!(buf.edit_generation, 0);
    assert!(!buf.modified);
}

// Further cases.

#[test]
fn replace_clamps_to_the_text() {
    let mut buf = Buffer::from_str(0, "test", "abc");
    assert!(buf.replace(1, 99, "Z"));
    assert_eq!(buf.text.to_string(), "aZ");
    assert!(!buf.replace(50, 60, ""));
    assert_eq!(buf.text.to_string(), "aZ");
}

#[test]
fn slice_and_byte_offsets() {
    let buf = Buffer::from_str(0, "test", "αβc\nd");
    assert_eq!(buf.slice_string(1, 3), "βc");
    assert_eq!(buf.char_to_byte(0), 0);
    assert_eq!(buf.char_to_byte(2), 4);
    assert_eq!(buf.char_to_byte(5), 7);
}

#[test]
fn char_to_line_col_clamps_past_end() {
    let buf = Buffer::from_str(0, "test", "ab\ncd");
    assert_eq!(buf.char_to_line_col(99), (1, 2));
}

#[test]
fn decode_detects_line_endings_and_rejects_bad_input() {
    match decode_file_contents(b"a\r\nb\r\n") {
        Ok((ending, text)) => {
            assert_eq!(ending, LineEnding::CrLf);
            assert_eq!(text, "a\nb\n");
        }
        Err(e) => panic!("unexpected {e:?}"),
    }
    match decode_file_contents(b"plain\n") {
        Ok((ending, text)) => {
            assert_eq!(ending, LineEnding::Lf);
            assert_eq!(text, "plain\n");
        }
        Err(e) => panic!("unexpected {e:?}"),
    }
    assert!(matches!(decode_file_contents(b"a\0b"), Err(LoadError::Binary)));
    assert!(matches!(decode_file_contents(&[0xff, 0xfe, 0x41]), Err(LoadError::NotUtf8)));
}

#[test]
fn encoded_text_restores_crlf() {
    let mut buf = Buffer::from_str(0, "test", "a\nb");
    buf.line_ending = LineEnding::CrLf;
    assert_eq!(buf.encoded_text(), "a\r\nb");
    buf.line_ending = LineEnding::Lf;
    assert_eq!(buf.encoded_text(), "a\nb");
}

#[test]
fn edits_are_recorded_only_by_the_history() {
    let mut buf = Buffer::from_str(0, "test", "abc");
    buf.history.record_insert(3, "d");
    buf.replace(3, 3, "d");
    buf.history.commit();
    assert!(buf.modified);
    buf.update_modified();
    assert!(buf.modified);
    buf.history.undo();
    buf.update_modified();
    assert!(!buf.modified);
}

#[test]
fn saved_crlf_buffer_loads_back_unchanged() {
    let mut buf = Buffer::from_str(0, "test", "one\ntwo\r\nthree\n");
    buf.line_ending = LineEnding::CrLf;
    let saved = buf.encoded_text();
    assert_eq!(saved, "one\r\ntwo\r\r\nthree\r\n");
    match decode_file_contents(saved.as_bytes()) {
        Ok((ending, text)) => {
            assert_eq!(ending, LineEnding::CrLf);
            assert_eq!(text, "one\ntwo\r\nthree\n");
        }
        Err(e) => panic!("unexpected {e:?}"),
    }
}

#[test]
fn saved_lf_buffer_loads_back_unchanged() {
    let buf = Buffer::from_str(0, "test", "lone\rcarriage\n");
    let saved = buf.encoded_text();
    match decode_file_contents(saved.as_bytes()) {
        Ok((ending, text)) => {
            assert_eq!(ending, LineEnding::Lf);
            assert_eq!(text, "lone\rcarriage\n");
        }
        Err(e) => panic!("unexpected {e:?}"),
    }
}

#[test]
fn loaded_crlf_file_saves_back_byte_for_byte() {
    let bytes: &[u8] = b"x\r\ny\r\n";
    let (ending, text) = match decode_file_contents(bytes) {
        Ok(v) => v,
        Err(e) => panic!("unexpected {e:?}"),
    };
    let mut buf = Buffer::from_str(0, "f", &text);
    buf.line_ending = ending;
    assert_eq!(buf.encoded_text().as_bytes(), bytes);
}

#[test]
fn input_edit_uses_byte_offsets_and_byte_columns_for_unicode() {
    let text = Buffer::from_str(0, "t", "αbc\ndéf");
    let edit = text.input_edit_for_replace(1, 3, "x\nλ");

    assert_eq!(edit.start_byte, 2);
    assert_eq!(edit.old_end_byte, 4);
    assert_eq!(edit.new_end_byte, 6);
    assert_eq!(edit.start_point, Point { row: 0, col: 2 });
    assert_eq!(edit.old_end_point, Point { row: 0, col: 4 });
    assert_eq!(edit.new_end_point, Point { row: 1, col: 2 });
}

#[test]
fn input_edit_points_ignore_ex_line_break_chars() {
    // Line separator, lone CR and form feed are content: only \n starts a
    // row. 'e' (char 8) is row 1, byte-col 2 (LS is 3 bytes, FF is 1).
    let text = Buffer::from_str(0, "t", "a\u{2028}b\rc\nd\u{0c}e");
    let edit = text.input_edit_for_replace(8, 9, "x");

    assert_eq!(edit.start_byte, 10);
    assert_eq!(edit.start_point, Point { row: 1, col: 2 });
    assert_eq!(edit.old_end_point, Point { row: 1, col: 3 });
}

#[test]
fn input_edit_multiline_endpoint_is_after_last_newline() {
    let text = Buffer::from_str(0, "t", "first\nsecond\nthird");
    let edit = text.input_edit_for_replace(6, 12, "one\ntwo\nthree");

    assert_eq!(edit.start_point, Point { row: 1, col: 0 });
    assert_eq!(edit.old_end_point, Point { row: 1, col: 6 });
    assert_eq!(edit.new_end_point, Point { row: 3, col: 5 });
    assert_eq!(edit.new_end_byte - edit.start_byte, 13);
}

#[test]
fn input_edit_of_an_insertion_without_newline_extends_the_column() {
    let text = Buffer::from_str(0, "t", "ab\ncd");
    let edit = text.input_edit_for_replace(4, 4, "é!");
    assert_eq!(edit.start_byte, 4);
    assert_eq!(edit.old_end_byte, 4);
    assert_eq!(edit.new_end_byte, 7);
    assert_eq!(edit.start_point, Point { row: 1, col: 1 });
    assert_eq!(edit.new_end_point, Point { row: 1, col: 4 });
}

#[test]
fn undo_group_restores_the_text_and_redo_remakes_it() {
    let mut buf = Buffer::from_str(0, "t", "ab");
    // Two adjacent inserts share one undo group.
    buf.history.record_insert(1, "X");
    buf.replace(1, 1, "X");
    buf.history.record_insert(2, "Y");
    buf.replace(2, 2, "Y");
    buf.history.commit();
    assert_eq!(buf.slice_string(0, buf.char_count()), "aXYb");

    let group = buf.history.undo().expect("a group to undo");
    assert_eq!(group.edits.len(), 2);
    assert_eq!(buf.revert_group(&group), Some(1));
    assert_eq!(buf.slice_string(0, buf.char_count()), "ab");

    let group = buf.history.redo().expect("a group to redo");
    assert_eq!(buf.reapply_group(&group), Some(3));
    assert_eq!(buf.slice_string(0, buf.char_count()), "aXYb");
}

#[test]
fn undo_of_a_replacement_puts_the_deleted_text_back() {
    let mut buf = Buffer::from_str(0, "t", "hello world");
    buf.history.record_replace(6, "world", "there");
    buf.replace(6, 11, "there");
    buf.history.commit();
    let group = buf.history.undo().expect("a group to undo");
    assert_eq!(buf.revert_group(&group), Some(6));
    assert_eq!(buf.slice_string(0, buf.char_count()), "hello world");
}

#[test]
fn apply_edit_records_the_change_it_makes() {
    let mut buf = Buffer::from_str(0, "t", "one\ntwo\nthree");
    let (deleted, delta) = buf.apply_edit(2, 9, "X\nY", EditRecord::Replace);
    assert_eq!(deleted, "e\ntwo\nt");
    assert_eq!(buf.slice_string(0, buf.char_count()), "onX\nYhree");
    assert_eq!(delta.start, 2);
    assert_eq!(delta.removed, 7);
    assert_eq!(delta.inserted, 3);
    assert_eq!(delta.first_line, 0);
    assert_eq!(delta.removed_lines, 2);
    assert_eq!(delta.inserted_lines, 1);
    assert!(buf.modified);
    buf.history.commit();
    let group = buf.history.undo().expect("the recorded edit");
    assert_eq!(buf.revert_group(&group), Some(2));
    assert_eq!(buf.slice_string(0, buf.char_count()), "one\ntwo\nthree");
}

#[test]
fn apply_edit_clamps_and_can_skip_the_history() {
    let mut buf = Buffer::from_str(0, "t", "abc");
    let (deleted, delta) = buf.apply_edit(5, 1, "Z", EditRecord::NoHistory);
    assert_eq!(deleted, "");
    assert_eq!(delta.start, 3);
    assert_eq!(delta.removed, 0);
    assert_eq!(buf.slice_string(0, buf.char_count()), "abcZ");
    assert!(buf.history.undo().is_none());
}

fn text_of(buf: &Buffer) -> String {
    buf.slice_string(0, buf.char_count())
}

fn load(path: &str, bytes: &[u8]) -> Buffer {
    Buffer::from_file_bytes(0, path, bytes, Some(Stamp { secs: 100, nanos: 0 })).unwrap()
}

#[test]
fn from_file_and_save() {
    let mut buf = load("/tmp/dir/test.txt", b"hello\nworld\n");
    assert_eq!(buf.name, "test.txt");
    assert_eq!(buf.path.as_deref(), Some("/tmp/dir/test.txt"));
    assert_eq!(buf.line_count(), 3);
    assert!(!buf.modified);

    buf.replace(5, 5, " there");
    assert!(buf.modified);
    buf.mark_saved("/tmp/dir/test.txt", None);
    assert!(!buf.modified);
    assert_eq!(buf.encoded_bytes(), b"hello there\nworld\n".to_vec());
}

#[test]
fn successful_save_commits_pending_history_before_marking_clean() {
    let mut buf = load("test.txt", b"old");
    buf.history.record_insert(0, "x");
    buf.replace(0, 0, "x");
    buf.mark_saved("test.txt", None);

    assert!(buf.history.is_clean());
    assert!(buf.history.undo().is_some());
    buf.update_modified();
    assert!(buf.modified);
}

#[test]
fn failed_save_does_not_commit_pending_history() {
    let mut buf = Buffer::new_for_path(0, "/missing/test.txt");
    assert_eq!(buf.name, "test.txt");
    buf.history.record_insert(0, "a");
    buf.replace(0, 0, "a");
    // A save whose write fails records nothing on the buffer.
    buf.history.record_insert(1, "b");
    buf.replace(1, 1, "b");
    let group = buf.history.undo().unwrap();
    assert_eq!(group.edits.len(), 2);
}

#[test]
fn externally_modified_detection() {
    let first = Stamp { secs: 100, nanos: 0 };
    let mut buf = Buffer::from_file_bytes(0, "test.txt", b"hello", Some(first)).unwrap();
    assert!(!buf.externally_modified(Some(&present_state(Some(first), b"hello"))));

    let later = Stamp { secs: 110, nanos: 0 };
    assert!(buf.externally_modified(Some(&present_state(Some(later), b"changed elsewhere"))));

    buf.replace(0, 0, "x");
    let saved = Stamp { secs: 120, nanos: 0 };
    buf.mark_saved("test.txt", Some(saved));
    let written = buf.encoded_bytes();
    assert!(!buf.externally_modified(Some(&present_state(Some(saved), &written))));
}

#[test]
fn externally_modified_detects_same_mtime_size_and_inode_rewrite() {
    let stamp = Stamp { secs: 100, nanos: 7 };
    let buf = Buffer::from_file_bytes(0, "test.txt", b"before", Some(stamp)).unwrap();
    assert!(buf.externally_modified(Some(&present_state(Some(stamp), b"after!"))));
}

#[test]
fn externally_modified_baseline_uses_raw_crlf_bytes_after_save() {
    let mut buf = load("test.txt", b"one\r\ntwo\r\n");
    buf.replace(3, 3, "!");
    let stamp = Stamp { secs: 200, nanos: 0 };
    buf.mark_saved("test.txt", Some(stamp));
    assert_eq!(buf.encoded_bytes(), b"one!\r\ntwo\r\n".to_vec());
    assert!(!buf.externally_modified(Some(&present_state(Some(stamp), b"one!\r\ntwo\r\n"))));
}

#[test]
fn pathless_buffer_is_never_externally_modified() {
    let buf = Buffer::new_scratch(0);
    assert!(!buf.externally_modified(None));
}

#[test]
fn unreadable_file_counts_as_externally_modified() {
    let buf = load("test.txt", b"hello");
    assert!(buf.externally_modified(None));
}

#[test]
fn from_file_non_utf8() {
    let result = Buffer::from_file_bytes(0, "binary.bin", &[0xff, 0xfe, 0x00], None);
    assert!(result.is_err());
    let result = Buffer::from_file_bytes(0, "latin.txt", &[0x68, 0xe9], None);
    assert_eq!(result.err(), Some(LoadError::NotUtf8));
}

#[test]
fn crlf_detection() {
    let buf = Buffer::from_str(0, "test", "hello\r\nworld\r\n");
    assert_eq!(buf.line_ending, LineEnding::Lf);
    let buf = load("crlf.txt", b"hello\r\nworld\r\n");
    assert_eq!(buf.line_ending, LineEnding::CrLf);
}

#[test]
fn crlf_file_loads_lf_only() {
    let buf = load("crlf.txt", b"hello\r\nworld\r\n");
    assert_eq!(buf.line_ending, LineEnding::CrLf);
    assert_eq!(text_of(&buf), "hello\nworld\n");
    assert!(!buf.modified);
}

#[test]
fn crlf_file_round_trips_byte_identical() {
    let mut buf = load("crlf.txt", b"hello\r\nworld\r\n");
    buf.mark_saved("crlf.txt", None);
    assert_eq!(buf.encoded_bytes(), b"hello\r\nworld\r\n".to_vec());
}

#[test]
fn edited_crlf_buffer_saves_crlf() {
    let mut buf = load("crlf.txt", b"hello\r\nworld\r\n");
    buf.replace(5, 5, " there");
    buf.replace(17, 17, "\nmore");
    assert_eq!(buf.encoded_bytes(), b"hello there\r\nworld\r\nmore\r\n".to_vec());
}

#[test]
fn mixed_endings_normalize_on_save() {
    let buf = load("mixed.txt", b"a\r\nb\nc\r\n");
    assert_eq!(buf.line_ending, LineEnding::CrLf);
    assert_eq!(text_of(&buf), "a\nb\nc\n");
    assert_eq!(buf.encoded_bytes(), b"a\r\nb\r\nc\r\n".to_vec());
}

#[test]
fn lone_cr_is_content_and_round_trips() {
    let buf = load("lf.txt", b"a\rb\nc\n");
    assert_eq!(buf.line_ending, LineEnding::Lf);
    assert_eq!(text_of(&buf), "a\rb\nc\n");
    assert_eq!(buf.encoded_bytes(), b"a\rb\nc\n".to_vec());

    let buf = load("crlf.txt", b"a\rb\r\nc\r\n");
    assert_eq!(buf.line_ending, LineEnding::CrLf);
    assert_eq!(text_of(&buf), "a\rb\nc\n");
    assert_eq!(buf.encoded_bytes(), b"a\rb\r\nc\r\n".to_vec());
}

#[test]
fn binary_file_detection() {
    let result = Buffer::from_file_bytes(0, "binary.dat", b"hello\x00world", None);
    assert_eq!(result.err(), Some(LoadError::Binary));
}

#[test]
fn valid_utf8_file_loads() {
    let buf = load("valid.txt", "valid utf-8 text".as_bytes());
    assert_eq!(text_of(&buf), "valid utf-8 text");
}

#[test]
fn buffer_name_is_the_file_name() {
    assert_eq!(Buffer::new_for_path(0, "/a/b/notes.md").name, "notes.md");
    assert_eq!(Buffer::new_for_path(0, "notes.md").name, "notes.md");
    assert_eq!(Buffer::new_for_path(0, "/a/b/").name, "b");
    assert_eq!(Buffer::new_for_path(0, "/").name, "/");
    assert_eq!(Buffer::new_for_path(0, "../..").name, "../..");
}
