//! A text buffer: its text (a rope), its name and path, its line-break
//! encoding on disk, its undo history, and the queries and edits the editor
//! makes on it by char position and by line.
use vstd::prelude::*;

use crate::history::{
    applied, applied_all, fits, fits_all, lemma_revert_applied, reverted, EditGroup, EditView,
    History,
};
use crate::disk::{changed_on_disk, present_state, sha256_digest, DiskState, DiskStateView, Stamp};
use crate::path::{buffer_name_for_path, name_for_path};
use crate::text::{chars_of, copy_str, utf8_len_of};

verus! {

pub type BufferId = usize;

/// The rope that holds a buffer's text.
#[verifier::external_type_specification]
#[verifier::external_body]
pub struct ExRope(ropey::Rope);

/// The chars that a rope holds.
pub uninterp spec fn rope_text(r: ropey::Rope) -> Seq<char>;

/// The number of line breaks (`\n`, the only break this rope recognizes)
/// in `s`.
pub open spec fn count_newlines(s: Seq<char>) -> nat
    decreases s.len(),
{
    if s.len() == 0 {
        0
    } else {
        count_newlines(s.drop_last()) + if s.last() == '\n' {
            1nat
        } else {
            0nat
        }
    }
}

/// The index just after the first `\n` at or after `p`, or the end.
pub open spec fn next_break(s: Seq<char>, p: nat) -> nat
    decreases s.len() - p,
{
    if p >= s.len() {
        s.len()
    } else if s[p as int] == '\n' {
        p + 1
    } else {
        next_break(s, p + 1)
    }
}

/// The char index where line `l` of `s` starts (the end for the line past
/// the last).
pub open spec fn line_start(s: Seq<char>, l: nat) -> nat
    decreases l,
{
    if l == 0 {
        0
    } else {
        next_break(s, line_start(s, (l - 1) as nat))
    }
}

/// The number of lines of `s`: one more than its line breaks.
pub open spec fn line_count_of(s: Seq<char>) -> nat {
    count_newlines(s) + 1
}

/// The length of line `l` of `s` with its line break.
pub open spec fn line_span(s: Seq<char>, l: nat) -> nat {
    (line_start(s, l + 1) - line_start(s, l)) as nat
}

/// The length of the line break that ends line `l` of `s`: 1 when the line
/// ends in `\n`, 0 on the final line.
pub open spec fn line_break_len(s: Seq<char>, l: nat) -> nat {
    if line_span(s, l) > 0 && s[line_start(s, l + 1) - 1] == '\n' {
        1
    } else {
        0
    }
}

/// The length of line `l` of `s` without its line break.
pub open spec fn line_len(s: Seq<char>, l: nat) -> nat {
    (line_span(s, l) - line_break_len(s, l)) as nat
}

proof fn lemma_next_break_bounds(s: Seq<char>, p: nat)
    requires
        p <= s.len(),
    ensures
        p <= next_break(s, p) <= s.len(),
    decreases s.len() - p,
{
    if p < s.len() && s[p as int] != '\n' {
        lemma_next_break_bounds(s, p + 1);
    }
}

/// What `next_break` finds from `p`: just after the first `\n` at or
/// after `p`, with none before it; or, when there is none, the end.
pub proof fn lemma_next_break_scan(s: Seq<char>, p: nat)
    requires
        p <= s.len(),
    ensures
        p <= next_break(s, p) <= s.len(),
        next_break(s, p) > p && s[next_break(s, p) - 1] == '\n' ==> forall|i: int|
            p <= i < next_break(s, p) - 1 ==> s[i] != '\n',
        !(next_break(s, p) > p && s[next_break(s, p) - 1] == '\n') ==> next_break(s, p) == s.len()
            && forall|i: int| p <= i < s.len() ==> s[i] != '\n',
    decreases s.len() - p,
{
    if p < s.len() && s[p as int] != '\n' {
        lemma_next_break_scan(s, p + 1);
    }
}

/// Line starts grow with the line number and stay within the text.
pub proof fn lemma_line_start_bounds(s: Seq<char>, l: nat)
    ensures
        line_start(s, l) <= line_start(s, l + 1) <= s.len(),
    decreases l,
{
    if l > 0 {
        lemma_line_start_bounds(s, (l - 1) as nat);
    }
    lemma_next_break_bounds(s, line_start(s, l));
}

proof fn lemma_next_break_at(s: Seq<char>, p: nat, i: nat)
    requires
        p <= i < s.len(),
        s[i as int] == '\n',
        forall|q: int| p <= q < i ==> s[q] != '\n',
    ensures
        next_break(s, p) == i + 1,
    decreases i - p,
{
    if p < i {
        lemma_next_break_at(s, p + 1, i);
    }
}

/// The line of the char at `i` starts at or before `i`, and no line break
/// lies between that start and `i`.
pub proof fn lemma_line_of_char(s: Seq<char>, i: nat)
    requires
        i <= s.len(),
    ensures
        line_start(s, count_newlines(s.take(i as int))) <= i,
        forall|q: int|
            line_start(s, count_newlines(s.take(i as int))) <= q < i ==> s[q] != '\n',
    decreases i,
{
    if i == 0 {
        assert(s.take(0) =~= Seq::<char>::empty());
    } else {
        let j = (i - 1) as nat;
        lemma_line_of_char(s, j);
        assert(s.take(i as int).drop_last() =~= s.take(j as int));
        let l = count_newlines(s.take(j as int));
        if s[j as int] == '\n' {
            lemma_next_break_at(s, line_start(s, l), j);
        }
    }
}

/// A new empty rope (`Rope::new`).
#[verifier::external_body]
fn rope_new() -> (r: ropey::Rope)
    ensures
        rope_text(r) == Seq::<char>::empty(),
{
    ropey::Rope::new()
}

/// A rope holding the chars of `s` (`Rope::from_str`).
#[verifier::external_body]
fn rope_from_str(s: &str) -> (r: ropey::Rope)
    ensures
        rope_text(r) == s@,
{
    ropey::Rope::from_str(s)
}

/// The number of chars (`Rope::len_chars`).
#[verifier::external_body]
fn rope_len_chars(r: &ropey::Rope) -> (n: usize)
    ensures
        n == rope_text(*r).len(),
{
    r.len_chars()
}

/// The number of lines: one more than the `\n` chars, the only line break
/// the rope recognizes without its `unicode_lines` and `cr_lines` features
/// (`Rope::len_lines`).
#[verifier::external_body]
fn rope_len_lines(r: &ropey::Rope) -> (n: usize)
    ensures
        n == line_count_of(rope_text(*r)),
{
    r.len_lines()
}

/// The line of the char at `i`: the `\n` chars before it
/// (`Rope::char_to_line`, which panics past the end).
#[verifier::external_body]
fn rope_char_to_line(r: &ropey::Rope, i: usize) -> (l: usize)
    requires
        i <= rope_text(*r).len(),
    ensures
        l == count_newlines(rope_text(*r).take(i as int)),
{
    r.char_to_line(i)
}

/// The char index where line `l` starts: just after the `l`-th `\n`, or
/// the end for the line past the last (`Rope::line_to_char`, which panics
/// past that).
#[verifier::external_body]
fn rope_line_to_char(r: &ropey::Rope, l: usize) -> (i: usize)
    requires
        l <= line_count_of(rope_text(*r)),
    ensures
        i == line_start(rope_text(*r), l as nat),
{
    r.line_to_char(l)
}

/// `Rope::char_to_byte` of ropey: the byte index where char `i` starts,
/// that is, the UTF-8 length of the chars before it (`i` may be the end).
#[verifier::external_body]
fn rope_char_to_byte(r: &ropey::Rope, i: usize) -> (n: usize)
    requires
        i <= rope_text(*r).len(),
    ensures
        n == utf8_len_of(rope_text(*r).take(i as int)),
{
    r.char_to_byte(i)
}

/// The char at `i` (`Rope::char`, which panics past the end).
#[verifier::external_body]
fn rope_char(r: &ropey::Rope, i: usize) -> (c: char)
    requires
        i < rope_text(*r).len(),
    ensures
        c == rope_text(*r)[i as int],
{
    r.char(i)
}

/// Inserts the chars of `s` at `i` (`Rope::insert`, which panics past the
/// end).
#[verifier::external_body]
fn rope_insert(r: &mut ropey::Rope, i: usize, s: &str)
    requires
        i <= rope_text(*old(r)).len(),
    ensures
        rope_text(*final(r)) == rope_text(*old(r)).take(i as int) + s@ + rope_text(*old(r)).skip(
            i as int,
        ),
{
    r.insert(i, s)
}

/// Removes the chars from `start` to `end` (`Rope::remove`, which panics on
/// a reversed or out-of-bounds range).
#[verifier::external_body]
fn rope_remove(r: &mut ropey::Rope, start: usize, end: usize)
    requires
        start <= end <= rope_text(*old(r)).len(),
    ensures
        rope_text(*final(r)) == rope_text(*old(r)).take(start as int) + rope_text(*old(r)).skip(
            end as int,
        ),
{
    r.remove(start..end)
}

/// The chars from `start` to `end` as a string (`Rope::slice`, then
/// `to_string`).
#[verifier::external_body]
fn rope_slice_string(r: &ropey::Rope, start: usize, end: usize) -> (s: String)
    requires
        start <= end <= rope_text(*r).len(),
    ensures
        s@ == rope_text(*r).subrange(start as int, end as int),
{
    r.slice(start..end).to_string()
}

/// The index of the extended grapheme cluster boundary just before `i` in
/// `text`, as `unicode_segmentation`'s `GraphemeCursor::prev_boundary`
/// finds it.
pub uninterp spec fn grapheme_boundary_before(text: Seq<char>, i: nat) -> nat;

/// The index of the extended grapheme cluster boundary just after `i`, as
/// `GraphemeCursor::next_boundary` finds it.
pub uninterp spec fn grapheme_boundary_after(text: Seq<char>, i: nat) -> nat;

/// Whether `i` is an extended grapheme cluster boundary of `text`, as
/// `GraphemeCursor::is_boundary` decides it.
pub uninterp spec fn is_grapheme_boundary(text: Seq<char>, i: nat) -> bool;

/// Whether the extended grapheme rules fix a boundary at `i` of `s` for a
/// line break: right after a `\n`, and right before one unless a `\r`
/// precedes it (a `\r\n` pair stays one cluster).
pub open spec fn newline_boundary(s: Seq<char>, i: nat) -> bool {
    ||| (0 < i <= s.len() && s[i - 1] == '\n')
    ||| (i < s.len() && s[i as int] == '\n' && (i == 0 || s[i - 1] != '\r'))
}

/// The previous extended grapheme boundary before char `i` (0 < i ≤ len):
/// `GraphemeCursor::prev_boundary` over the whole text, which returns a
/// boundary strictly before `i` (one that `is_boundary` accepts): `i - 1`
/// itself when a line break fixes a boundary there. The byte offsets of the
/// cursor are converted from and to char indices.
#[verifier::external_body]
fn rope_prev_grapheme_boundary(r: &ropey::Rope, i: usize) -> (b: usize)
    requires
        0 < i <= rope_text(*r).len(),
    ensures
        b == grapheme_boundary_before(rope_text(*r), i as nat),
        b < i,
        is_grapheme_boundary(rope_text(*r), b as nat),
        newline_boundary(rope_text(*r), (i - 1) as nat) ==> b == i - 1,
{
    let s = r.to_string();
    let byte = r.char_to_byte(i);
    let mut cursor = unicode_segmentation::GraphemeCursor::new(byte, s.len(), true);
    match cursor.prev_boundary(&s, 0) {
        Ok(Some(found)) => r.byte_to_char(found),
        _ => 0,
    }
}

/// The next extended grapheme boundary after char `i` (i < len):
/// `GraphemeCursor::next_boundary` over the whole text, which returns a
/// boundary (one that `is_boundary` accepts) strictly after `i` and at most
/// the end: `i + 1` itself when a line break fixes a boundary there.
#[verifier::external_body]
fn rope_next_grapheme_boundary(r: &ropey::Rope, i: usize) -> (b: usize)
    requires
        i < rope_text(*r).len(),
    ensures
        b == grapheme_boundary_after(rope_text(*r), i as nat),
        i < b <= rope_text(*r).len(),
        is_grapheme_boundary(rope_text(*r), b as nat),
        newline_boundary(rope_text(*r), (i + 1) as nat) ==> b == i + 1,
{
    let s = r.to_string();
    let byte = r.char_to_byte(i);
    let mut cursor = unicode_segmentation::GraphemeCursor::new(byte, s.len(), true);
    match cursor.next_boundary(&s, 0) {
        Ok(Some(found)) => r.byte_to_char(found),
        _ => r.len_chars(),
    }
}

/// Whether char `i` (i ≤ len) is an extended grapheme boundary:
/// `GraphemeCursor::is_boundary` over the whole text. The start and the end
/// of the text are boundaries, and so are the places a line break fixes.
#[verifier::external_body]
fn rope_is_grapheme_boundary(r: &ropey::Rope, i: usize) -> (b: bool)
    requires
        i <= rope_text(*r).len(),
    ensures
        b == is_grapheme_boundary(rope_text(*r), i as nat),
        newline_boundary(rope_text(*r), i as nat) ==> b,
        i == 0 || i == rope_text(*r).len() ==> b,
{
    let s = r.to_string();
    let byte = r.char_to_byte(i);
    let mut cursor = unicode_segmentation::GraphemeCursor::new(byte, s.len(), true);
    cursor.is_boundary(&s, 0).unwrap_or(true)
}

/// The file's on-disk line-break encoding, detected at load and applied
/// at save. In-memory text is always LF-only regardless of this value.
#[derive(Debug, Clone, Copy, PartialEq, Eq, Structural)]
pub enum LineEnding {
    Lf,
    CrLf,
}

pub struct Buffer {
    pub id: BufferId,
    pub text: ropey::Rope,
    pub path: Option<String>,
    pub name: String,
    pub modified: bool,
    pub line_ending: LineEnding,
    pub history: History,
    pub edit_generation: usize,
    /// What the buffer's file held when the buffer last loaded or saved it.
    pub disk_state: DiskState,
    /// Whether editing commands leave the buffer alone (help text).
    pub read_only: bool,
}

impl Buffer {
    /// The buffer's chars.
    pub open spec fn chars(&self) -> Seq<char> {
        rope_text(self.text)
    }

    /// The buffer's invariant: its history's own.
    pub open spec fn wf(&self) -> bool {
        self.history.wf()
    }

    /// A fresh, empty, unmodified buffer named `*scratch*`.
    pub fn new_scratch(id: BufferId) -> (b: Self)
        ensures
            b.wf(),
            b.id == id,
            b.chars().len() == 0,
            b.path is None,
            b.name@ == "*scratch*"@,
            !b.modified,
            b.line_ending == LineEnding::Lf,
            b.history@.is_clean(),
            b.history@.undo.len() == 0 && b.history@.redo.len() == 0,
            b.edit_generation == 0,
            b.disk_state@ == DiskStateView::Missing,
    {
        Self {
            id,
            text: rope_new(),
            path: None,
            name: copy_str("*scratch*"),
            modified: false,
            line_ending: LineEnding::Lf,
            history: History::new(),
            edit_generation: 0,
            disk_state: DiskState::Missing,
            read_only: false,
        }
    }

    /// An empty, unmodified buffer for a file that does not exist yet,
    /// named after the path's file name.
    pub fn new_for_path(id: BufferId, path: &str) -> (b: Self)
        ensures
            b.wf(),
            b.id == id,
            b.chars().len() == 0,
            b.path matches Some(p) && p@ == path@,
            b.name@ == name_for_path(path@),
            !b.modified,
            b.line_ending == LineEnding::Lf,
            b.history@.is_clean(),
            b.history@.undo.len() == 0 && b.history@.redo.len() == 0,
            b.edit_generation == 0,
            b.disk_state@ == DiskStateView::Missing,
    {
        Self {
            id,
            text: rope_new(),
            path: Some(copy_str(path)),
            name: buffer_name_for_path(path),
            modified: false,
            line_ending: LineEnding::Lf,
            history: History::new(),
            edit_generation: 0,
            disk_state: DiskState::Missing,
            read_only: false,
        }
    }

    /// An unmodified, pathless buffer holding `content`.
    pub fn from_str(id: BufferId, name: &str, content: &str) -> (b: Self)
        ensures
            b.wf(),
            b.id == id,
            b.chars() == content@,
            b.path is None,
            b.name@ == name@,
            !b.modified,
            b.line_ending == LineEnding::Lf,
            b.history@.is_clean(),
            b.history@.undo.len() == 0 && b.history@.redo.len() == 0,
            b.edit_generation == 0,
            b.disk_state@ == DiskStateView::Missing,
    {
        Self {
            id,
            text: rope_from_str(content),
            path: None,
            name: copy_str(name),
            modified: false,
            line_ending: LineEnding::Lf,
            history: History::new(),
            edit_generation: 0,
            disk_state: DiskState::Missing,
            read_only: false,
        }
    }

    /// An unmodified, pathless, read-only buffer holding `content` (help
    /// text).
    pub fn new_read_only(id: BufferId, name: &str, content: &str) -> (b: Self)
        ensures
            b.wf(),
            b.id == id,
            b.chars() == content@,
            b.path is None,
            b.name@ == name@,
            !b.modified,
            b.read_only,
            b.history@.is_clean(),
            b.edit_generation == 0,
    {
        let mut b = Self::from_str(id, name, content);
        b.read_only = true;
        b
    }

    /// The buffer for the file at `path` whose contents are `bytes` and
    /// whose modification time is `modified`: the contents decoded (see
    /// [`decoded_contents`]), unmodified, named after the path's file name,
    /// and remembering the file's state; or why the contents cannot be
    /// edited.
    pub fn from_file_bytes(id: BufferId, path: &str, bytes: &[u8], modified: Option<Stamp>) -> (res:
        Result<Self, LoadError>)
        ensures
            match (res, decoded_contents(bytes@)) {
                (Ok(b), Ok((ending, text))) => {
                    &&& b.wf()
                    &&& b.id == id
                    &&& b.chars() == text
                    &&& b.line_ending == ending
                    &&& b.path matches Some(p) && p@ == path@
                    &&& b.name@ == name_for_path(path@)
                    &&& !b.modified
                    &&& b.history@.is_clean()
                    &&& b.history@.undo.len() == 0 && b.history@.redo.len() == 0
                    &&& b.edit_generation == 0
                    &&& b.disk_state@ == (DiskStateView::Present {
                        modified,
                        fingerprint: sha256_digest(bytes@),
                    })
                },
                (Err(e), Err(e2)) => e == e2,
                _ => false,
            },
    {
        match decode_file_contents(bytes) {
            Err(e) => Err(e),
            Ok((line_ending, content)) => Ok(
                Self {
                    id,
                    text: rope_from_str(content.as_str()),
                    path: Some(copy_str(path)),
                    name: buffer_name_for_path(path),
                    modified: false,
                    line_ending,
                    history: History::new(),
                    edit_generation: 0,
                    disk_state: present_state(modified, bytes),
                    read_only: false,
                },
            ),
        }
    }

    /// Total number of lines in the buffer.
    pub fn line_count(&self) -> (n: usize)
        ensures
            n == line_count_of(self.chars()),
    {
        rope_len_lines(&self.text)
    }

    /// Total number of chars in the buffer.
    pub fn char_count(&self) -> (n: usize)
        ensures
            n == self.chars().len(),
    {
        rope_len_chars(&self.text)
    }

    /// Convert a char offset to (line, col) where both are 0-based; offsets
    /// past the end count as the end.
    pub fn char_to_line_col(&self, char_idx: usize) -> (res: (usize, usize))
        ensures
            ({
                let i = if char_idx <= self.chars().len() {
                    char_idx as nat
                } else {
                    self.chars().len()
                };
                let l = count_newlines(self.chars().take(i as int));
                res == (l as usize, (i - line_start(self.chars(), l)) as usize)
            }),
    {
        let len = rope_len_chars(&self.text);
        let char_idx = if char_idx <= len {
            char_idx
        } else {
            len
        };
        let line = rope_char_to_line(&self.text, char_idx);
        proof {
            lemma_line_of_char(self.chars(), char_idx as nat);
            lemma_count_newlines_bound(self.chars(), char_idx as nat);
        }
        let line_start = rope_line_to_char(&self.text, line);
        (line, char_idx - line_start)
    }

    /// Convert (line, col) to char offset, clamping the line to the last
    /// one and col to that line's length.
    pub fn line_col_to_char(&self, line: usize, col: usize) -> (res: usize)
        ensures
            ({
                let l = if (line as nat) < line_count_of(self.chars()) {
                    line as nat
                } else {
                    count_newlines(self.chars())
                };
                res == line_start(self.chars(), l) + if (col as nat) < line_len(self.chars(), l) {
                    col as nat
                } else {
                    line_len(self.chars(), l)
                }
            }),
    {
        let _len = rope_len_chars(&self.text);
        let count = rope_len_lines(&self.text);
        let line = if line < count - 1 {
            line
        } else {
            count - 1
        };
        let line_start = rope_line_to_char(&self.text, line);
        let line_len = self.line_len_chars(line);
        proof {
            lemma_line_start_bounds(self.chars(), line as nat);
            assert(line_len <= line_span(self.chars(), line as nat));
            assert(line_start + line_span(self.chars(), line as nat) <= self.chars().len());
        }
        line_start + if col < line_len {
            col
        } else {
            line_len
        }
    }

    /// The length of the line break that ends line `line_idx` (1 for a
    /// trailing `\n`, 0 on the final line).
    pub fn line_break_len_chars(&self, line_idx: usize) -> (n: usize)
        requires
            (line_idx as nat) < line_count_of(self.chars()),
        ensures
            n == line_break_len(self.chars(), line_idx as nat),
    {
        let _lines = rope_len_lines(&self.text);
        let start = rope_line_to_char(&self.text, line_idx);
        let end = rope_line_to_char(&self.text, line_idx + 1);
        proof {
            lemma_line_start_bounds(self.chars(), line_idx as nat);
        }
        if end > start && rope_char(&self.text, end - 1) == '\n' {
            1
        } else {
            0
        }
    }

    /// Length of line in chars, excluding its terminating line break.
    pub fn line_len_chars(&self, line_idx: usize) -> (n: usize)
        requires
            (line_idx as nat) < line_count_of(self.chars()),
        ensures
            n == line_len(self.chars(), line_idx as nat),
    {
        let _lines = rope_len_lines(&self.text);
        let start = rope_line_to_char(&self.text, line_idx);
        let end = rope_line_to_char(&self.text, line_idx + 1);
        proof {
            lemma_line_start_bounds(self.chars(), line_idx as nat);
        }
        end - start - self.line_break_len_chars(line_idx)
    }

    /// Snap a char position to the nearest grapheme-cluster boundary at or
    /// before it (emacs behavior). Identity for positions already on a
    /// boundary; positions past the end count as the end.
    pub fn snap_to_grapheme_boundary(&self, pos: usize) -> (res: usize)
        ensures
            ({
                let p = if pos <= self.chars().len() {
                    pos as nat
                } else {
                    self.chars().len()
                };
                res == if is_grapheme_boundary(self.chars(), p) {
                    p
                } else {
                    grapheme_boundary_before(self.chars(), p)
                }
            }),
            res <= self.chars().len(),
            res <= pos,
            is_grapheme_boundary(self.chars(), res as nat),
    {
        let len = rope_len_chars(&self.text);
        let pos = if pos <= len {
            pos
        } else {
            len
        };
        if rope_is_grapheme_boundary(&self.text, pos) {
            pos
        } else {
            rope_prev_grapheme_boundary(&self.text, pos)
        }
    }

    /// The grapheme boundary before `pos` (0 at the start); positions past
    /// the end count as the end.
    pub fn prev_grapheme_boundary(&self, pos: usize) -> (res: usize)
        ensures
            ({
                let p = if pos <= self.chars().len() {
                    pos as nat
                } else {
                    self.chars().len()
                };
                res == if p == 0 {
                    0
                } else {
                    grapheme_boundary_before(self.chars(), p)
                }
            }),
            pos > 0 ==> res < pos,
            pos > 0 && self.chars().len() > 0 ==> is_grapheme_boundary(self.chars(), res as nat),
            0 < pos <= self.chars().len() && newline_boundary(self.chars(), (pos - 1) as nat) ==> res
                == pos - 1,
    {
        let len = rope_len_chars(&self.text);
        let pos = if pos <= len {
            pos
        } else {
            len
        };
        if pos == 0 {
            0
        } else {
            rope_prev_grapheme_boundary(&self.text, pos)
        }
    }

    /// The grapheme boundary after `pos` (the end at the end); positions
    /// past the end count as the end.
    pub fn next_grapheme_boundary(&self, pos: usize) -> (res: usize)
        ensures
            ({
                let p = if pos <= self.chars().len() {
                    pos as nat
                } else {
                    self.chars().len()
                };
                res == if p == self.chars().len() {
                    p
                } else {
                    grapheme_boundary_after(self.chars(), p)
                }
            }),
            pos < self.chars().len() ==> pos < res <= self.chars().len() && is_grapheme_boundary(
                self.chars(),
                res as nat,
            ),
            res <= self.chars().len(),
            pos < self.chars().len() && newline_boundary(self.chars(), (pos + 1) as nat) ==> res == pos
                + 1,
    {
        let len = rope_len_chars(&self.text);
        let pos = if pos <= len {
            pos
        } else {
            len
        };
        if pos == len {
            pos
        } else {
            rope_next_grapheme_boundary(&self.text, pos)
        }
    }

    /// The byte offset, in the UTF-8 form of the text, where char `char_idx`
    /// starts.
    pub fn char_to_byte(&self, char_idx: usize) -> (n: usize)
        requires
            char_idx <= self.chars().len(),
        ensures
            n == utf8_len_of(self.chars().take(char_idx as int)),
    {
        rope_char_to_byte(&self.text, char_idx)
    }

    /// The chars from `start` to `end` as a string.
    pub fn slice_string(&self, start: usize, end: usize) -> (s: String)
        requires
            start <= end <= self.chars().len(),
        ensures
            s@ == self.chars().subrange(start as int, end as int),
    {
        rope_slice_string(&self.text, start, end)
    }

    /// Atomically replace chars in `[start, end)` (clamped to the text)
    /// with `replacement`. Returns whether anything changed: an empty range
    /// with an empty replacement is no edit. An edit marks the buffer
    /// modified and advances `edit_generation` exactly once.
    pub fn replace(&mut self, start: usize, end: usize, replacement: &str) -> (changed: bool)
        requires
            old(self).edit_generation < usize::MAX,
        ensures
            ({
                let len = old(self).chars().len();
                let s = if (start as nat) <= len {
                    start as nat
                } else {
                    len
                };
                let e0 = if (end as nat) <= len {
                    end as nat
                } else {
                    len
                };
                let e = if e0 >= s {
                    e0
                } else {
                    s
                };
                &&& changed == !(s == e && replacement@.len() == 0)
                &&& changed ==> final(self).chars() == old(self).chars().take(s as int)
                    + replacement@ + old(self).chars().skip(e as int)
                &&& changed ==> final(self).modified
                &&& changed ==> final(self).edit_generation == old(self).edit_generation + 1
                &&& !changed ==> final(self).chars() == old(self).chars() && final(self).modified
                    == old(self).modified && final(self).edit_generation == old(
                    self,
                ).edit_generation
            }),
            final(self).id == old(self).id,
            final(self).path == old(self).path,
            final(self).name == old(self).name,
            final(self).line_ending == old(self).line_ending,
            final(self).disk_state == old(self).disk_state,
            final(self).history == old(self).history,
    {
        let len = rope_len_chars(&self.text);
        let start = if start <= len {
            start
        } else {
            len
        };
        let end = if end <= len {
            end
        } else {
            len
        };
        let end = if end >= start {
            end
        } else {
            start
        };
        let empty = replacement.is_empty();
        if start == end && empty {
            return false;
        }
        let ghost before = self.chars();
        if start < end {
            rope_remove(&mut self.text, start, end);
        }
        let ghost mid = self.chars();
        if !empty {
            rope_insert(&mut self.text, start, replacement);
        }
        proof {
            if start < end {
                assert(mid.take(start as int) =~= before.take(start as int));
                assert(mid.skip(start as int) =~= before.skip(end as int));
            } else {
                assert(before.take(start as int) + before.skip(end as int) =~= before);
            }
            if empty {
                assert(self.chars() =~= before.take(start as int) + replacement@ + before.skip(
                    end as int,
                ));
            } else {
                assert(self.chars() =~= before.take(start as int) + replacement@ + before.skip(
                    end as int,
                ));
            }
        }
        self.modified = true;
        self.edit_generation = self.edit_generation + 1;
        true
    }

    /// Update the modified flag based on undo history clean state.
    pub fn update_modified(&mut self)
        requires
            old(self).wf(),
        ensures
            final(self).wf(),
            final(self).modified == !old(self).history@.is_clean(),
            final(self).text == old(self).text,
            final(self).history == old(self).history,
            final(self).id == old(self).id,
            final(self).path == old(self).path,
            final(self).name == old(self).name,
            final(self).line_ending == old(self).line_ending,
            final(self).edit_generation == old(self).edit_generation,
            final(self).disk_state == old(self).disk_state,
    {
        self.modified = !self.history.is_clean();
    }
}

/// Whether `s` holds a `\r\n` pair.
pub open spec fn has_crlf(s: Seq<char>) -> bool {
    exists|i: int| 0 <= i < s.len() - 1 && #[trigger] s[i] == '\r' && s[i + 1] == '\n'
}

/// `s` with each `\r\n` pair, taken left to right, turned into `\n`.
pub open spec fn crlf_to_lf(s: Seq<char>) -> Seq<char>
    decreases s.len(),
{
    if s.len() == 0 {
        s
    } else if s.len() >= 2 && s[0] == '\r' && s[1] == '\n' {
        seq!['\n'] + crlf_to_lf(s.skip(2))
    } else {
        seq![s[0]] + crlf_to_lf(s.skip(1))
    }
}

/// `s` with each `\n` written as `\r\n`.
pub open spec fn lf_to_crlf(s: Seq<char>) -> Seq<char>
    decreases s.len(),
{
    if s.len() == 0 {
        s
    } else if s[0] == '\n' {
        seq!['\r', '\n'] + lf_to_crlf(s.skip(1))
    } else {
        seq![s[0]] + lf_to_crlf(s.skip(1))
    }
}

/// Why file contents cannot be loaded into a buffer.
#[derive(Debug, Clone, Copy, PartialEq, Eq, Structural)]
pub enum LoadError {
    /// The contents hold a NUL byte.
    Binary,
    /// The contents are not valid UTF-8.
    NotUtf8,
}

/// The chars that UTF-8 `bytes` encode (`std::str::from_utf8`), or `None`
/// when they are not valid UTF-8.
#[verifier::external_body]
fn utf8_decode(bytes: &[u8]) -> (res: Option<String>)
    ensures
        res is Some <==> vstd::utf8::valid_utf8(bytes@),
        res matches Some(s) ==> s@ == vstd::utf8::decode_utf8(bytes@),
{
    match std::str::from_utf8(bytes) {
        Ok(s) => Some(s.to_string()),
        Err(_) => None,
    }
}

/// The in-memory text and on-disk line ending of file contents: contents
/// holding a NUL byte are binary, invalid UTF-8 is refused, and contents
/// holding a `\r\n` pair are CRLF files whose pairs become `\n` (a lone
/// `\r` stays content).
pub open spec fn decoded_contents(bytes: Seq<u8>) -> Result<(LineEnding, Seq<char>), LoadError> {
    if bytes.contains(0u8) {
        Err(LoadError::Binary)
    } else if !vstd::utf8::valid_utf8(bytes) {
        Err(LoadError::NotUtf8)
    } else if has_crlf(vstd::utf8::decode_utf8(bytes)) {
        Ok((LineEnding::CrLf, crlf_to_lf(vstd::utf8::decode_utf8(bytes))))
    } else {
        Ok((LineEnding::Lf, vstd::utf8::decode_utf8(bytes)))
    }
}

/// Decode the contents of a file for a buffer (see [`decoded_contents`]).
pub fn decode_file_contents(bytes: &[u8]) -> (res: Result<(LineEnding, String), LoadError>)
    ensures
        match (res, decoded_contents(bytes@)) {
            (Ok((le, s)), Ok((le2, t))) => le == le2 && s@ == t,
            (Err(e), Err(e2)) => e == e2,
            _ => false,
        },
{
    // Detect binary files (contains null bytes)
    let mut i: usize = 0;
    while i < bytes.len()
        invariant
            i <= bytes@.len(),
            forall|j: int| 0 <= j < i ==> bytes@[j] != 0u8,
        decreases bytes@.len() - i,
    {
        if bytes[i] == 0 {
            assert(bytes@.contains(0u8)) by {
                assert(bytes@[i as int] == 0u8);
            }
            return Err(LoadError::Binary);
        }
        i += 1;
    }
    // Check for non-UTF-8
    let content = match utf8_decode(bytes) {
        Some(s) => s,
        None => return Err(LoadError::NotUtf8),
    };
    let cs = chars_of(content.as_str());
    // Detect line ending: the text is invariantly LF-only.
    let mut k: usize = 0;
    let mut found = false;
    while k < cs.len() && k + 1 < cs.len()
        invariant_except_break
            !found,
        invariant
            k <= cs@.len(),
            forall|j: int| 0 <= j < k ==> !(#[trigger] cs@[j] == '\r' && cs@[j + 1] == '\n'),
        ensures
            found ==> has_crlf(cs@),
            !found ==> forall|j: int|
                0 <= j < cs@.len() - 1 ==> !(#[trigger] cs@[j] == '\r' && cs@[j + 1] == '\n'),
        decreases cs@.len() - k,
    {
        if cs[k] == '\r' && cs[k + 1] == '\n' {
            found = true;
            break;
        }
        k += 1;
    }
    if found {
        let lf = crlf_to_lf_exec(&cs);
        Ok((LineEnding::CrLf, crate::text::string_of(lf.as_slice())))
    } else {
        Ok((LineEnding::Lf, content))
    }
}

fn crlf_to_lf_exec(cs: &Vec<char>) -> (r: Vec<char>)
    ensures
        r@ == crlf_to_lf(cs@),
{
    let mut r: Vec<char> = Vec::new();
    let mut i: usize = 0;
    assert(cs@.skip(0) =~= cs@);
    while i < cs.len()
        invariant
            i <= cs@.len(),
            r@ + crlf_to_lf(cs@.skip(i as int)) == crlf_to_lf(cs@),
        decreases cs@.len() - i,
    {
        let ghost rest = cs@.skip(i as int);
        if i + 1 < cs.len() && cs[i] == '\r' && cs[i + 1] == '\n' {
            r.push('\n');
            assert(rest.skip(2) =~= cs@.skip(i + 2));
            assert(r@ + crlf_to_lf(cs@.skip(i + 2)) =~= r@.drop_last() + crlf_to_lf(rest));
            i += 2;
        } else {
            r.push(cs[i]);
            assert(rest.skip(1) =~= cs@.skip(i + 1));
            assert(r@ + crlf_to_lf(cs@.skip(i + 1)) =~= r@.drop_last() + crlf_to_lf(rest));
            i += 1;
        }
    }
    assert(crlf_to_lf(cs@.skip(i as int)) =~= Seq::<char>::empty());
    assert(r@ + Seq::<char>::empty() =~= r@);
    r
}

impl Buffer {
    /// The text as it is written to disk: with `\r\n` for each `\n` in a
    /// CRLF buffer (a content `\r` is untouched, even before `\n`).
    pub fn encoded_text(&self) -> (s: String)
        ensures
            s@ == if self.line_ending == LineEnding::CrLf {
                lf_to_crlf(self.chars())
            } else {
                self.chars()
            },
    {
        let len = rope_len_chars(&self.text);
        let text = rope_slice_string(&self.text, 0, len);
        assert(self.chars().subrange(0, len as int) =~= self.chars());
        match self.line_ending {
            LineEnding::Lf => text,
            LineEnding::CrLf => {
                let cs = chars_of(text.as_str());
                let mut r: Vec<char> = Vec::new();
                let mut i: usize = 0;
                assert(cs@.skip(0) =~= cs@);
                while i < cs.len()
                    invariant
                        i <= cs@.len(),
                        r@ + lf_to_crlf(cs@.skip(i as int)) == lf_to_crlf(cs@),
                    decreases cs@.len() - i,
                {
                    let ghost rest = cs@.skip(i as int);
                    let ghost r0 = r@;
                    if cs[i] == '\n' {
                        r.push('\r');
                        r.push('\n');
                    } else {
                        r.push(cs[i]);
                    }
                    assert(rest.skip(1) =~= cs@.skip(i + 1));
                    assert(r@ + lf_to_crlf(cs@.skip(i + 1)) =~= r0 + lf_to_crlf(rest));
                    i += 1;
                }
                assert(r@ + lf_to_crlf(cs@.skip(i as int)) =~= r@);
                crate::text::string_of(r.as_slice())
            },
        }
    }

    /// The chars a save writes for this buffer (see [`Buffer::encoded_text`]).
    pub open spec fn encoded_chars(&self) -> Seq<char> {
        if self.line_ending == LineEnding::CrLf {
            lf_to_crlf(self.chars())
        } else {
            self.chars()
        }
    }

    /// The bytes a save writes for this buffer: the UTF-8 encoding of its
    /// encoded text.
    pub fn encoded_bytes(&self) -> (b: Vec<u8>)
        ensures
            b@ == vstd::utf8::encode_utf8(self.encoded_chars()),
    {
        let s = self.encoded_text();
        s.as_str().as_bytes_vec()
    }

    /// Records a successful save of this buffer to `path`, the written file
    /// now having modification time `modified`: the buffer takes `path` as
    /// its own, remembers the file as holding its encoded bytes, commits
    /// its pending edits and marks that version clean.
    pub fn mark_saved(&mut self, path: &str, modified: Option<Stamp>)
        requires
            old(self).wf(),
        ensures
            final(self).wf(),
            final(self).path matches Some(p) && p@ == path@,
            final(self).disk_state@ == (DiskStateView::Present {
                modified,
                fingerprint: sha256_digest(vstd::utf8::encode_utf8(old(self).encoded_chars())),
            }),
            final(self).history@ == old(self).history@.committed().marked_clean(),
            !final(self).modified,
            final(self).text == old(self).text,
            final(self).line_ending == old(self).line_ending,
            final(self).name == old(self).name,
            final(self).id == old(self).id,
            final(self).edit_generation == old(self).edit_generation,
    {
        let bytes = self.encoded_bytes();
        self.disk_state = present_state(modified, bytes.as_slice());
        self.path = Some(copy_str(path));
        self.history.commit();
        self.history.mark_clean();
        self.modified = false;
    }

    /// Whether saving now could clobber someone else's changes: the buffer
    /// has a file and what that file holds now (`current`, `None` when it
    /// could not be read) differs from what the buffer last loaded or saved.
    /// A pathless buffer never is.
    pub fn externally_modified(&self, current: Option<&DiskState>) -> (b: bool)
        ensures
            b == (self.path is Some && match current {
                None => true,
                Some(c) => self.disk_state@ != c@,
            }),
    {
        match &self.path {
            None => false,
            Some(_) => changed_on_disk(&self.disk_state, current),
        }
    }
}

/// Counting line breaks before `i` never exceeds the text's line breaks.
pub proof fn lemma_count_newlines_bound(s: Seq<char>, i: nat)
    requires
        i <= s.len(),
    ensures
        count_newlines(s.take(i as int)) <= count_newlines(s),
    decreases s.len() - i,
{
    if i < s.len() {
        lemma_count_newlines_bound(s, i + 1);
        assert(s.take((i + 1) as int).drop_last() =~= s.take(i as int));
    } else {
        assert(s.take(i as int) =~= s);
    }
}

/// Turning `\n` into `\r\n` and back gives the text back.
pub proof fn lemma_crlf_round_trip(t: Seq<char>)
    ensures
        crlf_to_lf(lf_to_crlf(t)) == t,
    decreases t.len(),
{
    if t.len() > 0 {
        lemma_crlf_round_trip(t.skip(1));
        let rest = lf_to_crlf(t.skip(1));
        if t[0] == '\n' {
            let w = seq!['\r', '\n'] + rest;
            assert(w.skip(2) =~= rest);
            assert(crlf_to_lf(w) == seq!['\n'] + crlf_to_lf(rest));
        } else {
            let w = seq![t[0]] + rest;
            assert(w.skip(1) =~= rest);
            if t[0] == '\r' && rest.len() > 0 && rest[0] == '\n' {
                // `rest` starts with a `\n` of `t` written as `\r\n`: impossible.
                lemma_lf_to_crlf_head(t.skip(1));
            }
            assert(crlf_to_lf(w) == seq![t[0]] + crlf_to_lf(rest));
        }
        assert(t =~= seq![t[0]] + t.skip(1));
    }
}

/// A written text starts with `\r` wherever the text starts with `\n`, and
/// otherwise with the text's own first char.
proof fn lemma_lf_to_crlf_head(t: Seq<char>)
    requires
        t.len() > 0,
    ensures
        lf_to_crlf(t)[0] == (if t[0] == '\n' {
            '\r'
        } else {
            t[0]
        }),
        lf_to_crlf(t).len() > 0,
{
}

/// A text with a line break is written with a `\r\n` pair.
proof fn lemma_lf_to_crlf_has_crlf(t: Seq<char>, i: int)
    requires
        0 <= i < t.len(),
        t[i] == '\n',
    ensures
        has_crlf(lf_to_crlf(t)),
    decreases t.len(),
{
    if t[0] == '\n' {
        let w = lf_to_crlf(t);
        assert(w[0] == '\r' && w[1] == '\n');
    } else {
        lemma_lf_to_crlf_has_crlf(t.skip(1), i - 1);
        let rest = lf_to_crlf(t.skip(1));
        let j = choose|j: int| 0 <= j < rest.len() - 1 && #[trigger] rest[j] == '\r' && rest[j + 1] == '\n';
        let w = seq![t[0]] + rest;
        assert(w[j + 1] == '\r' && w[j + 2] == '\n');
    }
}

/// Writing `\r\n` for `\n` brings in no other char.
proof fn lemma_lf_to_crlf_chars(t: Seq<char>, c: char)
    requires
        c != '\r',
        c != '\n',
        !t.contains(c),
    ensures
        !lf_to_crlf(t).contains(c),
    decreases t.len(),
{
    if t.len() > 0 {
        assert(!t.skip(1).contains(c)) by {
            if t.skip(1).contains(c) {
                let k = choose|k: int| 0 <= k < t.skip(1).len() && t.skip(1)[k] == c;
                assert(t[k + 1] == c);
            }
        }
        lemma_lf_to_crlf_chars(t.skip(1), c);
        let rest = lf_to_crlf(t.skip(1));
        if lf_to_crlf(t).contains(c) {
            let k = choose|k: int| 0 <= k < lf_to_crlf(t).len() && lf_to_crlf(t)[k] == c;
            if t[0] == '\n' {
                assert(k >= 2 ==> rest[k - 2] == c);
            } else {
                assert(k == 0 ==> t[0] == c);
                assert(k >= 1 ==> rest[k - 1] == c);
            }
        }
    }
}

/// The UTF-8 bytes of a char other than NUL are never zero.
proof fn lemma_scalar_bytes_nonzero(v: u32)
    requires
        v != 0,
        vstd::utf8::is_scalar(v),
    ensures
        !vstd::utf8::encode_scalar(v).contains(0u8),
{
    let e = vstd::utf8::encode_scalar(v);
    assert(v <= 0x7f ==> (v & 0x7f) as u8 != 0u8) by (bit_vector)
        requires
            v != 0,
    ;
    assert((0xC0u8 | ((v >> 6u32) & 0x1Fu32) as u8) != 0u8) by (bit_vector);
    assert((0xE0u8 | ((v >> 12u32) & 0x0Fu32) as u8) != 0u8) by (bit_vector);
    assert((0xF0u8 | ((v >> 18u32) & 0x7u32) as u8) != 0u8) by (bit_vector);
    assert((0x80u8 | (v & 0x3Fu32) as u8) != 0u8) by (bit_vector);
    assert((0x80u8 | ((v >> 6u32) & 0x3Fu32) as u8) != 0u8) by (bit_vector);
    assert((0x80u8 | ((v >> 12u32) & 0x3Fu32) as u8) != 0u8) by (bit_vector);
    assert forall|k: int| 0 <= k < e.len() implies e[k] != 0u8 by {}
}

/// Text without NUL chars encodes to UTF-8 bytes without zero bytes.
proof fn lemma_encode_without_nul(t: Seq<char>)
    requires
        !t.contains('\0'),
    ensures
        !vstd::utf8::encode_utf8(t).contains(0u8),
    decreases t.len(),
{
    broadcast use vstd::utf8::char_is_scalar;
    if t.len() > 0 {
        assert(!t.drop_first().contains('\0')) by {
            if t.drop_first().contains('\0') {
                let k = choose|k: int| 0 <= k < t.drop_first().len() && t.drop_first()[k] == '\0';
                assert(t[k + 1] == '\0');
            }
        }
        lemma_encode_without_nul(t.drop_first());
        assert(t[0] != '\0');
        vstd::utf8::char_is_scalar(t[0]);
        assert((t[0] as u32) != 0) by {
            if (t[0] as u32) == 0 {
                vstd::utf8::char_u32_cast(t[0], 0);
            }
        }
        lemma_scalar_bytes_nonzero(t[0] as u32);
        let a = vstd::utf8::encode_scalar(t[0] as u32);
        let b = vstd::utf8::encode_utf8(t.drop_first());
        if (a + b).contains(0u8) {
            let k = choose|k: int| 0 <= k < (a + b).len() && (a + b)[k] == 0u8;
            if k < a.len() {
                assert(a[k] == 0u8);
            } else {
                assert(b[k - a.len()] == 0u8);
            }
        }
    }
}

/// Loading what a buffer saves gives back its text and line ending: a CRLF
/// buffer whose text has a line break, or an LF buffer whose text holds no
/// `\r\n` pair, saved as UTF-8, loads as the same text with the same line
/// ending, as long as the text holds no NUL char (contents with a zero
/// byte load as binary).
pub proof fn lemma_save_then_load(text: Seq<char>, ending: LineEnding)
    requires
        !text.contains('\0'),
        ending == LineEnding::CrLf ==> text.contains('\n'),
        ending == LineEnding::Lf ==> !has_crlf(text),
    ensures
        decoded_contents(
            vstd::utf8::encode_utf8(
                if ending == LineEnding::CrLf {
                    lf_to_crlf(text)
                } else {
                    text
                },
            ),
        ) == Ok::<(LineEnding, Seq<char>), LoadError>((ending, text)),
{
    broadcast use vstd::utf8::encode_utf8_valid_utf8, vstd::utf8::encode_utf8_decode_utf8;

    if ending == LineEnding::CrLf {
        let w = lf_to_crlf(text);
        lemma_lf_to_crlf_chars(text, '\0');
        lemma_encode_without_nul(w);
        let i = choose|i: int| 0 <= i < text.len() && text[i] == '\n';
        lemma_lf_to_crlf_has_crlf(text, i);
        lemma_crlf_round_trip(text);
    } else {
        lemma_encode_without_nul(text);
    }
}

/// A file whose line breaks are all `\r\n` loads and saves back unchanged:
/// turning its pairs into `\n` and back gives the same chars.
pub proof fn lemma_load_then_save(s: Seq<char>)
    requires
        forall|i: int| 0 <= i < s.len() && #[trigger] s[i] == '\n' ==> i > 0 && s[i - 1] == '\r',
    ensures
        lf_to_crlf(crlf_to_lf(s)) == s,
    decreases s.len(),
{
    if s.len() > 0 {
        if s.len() >= 2 && s[0] == '\r' && s[1] == '\n' {
            let r = s.skip(2);
            assert forall|i: int| 0 <= i < r.len() && #[trigger] r[i] == '\n' implies i > 0 && r[i - 1] == '\r' by {
                assert(s[i + 2] == '\n');
            }
            lemma_load_then_save(r);
            assert(crlf_to_lf(s) == seq!['\n'] + crlf_to_lf(r));
            let u = seq!['\n'] + crlf_to_lf(r);
            assert(u.skip(1) =~= crlf_to_lf(r));
            assert(lf_to_crlf(u) == seq!['\r', '\n'] + lf_to_crlf(crlf_to_lf(r)));
            assert(s =~= seq!['\r', '\n'] + r);
        } else {
            let r = s.skip(1);
            assert(s[0] != '\n');
            assert forall|i: int| 0 <= i < r.len() && #[trigger] r[i] == '\n' implies i > 0 && r[i - 1] == '\r' by {
                assert(s[i + 1] == '\n');
                if i == 0 {
                    assert(s[0] == '\r');
                }
            }
            lemma_load_then_save(r);
            assert(crlf_to_lf(s) == seq![s[0]] + crlf_to_lf(r));
            let u = seq![s[0]] + crlf_to_lf(r);
            assert(u.skip(1) =~= crlf_to_lf(r));
            assert(lf_to_crlf(u) == seq![s[0]] + lf_to_crlf(crlf_to_lf(r)));
            assert(s =~= seq![s[0]] + r);
        }
    }
}

/// A position in the text as an incremental parser counts it: a row (line)
/// and a column in UTF-8 bytes from the start of that line.
#[derive(Debug, Clone, Copy, PartialEq, Eq, Structural)]
pub struct Point {
    pub row: u32,
    pub col: u32,
}

/// A text change as an incremental parser takes it: the byte offsets and
/// points of where it starts, where the replaced text ended, and where the
/// new text ends.
#[derive(Debug, Clone, Copy, PartialEq, Eq, Structural)]
pub struct InputEdit {
    pub start_byte: u32,
    pub old_end_byte: u32,
    pub new_end_byte: u32,
    pub start_point: Point,
    pub old_end_point: Point,
    pub new_end_point: Point,
}

/// `v`, or `u32::MAX` when it does not fit.
pub open spec fn clamp_u32(v: int) -> u32 {
    if v <= u32::MAX as int {
        v as u32
    } else {
        u32::MAX
    }
}

/// The point of char `i` of `s`: its line, and the UTF-8 bytes from the
/// line's start to it (each clamped to `u32`). Only `\n` starts a line.
pub open spec fn point_at(s: Seq<char>, i: nat) -> Point {
    let row = count_newlines(s.take(i as int));
    Point {
        row: clamp_u32(row as int),
        col: clamp_u32(utf8_len_of(s.take(i as int)) - utf8_len_of(s.take(line_start(s, row) as int))),
    }
}

/// The index just after the last `\n` of `s` (0 without one).
pub open spec fn after_last_break(s: Seq<char>) -> int
    decreases s.len(),
{
    if s.len() == 0 {
        0
    } else if s.last() == '\n' {
        s.len() as int
    } else {
        after_last_break(s.drop_last())
    }
}

/// The parser edit for replacing chars `start .. end` of `s` by `r`: byte
/// offsets in UTF-8, points as `point_at` gives them; the new end is after
/// the bytes of `r` — on the row after its last `\n`, at the bytes that
/// follow it, when `r` has one. Values clamp (and sums saturate) at
/// `u32::MAX`.
pub open spec fn input_edit(s: Seq<char>, start: nat, end: nat, r: Seq<char>) -> InputEdit {
    let sb = utf8_len_of(s.take(start as int));
    let sp = point_at(s, start);
    let nl = count_newlines(r);
    let rb = utf8_len_of(r);
    InputEdit {
        start_byte: clamp_u32(sb),
        old_end_byte: clamp_u32(utf8_len_of(s.take(end as int))),
        new_end_byte: clamp_u32(sb + rb),
        start_point: sp,
        old_end_point: point_at(s, end),
        new_end_point: if nl > 0 {
            Point {
                row: clamp_u32(sp.row + clamp_u32(nl as int)),
                col: clamp_u32(rb - utf8_len_of(r.take(after_last_break(r)))),
            }
        } else {
            Point { row: sp.row, col: clamp_u32(sp.col + clamp_u32(rb)) }
        },
    }
}

fn to_u32(v: usize) -> (r: u32)
    ensures
        r == clamp_u32(v as int),
{
    if v <= u32::MAX as usize {
        v as u32
    } else {
        u32::MAX
    }
}

/// The UTF-8 length of a prefix never exceeds that of a longer prefix.
proof fn lemma_utf8_prefix_monotonic(s: Seq<char>, j: int, i: int)
    requires
        0 <= j <= i <= s.len(),
    ensures
        utf8_len_of(s.take(j)) <= utf8_len_of(s.take(i)),
    decreases i - j,
{
    if j < i {
        lemma_utf8_prefix_monotonic(s, j, i - 1);
        assert(s.take(i).drop_last() =~= s.take(i - 1));
    }
}

impl Buffer {
    /// The point of char `char_idx` (see `point_at`).
    fn point_at_char(&self, char_idx: usize) -> (p: Point)
        requires
            char_idx <= self.chars().len(),
        ensures
            p == point_at(self.chars(), char_idx as nat),
    {
        proof {
            lemma_line_of_char(self.chars(), char_idx as nat);
            lemma_count_newlines_bound(self.chars(), char_idx as nat);
            crate::editing::lemma_count_newlines_le_len(self.chars().take(char_idx as int));
        }
        let (row, col) = self.char_to_line_col(char_idx);
        assert(row as nat == count_newlines(self.chars().take(char_idx as int)));
        let line_start_char = char_idx - col;
        assert(line_start_char as nat == line_start(self.chars(), row as nat));
        let byte = self.char_to_byte(char_idx);
        let line_start_byte = self.char_to_byte(line_start_char);
        proof {
            lemma_utf8_prefix_monotonic(self.chars(), line_start_char as int, char_idx as int);
        }
        Point { row: to_u32(row), col: to_u32(byte - line_start_byte) }
    }

    /// The parser edit for replacing chars `start .. end` by `replacement`
    /// (see `input_edit`).
    pub fn input_edit_for_replace(&self, start: usize, end: usize, replacement: &str) -> (e: InputEdit)
        requires
            start <= self.chars().len(),
            end <= self.chars().len(),
            utf8_len_of(replacement@) <= usize::MAX,
        ensures
            e == input_edit(self.chars(), start as nat, end as nat, replacement@),
    {
        let start_byte = self.char_to_byte(start);
        let old_end_byte = self.char_to_byte(end);
        let start_point = self.point_at_char(start);
        let old_end_point = self.point_at_char(end);
        let r = chars_of(replacement);
        let ghost rv = r@;
        let mut bytes: usize = 0;
        let mut newlines: usize = 0;
        let mut after_break: usize = 0;
        let mut bytes_before_break: usize = 0;
        let mut k: usize = 0;
        while k < r.len()
            invariant
                rv == r@,
                k <= rv.len(),
                bytes == utf8_len_of(rv.take(k as int)),
                utf8_len_of(rv) <= usize::MAX,
                bytes_before_break <= bytes,
                newlines == count_newlines(rv.take(k as int)),
                newlines <= k,
                after_break == after_last_break(rv.take(k as int)),
                after_break <= k,
                bytes_before_break == utf8_len_of(rv.take(after_break as int)),
            decreases rv.len() - k,
        {
            let c = r[k];
            proof {
                assert(rv.take(k + 1).drop_last() =~= rv.take(k as int));
                assert(rv.take(k + 1).last() == c);
                lemma_utf8_prefix_monotonic(rv, k + 1, rv.len() as int);
                assert(rv.take(rv.len() as int) =~= rv);
            }
            bytes = bytes + crate::text::utf8_width(c);
            if c == '\n' {
                newlines = newlines + 1;
                after_break = k + 1;
                bytes_before_break = bytes;
                assert(rv.take(k + 1).take((k + 1) as int) =~= rv.take(k + 1));
            } else {
                assert(rv.take(k + 1).take(after_break as int) =~= rv.take(k as int).take(after_break as int));
                assert(rv.take(after_break as int) =~= rv.take(k as int).take(after_break as int));
            }
            k += 1;
        }
        proof {
            assert(rv.take(rv.len() as int) =~= rv);
        }
        let new_end_point = if newlines > 0 {
            Point {
                row: start_point.row.saturating_add(to_u32(newlines)),
                col: to_u32(bytes - bytes_before_break),
            }
        } else {
            Point { row: start_point.row, col: start_point.col.saturating_add(to_u32(bytes)) }
        };
        InputEdit {
            start_byte: to_u32(start_byte),
            old_end_byte: to_u32(old_end_byte),
            new_end_byte: to_u32(start_byte.saturating_add(bytes)),
            start_point,
            old_end_point,
            new_end_point,
        }
    }
}

/// The edits of a group made in order stay made in order when only the
/// first `k` of them are made.
proof fn lemma_fits_all_prefix(t: Seq<char>, edits: Seq<EditView>, k: int)
    requires
        fits_all(t, edits),
        0 <= k <= edits.len(),
    ensures
        fits_all(t, edits.take(k)),
    decreases edits.len() - k,
{
    if k == edits.len() {
        assert(edits.take(k) =~= edits);
    } else {
        lemma_fits_all_prefix(t, edits, k + 1);
        assert(edits.take(k + 1).drop_last() =~= edits.take(k));
    }
}

impl Buffer {
    /// What undo does to the text: takes back the edits of `group`, the
    /// last one first, each replacing the chars it inserted by the chars it
    /// deleted. Returns where point goes: the position of the group's first
    /// edit, clamped to the text (`None` for an empty group). When the
    /// group's edits were made in order on some text and led to the current
    /// one, that text is restored.
    pub fn revert_group(&mut self, group: &EditGroup) -> (point: Option<usize>)
        requires
            old(self).edit_generation + group@.len() <= usize::MAX,
        ensures
            forall|t: Seq<char>|
                fits_all(t, group@) && old(self).chars() == applied_all(t, group@) ==> final(self).chars()
                    == t,
            group@.len() == 0 ==> point is None,
            group@.len() > 0 ==> point == Some(
                if group@[0].position <= final(self).chars().len() {
                    group@[0].position
                } else {
                    final(self).chars().len() as usize
                },
            ),
            final(self).id == old(self).id,
            final(self).path == old(self).path,
            final(self).name == old(self).name,
            final(self).line_ending == old(self).line_ending,
            final(self).disk_state == old(self).disk_state,
            final(self).history == old(self).history,
    {
        let ghost es = group@;
        let n = group.edits.len();
        let mut i = n;
        assert(es.take(n as int) =~= es);
        while i > 0
            invariant
                es == group@,
                n == es.len(),
                i <= n,
                self.edit_generation <= old(self).edit_generation + (n - i),
                old(self).edit_generation + n <= usize::MAX,
                self.id == old(self).id,
                self.path == old(self).path,
                self.name == old(self).name,
                self.line_ending == old(self).line_ending,
                self.history == old(self).history,
                self.disk_state == old(self).disk_state,
                forall|t: Seq<char>|
                    fits_all(t, es) && old(self).chars() == applied_all(t, es) ==> self.chars()
                        == applied_all(t, es.take(i as int)),
            decreases i,
        {
            let e = &group.edits[i - 1];
            assert(es[i - 1] == group.edits@[i - 1]@);
            let len = self.char_count();
            let n_ins = e.inserted.as_str().unicode_len();
            let end = e.position.saturating_add(n_ins);
            let ghost cur = self.chars();
            self.replace(e.position, end, e.deleted.as_str());
            proof {
                let ev = es[i - 1];
                assert forall|t: Seq<char>|
                    fits_all(t, es) && old(self).chars() == applied_all(t, es) implies self.chars()
                        == applied_all(t, es.take(i - 1)) by {
                    lemma_fits_all_prefix(t, es, i as int);
                    let b = applied_all(t, es.take(i - 1));
                    assert(es.take(i as int).drop_last() =~= es.take(i - 1));
                    assert(es.take(i as int).last() == ev);
                    assert(cur == applied(b, ev));
                    assert(fits(b, ev));
                    lemma_revert_applied(b, ev);
                    assert(cur.take(ev.position as int) + ev.deleted + cur.skip(ev.position + ev.inserted.len())
                        == reverted(cur, ev));
                    if ev.position == end && ev.deleted.len() == 0 {
                        assert(reverted(cur, ev) =~= cur);
                    }
                }
            }
            i -= 1;
        }
        proof {
            assert(es.take(0) =~= Seq::<EditView>::empty());
        }
        if n == 0 {
            return None;
        }
        let first = group.edits[0].position;
        let len = self.char_count();
        assert(es[0] == group.edits@[0]@);
        Some(if first <= len { first } else { len })
    }

    /// What redo does to the text: makes the edits of `group` again, in
    /// order, each replacing the chars it deleted by the chars it inserted.
    /// Returns where point goes: after the text the last edit inserted,
    /// clamped to the text (`None` for an empty group). When the group's
    /// edits were made in order on the current text, the text they led to
    /// is restored.
    pub fn reapply_group(&mut self, group: &EditGroup) -> (point: Option<usize>)
        requires
            old(self).edit_generation + group@.len() <= usize::MAX,
        ensures
            forall|t: Seq<char>|
                fits_all(t, group@) && old(self).chars() == t ==> final(self).chars() == applied_all(
                    t,
                    group@,
                ),
            group@.len() == 0 ==> point is None,
            group@.len() > 0 ==> point == Some(
                ({
                    let last = group@.last();
                    if last.position + last.inserted.len() <= final(self).chars().len() {
                        (last.position + last.inserted.len()) as usize
                    } else {
                        final(self).chars().len() as usize
                    }
                }),
            ),
            final(self).id == old(self).id,
            final(self).path == old(self).path,
            final(self).name == old(self).name,
            final(self).line_ending == old(self).line_ending,
            final(self).disk_state == old(self).disk_state,
            final(self).history == old(self).history,
    {
        let ghost es = group@;
        let n = group.edits.len();
        let mut i: usize = 0;
        assert(es.take(0) =~= Seq::<EditView>::empty());
        while i < n
            invariant
                es == group@,
                n == es.len(),
                i <= n,
                self.edit_generation <= old(self).edit_generation + i,
                old(self).edit_generation + n <= usize::MAX,
                self.id == old(self).id,
                self.path == old(self).path,
                self.name == old(self).name,
                self.line_ending == old(self).line_ending,
                self.history == old(self).history,
                self.disk_state == old(self).disk_state,
                forall|t: Seq<char>|
                    fits_all(t, es) && old(self).chars() == t ==> self.chars() == applied_all(
                        t,
                        es.take(i as int),
                    ),
            decreases n - i,
        {
            let e = &group.edits[i];
            assert(es[i as int] == group.edits@[i as int]@);
            let len = self.char_count();
            let n_del = e.deleted.as_str().unicode_len();
            let end = e.position.saturating_add(n_del);
            let ghost cur = self.chars();
            self.replace(e.position, end, e.inserted.as_str());
            proof {
                let ev = es[i as int];
                assert forall|t: Seq<char>| fits_all(t, es) && old(self).chars() == t implies self.chars()
                    == applied_all(t, es.take(i + 1)) by {
                    lemma_fits_all_prefix(t, es, i + 1);
                    assert(es.take(i + 1).drop_last() =~= es.take(i as int));
                    assert(es.take(i + 1).last() == ev);
                    assert(cur == applied_all(t, es.take(i as int)));
                    assert(fits(cur, ev));
                    if ev.position == end && ev.inserted.len() == 0 {
                        assert(applied(cur, ev) =~= cur);
                    }
                }
            }
            i += 1;
        }
        proof {
            assert(es.take(n as int) =~= es);
        }
        if n == 0 {
            return None;
        }
        let last = &group.edits[n - 1];
        assert(es.last() == group.edits@[n - 1]@);
        let len = self.char_count();
        let after = last.position.saturating_add(last.inserted.as_str().unicode_len());
        Some(if after <= len { after } else { len })
    }
}

/// How an edit made through `Buffer::apply_edit` enters the undo history.
#[derive(Debug, Clone, Copy, PartialEq, Eq, Structural)]
pub enum EditRecord {
    Insert,
    Delete,
    Replace,
    /// Not recorded (undo and redo replaying a group).
    NoHistory,
}

/// The line-level effect of an edit, for the views that follow the text:
/// where it starts, how many chars it removed and inserted, the line it
/// starts on, and how many line breaks it removed and inserted.
#[derive(Debug, Clone, Copy, PartialEq, Eq, Structural)]
pub struct EditDelta {
    pub start: usize,
    pub removed: usize,
    pub inserted: usize,
    pub first_line: usize,
    pub removed_lines: usize,
    pub inserted_lines: usize,
}

impl Buffer {
    /// Replaces chars `start .. end` (clamped to the text) by `text`,
    /// recording the edit in the history as `record` says, and returns the
    /// deleted text and the edit's line-level effect. The recorded edit is
    /// exactly the change made: its deleted chars stood at its position,
    /// and making it gives the new text.
    #[verifier::rlimit(60)]
    pub fn apply_edit(&mut self, start: usize, end: usize, text: &str, record: EditRecord) -> (res: (
        String,
        EditDelta,
    ))
        requires
            old(self).wf(),
            old(self).edit_generation < usize::MAX,
            old(self).chars().len() + text@.len() <= usize::MAX,
        ensures
            final(self).wf(),
            ({
                let old_text = old(self).chars();
                let len = old_text.len();
                let s = if (start as nat) <= len {
                    start as nat
                } else {
                    len
                };
                let e0 = if (end as nat) <= len {
                    end as nat
                } else {
                    len
                };
                let e = if e0 >= s {
                    e0
                } else {
                    s
                };
                let deleted = old_text.subrange(s as int, e as int);
                let change = EditView { position: s as usize, deleted, inserted: text@ };
                let first = count_newlines(old_text.take(s as int));
                &&& res.0@ == deleted
                &&& fits(old_text, change)
                &&& final(self).chars() == applied(old_text, change)
                &&& final(self).history@ == match record {
                    EditRecord::Insert => old(self).history@.inserting(s as usize, text@),
                    EditRecord::Delete => old(self).history@.deleting(s as usize, deleted),
                    EditRecord::Replace => old(self).history@.replacing(s as usize, deleted, text@),
                    EditRecord::NoHistory => old(self).history@,
                }
                &&& res.1.start == s
                &&& res.1.removed == e - s
                &&& res.1.inserted == text@.len()
                &&& res.1.first_line == first
                &&& res.1.removed_lines == count_newlines(old_text.take(e as int)) - first
                &&& res.1.inserted_lines == count_newlines(final(self).chars().take((s + text@.len()) as int))
                    - first
                &&& (e > s || text@.len() > 0) ==> final(self).modified && final(self).edit_generation
                    == old(self).edit_generation + 1
                &&& !(e > s || text@.len() > 0) ==> final(self).modified == old(self).modified
                    && final(self).edit_generation == old(self).edit_generation
            }),
            final(self).id == old(self).id,
            final(self).path == old(self).path,
            final(self).name == old(self).name,
            final(self).line_ending == old(self).line_ending,
            final(self).disk_state == old(self).disk_state,
    {
        let ghost old_text = self.chars();
        let len = self.char_count();
        let s = if start <= len {
            start
        } else {
            len
        };
        let e0 = if end <= len {
            end
        } else {
            len
        };
        let e = if e0 >= s {
            e0
        } else {
            s
        };
        let deleted = if e > s {
            self.slice_string(s, e)
        } else {
            String::new()
        };
        assert(deleted@ =~= old_text.subrange(s as int, e as int));
        proof {
            crate::editing::lemma_count_newlines_monotonic(old_text, s as nat, e as nat);
            crate::editing::lemma_count_newlines_le_len(old_text.take(e as int));
        }
        let (first_line, _) = self.char_to_line_col(s);
        let (end_line, _) = self.char_to_line_col(e);
        match record {
            EditRecord::Insert => self.history.record_insert(s, text),
            EditRecord::Delete => self.history.record_delete(s, deleted.as_str()),
            EditRecord::Replace => self.history.record_replace(s, deleted.as_str(), text),
            EditRecord::NoHistory => {},
        }
        let ghost h = self.history@;
        self.replace(s, e, text);
        let ghost change = EditView { position: s, deleted: deleted@, inserted: text@ };
        proof {
            let t = old_text;
            assert(t.subrange(s as int, s + deleted@.len()) == deleted@);
            if !(e > s || text@.len() > 0) {
                assert(applied(t, change) =~= t);
            }
        }
        let inserted = text.unicode_len();
        let ghost new_text = self.chars();
        proof {
            assert(new_text.take(s as int) =~= old_text.take(s as int));
            crate::editing::lemma_count_newlines_monotonic(new_text, s as nat, (s + inserted) as nat);
            crate::editing::lemma_count_newlines_le_len(new_text.take((s + inserted) as int));
        }
        let (inserted_line, _) = self.char_to_line_col(s + inserted);
        let delta = EditDelta {
            start: s,
            removed: e - s,
            inserted,
            first_line,
            removed_lines: end_line - first_line,
            inserted_lines: inserted_line - first_line,
        };
        (deleted, delta)
    }
}

} // verus!
