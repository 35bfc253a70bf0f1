//! Display geometry: the terminal-safe form of a char, its width in screen
//! columns, tab stops, and the visual columns of a line.
use vstd::prelude::*;

use crate::buffer::{line_count_of, line_len, line_start, Buffer};
use crate::text::{char_from_u32, chars_of, copy_str, push_char, utf8_len, utf8_len_of, utf8_width};

verus! {

/// Columns per indentation step; tab stops fall on its multiples.
pub const INDENT_WIDTH: usize = 4;

/// What `UnicodeWidthChar::width` of unicode-width returns for `c`.
pub uninterp spec fn unicode_char_width(c: char) -> Option<usize>;

/// `UnicodeWidthChar::width` of unicode-width. The contract states what its
/// source shows: `None` exactly for the C0 controls, DEL and the C1 controls;
/// `Some(1)` for printable ASCII; otherwise a table width of at most 3
/// columns. Which table width a given non-ASCII char gets is left to the
/// name.
#[verifier::external_body]
fn unicode_width(c: char) -> (w: Option<usize>)
    ensures
        w == unicode_char_width(c),
        w is None <==> ((c as u32) < 0x20 || (0x7f <= (c as u32) && (c as u32) < 0xa0)),
        (0x20 <= (c as u32) && (c as u32) < 0x7f) ==> w == Some(1usize),
        w matches Some(n) ==> n <= 3,
{
    unicode_width::UnicodeWidthChar::width(c)
}

/// The char shown for `c`: C0 controls become their control pictures
/// (U+2400 + code), DEL becomes U+2421, C1 controls become U+FFFD; tab and
/// newline, which layout handles, and every other char stay as they are.
pub open spec fn safe_char(c: char) -> char {
    if c == '\t' || c == '\n' {
        c
    } else if (c as u32) < 0x20 {
        (0x2400 + (c as u32)) as char
    } else if (c as u32) == 0x7f {
        '\u{2421}'
    } else if 0x80 <= (c as u32) && (c as u32) < 0xa0 {
        '\u{fffd}'
    } else {
        c
    }
}

/// The terminal-safe form of `ch` (see `safe_char`).
pub fn terminal_safe_char(ch: char) -> (r: char)
    ensures
        r == safe_char(ch),
{
    if ch == '\t' || ch == '\n' {
        ch
    } else if (ch as u32) < 0x20 {
        match char_from_u32(0x2400 + (ch as u32)) {
            Some(c) => c,
            None => ch,
        }
    } else if ch == '\u{7f}' {
        '\u{2421}'
    } else if 0x80 <= (ch as u32) && (ch as u32) < 0xa0 {
        '\u{fffd}'
    } else {
        ch
    }
}

/// The terminal-safe form of every char of `text`, in order.
pub fn terminal_safe_text(text: &str) -> (r: String)
    ensures
        r@ == text@.map_values(|c: char| safe_char(c)),
{
    let chars = crate::text::chars_of(text);
    let mut r = String::new();
    let mut i: usize = 0;
    while i < chars.len()
        invariant
            chars@ == text@,
            i <= chars@.len(),
            r@ == chars@.take(i as int).map_values(|c: char| safe_char(c)),
        decreases chars@.len() - i,
    {
        let c = terminal_safe_char(chars[i]);
        push_char(&mut r, c);
        assert(chars@.take(i + 1).map_values(|c: char| safe_char(c)) =~= chars@.take(
            i as int,
        ).map_values(|c: char| safe_char(c)).push(c));
        i += 1;
    }
    assert(chars@.take(chars@.len() as int) =~= chars@);
    r
}

/// Columns a char takes on screen (tabs aside): one for printable ASCII,
/// otherwise the width of its terminal-safe form, and 0 where that form has
/// none (tab, newline).
pub open spec fn char_cols(c: char) -> nat {
    if 0x20 <= (c as u32) && (c as u32) < 0x7f {
        1
    } else {
        match unicode_char_width(safe_char(c)) {
            Some(w) => w as nat,
            None => 0,
        }
    }
}

/// Screen columns of `ch` (0 for combining marks, 2 for wide chars).
pub fn char_width(ch: char) -> (w: usize)
    ensures
        w == char_cols(ch),
        w <= 3,
{
    match unicode_width(terminal_safe_char(ch)) {
        Some(w) => w,
        None => 0,
    }
}

/// Columns from `col` to the next tab stop.
pub open spec fn tab_cols(col: int) -> int {
    INDENT_WIDTH - col % (INDENT_WIDTH as int)
}

/// Columns a tab at visual column `visual_col` takes.
pub fn tab_width_at(visual_col: usize) -> (w: usize)
    ensures
        w == tab_cols(visual_col as int),
        1 <= w <= INDENT_WIDTH,
{
    INDENT_WIDTH - (visual_col % INDENT_WIDTH)
}

/// The visual column after `c` when `c` starts at column `col`.
pub open spec fn advance_col(col: int, c: char) -> int {
    if c == '\t' {
        col + tab_cols(col)
    } else {
        col + char_cols(c)
    }
}

/// The visual column after `ch` when it starts at `visual_col`.
pub fn advance_visual_col(visual_col: usize, ch: char) -> (r: usize)
    requires
        visual_col + INDENT_WIDTH <= usize::MAX,
    ensures
        r == advance_col(visual_col as int, ch),
        visual_col < r <= visual_col + INDENT_WIDTH || (r == visual_col && ch != '\t' && char_cols(ch) == 0),
{
    if ch == '\t' {
        visual_col + tab_width_at(visual_col)
    } else {
        visual_col + char_width(ch)
    }
}

/// The visual width of `s` laid out from column 0: each char advances the
/// column by its width, a tab to the next tab stop.
pub open spec fn visual_width(s: Seq<char>) -> int
    decreases s.len(),
{
    if s.len() == 0 {
        0
    } else {
        advance_col(visual_width(s.drop_last()), s.last())
    }
}

/// A visual width is never negative.
pub proof fn lemma_visual_width_nonnegative(s: Seq<char>)
    ensures
        0 <= visual_width(s),
    decreases s.len(),
{
    if s.len() > 0 {
        lemma_visual_width_nonnegative(s.drop_last());
        let c = visual_width(s.drop_last());
        assert(0 <= c % 4 < 4);
    }
}

/// Laying out more chars never moves the column back.
pub proof fn lemma_visual_width_monotonic(s: Seq<char>, i: int, j: int)
    requires
        0 <= i <= j <= s.len(),
    ensures
        visual_width(s.take(i)) <= visual_width(s.take(j)),
    decreases j - i,
{
    if i < j {
        lemma_visual_width_monotonic(s, i, j - 1);
        assert(s.take(j).drop_last() =~= s.take(j - 1));
        let c = visual_width(s.take(j - 1));
        lemma_visual_width_nonnegative(s.take(j - 1));
        assert(0 <= c % 4 < 4);
    }
}

/// The visual width of `line_chars`, tabs expanded to tab stops.
pub fn visual_width_for_chars(line_chars: &[char]) -> (w: usize)
    requires
        line_chars@.len() <= usize::MAX / 4,
    ensures
        w == visual_width(line_chars@),
{
    let mut col: usize = 0;
    let mut i: usize = 0;
    while i < line_chars.len()
        invariant
            i <= line_chars@.len(),
            line_chars@.len() <= usize::MAX / 4,
            col == visual_width(line_chars@.take(i as int)),
            col <= INDENT_WIDTH * i,
        decreases line_chars@.len() - i,
    {
        proof {
            assert(line_chars@.take(i + 1).drop_last() =~= line_chars@.take(i as int));
        }
        col = advance_visual_col(col, line_chars[i]);
        i += 1;
    }
    assert(line_chars@.take(line_chars@.len() as int) =~= line_chars@);
    col
}

/// The visual column at which buffer column `buffer_col` of a line starts
/// (columns past the end clamp to the end of the line).
pub fn visual_col_for_buffer_col(line_chars: &[char], buffer_col: usize) -> (w: usize)
    requires
        line_chars@.len() <= usize::MAX / 4,
    ensures
        w == visual_width(
            line_chars@.take(
                if buffer_col < line_chars@.len() {
                    buffer_col as int
                } else {
                    line_chars@.len() as int
                },
            ),
        ),
{
    let end = if buffer_col < line_chars.len() {
        buffer_col
    } else {
        line_chars.len()
    };
    let prefix = vstd::slice::slice_subrange(line_chars, 0, end);
    assert(prefix@ =~= line_chars@.take(end as int));
    visual_width_for_chars(prefix)
}

/// One screen cell of a laid-out line: the text drawn in it (empty for the
/// right half of a wide glyph), and the buffer char and byte span it shows.
#[derive(Debug)]
pub struct VisualCell {
    pub text: String,
    pub buffer_char_pos: usize,
    pub buffer_byte_start: usize,
    pub buffer_byte_end: usize,
}

/// A cell as a value: its text as chars and its positions.
pub struct CellView {
    pub text: Seq<char>,
    pub pos: int,
    pub byte_start: int,
    pub byte_end: int,
}

impl View for VisualCell {
    type V = CellView;

    open spec fn view(&self) -> CellView {
        CellView {
            text: self.text@,
            pos: self.buffer_char_pos as int,
            byte_start: self.buffer_byte_start as int,
            byte_end: self.buffer_byte_end as int,
        }
    }
}

/// One screen row of a laid-out line; `continues` marks a row that the
/// line wraps past (drawn with a continuation marker in its last column).
#[derive(Debug)]
pub struct VisualRow {
    pub cells: Vec<VisualCell>,
    pub continues: bool,
}

/// A row as a value.
pub struct RowView {
    pub cells: Seq<CellView>,
    pub continues: bool,
}

/// The views of a sequence of cells.
pub open spec fn cell_views(cells: Seq<VisualCell>) -> Seq<CellView> {
    cells.map_values(|c: VisualCell| c@)
}

impl View for VisualRow {
    type V = RowView;

    open spec fn view(&self) -> RowView {
        RowView { cells: cell_views(self.cells@), continues: self.continues }
    }
}

/// The rows of a line that a viewport asked for; `exhausted` is true when
/// they reach the end of the line.
#[derive(Debug)]
pub struct VisibleVisualRows {
    pub rows: Vec<VisualRow>,
    pub exhausted: bool,
}

/// Where the streaming layout of a line stands: the next char to read, the
/// cells read but not yet placed in a row, the visual column and the byte
/// offset reached.
pub struct LayoutState {
    pub next: nat,
    pub cells: Seq<CellView>,
    pub col: int,
    pub byte: int,
}

/// Index of the last cell before `k` whose text is not empty.
pub open spec fn last_drawn(cells: Seq<CellView>, k: int) -> Option<int>
    decreases k,
{
    if k <= 0 {
        None
    } else if cells[k - 1].text.len() > 0 {
        Some(k - 1)
    } else {
        last_drawn(cells, k - 1)
    }
}

/// Sets the byte end of the cells before `k` that show char `pos`, walking
/// back from `k` for as long as they do.
pub open spec fn extend_byte_end(cells: Seq<CellView>, pos: int, byte_end: int, k: int) -> Seq<
    CellView,
>
    decreases k,
{
    if k <= 0 || cells[k - 1].pos != pos {
        cells
    } else {
        extend_byte_end(
            cells.update(
                k - 1,
                CellView {
                    text: cells[k - 1].text,
                    pos: cells[k - 1].pos,
                    byte_start: cells[k - 1].byte_start,
                    byte_end,
                },
            ),
            pos,
            byte_end,
            k - 1,
        )
    }
}

/// A zero-width char joins the last drawn cell: its text gets the char, and
/// the cells of that glyph end where the char ends. With no drawn cell the
/// char is dropped.
pub open spec fn attach_zero_width(cells: Seq<CellView>, c: char, byte_end: int) -> Seq<
    CellView,
> {
    match last_drawn(cells, cells.len() as int) {
        None => cells,
        Some(i) => {
            let joined = cells.update(
                i,
                CellView {
                    text: cells[i].text.push(c),
                    pos: cells[i].pos,
                    byte_start: cells[i].byte_start,
                    byte_end: cells[i].byte_end,
                },
            );
            extend_byte_end(joined, cells[i].pos, byte_end, joined.len() as int)
        },
    }
}

/// The cells of a tab: `n` blanks, all showing the tab.
pub open spec fn blank_cells(n: nat, pos: int, byte_start: int, byte_end: int) -> Seq<CellView> {
    Seq::new(n, |_i: int| CellView { text: seq![' '], pos, byte_start, byte_end })
}

/// Reads the next char of `line` (whose first char is buffer char `base`):
/// a tab becomes blanks up to the next tab stop, a zero-width char joins the
/// previous glyph, a wide char becomes its glyph and an empty cell, any
/// other char one cell with its terminal-safe form.
pub open spec fn read_next(line: Seq<char>, base: int, st: LayoutState) -> LayoutState {
    let c = line[st.next as int];
    let pos = base + st.next;
    let bs = st.byte;
    let be = bs + utf8_len(c);
    let next = st.next + 1;
    if c == '\t' {
        let w = tab_cols(st.col);
        LayoutState {
            next,
            cells: st.cells + blank_cells(w as nat, pos, bs, be),
            col: st.col + w,
            byte: be,
        }
    } else if char_cols(c) == 0 {
        LayoutState { next, cells: attach_zero_width(st.cells, c, be), col: st.col, byte: be }
    } else if char_cols(c) == 2 {
        LayoutState {
            next,
            cells: st.cells + seq![
                CellView { text: seq![safe_char(c)], pos, byte_start: bs, byte_end: be },
                CellView { text: Seq::empty(), pos, byte_start: bs, byte_end: be },
            ],
            col: st.col + 2,
            byte: be,
        }
    } else {
        LayoutState {
            next,
            cells: st.cells.push(
                CellView { text: seq![safe_char(c)], pos, byte_start: bs, byte_end: be },
            ),
            col: st.col + 1,
            byte: be,
        }
    }
}

/// Reads chars until one cell more than a row holds is pending (the
/// lookahead that tells a full final row from a continued one), or the line
/// ends.
pub open spec fn fill(line: Seq<char>, base: int, width: int, st: LayoutState) -> LayoutState
    decreases line.len() - st.next,
{
    if st.cells.len() > width || st.next >= line.len() {
        st
    } else {
        fill(line, base, width, read_next(line, base, st))
    }
}

/// Where a continued row ends: one column is kept for the continuation
/// marker (a row of width 1 still takes one cell), and a wide glyph that
/// would straddle the boundary moves whole to the next row.
pub open spec fn wrap_point(cells: Seq<CellView>, width: int) -> int {
    let content = if width > 1 {
        width - 1
    } else {
        1
    };
    let s = if content < cells.len() {
        content
    } else {
        cells.len() as int
    };
    if width > 1 && s > 0 && s < cells.len() && cells[s].text.len() == 0 && cells[s - 1].pos
        == cells[s].pos {
        s - 1
    } else {
        s
    }
}

/// Whether the row laid out from the filled state `f` continues.
pub open spec fn row_continues(line: Seq<char>, width: int, f: LayoutState) -> bool {
    f.next < line.len() || f.cells.len() > width
}

/// The state at the start of row `r` of the line, `None` when the line
/// ends before row `r`.
pub open spec fn row_start(line: Seq<char>, base: int, base_byte: int, width: int, r: nat) -> Option<
    LayoutState,
>
    decreases r,
{
    if r == 0 {
        Some(LayoutState { next: 0, cells: Seq::empty(), col: 0, byte: base_byte })
    } else {
        match row_start(line, base, base_byte, width, (r - 1) as nat) {
            None => None,
            Some(st) => {
                let f = fill(line, base, width, st);
                if row_continues(line, width, f) {
                    Some(
                        LayoutState {
                            next: f.next,
                            cells: f.cells.skip(wrap_point(f.cells, width)),
                            col: f.col,
                            byte: f.byte,
                        },
                    )
                } else {
                    None
                }
            },
        }
    }
}

/// The row laid out from state `st`.
pub open spec fn row_from(line: Seq<char>, base: int, width: int, st: LayoutState) -> RowView {
    let f = fill(line, base, width, st);
    if row_continues(line, width, f) {
        RowView { cells: f.cells.take(wrap_point(f.cells, width)), continues: true }
    } else {
        RowView { cells: f.cells, continues: false }
    }
}

/// Row `r` of `line` laid out in rows of `width` columns, `None` past the
/// last row. A zero width lays the line out as one empty row.
pub open spec fn visual_row(line: Seq<char>, base: int, base_byte: int, width: int, r: nat) -> Option<
    RowView,
> {
    if width == 0 {
        if r == 0 {
            Some(RowView { cells: Seq::empty(), continues: false })
        } else {
            None
        }
    } else {
        match row_start(line, base, base_byte, width, r) {
            None => None,
            Some(st) => Some(row_from(line, base, width, st)),
        }
    }
}

/// Once the line has ended, no later row exists either.
pub proof fn lemma_row_start_ends(line: Seq<char>, base: int, base_byte: int, width: int, r: nat, r2: nat)
    requires
        r <= r2,
        row_start(line, base, base_byte, width, r) is None,
    ensures
        row_start(line, base, base_byte, width, r2) is None,
    decreases r2 - r,
{
    if r < r2 {
        lemma_row_start_ends(line, base, base_byte, width, r, (r2 - 1) as nat);
    }
}

/// A cell showing `text`.
fn make_cell(text: String, pos: usize, byte_start: usize, byte_end: usize) -> (c: VisualCell)
    ensures
        c@ == (CellView {
            text: text@,
            pos: pos as int,
            byte_start: byte_start as int,
            byte_end: byte_end as int,
        }),
{
    VisualCell {
        text,
        buffer_char_pos: pos,
        buffer_byte_start: byte_start,
        buffer_byte_end: byte_end,
    }
}

/// The one-char string `c`.
fn char_string(c: char) -> (s: String)
    ensures
        s@ == seq![c],
{
    let mut s = String::new();
    push_char(&mut s, c);
    assert(s@ =~= seq![c]);
    s
}

/// Joins zero-width char `c` (ending at byte `byte_end`) to the last drawn
/// cell, as `attach_zero_width` says.
fn attach_zero_width_cells(cells: &mut Vec<VisualCell>, c: char, byte_end: usize)
    ensures
        cell_views(final(cells)@) == attach_zero_width(cell_views(old(cells)@), c, byte_end as int),
{
    let ghost cv = cell_views(cells@);
    let mut k = cells.len();
    while k > 0 && cells[k - 1].text.as_str().is_empty()
        invariant
            k <= cells@.len(),
            cv == cell_views(cells@),
            cells@ == old(cells)@,
            last_drawn(cv, cv.len() as int) == last_drawn(cv, k as int),
        decreases k,
    {
        assert(cv[k - 1] == cells@[k - 1]@);
        k -= 1;
    }
    if k == 0 {
        return ;
    }
    let i = k - 1;
    assert(cv[i as int] == cells@[i as int]@);
    let prev = cells[i].buffer_char_pos;
    let mut t = copy_str(cells[i].text.as_str());
    push_char(&mut t, c);
    let bs = cells[i].buffer_byte_start;
    let be0 = cells[i].buffer_byte_end;
    cells[i] = make_cell(t, prev, bs, be0);
    let ghost joined = cell_views(cells@);
    assert(joined =~= cv.update(
        i as int,
        CellView {
            text: cv[i as int].text.push(c),
            pos: cv[i as int].pos,
            byte_start: cv[i as int].byte_start,
            byte_end: cv[i as int].byte_end,
        },
    ));
    let mut j = cells.len();
    while j > 0 && cells[j - 1].buffer_char_pos == prev
        invariant
            j <= cells@.len(),
            extend_byte_end(joined, prev as int, byte_end as int, joined.len() as int)
                == extend_byte_end(cell_views(cells@), prev as int, byte_end as int, j as int),
            cv.len() == cells@.len(),
            attach_zero_width(cv, c, byte_end as int) == extend_byte_end(
                joined,
                prev as int,
                byte_end as int,
                joined.len() as int,
            ),
        decreases j,
    {
        let ghost before = cell_views(cells@);
        assert(before[j - 1] == cells@[j - 1]@);
        let t2 = copy_str(cells[j - 1].text.as_str());
        let bs2 = cells[j - 1].buffer_byte_start;
        cells[j - 1] = make_cell(t2, prev, bs2, byte_end);
        assert(cell_views(cells@) =~= before.update(
            j - 1,
            CellView {
                text: before[j - 1].text,
                pos: before[j - 1].pos,
                byte_start: before[j - 1].byte_start,
                byte_end: byte_end as int,
            },
        ));
        j -= 1;
    }
    proof {
        let cur = cell_views(cells@);
        if j > 0 {
            assert(cur[j - 1] == cells@[j - 1]@);
        }
    }
}

/// Reads char `next` of `line` into `cells`, as `read_next` says; returns
/// the visual column and byte offset after it.
fn read_next_cells(
    line: &[char],
    base: usize,
    cells: &mut Vec<VisualCell>,
    next: usize,
    col: usize,
    byte: usize,
) -> (res: (usize, usize))
    requires
        next < line@.len(),
        base + line@.len() <= usize::MAX,
        col + INDENT_WIDTH <= usize::MAX,
        byte + 4 <= usize::MAX,
    ensures
        ({
            let st = read_next(
                line@,
                base as int,
                LayoutState {
                    next: next as nat,
                    cells: cell_views(old(cells)@),
                    col: col as int,
                    byte: byte as int,
                },
            );
            &&& st.cells == cell_views(final(cells)@)
            &&& st.col == res.0
            &&& st.byte == res.1
            &&& st.next == next + 1
        }),
        res.0 <= col + INDENT_WIDTH,
        res.1 <= byte + 4,
{
    let c = line[next];
    let pos = base + next;
    let be = byte + utf8_width(c);
    let ghost start = cell_views(cells@);
    if c == '\t' {
        let w = tab_width_at(col);
        let mut k: usize = 0;
        while k < w
            invariant
                k <= w,
                cell_views(cells@) == start + blank_cells(
                    k as nat,
                    pos as int,
                    byte as int,
                    be as int,
                ),
            decreases w - k,
        {
            let blank = char_string(' ');
            let ghost before = cell_views(cells@);
            cells.push(make_cell(blank, pos, byte, be));
            assert(cell_views(cells@) =~= before.push(
                CellView {
                    text: seq![' '],
                    pos: pos as int,
                    byte_start: byte as int,
                    byte_end: be as int,
                },
            ));
            assert(cell_views(cells@) =~= start + blank_cells(
                (k + 1) as nat,
                pos as int,
                byte as int,
                be as int,
            ));
            k += 1;
        }
        (col + w, be)
    } else {
        let cw = char_width(c);
        if cw == 0 {
            attach_zero_width_cells(cells, c, be);
            (col, be)
        } else if cw == 2 {
            let glyph = char_string(terminal_safe_char(c));
            cells.push(make_cell(glyph, pos, byte, be));
            cells.push(make_cell(String::new(), pos, byte, be));
            assert(cell_views(cells@) =~= start + seq![
                CellView {
                    text: seq![safe_char(c)],
                    pos: pos as int,
                    byte_start: byte as int,
                    byte_end: be as int,
                },
                CellView {
                    text: Seq::empty(),
                    pos: pos as int,
                    byte_start: byte as int,
                    byte_end: be as int,
                },
            ]);
            (col + 2, be)
        } else {
            let glyph = char_string(terminal_safe_char(c));
            cells.push(make_cell(glyph, pos, byte, be));
            assert(cell_views(cells@) =~= start.push(
                CellView {
                    text: seq![safe_char(c)],
                    pos: pos as int,
                    byte_start: byte as int,
                    byte_end: be as int,
                },
            ));
            (col + 1, be)
        }
    }
}

/// Where a continued row of `cells` ends (see `wrap_point`).
fn wrap_point_of(cells: &Vec<VisualCell>, text_width: usize) -> (s: usize)
    ensures
        s == wrap_point(cell_views(cells@), text_width as int),
        s <= cells@.len(),
{
    let content = if text_width > 1 {
        text_width - 1
    } else {
        1
    };
    let s = if content < cells.len() {
        content
    } else {
        cells.len()
    };
    if text_width > 1 && s > 0 && s < cells.len() && cells[s].text.as_str().is_empty()
        && cells[s - 1].buffer_char_pos == cells[s].buffer_char_pos {
        assert(cell_views(cells@)[s as int] == cells@[s as int]@);
        assert(cell_views(cells@)[s - 1] == cells@[s - 1]@);
        s - 1
    } else {
        proof {
            if s > 0 && s < cells@.len() {
                assert(cell_views(cells@)[s as int] == cells@[s as int]@);
                assert(cell_views(cells@)[s - 1] == cells@[s - 1]@);
            }
        }
        s
    }
}

/// Lays out the rows `skip_rows ..` (at most `max_rows` of them) of a line
/// whose chars are `line` (without its line break), whose first char is
/// buffer char `line_start_char` at byte `line_start_byte`, in rows of
/// `text_width` columns. Rows are produced one at a time, reading only as
/// far into the line as the last requested row needs.
pub fn stream_visible_visual_rows(
    line: &[char],
    line_start_char: usize,
    line_start_byte: usize,
    text_width: usize,
    skip_rows: usize,
    max_rows: usize,
) -> (res: VisibleVisualRows)
    requires
        line_start_char + line@.len() <= usize::MAX,
        line_start_byte + 4 * line@.len() <= usize::MAX,
        4 * line@.len() + INDENT_WIDTH <= usize::MAX,
        skip_rows + max_rows <= usize::MAX,
    ensures
        max_rows == 0 ==> res.rows@.len() == 0 && !res.exhausted,
        max_rows > 0 ==> {
            &&& res.rows@.len() <= max_rows
            &&& forall|i: int|
                0 <= i < res.rows@.len() ==> visual_row(
                    line@,
                    line_start_char as int,
                    line_start_byte as int,
                    text_width as int,
                    (skip_rows + i) as nat,
                ) == Some(#[trigger] res.rows@[i]@)
            &&& res.rows@.len() < max_rows ==> visual_row(
                line@,
                line_start_char as int,
                line_start_byte as int,
                text_width as int,
                (skip_rows + res.rows@.len()) as nat,
            ) is None
            &&& res.exhausted == visual_row(
                line@,
                line_start_char as int,
                line_start_byte as int,
                text_width as int,
                (skip_rows + res.rows@.len()) as nat,
            ) is None
        },
{
    let ghost base = line_start_char as int;
    let ghost base_byte = line_start_byte as int;
    let ghost width = text_width as int;
    let mut rows: Vec<VisualRow> = Vec::new();
    if max_rows == 0 {
        return VisibleVisualRows { rows, exhausted: false };
    }
    if text_width == 0 {
        if skip_rows == 0 {
            rows.push(VisualRow { cells: Vec::new(), continues: false });
            assert(rows@[0]@.cells =~= Seq::<CellView>::empty());
        }
        return VisibleVisualRows { rows, exhausted: true };
    }
    let mut carry: Vec<VisualCell> = Vec::new();
    let mut next: usize = 0;
    let mut col: usize = 0;
    let mut byte: usize = line_start_byte;
    let mut row_index: usize = 0;
    assert(cell_views(carry@) =~= Seq::<CellView>::empty());
    loop
        invariant
            text_width > 0,
            max_rows > 0,
            line_start_char + line@.len() <= usize::MAX,
            line_start_byte + 4 * line@.len() <= usize::MAX,
            4 * line@.len() + INDENT_WIDTH <= usize::MAX,
            skip_rows + max_rows <= usize::MAX,
            base == line_start_char as int,
            base_byte == line_start_byte as int,
            width == text_width as int,
            row_start(line@, base, base_byte, width, row_index as nat) == Some(
                LayoutState {
                    next: next as nat,
                    cells: cell_views(carry@),
                    col: col as int,
                    byte: byte as int,
                },
            ),
            next <= line@.len(),
            col <= 4 * next,
            byte <= line_start_byte + 4 * next,
            rows@.len() == (if row_index >= skip_rows {
                row_index - skip_rows
            } else {
                0
            }),
            rows@.len() < max_rows,
            forall|i: int|
                0 <= i < rows@.len() ==> visual_row(
                    line@,
                    base,
                    base_byte,
                    width,
                    (skip_rows + i) as nat,
                ) == Some(#[trigger] rows@[i]@),
        decreases skip_rows + max_rows - row_index,
    {
        let (row, carry2, next2, col2, byte2) = layout_next_row(
            line,
            line_start_char,
            line_start_byte,
            text_width,
            carry,
            next,
            col,
            byte,
            Ghost(row_index as nat),
        );
        let continues = row.continues;
        if row_index >= skip_rows {
            rows.push(row);
            if rows.len() == max_rows {
                return VisibleVisualRows { rows, exhausted: !continues };
            }
        }
        if !continues {
            proof {
                lemma_row_start_ends(
                    line@,
                    base,
                    base_byte,
                    width,
                    (row_index + 1) as nat,
                    (skip_rows + rows@.len()) as nat,
                );
            }
            return VisibleVisualRows { rows, exhausted: true };
        }
        carry = carry2;
        next = next2;
        col = col2;
        byte = byte2;
        row_index += 1;
    }
}

/// Lays out row `r` of `line` from the state at its start (the pending
/// cells `carry`, the next char, the visual column and the byte offset);
/// returns the row and, for a continued row, the state at the start of the
/// next one.
fn layout_next_row(
    line: &[char],
    line_start_char: usize,
    line_start_byte: usize,
    text_width: usize,
    carry: Vec<VisualCell>,
    next: usize,
    col: usize,
    byte: usize,
    Ghost(r): Ghost<nat>,
) -> (res: (VisualRow, Vec<VisualCell>, usize, usize, usize))
    requires
        text_width > 0,
        line_start_char + line@.len() <= usize::MAX,
        line_start_byte + 4 * line@.len() <= usize::MAX,
        4 * line@.len() + INDENT_WIDTH <= usize::MAX,
        row_start(line@, line_start_char as int, line_start_byte as int, text_width as int, r)
            == Some(
            LayoutState {
                next: next as nat,
                cells: cell_views(carry@),
                col: col as int,
                byte: byte as int,
            },
        ),
        next <= line@.len(),
        col <= 4 * next,
        byte <= line_start_byte + 4 * next,
    ensures
        visual_row(line@, line_start_char as int, line_start_byte as int, text_width as int, r)
            == Some(res.0@),
        res.0.continues ==> row_start(
            line@,
            line_start_char as int,
            line_start_byte as int,
            text_width as int,
            r + 1,
        ) == Some(
            LayoutState {
                next: res.2 as nat,
                cells: cell_views(res.1@),
                col: res.3 as int,
                byte: res.4 as int,
            },
        ),
        !res.0.continues ==> row_start(
            line@,
            line_start_char as int,
            line_start_byte as int,
            text_width as int,
            r + 1,
        ) is None,
        res.2 <= line@.len(),
        res.3 <= 4 * res.2,
        res.4 <= line_start_byte + 4 * res.2,
{
    let ghost base = line_start_char as int;
    let ghost base_byte = line_start_byte as int;
    let ghost width = text_width as int;
    let mut cells = carry;
    let mut next = next;
    let mut col = col;
    let mut byte = byte;
    let ghost st0 = LayoutState {
        next: next as nat,
        cells: cell_views(cells@),
        col: col as int,
        byte: byte as int,
    };
    while cells.len() <= text_width && next < line.len()
        invariant
            line_start_char + line@.len() <= usize::MAX,
            line_start_byte + 4 * line@.len() <= usize::MAX,
            4 * line@.len() + INDENT_WIDTH <= usize::MAX,
            base == line_start_char as int,
            width == text_width as int,
            next <= line@.len(),
            col <= 4 * next,
            byte <= line_start_byte + 4 * next,
            fill(line@, base, width, st0) == fill(
                line@,
                base,
                width,
                LayoutState {
                    next: next as nat,
                    cells: cell_views(cells@),
                    col: col as int,
                    byte: byte as int,
                },
            ),
        decreases line@.len() - next,
    {
        let (c2, b2) = read_next_cells(line, line_start_char, &mut cells, next, col, byte);
        next += 1;
        col = c2;
        byte = b2;
    }
    let ghost f = LayoutState {
        next: next as nat,
        cells: cell_views(cells@),
        col: col as int,
        byte: byte as int,
    };
    assert(fill(line@, base, width, f) == f);
    assert(fill(line@, base, width, st0) == f);
    let continues = next < line.len() || cells.len() > text_width;
    if continues {
        let split = wrap_point_of(&cells, text_width);
        let rest = cells.split_off(split);
        assert(cell_views(cells@) =~= f.cells.take(split as int));
        assert(cell_views(rest@) =~= f.cells.skip(split as int));
        let row = VisualRow { cells, continues };
        assert(visual_row(line@, base, base_byte, width, r) == Some(row@));
        (row, rest, next, col, byte)
    } else {
        let row = VisualRow { cells, continues };
        assert(visual_row(line@, base, base_byte, width, r) == Some(row@));
        (row, Vec::new(), next, col, byte)
    }
}

/// Every row fits the width; a continued row (of a width above one) keeps
/// its last column free for the continuation marker.
pub proof fn lemma_rows_fit_width(
    line: Seq<char>,
    base: int,
    base_byte: int,
    width: int,
    r: nat,
)
    requires
        width >= 0,
        visual_row(line, base, base_byte, width, r) is Some,
    ensures
        ({
            let row = visual_row(line, base, base_byte, width, r)->0;
            &&& row.cells.len() <= width
            &&& (row.continues && width > 1) ==> row.cells.len() <= width - 1
        }),
{
    if width > 0 {
        let st = row_start(line, base, base_byte, width, r)->0;
        let f = fill(line, base, width, st);
        let s = wrap_point(f.cells, width);
        assert(0 <= s <= f.cells.len());
    }
}

/// The chars of line `line_idx` of `buf`, without its line break.
pub fn line_chars_without_ending(buf: &Buffer, line_idx: usize) -> (v: Vec<char>)
    requires
        (line_idx as nat) < line_count_of(buf.chars()),
    ensures
        v@ == buf.chars().subrange(
            line_start(buf.chars(), line_idx as nat) as int,
            (line_start(buf.chars(), line_idx as nat) + line_len(buf.chars(), line_idx as nat)) as int,
        ),
{
    let total = buf.char_count();
    let start = buf.line_col_to_char(line_idx, 0);
    let len = buf.line_len_chars(line_idx);
    proof {
        crate::buffer::lemma_line_start_bounds(buf.chars(), line_idx as nat);
    }
    assert(start + len <= total);
    let s = buf.slice_string(start, start + len);
    chars_of(s.as_str())
}

/// The visual width of line `line_idx` of `buf`.
pub fn line_visual_width(buf: &Buffer, line_idx: usize) -> (w: usize)
    requires
        (line_idx as nat) < line_count_of(buf.chars()),
        buf.chars().len() <= usize::MAX / 4,
    ensures
        w == visual_width(
            buf.chars().subrange(
                line_start(buf.chars(), line_idx as nat) as int,
                (line_start(buf.chars(), line_idx as nat) + line_len(buf.chars(), line_idx as nat)) as int,
            ),
        ),
{
    let chars = line_chars_without_ending(buf, line_idx);
    proof {
        crate::buffer::lemma_line_start_bounds(buf.chars(), line_idx as nat);
    }
    visual_width_for_chars(chars.as_slice())
}

/// The rows `skip_rows ..` (at most `max_rows`) of line `line_idx` of `buf`
/// laid out in rows of `text_width` columns by the streaming layout (see
/// `stream_visible_visual_rows`).
fn streamed_line_rows(
    buf: &Buffer,
    line_idx: usize,
    text_width: usize,
    skip_rows: usize,
    max_rows: usize,
) -> (res: VisibleVisualRows)
    requires
        (line_idx as nat) < line_count_of(buf.chars()),
        8 * buf.chars().len() + INDENT_WIDTH <= usize::MAX,
        skip_rows + max_rows <= usize::MAX,
    ensures
        ({
            let s = buf.chars();
            let start = line_start(s, line_idx as nat);
            let line = s.subrange(start as int, (start + line_len(s, line_idx as nat)) as int);
            let start_byte = utf8_len_of(s.take(start as int));
            &&& max_rows == 0 ==> res.rows@.len() == 0 && !res.exhausted
            &&& max_rows > 0 ==> {
                &&& res.rows@.len() <= max_rows
                &&& forall|i: int|
                    0 <= i < res.rows@.len() ==> visual_row(
                        line,
                        start as int,
                        start_byte,
                        text_width as int,
                        (skip_rows + i) as nat,
                    ) == Some(#[trigger] res.rows@[i]@)
                &&& res.rows@.len() < max_rows ==> visual_row(
                    line,
                    start as int,
                    start_byte,
                    text_width as int,
                    (skip_rows + res.rows@.len()) as nat,
                ) is None
                &&& res.exhausted == visual_row(
                    line,
                    start as int,
                    start_byte,
                    text_width as int,
                    (skip_rows + res.rows@.len()) as nat,
                ) is None
            }
        }),
{
    let chars = line_chars_without_ending(buf, line_idx);
    let start = buf.line_col_to_char(line_idx, 0);
    proof {
        crate::buffer::lemma_line_start_bounds(buf.chars(), line_idx as nat);
        crate::text::lemma_utf8_len_bounds(buf.chars().take(start as int));
    }
    let start_byte = buf.char_to_byte(start);
    stream_visible_visual_rows(chars.as_slice(), start, start_byte, text_width, skip_rows, max_rows)
}

/// What reaches the terminal is never a control char: only tab and
/// newline, which layout handles, survive among C0, DEL and C1.
pub proof fn lemma_safe_char_is_not_control(c: char)
    ensures
        safe_char(c) == '\t' || safe_char(c) == '\n' || !((safe_char(c) as u32) < 0x20 || (0x7f
            <= (safe_char(c) as u32) && (safe_char(c) as u32) < 0xa0)),
{
}

/// Whether every char of `s` is printable ASCII (space to `~`).
pub open spec fn printable_ascii(s: Seq<char>) -> bool {
    forall|i: int| 0 <= i < s.len() ==> 0x20 <= (#[trigger] s[i] as u32) && (s[i] as u32) <= 0x7e
}

/// Whether line `line_idx` of `buf` (the last line for an index past the
/// end), without its break, is all printable ASCII: such a line lays out one
/// cell per char.
pub fn line_is_printable_ascii(buf: &Buffer, line_idx: usize) -> (b: bool)
    ensures
        ({
            let s = buf.chars();
            let l = if (line_idx as nat) < line_count_of(s) {
                line_idx as nat
            } else {
                (line_count_of(s) - 1) as nat
            };
            b == printable_ascii(
                s.subrange(line_start(s, l) as int, (line_start(s, l) + line_len(s, l)) as int),
            )
        }),
{
    let count = buf.line_count();
    let line = if line_idx < count {
        line_idx
    } else {
        count - 1
    };
    let chars = line_chars_without_ending(buf, line);
    let mut i: usize = 0;
    while i < chars.len()
        invariant
            count == line_count_of(buf.chars()),
            line as nat == (if (line_idx as nat) < line_count_of(buf.chars()) {
                line_idx as nat
            } else {
                (line_count_of(buf.chars()) - 1) as nat
            }),
            chars@ == buf.chars().subrange(
                line_start(buf.chars(), line as nat) as int,
                (line_start(buf.chars(), line as nat) + line_len(buf.chars(), line as nat)) as int,
            ),
            i <= chars@.len(),
            forall|j: int| 0 <= j < i ==> 0x20 <= (#[trigger] chars@[j] as u32) && (chars@[j] as u32) <= 0x7e,
        decreases chars@.len() - i,
    {
        let v = chars[i] as u32;
        if !(0x20 <= v && v <= 0x7e) {
            assert(!(0x20 <= (chars@[i as int] as u32) && (chars@[i as int] as u32) <= 0x7e));
            assert(!printable_ascii(chars@));
            return false;
        }
        i += 1;
    }
    true
}

/// Whether a char takes up columns: a tab, or a char of non-zero width.
pub open spec fn draws(c: char) -> bool {
    c == '\t' || char_cols(c) > 0
}

/// The buffer column of a line of chars `s` that a click at visual column
/// `target` lands on: the first char that draws and reaches past `target`
/// — itself when `target` is its first column, the column after it when
/// `target` falls inside it — or the end of the line. Zero-width chars are
/// never landed on.
pub open spec fn landing_col(s: Seq<char>, target: int) -> int {
    if exists|i: int| 0 <= i < s.len() && draws(s[i]) && target < #[trigger] visual_width(s.take(i + 1)) {
        let i = choose|i: int|
            0 <= i < s.len() && draws(s[i]) && target < #[trigger] visual_width(s.take(i + 1)) && forall|
                j: int,
            | 0 <= j < i && draws(s[j]) ==> target >= #[trigger] visual_width(s.take(j + 1));
        if target <= visual_width(s.take(i)) {
            i
        } else {
            i + 1
        }
    } else {
        s.len() as int
    }
}

/// The buffer column that visual column `target` of a line of chars lands
/// on (see `landing_col`).
pub fn buffer_col_for_visual_col(line_chars: &[char], target: usize) -> (col: usize)
    requires
        line_chars@.len() <= usize::MAX / 4,
    ensures
        col == landing_col(line_chars@, target as int),
{
    let ghost s = line_chars@;
    let mut visual_col: usize = 0;
    let mut i: usize = 0;
    while i < line_chars.len()
        invariant
            s == line_chars@,
            i <= s.len(),
            s.len() <= usize::MAX / 4,
            visual_col == visual_width(s.take(i as int)),
            visual_col <= INDENT_WIDTH * i,
            forall|j: int|
                0 <= j < i && draws(s[j]) ==> target >= #[trigger] visual_width(s.take(j + 1)),
        decreases s.len() - i,
    {
        let ch = line_chars[i];
        assert(s.take(i + 1).drop_last() =~= s.take(i as int));
        assert(s.take(i + 1).last() == ch);
        let w = if ch == '\t' {
            tab_width_at(visual_col)
        } else {
            char_width(ch)
        };
        assert(visual_width(s.take(i + 1)) == visual_col + w);
        if ch != '\t' && w == 0 {
            i += 1;
            continue;
        }
        if target <= visual_col || target < visual_col + w {
            proof {
                assert(draws(s[i as int]) && target < visual_width(s.take(i + 1)));
                let c = choose|k: int|
                    0 <= k < s.len() && draws(s[k]) && target < #[trigger] visual_width(s.take(k + 1))
                        && forall|j: int|
                        0 <= j < k && draws(s[j]) ==> target >= #[trigger] visual_width(s.take(j + 1));
                if c < i {
                    assert(target >= visual_width(s.take(c + 1)));
                }
                if c > i {
                    assert(target >= visual_width(s.take(i + 1)));
                }
                assert(c == i);
            }
            if target <= visual_col {
                return i;
            }
            return i + 1;
        }
        visual_col += w;
        i += 1;
    }
    proof {
        assert forall|k: int|
            0 <= k < s.len() && draws(s[k]) implies !(target < #[trigger] visual_width(
            s.take(k + 1),
        )) by {}
    }
    line_chars.len()
}

/// A printable ASCII line is as many columns wide as it has chars.
pub proof fn lemma_printable_ascii_width(s: Seq<char>)
    requires
        printable_ascii(s),
    ensures
        visual_width(s) == s.len(),
    decreases s.len(),
{
    if s.len() > 0 {
        let t = s.drop_last();
        assert(printable_ascii(t)) by {
            assert forall|i: int| 0 <= i < t.len() implies 0x20 <= (#[trigger] t[i] as u32) && (
            t[i] as u32) <= 0x7e by {
                assert(t[i] == s[i]);
            }
        }
        lemma_printable_ascii_width(t);
        assert(s.last() == s[s.len() - 1]);
    }
}

/// The cells of chars `a .. b` of a printable ASCII line whose first char
/// is buffer char `base` at byte `base_byte`: one cell and one byte per char.
pub open spec fn ascii_cells(line: Seq<char>, base: int, base_byte: int, a: int, b: int) -> Seq<
    CellView,
> {
    Seq::new(
        (b - a) as nat,
        |i: int|
            CellView {
                text: seq![line[a + i]],
                pos: base + a + i,
                byte_start: base_byte + a + i,
                byte_end: base_byte + a + i + 1,
            },
    )
}

/// Rows a line of `len` one-column chars takes at `width` columns (above
/// one): one when it fits, else a row per `width - 1` chars, the last row
/// using all `width` columns.
pub open spec fn visual_lines_for_length(len: int, width: int) -> int {
    if len <= width {
        1
    } else {
        1 + (len - 2) / (width - 1)
    }
}

/// Row `r` of a printable ASCII line at `width` columns: it starts at char
/// `r * (width - 1)`; a row with more than `width` chars left continues
/// after `width - 1` of them, the last row holds the rest.
pub open spec fn plain_row(line: Seq<char>, base: int, base_byte: int, width: int, r: nat) -> RowView {
    let start = r * (width - 1);
    if line.len() - start > width {
        RowView {
            cells: ascii_cells(line, base, base_byte, start, start + width - 1),
            continues: true,
        }
    } else {
        RowView { cells: ascii_cells(line, base, base_byte, start, line.len() as int), continues: false }
    }
}

/// The layout state of a printable ASCII line with chars `a .. k` read but
/// not yet placed.
pub open spec fn ascii_state(line: Seq<char>, base: int, base_byte: int, a: int, k: int) -> LayoutState {
    LayoutState {
        next: k as nat,
        cells: ascii_cells(line, base, base_byte, a, k),
        col: k,
        byte: base_byte + k,
    }
}

/// Reading a printable ASCII char adds its one cell.
proof fn lemma_ascii_read(line: Seq<char>, base: int, base_byte: int, a: int, k: int)
    requires
        printable_ascii(line),
        0 <= a <= k < line.len(),
    ensures
        read_next(line, base, ascii_state(line, base, base_byte, a, k)) == ascii_state(
            line,
            base,
            base_byte,
            a,
            k + 1,
        ),
{
    let c = line[k];
    assert(0x20 <= (c as u32) && (c as u32) <= 0x7e);
    assert(c != '\t');
    assert(safe_char(c) == c);
    assert(char_cols(c) == 1);
    let st = ascii_state(line, base, base_byte, a, k);
    let nx = read_next(line, base, st);
    assert(nx.cells =~= ascii_cells(line, base, base_byte, a, k + 1));
}

/// Filling from chars `a .. k` of a printable ASCII line reads on until one
/// cell more than the width is pending, or the line ends.
proof fn lemma_ascii_fill(line: Seq<char>, base: int, base_byte: int, width: int, a: int, k: int)
    requires
        printable_ascii(line),
        width >= 0,
        0 <= a <= k <= line.len(),
        k - a <= width + 1,
    ensures
        fill(line, base, width, ascii_state(line, base, base_byte, a, k)) == ascii_state(
            line,
            base,
            base_byte,
            a,
            if a + width + 1 < line.len() {
                a + width + 1
            } else {
                line.len() as int
            },
        ),
    decreases line.len() - k,
{
    let st = ascii_state(line, base, base_byte, a, k);
    if st.cells.len() > width || st.next >= line.len() {
    } else {
        lemma_ascii_read(line, base, base_byte, a, k);
        lemma_ascii_fill(line, base, base_byte, width, a, k + 1);
    }
}

/// Where row `r` of a printable ASCII line starts reading.
pub open spec fn plain_row_state(line: Seq<char>, base: int, base_byte: int, width: int, r: nat) -> LayoutState {
    let a = r * (width - 1);
    ascii_state(line, base, base_byte, a, if r == 0 { 0 } else { a + 2 })
}

/// Row `r + 1` of a line of one-column chars exists exactly when row `r`
/// holds more chars than the width.
proof fn lemma_plain_row_count_step(len: int, width: int, r: nat)
    requires
        width > 1,
        len >= 0,
        r < visual_lines_for_length(len, width),
    ensures
        (len - r * (width - 1) > width) == (r + 1 < visual_lines_for_length(len, width)),
        r * (width - 1) <= len,
        r > 0 ==> r * (width - 1) + 2 <= len,
{
    let w1 = width - 1;
    if len > width {
        let q = (len - 2) / w1;
        assert(q * w1 <= len - 2 < (q + 1) * w1) by (nonlinear_arith)
            requires
                w1 > 0,
                q == (len - 2) / w1,
                len - 2 >= 0,
        ;
        assert(r <= q);
        assert(r * w1 <= q * w1) by (nonlinear_arith)
            requires
                r <= q,
                w1 > 0,
        ;
        assert((r + 1) * w1 == r * w1 + w1) by (nonlinear_arith);
        if r + 1 <= q {
            assert((r + 1) * w1 <= q * w1) by (nonlinear_arith)
                requires
                    r + 1 <= q,
                    w1 > 0,
            ;
        } else {
            assert(r == q);
        }
    } else {
        assert(r == 0);
    }
}

/// Row `r` of a printable ASCII line starts where `plain_row_state` says,
/// and the line has `visual_lines_for_length` rows.
proof fn lemma_plain_row_start(line: Seq<char>, base: int, base_byte: int, width: int, r: nat)
    requires
        printable_ascii(line),
        width > 1,
    ensures
        row_start(line, base, base_byte, width, r) == if r < visual_lines_for_length(
            line.len() as int,
            width,
        ) {
            Some(plain_row_state(line, base, base_byte, width, r))
        } else {
            None::<LayoutState>
        },
    decreases r,
{
    let len = line.len() as int;
    let rows = visual_lines_for_length(len, width);
    if r == 0 {
        assert(ascii_cells(line, base, base_byte, 0, 0) =~= Seq::<CellView>::empty());
    } else {
        let p = (r - 1) as nat;
        lemma_plain_row_start(line, base, base_byte, width, p);
        if p < rows {
            lemma_plain_row_count_step(len, width, p);
            let a = p * (width - 1);
            let k = if p == 0 { 0 } else { a + 2 };
            lemma_ascii_fill(line, base, base_byte, width, a, k);
            let f = fill(line, base, width, plain_row_state(line, base, base_byte, width, p));
            let m = if a + width + 1 < len { a + width + 1 } else { len };
            assert(f == ascii_state(line, base, base_byte, a, m));
            assert(row_continues(line, width, f) == (len - a > width));
            if len - a > width {
                let wp = wrap_point(f.cells, width);
                assert(f.cells.len() == width + 1);
                assert(f.cells[width - 1].text.len() == 1);
                assert(wp == width - 1);
                assert(r * (width - 1) == a + width - 1) by (nonlinear_arith)
                    requires
                        r == p + 1,
                        a == p * (width - 1),
                ;
                assert(f.cells.skip(wp) =~= ascii_cells(line, base, base_byte, a + width - 1, a + width + 1));
            }
        }
    }
}

/// A printable ASCII line lays out as `plain_row` says: its rows can be
/// indexed directly, without reading the line from its start, and agree
/// with the streaming layout.
pub proof fn lemma_plain_ascii_rows(line: Seq<char>, base: int, base_byte: int, width: int, r: nat)
    requires
        printable_ascii(line),
        width > 1,
    ensures
        visual_row(line, base, base_byte, width, r) == if r < visual_lines_for_length(
            line.len() as int,
            width,
        ) {
            Some(plain_row(line, base, base_byte, width, r))
        } else {
            None::<RowView>
        },
{
    let len = line.len() as int;
    lemma_plain_row_start(line, base, base_byte, width, r);
    if r < visual_lines_for_length(len, width) {
        lemma_plain_row_count_step(len, width, r);
        let a = r * (width - 1);
        let k = if r == 0 { 0 } else { a + 2 };
        lemma_ascii_fill(line, base, base_byte, width, a, k);
        let f = fill(line, base, width, plain_row_state(line, base, base_byte, width, r));
        if len - a > width {
            assert(f.cells.len() == width + 1);
            assert(f.cells[width - 1].text.len() == 1);
            assert(wrap_point(f.cells, width) == width - 1);
            assert(f.cells.take(width - 1) =~= ascii_cells(line, base, base_byte, a, a + width - 1));
        }
    }
}

/// The rows of a line of one-column chars of `len` chars at `width`
/// columns (above one).
fn plain_row_total(len: usize, width: usize) -> (n: usize)
    requires
        width > 1,
    ensures
        n == visual_lines_for_length(len as int, width as int),
        1 <= n <= len + 1,
{
    if len <= width {
        1
    } else {
        assert((len - 2) / ((width - 1) as int) <= len - 2) by (nonlinear_arith)
            requires
                width > 1,
                len >= 2,
        ;
        1 + (len - 2) / (width - 1)
    }
}

/// Whether laid-out row `row` shows a char at or after buffer char `target`.
pub open spec fn row_reaches(row: RowView, target: int) -> bool {
    exists|j: int| 0 <= j < row.cells.len() && #[trigger] row.cells[j].pos >= target
}

/// The first cell of `row` showing a char at or after `target`.
pub open spec fn first_reaching(row: RowView, target: int) -> int {
    choose|j: int|
        0 <= j < row.cells.len() && #[trigger] row.cells[j].pos >= target && forall|k: int|
            0 <= k < j ==> #[trigger] row.cells[k].pos < target
}

/// Whether row `r` of the line is where buffer char `target` is placed:
/// the row shows it (or a later char), or it is the last row and `target`
/// is the end of the line.
#[verifier::opaque]
pub open spec fn row_holds(line: Seq<char>, base: int, base_byte: int, width: int, target: int, r: nat) -> bool {
    match visual_row(line, base, base_byte, width, r) {
        Some(row) => row_reaches(row, target) || (!row.continues && target == base + line.len()),
        None => false,
    }
}

/// Whether a search for `target` row by row stops at row `r`: the row
/// holds it, or the line has ended.
#[verifier::opaque]
pub open spec fn search_stops(line: Seq<char>, base: int, base_byte: int, width: int, target: int, r: nat) -> bool {
    row_holds(line, base, base_byte, width, target, r) || visual_row(line, base, base_byte, width, r) is None
}

/// The first row where the search for `target` stops.
#[verifier::opaque]
pub open spec fn first_stop(line: Seq<char>, base: int, base_byte: int, width: int, target: int) -> nat {
    choose|r: nat|
        search_stops(line, base, base_byte, width, target, r) && forall|k: nat|
            k < r ==> !#[trigger] search_stops(line, base, base_byte, width, target, k)
}

/// The row and column of buffer column `buffer_col` worked out from the
/// line's visual width alone: `width - 1` columns per continued row, the
/// row capped at the line's last, and a position one past a full row's
/// last column wrapping to column 0 of the next row.
pub open spec fn row_col_by_width(line: Seq<char>, width: int, plain: bool, buffer_col: int) -> (int, int) {
    let len = line.len() as int;
    let b = if buffer_col < len { buffer_col } else { len };
    let vc = if plain { b } else { visual_width(line.take(b)) };
    let lvw = visual_width(line);
    let rc = if width > 1 && lvw > width {
        let last = visual_lines_for_length(lvw, width) - 1;
        let row = if vc / (width - 1) < last { vc / (width - 1) } else { last };
        (row, vc - row * (width - 1))
    } else {
        (0, vc)
    };
    if width > 0 && rc.1 >= width {
        (rc.0 + 1, 0)
    } else {
        rc
    }
}

/// Where the row-by-row search for buffer char `target` places it: in the
/// first row holding it, at the first cell showing it or a later char —
/// or, at the end of the last row, the column after its cells, wrapping to
/// the next row when the row is full; `None` when the line ends first.
#[verifier::opaque]
pub open spec fn search_result(line: Seq<char>, base: int, base_byte: int, width: int, target: int) -> Option<
    (int, int),
> {
    let r = first_stop(line, base, base_byte, width, target);
    if row_holds(line, base, base_byte, width, target, r) {
        let row = visual_row(line, base, base_byte, width, r)->0;
        Some(
            if row_reaches(row, target) {
                (r as int, first_reaching(row, target))
            } else if row.cells.len() >= width {
                (r + 1int, 0)
            } else {
                (r as int, row.cells.len() as int)
            },
        )
    } else {
        None
    }
}

/// The visual (row, column) of buffer column `buffer_col` of the line
/// (columns past the end count as the end): for a line laid out by the
/// streaming layout at a width above one, where the search places it (see
/// `search_result`); otherwise, or when the line ends first, by the line's
/// visual width.
pub open spec fn row_col_of(
    line: Seq<char>,
    base: int,
    base_byte: int,
    width: int,
    plain: bool,
    buffer_col: int,
) -> (int, int) {
    let len = line.len() as int;
    let target = base + if buffer_col < len {
        buffer_col
    } else {
        len
    };
    if !plain && width > 1 {
        match search_result(line, base, base_byte, width, target) {
            Some(rc) => rc,
            None => row_col_by_width(line, width, plain, buffer_col),
        }
    } else {
        row_col_by_width(line, width, plain, buffer_col)
    }
}

/// The buffer column (from the line start) that visual position
/// (`visual_row`, `visual_col`) of the line lands on: for a printable ASCII
/// line, the column that many cells into the row; otherwise, past the
/// last row the end of the line, at column 0 the row's first char, else
/// the column after the char of the cell before `visual_col` (capped at the
/// row's last cell and at the end of the line).
pub open spec fn col_at_position(
    line: Seq<char>,
    base: int,
    base_byte: int,
    width: int,
    plain: bool,
    visual_row: int,
    visual_col: int,
) -> int {
    let len = line.len() as int;
    if plain {
        let start = if visual_lines_for_length(len, width) == 1 {
            0
        } else {
            visual_row * (width - 1)
        };
        if start + visual_col < len {
            start + visual_col
        } else {
            len
        }
    } else {
        match crate::display::visual_row(line, base, base_byte, width, visual_row as nat) {
            None => len,
            Some(row) => if visual_col == 0 {
                if row.cells.len() > 0 {
                    row.cells[0].pos - base
                } else {
                    len
                }
            } else {
                let k = (if visual_col < row.cells.len() {
                    visual_col
                } else {
                    row.cells.len() as int
                }) - 1;
                if row.cells[k].pos - base + 1 < len {
                    row.cells[k].pos - base + 1
                } else {
                    len
                }
            },
        }
    }
}

/// Whether every cell of `cells` shows a char in `lo .. hi`.
pub open spec fn cells_within(cells: Seq<CellView>, lo: int, hi: int) -> bool {
    forall|j: int| 0 <= j < cells.len() ==> lo <= #[trigger] cells[j].pos < hi
}

proof fn lemma_extend_byte_end_keeps_positions(cells: Seq<CellView>, pos: int, byte_end: int, k: int)
    requires
        k <= cells.len(),
    ensures
        extend_byte_end(cells, pos, byte_end, k).len() == cells.len(),
        forall|j: int|
            0 <= j < cells.len() ==> (#[trigger] extend_byte_end(cells, pos, byte_end, k)[j]).pos
                == cells[j].pos && extend_byte_end(cells, pos, byte_end, k)[j].text == cells[j].text,
    decreases k,
{
    if k <= 0 || cells[k - 1].pos != pos {
    } else {
        let u = cells.update(
            k - 1,
            CellView {
                text: cells[k - 1].text,
                pos: cells[k - 1].pos,
                byte_start: cells[k - 1].byte_start,
                byte_end,
            },
        );
        lemma_extend_byte_end_keeps_positions(u, pos, byte_end, k - 1);
    }
}

proof fn lemma_last_drawn_bounds(cells: Seq<CellView>, k: int)
    requires
        k <= cells.len(),
    ensures
        last_drawn(cells, k) matches Some(i) ==> 0 <= i < k,
    decreases k,
{
    if k > 0 && cells[k - 1].text.len() == 0 {
        lemma_last_drawn_bounds(cells, k - 1);
    }
}

proof fn lemma_read_next_within(line: Seq<char>, base: int, st: LayoutState)
    requires
        st.next < line.len(),
        cells_within(st.cells, base, base + st.next),
    ensures
        cells_within(read_next(line, base, st).cells, base, base + st.next + 1),
{
    let c = line[st.next as int];
    let be = st.byte + utf8_len(c);
    let nx = read_next(line, base, st);
    if c == '\t' {
    } else if char_cols(c) == 0 {
        let cells = st.cells;
        lemma_last_drawn_bounds(cells, cells.len() as int);
        match last_drawn(cells, cells.len() as int) {
            None => {},
            Some(i) => {
                let joined = cells.update(
                    i,
                    CellView {
                        text: cells[i].text.push(c),
                        pos: cells[i].pos,
                        byte_start: cells[i].byte_start,
                        byte_end: cells[i].byte_end,
                    },
                );
                lemma_extend_byte_end_keeps_positions(joined, cells[i].pos, be, joined.len() as int);
                assert forall|j: int| 0 <= j < nx.cells.len() implies base <= #[trigger] nx.cells[j].pos
                    < base + st.next + 1 by {
                    assert(nx.cells[j].pos == joined[j].pos);
                    assert(joined[j].pos == cells[j].pos);
                }
            },
        }
    } else {
    }
}

proof fn lemma_fill_within(line: Seq<char>, base: int, width: int, st: LayoutState)
    requires
        st.next <= line.len(),
        cells_within(st.cells, base, base + st.next),
    ensures
        cells_within(fill(line, base, width, st).cells, base, base + fill(line, base, width, st).next),
        st.next <= fill(line, base, width, st).next <= line.len(),
    decreases line.len() - st.next,
{
    if st.cells.len() > width || st.next >= line.len() {
    } else {
        lemma_read_next_within(line, base, st);
        lemma_fill_within(line, base, width, read_next(line, base, st));
    }
}

proof fn lemma_row_start_within(line: Seq<char>, base: int, base_byte: int, width: int, r: nat)
    ensures
        row_start(line, base, base_byte, width, r) matches Some(st) ==> cells_within(
            st.cells,
            base,
            base + st.next,
        ) && st.next <= line.len(),
    decreases r,
{
    if r > 0 {
        lemma_row_start_within(line, base, base_byte, width, (r - 1) as nat);
        match row_start(line, base, base_byte, width, (r - 1) as nat) {
            None => {},
            Some(st) => {
                lemma_fill_within(line, base, width, st);
                let f = fill(line, base, width, st);
                let k = wrap_point(f.cells, width);
                assert(0 <= k <= f.cells.len());
                let rest = f.cells.skip(k);
                assert forall|j: int| 0 <= j < rest.len() implies base <= #[trigger] rest[j].pos < base
                    + f.next by {
                    assert(rest[j] == f.cells[j + k]);
                }
            },
        }
    }
}

/// Every cell of a laid-out row shows a char of the line.
pub proof fn lemma_row_cells_within(line: Seq<char>, base: int, base_byte: int, width: int, r: nat)
    ensures
        visual_row(line, base, base_byte, width, r) matches Some(row) ==> cells_within(
            row.cells,
            base,
            base + line.len(),
        ),
{
    if width != 0 {
        lemma_row_start_within(line, base, base_byte, width, r);
        match row_start(line, base, base_byte, width, r) {
            None => {},
            Some(st) => {
                lemma_fill_within(line, base, width, st);
                let f = fill(line, base, width, st);
                let k = wrap_point(f.cells, width);
                assert(0 <= k <= f.cells.len());
                let row = row_from(line, base, width, st);
                assert forall|j: int| 0 <= j < row.cells.len() implies base <= #[trigger] row.cells[j].pos
                    < base + line.len() by {
                    assert(row.cells[j] == f.cells[j]);
                }
            },
        }
    }
}

/// The search for `target` stops first at row `r` when it stops there and
/// at no row before.
proof fn lemma_first_stop_is(line: Seq<char>, base: int, base_byte: int, width: int, target: int, r: nat)
    requires
        search_stops(line, base, base_byte, width, target, r),
        forall|k: nat| k < r ==> !#[trigger] search_stops(line, base, base_byte, width, target, k),
    ensures
        first_stop(line, base, base_byte, width, target) == r,
{
    reveal(first_stop);
    let c = first_stop(line, base, base_byte, width, target);
    assert(search_stops(line, base, base_byte, width, target, c) && forall|k: nat|
        k < c ==> !#[trigger] search_stops(line, base, base_byte, width, target, k));
    if c < r {
        assert(!search_stops(line, base, base_byte, width, target, c));
    }
    if c > r {
        assert(!search_stops(line, base, base_byte, width, target, r));
    }
}

/// The first cell reaching `target` is the one before which none does.
proof fn lemma_first_reaching_is(row: RowView, target: int, j: int)
    requires
        0 <= j < row.cells.len(),
        row.cells[j].pos >= target,
        forall|k: int| 0 <= k < j ==> #[trigger] row.cells[k].pos < target,
    ensures
        row_reaches(row, target),
        first_reaching(row, target) == j,
{
    assert(row.cells[j].pos >= target);
    let f = first_reaching(row, target);
    assert(0 <= f < row.cells.len() && row.cells[f].pos >= target && forall|k: int|
        0 <= k < f ==> #[trigger] row.cells[k].pos < target);
    if f < j {
        assert(row.cells[f].pos < target);
    }
    if f > j {
        assert(row.cells[j].pos < target);
    }
}

/// A row that shows `target` (from cell `j` on) is where the search stops,
/// when it did not stop before.
proof fn lemma_search_found(
    line: Seq<char>,
    base: int,
    base_byte: int,
    width: int,
    target: int,
    r: nat,
    row: RowView,
    j: int,
)
    requires
        visual_row(line, base, base_byte, width, r) == Some(row),
        0 <= j < row.cells.len(),
        row.cells[j].pos >= target,
        forall|k: int| 0 <= k < j ==> #[trigger] row.cells[k].pos < target,
        forall|k: nat| k < r ==> !#[trigger] search_stops(line, base, base_byte, width, target, k),
    ensures
        search_result(line, base, base_byte, width, target) == Some((r as int, j)),
{
    reveal(search_result);
    reveal(row_holds);
    reveal(search_stops);
    lemma_first_reaching_is(row, target, j);
    assert(row_holds(line, base, base_byte, width, target, r));
    lemma_first_stop_is(line, base, base_byte, width, target, r);
}

/// The last row, when it shows no char at or after `target`, holds the end
/// of the line, or else the search finds nothing.
proof fn lemma_search_last_row(
    line: Seq<char>,
    base: int,
    base_byte: int,
    width: int,
    target: int,
    r: nat,
    row: RowView,
)
    requires
        visual_row(line, base, base_byte, width, r) == Some(row),
        !row.continues,
        row_start(line, base, base_byte, width, r + 1) is None,
        width > 0,
        forall|k: int| 0 <= k < row.cells.len() ==> #[trigger] row.cells[k].pos < target,
        forall|k: nat| k < r ==> !#[trigger] search_stops(line, base, base_byte, width, target, k),
    ensures
        target == base + line.len() ==> search_result(line, base, base_byte, width, target) == Some(
            if row.cells.len() >= width {
                (r + 1int, 0int)
            } else {
                (r as int, row.cells.len() as int)
            },
        ),
        target != base + line.len() ==> search_result(line, base, base_byte, width, target) is None,
{
    reveal(search_result);
    reveal(row_holds);
    reveal(search_stops);
    assert(!row_reaches(row, target));
    if target == base + line.len() {
        assert(row_holds(line, base, base_byte, width, target, r));
        lemma_first_stop_is(line, base, base_byte, width, target, r);
    } else {
        assert(!search_stops(line, base, base_byte, width, target, r));
        assert(visual_row(line, base, base_byte, width, r + 1) is None);
        assert(forall|k: nat| k < r + 1 ==> !#[trigger] search_stops(line, base, base_byte, width, target, k));
        lemma_first_stop_is(line, base, base_byte, width, target, r + 1);
    }
}

/// A continued row that shows no char at or after `target` does not stop
/// the search.
proof fn lemma_search_passes(
    line: Seq<char>,
    base: int,
    base_byte: int,
    width: int,
    target: int,
    r: nat,
    row: RowView,
)
    requires
        visual_row(line, base, base_byte, width, r) == Some(row),
        row.continues,
        forall|k: int| 0 <= k < row.cells.len() ==> #[trigger] row.cells[k].pos < target,
    ensures
        !search_stops(line, base, base_byte, width, target, r),
{
    reveal(row_holds);
    reveal(search_stops);
    assert(!row_reaches(row, target));
}

/// The index of the first cell of `row` showing `target` or a later char,
/// or the number of cells when none does.
fn first_cell_reaching(row: &VisualRow, target: usize) -> (j: usize)
    ensures
        j <= row@.cells.len(),
        forall|k: int| 0 <= k < j ==> #[trigger] row@.cells[k].pos < target,
        j < row@.cells.len() ==> row@.cells[j as int].pos >= target,
{
    let n = row.cells.len();
    let mut j: usize = 0;
    while j < n && row.cells[j].buffer_char_pos < target
        invariant
            n == row.cells@.len(),
            j <= n,
            forall|k: int| 0 <= k < j ==> #[trigger] row@.cells[k].pos < target,
        decreases n - j,
    {
        assert(row@.cells[j as int] == row.cells@[j as int]@);
        j += 1;
    }
    if j < n {
        assert(row@.cells[j as int] == row.cells@[j as int]@);
    }
    j
}

/// The buffer char at column `buffer_col` of a line of `len` chars starting
/// at buffer char `base` (columns past the end count as the end).
pub open spec fn col_char(base: int, len: int, buffer_col: int) -> int {
    base + if buffer_col < len {
        buffer_col
    } else {
        len
    }
}

/// Every empty cell (the right half of a wide glyph) directly follows the
/// drawn cell of its own glyph.
pub open spec fn glyphs_whole(cells: Seq<CellView>) -> bool {
    forall|j: int|
        0 <= j < cells.len() && (#[trigger] cells[j]).text.len() == 0 ==> j > 0 && cells[j - 1].pos
            == cells[j].pos && cells[j - 1].text.len() > 0
}

proof fn lemma_last_drawn_is_drawn(cells: Seq<CellView>, k: int)
    requires
        k <= cells.len(),
    ensures
        last_drawn(cells, k) matches Some(i) ==> 0 <= i < k && cells[i].text.len() > 0,
    decreases k,
{
    if k > 0 && cells[k - 1].text.len() == 0 {
        lemma_last_drawn_is_drawn(cells, k - 1);
    }
}

proof fn lemma_read_next_keeps_glyphs(line: Seq<char>, base: int, st: LayoutState)
    requires
        st.next < line.len(),
        glyphs_whole(st.cells),
    ensures
        glyphs_whole(read_next(line, base, st).cells),
{
    let c = line[st.next as int];
    let be = st.byte + utf8_len(c);
    let nx = read_next(line, base, st);
    let cells = st.cells;
    if c == '\t' {
        assert forall|j: int| 0 <= j < nx.cells.len() && (#[trigger] nx.cells[j]).text.len() == 0 implies j
            > 0 && nx.cells[j - 1].pos == nx.cells[j].pos && nx.cells[j - 1].text.len() > 0 by {
            assert(j < cells.len());
            assert(nx.cells[j] == cells[j]);
            assert(nx.cells[j - 1] == cells[j - 1]);
        }
    } else if char_cols(c) == 0 {
        lemma_last_drawn_is_drawn(cells, cells.len() as int);
        match last_drawn(cells, cells.len() as int) {
            None => {},
            Some(i) => {
                let joined = cells.update(
                    i,
                    CellView {
                        text: cells[i].text.push(c),
                        pos: cells[i].pos,
                        byte_start: cells[i].byte_start,
                        byte_end: cells[i].byte_end,
                    },
                );
                lemma_extend_byte_end_keeps_positions(joined, cells[i].pos, be, joined.len() as int);
                assert forall|j: int| 0 <= j < nx.cells.len() && (#[trigger] nx.cells[j]).text.len() == 0 implies j
                    > 0 && nx.cells[j - 1].pos == nx.cells[j].pos && nx.cells[j - 1].text.len() > 0 by {
                    assert(nx.cells[j].text == joined[j].text && nx.cells[j].pos == joined[j].pos);
                    assert(j != i);
                    assert(cells[j].text.len() == 0);
                    assert(nx.cells[j - 1].text == joined[j - 1].text && nx.cells[j - 1].pos == joined[j - 1].pos);
                }
            },
        }
    } else if char_cols(c) == 2 {
        assert forall|j: int| 0 <= j < nx.cells.len() && (#[trigger] nx.cells[j]).text.len() == 0 implies j
            > 0 && nx.cells[j - 1].pos == nx.cells[j].pos && nx.cells[j - 1].text.len() > 0 by {
            if j < cells.len() {
                assert(nx.cells[j] == cells[j]);
                assert(nx.cells[j - 1] == cells[j - 1]);
            } else {
                assert(j == cells.len() + 1);
            }
        }
    } else {
        assert forall|j: int| 0 <= j < nx.cells.len() && (#[trigger] nx.cells[j]).text.len() == 0 implies j
            > 0 && nx.cells[j - 1].pos == nx.cells[j].pos && nx.cells[j - 1].text.len() > 0 by {
            assert(j < cells.len());
            assert(nx.cells[j] == cells[j]);
            assert(nx.cells[j - 1] == cells[j - 1]);
        }
    }
}

proof fn lemma_fill_keeps_glyphs(line: Seq<char>, base: int, width: int, st: LayoutState)
    requires
        glyphs_whole(st.cells),
    ensures
        glyphs_whole(fill(line, base, width, st).cells),
    decreases line.len() - st.next,
{
    if st.cells.len() > width || st.next >= line.len() {
    } else {
        lemma_read_next_keeps_glyphs(line, base, st);
        lemma_fill_keeps_glyphs(line, base, width, read_next(line, base, st));
    }
}

/// At a width above one, the cells left over after a row's wrap point
/// start with a drawn cell, never with the right half of a wide glyph.
proof fn lemma_wrap_keeps_glyphs(cells: Seq<CellView>, width: int)
    requires
        width > 1,
        glyphs_whole(cells),
    ensures
        glyphs_whole(cells.skip(wrap_point(cells, width))),
        glyphs_whole(cells.take(wrap_point(cells, width))),
{
    let k = wrap_point(cells, width);
    assert(0 <= k <= cells.len());
    let rest = cells.skip(k);
    if k < cells.len() {
        assert(cells[k].text.len() > 0);
    }
    assert forall|j: int| 0 <= j < rest.len() && (#[trigger] rest[j]).text.len() == 0 implies j > 0
        && rest[j - 1].pos == rest[j].pos && rest[j - 1].text.len() > 0 by {
        assert(rest[j] == cells[j + k]);
        assert(rest[j - 1] == cells[j + k - 1]);
    }
    let front = cells.take(k);
    assert forall|j: int| 0 <= j < front.len() && (#[trigger] front[j]).text.len() == 0 implies j > 0
        && front[j - 1].pos == front[j].pos && front[j - 1].text.len() > 0 by {
        assert(front[j] == cells[j]);
        assert(front[j - 1] == cells[j - 1]);
    }
}

proof fn lemma_row_start_keeps_glyphs(line: Seq<char>, base: int, base_byte: int, width: int, r: nat)
    requires
        width > 1,
    ensures
        row_start(line, base, base_byte, width, r) matches Some(st) ==> glyphs_whole(st.cells),
    decreases r,
{
    if r > 0 {
        lemma_row_start_keeps_glyphs(line, base, base_byte, width, (r - 1) as nat);
        match row_start(line, base, base_byte, width, (r - 1) as nat) {
            None => {},
            Some(st) => {
                lemma_fill_keeps_glyphs(line, base, width, st);
                lemma_wrap_keeps_glyphs(fill(line, base, width, st).cells, width);
            },
        }
    }
}

/// A wide glyph is never split across rows: at a width above one, every
/// empty cell of a row (the right half of a wide glyph) directly follows
/// the drawn cell of its own glyph in the same row, so a glyph that would
/// straddle the wrap point moves whole to the next row.
pub proof fn lemma_rows_keep_wide_glyphs_whole(
    line: Seq<char>,
    base: int,
    base_byte: int,
    width: int,
    r: nat,
)
    requires
        width > 1,
        visual_row(line, base, base_byte, width, r) is Some,
    ensures
        glyphs_whole(visual_row(line, base, base_byte, width, r)->0.cells),
{
    lemma_row_start_keeps_glyphs(line, base, base_byte, width, r);
    let st = row_start(line, base, base_byte, width, r)->0;
    lemma_fill_keeps_glyphs(line, base, width, st);
    lemma_wrap_keeps_glyphs(fill(line, base, width, st).cells, width);
}

/// How much of a line the streaming layout has still to place, from a
/// layout state: at most four cells per char left to read, plus the cells
/// pending.
pub open spec fn layout_measure(line: Seq<char>, st: LayoutState) -> int {
    4 * (line.len() - st.next) + st.cells.len()
}

proof fn lemma_read_next_measure(line: Seq<char>, base: int, st: LayoutState)
    requires
        st.next < line.len(),
    ensures
        read_next(line, base, st).next == st.next + 1,
        read_next(line, base, st).cells.len() <= st.cells.len() + 4,
{
    let c = line[st.next as int];
    let be = st.byte + utf8_len(c);
    if c == '\t' {
        assert(0 <= st.col % 4 < 4);
    } else if char_cols(c) == 0 {
        let cells = st.cells;
        lemma_last_drawn_bounds(cells, cells.len() as int);
        match last_drawn(cells, cells.len() as int) {
            None => {},
            Some(i) => {
                let joined = cells.update(
                    i,
                    CellView {
                        text: cells[i].text.push(c),
                        pos: cells[i].pos,
                        byte_start: cells[i].byte_start,
                        byte_end: cells[i].byte_end,
                    },
                );
                lemma_extend_byte_end_keeps_positions(joined, cells[i].pos, be, joined.len() as int);
            },
        }
    }
}

proof fn lemma_fill_measure(line: Seq<char>, base: int, width: int, st: LayoutState)
    requires
        st.next <= line.len(),
    ensures
        layout_measure(line, fill(line, base, width, st)) <= layout_measure(line, st),
        fill(line, base, width, st).next <= line.len(),
        fill(line, base, width, st).cells.len() > width || fill(line, base, width, st).next
            == line.len(),
    decreases line.len() - st.next,
{
    if st.cells.len() > width || st.next >= line.len() {
    } else {
        lemma_read_next_measure(line, base, st);
        lemma_fill_measure(line, base, width, read_next(line, base, st));
    }
}

/// Each continued row places at least one cell, except at width 2, where a
/// wide glyph at the start of a row never fits.
proof fn lemma_row_start_measure(line: Seq<char>, base: int, base_byte: int, width: int, r: nat)
    requires
        width == 1 || width >= 3,
    ensures
        row_start(line, base, base_byte, width, r) matches Some(st) ==> st.next <= line.len()
            && layout_measure(line, st) + r <= 4 * line.len(),
    decreases r,
{
    if r > 0 {
        lemma_row_start_measure(line, base, base_byte, width, (r - 1) as nat);
        match row_start(line, base, base_byte, width, (r - 1) as nat) {
            None => {},
            Some(st) => {
                lemma_fill_measure(line, base, width, st);
                let f = fill(line, base, width, st);
                if row_continues(line, width, f) {
                    assert(f.cells.len() > width);
                    let k = wrap_point(f.cells, width);
                    assert(k >= 1);
                    assert(f.cells.skip(k).len() == f.cells.len() - k);
                }
            },
        }
    }
}

/// At widths other than 2, the streaming layout of a line ends within
/// `4 * len + 1` rows.
pub proof fn lemma_layout_ends(line: Seq<char>, base: int, base_byte: int, width: int)
    requires
        width == 1 || width >= 3,
    ensures
        row_start(line, base, base_byte, width, (4 * line.len() + 1) as nat) is None,
        visual_row(line, base, base_byte, width, (4 * line.len() + 1) as nat) is None,
{
    let r = (4 * line.len() + 1) as nat;
    lemma_row_start_measure(line, base, base_byte, width, r);
    if let Some(st) = row_start(line, base, base_byte, width, r) {
        assert(layout_measure(line, st) >= 0);
    }
}

/// At widths other than 2, the row-by-row search for any char stops by
/// row `4 * len + 1`.
proof fn lemma_search_stops_by(line: Seq<char>, base: int, base_byte: int, width: int, target: int)
    requires
        width >= 3,
    ensures
        search_stops(line, base, base_byte, width, target, (4 * line.len() + 1) as nat),
{
    reveal(search_stops);
    lemma_layout_ends(line, base, base_byte, width);
}

/// The display geometry of one buffer line at a text width. Printable ASCII
/// lines (at widths above one) take one cell per char, so their positions
/// and rows are indexed directly; other lines go through the streaming
/// layout.
pub struct VisualLineLayout<'a> {
    pub buf: &'a Buffer,
    pub line_idx: usize,
    pub text_width: usize,
    pub line_start_char: usize,
    pub line_start_byte: usize,
    pub line_len: usize,
    pub plain_ascii: bool,
}

impl<'a> VisualLineLayout<'a> {
    /// The chars of the line, without its line break.
    pub open spec fn line(&self) -> Seq<char> {
        self.buf.chars().subrange(
            self.line_start_char as int,
            (self.line_start_char + self.line_len) as int,
        )
    }

    /// The buffer char at column `buffer_col` of the line (columns past the
    /// end count as the end).
    pub open spec fn char_at_col(&self, buffer_col: int) -> int {
        col_char(self.line_start_char as int, self.line_len as int, buffer_col)
    }

    /// The fields describe line `line_idx` of the buffer.
    pub open spec fn wf(&self) -> bool {
        let s = self.buf.chars();
        &&& (self.line_idx as nat) < line_count_of(s)
        &&& self.line_start_char == line_start(s, self.line_idx as nat)
        &&& self.line_len == line_len(s, self.line_idx as nat)
        &&& self.line_start_byte == utf8_len_of(s.take(self.line_start_char as int))
        &&& self.plain_ascii == (self.text_width > 1 && printable_ascii(self.line()))
    }

    /// The layout of line `line_idx` of `buf` at `text_width` columns.
    pub fn new(buf: &'a Buffer, line_idx: usize, text_width: usize) -> (l: Self)
        requires
            (line_idx as nat) < line_count_of(buf.chars()),
        ensures
            l.wf(),
            l.buf == buf,
            l.line_idx == line_idx,
            l.text_width == text_width,
    {
        let line_start_char = buf.line_col_to_char(line_idx, 0);
        let line_len = buf.line_len_chars(line_idx);
        proof {
            crate::buffer::lemma_line_start_bounds(buf.chars(), line_idx as nat);
        }
        let line_start_byte = buf.char_to_byte(line_start_char);
        let plain_ascii = text_width > 1 && line_is_printable_ascii(buf, line_idx);
        VisualLineLayout {
            buf,
            line_idx,
            text_width,
            line_start_char,
            line_start_byte,
            line_len,
            plain_ascii,
        }
    }

    /// The visual width of the line.
    pub fn visual_width(&self) -> (w: usize)
        requires
            self.wf(),
            self.buf.chars().len() <= usize::MAX / 4,
        ensures
            w == visual_width(self.line()),
    {
        proof {
            crate::buffer::lemma_line_start_bounds(self.buf.chars(), self.line_idx as nat);
        }
        if self.plain_ascii {
            proof {
                lemma_printable_ascii_width(self.line());
            }
            self.line_len
        } else {
            line_visual_width(self.buf, self.line_idx)
        }
    }
    /// The one-cell-per-char cells of chars `start .. start + n` of a
    /// printable ASCII line.
    fn plain_cells(&self, start: usize, n: usize) -> (v: Vec<VisualCell>)
        requires
            self.wf(),
            self.plain_ascii,
            start + n <= self.line_len,
            8 * self.buf.chars().len() + INDENT_WIDTH <= usize::MAX,
        ensures
            cell_views(v@) == ascii_cells(
                self.line(),
                self.line_start_char as int,
                self.line_start_byte as int,
                start as int,
                (start + n) as int,
            ),
    {
        let ghost s = self.buf.chars();
        proof {
            crate::buffer::lemma_line_start_bounds(s, self.line_idx as nat);
            crate::text::lemma_utf8_len_bounds(s.take(self.line_start_char as int));
        }
        let first = self.line_start_char + start;
        let text = self.buf.slice_string(first, first + n);
        let cs = chars_of(text.as_str());
        let mut v: Vec<VisualCell> = Vec::new();
        let mut i: usize = 0;
        assert(cell_views(v@) =~= ascii_cells(
            self.line(),
            self.line_start_char as int,
            self.line_start_byte as int,
            start as int,
            start as int,
        ));
        while i < n
            invariant
                self.wf(),
                s == self.buf.chars(),
                first == self.line_start_char + start,
                start + n <= self.line_len,
                self.line_start_char + self.line_len <= s.len(),
                self.line_start_byte <= 4 * self.line_start_char,
                8 * s.len() + INDENT_WIDTH <= usize::MAX,
                cs@ == s.subrange(first as int, (first + n) as int),
                i <= n,
                cell_views(v@) == ascii_cells(
                    self.line(),
                    self.line_start_char as int,
                    self.line_start_byte as int,
                    start as int,
                    (start + i) as int,
                ),
            decreases n - i,
        {
            let pos = first + i;
            let b = self.line_start_byte + start + i;
            let ghost before = cell_views(v@);
            let cell = make_cell(char_string(cs[i]), pos, b, b + 1);
            assert(cs@[i as int] == self.line()[start + i]);
            v.push(cell);
            assert(cell_views(v@) =~= before.push(cell@));
            assert(cell_views(v@) =~= ascii_cells(
                self.line(),
                self.line_start_char as int,
                self.line_start_byte as int,
                start as int,
                (start + i + 1) as int,
            ));
            i += 1;
        }
        v
    }

    /// The rows `skip_rows ..` (at most `max_rows`) of the line, exactly as
    /// the streaming layout lays them out (see `visible_visual_rows`); a
    /// printable ASCII line's rows are cut straight from the text.
    pub fn visible_rows(&self, skip_rows: usize, max_rows: usize) -> (res: VisibleVisualRows)
        requires
            self.wf(),
            8 * self.buf.chars().len() + INDENT_WIDTH <= usize::MAX,
            skip_rows + max_rows <= usize::MAX,
        ensures
            ({
                let line = self.line();
                let base = self.line_start_char as int;
                let bb = self.line_start_byte as int;
                let w = self.text_width as int;
                &&& max_rows == 0 ==> res.rows@.len() == 0 && !res.exhausted
                &&& max_rows > 0 ==> {
                    &&& res.rows@.len() <= max_rows
                    &&& forall|i: int|
                        0 <= i < res.rows@.len() ==> visual_row(line, base, bb, w, (skip_rows + i) as nat)
                            == Some(#[trigger] res.rows@[i]@)
                    &&& res.rows@.len() < max_rows ==> visual_row(
                        line,
                        base,
                        bb,
                        w,
                        (skip_rows + res.rows@.len()) as nat,
                    ) is None
                    &&& res.exhausted == visual_row(
                        line,
                        base,
                        bb,
                        w,
                        (skip_rows + res.rows@.len()) as nat,
                    ) is None
                }
            }),
    {
        if !self.plain_ascii {
            return streamed_line_rows(self.buf, self.line_idx, self.text_width, skip_rows, max_rows);
        }
        let ghost line = self.line();
        let ghost base = self.line_start_char as int;
        let ghost bb = self.line_start_byte as int;
        let ghost w = self.text_width as int;
        proof {
            crate::buffer::lemma_line_start_bounds(self.buf.chars(), self.line_idx as nat);
        }
        if max_rows == 0 {
            return VisibleVisualRows { rows: Vec::new(), exhausted: false };
        }
        let len = self.line_len;
        let tw = self.text_width;
        let total = plain_row_total(len, tw);
        if skip_rows >= total {
            proof {
                lemma_plain_ascii_rows(line, base, bb, w, skip_rows as nat);
            }
            return VisibleVisualRows { rows: Vec::new(), exhausted: true };
        }
        let chars_per_segment = tw - 1;
        let end = if total - skip_rows < max_rows {
            total
        } else {
            skip_rows + max_rows
        };
        let mut rows: Vec<VisualRow> = Vec::new();
        let mut row_index = skip_rows;
        while row_index < end
            invariant
                self.wf(),
                self.plain_ascii,
                8 * self.buf.chars().len() + INDENT_WIDTH <= usize::MAX,
                line == self.line(),
                base == self.line_start_char as int,
                bb == self.line_start_byte as int,
                w == tw as int,
                tw == self.text_width,
                tw > 1,
                len == self.line_len,
                line.len() == len,
                chars_per_segment == tw - 1,
                total == visual_lines_for_length(len as int, w),
                skip_rows <= row_index <= end <= total,
                end - skip_rows <= max_rows,
                rows@.len() == row_index - skip_rows,
                forall|i: int|
                    0 <= i < rows@.len() ==> visual_row(line, base, bb, w, (skip_rows + i) as nat)
                        == Some(#[trigger] rows@[i]@),
            decreases end - row_index,
        {
            proof {
                lemma_plain_row_count_step(len as int, w, row_index as nat);
                lemma_plain_ascii_rows(line, base, bb, w, row_index as nat);
            }
            let start = if total == 1 {
                0
            } else {
                row_index * chars_per_segment
            };
            assert(start == row_index * (w - 1));
            let remaining = len - start;
            let continues = remaining > tw;
            let n = if continues {
                chars_per_segment
            } else {
                remaining
            };
            let cells = self.plain_cells(start, n);
            let row = VisualRow { cells, continues };
            assert(row@ == plain_row(line, base, bb, w, row_index as nat));
            rows.push(row);
            assert(rows@[rows@.len() - 1]@ == row@);
            row_index += 1;
        }
        proof {
            lemma_plain_ascii_rows(line, base, bb, w, (skip_rows + rows@.len()) as nat);
        }
        let exhausted = skip_rows + rows.len() == total;
        VisibleVisualRows { rows, exhausted }
    }
    /// The buffer column (from the line start) that visual position
    /// (`visual_row`, `visual_col`) of the line lands on (see
    /// `col_at_position`).
    pub fn buffer_col_at(&self, visual_row: usize, visual_col: usize) -> (col: usize)
        requires
            self.wf(),
            8 * self.buf.chars().len() + INDENT_WIDTH <= usize::MAX,
            visual_row < usize::MAX,
            !self.plain_ascii && visual_col > 0 ==> match crate::display::visual_row(
                self.line(),
                self.line_start_char as int,
                self.line_start_byte as int,
                self.text_width as int,
                visual_row as nat,
            ) {
                Some(row) => row.cells.len() > 0,
                None => true,
            },
        ensures
            col == col_at_position(
                self.line(),
                self.line_start_char as int,
                self.line_start_byte as int,
                self.text_width as int,
                self.plain_ascii,
                visual_row as int,
                visual_col as int,
            ),
    {
        proof {
            crate::buffer::lemma_line_start_bounds(self.buf.chars(), self.line_idx as nat);
        }
        let len = self.line_len;
        if self.plain_ascii {
            let total = plain_row_total(len, self.text_width);
            let start = if total == 1 {
                Some(0)
            } else {
                visual_row.checked_mul(self.text_width - 1)
            };
            return match start {
                Some(st) => {
                    let r = st.saturating_add(visual_col);
                    if r < len {
                        r
                    } else {
                        len
                    }
                },
                None => len,
            };
        }
        let ghost line = self.line();
        let ghost base = self.line_start_char as int;
        let ghost bb = self.line_start_byte as int;
        let ghost w = self.text_width as int;
        let visible = streamed_line_rows(self.buf, self.line_idx, self.text_width, visual_row, 1);
        if visible.rows.len() == 0 {
            assert(crate::display::visual_row(line, base, bb, w, visual_row as nat) is None);
            return len;
        }
        let row = &visible.rows[0];
        assert(crate::display::visual_row(line, base, bb, w, (visual_row + 0) as nat) == Some(
            visible.rows@[0]@,
        ));
        assert(crate::display::visual_row(line, base, bb, w, visual_row as nat) == Some(row@));
        proof {
            lemma_row_cells_within(
                self.line(),
                self.line_start_char as int,
                self.line_start_byte as int,
                self.text_width as int,
                visual_row as nat,
            );
        }
        let n = row.cells.len();
        if visual_col == 0 {
            if n > 0 {
                assert(row@.cells[0] == row.cells@[0]@);
                assert(base <= row@.cells[0].pos);
                return row.cells[0].buffer_char_pos - self.line_start_char;
            }
            return len;
        }
        let k = (if visual_col < n {
            visual_col
        } else {
            n
        }) - 1;
        assert(row@.cells[k as int] == row.cells@[k as int]@);
        assert(base <= row@.cells[k as int].pos < base + line.len());
        let c = row.cells[k].buffer_char_pos - self.line_start_char + 1;
        if c < len {
            c
        } else {
            len
        }
    }
    /// The (row, column) of buffer column `buffer_col` worked out from the
    /// line's visual width (see `row_col_by_width`).
    fn row_col_from_width(&self, buffer_col: usize) -> (rc: (usize, usize))
        requires
            self.wf(),
            8 * self.buf.chars().len() + INDENT_WIDTH <= usize::MAX,
        ensures
            (rc.0 as int, rc.1 as int) == row_col_by_width(
                self.line(),
                self.text_width as int,
                self.plain_ascii,
                buffer_col as int,
            ),
    {
        proof {
            crate::buffer::lemma_line_start_bounds(self.buf.chars(), self.line_idx as nat);
        }
        let len = self.line_len;
        let tw = self.text_width;
        let b = if buffer_col < len {
            buffer_col
        } else {
            len
        };
        let vc = if self.plain_ascii {
            b
        } else {
            let chars = line_chars_without_ending(self.buf, self.line_idx);
            visual_col_for_buffer_col(chars.as_slice(), buffer_col)
        };
        let lvw = self.visual_width();
        let (row, col) = if tw > 1 && lvw > tw {
            let chars_per_segment = tw - 1;
            let last_row = plain_row_total(lvw, tw) - 1;
            let q = vc / chars_per_segment;
            let row = if q < last_row {
                q
            } else {
                last_row
            };
            assert(row * chars_per_segment <= vc) by (nonlinear_arith)
                requires
                    row <= q,
                    q == vc / chars_per_segment,
                    chars_per_segment > 0,
            ;
            (row, vc - row * chars_per_segment)
        } else {
            (0, vc)
        };
        assert(row <= lvw);
        if tw > 0 && col >= tw {
            (row + 1, 0)
        } else {
            (row, col)
        }
    }

    /// Searches the streamed rows for buffer char `target`: the row and
    /// column where the first row holding it places it, or `None` when the
    /// line ends first.
    fn search_row_col(&self, target: usize, Ghost(bound): Ghost<nat>) -> (res: Option<(usize, usize)>)
        requires
            self.wf(),
            !self.plain_ascii,
            self.text_width > 1,
            8 * self.buf.chars().len() + INDENT_WIDTH <= usize::MAX,
            self.line_start_char <= target <= self.line_start_char + self.line_len,
            bound < usize::MAX,
            search_stops(
                self.line(),
                self.line_start_char as int,
                self.line_start_byte as int,
                self.text_width as int,
                target as int,
                bound,
            ),
        ensures
            search_result(
                self.line(),
                self.line_start_char as int,
                self.line_start_byte as int,
                self.text_width as int,
                target as int,
            ) == match res {
                Option::None => Option::<(int, int)>::None,
                Option::Some(rc) => Option::Some((rc.0 as int, rc.1 as int)),
            },
    {
        let ghost line = self.line();
        let ghost base = self.line_start_char as int;
        let ghost bb = self.line_start_byte as int;
        let ghost w = self.text_width as int;
        let ghost t = target as int;
        let ghost s = self.buf.chars();
        proof {
            crate::buffer::lemma_line_start_bounds(s, self.line_idx as nat);
            crate::text::lemma_utf8_len_bounds(s.take(self.line_start_char as int));
        }
        let len = self.line_len;
        let tw = self.text_width;
        let chars = line_chars_without_ending(self.buf, self.line_idx);
        let mut carry: Vec<VisualCell> = Vec::new();
        let mut next: usize = 0;
        let mut col: usize = 0;
        let mut byte: usize = self.line_start_byte;
        let mut row_index: usize = 0;
        assert(cell_views(carry@) =~= Seq::<CellView>::empty());
        loop
            invariant
                chars@ == line,
                line == self.line(),
                tw == self.text_width,
                len == self.line_len,
                line.len() == len,
                base == self.line_start_char as int,
                bb == self.line_start_byte as int,
                w == tw as int,
                tw > 1,
                self.line_start_char + len <= s.len(),
                self.line_start_byte <= 4 * self.line_start_char,
                8 * s.len() + INDENT_WIDTH <= usize::MAX,
                t == target as int,
                bound < usize::MAX,
                search_stops(line, base, bb, w, t, bound),
                row_start(line, base, bb, w, row_index as nat) == Some(
                    LayoutState {
                        next: next as nat,
                        cells: cell_views(carry@),
                        col: col as int,
                        byte: byte as int,
                    },
                ),
                next <= len,
                col <= 4 * next,
                byte <= self.line_start_byte + 4 * next,
                forall|k: nat| k < row_index ==> !#[trigger] search_stops(line, base, bb, w, t, k),
                row_index <= bound,
            decreases bound - row_index,
        {
            let (row, carry2, next2, col2, byte2) = layout_next_row(
                chars.as_slice(),
                self.line_start_char,
                self.line_start_byte,
                tw,
                carry,
                next,
                col,
                byte,
                Ghost(row_index as nat),
            );
            let ghost rv = row@;
            let n = row.cells.len();
            let j = first_cell_reaching(&row, target);
            if j < n {
                proof {
                    lemma_search_found(line, base, bb, w, t, row_index as nat, rv, j as int);
                }
                return Some((row_index, j));
            }
            if !row.continues {
                proof {
                    lemma_search_last_row(line, base, bb, w, t, row_index as nat, rv);
                }
                if target == self.line_start_char + len {
                    if n >= tw {
                        return Some((row_index + 1, 0));
                    }
                    return Some((row_index, n));
                }
                return None;
            }
            proof {
                lemma_search_passes(line, base, bb, w, t, row_index as nat, rv);
            }
            carry = carry2;
            next = next2;
            col = col2;
            byte = byte2;
            row_index += 1;
        }
    }

    /// The visual (row, column) of buffer column `buffer_col` within the
    /// line's own rows (see `row_col_of`); a position at the end of a full
    /// row lands at column 0 of the row after it. At width 2 a wide glyph
    /// never fits a row, and a line that the streaming layout never
    /// finishes placing would keep the search going forever: there
    /// `requires` asks that the search stops at a row whose index fits in
    /// `usize` (at every other width it does, see `lemma_layout_ends`).
    pub fn row_col(&self, buffer_col: usize) -> (rc: (usize, usize))
        requires
            self.wf(),
            8 * self.buf.chars().len() + INDENT_WIDTH <= usize::MAX,
            !self.plain_ascii && self.text_width == 2 ==> exists|r: nat|
                r < usize::MAX && #[trigger] search_stops(
                    self.line(),
                    self.line_start_char as int,
                    self.line_start_byte as int,
                    self.text_width as int,
                    self.char_at_col(buffer_col as int),
                    r,
                ),
        ensures
            (rc.0 as int, rc.1 as int) == row_col_of(
                self.line(),
                self.line_start_char as int,
                self.line_start_byte as int,
                self.text_width as int,
                self.plain_ascii,
                buffer_col as int,
            ),
    {
        proof {
            crate::buffer::lemma_line_start_bounds(self.buf.chars(), self.line_idx as nat);
        }
        let len = self.line_len;
        if !self.plain_ascii && self.text_width > 1 {
            let target = self.line_start_char + if buffer_col < len {
                buffer_col
            } else {
                len
            };
            let ghost t = target as int;
            assert(t == self.char_at_col(buffer_col as int));
            let ghost bound: nat = if self.text_width == 2 {
                choose|r: nat|
                    r < usize::MAX && #[trigger] search_stops(
                        self.line(),
                        self.line_start_char as int,
                        self.line_start_byte as int,
                        self.text_width as int,
                        t,
                        r,
                    )
            } else {
                (4 * len + 1) as nat
            };
            proof {
                if self.text_width != 2 {
                    lemma_search_stops_by(
                        self.line(),
                        self.line_start_char as int,
                        self.line_start_byte as int,
                        self.text_width as int,
                        t,
                    );
                }
            }
            match self.search_row_col(target, Ghost(bound)) {
                Some(rc) => {
                    return rc;
                },
                None => {},
            }
        }
        self.row_col_from_width(buffer_col)
    }
}

/// The chars of line `l` of `s`, without its line break.
pub open spec fn line_chars(s: Seq<char>, l: nat) -> Seq<char> {
    s.subrange(line_start(s, l) as int, (line_start(s, l) + line_len(s, l)) as int)
}

/// The rows `skip_rows ..` (at most `max_rows`) of line `line_idx` of `buf`
/// laid out in rows of `text_width` columns (see
/// `VisualLineLayout::visible_rows`).
pub fn visible_visual_rows(
    buf: &Buffer,
    line_idx: usize,
    text_width: usize,
    skip_rows: usize,
    max_rows: usize,
) -> (res: VisibleVisualRows)
    requires
        (line_idx as nat) < line_count_of(buf.chars()),
        8 * buf.chars().len() + INDENT_WIDTH <= usize::MAX,
        skip_rows + max_rows <= usize::MAX,
    ensures
        ({
            let s = buf.chars();
            let line = line_chars(s, line_idx as nat);
            let base = line_start(s, line_idx as nat) as int;
            let bb = utf8_len_of(s.take(base));
            let w = text_width as int;
            &&& max_rows == 0 ==> res.rows@.len() == 0 && !res.exhausted
            &&& max_rows > 0 ==> {
                &&& res.rows@.len() <= max_rows
                &&& forall|i: int|
                    0 <= i < res.rows@.len() ==> visual_row(line, base, bb, w, (skip_rows + i) as nat)
                        == Some(#[trigger] res.rows@[i]@)
                &&& res.rows@.len() < max_rows ==> visual_row(
                    line,
                    base,
                    bb,
                    w,
                    (skip_rows + res.rows@.len()) as nat,
                ) is None
                &&& res.exhausted == visual_row(
                    line,
                    base,
                    bb,
                    w,
                    (skip_rows + res.rows@.len()) as nat,
                ) is None
            }
        }),
{
    VisualLineLayout::new(buf, line_idx, text_width).visible_rows(skip_rows, max_rows)
}

/// The visual (row, column) of buffer column `buffer_col` of line
/// `line_idx` of `buf` within the line's own rows at `text_width` columns
/// (see `VisualLineLayout::row_col`).
pub fn visual_row_col_in_line(buf: &Buffer, line_idx: usize, buffer_col: usize, text_width: usize) -> (rc: (
    usize,
    usize,
))
    requires
        (line_idx as nat) < line_count_of(buf.chars()),
        8 * buf.chars().len() + INDENT_WIDTH <= usize::MAX,
        ({
            let s = buf.chars();
            let line = line_chars(s, line_idx as nat);
            let base = line_start(s, line_idx as nat) as int;
            let plain = text_width > 1 && printable_ascii(line);
            !plain && text_width == 2 ==> exists|r: nat|
                r < usize::MAX && #[trigger] search_stops(
                    line,
                    base,
                    utf8_len_of(s.take(base)),
                    text_width as int,
                    col_char(base, line.len() as int, buffer_col as int),
                    r,
                )
        }),
    ensures
        ({
            let s = buf.chars();
            let line = line_chars(s, line_idx as nat);
            let base = line_start(s, line_idx as nat) as int;
            (rc.0 as int, rc.1 as int) == row_col_of(
                line,
                base,
                utf8_len_of(s.take(base)),
                text_width as int,
                text_width > 1 && printable_ascii(line),
                buffer_col as int,
            )
        }),
{
    let layout = VisualLineLayout::new(buf, line_idx, text_width);
    proof {
        crate::buffer::lemma_line_start_bounds(buf.chars(), line_idx as nat);
        let line = line_chars(buf.chars(), line_idx as nat);
        assert(layout.line() == line);
        assert(layout.char_at_col(buffer_col as int) == col_char(
            layout.line_start_char as int,
            line.len() as int,
            buffer_col as int,
        ));
    }
    layout.row_col(buffer_col)
}

/// The buffer column (from the line start) that visual position
/// (`visual_row`, `visual_col`) of line `line_idx` of `buf` lands on at
/// `text_width` columns (see `VisualLineLayout::buffer_col_at`).
pub fn buffer_col_for_visual_position(
    buf: &Buffer,
    line_idx: usize,
    visual_row: usize,
    visual_col: usize,
    text_width: usize,
) -> (col: usize)
    requires
        (line_idx as nat) < line_count_of(buf.chars()),
        8 * buf.chars().len() + INDENT_WIDTH <= usize::MAX,
        visual_row < usize::MAX,
        ({
            let s = buf.chars();
            let line = line_chars(s, line_idx as nat);
            let base = line_start(s, line_idx as nat) as int;
            let plain = text_width > 1 && printable_ascii(line);
            !plain && visual_col > 0 ==> match crate::display::visual_row(
                line,
                base,
                utf8_len_of(s.take(base)),
                text_width as int,
                visual_row as nat,
            ) {
                Some(row) => row.cells.len() > 0,
                None => true,
            }
        }),
    ensures
        ({
            let s = buf.chars();
            let line = line_chars(s, line_idx as nat);
            let base = line_start(s, line_idx as nat) as int;
            col == col_at_position(
                line,
                base,
                utf8_len_of(s.take(base)),
                text_width as int,
                text_width > 1 && printable_ascii(line),
                visual_row as int,
                visual_col as int,
            )
        }),
{
    VisualLineLayout::new(buf, line_idx, text_width).buffer_col_at(visual_row, visual_col)
}

} // verus!
