//! The editing rules of the editor, as functions of a buffer and a pane's
//! point and mark: word motion, killing to the end of a line, the
//! indentation a new line copies, indenting and dedenting a line or the
//! region, recentering, and how pasted text is normalized.
use vstd::prelude::*;

use crate::buffer::{
    count_newlines, grapheme_boundary_after, grapheme_boundary_before, is_grapheme_boundary,
    line_break_len, line_count_of, line_len, line_start, Buffer,
};
use crate::text::{chars_of, push_char, string_of};

verus! {

/// What std's `char::is_alphanumeric` says of `c`.
pub uninterp spec fn alphanumeric(c: char) -> bool;

/// `char::is_alphanumeric` of std: whether `c` is alphabetic or numeric in
/// Unicode. Among ASCII chars these are exactly the letters and digits; for
/// other chars the answer is left to the name.
#[verifier::external_body]
fn is_alphanumeric(c: char) -> (b: bool)
    ensures
        b == alphanumeric(c),
        (c as u32) < 0x80 ==> (b <==> ((0x61 <= (c as u32) && (c as u32) <= 0x7a) || (0x41 <= (
        c as u32) && (c as u32) <= 0x5a) || (0x30 <= (c as u32) && (c as u32) <= 0x39))),
{
    c.is_alphanumeric()
}

/// A char that words are made of: alphanumeric, or `_`.
pub open spec fn word_char(c: char) -> bool {
    alphanumeric(c) || c == '_'
}

/// Whether `c` is a word char. Among ASCII chars these are exactly the
/// letters, the digits and `_`: punctuation and spaces end a word.
pub fn is_word_char(c: char) -> (b: bool)
    ensures
        b == word_char(c),
        (c as u32) < 0x80 ==> (b <==> ((0x61 <= (c as u32) && (c as u32) <= 0x7a) || (0x41 <= (
        c as u32) && (c as u32) <= 0x5a) || (0x30 <= (c as u32) && (c as u32) <= 0x39) || c == '_')),
{
    is_alphanumeric(c) || c == '_'
}

/// A char counts as a word char exactly when std calls it alphanumeric or
/// it is `_`: nothing else (no punctuation, no space) joins a word.
pub proof fn lemma_word_chars_are_alphanumeric_or_underscore(c: char)
    ensures
        word_char(c) ==> alphanumeric(c) || c == '_',
        alphanumeric(c) ==> word_char(c),
        word_char('_'),
        !alphanumeric(c) && c != '_' ==> !word_char(c),
{
}

/// Whether some char of `s` in `[a, b)` is a word char.
pub open spec fn has_word_char(s: Seq<char>, a: int, b: int) -> bool {
    exists|i: int| a <= i < b && word_char(#[trigger] s[i])
}

/// The grapheme boundary after `p` (`p` < the end), or the end.
pub open spec fn step_forward(s: Seq<char>, p: nat) -> nat {
    let b = grapheme_boundary_after(s, p);
    if p < b && b <= s.len() {
        b
    } else {
        s.len()
    }
}

/// The grapheme boundary before `p` (`p` > 0), or 0.
pub open spec fn step_backward(s: Seq<char>, p: nat) -> nat {
    let b = grapheme_boundary_before(s, p);
    if b < p {
        b
    } else {
        0
    }
}

/// From `p`, moves forward grapheme by grapheme until the next grapheme
/// holds a word char (`stop_on_word`) or holds none (`!stop_on_word`), or
/// the end.
pub open spec fn skip_forward(s: Seq<char>, p: nat, stop_on_word: bool) -> nat
    decreases s.len() - p,
{
    if p >= s.len() {
        p
    } else if has_word_char(s, p as int, step_forward(s, p) as int) == stop_on_word {
        p
    } else {
        skip_forward(s, step_forward(s, p), stop_on_word)
    }
}

/// From `p`, moves back grapheme by grapheme until the previous grapheme
/// holds a word char (`stop_on_word`) or holds none (`!stop_on_word`), or
/// the start.
pub open spec fn skip_backward(s: Seq<char>, p: nat, stop_on_word: bool) -> nat
    decreases p,
{
    if p == 0 {
        0
    } else if has_word_char(s, step_backward(s, p) as int, p as int) == stop_on_word {
        p
    } else {
        skip_backward(s, step_backward(s, p), stop_on_word)
    }
}

/// `pos` clamped to the text and snapped back to a grapheme boundary.
pub open spec fn snapped(s: Seq<char>, pos: int) -> nat {
    let p = if pos <= s.len() {
        pos as nat
    } else {
        s.len()
    };
    if is_grapheme_boundary(s, p) {
        p
    } else {
        grapheme_boundary_before(s, p)
    }
}

/// Where `forward-word` from `pos` lands: past the non-word graphemes,
/// then past the word graphemes that follow.
pub open spec fn forward_word_target(s: Seq<char>, pos: int) -> nat {
    skip_forward(s, skip_forward(s, snapped(s, pos), true), false)
}

/// Where `backward-word` from `pos` lands: back over the non-word
/// graphemes, then back over the word graphemes before them.
pub open spec fn backward_word_target(s: Seq<char>, pos: int) -> nat {
    skip_backward(s, skip_backward(s, snapped(s, pos), true), false)
}

proof fn lemma_skip_forward_stops(s: Seq<char>, p: nat, stop_on_word: bool)
    ensures
        p <= skip_forward(s, p, stop_on_word),
        p <= s.len() ==> skip_forward(s, p, stop_on_word) <= s.len(),
        ({
            let r = skip_forward(s, p, stop_on_word);
            r >= s.len() || has_word_char(s, r as int, step_forward(s, r) as int) == stop_on_word
        }),
    decreases s.len() - p,
{
    if p < s.len() && has_word_char(s, p as int, step_forward(s, p) as int) != stop_on_word {
        lemma_skip_forward_stops(s, step_forward(s, p), stop_on_word);
    }
}

proof fn lemma_skip_backward_stops(s: Seq<char>, p: nat, stop_on_word: bool)
    ensures
        skip_backward(s, p, stop_on_word) <= p,
        ({
            let r = skip_backward(s, p, stop_on_word);
            r == 0 || has_word_char(s, step_backward(s, r) as int, r as int) == stop_on_word
        }),
    decreases p,
{
    if p > 0 && has_word_char(s, step_backward(s, p) as int, p as int) != stop_on_word {
        lemma_skip_backward_stops(s, step_backward(s, p), stop_on_word);
    }
}

/// `forward-word` never moves back, stays within the text, and stops at the
/// end of the text or before a grapheme that holds no word char (the end
/// of a word); `backward-word` never moves forward and stops at the start
/// of the text or after a grapheme that holds no word char (the start of a
/// word).
pub proof fn lemma_word_motion_stops_at_word_edges(s: Seq<char>, pos: int)
    requires
        0 <= pos,
    ensures
        ({
            let t = forward_word_target(s, pos);
            &&& snapped(s, pos) <= t
            &&& snapped(s, pos) <= s.len() ==> t <= s.len()
            &&& t >= s.len() || !has_word_char(s, t as int, step_forward(s, t) as int)
        }),
        ({
            let b = backward_word_target(s, pos);
            &&& b <= snapped(s, pos)
            &&& b == 0 || !has_word_char(s, step_backward(s, b) as int, b as int)
        }),
{
    let sp = snapped(s, pos);
    lemma_skip_forward_stops(s, sp, true);
    lemma_skip_forward_stops(s, skip_forward(s, sp, true), false);
    lemma_skip_backward_stops(s, sp, true);
    lemma_skip_backward_stops(s, skip_backward(s, sp, true), false);
}

/// Whether the chars of `buf` in `[start, end)` hold a word char.
pub fn grapheme_is_word(buf: &Buffer, start: usize, end: usize) -> (b: bool)
    requires
        start <= end <= buf.chars().len(),
    ensures
        b == has_word_char(buf.chars(), start as int, end as int),
{
    let text = buf.slice_string(start, end);
    let chars = chars_of(text.as_str());
    let mut i: usize = 0;
    while i < chars.len()
        invariant
            start <= end <= buf.chars().len(),
            chars@ == buf.chars().subrange(start as int, end as int),
            i <= chars@.len(),
            forall|j: int| start <= j < start + i ==> !word_char(#[trigger] buf.chars()[j]),
        decreases chars@.len() - i,
    {
        if is_word_char(chars[i]) {
            assert(buf.chars()[start + i] == chars@[i as int]);
            return true;
        }
        assert(buf.chars()[start + i] == chars@[i as int]);
        i += 1;
    }
    false
}

/// Moves forward from `pos` (a boundary) until the grapheme at hand holds a
/// word char or none, as `stop_on_word` asks.
fn skip_forward_from(buf: &Buffer, pos: usize, stop_on_word: bool) -> (r: usize)
    requires
        pos <= buf.chars().len(),
    ensures
        r == skip_forward(buf.chars(), pos as nat, stop_on_word),
        r <= buf.chars().len(),
{
    let end = buf.char_count();
    let mut p = pos;
    while p < end
        invariant
            end == buf.chars().len(),
            p <= end,
            skip_forward(buf.chars(), pos as nat, stop_on_word) == skip_forward(
                buf.chars(),
                p as nat,
                stop_on_word,
            ),
        decreases end - p,
    {
        let next = buf.next_grapheme_boundary(p);
        if grapheme_is_word(buf, p, next) == stop_on_word {
            return p;
        }
        p = next;
    }
    p
}

/// Moves back from `pos` until the grapheme before holds a word char or
/// none, as `stop_on_word` asks.
fn skip_backward_from(buf: &Buffer, pos: usize, stop_on_word: bool) -> (r: usize)
    requires
        pos <= buf.chars().len(),
    ensures
        r == skip_backward(buf.chars(), pos as nat, stop_on_word),
        r <= pos,
{
    let mut p = pos;
    while p > 0
        invariant
            p <= pos,
            pos <= buf.chars().len(),
            skip_backward(buf.chars(), pos as nat, stop_on_word) == skip_backward(
                buf.chars(),
                p as nat,
                stop_on_word,
            ),
        decreases p,
    {
        let previous = buf.prev_grapheme_boundary(p);
        if grapheme_is_word(buf, previous, p) == stop_on_word {
            return p;
        }
        p = previous;
    }
    p
}

/// Where `forward-word` from `pos` lands in `buf`.
pub fn forward_word_position(buf: &Buffer, pos: usize) -> (r: usize)
    ensures
        r == forward_word_target(buf.chars(), pos as int),
        r <= buf.chars().len(),
{
    let start = buf.snap_to_grapheme_boundary(pos);
    let p = skip_forward_from(buf, start, true);
    skip_forward_from(buf, p, false)
}

/// Where `backward-word` from `pos` lands in `buf`.
pub fn backward_word_position(buf: &Buffer, pos: usize) -> (r: usize)
    ensures
        r == backward_word_target(buf.chars(), pos as int),
        r <= buf.chars().len(),
        r <= pos,
{
    let start = buf.snap_to_grapheme_boundary(pos);
    let p = skip_backward_from(buf, start, true);
    skip_backward_from(buf, p, false)
}

/// Where line `l` of `s` ends, its line break included: the start of the
/// next line, or the end of the text on the last line.
pub open spec fn line_end(s: Seq<char>, l: nat) -> nat {
    if l + 1 < line_count_of(s) {
        line_start(s, l + 1)
    } else {
        s.len()
    }
}

/// Line `l` of `s` with its line break.
pub open spec fn line_text(s: Seq<char>, l: nat) -> Seq<char> {
    s.subrange(line_start(s, l) as int, line_end(s, l) as int)
}

/// Line `l` of `s` without its line break.
pub open spec fn line_content(s: Seq<char>, l: nat) -> Seq<char> {
    s.subrange(line_start(s, l) as int, (line_start(s, l) + line_len(s, l)) as int)
}

/// The number of spaces that `t` starts with.
pub open spec fn leading_spaces(t: Seq<char>) -> nat
    decreases t.len(),
{
    if t.len() > 0 && t[0] == ' ' {
        1 + leading_spaces(t.drop_first())
    } else {
        0
    }
}

/// `n` spaces.
pub open spec fn spaces(n: nat) -> Seq<char> {
    Seq::new(n, |_i: int| ' ')
}

/// The line and column of char `i` of `s`, `i` clamped to the text (as
/// `Buffer::char_to_line_col` gives them).
pub open spec fn line_col(s: Seq<char>, i: int) -> (nat, nat) {
    let j = if i <= s.len() {
        i as nat
    } else {
        s.len()
    };
    let l = count_newlines(s.take(j as int));
    (l, (j - line_start(s, l)) as nat)
}

/// A change of the chars in `[start, end)` to `text`, and where point and
/// mark stand after it.
#[derive(Debug)]
pub struct EditPlan {
    pub start: usize,
    pub end: usize,
    pub text: String,
    pub point: usize,
    pub mark: Option<usize>,
}

/// An edit plan as values.
pub struct PlanView {
    pub start: usize,
    pub end: usize,
    pub text: Seq<char>,
    pub point: usize,
    pub mark: Option<usize>,
}

impl View for EditPlan {
    type V = PlanView;

    open spec fn view(&self) -> PlanView {
        PlanView {
            start: self.start,
            end: self.end,
            text: self.text@,
            point: self.point,
            mark: self.mark,
        }
    }
}

/// What `indent-line` plans at `point` of `s`: with a mark, every line of
/// the region indented, point and mark moving with their text; without,
/// the line of point indented and point moved right by a step.
pub open spec fn indent_plan(s: Seq<char>, point: usize, mark: Option<usize>) -> PlanView {
    match mark {
        Some(m) => {
            let (first, last) = region_lines(s, point as int, m as int);
            PlanView {
                start: line_start(s, first) as usize,
                end: line_end(s, last) as usize,
                text: indented_lines(s, first, (last - first + 1) as nat),
                point: indented_pos(s, first, last, point as int) as usize,
                mark: Some(indented_pos(s, first, last, m as int) as usize),
            }
        },
        None => {
            let l = line_col(s, point as int).0;
            let ws = leading_spaces(line_content(s, l));
            PlanView {
                start: line_start(s, l) as usize,
                end: (line_start(s, l) + ws) as usize,
                text: spaces((ws + crate::display::INDENT_WIDTH) as nat),
                point: (point + crate::display::INDENT_WIDTH) as usize,
                mark: None,
            }
        },
    }
}

/// What `dedent-line` plans at `point` of `s`: with a mark, every line of
/// the region dedented, point and mark moving with their text; without,
/// the line of point dedented by up to a step, point moving left with the
/// removed spaces but not before the line's start. `None` when there is no
/// leading space to take.
pub open spec fn dedent_plan(s: Seq<char>, point: usize, mark: Option<usize>) -> Option<PlanView> {
    match mark {
        Some(m) => {
            let (first, last) = region_lines(s, point as int, m as int);
            let n = (last - first + 1) as nat;
            if removed_through(s, first, n) == 0 {
                None
            } else {
                Some(
                    PlanView {
                        start: line_start(s, first) as usize,
                        end: line_end(s, last) as usize,
                        text: dedented_lines(s, first, n),
                        point: dedented_pos(s, first, last, point as int) as usize,
                        mark: Some(dedented_pos(s, first, last, m as int) as usize),
                    },
                )
            }
        },
        None => {
            let l = line_col(s, point as int).0;
            let ls = line_start(s, l);
            let ws = leading_spaces(line_content(s, l));
            let rc = if ws < crate::display::INDENT_WIDTH {
                ws
            } else {
                crate::display::INDENT_WIDTH as nat
            };
            if rc == 0 {
                None
            } else {
                Some(
                    PlanView {
                        start: ls as usize,
                        end: (ls + ws) as usize,
                        text: spaces((ws - rc) as nat),
                        point: (if point - ls <= rc {
                            ls as int
                        } else {
                            point - rc
                        }) as usize,
                        mark: None,
                    },
                )
            }
        },
    }
}

/// Line starts grow with the line number.
pub proof fn lemma_line_start_monotonic(s: Seq<char>, l1: nat, l2: nat)
    requires
        l1 <= l2,
    ensures
        line_start(s, l1) <= line_start(s, l2) <= s.len(),
    decreases l2 - l1,
{
    crate::buffer::lemma_line_start_bounds(s, l2);
    if l1 < l2 {
        lemma_line_start_monotonic(s, l1, (l2 - 1) as nat);
        crate::buffer::lemma_line_start_bounds(s, (l2 - 1) as nat);
    }
}

/// A valid line starts no later than it ends, within the text.
pub proof fn lemma_line_bounds(s: Seq<char>, l: nat)
    requires
        l < line_count_of(s),
    ensures
        line_start(s, l) <= line_start(s, l) + line_len(s, l) <= line_end(s, l) <= s.len(),
{
    crate::buffer::lemma_line_start_bounds(s, l);
    if l + 1 < line_count_of(s) {
    } else {
        lemma_line_start_monotonic(s, l, l + 1);
    }
}

/// Spaces that lead `t`, counted by a loop over `t`.
fn count_leading_spaces(t: &Vec<char>, limit: usize) -> (n: usize)
    ensures
        n == if leading_spaces(t@) < limit {
            leading_spaces(t@)
        } else {
            limit as nat
        },
{
    let mut n: usize = 0;
    assert(t@.skip(0) =~= t@);
    while n < t.len() && n < limit && t[n] == ' '
        invariant
            n <= t@.len(),
            n <= limit,
            leading_spaces(t@) == n + leading_spaces(t@.skip(n as int)),
        decreases t@.len() - n,
    {
        proof {
            assert(t@.skip(n as int).drop_first() =~= t@.skip(n + 1));
        }
        n += 1;
    }
    proof {
        if n < t@.len() && n < limit {
            assert(t@.skip(n as int)[0] == t@[n as int]);
        }
    }
    n
}

/// `n` spaces as chars.
fn space_chars(n: usize) -> (v: Vec<char>)
    ensures
        v@ == spaces(n as nat),
{
    let mut v: Vec<char> = Vec::new();
    while v.len() < n
        invariant
            v@ == spaces(v@.len()),
            v@.len() <= n,
        decreases n - v@.len(),
    {
        v.push(' ');
        assert(v@ =~= spaces(v@.len()));
    }
    v
}

/// The chars of `buf` in `[start, end)`.
fn chars_between(buf: &Buffer, start: usize, end: usize) -> (v: Vec<char>)
    requires
        start <= end <= buf.chars().len(),
    ensures
        v@ == buf.chars().subrange(start as int, end as int),
{
    let text = buf.slice_string(start, end);
    chars_of(text.as_str())
}

/// Line `line` of `buf` (a valid line) without its break.
fn line_content_chars(buf: &Buffer, line: usize) -> (v: Vec<char>)
    requires
        (line as nat) < line_count_of(buf.chars()),
    ensures
        v@ == line_content(buf.chars(), line as nat),
{
    let _total = buf.char_count();
    let start = buf.line_col_to_char(line, 0);
    let len = buf.line_len_chars(line);
    proof {
        lemma_line_bounds(buf.chars(), line as nat);
    }
    chars_between(buf, start, start + len)
}

/// Where line `line` of `buf` ends, its break included.
fn line_end_of(buf: &Buffer, line: usize) -> (e: usize)
    requires
        (line as nat) < line_count_of(buf.chars()),
    ensures
        e == line_end(buf.chars(), line as nat),
{
    let count = buf.line_count();
    if line + 1 < count {
        buf.line_col_to_char(line + 1, 0)
    } else {
        buf.char_count()
    }
}

/// The indentation that `line` starts with, in columns: spaces count one,
/// a tab reaches the next tab stop, and the first other char ends it.
pub open spec fn indent_cols_from(line: Seq<char>, acc: nat) -> nat
    decreases line.len(),
{
    if line.len() == 0 {
        acc
    } else if line[0] == ' ' {
        indent_cols_from(line.drop_first(), acc + 1)
    } else if line[0] == '\t' {
        indent_cols_from(line.drop_first(), (acc + crate::display::tab_cols(acc as int)) as nat)
    } else {
        acc
    }
}

/// What `newline` inserts at `pos`: a line break, then as many spaces as
/// the indentation of the line of `pos` (tabs expanded to tab stops).
pub open spec fn newline_text(s: Seq<char>, pos: int) -> Seq<char> {
    seq!['\n'] + spaces(indent_cols_from(line_content(s, line_col(s, pos).0), 0))
}

proof fn lemma_indent_cols_bound(line: Seq<char>, acc: nat)
    ensures
        acc <= indent_cols_from(line, acc) <= acc + 4 * line.len(),
    decreases line.len(),
{
    if line.len() > 0 {
        if line[0] == ' ' {
            lemma_indent_cols_bound(line.drop_first(), acc + 1);
        } else if line[0] == '\t' {
            let t = crate::display::tab_cols(acc as int);
            assert(1 <= t <= 4);
            lemma_indent_cols_bound(line.drop_first(), (acc + t) as nat);
        }
    }
}

/// The text `newline` inserts at `pos` in `buf`: a line break and the
/// indentation of the current line, tabs converted to spaces.
pub fn newline_with_indent(buf: &Buffer, pos: usize) -> (r: String)
    requires
        5 * buf.chars().len() + 1 <= usize::MAX,
    ensures
        r@ == newline_text(buf.chars(), pos as int),
{
    let _count = buf.line_count();
    let (line, _col) = buf.char_to_line_col(pos);
    proof {
        let j = if pos <= buf.chars().len() {
            pos as nat
        } else {
            buf.chars().len()
        };
        crate::buffer::lemma_count_newlines_bound(buf.chars(), j);
    }
    let content = line_content_chars(buf, line);
    proof {
        lemma_line_bounds(buf.chars(), line as nat);
    }
    let mut out: Vec<char> = Vec::new();
    out.push('\n');
    let mut i: usize = 0;
    let mut cols: usize = 0;
    assert(content@.skip(0) =~= content@);
    while i < content.len() && (content[i] == ' ' || content[i] == '\t')
        invariant
            i <= content@.len(),
            content@.len() <= buf.chars().len(),
            5 * buf.chars().len() + 1 <= usize::MAX,
            cols <= 4 * i,
            out@ == seq!['\n'] + spaces(cols as nat),
            indent_cols_from(content@, 0) == indent_cols_from(content@.skip(i as int), cols as nat),
        decreases content@.len() - i,
    {
        let c = content[i];
        assert(content@.skip(i as int)[0] == c);
        assert(content@.skip(i as int).drop_first() =~= content@.skip(i + 1));
        if c == ' ' {
            out.push(' ');
            cols += 1;
            assert(out@ =~= seq!['\n'] + spaces(cols as nat));
        } else if c == '\t' {
            let n = crate::display::tab_width_at(cols);
            let mut k: usize = 0;
            while k < n
                invariant
                    k <= n,
                    cols + n <= 4 * i + 4,
                    out@ == seq!['\n'] + spaces((cols + k) as nat),
                decreases n - k,
            {
                out.push(' ');
                k += 1;
                assert(out@ =~= seq!['\n'] + spaces((cols + k) as nat));
            }
            cols += n;
        }
        i += 1;
    }
    proof {
        if i == content@.len() {
            assert(content@.skip(i as int).len() == 0);
        } else {
            assert(content@.skip(i as int)[0] == content@[i as int]);
        }
        assert(indent_cols_from(content@, 0) == cols);
        assert(line as nat == line_col(buf.chars(), pos as int).0);
    }
    string_of(out.as_slice())
}

/// Counting line breaks over a longer prefix never gives fewer.
pub proof fn lemma_count_newlines_monotonic(s: Seq<char>, a: nat, b: nat)
    requires
        a <= b <= s.len(),
    ensures
        count_newlines(s.take(a as int)) <= count_newlines(s.take(b as int)),
    decreases b - a,
{
    if a < b {
        lemma_count_newlines_monotonic(s, a, (b - 1) as nat);
        assert(s.take(b as int).drop_last() =~= s.take(b - 1));
    }
}

/// The line and column of `pos` in `buf`; the line is a valid one and the
/// column lies within it.
pub(crate) fn locate(buf: &Buffer, pos: usize) -> (res: (usize, usize))
    ensures
        res.0 as nat == line_col(buf.chars(), pos as int).0,
        res.1 as nat == line_col(buf.chars(), pos as int).1,
        (res.0 as nat) < line_count_of(buf.chars()),
        res.1 <= line_len(buf.chars(), res.0 as nat),
        line_start(buf.chars(), res.0 as nat) + res.1 == (if pos <= buf.chars().len() {
            pos as int
        } else {
            buf.chars().len() as int
        }),
{
    let _count = buf.line_count();
    let res = buf.char_to_line_col(pos);
    proof {
        let s = buf.chars();
        let j = if pos <= s.len() {
            pos as nat
        } else {
            s.len()
        };
        crate::buffer::lemma_count_newlines_bound(s, j);
        crate::buffer::lemma_line_of_char(s, j);
        let l = count_newlines(s.take(j as int));
        lemma_line_bounds(s, l);
        lemma_col_within_line(s, j);
    }
    res
}

/// A char index lies within its line: no further than the line's end
/// without its break.
pub(crate) proof fn lemma_col_within_line(s: Seq<char>, j: nat)
    requires
        j <= s.len(),
    ensures
        j <= line_start(s, count_newlines(s.take(j as int))) + line_len(
            s,
            count_newlines(s.take(j as int)),
        ),
{
    let l = count_newlines(s.take(j as int));
    crate::buffer::lemma_line_of_char(s, j);
    crate::buffer::lemma_count_newlines_bound(s, j);
    lemma_line_bounds(s, l);
    let ls = line_start(s, l);
    lemma_next_break_beyond(s, ls, j);
}

/// The next break after `p` lies past every index up to which no `\n`
/// occurs, and strictly past it when that break is a `\n`.
proof fn lemma_next_break_beyond(s: Seq<char>, p: nat, j: nat)
    requires
        p <= j <= s.len(),
        forall|q: int| p <= q < j ==> s[q] != '\n',
    ensures
        j <= crate::buffer::next_break(s, p),
        (crate::buffer::next_break(s, p) > p && s[crate::buffer::next_break(s, p) - 1] == '\n')
            ==> j < crate::buffer::next_break(s, p),
    decreases s.len() - p,
{
    if p < s.len() && s[p as int] != '\n' {
        lemma_next_break_beyond(s, p + 1, if j > p {
            j
        } else {
            p + 1
        });
    }
}

/// Indents the line of `point` by one step: its leading spaces become
/// `INDENT_WIDTH` more, and point moves right by `INDENT_WIDTH`.
pub fn indent_line_plan(buf: &Buffer, point: usize) -> (p: EditPlan)
    requires
        point + crate::display::INDENT_WIDTH <= usize::MAX,
        buf.chars().len() + crate::display::INDENT_WIDTH <= usize::MAX,
    ensures
        ({
            let s = buf.chars();
            let l = line_col(s, point as int).0;
            let ws = leading_spaces(line_content(s, l));
            &&& p.start == line_start(s, l)
            &&& p.end == line_start(s, l) + ws
            &&& p.text@ == spaces((ws + crate::display::INDENT_WIDTH) as nat)
            &&& p.point == point + crate::display::INDENT_WIDTH
            &&& p.mark is None
        }),
        p.start <= p.end <= buf.chars().len(),
{
    let (line, _col) = locate(buf, point);
    let line_start = buf.line_col_to_char(line, 0);
    let content = line_content_chars(buf, line);
    let ws = count_leading_spaces(&content, content.len());
    proof {
        leading_spaces_le_len(content@);
        lemma_line_bounds(buf.chars(), line as nat);
    }
    let text = space_chars(ws + crate::display::INDENT_WIDTH);
    EditPlan {
        start: line_start,
        end: line_start + ws,
        text: string_of(text.as_slice()),
        point: point + crate::display::INDENT_WIDTH,
        mark: None,
    }
}

/// A count of leading spaces never exceeds the length.
proof fn leading_spaces_le_len(t: Seq<char>)
    ensures
        leading_spaces(t) <= t.len(),
    decreases t.len(),
{
    if t.len() > 0 && t[0] == ' ' {
        leading_spaces_le_len(t.drop_first());
    }
}

/// Dedents the line of `point` by up to one step: up to `INDENT_WIDTH` of
/// its leading spaces go, and point moves left with them but not before
/// the line's start. `None` when the line has no leading space.
pub fn dedent_line_plan(buf: &Buffer, point: usize) -> (p: Option<EditPlan>)
    ensures
        ({
            let s = buf.chars();
            let l = line_col(s, point as int).0;
            let ls = line_start(s, l);
            let ws = leading_spaces(line_content(s, l));
            let rc = if ws < crate::display::INDENT_WIDTH {
                ws
            } else {
                crate::display::INDENT_WIDTH as nat
            };
            &&& rc == 0 <==> p is None
            &&& p matches Some(plan) ==> {
                &&& plan.start == ls
                &&& plan.end == ls + ws
                &&& plan.text@ == spaces((ws - rc) as nat)
                &&& plan.point == (if point - ls <= rc {
                    ls as int
                } else {
                    point - rc
                })
                &&& plan.mark is None
            }
        }),
        p matches Some(plan) ==> plan.start <= plan.end <= buf.chars().len(),
{
    let _total = buf.char_count();
    let (line, _col) = locate(buf, point);
    let line_start = buf.line_col_to_char(line, 0);
    let content = line_content_chars(buf, line);
    let ws = count_leading_spaces(&content, content.len());
    proof {
        leading_spaces_le_len(content@);
        lemma_line_bounds(buf.chars(), line as nat);
    }
    let remove = if ws < crate::display::INDENT_WIDTH {
        ws
    } else {
        crate::display::INDENT_WIDTH
    };
    if remove == 0 {
        return None;
    }
    let text = space_chars(ws - remove);
    let new_point = if point <= line_start || point - line_start <= remove {
        line_start
    } else {
        point - remove
    };
    Some(
        EditPlan {
            start: line_start,
            end: line_start + ws,
            text: string_of(text.as_slice()),
            point: new_point,
            mark: None,
        },
    )
}

/// The chars that `kill-line` at `pos` removes, as a range: to the end of
/// the line, or, at the end of a line, its line break. `None` at the end of
/// the text, where nothing is killed.
pub fn kill_line_range(buf: &Buffer, pos: usize) -> (r: Option<(usize, usize)>)
    requires
        pos <= buf.chars().len(),
    ensures
        ({
            let s = buf.chars();
            let (l, col) = line_col(s, pos as int);
            if col == line_len(s, l) {
                if pos == s.len() {
                    r is None
                } else {
                    r == Some((pos, (pos + line_break_len(s, l)) as usize))
                }
            } else {
                r == Some((pos, (line_start(s, l) + line_len(s, l)) as usize))
            }
        }),
        r matches Some((a, b)) ==> a <= b <= buf.chars().len(),
{
    let total = buf.char_count();
    let (line, col) = locate(buf, pos);
    let len = buf.line_len_chars(line);
    if col == len {
        if pos == total {
            return None;
        }
        let brk = buf.line_break_len_chars(line);
        proof {
            crate::buffer::lemma_line_start_bounds(buf.chars(), line as nat);
            lemma_line_bounds(buf.chars(), line as nat);
        }
        Some((pos, pos + brk))
    } else {
        proof {
            lemma_line_bounds(buf.chars(), line as nat);
        }
        Some((pos, buf.line_col_to_char(line, len)))
    }
}

/// The lines a region command acts on, for the region between `point` and
/// `mark`: from the line of its start to the line of its end, leaving the
/// end's line out when the region ends at its column 0 and spans more than
/// one line.
pub open spec fn region_lines(s: Seq<char>, point: int, mark: int) -> (nat, nat) {
    let rs = if point <= mark {
        point
    } else {
        mark
    };
    let re = if point <= mark {
        mark
    } else {
        point
    };
    let first = line_col(s, rs).0;
    let (end_line, end_col) = line_col(s, re);
    let last = if end_col == 0 && end_line > first {
        (end_line - 1) as nat
    } else {
        end_line
    };
    (first, last)
}

/// Whether position `p` belongs to line `l` of a region whose last line is
/// `last`: within the line, or at the end of the last one.
pub open spec fn on_region_line(s: Seq<char>, l: nat, last: nat, p: int) -> bool {
    line_start(s, l) <= p && (p < line_end(s, l) || (l == last && p == line_end(s, l)))
}

/// The region line, among `first ..= last`, that position `p` belongs to.
pub open spec fn region_line_of(s: Seq<char>, first: nat, last: nat, p: int) -> Option<nat> {
    if exists|l: nat| first <= l <= last && #[trigger] on_region_line(s, l, last, p) {
        Some(choose|l: nat| first <= l <= last && #[trigger] on_region_line(s, l, last, p))
    } else {
        None
    }
}

/// The `n` region lines from `first`, each with one indentation step
/// prepended.
pub open spec fn indented_lines(s: Seq<char>, first: nat, n: nat) -> Seq<char>
    decreases n,
{
    if n == 0 {
        Seq::empty()
    } else {
        indented_lines(s, first, (n - 1) as nat) + spaces(crate::display::INDENT_WIDTH as nat)
            + line_text(s, (first + n - 1) as nat)
    }
}

/// Where position `p` goes when the region lines `first ..= last` are
/// indented: right by one step per indented line up to and including its
/// own; positions outside the lines stay.
pub open spec fn indented_pos(s: Seq<char>, first: nat, last: nat, p: int) -> int {
    match region_line_of(s, first, last, p) {
        Some(l) => p + crate::display::INDENT_WIDTH * (l - first + 1),
        None => p,
    }
}

/// The spaces that dedenting takes from line `l`: its leading spaces, at
/// most one indentation step.
pub open spec fn dedent_count(s: Seq<char>, l: nat) -> nat {
    let ws = leading_spaces(line_text(s, l));
    if ws < crate::display::INDENT_WIDTH {
        ws
    } else {
        crate::display::INDENT_WIDTH as nat
    }
}

/// The spaces that dedenting takes from the `n` lines from `first`.
pub open spec fn removed_through(s: Seq<char>, first: nat, n: nat) -> nat
    decreases n,
{
    if n == 0 {
        0
    } else {
        removed_through(s, first, (n - 1) as nat) + dedent_count(s, (first + n - 1) as nat)
    }
}

/// The `n` lines from `first`, each without the spaces dedenting takes.
pub open spec fn dedented_lines(s: Seq<char>, first: nat, n: nat) -> Seq<char>
    decreases n,
{
    if n == 0 {
        Seq::empty()
    } else {
        dedented_lines(s, first, (n - 1) as nat) + line_text(s, (first + n - 1) as nat).skip(
            dedent_count(s, (first + n - 1) as nat) as int,
        )
    }
}

/// Where position `p` goes when the region lines `first ..= last` are
/// dedented: a position within the removed spaces goes to its line's new
/// start, any other position on a region line left by all the spaces taken
/// up to its own; positions outside the lines stay.
pub open spec fn dedented_pos(s: Seq<char>, first: nat, last: nat, p: int) -> int {
    match region_line_of(s, first, last, p) {
        Some(l) => if p - line_start(s, l) <= dedent_count(s, l) {
            line_start(s, l) - removed_through(s, first, (l - first) as nat)
        } else {
            p - removed_through(s, first, (l - first + 1) as nat)
        },
        None => p,
    }
}

/// A text has no more line breaks than chars.
pub proof fn lemma_count_newlines_le_len(s: Seq<char>)
    ensures
        count_newlines(s) <= s.len(),
    decreases s.len(),
{
    if s.len() > 0 {
        lemma_count_newlines_le_len(s.drop_last());
    }
}

/// Line `l` ends where line `l + 1` starts.
proof fn lemma_line_end_next(s: Seq<char>, l: nat)
    requires
        l + 1 < line_count_of(s),
    ensures
        line_end(s, l) == line_start(s, l + 1),
{
}

/// Region lines do not overlap: a position belongs to at most one.
pub proof fn lemma_region_line_unique(s: Seq<char>, last: nat, l1: nat, l2: nat, p: int)
    requires
        l1 <= last,
        l2 <= last,
        last < line_count_of(s),
        on_region_line(s, l1, last, p),
        on_region_line(s, l2, last, p),
    ensures
        l1 == l2,
{
    if l1 < l2 {
        lemma_line_start_monotonic(s, l1 + 1, l2);
    } else if l2 < l1 {
        lemma_line_start_monotonic(s, l2 + 1, l1);
    }
}

/// The region's first line comes no later than its last, and both are
/// lines of the text.
proof fn lemma_region_lines_valid(s: Seq<char>, point: int, mark: int)
    requires
        point >= 0,
        mark >= 0,
    ensures
        region_lines(s, point, mark).0 <= region_lines(s, point, mark).1,
        region_lines(s, point, mark).1 < line_count_of(s),
{
    let rs = if point <= mark {
        point
    } else {
        mark
    };
    let re = if point <= mark {
        mark
    } else {
        point
    };
    let a = if rs <= s.len() {
        rs as nat
    } else {
        s.len()
    };
    let b = if re <= s.len() {
        re as nat
    } else {
        s.len()
    };
    lemma_count_newlines_monotonic(s, a, b);
    crate::buffer::lemma_count_newlines_bound(s, b);
}

/// The region between `point` and `mark` in `buf`, the lines it covers,
/// and where those lines start and end.
fn region_span(buf: &Buffer, point: usize, mark: usize) -> (r: (usize, usize, usize, usize))
    ensures
        ({
            let s = buf.chars();
            let (first, last) = region_lines(s, point as int, mark as int);
            &&& r.0 as nat == first
            &&& r.1 as nat == last
            &&& r.2 as nat == line_start(s, first)
            &&& r.3 as nat == line_end(s, last)
            &&& first <= last < line_count_of(s)
        }),
        r.2 <= r.3 <= buf.chars().len(),
{
    let rs = if point <= mark {
        point
    } else {
        mark
    };
    let re = if point <= mark {
        mark
    } else {
        point
    };
    let (first, _c) = locate(buf, rs);
    let (end_line, end_col) = locate(buf, re);
    let last = if end_col == 0 && end_line > first {
        end_line - 1
    } else {
        end_line
    };
    proof {
        lemma_region_lines_valid(buf.chars(), point as int, mark as int);
    }
    let span_start = buf.line_col_to_char(first, 0);
    let span_end = line_end_of(buf, last);
    proof {
        lemma_line_start_monotonic(buf.chars(), first as nat, last as nat);
        lemma_line_bounds(buf.chars(), first as nat);
        lemma_line_bounds(buf.chars(), last as nat);
    }
    (first, last, span_start, span_end)
}

/// Indents every line of the region between `point` and `mark` by one
/// step, as one replacement of those lines; point and mark move with their
/// text (see `indented_pos`).
pub fn indent_region_plan(buf: &Buffer, point: usize, mark: usize) -> (p: EditPlan)
    requires
        5 * buf.chars().len() + 2 * crate::display::INDENT_WIDTH <= usize::MAX,
    ensures
        ({
            let s = buf.chars();
            let (first, last) = region_lines(s, point as int, mark as int);
            &&& p.start == line_start(s, first)
            &&& p.end == line_end(s, last)
            &&& p.text@ == indented_lines(s, first, (last - first + 1) as nat)
            &&& p.point == indented_pos(s, first, last, point as int)
            &&& p.mark == Some(indented_pos(s, first, last, mark as int) as usize)
        }),
        p.start <= p.end <= buf.chars().len(),
{
    let ghost s = buf.chars();
    let total = buf.char_count();
    let count = buf.line_count();
    let (first, last, span_start, span_end) = region_span(buf, point, mark);
    let mut out: Vec<char> = Vec::new();
    let mut new_point = point;
    let mut new_mark = mark;
    let mut l = first;
    while l <= last
        invariant
            s == buf.chars(),
            total == s.len(),
            count == line_count_of(s),
            5 * s.len() + 2 * crate::display::INDENT_WIDTH <= usize::MAX,
            first <= l <= last + 1,
            last < count,
            out@ == indented_lines(s, first as nat, (l - first) as nat),
            forall|k: nat|
                first <= k < l && #[trigger] on_region_line(s, k, last as nat, point as int)
                    ==> new_point == point + crate::display::INDENT_WIDTH * (k - first + 1),
            !(exists|k: nat|
                first <= k < l && #[trigger] on_region_line(s, k, last as nat, point as int))
                ==> new_point == point,
            forall|k: nat|
                first <= k < l && #[trigger] on_region_line(s, k, last as nat, mark as int)
                    ==> new_mark == mark + crate::display::INDENT_WIDTH * (k - first + 1),
            !(exists|k: nat|
                first <= k < l && #[trigger] on_region_line(s, k, last as nat, mark as int))
                ==> new_mark == mark,
        decreases last + 1 - l,
    {
        let line_start = buf.line_col_to_char(l, 0);
        let next_line_start = line_end_of(buf, l);
        proof {
            lemma_line_bounds(s, l as nat);
        }
        let mut indent = space_chars(crate::display::INDENT_WIDTH);
        let mut line_chars = chars_between(buf, line_start, next_line_start);
        out.append(&mut indent);
        out.append(&mut line_chars);
        assert(out@ =~= indented_lines(s, first as nat, (l + 1 - first) as nat));
        let steps = l - first + 1;
        proof {
            lemma_count_newlines_le_len(s);
        }
        assert(steps <= count);
        if point >= line_start && (point < next_line_start || (l == last && point
            == next_line_start)) {
            proof {
                assert(on_region_line(s, l as nat, last as nat, point as int));
                assert forall|k: nat|
                    first <= k < l && #[trigger] on_region_line(
                        s,
                        k,
                        last as nat,
                        point as int,
                    ) implies false by {
                    lemma_region_line_unique(s, last as nat, k, l as nat, point as int);
                }
            }
            new_point = point + crate::display::INDENT_WIDTH * steps;
        } else {
            assert(!on_region_line(s, l as nat, last as nat, point as int));
        }
        if mark >= line_start && (mark < next_line_start || (l == last && mark == next_line_start)) {
            proof {
                assert(on_region_line(s, l as nat, last as nat, mark as int));
                assert forall|k: nat|
                    first <= k < l && #[trigger] on_region_line(
                        s,
                        k,
                        last as nat,
                        mark as int,
                    ) implies false by {
                    lemma_region_line_unique(s, last as nat, k, l as nat, mark as int);
                }
            }
            new_mark = mark + crate::display::INDENT_WIDTH * steps;
        } else {
            assert(!on_region_line(s, l as nat, last as nat, mark as int));
        }
        l += 1;
    }
    proof {
        let rp = region_line_of(s, first as nat, last as nat, point as int);
        if rp is Some {
            let k = rp->0;
            assert(first <= k <= last && on_region_line(s, k, last as nat, point as int));
        }
        let rm = region_line_of(s, first as nat, last as nat, mark as int);
        if rm is Some {
            let k = rm->0;
            assert(first <= k <= last && on_region_line(s, k, last as nat, mark as int));
        }
    }
    EditPlan {
        start: span_start,
        end: span_end,
        text: string_of(out.as_slice()),
        point: new_point,
        mark: Some(new_mark),
    }
}

/// Dedents every line of the region between `point` and `mark` by up to
/// one step, as one replacement of those lines; point and mark move with
/// their text (see `dedented_pos`). `None` when no line of the region has a
/// leading space.
#[verifier::rlimit(30)]
pub fn dedent_region_plan(buf: &Buffer, point: usize, mark: usize) -> (p: Option<EditPlan>)
    ensures
        ({
            let s = buf.chars();
            let (first, last) = region_lines(s, point as int, mark as int);
            let n = (last - first + 1) as nat;
            &&& removed_through(s, first, n) == 0 <==> p is None
            &&& p matches Some(plan) ==> {
                &&& plan.start == line_start(s, first)
                &&& plan.end == line_end(s, last)
                &&& plan.text@ == dedented_lines(s, first, n)
                &&& plan.point == dedented_pos(s, first, last, point as int)
                &&& plan.mark == Some(dedented_pos(s, first, last, mark as int) as usize)
            }
        }),
        p matches Some(plan) ==> plan.start <= plan.end <= buf.chars().len(),
{
    let ghost s = buf.chars();
    let total = buf.char_count();
    let count = buf.line_count();
    let (first, last, span_start, span_end) = region_span(buf, point, mark);
    let mut out: Vec<char> = Vec::new();
    let mut new_point = point;
    let mut new_mark = mark;
    let mut removed: usize = 0;
    let mut l = first;
    while l <= last
        invariant
            s == buf.chars(),
            total == s.len(),
            count == line_count_of(s),
            first <= l <= last + 1,
            last < count,
            span_start == line_start(s, first as nat),
            removed == removed_through(s, first as nat, (l - first) as nat),
            l <= last ==> span_start + removed <= line_start(s, l as nat),
            out@ == dedented_lines(s, first as nat, (l - first) as nat),
            forall|k: nat|
                first <= k < l && #[trigger] on_region_line(s, k, last as nat, point as int)
                    ==> new_point == dedented_pos(s, first as nat, last as nat, point as int),
            !(exists|k: nat|
                first <= k < l && #[trigger] on_region_line(s, k, last as nat, point as int))
                ==> new_point == point,
            forall|k: nat|
                first <= k < l && #[trigger] on_region_line(s, k, last as nat, mark as int)
                    ==> new_mark == dedented_pos(s, first as nat, last as nat, mark as int),
            !(exists|k: nat|
                first <= k < l && #[trigger] on_region_line(s, k, last as nat, mark as int))
                ==> new_mark == mark,
        decreases last + 1 - l,
    {
        let line_start = buf.line_col_to_char(l, 0);
        let next_line_start = line_end_of(buf, l);
        proof {
            lemma_line_bounds(s, l as nat);
        }
        let line_chars = chars_between(buf, line_start, next_line_start);
        let remove = count_leading_spaces(&line_chars, crate::display::INDENT_WIDTH);
        proof {
            leading_spaces_le_len(line_chars@);
        }
        let mut rest = chars_between(buf, line_start + remove, next_line_start);
        assert(rest@ =~= line_text(s, l as nat).skip(remove as int));
        out.append(&mut rest);
        assert(out@ =~= dedented_lines(s, first as nat, (l + 1 - first) as nat));
        let before = removed;
        removed = removed + remove;
        if point >= line_start && (point < next_line_start || (l == last && point
            == next_line_start)) {
            proof {
                assert(on_region_line(s, l as nat, last as nat, point as int));
                assert forall|k: nat|
                    first <= k <= l && #[trigger] on_region_line(
                        s,
                        k,
                        last as nat,
                        point as int,
                    ) implies k == l by {
                    lemma_region_line_unique(s, last as nat, k, l as nat, point as int);
                }
                assert(region_line_of(s, first as nat, last as nat, point as int) == Some(
                    l as nat,
                )) by {
                    let c = choose|c: nat|
                        first <= c <= last && #[trigger] on_region_line(
                            s,
                            c,
                            last as nat,
                            point as int,
                        );
                    lemma_region_line_unique(s, last as nat, c, l as nat, point as int);
                }
            }
            if point - line_start <= remove {
                new_point = line_start - before;
            } else {
                new_point = point - removed;
            }
        } else {
            assert(!on_region_line(s, l as nat, last as nat, point as int));
        }
        if mark >= line_start && (mark < next_line_start || (l == last && mark == next_line_start)) {
            proof {
                assert(on_region_line(s, l as nat, last as nat, mark as int));
                assert forall|k: nat|
                    first <= k <= l && #[trigger] on_region_line(
                        s,
                        k,
                        last as nat,
                        mark as int,
                    ) implies k == l by {
                    lemma_region_line_unique(s, last as nat, k, l as nat, mark as int);
                }
                assert(region_line_of(s, first as nat, last as nat, mark as int) == Some(
                    l as nat,
                )) by {
                    let c = choose|c: nat|
                        first <= c <= last && #[trigger] on_region_line(
                            s,
                            c,
                            last as nat,
                            mark as int,
                        );
                    lemma_region_line_unique(s, last as nat, c, l as nat, mark as int);
                }
            }
            if mark - line_start <= remove {
                new_mark = line_start - before;
            } else {
                new_mark = mark - removed;
            }
        } else {
            assert(!on_region_line(s, l as nat, last as nat, mark as int));
        }
        proof {
            if l < last {
                lemma_line_end_next(s, l as nat);
            }
        }
        l += 1;
    }
    proof {
        let rp = region_line_of(s, first as nat, last as nat, point as int);
        if rp is Some {
            let k = rp->0;
            assert(first <= k <= last && on_region_line(s, k, last as nat, point as int));
        }
        let rm = region_line_of(s, first as nat, last as nat, mark as int);
        if rm is Some {
            let k = rm->0;
            assert(first <= k <= last && on_region_line(s, k, last as nat, mark as int));
        }
    }
    if removed == 0 {
        return None;
    }
    Some(
        EditPlan {
            start: span_start,
            end: span_end,
            text: string_of(out.as_slice()),
            point: new_point,
            mark: Some(new_mark),
        },
    )
}

/// Indents the line of `point` by one step, or, when a mark sets a region,
/// every line of the region (see `indent_line_plan`, `indent_region_plan`).
pub fn indent_line(buf: &Buffer, point: usize, mark: Option<usize>) -> (p: EditPlan)
    requires
        5 * buf.chars().len() + 2 * crate::display::INDENT_WIDTH <= usize::MAX,
        point <= buf.chars().len(),
    ensures
        ({
            let s = buf.chars();
            match mark {
                Some(m) => {
                    let (first, last) = region_lines(s, point as int, m as int);
                    &&& p.start == line_start(s, first)
                    &&& p.end == line_end(s, last)
                    &&& p.text@ == indented_lines(s, first, (last - first + 1) as nat)
                    &&& p.point == indented_pos(s, first, last, point as int)
                    &&& p.mark == Some(indented_pos(s, first, last, m as int) as usize)
                },
                None => {
                    let l = line_col(s, point as int).0;
                    let ws = leading_spaces(line_content(s, l));
                    &&& p.start == line_start(s, l)
                    &&& p.end == line_start(s, l) + ws
                    &&& p.text@ == spaces((ws + crate::display::INDENT_WIDTH) as nat)
                    &&& p.point == point + crate::display::INDENT_WIDTH
                    &&& p.mark is None
                },
            }
        }),
        p.start <= p.end <= buf.chars().len(),
        p@ == indent_plan(buf.chars(), point, mark),
{
    match mark {
        Some(m) => indent_region_plan(buf, point, m),
        None => indent_line_plan(buf, point),
    }
}

/// Dedents the line of `point` by up to one step, or, when a mark sets a
/// region, every line of the region (see `dedent_line_plan`,
/// `dedent_region_plan`); `None` when there is no leading space to take.
pub fn dedent_line(buf: &Buffer, point: usize, mark: Option<usize>) -> (p: Option<EditPlan>)
    ensures
        ({
            let s = buf.chars();
            match mark {
                Some(m) => {
                    let (first, last) = region_lines(s, point as int, m as int);
                    let n = (last - first + 1) as nat;
                    &&& removed_through(s, first, n) == 0 <==> p is None
                    &&& p matches Some(plan) ==> {
                        &&& plan.start == line_start(s, first)
                        &&& plan.end == line_end(s, last)
                        &&& plan.text@ == dedented_lines(s, first, n)
                        &&& plan.point == dedented_pos(s, first, last, point as int)
                        &&& plan.mark == Some(dedented_pos(s, first, last, m as int) as usize)
                    }
                },
                None => {
                    let l = line_col(s, point as int).0;
                    let ls = line_start(s, l);
                    let ws = leading_spaces(line_content(s, l));
                    let rc = if ws < crate::display::INDENT_WIDTH {
                        ws
                    } else {
                        crate::display::INDENT_WIDTH as nat
                    };
                    &&& rc == 0 <==> p is None
                    &&& p matches Some(plan) ==> {
                        &&& plan.start == ls
                        &&& plan.end == ls + ws
                        &&& plan.text@ == spaces((ws - rc) as nat)
                        &&& plan.point == (if point - ls <= rc {
                            ls as int
                        } else {
                            point - rc
                        })
                        &&& plan.mark is None
                    }
                },
            }
        }),
        p matches Some(plan) ==> plan.start <= plan.end <= buf.chars().len(),
        match p {
            Some(plan) => dedent_plan(buf.chars(), point, mark) == Some(plan@),
            None => dedent_plan(buf.chars(), point, mark) is None,
        },
{
    match mark {
        Some(m) => dedent_region_plan(buf, point, m),
        None => dedent_line_plan(buf, point),
    }
}

/// The region between point and the mark, start first; `None` without a
/// mark.
pub fn active_region(point: usize, mark: Option<usize>) -> (r: Option<(usize, usize)>)
    ensures
        match mark {
            Some(m) => r == Some(
                (
                    if point <= m {
                        point
                    } else {
                        m
                    },
                    if point <= m {
                        m
                    } else {
                        point
                    },
                ),
            ),
            None => r is None,
        },
{
    match mark {
        Some(m) => {
            if point <= m {
                Some((point, m))
            } else {
                Some((m, point))
            }
        },
        None => None,
    }
}

/// Position for recenter-top-bottom cycling.
#[derive(Debug, Clone, Copy, PartialEq, Eq, Structural)]
pub enum RecenterPosition {
    Center,
    Top,
    Bottom,
}

/// The position `recenter-top-bottom` moves to: center, then top, then
/// bottom, then center again while it repeats; center when it does not
/// follow itself.
pub open spec fn next_recenter_position_spec(repeated: bool, last: Option<RecenterPosition>) -> RecenterPosition {
    if !repeated {
        RecenterPosition::Center
    } else {
        match last {
            None => RecenterPosition::Center,
            Some(RecenterPosition::Bottom) => RecenterPosition::Center,
            Some(RecenterPosition::Center) => RecenterPosition::Top,
            Some(RecenterPosition::Top) => RecenterPosition::Bottom,
        }
    }
}

/// The first visible line that puts line `cursor_line` at `position` of a
/// viewport `height` lines tall (never above the first line).
pub open spec fn recenter_top_spec(position: RecenterPosition, cursor_line: nat, height: nat) -> nat {
    match position {
        RecenterPosition::Center => if cursor_line >= height / 2 {
            (cursor_line - height / 2) as nat
        } else {
            0
        },
        RecenterPosition::Top => cursor_line,
        RecenterPosition::Bottom => if height == 0 {
            cursor_line
        } else if cursor_line < height - 1 {
            0
        } else {
            (cursor_line - (height - 1)) as nat
        },
    }
}

/// Repeated `recenter-top-bottom` cycles center, top, bottom, center; a
/// first one centers. The line it centers sits half a viewport below the
/// top, the top position puts it first, and the bottom position last
/// (each as far as the start of the text allows).
pub proof fn lemma_recenter_cycles_and_places_the_line(line: nat, height: nat)
    requires
        height > 0,
    ensures
        next_recenter_position_spec(false, None) == RecenterPosition::Center,
        next_recenter_position_spec(true, Some(RecenterPosition::Center)) == RecenterPosition::Top,
        next_recenter_position_spec(true, Some(RecenterPosition::Top)) == RecenterPosition::Bottom,
        next_recenter_position_spec(true, Some(RecenterPosition::Bottom)) == RecenterPosition::Center,
        line >= height / 2 ==> recenter_top_spec(RecenterPosition::Center, line, height) + height / 2
            == line,
        line < height / 2 ==> recenter_top_spec(RecenterPosition::Center, line, height) == 0,
        recenter_top_spec(RecenterPosition::Top, line, height) == line,
        line + 1 >= height ==> recenter_top_spec(RecenterPosition::Bottom, line, height) + height - 1
            == line,
        line + 1 < height ==> recenter_top_spec(RecenterPosition::Bottom, line, height) == 0,
        forall|p: RecenterPosition| #[trigger] recenter_top_spec(p, line, height) <= line,
{
}

/// The position `recenter-top-bottom` moves to (see
/// [`next_recenter_position_spec`]).
pub fn next_recenter_position(repeated: bool, last: Option<RecenterPosition>) -> (p:
    RecenterPosition)
    ensures
        p == next_recenter_position_spec(repeated, last),
        p == (if !repeated {
            RecenterPosition::Center
        } else {
            match last {
                None => RecenterPosition::Center,
                Some(RecenterPosition::Bottom) => RecenterPosition::Center,
                Some(RecenterPosition::Center) => RecenterPosition::Top,
                Some(RecenterPosition::Top) => RecenterPosition::Bottom,
            }
        }),
{
    let previous = if repeated {
        last
    } else {
        None
    };
    match previous {
        None | Some(RecenterPosition::Bottom) => RecenterPosition::Center,
        Some(RecenterPosition::Center) => RecenterPosition::Top,
        Some(RecenterPosition::Top) => RecenterPosition::Bottom,
    }
}

/// The first visible line that puts the cursor's line at `position` of a
/// viewport `height` lines tall (never above the first line).
pub fn recenter_scroll_top(position: RecenterPosition, cursor_line: usize, height: usize) -> (top:
    usize)
    ensures
        top as nat == recenter_top_spec(position, cursor_line as nat, height as nat),
        top == match position {
            RecenterPosition::Center => if cursor_line >= height / 2 {
                (cursor_line - height / 2) as usize
            } else {
                0
            },
            RecenterPosition::Top => cursor_line,
            RecenterPosition::Bottom => if height == 0 || cursor_line < height - 1 {
                if height == 0 {
                    cursor_line
                } else {
                    0
                }
            } else {
                (cursor_line - (height - 1)) as usize
            },
        },
{
    match position {
        RecenterPosition::Center => cursor_line.saturating_sub(height / 2),
        RecenterPosition::Top => cursor_line,
        RecenterPosition::Bottom => cursor_line.saturating_sub(height.saturating_sub(1)),
    }
}

/// `s` with every line break form made a `\n`: each `\r\n` pair, then each
/// remaining `\r`.
pub open spec fn unify_breaks(s: Seq<char>) -> Seq<char>
    decreases s.len(),
{
    if s.len() == 0 {
        s
    } else if s[0] == '\r' && s.len() > 1 && s[1] == '\n' {
        seq!['\n'] + unify_breaks(s.skip(2))
    } else if s[0] == '\r' {
        seq!['\n'] + unify_breaks(s.skip(1))
    } else {
        seq![s[0]] + unify_breaks(s.skip(1))
    }
}

/// Text about to be pasted: line breaks unified to `\n`, and, in the
/// single-line minibuffer, every break made a space.
pub open spec fn pasted_text(s: Seq<char>, in_minibuffer: bool) -> Seq<char> {
    if in_minibuffer {
        unify_breaks(s).map_values(
            |c: char|
                if c == '\n' {
                    ' '
                } else {
                    c
                },
        )
    } else {
        unify_breaks(s)
    }
}

/// Normalizes text about to be pasted (see `pasted_text`).
pub fn normalized_paste(text: &str, in_minibuffer: bool) -> (r: String)
    ensures
        r@ == pasted_text(text@, in_minibuffer),
{
    let chars = chars_of(text);
    let mut out: Vec<char> = Vec::new();
    let mut i: usize = 0;
    assert(chars@.skip(0) =~= chars@);
    while i < chars.len()
        invariant
            chars@ == text@,
            i <= chars@.len(),
            out@ + pasted_text(chars@.skip(i as int), in_minibuffer) == pasted_text(
                text@,
                in_minibuffer,
            ),
        decreases chars@.len() - i,
    {
        let ghost rest = chars@.skip(i as int);
        let c = chars[i];
        assert(rest[0] == c);
        let brk = if in_minibuffer {
            ' '
        } else {
            '\n'
        };
        if c == '\r' && i + 1 < chars.len() && chars[i + 1] == '\n' {
            assert(rest[1] == chars@[i + 1]);
            assert(rest.skip(2) =~= chars@.skip(i + 2));
            out.push(brk);
            proof {
                assert(unify_breaks(rest) == seq!['\n'] + unify_breaks(rest.skip(2)));
                assert(pasted_text(rest, in_minibuffer) =~= seq![brk] + pasted_text(
                    rest.skip(2),
                    in_minibuffer,
                ));
            }
            assert(out@ + pasted_text(chars@.skip(i + 2), in_minibuffer) =~= pasted_text(
                text@,
                in_minibuffer,
            ));
            i += 2;
        } else {
            assert(rest.skip(1) =~= chars@.skip(i + 1));
            let d = if c == '\r' || (c == '\n' && in_minibuffer) {
                brk
            } else {
                c
            };
            out.push(d);
            proof {
                assert(pasted_text(rest, in_minibuffer) =~= seq![d] + pasted_text(
                    rest.skip(1),
                    in_minibuffer,
                ));
            }
            assert(out@ + pasted_text(chars@.skip(i + 1), in_minibuffer) =~= pasted_text(
                text@,
                in_minibuffer,
            ));
            i += 1;
        }
    }
    assert(out@ =~= pasted_text(text@, in_minibuffer));
    string_of(out.as_slice())
}

/// Pasted text never holds a `\r`, and text pasted into the minibuffer
/// holds no line break at all.
pub proof fn lemma_pasted_text_breaks(s: Seq<char>, in_minibuffer: bool)
    ensures
        forall|i: int|
            0 <= i < pasted_text(s, in_minibuffer).len() ==> #[trigger] pasted_text(
                s,
                in_minibuffer,
            )[i] != '\r',
        in_minibuffer ==> forall|i: int|
            0 <= i < pasted_text(s, true).len() ==> #[trigger] pasted_text(s, true)[i] != '\n',
    decreases s.len(),
{
    lemma_unify_breaks_no_cr(s);
}

/// Unifying line breaks leaves no `\r`.
proof fn lemma_unify_breaks_no_cr(s: Seq<char>)
    ensures
        forall|i: int| 0 <= i < unify_breaks(s).len() ==> #[trigger] unify_breaks(s)[i] != '\r',
    decreases s.len(),
{
    if s.len() > 0 {
        if s[0] == '\r' && s.len() > 1 && s[1] == '\n' {
            lemma_unify_breaks_no_cr(s.skip(2));
            let t = unify_breaks(s.skip(2));
            assert forall|i: int| 0 <= i < unify_breaks(s).len() implies #[trigger] unify_breaks(
                s,
            )[i] != '\r' by {
                if i > 0 {
                    assert(unify_breaks(s)[i] == t[i - 1]);
                }
            }
        } else {
            lemma_unify_breaks_no_cr(s.skip(1));
            let t = unify_breaks(s.skip(1));
            assert forall|i: int| 0 <= i < unify_breaks(s).len() implies #[trigger] unify_breaks(
                s,
            )[i] != '\r' by {
                if i > 0 {
                    assert(unify_breaks(s)[i] == t[i - 1]);
                }
            }
        }
    }
}

/// A vertical motion of point: one line down or up, or a page of the given
/// height down or up.
#[derive(Debug, Clone, Copy, PartialEq, Eq, Structural)]
pub enum LineMotion {
    NextLine,
    PreviousLine,
    PageDown(usize),
    PageUp(usize),
}

/// The line that `motion` takes point from line `l` of a text of `count`
/// lines to: one line down or up when there is one (`None` at the last or
/// first line), a page down or up clamped to the text.
pub open spec fn motion_line(motion: LineMotion, l: nat, count: nat) -> Option<nat> {
    match motion {
        LineMotion::NextLine => if l + 1 < count {
            Some(l + 1)
        } else {
            None
        },
        LineMotion::PreviousLine => if l > 0 {
            Some((l - 1) as nat)
        } else {
            None
        },
        LineMotion::PageDown(h) => Some(
            if l + h < count {
                (l + h) as nat
            } else {
                (count - 1) as nat
            },
        ),
        LineMotion::PageUp(h) => Some(
            if l >= h {
                (l - h) as nat
            } else {
                0
            },
        ),
    }
}

/// What a vertical motion does to the line number `l` of a text of `count`
/// lines: one line moves by exactly one, and fails only at the last (first)
/// line; a page of height `h` moves by exactly `h` lines unless that would
/// leave the text, in which case it stops at the last (first) line.
pub proof fn lemma_motion_moves_by_its_height(l: nat, count: nat, h: usize)
    requires
        l < count,
    ensures
        motion_line(LineMotion::NextLine, l, count) matches Some(r) ==> r == l + 1,
        motion_line(LineMotion::NextLine, l, count) is None <==> l + 1 == count,
        motion_line(LineMotion::PreviousLine, l, count) matches Some(r) ==> r + 1 == l,
        motion_line(LineMotion::PreviousLine, l, count) is None <==> l == 0,
        motion_line(LineMotion::PageDown(h), l, count) matches Some(r) && l <= r < count && (r == l
            + h || (r + 1 == count && l + h >= count)),
        motion_line(LineMotion::PageUp(h), l, count) matches Some(r) && r <= l && (r + h == l || (r
            == 0 && l < h)),
{
}

/// A page up followed by a page down of the same height, from a line at
/// least a page from the top and at least a page from the bottom, comes
/// back to the same line; and so does a page down followed by a page up.
pub proof fn lemma_page_up_then_down(l: nat, count: nat, h: usize)
    requires
        h <= l,
        l + h < count,
    ensures
        motion_line(LineMotion::PageUp(h), l, count) matches Some(u) && motion_line(
            LineMotion::PageDown(h),
            u,
            count,
        ) == Some(l),
        motion_line(LineMotion::PageDown(h), l, count) matches Some(d) && motion_line(
            LineMotion::PageUp(h),
            d,
            count,
        ) == Some(l),
{
}

/// The grapheme boundary at or before char `p` of `s` (`p` itself when it
/// is one).
pub open spec fn snapped_boundary(s: Seq<char>, p: nat) -> nat {
    if is_grapheme_boundary(s, p) {
        p
    } else {
        grapheme_boundary_before(s, p)
    }
}

/// Where `motion` takes `point`, with `preferred` the remembered goal
/// column: `None` when there is no line to move to; else the goal column
/// (the remembered one, or point's own) of the new line, clamped to the
/// line and snapped out of any grapheme cluster, and the goal column,
/// unsnapped, to remember.
pub fn vertical_motion(buf: &Buffer, point: usize, preferred: Option<usize>, motion: LineMotion) -> (res:
    Option<(usize, usize)>)
    requires
        motion matches LineMotion::PageDown(h) ==> line_col(buf.chars(), point as int).0 + h
            <= usize::MAX,
    ensures
        ({
            let s = buf.chars();
            let (l, c) = line_col(s, point as int);
            let goal = match preferred {
                Some(g) => g as nat,
                None => c,
            };
            match motion_line(motion, l, line_count_of(s)) {
                None => res is None,
                Some(nl) => res matches Some((p, g)) && g as nat == goal && p as nat
                    == snapped_boundary(
                    s,
                    line_start(s, nl) + if goal < line_len(s, nl) {
                        goal
                    } else {
                        line_len(s, nl)
                    },
                ),
            }
        }),
{
    let count = buf.line_count();
    let (line, col) = locate(buf, point);
    let goal = match preferred {
        Some(g) => g,
        None => col,
    };
    let new_line = match motion {
        LineMotion::NextLine => {
            if line + 1 < count {
                line + 1
            } else {
                return None;
            }
        },
        LineMotion::PreviousLine => {
            if line > 0 {
                line - 1
            } else {
                return None;
            }
        },
        LineMotion::PageDown(h) => {
            if line + h < count {
                line + h
            } else {
                count - 1
            }
        },
        LineMotion::PageUp(h) => {
            if line >= h {
                line - h
            } else {
                0
            }
        },
    };
    proof {
        lemma_line_bounds(buf.chars(), new_line as nat);
    }
    let p = buf.line_col_to_char(new_line, goal);
    assert(p <= buf.chars().len());
    Some((buf.snap_to_grapheme_boundary(p), goal))
}

} // verus!
