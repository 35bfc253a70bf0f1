//! A window onto a buffer, and the editing commands that act on the buffer
//! it shows: motion, insertion and deletion, killing, the region, undo and
//! redo. Point and mark are char positions; edits move the mark along with
//! the text around it.
use vstd::prelude::*;

use crate::buffer::{
    grapheme_boundary_after, grapheme_boundary_before, is_grapheme_boundary, line_break_len,
    line_count_of, line_len, line_start, Buffer, EditRecord,
};
use crate::editing::{
    active_region, backward_word_target, dedent_line, dedent_plan, forward_word_target,
    indent_line, indent_plan, line_col, locate, motion_line, newline_text, newline_with_indent,
    next_recenter_position, normalized_paste, pasted_text, recenter_scroll_top, snapped_boundary,
    vertical_motion, LineMotion, PlanView, RecenterPosition,
};
use crate::history::{applied, applied_all, fits_all, EditView, HistoryView};
use crate::text::{chars_of, push_char};

verus! {

/// Where point and mark stand in the buffer a pane shows, the column that
/// vertical motion aims for, and the pane's first line and height.
#[derive(Debug, Clone, Copy, PartialEq, Eq, Structural)]
pub struct Pane {
    pub point: usize,
    pub mark: Option<usize>,
    pub preferred_column: Option<usize>,
    pub scroll_top: usize,
    pub viewport_height: usize,
}

impl Pane {
    /// A pane at the start of its buffer, `viewport_height` lines tall.
    pub fn new(viewport_height: usize) -> (p: Pane)
        ensures
            p == (Pane {
                point: 0,
                mark: None,
                preferred_column: None,
                scroll_top: 0,
                viewport_height,
            }),
    {
        Pane { point: 0, mark: None, preferred_column: None, scroll_top: 0, viewport_height }
    }

    /// Point and mark lie within a text of `len` chars.
    pub open spec fn within(self, len: nat) -> bool {
        &&& self.point <= len
        &&& self.mark matches Some(m) ==> m <= len
    }
}

/// Whether a buffer leaves room for an edit that inserts `extra` chars and
/// for the commands' arithmetic on its positions: texts near a machine
/// word's range are left alone.
pub open spec fn roomy(buf: &Buffer, extra: nat) -> bool {
    &&& 8 * (buf.chars().len() + extra) + 64 <= usize::MAX
    &&& buf.edit_generation + 8 <= usize::MAX
}

fn has_room(buf: &Buffer, extra: usize) -> (b: bool)
    ensures
        b == roomy(buf, extra as nat),
{
    let limit: usize = (usize::MAX - 64) / 8;
    let len = buf.char_count();
    len <= limit && extra <= limit - len && buf.edit_generation <= usize::MAX - 8
}

/// Where a position `m` goes when chars `start .. end` become `inserted`
/// chars: before the edit it stays, after it it shifts, and inside the
/// removed chars it moves to their start.
pub open spec fn moved(m: nat, start: nat, end: nat, inserted: nat) -> nat {
    if m <= start {
        m
    } else if m >= end {
        (m - (end - start) + inserted) as nat
    } else {
        start
    }
}

/// The mark after an edit of chars `start .. end` into `inserted` chars.
pub open spec fn moved_mark(mark: Option<usize>, start: nat, end: nat, inserted: nat) -> Option<usize> {
    match mark {
        Some(m) => Some(moved(m as nat, start, end, inserted) as usize),
        None => None,
    }
}

/// `s` with chars `start .. end` replaced by `t`.
pub open spec fn spliced(s: Seq<char>, start: nat, end: nat, t: Seq<char>) -> Seq<char> {
    s.take(start as int) + t + s.skip(end as int)
}

/// The history after an edit recorded as `record`.
pub open spec fn recorded(
    h: HistoryView,
    record: EditRecord,
    start: nat,
    deleted: Seq<char>,
    inserted: Seq<char>,
) -> HistoryView {
    match record {
        EditRecord::Insert => h.inserting(start as usize, inserted),
        EditRecord::Delete => h.deleting(start as usize, deleted),
        EditRecord::Replace => h.replacing(start as usize, deleted, inserted),
        EditRecord::NoHistory => h,
    }
}

/// The grapheme boundary after `p` in `s` (the end at the end).
pub open spec fn boundary_after(s: Seq<char>, p: nat) -> nat {
    if p >= s.len() {
        s.len()
    } else {
        grapheme_boundary_after(s, p)
    }
}

/// The grapheme boundary before `p` in `s` (0 at the start).
pub open spec fn boundary_before(s: Seq<char>, p: nat) -> nat {
    let q = if p <= s.len() {
        p
    } else {
        s.len()
    };
    if q == 0 {
        0
    } else {
        grapheme_boundary_before(s, q)
    }
}

/// The buffer facts that an edit keeps: everything but the text, the
/// history, the modified flag and the edit generation.
pub open spec fn same_identity(a: &Buffer, b: &Buffer) -> bool {
    &&& a.id == b.id
    &&& a.path == b.path
    &&& a.name == b.name
    &&& a.line_ending == b.line_ending
    &&& a.disk_state == b.disk_state
}

/// Replaces chars `start .. end` of `buf` by `text`, recorded in the history
/// as `record`, and moves the pane's mark with the text; point is left to
/// the caller. Returns the deleted chars.
fn edit(
    buf: &mut Buffer,
    pane: &mut Pane,
    start: usize,
    end: usize,
    text: &str,
    record: EditRecord,
) -> (deleted: String)
    requires
        old(buf).wf(),
        start <= end <= old(buf).chars().len(),
        old(buf).edit_generation < usize::MAX,
        old(buf).chars().len() + text@.len() <= usize::MAX,
        old(pane).within(old(buf).chars().len()),
    ensures
        final(buf).wf(),
        same_identity(old(buf), final(buf)),
        final(pane).mark matches Some(m) ==> m <= final(buf).chars().len(),
        deleted@ == old(buf).chars().subrange(start as int, end as int),
        final(buf).chars() == spliced(old(buf).chars(), start as nat, end as nat, text@),
        final(buf).history@ == recorded(
            old(buf).history@,
            record,
            start as nat,
            deleted@,
            text@,
        ),
        final(buf).edit_generation <= old(buf).edit_generation + 1,
        final(buf).modified == (old(buf).modified || start < end || text@.len() > 0),
        final(pane).point == old(pane).point,
        final(pane).preferred_column == old(pane).preferred_column,
        final(pane).scroll_top == old(pane).scroll_top,
        final(pane).viewport_height == old(pane).viewport_height,
        final(pane).mark == moved_mark(old(pane).mark, start as nat, end as nat, text@.len()),
{
    let ghost s = buf.chars();
    let (deleted, _delta) = buf.apply_edit(start, end, text, record);
    proof {
        let change = crate::history::EditView {
            position: start,
            deleted: s.subrange(start as int, end as int),
            inserted: text@,
        };
        assert(applied(s, change) =~= spliced(s, start as nat, end as nat, text@));
    }
    let n = text.unicode_len();
    match pane.mark {
        Some(m) => {
            let nm = if m <= start {
                m
            } else if m >= end {
                m - (end - start) + n
            } else {
                start
            };
            pane.mark = Some(nm);
        },
        None => {},
    }
    deleted
}

/// `pane` with point at `point` and no goal column.
pub open spec fn moved_to(pane: Pane, point: nat) -> Pane {
    Pane { point: point as usize, preferred_column: None, ..pane }
}

/// Where vertical `motion` takes the pane's point in `s`: `None` when there
/// is no line to move to, else the new point and the goal column to keep
/// (see `vertical_motion`).
pub open spec fn vertical_target(s: Seq<char>, pane: Pane, motion: LineMotion) -> Option<(nat, nat)> {
    let (l, c) = line_col(s, pane.point as int);
    let goal = match pane.preferred_column {
        Some(g) => g as nat,
        None => c,
    };
    match motion_line(motion, l, line_count_of(s)) {
        None => None,
        Some(nl) => Some(
            (
                snapped_boundary(
                    s,
                    line_start(s, nl) + if goal < line_len(s, nl) {
                        goal
                    } else {
                        line_len(s, nl)
                    },
                ),
                goal,
            ),
        ),
    }
}

impl Pane {
    /// `forward-char`: point moves to the next grapheme boundary.
    pub fn forward_char(&mut self, buf: &Buffer)
        ensures
            *final(self) == moved_to(*old(self), boundary_after(buf.chars(), old(self).point as nat)),
    {
        let p = buf.next_grapheme_boundary(self.point);
        self.point = p;
        self.preferred_column = None;
    }

    /// `backward-char`: point moves to the previous grapheme boundary.
    pub fn backward_char(&mut self, buf: &Buffer)
        ensures
            *final(self) == moved_to(*old(self), boundary_before(buf.chars(), old(self).point as nat)),
    {
        let p = buf.prev_grapheme_boundary(self.point);
        self.point = p;
        self.preferred_column = None;
    }

    /// `forward-word`: point moves past the next word.
    pub fn forward_word(&mut self, buf: &Buffer)
        ensures
            *final(self) == moved_to(*old(self), forward_word_target(buf.chars(), old(self).point as int)),
    {
        let p = crate::editing::forward_word_position(buf, self.point);
        self.point = p;
        self.preferred_column = None;
    }

    /// `backward-word`: point moves to the start of the previous word.
    pub fn backward_word(&mut self, buf: &Buffer)
        ensures
            *final(self) == moved_to(*old(self), backward_word_target(buf.chars(), old(self).point as int)),
    {
        let p = crate::editing::backward_word_position(buf, self.point);
        self.point = p;
        self.preferred_column = None;
    }

    /// A vertical motion (`next-line`, `previous-line`, and a page down or
    /// up of the pane's height): point goes to the goal column of the new
    /// line, which is remembered; nothing happens when there is no line to
    /// go to.
    pub fn move_vertically(&mut self, buf: &Buffer, motion: LineMotion)
        ensures
            match vertical_target(buf.chars(), *old(self), motion) {
                None => *final(self) == *old(self),
                Some((p, g)) => *final(self) == (Pane {
                    point: p as usize,
                    preferred_column: Some(g as usize),
                    ..*old(self)
                }),
            },
    {
        let (line, _) = locate(buf, self.point);
        let _count = buf.line_count();
        let m = match motion {
            LineMotion::PageDown(h) => {
                if h <= usize::MAX - line {
                    motion
                } else {
                    LineMotion::PageDown(usize::MAX - line)
                }
            },
            _ => motion,
        };
        proof {
            crate::editing::lemma_line_bounds(buf.chars(), line as nat);
            assert(motion_line(m, line as nat, line_count_of(buf.chars())) == motion_line(
                motion,
                line as nat,
                line_count_of(buf.chars()),
            ));
        }
        match vertical_motion(buf, self.point, self.preferred_column, m) {
            Some((p, g)) => {
                self.point = p;
                self.preferred_column = Some(g);
            },
            None => {},
        }
    }

    /// `beginning-of-line`: point moves to the start of its line.
    pub fn beginning_of_line(&mut self, buf: &Buffer)
        ensures
            *final(self) == moved_to(
                *old(self),
                line_start(buf.chars(), line_col(buf.chars(), old(self).point as int).0),
            ),
    {
        let (line, _) = locate(buf, self.point);
        let p = buf.line_col_to_char(line, 0);
        self.point = p;
        self.preferred_column = None;
    }

    /// `end-of-line`: point moves to the end of its line, before the break.
    pub fn end_of_line(&mut self, buf: &Buffer)
        ensures
            *final(self) == moved_to(
                *old(self),
                ({
                    let l = line_col(buf.chars(), old(self).point as int).0;
                    line_start(buf.chars(), l) + line_len(buf.chars(), l)
                }),
            ),
    {
        let (line, _) = locate(buf, self.point);
        let len = buf.line_len_chars(line);
        let p = buf.line_col_to_char(line, len);
        self.point = p;
        self.preferred_column = None;
    }

    /// `beginning-of-buffer`.
    pub fn buffer_beginning(&mut self)
        ensures
            *final(self) == moved_to(*old(self), 0),
    {
        self.point = 0;
        self.preferred_column = None;
    }

    /// `end-of-buffer`.
    pub fn buffer_end(&mut self, buf: &Buffer)
        ensures
            *final(self) == moved_to(*old(self), buf.chars().len()),
    {
        self.point = buf.char_count();
        self.preferred_column = None;
    }
}

/// The text of `b1` is that of `b0` with chars `start .. end` replaced by
/// `t`, the edit marking it modified when it changed anything; the buffer's
/// identity is kept.
pub open spec fn edited(b0: &Buffer, b1: &Buffer, start: nat, end: nat, t: Seq<char>) -> bool {
    &&& b1.wf()
    &&& same_identity(b0, b1)
    &&& b1.chars() == spliced(b0.chars(), start, end, t)
    &&& b1.modified == (b0.modified || start < end || t.len() > 0)
}

/// `t` inserted at the pane's point, recorded as an insertion: point moves
/// past it and the goal column is dropped.
pub open spec fn inserted_at(b0: &Buffer, b1: &Buffer, p0: Pane, p1: Pane, t: Seq<char>) -> bool {
    let p = p0.point as nat;
    &&& edited(b0, b1, p, p, t)
    &&& b1.history@ == b0.history@.inserting(p as usize, t)
    &&& p1 == (Pane {
        point: (p + t.len()) as usize,
        preferred_column: None,
        mark: moved_mark(p0.mark, p, p, t.len()),
        ..p0
    })
}

/// Chars `start .. end` deleted, recorded as a deletion, point moved to
/// `start` and the goal column dropped.
pub open spec fn deleted_range(
    b0: &Buffer,
    b1: &Buffer,
    p0: Pane,
    p1: Pane,
    start: nat,
    end: nat,
) -> bool {
    &&& edited(b0, b1, start, end, Seq::empty())
    &&& b1.history@ == b0.history@.deleting(start as usize, b0.chars().subrange(start as int, end as int))
    &&& p1 == (Pane {
        point: start as usize,
        preferred_column: None,
        mark: moved_mark(p0.mark, start, end, 0),
        ..p0
    })
}

/// A planned replacement made as one undo step: the plan's chars replace
/// its span, the history records the replacement and closes the group, and
/// point and mark go where the plan says (within the new text).
pub open spec fn plan_made(b0: &Buffer, b1: &Buffer, p0: Pane, p1: Pane, v: PlanView) -> bool {
    let deleted = b0.chars().subrange(v.start as int, v.end as int);
    let len = b1.chars().len();
    &&& edited(b0, b1, v.start as nat, v.end as nat, v.text)
    &&& b1.history@ == b0.history@.replacing(v.start, deleted, v.text).committed()
    &&& p1 == (Pane {
        point: if v.point <= len {
            v.point
        } else {
            len as usize
        },
        preferred_column: None,
        mark: match v.mark {
            Some(m) => Some(
                if m <= len {
                    m
                } else {
                    len as usize
                },
            ),
            None => moved_mark(p0.mark, v.start as nat, v.end as nat, v.text.len()),
        },
        ..p0
    })
}

impl Pane {
    /// `self-insert-command`: `c` goes in at point, which moves past it.
    /// A buffer without room is left alone.
    pub fn insert_char(&mut self, buf: &mut Buffer, c: char)
        requires
            old(buf).wf(),
            old(self).within(old(buf).chars().len()),
        ensures
            final(buf).wf(),
            final(self).within(final(buf).chars().len()),
            roomy(old(buf), 1) ==> inserted_at(old(buf), final(buf), *old(self), *final(self), seq![c]),
            !roomy(old(buf), 1) ==> *final(buf) == *old(buf) && *final(self) == *old(self),
    {
        if !has_room(buf, 1) {
            return;
        }
        let mut t = String::new();
        push_char(&mut t, c);
        assert(t@ =~= seq![c]);
        let pos = self.point;
        edit(buf, self, pos, pos, t.as_str(), EditRecord::Insert);
        self.point = pos + 1;
        self.preferred_column = None;
    }

    /// `newline`: a line break and the current line's indentation go in at
    /// point (see `newline_text`), which moves past them.
    pub fn insert_newline(&mut self, buf: &mut Buffer)
        requires
            old(buf).wf(),
            old(self).within(old(buf).chars().len()),
        ensures
            final(buf).wf(),
            final(self).within(final(buf).chars().len()),
            ({
                let t = newline_text(old(buf).chars(), old(self).point as int);
                &&& roomy(old(buf), t.len()) ==> inserted_at(old(buf), final(buf), *old(self), *final(self), t)
                &&& !roomy(old(buf), t.len()) ==> *final(buf) == *old(buf) && *final(self) == *old(self)
            }),
    {
        if !has_room(buf, 0) {
            return;
        }
        let pos = self.point;
        let t = newline_with_indent(buf, pos);
        let n = t.as_str().unicode_len();
        if !has_room(buf, n) {
            return;
        }
        edit(buf, self, pos, pos, t.as_str(), EditRecord::Insert);
        self.point = pos + n;
        self.preferred_column = None;
    }

    /// Makes a planned replacement as one undo step (see `plan_made`).
    fn make_plan(&mut self, buf: &mut Buffer, plan: &crate::editing::EditPlan)
        requires
            old(buf).wf(),
            old(self).within(old(buf).chars().len()),
            plan.start <= plan.end <= old(buf).chars().len(),
            roomy(old(buf), plan.text@.len()),
        ensures
            final(buf).wf(),
            final(self).within(final(buf).chars().len()),
            plan_made(old(buf), final(buf), *old(self), *final(self), plan@),
    {
        edit(buf, self, plan.start, plan.end, plan.text.as_str(), EditRecord::Replace);
        buf.history.commit();
        let len = buf.char_count();
        self.point = if plan.point <= len {
            plan.point
        } else {
            len
        };
        match plan.mark {
            Some(m) => {
                self.mark = Some(
                    if m <= len {
                        m
                    } else {
                        len
                    },
                );
            },
            None => {},
        }
        self.preferred_column = None;
    }

    /// `indent-line` (Tab): indents the region's lines when there is a mark,
    /// else the line of point (see `indent_plan`), as one undo step.
    pub fn indent(&mut self, buf: &mut Buffer)
        requires
            old(buf).wf(),
            old(self).within(old(buf).chars().len()),
        ensures
            final(buf).wf(),
            final(self).within(final(buf).chars().len()),
            ({
                let v = indent_plan(old(buf).chars(), old(self).point, old(self).mark);
                &&& roomy(old(buf), v.text.len()) ==> plan_made(old(buf), final(buf), *old(self), *final(self), v)
                &&& !roomy(old(buf), v.text.len()) ==> *final(buf) == *old(buf) && *final(self) == *old(self)
            }),
    {
        if !has_room(buf, 0) {
            return;
        }
        let plan = indent_line(buf, self.point, self.mark);
        let n = plan.text.as_str().unicode_len();
        if !has_room(buf, n) {
            return;
        }
        self.make_plan(buf, &plan);
    }

    /// `dedent-line` (Shift-Tab): dedents the region's lines when there is a
    /// mark, else the line of point (see `dedent_plan`), as one undo step;
    /// nothing when there is no leading space to take.
    pub fn dedent(&mut self, buf: &mut Buffer)
        requires
            old(buf).wf(),
            old(self).within(old(buf).chars().len()),
        ensures
            final(buf).wf(),
            final(self).within(final(buf).chars().len()),
            match dedent_plan(old(buf).chars(), old(self).point, old(self).mark) {
                Some(v) => {
                    &&& roomy(old(buf), v.text.len()) ==> plan_made(old(buf), final(buf), *old(self), *final(self), v)
                    &&& !roomy(old(buf), v.text.len()) ==> *final(buf) == *old(buf) && *final(self) == *old(self)
                },
                None => *final(buf) == *old(buf) && *final(self) == *old(self),
            },
    {
        match dedent_line(buf, self.point, self.mark) {
            None => {},
            Some(plan) => {
                let n = plan.text.as_str().unicode_len();
                if !has_room(buf, n) {
                    return;
                }
                self.make_plan(buf, &plan);
            },
        }
    }

    /// `delete-backward-char`: the grapheme before point goes; nothing at
    /// the start of the text.
    pub fn delete_backward(&mut self, buf: &mut Buffer)
        requires
            old(buf).wf(),
            old(self).within(old(buf).chars().len()),
        ensures
            final(buf).wf(),
            final(self).within(final(buf).chars().len()),
            old(self).point > 0 && roomy(old(buf), 0) ==> deleted_range(
                old(buf),
                final(buf),
                *old(self),
                *final(self),
                boundary_before(old(buf).chars(), old(self).point as nat),
                old(self).point as nat,
            ),
            !(old(self).point > 0 && roomy(old(buf), 0)) ==> *final(buf) == *old(buf) && *final(self) == *old(self),
    {
        let pos = self.point;
        if pos == 0 || !has_room(buf, 0) {
            return;
        }
        let start = buf.prev_grapheme_boundary(pos);
        edit(buf, self, start, pos, String::new().as_str(), EditRecord::Delete);
        self.point = start;
        self.preferred_column = None;
    }

    /// `delete-char`: the grapheme after point goes; nothing at the end of
    /// the text.
    pub fn delete_forward(&mut self, buf: &mut Buffer)
        requires
            old(buf).wf(),
            old(self).within(old(buf).chars().len()),
        ensures
            final(buf).wf(),
            final(self).within(final(buf).chars().len()),
            old(self).point < old(buf).chars().len() && roomy(old(buf), 0) ==> deleted_range(
                old(buf),
                final(buf),
                *old(self),
                *final(self),
                old(self).point as nat,
                boundary_after(old(buf).chars(), old(self).point as nat),
            ),
            !(old(self).point < old(buf).chars().len() && roomy(old(buf), 0)) ==> *final(buf) == *old(
                buf,
            ) && *final(self) == *old(self),
    {
        let pos = self.point;
        let len = buf.char_count();
        if pos >= len || !has_room(buf, 0) {
            return;
        }
        let end = buf.next_grapheme_boundary(pos);
        edit(buf, self, pos, end, String::new().as_str(), EditRecord::Delete);
        self.preferred_column = None;
    }

    /// `backward-kill-word` (delete only): the text from the start of the
    /// previous word to point goes; nothing at the start of the text.
    pub fn delete_word_backward(&mut self, buf: &mut Buffer)
        requires
            old(buf).wf(),
            old(self).within(old(buf).chars().len()),
        ensures
            final(buf).wf(),
            final(self).within(final(buf).chars().len()),
            old(self).point > 0 && roomy(old(buf), 0) ==> deleted_range(
                old(buf),
                final(buf),
                *old(self),
                *final(self),
                backward_word_target(old(buf).chars(), old(self).point as int),
                old(self).point as nat,
            ),
            !(old(self).point > 0 && roomy(old(buf), 0)) ==> *final(buf) == *old(buf) && *final(self) == *old(self),
    {
        let pos = self.point;
        if pos == 0 || !has_room(buf, 0) {
            return;
        }
        let start = crate::editing::backward_word_position(buf, pos);
        edit(buf, self, start, pos, String::new().as_str(), EditRecord::Delete);
        self.point = start;
        self.preferred_column = None;
    }
}

/// What `kill-line` at `pos` of `s` removes: to the end of the line, or,
/// at the end of a line, its line break; nothing at the end of the text.
pub open spec fn kill_span(s: Seq<char>, pos: nat) -> Option<(nat, nat)> {
    let (l, col) = line_col(s, pos as int);
    if col == line_len(s, l) {
        if pos == s.len() {
            None
        } else {
            Some((pos, pos + line_break_len(s, l)))
        }
    } else {
        Some((pos, line_start(s, l) + line_len(s, l)))
    }
}

/// Appends the chars of `src` to `dst`.
fn append_str(dst: &mut String, src: &str)
    ensures
        final(dst)@ == old(dst)@ + src@,
{
    let cs = chars_of(src);
    let mut i: usize = 0;
    while i < cs.len()
        invariant
            i <= cs@.len(),
            cs@ == src@,
            dst@ == old(dst)@ + cs@.take(i as int),
        decreases cs@.len() - i,
    {
        push_char(dst, cs[i]);
        assert(cs@.take(i + 1) =~= cs@.take(i as int).push(cs@[i as int]));
        i += 1;
    }
    assert(cs@.take(cs@.len() as int) =~= cs@);
}

/// The chars of a line: none of them is a `\n`, and the line ends at the
/// end of the text or right before a `\n`, which is its break.
proof fn lemma_line_shape(s: Seq<char>, l: nat)
    requires
        l < line_count_of(s),
    ensures
        forall|i: int| line_start(s, l) <= i < line_start(s, l) + line_len(s, l) ==> s[i] != '\n',
        line_break_len(s, l) == 1 ==> line_start(s, l) + line_len(s, l) < s.len() && s[(line_start(s, l)
            + line_len(s, l)) as int] == '\n',
        line_break_len(s, l) == 0 ==> line_start(s, l) + line_len(s, l) == s.len(),
{
    crate::buffer::lemma_line_start_bounds(s, l);
    let ls = line_start(s, l);
    crate::buffer::lemma_next_break_scan(s, ls);
    assert(line_start(s, l + 1) == crate::buffer::next_break(s, ls));
}

/// What `kill-line` at `pos` removes: from `pos`, either the rest of the
/// line (no line break among the killed chars, and the text ends or a line
/// break follows), or, at the end of a line, just its `\n`; nothing only
/// at the end of the text.
pub proof fn lemma_kill_span_shape(s: Seq<char>, pos: nat)
    requires
        pos <= s.len(),
    ensures
        kill_span(s, pos) is None <==> pos == s.len(),
        kill_span(s, pos) matches Some((a, b)) ==> {
            &&& a == pos
            &&& a < b <= s.len()
            &&& (s[a as int] == '\n' && b == a + 1) || ((forall|i: int| a <= i < b ==> s[i] != '\n')
                && (b == s.len() || s[b as int] == '\n'))
        },
{
    crate::buffer::lemma_line_of_char(s, pos);
    crate::buffer::lemma_count_newlines_bound(s, pos);
    let l = line_col(s, pos as int).0;
    let col = line_col(s, pos as int).1;
    assert(l == crate::buffer::count_newlines(s.take(pos as int)));
    crate::editing::lemma_col_within_line(s, pos);
    lemma_line_shape(s, l);
    assert(col == pos - line_start(s, l));
    if col == line_len(s, l) {
        if pos != s.len() {
            assert(line_break_len(s, l) == 1);
        }
    } else {
        assert(col < line_len(s, l));
        if pos == s.len() {
            assert(false);
        }
    }
}

/// The mark kept within a text of `len` chars.
pub open spec fn clamped_mark(mark: Option<usize>, len: nat) -> Option<usize> {
    match mark {
        Some(m) => Some(
            if m <= len {
                m
            } else {
                len as usize
            },
        ),
        None => None,
    }
}

/// `p` kept within a text of `len` chars.
pub open spec fn clamped(p: nat, len: nat) -> nat {
    if p <= len {
        p
    } else {
        len
    }
}

impl Pane {
    /// `kill-line`: the chars of `kill_span` go, as one undo step, into the
    /// clipboard, after what it holds when `append` (a kill right after a
    /// kill), else in its place. Returns whether anything was killed; a
    /// kill of nothing changes nothing.
    pub fn kill_line(&mut self, buf: &mut Buffer, clipboard: &mut String, append: bool) -> (killed:
        bool)
        requires
            old(buf).wf(),
            old(self).within(old(buf).chars().len()),
        ensures
            final(buf).wf(),
            final(self).within(final(buf).chars().len()),
            match kill_span(old(buf).chars(), old(self).point as nat) {
                Some((a, b)) if roomy(old(buf), 0) => {
                    let deleted = old(buf).chars().subrange(a as int, b as int);
                    &&& killed
                    &&& edited(old(buf), final(buf), a, b, Seq::empty())
                    &&& final(buf).history@ == old(buf).history@.deleting(a as usize, deleted).committed()
                    &&& final(clipboard)@ == if append {
                        old(clipboard)@ + deleted
                    } else {
                        deleted
                    }
                    &&& *final(self) == (Pane {
                        preferred_column: None,
                        mark: moved_mark(old(self).mark, a, b, 0),
                        ..*old(self)
                    })
                },
                _ => {
                    &&& !killed
                    &&& *final(buf) == *old(buf)
                    &&& *final(self) == *old(self)
                    &&& *final(clipboard) == *old(clipboard)
                },
            },
    {
        if !has_room(buf, 0) {
            return false;
        }
        let _len = buf.char_count();
        match crate::editing::kill_line_range(buf, self.point) {
            None => false,
            Some((a, b)) => {
                proof {
                    let sc = buf.chars();
                    let lc = line_col(sc, self.point as int);
                    let l = lc.0;
                    crate::buffer::lemma_count_newlines_bound(sc, self.point as nat);
                    crate::editing::lemma_line_bounds(sc, l);
                    if lc.1 == line_len(sc, l) {
                        assert(b as nat == self.point + line_break_len(sc, l));
                    } else {
                        assert(b as nat == line_start(sc, l) + line_len(sc, l));
                    }
                    assert(kill_span(sc, self.point as nat) == Some((a as nat, b as nat)));
                }
                let empty = String::new();
                assert(empty@ =~= Seq::<char>::empty());
                let deleted = edit(buf, self, a, b, empty.as_str(), EditRecord::Delete);
                if append {
                    append_str(clipboard, deleted.as_str());
                } else {
                    *clipboard = deleted;
                }
                buf.history.commit();
                self.preferred_column = None;
                true
            },
        }
    }

    /// `undo`: the history's last group is taken back (see
    /// `HistoryView::undone`). The text goes back to what it was before the
    /// group, whenever the group describes the text; point goes to where the
    /// group's first edit was; and the modified flag follows the history's
    /// clean version. Returns whether there was a group to undo.
    pub fn undo(&mut self, buf: &mut Buffer) -> (undone: bool)
        requires
            old(buf).wf(),
            old(self).within(old(buf).chars().len()),
        ensures
            final(buf).wf(),
            final(self).within(final(buf).chars().len()),
            same_identity(old(buf), final(buf)),
            final(buf).history@ == old(buf).history@.undone().0,
            final(buf).modified == !final(buf).history@.is_clean(),
            final(self).preferred_column == old(self).preferred_column,
            final(self).scroll_top == old(self).scroll_top,
            final(self).viewport_height == old(self).viewport_height,
            final(self).mark == clamped_mark(old(self).mark, final(buf).chars().len()),
            match old(buf).history@.undone().1 {
                Some(g) => {
                    &&& undone
                    &&& old(buf).edit_generation + g.len() <= usize::MAX ==> {
                        &&& forall|t: Seq<char>|
                            fits_all(t, g) && old(buf).chars() == applied_all(t, g) ==> final(buf).chars() == t
                        &&& g.len() > 0 ==> final(self).point == clamped(
                            g[0].position as nat,
                            final(buf).chars().len(),
                        )
                        &&& g.len() == 0 ==> final(self).point == old(self).point
                    }
                    &&& old(buf).edit_generation + g.len() > usize::MAX ==> final(buf).chars()
                        == old(buf).chars() && final(self).point == old(self).point
                },
                None => {
                    &&& !undone
                    &&& final(buf).chars() == old(buf).chars()
                    &&& final(self).point == old(self).point
                },
            },
    {
        match buf.history.undo() {
            Some(group) => {
                let n = group.edits.len();
                if buf.edit_generation <= usize::MAX - n {
                    let ghost c0 = buf.chars();
                    match buf.revert_group(&group) {
                        Some(p) => {
                            self.point = p;
                        },
                        None => {
                            assert(applied_all(c0, group@) == c0);
                        },
                    }
                }
                let _len = buf.char_count();
                buf.update_modified();
                self.keep_within(buf);
                true
            },
            None => {
                buf.update_modified();
                false
            },
        }
    }

    /// `redo`: the last undone group is made again (see
    /// `HistoryView::redone`). The text becomes what the group makes of it,
    /// whenever the group fits the text; point goes to the end of the
    /// group's last insertion; and the modified flag follows the history's
    /// clean version. Returns whether there was a group to redo.
    pub fn redo(&mut self, buf: &mut Buffer) -> (redone: bool)
        requires
            old(buf).wf(),
            old(self).within(old(buf).chars().len()),
        ensures
            final(buf).wf(),
            final(self).within(final(buf).chars().len()),
            same_identity(old(buf), final(buf)),
            final(buf).history@ == old(buf).history@.redone().0,
            final(buf).modified == !final(buf).history@.is_clean(),
            final(self).preferred_column == old(self).preferred_column,
            final(self).scroll_top == old(self).scroll_top,
            final(self).viewport_height == old(self).viewport_height,
            final(self).mark == clamped_mark(old(self).mark, final(buf).chars().len()),
            match old(buf).history@.redone().1 {
                Some(g) => {
                    &&& redone
                    &&& old(buf).edit_generation + g.len() <= usize::MAX ==> {
                        &&& forall|t: Seq<char>|
                            fits_all(t, g) && old(buf).chars() == t ==> final(buf).chars() == applied_all(t, g)
                        &&& g.len() > 0 ==> final(self).point == clamped(
                            (g.last().position + g.last().inserted.len()) as nat,
                            final(buf).chars().len(),
                        )
                        &&& g.len() == 0 ==> final(self).point == old(self).point
                    }
                    &&& old(buf).edit_generation + g.len() > usize::MAX ==> final(buf).chars()
                        == old(buf).chars() && final(self).point == old(self).point
                },
                None => {
                    &&& !redone
                    &&& final(buf).chars() == old(buf).chars()
                    &&& final(self).point == old(self).point
                },
            },
    {
        match buf.history.redo() {
            Some(group) => {
                let n = group.edits.len();
                if buf.edit_generation <= usize::MAX - n {
                    let ghost c0 = buf.chars();
                    match buf.reapply_group(&group) {
                        Some(p) => {
                            self.point = p;
                        },
                        None => {
                            assert(applied_all(c0, group@) == c0);
                        },
                    }
                }
                let _len = buf.char_count();
                buf.update_modified();
                self.keep_within(buf);
                true
            },
            None => {
                buf.update_modified();
                false
            },
        }
    }

    /// Keeps point and mark within the text.
    pub fn keep_within(&mut self, buf: &Buffer)
        ensures
            final(self).point == clamped(old(self).point as nat, buf.chars().len()),
            final(self).mark == clamped_mark(old(self).mark, buf.chars().len()),
            final(self).preferred_column == old(self).preferred_column,
            final(self).scroll_top == old(self).scroll_top,
            final(self).viewport_height == old(self).viewport_height,
    {
        let len = buf.char_count();
        if self.point > len {
            self.point = len;
        }
        match self.mark {
            Some(m) => {
                if m > len {
                    self.mark = Some(len);
                }
            },
            None => {},
        }
    }

    /// `set-mark`: the mark goes to point.
    pub fn set_mark(&mut self)
        ensures
            *final(self) == (Pane { mark: Some(old(self).point), ..*old(self) }),
    {
        self.mark = Some(self.point);
    }

    /// Point and mark trade places; nothing without a mark. Returns whether
    /// there was a mark.
    pub fn swap_point_and_mark(&mut self) -> (swapped: bool)
        ensures
            swapped == old(self).mark is Some,
            match old(self).mark {
                Some(m) => *final(self) == (Pane {
                    point: m,
                    mark: Some(old(self).point),
                    ..*old(self)
                }),
                None => *final(self) == *old(self),
            },
    {
        match self.mark {
            Some(m) => {
                self.mark = Some(self.point);
                self.point = m;
                true
            },
            None => false,
        }
    }

    /// `kill-region`: the region's chars go into the clipboard, as one undo
    /// step; point goes to the region's start and the mark is dropped.
    /// Returns whether there was a region.
    pub fn cut(&mut self, buf: &mut Buffer, clipboard: &mut String) -> (cut: bool)
        requires
            old(buf).wf(),
            old(self).within(old(buf).chars().len()),
        ensures
            final(buf).wf(),
            final(self).within(final(buf).chars().len()),
            cut == old(self).mark is Some,
            match old(self).mark {
                Some(m) if roomy(old(buf), 0) => {
                    let a = if old(self).point <= m { old(self).point } else { m };
                    let b = if old(self).point <= m { m } else { old(self).point };
                    let deleted = old(buf).chars().subrange(a as int, b as int);
                    &&& edited(old(buf), final(buf), a as nat, b as nat, Seq::empty())
                    &&& final(buf).history@ == old(buf).history@.deleting(a, deleted).committed()
                    &&& final(clipboard)@ == deleted
                    &&& *final(self) == (Pane { point: a, mark: None, ..*old(self) })
                },
                _ => {
                    &&& *final(buf) == *old(buf)
                    &&& *final(self) == *old(self)
                    &&& *final(clipboard) == *old(clipboard)
                },
            },
    {
        match active_region(self.point, self.mark) {
            Some((a, b)) => {
                if !has_room(buf, 0) {
                    return true;
                }
                let deleted = edit(buf, self, a, b, String::new().as_str(), EditRecord::Delete);
                buf.history.commit();
                *clipboard = deleted;
                self.point = a;
                self.mark = None;
                true
            },
            None => false,
        }
    }

    /// `copy-region`: the region's chars go into the clipboard and the mark
    /// is dropped. Returns whether there was a region.
    pub fn copy(&mut self, buf: &Buffer, clipboard: &mut String) -> (copied: bool)
        requires
            old(self).within(buf.chars().len()),
        ensures
            copied == old(self).mark is Some,
            match old(self).mark {
                Some(m) => {
                    let a = if old(self).point <= m { old(self).point } else { m };
                    let b = if old(self).point <= m { m } else { old(self).point };
                    &&& final(clipboard)@ == buf.chars().subrange(a as int, b as int)
                    &&& *final(self) == (Pane { mark: None, ..*old(self) })
                },
                None => {
                    &&& *final(self) == *old(self)
                    &&& *final(clipboard) == *old(clipboard)
                },
            },
    {
        match active_region(self.point, self.mark) {
            Some((a, b)) => {
                *clipboard = buf.slice_string(a, b);
                self.mark = None;
                true
            },
            None => false,
        }
    }

    /// Inserts pasted `text` at point as one undo step, its line breaks
    /// normalized (see `pasted_text`); point moves past it. Empty text only
    /// closes the history's group.
    pub fn paste_text(&mut self, buf: &mut Buffer, text: &str, in_minibuffer: bool)
        requires
            old(buf).wf(),
            old(self).within(old(buf).chars().len()),
        ensures
            final(buf).wf(),
            final(self).within(final(buf).chars().len()),
            ({
                let t = pasted_text(text@, in_minibuffer);
                let p = old(self).point as nat;
                if !roomy(old(buf), t.len()) {
                    *final(buf) == *old(buf) && *final(self) == *old(self)
                } else if t.len() == 0 {
                    &&& final(buf).chars() == old(buf).chars()
                    &&& final(buf).history@ == old(buf).history@.committed()
                    &&& *final(self) == *old(self)
                } else {
                    &&& edited(old(buf), final(buf), p, p, t)
                    &&& final(buf).history@ == old(buf).history@.committed().inserting(
                        p as usize,
                        t,
                    ).committed()
                    &&& *final(self) == (Pane {
                        point: (p + t.len()) as usize,
                        preferred_column: None,
                        mark: moved_mark(old(self).mark, p, p, t.len()),
                        ..*old(self)
                    })
                }
            }),
    {
        let t = normalized_paste(text, in_minibuffer);
        let n = t.as_str().unicode_len();
        if !has_room(buf, n) {
            return;
        }
        buf.history.commit();
        if n > 0 {
            let pos = self.point;
            edit(buf, self, pos, pos, t.as_str(), EditRecord::Insert);
            self.point = pos + n;
            self.preferred_column = None;
            buf.history.commit();
        }
    }

    /// `recenter-top-bottom`: the view scrolls to put point's line at the
    /// center, then the top, then the bottom as the command repeats (see
    /// `next_recenter_position`); returns the position used.
    pub fn recenter(&mut self, buf: &Buffer, repeated: bool, last: Option<RecenterPosition>) -> (pos:
        RecenterPosition)
        ensures
            pos == crate::editing::next_recenter_position_spec(repeated, last),
            *final(self) == (Pane {
                scroll_top: crate::editing::recenter_top_spec(
                    pos,
                    line_col(buf.chars(), old(self).point as int).0,
                    old(self).viewport_height as nat,
                ) as usize,
                ..*old(self)
            }),
    {
        let position = next_recenter_position(repeated, last);
        let (line, _) = locate(buf, self.point);
        self.scroll_top = recenter_scroll_top(position, line, self.viewport_height);
        position
    }
}

/// Text without a carriage return pastes as it is.
pub proof fn lemma_paste_keeps_plain_text(t: Seq<char>)
    requires
        forall|i: int| 0 <= i < t.len() ==> t[i] != '\r',
    ensures
        pasted_text(t, false) == t,
    decreases t.len(),
{
    if t.len() > 0 {
        assert(t[0] != '\r');
        let rest = t.skip(1);
        assert forall|i: int| 0 <= i < rest.len() implies rest[i] != '\r' by {
            assert(rest[i] == t[i + 1]);
        }
        lemma_paste_keeps_plain_text(rest);
        assert(seq![t[0]] + rest =~= t);
    }
}

/// A cut followed by a paste of what it took, at the point the cut left,
/// gives the text back, when the cut chars hold no carriage return (a
/// paste turns those into line breaks): in `cut`'s and `paste_text`'s
/// terms, the cut of `start .. end` leaves `spliced(s, start, end, [])`
/// with point at `start`, and the paste inserts `pasted_text` there.
pub proof fn lemma_cut_then_paste_restores(s: Seq<char>, start: nat, end: nat)
    requires
        start <= end <= s.len(),
        forall|i: int| start <= i < end ==> s[i] != '\r',
    ensures
        ({
            let cut = s.subrange(start as int, end as int);
            spliced(spliced(s, start, end, Seq::empty()), start, start, pasted_text(cut, false)) == s
        }),
{
    let cut = s.subrange(start as int, end as int);
    assert forall|i: int| 0 <= i < cut.len() implies cut[i] != '\r' by {
        assert(cut[i] == s[start + i]);
    }
    lemma_paste_keeps_plain_text(cut);
    let mid = spliced(s, start, end, Seq::empty());
    assert(mid.take(start as int) =~= s.take(start as int));
    assert(mid.skip(start as int) =~= s.skip(end as int));
    assert(s.take(start as int) + cut + s.skip(end as int) =~= s);
}

/// A kill followed by a paste of what it took, at point, gives the text
/// back, when the killed chars hold no carriage return: `kill_line` leaves
/// point where its span starts.
pub proof fn lemma_kill_then_paste_restores(s: Seq<char>, pos: nat)
    requires
        pos <= s.len(),
        kill_span(s, pos) matches Some((a, b)) && b <= s.len() && forall|i: int|
            a <= i < b ==> s[i] != '\r',
    ensures
        kill_span(s, pos) matches Some((a, b)) && a == pos && spliced(
            spliced(s, a, b, Seq::empty()),
            a,
            a,
            pasted_text(s.subrange(a as int, b as int), false),
        ) == s,
{
    let (a, b) = kill_span(s, pos)->0;
    crate::buffer::lemma_line_of_char(s, pos);
    let l = line_col(s, pos as int).0;
    let col = line_col(s, pos as int).1;
    assert(l == crate::buffer::count_newlines(s.take(pos as int)));
    assert(line_start(s, l) <= pos);
    assert(col == pos - line_start(s, l));
    if col == line_len(s, l) {
        assert(a == pos && b == pos + line_break_len(s, l));
    } else {
        assert(a == pos && b == line_start(s, l) + line_len(s, l));
        assert(col < line_len(s, l)) by {
            crate::editing::lemma_col_within_line(s, pos);
        }
    }
    assert(a <= b);
    lemma_cut_then_paste_restores(s, a, b);
}

/// The way a split divides a window: side by side or one above the other.
#[derive(Debug, Clone, Copy, PartialEq, Eq, Structural)]
pub enum SplitDir {
    Vertical,
    Horizontal,
}

/// One window of the frame: the buffer it shows and its pane.
#[derive(Debug, Clone, Copy, PartialEq, Eq, Structural)]
pub struct Window {
    pub buffer_id: usize,
    pub pane: Pane,
}

/// The windows of the frame in order, the direction of the split that
/// made each window after the first, and which window has the focus.
pub struct PaneTree {
    pub windows: Vec<Window>,
    pub splits: Vec<SplitDir>,
    pub focus: usize,
}

/// A pane tree as values.
pub struct PaneTreeView {
    pub leaves: Seq<Window>,
    pub splits: Seq<SplitDir>,
    pub focus: nat,
}

impl View for PaneTree {
    type V = PaneTreeView;

    open spec fn view(&self) -> PaneTreeView {
        PaneTreeView { leaves: self.windows@, splits: self.splits@, focus: self.focus as nat }
    }
}

impl PaneTree {
    /// There is a window, the focus is one of them, and each window after
    /// the first has its split.
    pub open spec fn wf(&self) -> bool {
        &&& self.windows@.len() >= 1
        &&& self.focus < self.windows@.len()
        &&& self.splits@.len() + 1 == self.windows@.len()
    }

    /// One window on `buffer`, at its start, focused.
    pub fn new(buffer: usize, viewport_height: usize) -> (t: PaneTree)
        ensures
            t.wf(),
            t@.leaves == seq![Window { buffer_id: buffer, pane: Pane {
                point: 0,
                mark: None,
                preferred_column: None,
                scroll_top: 0,
                viewport_height,
            } }],
            t@.focus == 0,
    {
        let mut windows: Vec<Window> = Vec::new();
        windows.push(Window { buffer_id: buffer, pane: Pane::new(viewport_height) });
        PaneTree { windows, splits: Vec::new(), focus: 0 }
    }

    /// The number of windows.
    pub fn pane_count(&self) -> (n: usize)
        ensures
            n == self@.leaves.len(),
    {
        self.windows.len()
    }

    /// The focused window.
    pub fn focused(&self) -> (w: Window)
        requires
            self.wf(),
        ensures
            w == self@.leaves[self@.focus as int],
    {
        self.windows[self.focus]
    }

    /// Replaces the focused window.
    pub fn set_focused(&mut self, w: Window)
        requires
            old(self).wf(),
        ensures
            final(self).wf(),
            final(self)@.leaves == old(self)@.leaves.update(old(self)@.focus as int, w),
            final(self)@.splits == old(self)@.splits,
            final(self)@.focus == old(self)@.focus,
    {
        let f = self.focus;
        self.windows.set(f, w);
    }

    /// `split-window`: a copy of the focused window, showing the same buffer
    /// at the same point, goes in right after it, split off in direction
    /// `dir`; the focus stays.
    pub fn split(&mut self, dir: SplitDir)
        requires
            old(self).wf(),
            old(self)@.leaves.len() < usize::MAX,
        ensures
            final(self).wf(),
            ({
                let f = old(self)@.focus as int;
                &&& final(self)@.leaves == old(self)@.leaves.insert(f + 1, old(self)@.leaves[f])
                &&& final(self)@.splits == old(self)@.splits.insert(f, dir)
                &&& final(self)@.focus == old(self)@.focus
            }),
    {
        let f = self.focus;
        let w = self.windows[f];
        self.windows.insert(f + 1, w);
        self.splits.insert(f, dir);
    }

    /// `delete-window`: the focused window goes, unless it is the only one;
    /// the focus passes to the window before it (the first window's to the
    /// next). Returns whether a window went.
    pub fn delete_focused(&mut self) -> (r: bool)
        requires
            old(self).wf(),
        ensures
            final(self).wf(),
            r == (old(self)@.leaves.len() > 1),
            ({
                let f = old(self)@.focus as int;
                if r {
                    &&& final(self)@.leaves == old(self)@.leaves.remove(f)
                    &&& final(self)@.splits == old(self)@.splits.remove(if f > 0 { f - 1 } else { 0 })
                    &&& final(self)@.focus == if f > 0 { (f - 1) as nat } else { 0 }
                } else {
                    final(self)@ == old(self)@
                }
            }),
    {
        let n = self.windows.len();
        if n <= 1 {
            return false;
        }
        let f = self.focus;
        self.windows.remove(f);
        let k = if f > 0 {
            f - 1
        } else {
            0
        };
        self.splits.remove(k);
        self.focus = k;
        true
    }

    /// `delete-other-windows`: only the focused window stays.
    pub fn delete_others(&mut self)
        requires
            old(self).wf(),
        ensures
            final(self).wf(),
            final(self)@.leaves == seq![old(self)@.leaves[old(self)@.focus as int]],
            final(self)@.splits.len() == 0,
            final(self)@.focus == 0,
    {
        let w = self.windows[self.focus];
        let mut windows: Vec<Window> = Vec::new();
        windows.push(w);
        self.windows = windows;
        self.splits = Vec::new();
        self.focus = 0;
    }

    /// Every window that shows buffer `old_id` shows buffer `new_id`
    /// instead, from its start; the other windows, the splits and the focus
    /// stay.
    pub fn replace_buffer(&mut self, old_id: usize, new_id: usize)
        requires
            old(self).wf(),
        ensures
            final(self).wf(),
            final(self)@.splits == old(self)@.splits,
            final(self)@.focus == old(self)@.focus,
            final(self)@.leaves.len() == old(self)@.leaves.len(),
            forall|i: int|
                0 <= i < old(self)@.leaves.len() ==> #[trigger] final(self)@.leaves[i] == if old(
                    self,
                )@.leaves[i].buffer_id == old_id {
                    Window {
                        buffer_id: new_id,
                        pane: Pane {
                            point: 0,
                            mark: None,
                            preferred_column: None,
                            scroll_top: 0,
                            viewport_height: old(self)@.leaves[i].pane.viewport_height,
                        },
                    }
                } else {
                    old(self)@.leaves[i]
                },
    {
        let n = self.windows.len();
        let mut i: usize = 0;
        while i < n
            invariant
                n == old(self).windows@.len(),
                self.windows@.len() == n,
                i <= n,
                self.splits == old(self).splits,
                self.focus == old(self).focus,
                forall|j: int|
                    0 <= j < n ==> #[trigger] self.windows@[j] == if j < i && old(
                        self,
                    ).windows@[j].buffer_id == old_id {
                        Window {
                            buffer_id: new_id,
                            pane: Pane {
                                point: 0,
                                mark: None,
                                preferred_column: None,
                                scroll_top: 0,
                                viewport_height: old(self).windows@[j].pane.viewport_height,
                            },
                        }
                    } else {
                        old(self).windows@[j]
                    },
            decreases n - i,
        {
            let w = self.windows[i];
            if w.buffer_id == old_id {
                let fresh = Window { buffer_id: new_id, pane: Pane::new(w.pane.viewport_height) };
                self.windows.set(i, fresh);
            }
            i += 1;
        }
    }

    /// `other-window`: the focus moves to the next window, from the last
    /// back to the first.
    pub fn cycle_focus(&mut self)
        requires
            old(self).wf(),
        ensures
            final(self).wf(),
            final(self)@.leaves == old(self)@.leaves,
            final(self)@.splits == old(self)@.splits,
            final(self)@.focus == (old(self)@.focus + 1) % old(self)@.leaves.len(),
    {
        let n = self.windows.len();
        let f = self.focus;
        if f + 1 < n {
            assert((f + 1) % (n as int) == f + 1) by (nonlinear_arith)
                requires
                    0 <= f + 1 < n,
            ;
            self.focus = f + 1;
        } else {
            assert((f + 1) % (n as int) == 0) by (nonlinear_arith)
                requires
                    f + 1 == n,
                    n > 0,
            ;
            self.focus = 0;
        }
    }
}

} // verus!
