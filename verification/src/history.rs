//! Undo/redo history for a buffer.
//!
//! Edits accumulate in a pending group; consecutive adjacent inserts and
//! consecutive deletes share a group, which is committed to the undo stack
//! when the kind of edit changes, a space or newline is typed, or a
//! non-edit action happens. The history also tracks which version was last
//! saved, so the buffer knows when undo/redo brings it back to the clean
//! state.
use vstd::prelude::*;

use crate::text::{contains_char, copy_str};

verus! {

broadcast use vstd::string::group_string_axioms;

/// A single edit operation, recording what was changed.
#[derive(Debug)]
pub struct Edit {
    /// Char position where the edit occurred.
    pub position: usize,
    /// Text that was deleted (empty for pure insertions).
    pub deleted: String,
    /// Text that was inserted (empty for pure deletions).
    pub inserted: String,
}

/// The content of an [`Edit`]: its position and the chars it deleted and
/// inserted.
pub struct EditView {
    pub position: usize,
    pub deleted: Seq<char>,
    pub inserted: Seq<char>,
}

impl View for Edit {
    type V = EditView;

    open spec fn view(&self) -> EditView {
        EditView { position: self.position, deleted: self.deleted@, inserted: self.inserted@ }
    }
}

impl Clone for Edit {
    fn clone(&self) -> (res: Self)
        ensures
            res@ == self@,
    {
        Edit { position: self.position, deleted: self.deleted.clone(), inserted: self.inserted.clone() }
    }
}

/// A group of edits that should be undone/redone together.
#[derive(Debug)]
pub struct EditGroup {
    pub edits: Vec<Edit>,
}

/// The edits of a group, in the order they were made.
pub open spec fn edits_view(edits: Seq<Edit>) -> Seq<EditView> {
    edits.map_values(|e: Edit| e@)
}

impl View for EditGroup {
    type V = Seq<EditView>;

    open spec fn view(&self) -> Seq<EditView> {
        edits_view(self.edits@)
    }
}

impl Clone for EditGroup {
    fn clone(&self) -> (res: Self)
        ensures
            res@ == self@,
    {
        let edits = self.edits.clone();
        assert(edits_view(edits@) =~= edits_view(self.edits@));
        EditGroup { edits }
    }
}

/// The kind of the most recent edit, which decides how the next one is
/// grouped.
#[derive(Debug, Clone, Copy, PartialEq, Eq, Structural)]
pub enum EditKind {
    Idle,
    Insert,
    Delete,
    Other,
}

/// The state of a [`History`]: the committed groups on the undo and redo
/// stacks (each stack's last element is its top), the pending group, the
/// kind of the last edit, the current version and the clean version
/// (`None` once the clean state became unreachable).
pub struct HistoryView {
    pub undo: Seq<Seq<EditView>>,
    pub redo: Seq<Seq<EditView>>,
    pub pending: Seq<EditView>,
    pub last_kind: EditKind,
    pub version: nat,
    pub clean: Option<nat>,
}

/// The edit that inserts `text` at `position`.
pub open spec fn insert_edit(position: usize, text: Seq<char>) -> EditView {
    EditView { position, deleted: Seq::empty(), inserted: text }
}

/// The edit that deletes `text` at `position`.
pub open spec fn delete_edit(position: usize, text: Seq<char>) -> EditView {
    EditView { position, deleted: text, inserted: Seq::empty() }
}

impl HistoryView {
    /// The history after committing the pending group (no change when it
    /// is empty).
    pub open spec fn committed(self) -> HistoryView {
        if self.pending.len() > 0 {
            HistoryView {
                undo: self.undo.push(self.pending),
                redo: self.redo,
                pending: Seq::empty(),
                last_kind: EditKind::Idle,
                version: self.version + 1,
                clean: self.clean,
            }
        } else {
            self
        }
    }

    /// The history after a new edit discards the redo stack: a clean
    /// version that lay on the discarded redo path becomes unreachable.
    pub open spec fn redo_cleared(self) -> HistoryView {
        if self.redo.len() > 0 {
            HistoryView {
                undo: self.undo,
                redo: Seq::empty(),
                pending: self.pending,
                last_kind: self.last_kind,
                version: self.version,
                clean: match self.clean {
                    Some(cv) => if cv > self.version {
                        None
                    } else {
                        Some(cv)
                    },
                    None => None,
                },
            }
        } else {
            self
        }
    }

    /// The history with `e` appended to the pending group, the last kind
    /// set to `kind`, and the redo stack discarded.
    pub open spec fn with_pending(self, e: EditView, kind: EditKind) -> HistoryView {
        HistoryView {
            undo: self.undo,
            redo: self.redo,
            pending: self.pending.push(e),
            last_kind: kind,
            version: self.version,
            clean: self.clean,
        }.redo_cleared()
    }

    /// Whether an insert of `text` at `position` extends the pending group:
    /// the group is empty, or its last edit is a pure insertion ending
    /// exactly at `position` and `text` holds no space or newline.
    pub open spec fn insert_extends_group(self, position: usize, text: Seq<char>) -> bool {
        if self.pending.len() > 0 {
            let last = self.pending.last();
            &&& last.deleted.len() == 0
            &&& last.position + last.inserted.len() == position
            &&& !text.contains(' ')
            &&& !text.contains('\n')
        } else {
            true
        }
    }

    /// The history after recording an insert.
    pub open spec fn inserting(self, position: usize, text: Seq<char>) -> HistoryView {
        let h1 = if self.last_kind != EditKind::Insert && self.last_kind != EditKind::Idle {
            self.committed()
        } else {
            self
        };
        let h2 = if h1.insert_extends_group(position, text) {
            h1
        } else {
            h1.committed()
        };
        h2.with_pending(insert_edit(position, text), EditKind::Insert)
    }

    /// The history after recording a replacement: it starts a group of its
    /// own.
    pub open spec fn replacing(
        self,
        position: usize,
        deleted: Seq<char>,
        inserted: Seq<char>,
    ) -> HistoryView {
        self.committed().with_pending(
            EditView { position, deleted, inserted },
            EditKind::Other,
        )
    }

    /// The history after recording a delete: consecutive deletes share a
    /// group.
    pub open spec fn deleting(self, position: usize, text: Seq<char>) -> HistoryView {
        let h1 = if self.last_kind != EditKind::Delete && self.last_kind != EditKind::Idle {
            self.committed()
        } else {
            self
        };
        h1.with_pending(delete_edit(position, text), EditKind::Delete)
    }

    /// The history after a non-edit action.
    pub open spec fn action_marked(self) -> HistoryView {
        if self.last_kind != EditKind::Idle {
            self.committed()
        } else {
            self
        }
    }

    /// The history after an undo, and the group it returns: the pending
    /// group is committed first, then the top undo group moves to the redo
    /// stack.
    pub open spec fn undone(self) -> (HistoryView, Option<Seq<EditView>>) {
        let h = self.committed();
        if h.undo.len() > 0 {
            let g = h.undo.last();
            (
                HistoryView {
                    undo: h.undo.drop_last(),
                    redo: h.redo.push(g),
                    pending: h.pending,
                    last_kind: h.last_kind,
                    version: (h.version - 1) as nat,
                    clean: h.clean,
                },
                Some(g),
            )
        } else {
            (h, None)
        }
    }

    /// The history after a redo, and the group it returns: the top redo
    /// group moves back to the undo stack.
    pub open spec fn redone(self) -> (HistoryView, Option<Seq<EditView>>) {
        if self.redo.len() > 0 {
            let g = self.redo.last();
            (
                HistoryView {
                    undo: self.undo.push(g),
                    redo: self.redo.drop_last(),
                    pending: self.pending,
                    last_kind: self.last_kind,
                    version: self.version + 1,
                    clean: self.clean,
                },
                Some(g),
            )
        } else {
            (self, None)
        }
    }

    /// The history with the current version marked clean.
    pub open spec fn marked_clean(self) -> HistoryView {
        HistoryView {
            undo: self.undo,
            redo: self.redo,
            pending: self.pending,
            last_kind: self.last_kind,
            version: self.version,
            clean: Some(self.version),
        }
    }

    /// No uncommitted edits, and the current version is the clean one.
    pub open spec fn is_clean(self) -> bool {
        self.pending.len() == 0 && self.clean == Some(self.version)
    }

    /// The invariant every history keeps: the version counts the undo
    /// groups, and a clean version, when there is one, can still be reached
    /// by undoing or redoing.
    pub open spec fn consistent(self) -> bool {
        &&& self.version == self.undo.len()
        &&& (self.pending.len() > 0 ==> self.redo.len() == 0)
        &&& (self.clean matches Some(cv) ==> cv <= self.version + self.redo.len())
    }
}

/// Undo/redo history for a buffer.
pub struct History {
    undo_stack: Vec<EditGroup>,
    redo_stack: Vec<EditGroup>,
    /// Current uncommitted edits being accumulated.
    current_group: Vec<Edit>,
    /// Track the kind of last edit for grouping decisions.
    last_edit_kind: EditKind,
    /// Monotonic version counter, incremented on each commit.
    version: usize,
    /// Version at which the buffer was last saved/loaded (clean).
    /// `None` means the clean state is unreachable (branch diverged).
    clean_version: Option<usize>,
}

/// The groups of a stack, bottom first.
pub open spec fn groups_view(groups: Seq<EditGroup>) -> Seq<Seq<EditView>> {
    groups.map_values(|g: EditGroup| g@)
}

impl View for History {
    type V = HistoryView;

    closed spec fn view(&self) -> HistoryView {
        HistoryView {
            undo: groups_view(self.undo_stack@),
            redo: groups_view(self.redo_stack@),
            pending: edits_view(self.current_group@),
            last_kind: self.last_edit_kind,
            version: self.version as nat,
            clean: match self.clean_version {
                Some(cv) => Some(cv as nat),
                None => None,
            },
        }
    }
}

impl History {
    /// The history's own invariant.
    pub closed spec fn wf(&self) -> bool {
        &&& self@.consistent()
        &&& self.version == self.undo_stack@.len()
    }

    /// A well-formed history is consistent, so the laws over history views
    /// apply to it.
    pub proof fn lemma_wf_consistent(&self)
        requires
            self.wf(),
        ensures
            self@.consistent(),
    {
    }

    /// An empty history, clean at version 0.
    pub fn new() -> (h: Self)
        ensures
            h.wf(),
            h@.undo.len() == 0,
            h@.redo.len() == 0,
            h@.pending.len() == 0,
            h@.last_kind == EditKind::Idle,
            h@.version == 0,
            h@.clean == Some(0nat),
    {
        let h = Self {
            undo_stack: Vec::new(),
            redo_stack: Vec::new(),
            current_group: Vec::new(),
            last_edit_kind: EditKind::Idle,
            version: 0,
            clean_version: Some(0),
        };
        assert(groups_view(h.undo_stack@) =~= Seq::empty());
        assert(groups_view(h.redo_stack@) =~= Seq::empty());
        assert(edits_view(h.current_group@) =~= Seq::empty());
        h
    }

    /// Record an insert edit. Consecutive inserts at adjacent positions
    /// are grouped together until committed.
    pub fn record_insert(&mut self, position: usize, text: &str)
        requires
            old(self).wf(),
        ensures
            final(self).wf(),
            final(self)@ == old(self)@.inserting(position, text@),
    {
        // If switching from non-insert, commit the previous group
        if self.last_edit_kind != EditKind::Insert && self.last_edit_kind != EditKind::Idle {
            self.commit();
        }
        let ghost h1 = self@;

        // Check if this insert is adjacent to the last one (for grouping)
        let n = self.current_group.len();
        let should_group = if n > 0 {
            let last = &self.current_group[n - 1];
            assert(h1.pending.last() == last@);
            // Positions are char indices, so length must be in chars too.
            let len = last.inserted.as_str().unicode_len();
            last.deleted.as_str().is_empty() && position >= last.position && position
                - last.position == len && !contains_char(text, ' ') && !contains_char(text, '\n')
        } else {
            true
        };
        assert(should_group == h1.insert_extends_group(position, text@));

        if !should_group {
            self.commit();
        }

        // Clear redo stack on new edit
        self.push_pending(
            Edit { position, deleted: String::new(), inserted: copy_str(text) },
            EditKind::Insert,
        );
    }

    /// Record a replacement edit (delete + insert at same position) as a
    /// single edit. This creates a single undo group so the replacement is
    /// undone atomically.
    pub fn record_replace(&mut self, position: usize, deleted_text: &str, inserted_text: &str)
        requires
            old(self).wf(),
        ensures
            final(self).wf(),
            final(self)@ == old(self)@.replacing(position, deleted_text@, inserted_text@),
    {
        // Commit any pending group first
        self.commit();

        self.push_pending(
            Edit { position, deleted: copy_str(deleted_text), inserted: copy_str(inserted_text) },
            EditKind::Other,
        );
    }

    /// Record a delete edit. Consecutive deletes share a group.
    pub fn record_delete(&mut self, position: usize, deleted_text: &str)
        requires
            old(self).wf(),
        ensures
            final(self).wf(),
            final(self)@ == old(self)@.deleting(position, deleted_text@),
    {
        // Commit any pending group first
        if self.last_edit_kind != EditKind::Delete && self.last_edit_kind != EditKind::Idle {
            self.commit();
        }

        // Don't auto-commit deletes - they'll be committed on next non-delete
        // action. Clear redo stack on new edit.
        self.push_pending(
            Edit { position, deleted: copy_str(deleted_text), inserted: String::new() },
            EditKind::Delete,
        );
    }

    /// Appends an edit of the given kind to the pending group and discards
    /// the redo stack.
    fn push_pending(&mut self, e: Edit, kind: EditKind)
        requires
            old(self).wf(),
        ensures
            final(self).wf(),
            final(self)@ == old(self)@.with_pending(e@, kind),
    {
        let ghost e_view = e@;
        self.current_group.push(e);
        assert(edits_view(self.current_group@) =~= edits_view(old(self).current_group@).push(
            e_view,
        ));
        self.last_edit_kind = kind;
        self.clear_redo();
    }

    /// Clear the redo stack, invalidating clean_version if it was on the
    /// redo path.
    fn clear_redo(&mut self)
        requires
            old(self).version == old(self).undo_stack@.len(),
            old(self).clean_version matches Some(cv) ==> cv <= old(self).version + old(
                self,
            ).redo_stack@.len(),
        ensures
            final(self).wf(),
            final(self)@ == old(self)@.redo_cleared(),
    {
        if !self.redo_stack.is_empty() {
            // If the clean version is ahead of current version,
            // it was on the redo path and is now unreachable
            match self.clean_version {
                Some(cv) => {
                    if cv > self.version {
                        self.clean_version = None;
                    }
                },
                None => {},
            }
            self.redo_stack.clear();
            assert(groups_view(self.redo_stack@) =~= Seq::empty());
        }
    }

    /// Commit the current group to the undo stack.
    pub fn commit(&mut self)
        requires
            old(self).wf(),
        ensures
            final(self).wf(),
            final(self)@ == old(self)@.committed(),
    {
        if !self.current_group.is_empty() {
            let mut edits: Vec<Edit> = Vec::new();
            std::mem::swap(&mut edits, &mut self.current_group);
            let group = EditGroup { edits };
            self.undo_stack.push(group);
            assert(groups_view(self.undo_stack@) =~= groups_view(old(self).undo_stack@).push(
                old(self)@.pending,
            ));
            assert(edits_view(self.current_group@) =~= Seq::empty());
            self.version = self.undo_stack.len();
            self.last_edit_kind = EditKind::Idle;
        }
    }

    /// Mark that a non-edit action occurred, which should commit the
    /// current group.
    pub fn mark_action(&mut self)
        requires
            old(self).wf(),
        ensures
            final(self).wf(),
            final(self)@ == old(self)@.action_marked(),
    {
        if self.last_edit_kind != EditKind::Idle {
            self.commit();
        }
    }

    /// Pop the top undo group, returning it for the editor to reverse.
    /// The group is moved to the redo stack.
    pub fn undo(&mut self) -> (res: Option<EditGroup>)
        requires
            old(self).wf(),
        ensures
            final(self).wf(),
            final(self)@ == old(self)@.undone().0,
            match res {
                Some(g) => old(self)@.undone().1 == Some(g@),
                None => old(self)@.undone().1 is None,
            },
    {
        self.commit();  // commit any pending edits first
        let ghost h = self@;
        match self.undo_stack.pop() {
            Some(group) => {
                assert(group@ == h.undo.last());
                assert(groups_view(self.undo_stack@) =~= h.undo.drop_last());
                self.version = self.undo_stack.len();
                let copy = group.clone();
                self.redo_stack.push(copy);
                assert(groups_view(self.redo_stack@) =~= h.redo.push(group@));
                Some(group)
            },
            None => None,
        }
    }

    /// Pop the top redo group, returning it for the editor to re-apply.
    /// The group is moved back to the undo stack.
    pub fn redo(&mut self) -> (res: Option<EditGroup>)
        requires
            old(self).wf(),
        ensures
            final(self).wf(),
            final(self)@ == old(self)@.redone().0,
            match res {
                Some(g) => old(self)@.redone().1 == Some(g@),
                None => old(self)@.redone().1 is None,
            },
    {
        let ghost h = self@;
        match self.redo_stack.pop() {
            Some(group) => {
                assert(group@ == h.redo.last());
                assert(groups_view(self.redo_stack@) =~= h.redo.drop_last());
                let copy = group.clone();
                self.undo_stack.push(copy);
                assert(groups_view(self.undo_stack@) =~= h.undo.push(group@));
                self.version = self.undo_stack.len();
                Some(group)
            },
            None => None,
        }
    }

    /// Mark the current state as "clean" (e.g., after saving).
    pub fn mark_clean(&mut self)
        requires
            old(self).wf(),
        ensures
            final(self).wf(),
            final(self)@ == old(self)@.marked_clean(),
    {
        self.clean_version = Some(self.version);
    }

    /// Check if the buffer is in the clean state (no modifications since
    /// last save/load).
    pub fn is_clean(&self) -> (b: bool)
        requires
            self.wf(),
        ensures
            b == self@.is_clean(),
    {
        self.current_group.is_empty() && match self.clean_version {
            Some(cv) => cv == self.version,
            None => false,
        }
    }
}

/// Undoing a group and then redoing it gives back the same group and the
/// history as it stood with its pending edits committed.
pub proof fn lemma_undo_then_redo(h: HistoryView)
    requires
        h.consistent(),
        h.committed().undo.len() > 0,
    ensures
        h.undone().1 is Some,
        h.undone().0.redone().1 == h.undone().1,
        h.undone().0.redone().0 == h.committed(),
{
    let c = h.committed();
    assert(c.undo.drop_last().push(c.undo.last()) =~= c.undo);
    assert(c.redo.push(c.undo.last()).drop_last() =~= c.redo);
}

/// Redoing a group and then undoing it gives back the same group and the
/// same history.
pub proof fn lemma_redo_then_undo(h: HistoryView)
    requires
        h.consistent(),
        h.redo.len() > 0,
    ensures
        h.redone().1 is Some,
        h.redone().0.undone().1 == h.redone().1,
        h.redone().0.undone().0 == h,
{
    assert(h.undo.push(h.redo.last()).drop_last() =~= h.undo);
    assert(h.redo.drop_last().push(h.redo.last()) =~= h.redo);
}

/// Every edit, however it is recorded, discards the redo stack.
pub proof fn lemma_edit_discards_redo(
    h: HistoryView,
    position: usize,
    deleted: Seq<char>,
    inserted: Seq<char>,
)
    ensures
        h.inserting(position, inserted).redo.len() == 0,
        h.deleting(position, deleted).redo.len() == 0,
        h.replacing(position, deleted, inserted).redo.len() == 0,
{
}

/// Every operation keeps the history consistent: the version counts the
/// undo groups, pending edits never coexist with redo groups, and a clean
/// version stays reachable by undo/redo or is forgotten.
pub proof fn lemma_operations_keep_consistency(
    h: HistoryView,
    position: usize,
    deleted: Seq<char>,
    inserted: Seq<char>,
)
    requires
        h.consistent(),
    ensures
        h.committed().consistent(),
        h.inserting(position, inserted).consistent(),
        h.deleting(position, deleted).consistent(),
        h.replacing(position, deleted, inserted).consistent(),
        h.action_marked().consistent(),
        h.undone().0.consistent(),
        h.redone().0.consistent(),
        h.marked_clean().consistent(),
{
}

/// With no pending edits, marking the history clean makes it clean.
pub proof fn lemma_mark_clean_is_clean(h: HistoryView)
    requires
        h.pending.len() == 0,
    ensures
        h.marked_clean().is_clean(),
{
}

/// From a clean history, one recorded edit followed by an undo returns to
/// the clean state.
pub proof fn lemma_undo_returns_to_clean(
    h: HistoryView,
    position: usize,
    deleted: Seq<char>,
    inserted: Seq<char>,
)
    requires
        h.consistent(),
        h.is_clean(),
    ensures
        !h.inserting(position, inserted).is_clean(),
        h.inserting(position, inserted).undone().0.is_clean(),
        h.deleting(position, deleted).undone().0.is_clean(),
        h.replacing(position, deleted, inserted).undone().0.is_clean(),
{
}

/// Once the clean version lies on a redo path, a new edit discards it: the
/// history cannot be clean again until it is marked clean.
pub proof fn lemma_new_branch_forgets_clean(
    h: HistoryView,
    position: usize,
    deleted: Seq<char>,
    inserted: Seq<char>,
)
    requires
        h.consistent(),
        h.redo.len() > 0,
        h.clean matches Some(cv) && cv > h.version,
    ensures
        h.inserting(position, inserted).clean is None,
        h.deleting(position, deleted).clean is None,
        h.replacing(position, deleted, inserted).clean is None,
{
}

/// `text` with edit `e` made: the chars it deleted, at its position, give
/// way to the chars it inserted.
pub open spec fn applied(text: Seq<char>, e: EditView) -> Seq<char> {
    text.take(e.position as int) + e.inserted + text.skip(e.position + e.deleted.len())
}

/// `text` with edit `e` taken back: the chars it inserted, at its
/// position, give way to the chars it deleted.
pub open spec fn reverted(text: Seq<char>, e: EditView) -> Seq<char> {
    text.take(e.position as int) + e.deleted + text.skip(e.position + e.inserted.len())
}

/// Whether edit `e` describes a change of `text`: the chars it deleted
/// stand at its position.
pub open spec fn fits(text: Seq<char>, e: EditView) -> bool {
    &&& e.position + e.deleted.len() <= text.len()
    &&& text.subrange(e.position as int, e.position + e.deleted.len()) == e.deleted
}

/// `text` after the edits of a group, made in order.
pub open spec fn applied_all(text: Seq<char>, edits: Seq<EditView>) -> Seq<char>
    decreases edits.len(),
{
    if edits.len() == 0 {
        text
    } else {
        applied(applied_all(text, edits.drop_last()), edits.last())
    }
}

/// Whether the edits of a group, made in order from `text`, each describe
/// a change of the text they were made on.
pub open spec fn fits_all(text: Seq<char>, edits: Seq<EditView>) -> bool
    decreases edits.len(),
{
    if edits.len() == 0 {
        true
    } else {
        fits_all(text, edits.drop_last()) && fits(applied_all(text, edits.drop_last()), edits.last())
    }
}

/// `text` with the edits of a group taken back, the last one first.
pub open spec fn reverted_all(text: Seq<char>, edits: Seq<EditView>) -> Seq<char>
    decreases edits.len(),
{
    if edits.len() == 0 {
        text
    } else {
        reverted_all(reverted(text, edits.last()), edits.drop_last())
    }
}

/// Taking back an edit restores the text it was made on, and making it
/// again gives the edited text back.
pub proof fn lemma_revert_applied(text: Seq<char>, e: EditView)
    requires
        fits(text, e),
    ensures
        reverted(applied(text, e), e) == text,
        fits(reverted(applied(text, e), e), e),
        applied(reverted(applied(text, e), e), e) == applied(text, e),
{
    let a = applied(text, e);
    let p = e.position as int;
    assert(a.take(p) =~= text.take(p));
    assert(a.skip(p + e.inserted.len()) =~= text.skip(p + e.deleted.len()));
    assert(text =~= text.take(p) + text.subrange(p, p + e.deleted.len()) + text.skip(
        p + e.deleted.len(),
    ));
}

/// Undo restores the text: taking back, last first, the edits of a group
/// that were made in order on a text gives that text back; and redoing
/// them then gives the edited text again.
pub proof fn lemma_undo_restores_text(text: Seq<char>, edits: Seq<EditView>)
    requires
        fits_all(text, edits),
    ensures
        reverted_all(applied_all(text, edits), edits) == text,
        applied_all(reverted_all(applied_all(text, edits), edits), edits) == applied_all(text, edits),
    decreases edits.len(),
{
    if edits.len() > 0 {
        let front = edits.drop_last();
        let before = applied_all(text, front);
        lemma_revert_applied(before, edits.last());
        lemma_undo_restores_text(text, front);
    }
}

/// The history after recording edit `e` as an edit of kind `kind`.
pub open spec fn recorded_as(h: HistoryView, e: EditView, kind: EditKind) -> HistoryView {
    match kind {
        EditKind::Insert => h.inserting(e.position, e.inserted),
        EditKind::Delete => h.deleting(e.position, e.deleted),
        _ => h.replacing(e.position, e.deleted, e.inserted),
    }
}

/// The history after each edit of `es`, in order, is recorded and its
/// group committed.
pub open spec fn commit_each(h: HistoryView, es: Seq<(EditView, EditKind)>) -> HistoryView
    decreases es.len(),
{
    if es.len() == 0 {
        h
    } else {
        recorded_as(commit_each(h, es.drop_last()), es.last().0, es.last().1).committed()
    }
}

/// The history after `k` undos.
pub open spec fn undo_times(h: HistoryView, k: nat) -> HistoryView
    decreases k,
{
    if k == 0 {
        h
    } else {
        undo_times(h, (k - 1) as nat).undone().0
    }
}

proof fn lemma_commit_each_shape(h: HistoryView, es: Seq<(EditView, EditKind)>)
    requires
        h.consistent(),
        h.is_clean(),
    ensures
        commit_each(h, es).pending.len() == 0,
        commit_each(h, es).version == h.version + es.len(),
        commit_each(h, es).undo.len() == h.undo.len() + es.len(),
        commit_each(h, es).clean == h.clean,
        commit_each(h, es).consistent(),
    decreases es.len(),
{
    if es.len() > 0 {
        lemma_commit_each_shape(h, es.drop_last());
    }
}

proof fn lemma_undo_times_shape(c: HistoryView, k: nat, j: nat)
    requires
        c.consistent(),
        c.pending.len() == 0,
        j <= k <= c.undo.len(),
    ensures
        undo_times(c, j).pending.len() == 0,
        undo_times(c, j).version == c.version - j,
        undo_times(c, j).undo.len() == c.undo.len() - j,
        undo_times(c, j).clean == c.clean,
    decreases j,
{
    if j > 0 {
        lemma_undo_times_shape(c, k, (j - 1) as nat);
    }
}

/// From a clean history, committing any `k` edit groups leaves it unclean
/// (for `k > 0`), and `k` undos then bring it back to the clean state.
pub proof fn lemma_undos_return_to_clean(h: HistoryView, es: Seq<(EditView, EditKind)>)
    requires
        h.consistent(),
        h.is_clean(),
    ensures
        es.len() > 0 ==> !commit_each(h, es).is_clean(),
        undo_times(commit_each(h, es), es.len()).is_clean(),
{
    lemma_commit_each_shape(h, es);
    let c = commit_each(h, es);
    lemma_undo_times_shape(c, es.len(), es.len());
}

/// The history after the chars `cs` are typed one by one from `p` on, each
/// recorded as an insertion.
pub open spec fn typed(h: HistoryView, p: nat, cs: Seq<char>) -> HistoryView
    decreases cs.len(),
{
    if cs.len() == 0 {
        h
    } else {
        typed(h, p, cs.drop_last()).inserting((p + cs.len() - 1) as usize, seq![cs.last()])
    }
}

/// The insertions that typing `cs` from `p` on makes, in order.
pub open spec fn typed_edits(p: nat, cs: Seq<char>) -> Seq<EditView> {
    Seq::new(cs.len(), |i: int| insert_edit((p + i) as usize, seq![cs[i]]))
}

/// No char of `cs` is a space or a line break, the chars that end an
/// insertion group.
pub open spec fn plain_word(cs: Seq<char>) -> bool {
    forall|i: int| 0 <= i < cs.len() ==> cs[i] != ' ' && cs[i] != '\n'
}

proof fn lemma_typed_shape(h: HistoryView, p: nat, cs: Seq<char>)
    requires
        h.consistent(),
        h.pending.len() == 0,
        h.clean == Some(h.version),
        p + cs.len() <= usize::MAX,
        plain_word(cs),
    ensures
        typed(h, p, cs).pending == typed_edits(p, cs),
        typed(h, p, cs).undo == h.undo,
        typed(h, p, cs).version == h.version,
        typed(h, p, cs).clean == h.clean,
        cs.len() > 0 ==> typed(h, p, cs).last_kind == EditKind::Insert,
        cs.len() > 0 ==> typed(h, p, cs).redo.len() == 0,
    decreases cs.len(),
{
    if cs.len() > 0 {
        let init = cs.drop_last();
        assert(plain_word(init)) by {
            assert forall|i: int| 0 <= i < init.len() implies init[i] != ' ' && init[i] != '\n' by {
                assert(init[i] == cs[i]);
            }
        }
        lemma_typed_shape(h, p, init);
        let c = cs.last();
        assert(c == cs[cs.len() - 1]);
        assert(!seq![c].contains(' ')) by {
            if seq![c].contains(' ') {
                let j = choose|j: int| 0 <= j < 1 && seq![c][j] == ' ';
                assert(seq![c][j] == c);
            }
        }
        assert(!seq![c].contains('\n')) by {
            if seq![c].contains('\n') {
                let j = choose|j: int| 0 <= j < 1 && seq![c][j] == '\n';
                assert(seq![c][j] == c);
            }
        }
        assert(typed_edits(p, init).push(insert_edit((p + cs.len() - 1) as usize, seq![c]))
            =~= typed_edits(p, cs));
    }
}

proof fn lemma_typed_text(t: Seq<char>, p: nat, cs: Seq<char>)
    requires
        p <= t.len(),
        p + cs.len() <= usize::MAX,
    ensures
        fits_all(t, typed_edits(p, cs)),
        applied_all(t, typed_edits(p, cs)) == t.take(p as int) + cs + t.skip(p as int),
    decreases cs.len(),
{
    if cs.len() == 0 {
        assert(t.take(p as int) + cs + t.skip(p as int) =~= t);
    } else {
        let init = cs.drop_last();
        lemma_typed_text(t, p, init);
        let es = typed_edits(p, cs);
        assert(es.drop_last() =~= typed_edits(p, init));
        let x = t.take(p as int) + init + t.skip(p as int);
        let e = es.last();
        assert(e == insert_edit((p + cs.len() - 1) as usize, seq![cs.last()]));
        assert(x.subrange(e.position as int, e.position as int) =~= Seq::<char>::empty());
        assert(applied(x, e) =~= t.take(p as int) + cs + t.skip(p as int));
    }
}

/// Typing a word (no space or line break) into a clean history and
/// committing it makes one undo group; undoing it returns the history to
/// its clean state, and the group describes the text it was typed into, so
/// undoing it gives that text back (see `Pane::undo`).
pub proof fn lemma_undo_typed_word(h: HistoryView, t: Seq<char>, p: nat, cs: Seq<char>)
    requires
        h.consistent(),
        h.is_clean(),
        p <= t.len(),
        cs.len() > 0,
        p + cs.len() <= usize::MAX,
        plain_word(cs),
    ensures
        ({
            let h1 = typed(h, p, cs).committed();
            let g = typed_edits(p, cs);
            &&& !h1.is_clean()
            &&& h1.undone().1 == Some(g)
            &&& h1.undone().0.is_clean()
            &&& fits_all(t, g)
            &&& applied_all(t, g) == t.take(p as int) + cs + t.skip(p as int)
        }),
{
    lemma_typed_shape(h, p, cs);
    lemma_typed_text(t, p, cs);
}

/// Grouping: an insert that holds a space or a line break, or that does
/// not continue right where the pending insertion ended, closes the
/// pending group and starts one of its own; a delete or a replacement after
/// an insertion does too.
pub proof fn lemma_group_boundaries(
    h: HistoryView,
    position: usize,
    deleted: Seq<char>,
    inserted: Seq<char>,
)
    requires
        h.pending.len() > 0,
        h.last_kind == EditKind::Insert,
    ensures
        (inserted.contains(' ') || inserted.contains('\n') || h.pending.last().position
            + h.pending.last().inserted.len() != position || h.pending.last().deleted.len() > 0) ==> {
            &&& h.inserting(position, inserted).undo == h.undo.push(h.pending)
            &&& h.inserting(position, inserted).pending == seq![insert_edit(position, inserted)]
        },
        h.deleting(position, deleted).undo == h.undo.push(h.pending),
        h.deleting(position, deleted).pending == seq![delete_edit(position, deleted)],
        h.replacing(position, deleted, inserted).undo == h.undo.push(h.pending),
        h.replacing(position, deleted, inserted).pending == seq![EditView { position, deleted, inserted }],
{
    assert(Seq::<EditView>::empty().push(insert_edit(position, inserted)) =~= seq![insert_edit(position, inserted)]);
    assert(Seq::<EditView>::empty().push(delete_edit(position, deleted)) =~= seq![delete_edit(position, deleted)]);
    assert(Seq::<EditView>::empty().push(EditView { position, deleted, inserted }) =~= seq![EditView { position, deleted, inserted }]);
}

/// A paste is one undo group of its own: after it, undo takes back exactly
/// the pasted insertion.
pub proof fn lemma_paste_is_one_undo_group(h: HistoryView, position: usize, text: Seq<char>)
    requires
        h.consistent(),
        text.len() > 0,
    ensures
        ({
            let h1 = h.committed().inserting(position, text).committed();
            &&& h1.undo == h.committed().undo.push(seq![insert_edit(position, text)])
            &&& h1.undone().1 == Some(seq![insert_edit(position, text)])
        }),
{
    let c = h.committed();
    assert(c.pending.len() == 0);
    let h1 = if c.last_kind != EditKind::Insert && c.last_kind != EditKind::Idle {
        c.committed()
    } else {
        c
    };
    assert(h1 == c);
    assert(c.insert_extends_group(position, text));
    let w = c.with_pending(insert_edit(position, text), EditKind::Insert);
    assert(c.inserting(position, text) == w);
    assert(Seq::<EditView>::empty().push(insert_edit(position, text)) =~= seq![insert_edit(position, text)]);
    assert(w.pending == seq![insert_edit(position, text)]);
    assert(w.undo == c.undo);
}

} // verus!
