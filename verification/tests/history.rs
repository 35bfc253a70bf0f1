use minimacs::history::History;

#[test]
fn basic_undo() {
    let mut hist = History::new();
    hist.record_insert(0, "h");
    hist.record_insert(1, "i");
    hist.commit();

    let group = hist.undo().unwrap();
    assert_eq!(group.edits.len(), 2);
    assert_eq!(group.edits[0].inserted, "h");
    assert_eq!(group.edits[1].inserted, "i");
}

#[test]
fn history_undo_redo_roundtrip() {
    let mut hist = History::new();
    hist.record_insert(0, "a");
    hist.record_insert(1, "b");
    hist.commit();

    let group = hist.undo().unwrap();
    assert_eq!(group.edits.len(), 2);

    let group = hist.redo().unwrap();
    assert_eq!(group.edits.len(), 2);
    assert_eq!(group.edits[0].inserted, "a");
}

#[test]
fn redo_cleared_on_new_edit() {
    let mut hist = History::new();
    hist.record_insert(0, "a");
    hist.commit();
    hist.undo();

    hist.record_insert(0, "b");
    hist.commit();

    assert!(hist.redo().is_none());
}

#[test]
fn consecutive_inserts_group_together() {
    let mut hist = History::new();
    hist.record_insert(0, "h");
    hist.record_insert(1, "e");
    hist.record_insert(2, "l");
    hist.record_insert(3, "l");
    hist.record_insert(4, "o");
    hist.commit();

    let group = hist.undo().unwrap();
    assert_eq!(group.edits.len(), 5);
}

#[test]
fn multibyte_inserts_group_together() {
    let mut hist = History::new();
    hist.record_insert(0, "é");
    hist.record_insert(1, "x");
    hist.record_insert(2, "ü");
    hist.commit();

    let group = hist.undo().unwrap();
    assert_eq!(group.edits.len(), 3);
}

#[test]
fn space_breaks_insert_group() {
    let mut hist = History::new();
    hist.record_insert(0, "h");
    hist.record_insert(1, "i");
    hist.record_insert(2, " ");
    hist.record_insert(3, "y");
    hist.record_insert(4, "o");
    hist.commit();

    let group2 = hist.undo().unwrap();
    assert_eq!(group2.edits.len(), 3);

    let group1 = hist.undo().unwrap();
    assert_eq!(group1.edits.len(), 2);
}

#[test]
fn delete_grouping() {
    let mut hist = History::new();
    hist.record_delete(4, "o");
    hist.record_delete(3, "l");
    hist.commit();

    let group = hist.undo().unwrap();
    assert_eq!(group.edits.len(), 2);
}

#[test]
fn switching_edit_kind_commits() {
    let mut hist = History::new();
    hist.record_insert(0, "a");
    hist.record_insert(1, "b");
    hist.record_delete(1, "b");
    hist.commit();

    let delete_group = hist.undo().unwrap();
    assert_eq!(delete_group.edits.len(), 1);
    assert_eq!(delete_group.edits[0].deleted, "b");

    let insert_group = hist.undo().unwrap();
    assert_eq!(insert_group.edits.len(), 2);
}

#[test]
fn empty_undo_returns_none() {
    let mut hist = History::new();
    assert!(hist.undo().is_none());
}

#[test]
fn empty_redo_returns_none() {
    let mut hist = History::new();
    assert!(hist.redo().is_none());
}

#[test]
fn initially_clean() {
    let hist = History::new();
    assert!(hist.is_clean());
}

#[test]
fn dirty_after_edit() {
    let mut hist = History::new();
    hist.record_insert(0, "a");
    assert!(!hist.is_clean());
}

#[test]
fn clean_after_undo_to_origin() {
    let mut hist = History::new();
    hist.record_insert(0, "a");
    hist.commit();
    assert!(!hist.is_clean());
    hist.undo();
    assert!(hist.is_clean());
}

#[test]
fn clean_after_mark_clean() {
    let mut hist = History::new();
    hist.record_insert(0, "a");
    hist.commit();
    hist.mark_clean();
    assert!(hist.is_clean());
}

#[test]
fn clean_after_undo_redo_to_clean_point() {
    let mut hist = History::new();
    hist.record_insert(0, "a");
    hist.commit();
    hist.mark_clean();
    hist.record_insert(1, "b");
    hist.commit();
    assert!(!hist.is_clean());
    hist.undo();
    assert!(hist.is_clean());
}

#[test]
fn dirty_after_branch_diverges() {
    let mut hist = History::new();
    hist.record_insert(0, "a");
    hist.commit();
    hist.mark_clean();
    hist.undo();
    hist.record_insert(0, "b");
    hist.commit();
    assert!(!hist.is_clean());
}

// Laws on concrete values.

#[test]
fn undo_then_redo_gives_back_the_same_group() {
    let mut hist = History::new();
    hist.record_insert(0, "x");
    hist.record_insert(1, "y");
    hist.commit();
    let undone = hist.undo().unwrap();
    let redone = hist.redo().unwrap();
    assert_eq!(undone.edits.len(), redone.edits.len());
    for (a, b) in undone.edits.iter().zip(redone.edits.iter()) {
        assert_eq!(a.position, b.position);
        assert_eq!(a.inserted, b.inserted);
        assert_eq!(a.deleted, b.deleted);
    }
    // After the round trip the group is undoable again.
    assert!(hist.undo().is_some());
    assert!(hist.undo().is_none());
}

#[test]
fn replace_is_its_own_group() {
    let mut hist = History::new();
    hist.record_insert(0, "a");
    hist.record_replace(0, "a", "bb");
    hist.commit();
    let group = hist.undo().unwrap();
    assert_eq!(group.edits.len(), 1);
    assert_eq!(group.edits[0].deleted, "a");
    assert_eq!(group.edits[0].inserted, "bb");
    let group = hist.undo().unwrap();
    assert_eq!(group.edits.len(), 1);
    assert_eq!(group.edits[0].inserted, "a");
}

#[test]
fn mark_action_starts_a_new_group() {
    let mut hist = History::new();
    hist.record_insert(0, "a");
    hist.mark_action();
    hist.record_insert(1, "b");
    hist.commit();
    assert_eq!(hist.undo().unwrap().edits.len(), 1);
    assert_eq!(hist.undo().unwrap().edits.len(), 1);
}

#[test]
fn non_adjacent_insert_starts_a_new_group() {
    let mut hist = History::new();
    hist.record_insert(0, "a");
    hist.record_insert(5, "b");
    hist.commit();
    let group = hist.undo().unwrap();
    assert_eq!(group.edits.len(), 1);
    assert_eq!(group.edits[0].position, 5);
}

#[test]
fn forward_delete_groups_at_same_position() {
    let mut hist = History::new();
    hist.record_delete(2, "a");
    hist.record_delete(2, "b");
    hist.commit();
    assert_eq!(hist.undo().unwrap().edits.len(), 2);
}

#[test]
fn k_committed_groups_and_k_undos_return_to_clean() {
    let mut h = History::new();
    h.mark_clean();
    assert!(h.is_clean());
    h.record_insert(0, "a");
    h.commit();
    h.record_delete(0, "a");
    h.commit();
    h.record_insert(0, "xyz");
    h.commit();
    assert!(!h.is_clean());
    assert!(h.undo().is_some());
    assert!(h.undo().is_some());
    assert!(!h.is_clean());
    assert!(h.undo().is_some());
    assert!(h.is_clean());
}
