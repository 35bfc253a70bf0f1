use minimacs::buffer::Buffer;
use minimacs::buffers::kill_buffer_by_id;

fn names(bufs: &[Buffer]) -> Vec<String> {
    bufs.iter().map(|b| b.name.clone()).collect()
}

#[test]
fn killing_another_buffer_keeps_the_current_one() {
    let mut bufs = vec![
        Buffer::from_str(0, "a", ""),
        Buffer::from_str(1, "b", ""),
        Buffer::from_str(2, "c", ""),
    ];
    let mut current = 2;
    let mut alternate = Some(0);
    let mut next = 3;
    let killed = kill_buffer_by_id(&mut bufs, &mut current, &mut alternate, &mut next, 0);
    assert!(!killed);
    assert_eq!(names(&bufs), vec!["b", "c"]);
    assert_eq!(current, 1);
    assert_eq!(alternate, None);
    assert_eq!(next, 3);
}

#[test]
fn killing_the_current_buffer_shows_the_first() {
    let mut bufs = vec![Buffer::from_str(0, "a", ""), Buffer::from_str(1, "b", "")];
    let mut current = 1;
    let mut alternate = Some(0);
    let mut next = 2;
    let killed = kill_buffer_by_id(&mut bufs, &mut current, &mut alternate, &mut next, 1);
    assert!(killed);
    assert_eq!(names(&bufs), vec!["a"]);
    assert_eq!(current, 0);
    assert_eq!(alternate, Some(0));
}

#[test]
fn killing_the_last_buffer_makes_a_scratch_buffer() {
    let mut bufs = vec![Buffer::from_str(4, "only", "text")];
    let mut current = 0;
    let mut alternate = None;
    let mut next = 5;
    assert!(kill_buffer_by_id(&mut bufs, &mut current, &mut alternate, &mut next, 4));
    assert_eq!(names(&bufs), vec!["*scratch*"]);
    assert_eq!(bufs[0].id, 5);
    assert_eq!(next, 6);
    assert_eq!(current, 0);
}

#[test]
fn killing_an_unknown_id_changes_nothing() {
    let mut bufs = vec![Buffer::from_str(0, "a", ""), Buffer::from_str(1, "b", "")];
    let mut current = 1;
    let mut alternate = Some(0);
    let mut next = 2;
    assert!(!kill_buffer_by_id(&mut bufs, &mut current, &mut alternate, &mut next, 9));
    assert_eq!(names(&bufs), vec!["a", "b"]);
    assert_eq!(current, 1);
    assert_eq!(alternate, Some(0));
}

#[test]
fn a_buffer_is_shown_where_it_was_last_left() {
    let mut views = Vec::new();
    let v = |id, point, top| minimacs::buffers::SavedView { buffer_id: id, point, mark: Some(point + 2), scroll_top: top };
    minimacs::buffers::remember_view(&mut views, v(1, 5, 2));
    minimacs::buffers::remember_view(&mut views, v(2, 9, 0));
    minimacs::buffers::remember_view(&mut views, v(1, 7, 3));
    assert_eq!(minimacs::buffers::recall_view(&views, 1, 100), (7, Some(9), 3));
    assert_eq!(minimacs::buffers::recall_view(&views, 1, 8), (7, Some(8), 3));
    assert_eq!(minimacs::buffers::recall_view(&views, 2, 4), (4, Some(4), 0));
    assert_eq!(minimacs::buffers::recall_view(&views, 3, 4), (0, None, 0));
}

#[test]
fn switching_goes_to_the_named_or_the_alternate_buffer() {
    let bufs = vec![Buffer::from_str(0, "a", ""), Buffer::from_str(5, "b", "")];
    assert_eq!(minimacs::buffers::switch_target(&bufs, "b", None), Some(1));
    assert_eq!(minimacs::buffers::switch_target(&bufs, "c", Some(0)), None);
    assert_eq!(minimacs::buffers::switch_target(&bufs, "", Some(5)), Some(1));
    assert_eq!(minimacs::buffers::switch_target(&bufs, "", None), None);
    assert_eq!(minimacs::buffers::switch_target(&bufs, "", Some(9)), None);
}
