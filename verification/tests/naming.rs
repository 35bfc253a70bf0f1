use minimacs::buffer::Buffer;
use minimacs::naming::{unique_buffer_name, unique_buffer_name_excluding};

fn named(id: usize, name: &str) -> Buffer {
    Buffer::from_str(id, name, "")
}

#[test]
fn free_name_is_kept() {
    let bufs = vec![named(0, "a.txt")];
    assert_eq!(unique_buffer_name(&bufs, "b.txt", Some("/x/b.txt")), "b.txt");
}

#[test]
fn collision_is_qualified_by_trailing_directories() {
    let bufs = vec![named(0, "mod.rs")];
    assert_eq!(unique_buffer_name(&bufs, "mod.rs", Some("/b/src/mod.rs")), "mod.rs<src>");
    let bufs = vec![named(0, "mod.rs"), named(1, "mod.rs<src>")];
    assert_eq!(unique_buffer_name(&bufs, "mod.rs", Some("/b/src/mod.rs")), "mod.rs<b/src>");
}

#[test]
fn numbers_when_paths_cannot_tell_apart() {
    let bufs = vec![named(0, "notes")];
    assert_eq!(unique_buffer_name(&bufs, "notes", None), "notes<2>");
    let bufs = vec![named(0, "notes"), named(1, "notes<2>"), named(2, "notes<3>")];
    assert_eq!(unique_buffer_name(&bufs, "notes", None), "notes<4>");
    let bufs = vec![named(0, "f"), named(1, "f<d>")];
    assert_eq!(unique_buffer_name(&bufs, "f", Some("/d/f")), "f<2>");
    let ten: Vec<Buffer> = (0..11)
        .map(|i| if i == 0 { named(0, "x") } else { named(i, &format!("x<{}>", i + 1)) })
        .collect();
    assert_eq!(unique_buffer_name(&ten, "x", None), "x<12>");
}

#[test]
fn excluded_buffer_does_not_count() {
    let bufs = vec![named(7, "a.txt")];
    assert_eq!(unique_buffer_name_excluding(&bufs, "a.txt", None, Some(7)), "a.txt");
    assert_eq!(unique_buffer_name_excluding(&bufs, "a.txt", None, Some(8)), "a.txt<2>");
}

#[test]
fn parent_dir_components_skip_dot_and_dotdot() {
    let bufs = vec![named(0, "m")];
    assert_eq!(unique_buffer_name(&bufs, "m", Some("a/../b/./m")), "m<b>");
    assert_eq!(unique_buffer_name(&bufs, "m", Some("m")), "m<2>");
}
