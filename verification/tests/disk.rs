use minimacs::disk::{changed_on_disk, present_state, DiskState, Stamp};

fn fingerprint_of(state: &DiskState) -> Vec<u8> {
    match state {
        DiskState::Present { fingerprint, .. } => fingerprint.clone(),
        DiskState::Missing => panic!("expected a present file"),
    }
}

#[test]
fn same_bytes_and_time_are_unchanged() {
    let stamp = Some(Stamp { secs: 1_700_000_000, nanos: 5 });
    let seen = present_state(stamp, b"hello\n");
    let now = present_state(stamp, b"hello\n");
    assert!(!changed_on_disk(&seen, Some(&now)));
}

#[test]
fn unreadable_file_counts_as_changed() {
    let seen = present_state(None, b"hello\n");
    assert!(changed_on_disk(&seen, None));
    assert!(changed_on_disk(&DiskState::Missing, None));
}

#[test]
fn different_bytes_count_as_changed() {
    let stamp = Some(Stamp { secs: 10, nanos: 0 });
    let seen = present_state(stamp, b"hello\n");
    let now = present_state(stamp, b"hello!\n");
    assert!(changed_on_disk(&seen, Some(&now)));
}

#[test]
fn different_time_counts_as_changed() {
    let seen = present_state(Some(Stamp { secs: 10, nanos: 0 }), b"same");
    let now = present_state(Some(Stamp { secs: 10, nanos: 1 }), b"same");
    assert!(changed_on_disk(&seen, Some(&now)));
    let unknown = present_state(None, b"same");
    assert!(changed_on_disk(&seen, Some(&unknown)));
}

#[test]
fn missing_file_stays_missing() {
    assert!(!changed_on_disk(&DiskState::Missing, Some(&DiskState::Missing)));
    let created = present_state(None, b"");
    assert!(changed_on_disk(&DiskState::Missing, Some(&created)));
    assert!(changed_on_disk(&created, Some(&DiskState::Missing)));
}

#[test]
fn fingerprint_is_the_sha256_digest() {
    let empty = fingerprint_of(&present_state(None, b""));
    assert_eq!(empty.len(), 32);
    let hex: String = empty.iter().map(|b| format!("{:02x}", b)).collect();
    assert_eq!(hex, "e3b0c44298fc1c149afbf4c8996fb92427ae41e4649b934ca495991b7852b855");
    let abc = fingerprint_of(&present_state(None, b"abc"));
    let hex: String = abc.iter().map(|b| format!("{:02x}", b)).collect();
    assert_eq!(hex, "ba7816bf8f01cfea414140de5dae2223b00361a396177a9cb410ff61f20015ad");
}
