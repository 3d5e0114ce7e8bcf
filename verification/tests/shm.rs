use fspy::channel::conf::{backing_file_name, backing_file_name_from};
use fspy::shm::{
    file_size_to_len, id_from, new_id, opened_size_matches, push_hex_byte, rounded_size, size_tag_matches, valid_size,
    validate_id, ShmError, ShmName, NAME_LEN,
};

const SIZE: usize = 64 * 1024;

#[test]
fn identifiers_are_canonical_darwin_names() {
    let id = new_id(SIZE);
    let suffix = id.strip_prefix(b"/fspy_").unwrap();

    assert_eq!(id.len(), NAME_LEN);
    assert!(id.len() <= 31);
    assert_eq!(suffix.len(), 24);
    assert!(size_tag_matches(&id, SIZE));
    assert!(suffix.iter().all(|byte| byte.is_ascii_digit() || (b'a'..=b'f').contains(byte)));
    assert_eq!(validate_id(&id), Ok(()));
}

#[test]
fn malformed_ids_and_inexact_sizes_are_rejected() {
    for id in [
        "fspy_000000000000000000000000",
        "/fspy_00000000000000000000000",
        "/fspy_0000000000000000000000000",
        "/fspy_00000000000000000000000g",
        "/fspy_00000000000000000000000A",
        "/fspy_00000000000/000000000000",
    ] {
        assert_eq!(validate_id(id.as_bytes()), Err(ShmError::InvalidId));
    }
    assert_eq!(validate_id(b"/fspy_000000000000000000000000"), Ok(()));

    // An object created for SIZE: Darwin reports its page-rounded size,
    // which is SIZE itself.
    let owner = new_id(SIZE);
    assert_eq!(valid_size(0), Err(ShmError::ZeroSize));
    assert!(opened_size_matches(&owner, SIZE, Some(SIZE as u64), 16384));
    assert!(!opened_size_matches(&owner, SIZE - 1, Some(SIZE as u64), 16384));
    assert!(!opened_size_matches(&owner, SIZE + 1, Some(SIZE as u64), 16384));
}

#[test]
fn non_page_aligned_size_reopens_exactly() {
    // Darwin rounds the object of 100 bytes up to a page; the size tag and
    // the rounding together still admit exactly 100.
    let owner = new_id(100);
    assert!(opened_size_matches(&owner, 100, Some(16384), 16384));
    assert!(!opened_size_matches(&owner, 101, Some(16384), 16384));
}

#[test]
fn ids_carry_the_low_bytes_of_the_size() {
    let id = id_from(&[0xab; 10], 0x1234_5678);
    assert_eq!(id, b"/fspy_abababababababababab5678".to_vec());
    assert!(size_tag_matches(&id, 0x5678));
    assert!(!size_tag_matches(&id, 0x5679));
    let mut out = Vec::new();
    push_hex_byte(&mut out, 0x0f);
    assert_eq!(out, b"0f".to_vec());
}

#[test]
fn sizes_round_to_pages_and_must_match() {
    assert_eq!(valid_size(0), Err(ShmError::ZeroSize));
    assert_eq!(valid_size(100), Ok(100));
    assert_eq!(rounded_size(100, 4096), Some(4096));
    assert_eq!(rounded_size(8192, 4096), Some(8192));
    assert_eq!(rounded_size(100, 0x2_0000), None);
    assert_eq!(rounded_size(u64::MAX, 4096), None);
    let id = id_from(&[0; 10], 100);
    assert!(opened_size_matches(&id, 100, Some(100), 4096));
    assert!(opened_size_matches(&id, 100, Some(4096), 4096));
    assert!(!opened_size_matches(&id, 100, Some(8192), 4096));
    assert!(!opened_size_matches(&id, 100, None, 4096));
    assert!(!opened_size_matches(&id, 99, Some(99), 4096));
    assert_eq!(file_size_to_len(4096), 4096);
}

#[test]
fn names_are_held_by_owners_or_openers() {
    assert_eq!(ShmName::Owner(b"/fspy_a".to_vec()).as_str(), b"/fspy_a");
    assert_eq!(ShmName::Opened(b"/fspy_b".to_vec()).as_str(), b"/fspy_b");
}

#[test]
fn backing_files_are_named_by_a_simple_uuid() {
    let name = backing_file_name_from(&[0x01, 0x23, 0x45, 0x67, 0x89, 0xab, 0xcd, 0xef, 0, 1, 2, 3, 4, 5, 6, 7]);
    assert_eq!(name, b"vite-task-fspy-0123456789abcdef0001020304050607.shm".to_vec());
    let fresh = backing_file_name();
    assert_eq!(fresh.len(), 15 + 32 + 4);
    assert!(fresh.starts_with(b"vite-task-fspy-") && fresh.ends_with(b".shm"));
    assert_ne!(backing_file_name(), fresh);
}

#[test]
fn fresh_ids_carry_the_uuid_version_and_variant() {
    for _ in 0..8 {
        let id = new_id(4096);
        assert_eq!(id[6 + 2 * 6], b'4');
        assert!(matches!(id[6 + 2 * 8], b'8' | b'9' | b'a' | b'b'));
    }
}
