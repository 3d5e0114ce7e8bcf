use fspy::ipc::frame_record;
use fspy::ipc::native_str::{strip_windows_path_prefix, NativePath, NativeStr, NativeString};
use fspy::ipc::{AccessMode, PathAccess, READ_BITS, READ_DIR_BITS, WRITE_BITS};

#[test]
fn access_modes_are_bit_sets() {
    assert_eq!(AccessMode::read().bits(), 1);
    assert_eq!(AccessMode::write().bits(), 2);
    assert_eq!(AccessMode::read_dir().bits(), 4);
    let both = AccessMode::read().union(AccessMode::write());
    assert!(both.contains(AccessMode::read()));
    assert!(!both.contains(AccessMode::read_dir()));
    assert_eq!(AccessMode::from_bits_truncate(0xff).bits(), READ_BITS | WRITE_BITS | READ_DIR_BITS);
    assert_eq!(AccessMode::empty().bits(), 0);
}

#[test]
fn path_accesses_carry_their_mode_and_path() {
    let read = PathAccess::read(b"/etc/passwd");
    assert_eq!(read.mode, AccessMode::read());
    assert_eq!(read.path, b"/etc/passwd".to_vec());
    let listing = PathAccess::read_dir(b"/tmp");
    assert_eq!(listing.mode, AccessMode::read_dir());
}

#[test]
fn lib_test_from_wide() {
    let wide_str: &[u16] = &[528, 491];
    let native_str = NativeStr::from_wide(wide_str);
    assert_eq!(native_str.as_bytes(), &[0x10, 0x02, 0xeb, 0x01]);
    assert_eq!(native_str.to_wide(), wide_str);
    assert_eq!(NativePath::from_wide(wide_str).inner.to_wide(), wide_str);
}

#[test]
fn odd_byte_counts_decode_with_a_zero_high_byte() {
    let native_str = NativeStr::from_bytes(&[0x41, 0x00, 0x42]);
    assert_eq!(native_str.to_wide(), vec![0x41, 0x42]);
    assert_eq!(NativeStr::from_bytes(b"abc").as_bytes(), b"abc");
}

#[test]
fn windows_prefixes_are_stripped_once() {
    assert_eq!(strip_windows_path_prefix(br"\\?\C:\x"), br"C:\x");
    assert_eq!(strip_windows_path_prefix(br"\\.\pipe\x"), br"pipe\x");
    assert_eq!(strip_windows_path_prefix(br"\??\C:\x"), br"C:\x");
    assert_eq!(strip_windows_path_prefix(br"\\server\share"), br"\\server\share");
    assert_eq!(strip_windows_path_prefix(br"\\?"), br"\\?");
}

#[test]
fn records_are_framed_by_their_length() {
    assert_eq!(frame_record(b"abc"), vec![3, 0, 0, 0, b'a', b'b', b'c']);
    assert_eq!(frame_record(b""), vec![0, 0, 0, 0]);
}

#[test]
fn native_string_keeps_non_utf8_bytes() {
    let bytes = b"/tmp/\xff\xfe".to_vec();
    let owned = NativeString::from_bytes(&bytes);
    assert_eq!(owned.as_bytes(), bytes.as_slice());
    assert_eq!(owned.clone(), owned);
}
