use fspy::artifact::{mode_drifted, wanted_mode, Artifact};

#[test]
fn materialized_names_are_content_addressed() {
    let artifact = Artifact::__new(b"fspy_preload", b"\x7fELF", b"0a1b");
    assert_eq!(artifact.file_name(b".so"), b"fspy_preload_0a1b.so".to_vec());
    assert_eq!(artifact.file_name(b""), b"fspy_preload_0a1b".to_vec());
    assert_eq!(artifact.content(), b"\x7fELF");
}

#[test]
fn modes_follow_executability() {
    assert_eq!(wanted_mode(true), 0o755);
    assert_eq!(wanted_mode(false), 0o644);
    assert!(!mode_drifted(0o100755, 0o755));
    assert!(mode_drifted(0o100644, 0o755));
}
