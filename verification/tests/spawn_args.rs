use fspy::spawn_args::{check_spawn_args, is_c_string_safe, SpawnArgError};

fn args(list: &[&str]) -> Vec<Vec<u8>> {
    list.iter().map(|a| a.as_bytes().to_vec()).collect()
}

#[test]
fn spawn_args_without_nul_are_accepted() {
    let argv = args(&["/bin/sh", "-c", "echo hi"]);
    let env = vec![(b"PATH".to_vec(), b"/usr/bin".to_vec())];
    assert_eq!(check_spawn_args(&argv, &env, Some(b"/tmp"), b"/dev/pts/3"), Ok(()));
    assert_eq!(check_spawn_args(&argv, &[], None, b"/dev/pts/3"), Ok(()));
}

#[test]
fn an_empty_argv_is_refused_first() {
    assert_eq!(check_spawn_args(&[], &[], None, b"/dev/pts\0"), Err(SpawnArgError::EmptyArgv));
}

#[test]
fn a_nul_anywhere_is_refused() {
    let argv = args(&["/bin/sh"]);
    let bad_argv = vec![b"/bin/sh".to_vec(), b"a\0b".to_vec()];
    assert_eq!(check_spawn_args(&bad_argv, &[], None, b"/dev/pts/3"), Err(SpawnArgError::InteriorNul));
    let bad_name = vec![(b"A\0".to_vec(), b"1".to_vec())];
    assert_eq!(check_spawn_args(&argv, &bad_name, None, b"/dev/pts/3"), Err(SpawnArgError::InteriorNul));
    let bad_value = vec![(b"A".to_vec(), b"\0".to_vec())];
    assert_eq!(check_spawn_args(&argv, &bad_value, None, b"/dev/pts/3"), Err(SpawnArgError::InteriorNul));
    assert_eq!(check_spawn_args(&argv, &[], Some(b"/t\0mp"), b"/dev/pts/3"), Err(SpawnArgError::InteriorNul));
    assert_eq!(check_spawn_args(&argv, &[], None, b"/dev/\0pts"), Err(SpawnArgError::InteriorNul));
}

#[test]
fn c_string_safety_is_the_absence_of_nul() {
    assert!(is_c_string_safe(b""));
    assert!(is_c_string_safe(b"abc"));
    assert!(!is_c_string_safe(b"ab\0c"));
}
