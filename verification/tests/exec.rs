use fspy::exec::{exec_search_path, Exec};
use fspy::exec::{append_path_env, ensure_env, EnvEntry, EINVAL};

fn entry(name: &str, value: Option<&str>) -> EnvEntry {
    (name.as_bytes().to_vec(), value.map(|v| v.as_bytes().to_vec()))
}

fn env(envs: &[EnvEntry], name: &[u8]) -> Option<Vec<u8>> {
    envs.iter().find(|(n, _)| n.as_slice() == name).and_then(|(_, v)| v.clone())
}

#[test]
fn inserts_when_absent() {
    let mut envs: Vec<EnvEntry> = vec![];
    append_path_env(&mut envs, b"LD_PRELOAD", b"/a.so");
    assert_eq!(env(&envs, b"LD_PRELOAD"), Some(b"/a.so".to_vec()));
}

#[test]
fn noop_when_equal() {
    let mut envs = vec![entry("LD_PRELOAD", Some("/a.so"))];
    append_path_env(&mut envs, b"LD_PRELOAD", b"/a.so");
    assert_eq!(env(&envs, b"LD_PRELOAD"), Some(b"/a.so".to_vec()));
}

#[test]
fn noop_when_value_is_last_entry() {
    let mut envs = vec![entry("LD_PRELOAD", Some("/user.so:/a.so"))];
    append_path_env(&mut envs, b"LD_PRELOAD", b"/a.so");
    assert_eq!(env(&envs, b"LD_PRELOAD"), Some(b"/user.so:/a.so".to_vec()));
}

#[test]
fn appends_with_colon_when_present_and_different() {
    let mut envs = vec![entry("LD_PRELOAD", Some("/user.so"))];
    append_path_env(&mut envs, b"LD_PRELOAD", b"/a.so");
    assert_eq!(env(&envs, b"LD_PRELOAD"), Some(b"/user.so:/a.so".to_vec()));
}

#[test]
fn sets_without_leading_colon_when_existing_is_empty() {
    let mut envs = vec![entry("LD_PRELOAD", Some(""))];
    append_path_env(&mut envs, b"LD_PRELOAD", b"/a.so");
    assert_eq!(env(&envs, b"LD_PRELOAD"), Some(b"/a.so".to_vec()));
}

#[test]
fn idempotent_on_repeat() {
    let mut envs: Vec<EnvEntry> = vec![];
    append_path_env(&mut envs, b"LD_PRELOAD", b"/a.so");
    append_path_env(&mut envs, b"LD_PRELOAD", b"/a.so");
    append_path_env(&mut envs, b"LD_PRELOAD", b"/a.so");
    assert_eq!(env(&envs, b"LD_PRELOAD"), Some(b"/a.so".to_vec()));
}

#[test]
fn does_not_false_match_prefix_without_preceding_colon() {
    // `/lib/a.so` ends with `a.so` as bytes, but the preceding byte is `/`,
    // not `:`, so it must not be treated as already present.
    let mut envs = vec![entry("LD_PRELOAD", Some("/lib/a.so"))];
    append_path_env(&mut envs, b"LD_PRELOAD", b"a.so");
    assert_eq!(env(&envs, b"LD_PRELOAD"), Some(b"/lib/a.so:a.so".to_vec()));
}

#[test]
fn inserts_when_present_with_none_value() {
    // An entry present with no value (a name without `=`) is rewritten to
    // `Some(value)`.
    let mut envs = vec![entry("LD_PRELOAD", None)];
    append_path_env(&mut envs, b"LD_PRELOAD", b"/a.so");
    assert_eq!(env(&envs, b"LD_PRELOAD"), Some(b"/a.so".to_vec()));
}

#[test]
fn other_entries_are_left_in_place() {
    let mut envs = vec![entry("HOME", Some("/root")), entry("LD_PRELOAD", Some("/u.so")), entry("PATH", None)];
    append_path_env(&mut envs, b"LD_PRELOAD", b"/a.so");
    assert_eq!(
        envs,
        vec![entry("HOME", Some("/root")), entry("LD_PRELOAD", Some("/u.so:/a.so")), entry("PATH", None)]
    );
}

#[test]
fn ensure_env_adds_keeps_or_refuses() {
    let mut envs = vec![entry("FSPY_PAYLOAD", None)];
    assert_eq!(ensure_env(&mut envs, b"FSPY_PAYLOAD", b"abc"), Ok(()));
    assert_eq!(envs, vec![entry("FSPY_PAYLOAD", None), entry("FSPY_PAYLOAD", Some("abc"))]);
    assert_eq!(ensure_env(&mut envs, b"FSPY_PAYLOAD", b"abc"), Ok(()));
    assert_eq!(envs.len(), 2);
    assert_eq!(ensure_env(&mut envs, b"FSPY_PAYLOAD", b"xyz"), Err(EINVAL));
    assert_eq!(envs.len(), 2);
    assert_eq!(EINVAL, libc::EINVAL);
}

#[test]
fn a_shebang_runs_the_script_through_its_interpreter() {
    let mut exec = Exec {
        program: b"/usr/local/bin/tool".to_vec(),
        args: vec![b"tool".to_vec(), b"--flag".to_vec()],
        envs: vec![entry("A", Some("1"))],
    };
    exec.apply_shebang(b"/usr/bin/env", &[b"python3".to_vec()]);
    assert_eq!(exec.program, b"/usr/bin/env".to_vec());
    assert_eq!(
        exec.args,
        vec![b"/usr/bin/env".to_vec(), b"python3".to_vec(), b"/usr/local/bin/tool".to_vec(), b"--flag".to_vec()]
    );
    assert_eq!(exec.envs, vec![entry("A", Some("1"))]);
}

#[test]
fn search_path_prefers_the_callers_then_path_then_the_default() {
    assert_eq!(exec_search_path(Some(b"/opt/bin"), Some(b"/usr/bin")), b"/opt/bin".to_vec());
    assert_eq!(exec_search_path(None, Some(b"/usr/bin:/bin")), b"/usr/bin:/bin".to_vec());
    assert_eq!(exec_search_path(None, None), b"/usr/local/bin:/bin:/usr/bin".to_vec());
    assert_eq!(exec_search_path(Some(b""), None), Vec::<u8>::new());
}

#[test]
fn appending_an_empty_entry_keeps_the_value_last() {
    let mut envs = vec![entry("LD_PRELOAD", Some("a.so"))];
    append_path_env(&mut envs, b"LD_PRELOAD", b"");
    assert_eq!(envs, vec![entry("LD_PRELOAD", Some("a.so:"))]);
    let mut unset = vec![entry("LD_PRELOAD", None)];
    append_path_env(&mut unset, b"LD_PRELOAD", b"");
    assert_eq!(unset, vec![entry("LD_PRELOAD", None)]);
}
