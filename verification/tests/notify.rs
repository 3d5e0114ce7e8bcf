use fspy::seccomp::filter::{BPF_RET_K, SECCOMP_RET_ALLOW, SECCOMP_RET_USER_NOTIF};
use fspy::seccomp::notify::{notify_filter, supervisor_filter, SECCOMP_RET_TRACE};
use fspy::seccomp::{Architecture, CodableSockFilter};

fn instruction(code: u16, jt: u8, jf: u8, k: u32) -> CodableSockFilter {
    CodableSockFilter { code, jt, jf, k }
}

#[test]
fn only_trace_verdicts_become_notifications() {
    let program = [
        instruction(0x20, 0, 0, 4),
        instruction(BPF_RET_K, 0, 0, SECCOMP_RET_TRACE),
        instruction(0x15, 1, 0, SECCOMP_RET_TRACE),
        instruction(BPF_RET_K, 0, 0, SECCOMP_RET_ALLOW),
    ];
    let filter = notify_filter(&program);
    assert_eq!(
        filter.0,
        vec![
            instruction(0x20, 0, 0, 4),
            instruction(BPF_RET_K, 0, 0, SECCOMP_RET_USER_NOTIF),
            instruction(0x15, 1, 0, SECCOMP_RET_TRACE),
            instruction(BPF_RET_K, 0, 0, SECCOMP_RET_ALLOW),
        ]
    );
}

#[test]
fn the_supervisor_filter_notifies_monitored_syscalls_and_allows_the_rest() {
    for arch in [Architecture::X86_64, Architecture::Aarch64] {
        let filter = supervisor_filter(&[257, 56], arch).expect("seccompiler builds the filter");
        let verdicts: Vec<u32> = filter.0.iter().filter(|i| i.code == BPF_RET_K).map(|i| i.k).collect();
        assert!(verdicts.contains(&SECCOMP_RET_USER_NOTIF));
        assert!(verdicts.contains(&SECCOMP_RET_ALLOW));
        assert!(!verdicts.contains(&SECCOMP_RET_TRACE));
        let compared: Vec<u32> = filter.0.iter().filter(|i| i.code == 0x15).map(|i| i.k).collect();
        assert!(compared.contains(&257) && compared.contains(&56));
    }
}

#[test]
fn a_supervisor_filter_without_syscalls_allows_everything() {
    let filter = supervisor_filter(&[], Architecture::X86_64).expect("seccompiler builds the filter");
    assert_eq!(filter.0.last(), Some(&instruction(BPF_RET_K, 0, 0, SECCOMP_RET_ALLOW)));
    assert!(filter.0.iter().all(|i| i.k != SECCOMP_RET_USER_NOTIF));
}
