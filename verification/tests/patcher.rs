use fspy::intercept::arch;
use fspy::intercept::gate::{allowed_gate, choose_gate, gate_layout, gate_page_image, GateLayout};
use fspy::intercept::patcher::{
    align_up, align_up_checked, is_monitored_symbol, patch_matches_site, select_non_overlapping, site_clear_of_targets,
    site_page_range, sort_by_address, trampoline_offsets, PatchSite, PROT_READ_EXEC,
};
use fspy::intercept::{aarch64, x86_64};
use fspy::seccomp::Architecture;

fn site(address: usize, overwrite_length: usize) -> PatchSite {
    PatchSite { address, overwrite_length, displaced: Vec::new(), restore_protection: PROT_READ_EXEC }
}

#[test]
fn checked_alignment_rejects_overflow() {
    assert_eq!(align_up_checked(1, 4096), Some(4096));
    assert_eq!(align_up_checked(4096, 4096), Some(4096));
    assert_eq!(align_up_checked(usize::MAX, 4096), None);
}

#[test]
fn branch_limit_constant_matches_architecture_encoder() {
    let x86 = PatchSite {
        address: 0x1_0000_0000,
        overwrite_length: 5,
        displaced: Vec::new(),
        restore_protection: libc::PROT_READ | libc::PROT_EXEC,
    };
    assert!(x86_64::encode_site_branch(&x86, x86.address + x86_64::MAX_BRANCH_DISTANCE).is_some());
    let arm = site(0x1_0000_0000, 4);
    assert!(aarch64::encode_site_branch(&arm, arm.address + aarch64::MAX_BRANCH_DISTANCE).is_some());
}

#[test]
fn configured_pc_can_contain_gate_and_return() {
    let post_syscall_pc = 0x0000_0001_0000_0008usize;
    let page_start = post_syscall_pc & !4095;
    for (landing, instruction, ret) in [
        (&x86_64::LANDING_PAD[..], &x86_64::ALLOWED_GATE_INSTRUCTION[..], &x86_64::RETURN_INSTRUCTION[..]),
        (&aarch64::LANDING_PAD[..], &aarch64::ALLOWED_GATE_INSTRUCTION[..], &aarch64::RETURN_INSTRUCTION[..]),
    ] {
        assert!(post_syscall_pc - instruction.len() - landing.len() >= page_start);
        assert!(post_syscall_pc + ret.len() <= page_start + 4096);
        let layout = gate_layout(post_syscall_pc, 4096, landing.len(), instruction.len(), ret.len()).unwrap();
        assert_eq!(layout.page_address, page_start);
        assert_eq!(layout.instruction_address, post_syscall_pc - instruction.len());
        assert_eq!(layout.entry_address, post_syscall_pc - instruction.len() - landing.len());
    }
}

#[test]
fn the_gate_fits_one_page_or_nothing() {
    // The landing pad would start on the previous page.
    assert_eq!(gate_layout(0x1000 + 4, 4096, 4, 2, 1), None);
    // The return would end past the page.
    assert_eq!(gate_layout(0x1ffd, 4096, 4, 4, 4), None);
    assert!(gate_layout(0x1fff, 4096, 4, 2, 1).is_some());
    assert_eq!(
        gate_layout(0x1006, 4096, 4, 2, 1),
        Some(GateLayout { page_address: 0x1000, entry_address: 0x1000, instruction_address: 0x1004 })
    );
}

#[test]
fn gate_page_holds_the_three_instructions() {
    let layout = gate_layout(0x1010, 4096, 4, 2, 1).unwrap();
    let page = gate_page_image(layout, 4096, &x86_64::LANDING_PAD, &x86_64::ALLOWED_GATE_INSTRUCTION, &x86_64::RETURN_INSTRUCTION);
    assert_eq!(page.len(), 4096);
    assert_eq!(&page[0x0a..0x11], &[0xf3, 0x0f, 0x1e, 0xfa, 0x0f, 0x05, 0xc3]);
    assert!(page[..0x0a].iter().all(|byte| *byte == 0));
    assert!(page[0x11..].iter().all(|byte| *byte == 0));
}

#[test]
fn the_allowed_gate_needs_a_callback_yes_and_a_gate() {
    assert_eq!(allowed_gate(0), None);
    assert_eq!(allowed_gate(0x1000), Some(0x1000));
    assert_eq!(choose_gate(Some(true), Some(0x1000), 0x2000), 0x1000);
    assert_eq!(choose_gate(Some(false), Some(0x1000), 0x2000), 0x2000);
    assert_eq!(choose_gate(None, Some(0x1000), 0x2000), 0x2000);
    assert_eq!(choose_gate(Some(true), None, 0x2000), 0x2000);
}

#[test]
fn monitored_symbols_are_the_file_syscall_wrappers() {
    assert!(is_monitored_symbol(b"openat"));
    assert!(is_monitored_symbol(b"__xstat64"));
    assert!(is_monitored_symbol(b"fspy_test_accelerated_openat"));
    assert!(!is_monitored_symbol(b"read"));
    assert!(!is_monitored_symbol(b"open6"));
}

#[test]
fn overlapping_and_repeated_sites_keep_the_first() {
    let sorted = sort_by_address(vec![site(0x30, 5), site(0x10, 5), site(0x12, 5), site(0x10, 7), site(0x20, 4)]);
    let addresses: Vec<usize> = sorted.iter().map(|site| site.address).collect();
    assert_eq!(addresses, vec![0x10, 0x10, 0x12, 0x20, 0x30]);
    let kept = select_non_overlapping(sorted);
    let addresses: Vec<usize> = kept.iter().map(|site| site.address).collect();
    assert_eq!(addresses, vec![0x10, 0x20, 0x30]);
    // An overflowing site is dropped without hiding the next address.
    let kept = select_non_overlapping(vec![site(usize::MAX - 1, 5), site(usize::MAX, 0)]);
    assert_eq!(kept.len(), 1);
    assert_eq!(kept[0].address, usize::MAX);
}

#[test]
fn trampolines_are_laid_out_on_sixteen_byte_boundaries() {
    let (offsets, used) = trampoline_offsets(&[48, 59, 62]).unwrap();
    assert_eq!(offsets, vec![0, 48, 112]);
    assert_eq!(used, 174);
    assert_eq!(trampoline_offsets(&[usize::MAX]), Some((vec![0], usize::MAX)));
    assert_eq!(trampoline_offsets(&[usize::MAX, 1]), None);
    assert_eq!(align_up(17, 16), 32);
}

#[test]
fn targets_inside_the_displaced_bytes_block_a_site() {
    let x86 = site(0x1000, 5);
    assert!(site_clear_of_targets(&x86, 2, &[0x1000, 0x1005]));
    assert!(!site_clear_of_targets(&x86, 2, &[0x1002]));
    assert!(!site_clear_of_targets(&site(usize::MAX, 5), 2, &[]));
}

#[test]
fn a_live_site_must_still_hold_what_was_decoded() {
    let x86 = PatchSite { address: 0x1000, overwrite_length: 5, displaced: vec![0x48, 0x85, 0xc0], restore_protection: PROT_READ_EXEC };
    let patch = [0xe9, 0, 0, 0, 0];
    assert!(patch_matches_site(&x86, &patch, &[0x0f, 0x05, 0x48, 0x85, 0xc0, 0x99], &[0x0f, 0x05]));
    assert!(!patch_matches_site(&x86, &patch, &[0x0f, 0x05, 0x48, 0x85, 0xc1], &[0x0f, 0x05]));
    assert!(!patch_matches_site(&x86, &patch[..4], &[0x0f, 0x05, 0x48, 0x85, 0xc0], &[0x0f, 0x05]));
}

#[test]
fn the_page_range_covers_the_whole_site() {
    assert_eq!(site_page_range(0x1ffe, 5, 4096), Some((0x1000, 0x3000)));
    assert_eq!(site_page_range(0x1000, 5, 4096), Some((0x1000, 0x2000)));
    assert_eq!(site_page_range(usize::MAX - 2, 5, 4096), None);
}

#[test]
fn architectures_dispatch_to_their_encoders() {
    let x86 = site(0x1000, 5);
    assert_eq!(arch::encode_site_branch(Architecture::X86_64, &x86, 0x1005), Some(vec![0xe9, 0, 0, 0, 0]));
    assert_eq!(arch::encode_site_branch(Architecture::Aarch64, &site(0x1000, 4), 0x1000), Some(vec![0, 0, 0, 0x14]));
    assert_eq!(arch::syscall_instruction_length(Architecture::X86_64), 2);
    assert_eq!(arch::trampoline_size(Architecture::Aarch64, &site(0, 4)), 48);
}
