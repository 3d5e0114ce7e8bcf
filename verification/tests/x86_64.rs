use fspy::intercept::patcher::{PatchSite, PROT_READ_EXEC};
use fspy::intercept::x86_64::{
    collect_known_direct_targets, collect_sites, direct_targets_of_decoded, emit_trampoline, sites_of_decoded,
    DecodedInstruction, FLOW_NEXT, NEAR_BRANCH16, NEAR_BRANCH64, encode_site_branch, has_incoming_direct_target,
    is_supported_displaced_pattern, syscall_context, trampoline_size, xsave_size_supported, DispatchContext,
    LANDING_PAD, MAX_XSAVE_SIZE, SYSCALL_INSTRUCTION_LENGTH,
};

#[test]
fn accepts_only_relocatable_displaced_instructions() {
    let safe = [0x0f, 0x05, 0x48, 0x85, 0xc0, 0xc3];
    let sites = collect_sites(0x1000, &safe);
    assert_eq!(sites.len(), 1);
    assert_eq!(sites[0].overwrite_length, 5);
    assert_eq!(sites[0].displaced, [0x48, 0x85, 0xc0]);

    let relative_call = [0x0f, 0x05, 0xe8, 0, 0, 0, 0];
    assert!(collect_sites(0x2000, &relative_call).is_empty());

    let rip_relative = [0x0f, 0x05, 0x48, 0x8b, 0x05, 0, 0, 0, 0];
    assert!(collect_sites(0x3000, &rip_relative).is_empty());

    let broad_but_relocatable = [0x0f, 0x05, 0x48, 0x89, 0xc7];
    assert!(collect_sites(0x4000, &broad_but_relocatable).is_empty());

    let incoming_branch = [0x0f, 0x05, 0x48, 0x85, 0xc0, 0xc3, 0x90, 0xe9, 0xf6, 0xff, 0xff, 0xff];
    assert!(collect_sites(0x5000, &incoming_branch).is_empty());
}

#[test]
fn branch_patch_preserves_full_instruction_boundary() {
    let site = PatchSite {
        address: 0x1000,
        overwrite_length: 7,
        displaced: vec![0x48, 0x3d, 1, 2, 3],
        restore_protection: libc::PROT_READ | libc::PROT_EXEC,
    };
    let patch = encode_site_branch(&site, 0x2000).unwrap();
    assert_eq!(patch.len(), 7);
    assert_eq!(patch[0], 0xe9);
    assert_eq!(&patch[5..], &[0x90, 0x90]);
}

#[test]
fn trampoline_carries_native_post_syscall_state() {
    let site = PatchSite {
        address: 0x1000,
        overwrite_length: 5,
        displaced: vec![0x48, 0x85, 0xc0],
        restore_protection: libc::PROT_READ | libc::PROT_EXEC,
    };
    let address = 0x2000;
    let mut trampoline = vec![0; trampoline_size(&site)];
    let expected_len = trampoline.len();
    assert_eq!(emit_trampoline(&mut trampoline, address, &site, 0x7777), Some(expected_len));

    assert_eq!(u64::from_ne_bytes(trampoline[2..10].try_into().unwrap()), u64::try_from(address + 34).unwrap());
    assert_eq!(
        u64::from_ne_bytes(trampoline[12..20].try_into().unwrap()),
        u64::try_from(site.address + SYSCALL_INSTRUCTION_LENGTH).unwrap()
    );
    assert_eq!(&trampoline[34..38], LANDING_PAD);

    let jump = 54 + site.displaced.len();
    assert_eq!(trampoline[jump], 0xe9);
    let displacement = i32::from_ne_bytes(trampoline[jump + 1..jump + 5].try_into().unwrap());
    let target = i64::try_from(address + jump + 5).unwrap() + i64::from(displacement);
    assert_eq!(target, i64::try_from(site.address + site.overwrite_length).unwrap());
}

#[test]
fn xsave_size_is_conservatively_bounded() {
    assert!(!xsave_size_supported(575));
    assert!(xsave_size_supported(576));
    assert!(xsave_size_supported(MAX_XSAVE_SIZE));
    assert!(!xsave_size_supported(MAX_XSAVE_SIZE + 1));
}

#[test]
fn displaced_patterns_are_the_three_result_checks() {
    assert!(is_supported_displaced_pattern(&[0x48, 0x85, 0xc0]));
    assert!(is_supported_displaced_pattern(&[0x48, 0x3d, 1, 2, 3, 4]));
    assert!(is_supported_displaced_pattern(&[0x48, 0x83, 0xf8, 9]));
    assert!(!is_supported_displaced_pattern(&[0x48, 0x85, 0xc1]));
    assert!(!is_supported_displaced_pattern(&[0x48, 0x3d, 1, 2, 3]));
    assert!(!is_supported_displaced_pattern(&[]));
}

#[test]
fn direct_targets_are_found_from_every_byte() {
    // jmp rel32 back to the function start, from offset 2.
    let bytes = [0x90, 0x90, 0xe9, 0xf9, 0xff, 0xff, 0xff];
    let targets = collect_known_direct_targets(0x1000, &bytes);
    assert!(targets.contains(&0x1000));
    assert!(has_incoming_direct_target(0x1000, &bytes, 0x1000, 0x1001));
    assert!(!has_incoming_direct_target(0x1000, &bytes, 0x1001, 0x1002));
}

#[test]
fn site_branch_needs_a_reachable_trampoline() {
    let site = PatchSite { address: 0x1000, overwrite_length: 5, displaced: vec![0x48, 0x85, 0xc0], restore_protection: PROT_READ_EXEC };
    assert_eq!(encode_site_branch(&site, 0x1005), Some(vec![0xe9, 0, 0, 0, 0]));
    assert_eq!(encode_site_branch(&site, 0x1004), Some(vec![0xe9, 0xff, 0xff, 0xff, 0xff]));
    assert_eq!(encode_site_branch(&site, 0x1005 + 0x8000_0000), None);
}

#[test]
fn short_output_is_left_alone() {
    let site = PatchSite { address: 0x1000, overwrite_length: 5, displaced: vec![0x48, 0x85, 0xc0], restore_protection: PROT_READ_EXEC };
    let mut output = vec![7; 61];
    assert_eq!(emit_trampoline(&mut output, 0x2000, &site, 0), None);
    assert_eq!(output, vec![7; 61]);
}

#[test]
fn syscall_context_takes_rax_and_the_argument_registers() {
    let context = DispatchContext { syscall_number: 257, arg0: 1, arg1: 2, arg2: 3, arg3: 4, arg4: 5, arg5: 6 };
    let syscall = syscall_context(&context);
    assert_eq!(syscall.syscall_number(), 257);
    assert_eq!(syscall.arguments(), [1, 2, 3, 4, 5, 6]);
}

fn plain(len: usize) -> DecodedInstruction {
    DecodedInstruction {
        invalid: false,
        len,
        flow_control: FLOW_NEXT,
        syscall: false,
        ip_relative_memory: false,
        op0_kind: 0,
        near_branch_target: 0,
    }
}

#[test]
fn direct_targets_are_the_near_branches_among_the_decodings() {
    let branch = |kind, target| DecodedInstruction { op0_kind: kind, near_branch_target: target, ..plain(5) };
    let decoded = [
        branch(NEAR_BRANCH16, 0x10),
        plain(1),
        branch(NEAR_BRANCH64, 0x20),
        branch(NEAR_BRANCH64 + 1, 0x30),
        DecodedInstruction { invalid: true, ..branch(NEAR_BRANCH16, 0x40) },
    ];
    assert_eq!(direct_targets_of_decoded(&decoded), vec![0x10, 0x20]);
}

#[test]
fn sites_follow_the_decodings_given() {
    // syscall; cmp rax, imm32; ret, decoded from each offset.
    let bytes = [0x0f, 0x05, 0x48, 0x3d, 1, 0, 0, 0, 0xc3];
    let syscall = DecodedInstruction { syscall: true, ..plain(2) };
    let ret = DecodedInstruction { flow_control: 1, ..plain(1) };
    let mut decoded = vec![plain(1); bytes.len()];
    decoded[0] = syscall;
    decoded[2] = plain(6);
    decoded[8] = ret;
    let sites = sites_of_decoded(0x1000, &bytes, &decoded);
    assert_eq!(sites.len(), 1);
    assert_eq!(sites[0].address, 0x1000);
    assert_eq!(sites[0].overwrite_length, 8);
    assert_eq!(sites[0].displaced, bytes[2..8].to_vec());

    // A branch decoded from any offset into the displaced bytes declines the site.
    decoded[5] = DecodedInstruction { op0_kind: NEAR_BRANCH16, near_branch_target: 0x1004, ..plain(1) };
    assert!(sites_of_decoded(0x1000, &bytes, &decoded).is_empty());
    // So does a displaced instruction that is not ordinary fallthrough.
    decoded[5] = plain(1);
    decoded[2] = DecodedInstruction { flow_control: 2, ..plain(6) };
    assert!(sites_of_decoded(0x1000, &bytes, &decoded).is_empty());
    // The real decoder agrees with the first decodings.
    assert_eq!(collect_sites(0x1000, &bytes).len(), 1);
}
