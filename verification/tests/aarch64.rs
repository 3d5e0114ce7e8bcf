use fspy::intercept::aarch64::{
    collect_known_direct_targets, collect_sites, emit_trampoline, encode_branch, encode_site_branch,
    has_bti_guarded_mapping, is_control_flow, syscall_context, trampoline_size, DispatchContext, BTI_J,
    MAX_BRANCH_DISTANCE,
};
use fspy::intercept::patcher::{PatchSite, PROT_READ_EXEC};

#[test]
fn finds_only_aligned_svc_zero() {
    let bytes = [
        0x1f, 0x20, 0x03, 0xd5, // nop
        0x01, 0x00, 0x00, 0xd4, // svc #0
        0x21, 0x00, 0x00, 0xd4, // svc #1
    ];
    let sites = collect_sites(0x1000, &bytes);
    assert_eq!(sites.len(), 1);
    assert_eq!(sites[0].address, 0x1004);
    assert!(collect_sites(0x1001, &bytes).is_empty());

    let branch_then_svc = [
        0x01, 0x00, 0x00, 0x14, // b +4
        0x01, 0x00, 0x00, 0xd4, // svc #0, not in the entry block
    ];
    assert!(collect_sites(0x1000, &branch_then_svc).is_empty());
}

#[test]
fn branch_range_is_checked() {
    assert!(encode_branch(0x1000, 0x2000).is_some());
    assert!(encode_branch(0x1000, 0x1002).is_none());
    assert!(encode_branch(0, 128 * 1024 * 1024).is_none());
}

#[test]
fn detects_bti_guarded_smaps_flag() {
    assert!(has_bti_guarded_mapping(b"VmFlags: rd ex mr mw me bt\n"));
    assert!(!has_bti_guarded_mapping(b"VmFlags: rd ex mr mw me\n"));
}

#[test]
fn trampoline_marks_indirect_targets() {
    let site = PatchSite {
        address: 0x1000,
        overwrite_length: 4,
        displaced: Vec::new(),
        restore_protection: libc::PROT_READ | libc::PROT_EXEC,
    };
    let address = 0x2000;
    let mut trampoline = vec![0; trampoline_size(&site)];
    assert_eq!(emit_trampoline(&mut trampoline, address, &site, 0x9000), Some(48));
    assert_eq!(u32::from_le_bytes(trampoline[16..20].try_into().unwrap()), BTI_J);
    assert_eq!(
        u64::from_le_bytes(trampoline[32..40].try_into().unwrap()),
        u64::try_from(address + 16).unwrap()
    );
}

#[test]
fn bti_flag_must_be_a_whole_flag_of_a_flags_line() {
    assert!(!has_bti_guarded_mapping(b"VmFlags: rd btx\n"));
    assert!(!has_bti_guarded_mapping(b"Name: bt\n"));
    assert!(has_bti_guarded_mapping(b"Size: 4 kB\nVmFlags: bt rd\nOther: x\n"));
    assert!(has_bti_guarded_mapping(b"VmFlags: rd bt"));
    assert!(!has_bti_guarded_mapping(b""));
}

#[test]
fn branches_encode_their_displacement() {
    // Forward by 0x1000 bytes: 0x400 instruction words.
    assert_eq!(encode_branch(0x1000, 0x2000), Some(0x1400_0400));
    // Backward by one word: imm26 of all ones.
    assert_eq!(encode_branch(0x1004, 0x1000), Some(0x17ff_ffff));
    assert!(encode_branch(0, MAX_BRANCH_DISTANCE).is_some());
    assert!(encode_branch(0x800_0000, 0).is_some());
    assert!(encode_branch(0x800_0004, 0).is_none());
}

#[test]
fn site_branch_is_the_little_endian_b() {
    let site = PatchSite { address: 0x1000, overwrite_length: 4, displaced: Vec::new(), restore_protection: PROT_READ_EXEC };
    assert_eq!(encode_site_branch(&site, 0x2000), Some(vec![0x00, 0x04, 0x00, 0x14]));
    assert_eq!(encode_site_branch(&site, 0x1001), None);
}

#[test]
fn trampoline_resumes_after_the_site_and_keeps_the_rest() {
    let site = PatchSite { address: 0x1000, overwrite_length: 4, displaced: Vec::new(), restore_protection: PROT_READ_EXEC };
    let mut output = vec![0xaa; 52];
    assert_eq!(emit_trampoline(&mut output, 0x2000, &site, 0x1234_5678), Some(48));
    // B from 0x2018 back to 0x1004.
    let branch = u32::from_le_bytes(output[24..28].try_into().unwrap());
    assert_eq!(branch, 0x1400_0000 | ((((0x1004i64 - 0x2018) >> 2) as u32) & 0x03ff_ffff));
    assert_eq!(u64::from_le_bytes(output[40..48].try_into().unwrap()), 0x1234_5678);
    assert_eq!(&output[28..32], &[0xaa; 4]);
    assert_eq!(&output[48..], &[0xaa; 4]);

    let mut short = vec![0; 47];
    assert_eq!(emit_trampoline(&mut short, 0x2000, &site, 0), None);
    assert_eq!(short, vec![0; 47]);
}

#[test]
fn control_flow_is_recognized() {
    assert!(is_control_flow(0x1400_0001));
    assert!(is_control_flow(0xd65f_03c0));
    assert!(!is_control_flow(0xd503_201f));
    assert!(collect_known_direct_targets(0x1000, &[0; 8]).is_empty());
}

#[test]
fn syscall_context_takes_x8_and_x0_to_x5() {
    let context = DispatchContext {
        arg0: 1,
        arg1: 2,
        arg2: 3,
        arg3: 4,
        arg4: 5,
        arg5: 6,
        arg6: 7,
        arg7: 8,
        syscall_number: 56,
    };
    let syscall = syscall_context(&context);
    assert_eq!(syscall.syscall_number(), 56);
    assert_eq!(syscall.arguments(), [1, 2, 3, 4, 5, 6]);
}
