use fspy::intercept::aarch64::{runtime_supported, HWCAP2_BTI, HWCAP2_SME, HWCAP_SVE};
use fspy::intercept::raw::{control_file_result, mmap_result, status_result, OpenFailure, EIO};
use fspy::intercept::x86_64::{xsave_available, xsave_state_supported, CPUID_OSXSAVE, CPUID_XSAVE};

#[test]
fn raw_results_carry_negated_error_numbers() {
    assert_eq!(mmap_result(-12), None);
    assert_eq!(mmap_result(-4095), None);
    assert_eq!(mmap_result(-4096), Some(-4096isize as usize));
    assert_eq!(mmap_result(0x7000_0000), Some(0x7000_0000));
    assert_eq!(status_result(0), 0);
    assert_eq!(status_result(-22), -1);
    assert_eq!(control_file_result(3), Ok(3));
    assert_eq!(control_file_result(-2), Err(OpenFailure::Errno(2)));
    assert_eq!(control_file_result(isize::MIN), Err(OpenFailure::Errno(EIO)));
    assert_eq!(control_file_result(0x1_0000_0000), Err(OpenFailure::NotADescriptor));
    assert_eq!(EIO, libc::EIO);
}

#[test]
fn aarch64_interception_needs_savable_state() {
    assert!(runtime_supported(0, 0, None));
    assert!(!runtime_supported(HWCAP_SVE, 0, None));
    assert!(!runtime_supported(0, HWCAP2_SME, None));
    assert!(!runtime_supported(0, HWCAP2_BTI, None));
    assert!(runtime_supported(0, HWCAP2_BTI, Some(b"VmFlags: rd ex\n")));
    assert!(!runtime_supported(0, HWCAP2_BTI, Some(b"VmFlags: rd ex bt\n")));
}

#[test]
fn x86_64_interception_needs_xsave_of_x87_and_sse() {
    assert!(xsave_available(0x0d, CPUID_XSAVE | CPUID_OSXSAVE));
    assert!(!xsave_available(0x0c, CPUID_XSAVE | CPUID_OSXSAVE));
    assert!(!xsave_available(0x20, CPUID_XSAVE));
    assert!(xsave_state_supported(0b111, 832));
    assert!(!xsave_state_supported(0b101, 832));
    assert!(!xsave_state_supported(0b11, 8192));
}
