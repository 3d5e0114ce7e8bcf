use fspy::intercept::image::{
    collect_image, collect_known_code_targets, collect_relocation_targets, relocation_target, segment_holding,
    select_image_sites, symbol_file_range, symbol_span, ExecutableSegment, Image, ProgramHeader, RelocationInfo,
    SectionInfo, SymbolInfo, PF_R, PF_W, PF_X, PT_LOAD,
};
use fspy::intercept::install::{attempt_hints, build_trampolines, install_layout, near_bounds, sites_reachable};
use fspy::intercept::patcher::{PatchSite, PROT_READ_EXEC};
use fspy::seccomp::Architecture;

fn text_header(vaddr: u64, memsz: u64) -> ProgramHeader {
    ProgramHeader { p_type: PT_LOAD, p_flags: PF_R | PF_X, p_vaddr: vaddr, p_memsz: memsz }
}

#[test]
fn images_keep_their_read_execute_segments() {
    let headers = [
        text_header(0x1000, 0x2000),
        ProgramHeader { p_type: PT_LOAD, p_flags: PF_R | PF_W | PF_X, p_vaddr: 0x4000, p_memsz: 0x10 },
        ProgramHeader { p_type: 2, p_flags: PF_R | PF_X, p_vaddr: 0x5000, p_memsz: 0x10 },
        text_header(0x6000, 0),
    ];
    let image = collect_image(0x10_0000, &headers, b"", 0).unwrap();
    assert_eq!(image.load_bias, 0x10_0000);
    assert_eq!(image.path, b"/proc/self/exe".to_vec());
    assert_eq!(image.segments, vec![ExecutableSegment { start: 0x10_1000, end: 0x10_3000, protection: PROT_READ_EXEC }]);
    assert_eq!(PROT_READ_EXEC, libc::PROT_READ | libc::PROT_EXEC);

    // The image holding the dispatcher is never patched.
    assert!(collect_image(0x10_0000, &headers, b"/lib/libc.so.6", 0x10_2000).is_none());
    // Nothing executable: nothing to patch.
    assert!(collect_image(0, &headers[1..3], b"/x", 0).is_none());
    let named = collect_image(0, &headers, b"/lib/libc.so.6", 0).unwrap();
    assert_eq!(named.path, b"/lib/libc.so.6".to_vec());
}

fn symbol(name: &str, address: u64, size: u64) -> SymbolInfo {
    SymbolInfo {
        text: true,
        definition: true,
        address,
        size,
        name: Some(name.as_bytes().to_vec()),
        section: Some(SectionInfo { address: 0x1000, file_range: Some((0x400, 0x100)) }),
    }
}

#[test]
fn symbols_locate_their_code() {
    let open = symbol("open", 0x1010, 8);
    assert_eq!(symbol_file_range(&open, 0x1000), Some((0x410, 0x418)));
    assert_eq!(symbol_file_range(&open, 0x410), None);
    assert_eq!(symbol_file_range(&symbol("x", 0xfff, 8), 0x1000), None);
    assert_eq!(symbol_file_range(&symbol("x", 0x10f9, 8), 0x1000), None);
    assert_eq!(symbol_span(0x10_0000, &open), Some((0x10_1010, 0x10_1018)));
    assert_eq!(symbol_span(usize::MAX, &open), None);
    let segments = [
        ExecutableSegment { start: 0, end: 0x10, protection: PROT_READ_EXEC },
        ExecutableSegment { start: 0x10_1000, end: 0x10_2000, protection: PROT_READ_EXEC },
    ];
    assert_eq!(segment_holding(&segments, 0x10_1010, 0x10_1018), Some(1));
    assert_eq!(segment_holding(&segments, 0x10_1ff0, 0x10_2018), None);
}

#[test]
fn relocations_point_at_biased_targets() {
    assert_eq!(relocation_target(0x1000, RelocationInfo { base: 0x20, addend: -0x10 }), Some(0x1010));
    assert_eq!(relocation_target(0x1000, RelocationInfo { base: 0x20, addend: -0x21 }), None);
    assert_eq!(relocation_target(usize::MAX, RelocationInfo { base: 1, addend: 0 }), None);
    let targets = collect_relocation_targets(
        0x1000,
        &[RelocationInfo { base: 8, addend: 0 }, RelocationInfo { base: 0, addend: -1 }, RelocationInfo { base: 0, addend: 4 }],
    );
    assert_eq!(targets, vec![0x1008, 0x1004]);
}

fn aarch64_image() -> (Image, Vec<u8>) {
    let image = Image {
        load_bias: 0x10_0000,
        path: b"/lib/libc.so.6".to_vec(),
        segments: vec![ExecutableSegment { start: 0x10_1000, end: 0x10_2000, protection: PROT_READ_EXEC }],
    };
    let mut file = vec![0u8; 0x500];
    // nop; svc #0; ret at file offset 0x410, the code of `open`.
    file[0x410..0x41c].copy_from_slice(&[0x1f, 0x20, 0x03, 0xd5, 0x01, 0x00, 0x00, 0xd4, 0xc0, 0x03, 0x5f, 0xd6]);
    (image, file)
}

#[test]
fn monitored_functions_give_their_sites() {
    let (image, file) = aarch64_image();
    let symbols = vec![symbol("open", 0x1010, 12), symbol("read", 0x1010, 12)];
    let sites = select_image_sites(Architecture::Aarch64, &image, &symbols, &[], &file);
    assert_eq!(sites.len(), 1);
    assert_eq!(sites[0].address, 0x10_1014);
    assert_eq!(sites[0].overwrite_length, 4);
    assert_eq!(sites[0].restore_protection, PROT_READ_EXEC);

    let targets = collect_known_code_targets(Architecture::Aarch64, &image, &symbols, &file);
    assert_eq!(targets, vec![0x10_1010, 0x10_1010]);
}

#[test]
fn the_region_layout_and_its_trampolines() {
    let site = PatchSite { address: 0x10_1014, overwrite_length: 4, displaced: Vec::new(), restore_protection: PROT_READ_EXEC };
    let sites = vec![site];
    let (offsets, used, mapping_size) = install_layout(Architecture::Aarch64, &sites, 4096).unwrap();
    assert_eq!((offsets.clone(), used, mapping_size), (vec![0], 48, 4096));
    assert!(install_layout(Architecture::Aarch64, &[], 4096).is_none());

    let (after, before) = near_bounds(0x10_1014, 0x10_1014, 4096, 4096).unwrap();
    assert_eq!(after, 0x10_3000);
    assert_eq!(before, Some(0xf_f000));
    assert_eq!(attempt_hints(after, before, 1), Some((0x20_3000, 0)));
    assert_eq!(attempt_hints(after, Some(0x30_0000), 2), Some((0x30_3000, 0x10_0000)));
    assert_eq!(attempt_hints(usize::MAX, None, 1), None);

    assert!(sites_reachable(Architecture::Aarch64, 0x10_2000, &sites, &offsets));
    assert!(!sites_reachable(Architecture::Aarch64, 0x4000_0000, &sites, &offsets));

    let (region, patches) = build_trampolines(Architecture::Aarch64, 0x10_2000, &sites, &offsets, used, 0x5000).unwrap();
    assert_eq!(region.len(), 48);
    assert_eq!(u64::from_le_bytes(region[40..48].try_into().unwrap()), 0x5000);
    assert_eq!(patches, vec![fspy::intercept::aarch64::encode_site_branch(&sites[0], 0x10_2000).unwrap()]);
    assert!(build_trampolines(Architecture::Aarch64, 0x4000_0000, &sites, &offsets, used, 0x5000).is_none());
}
