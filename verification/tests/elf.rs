use fspy::intercept::elf::{image_sites, relocation_base, RelocationBase};
use fspy::intercept::image::{ExecutableSegment, Image};
use fspy::intercept::patcher::PROT_READ_EXEC;
use fspy::seccomp::Architecture;

fn put(file: &mut [u8], at: usize, bytes: &[u8]) {
    file[at..at + bytes.len()].copy_from_slice(bytes);
}

#[allow(clippy::too_many_arguments)]
fn section_header(name: u32, kind: u32, addr: u64, offset: u64, size: u64, link: u32, info: u32, entsize: u64) -> Vec<u8> {
    let mut header = Vec::new();
    header.extend(name.to_le_bytes());
    header.extend(kind.to_le_bytes());
    header.extend(0u64.to_le_bytes());
    header.extend(addr.to_le_bytes());
    header.extend(offset.to_le_bytes());
    header.extend(size.to_le_bytes());
    header.extend(link.to_le_bytes());
    header.extend(info.to_le_bytes());
    header.extend(1u64.to_le_bytes());
    header.extend(entsize.to_le_bytes());
    header
}

/// A little-endian ELF64 shared object for `machine` whose `.text` at
/// 0x1000 (file offset 0x400) holds `open`: `nop; svc #0; ret` at 0x1010.
fn elf_with_open(machine: u16) -> Vec<u8> {
    let mut file = vec![0u8; 0x800];
    put(&mut file, 0, &[0x7f, b'E', b'L', b'F', 2, 1, 1, 0]);
    put(&mut file, 16, &3u16.to_le_bytes());
    put(&mut file, 18, &machine.to_le_bytes());
    put(&mut file, 20, &1u32.to_le_bytes());
    put(&mut file, 40, &0x600u64.to_le_bytes());
    put(&mut file, 52, &64u16.to_le_bytes());
    put(&mut file, 54, &56u16.to_le_bytes());
    put(&mut file, 58, &64u16.to_le_bytes());
    put(&mut file, 60, &5u16.to_le_bytes());
    put(&mut file, 62, &4u16.to_le_bytes());
    put(&mut file, 0x410, &[0x1f, 0x20, 0x03, 0xd5, 0x01, 0x00, 0x00, 0xd4, 0xc0, 0x03, 0x5f, 0xd6]);
    // .symtab at 0x500: the null symbol, then `open`.
    let mut open = Vec::new();
    open.extend(1u32.to_le_bytes());
    open.extend([0x12, 0]);
    open.extend(1u16.to_le_bytes());
    open.extend(0x1010u64.to_le_bytes());
    open.extend(12u64.to_le_bytes());
    put(&mut file, 0x518, &open);
    put(&mut file, 0x540, b"\0open\0");
    let names = b"\0.text\0.symtab\0.strtab\0.shstrtab\0";
    put(&mut file, 0x560, names);
    let headers = [
        vec![0u8; 64],
        section_header(1, 1, 0x1000, 0x400, 0x100, 0, 0, 0),
        section_header(7, 2, 0, 0x500, 48, 3, 1, 24),
        section_header(15, 3, 0, 0x540, 6, 0, 0, 0),
        section_header(23, 3, 0, 0x560, names.len() as u64, 0, 0, 0),
    ];
    for (index, header) in headers.iter().enumerate() {
        put(&mut file, 0x600 + 64 * index, header);
    }
    file
}

fn image() -> Image {
    Image {
        load_bias: 0x10_0000,
        path: b"/lib/libc.so.6".to_vec(),
        segments: vec![ExecutableSegment { start: 0x10_1000, end: 0x10_2000, protection: PROT_READ_EXEC }],
    }
}

#[test]
fn sites_come_from_the_files_own_symbols() {
    let sites = image_sites(Architecture::Aarch64, &image(), &elf_with_open(183));
    assert_eq!(sites.len(), 1);
    assert_eq!(sites[0].address, 0x10_1014);
    assert_eq!(sites[0].overwrite_length, 4);
}

#[test]
fn files_for_another_machine_or_no_elf_give_no_sites() {
    assert!(image_sites(Architecture::X86_64, &image(), &elf_with_open(183)).is_empty());
    assert!(image_sites(Architecture::Aarch64, &image(), &elf_with_open(62)).is_empty());
    assert!(image_sites(Architecture::Aarch64, &image(), &[0u8; 64]).is_empty());
    let mut big_endian = elf_with_open(183);
    big_endian[5] = 2;
    assert!(image_sites(Architecture::Aarch64, &image(), &big_endian).is_empty());
}

#[test]
fn relocation_targets_stand_for_their_addresses() {
    assert_eq!(relocation_base(RelocationBase::Symbol(Some(0x1234))), Some(0x1234));
    assert_eq!(relocation_base(RelocationBase::Section(Some(0x40))), Some(0x40));
    assert_eq!(relocation_base(RelocationBase::Absolute), Some(0));
    assert_eq!(relocation_base(RelocationBase::Symbol(None)), None);
    assert_eq!(relocation_base(RelocationBase::Section(None)), None);
    assert_eq!(relocation_base(RelocationBase::Other), None);
}
