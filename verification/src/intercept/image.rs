//! One loaded ELF image as the patcher sees it: its executable segments,
//! the function symbols worth patching, where their code lies in the ELF
//! file, and the addresses already known to be branch targets.
//!
//! ELF files describe addresses relative to the image; the loader picks a
//! load bias, and `load_bias + address` is the live address.
use vstd::prelude::*;
use vstd::slice::*;
use vstd::string::*;

use super::arch;
use super::patcher::{
    full_view, is_monitored_symbol, select_non_overlapping, site_clear_of_targets, sort_by_address, sorted_by_address,
    spec_is_monitored_symbol, spec_select, spec_site_clear_of_targets, PatchSite, PROT_READ_EXEC,
};
use crate::seccomp::filter::Architecture;

verus! {

/// `PT_LOAD`: a loadable segment.
pub const PT_LOAD: u32 = 1;
/// Segment permission bits.
pub const PF_X: u32 = 1;
pub const PF_W: u32 = 2;
pub const PF_R: u32 = 4;

/// The fields of one program header that the patcher reads.
#[derive(Debug, Clone, Copy)]
pub struct ProgramHeader {
    pub p_type: u32,
    pub p_flags: u32,
    pub p_vaddr: u64,
    pub p_memsz: u64,
}

/// A mapped, readable, executable and not writable segment, as live
/// addresses `[start, end)`.
#[derive(Debug, Clone, Copy, PartialEq, Eq, Structural)]
pub struct ExecutableSegment {
    pub start: usize,
    pub end: usize,
    pub protection: i32,
}

/// An image worth patching.
#[derive(Debug)]
pub struct Image {
    pub load_bias: usize,
    /// The ELF file the image was loaded from.
    pub path: Vec<u8>,
    pub segments: Vec<ExecutableSegment>,
}

/// The segment that a program header maps, when it is a non-empty
/// read+execute, non-writable `PT_LOAD` whose live range fits the address
/// space.
pub open spec fn header_segment(load_bias: int, header: ProgramHeader) -> Option<ExecutableSegment> {
    if header.p_type != PT_LOAD || header.p_flags & PF_X == 0 || header.p_flags & PF_R == 0 || header.p_flags
        & PF_W != 0 || header.p_vaddr > usize::MAX || header.p_memsz > usize::MAX || load_bias + header.p_vaddr
        > usize::MAX || load_bias + header.p_vaddr + header.p_memsz > usize::MAX || header.p_memsz == 0 {
        None
    } else {
        Some(
            ExecutableSegment {
                start: (load_bias + header.p_vaddr) as usize,
                end: (load_bias + header.p_vaddr + header.p_memsz) as usize,
                protection: PROT_READ_EXEC,
            },
        )
    }
}

/// The segments mapped by the first `count` headers, in header order.
pub open spec fn segments_upto(load_bias: int, headers: Seq<ProgramHeader>, count: int) -> Seq<ExecutableSegment>
    decreases count,
{
    if count <= 0 {
        Seq::empty()
    } else {
        segments_upto(load_bias, headers, count - 1) + match header_segment(load_bias, headers[count - 1]) {
            Some(segment) => seq![segment],
            None => Seq::empty(),
        }
    }
}

/// The path of the main program's file.
pub open spec fn main_program_path() -> Seq<u8> {
    "/proc/self/exe".spec_bytes()
}

/// The image that the loader reports with this bias, program headers and
/// file name, unless it has no executable segment or holds `own_code`, the
/// tracer's own dispatcher, which must never be patched.
pub open spec fn spec_collect_image(load_bias: u64, headers: Seq<ProgramHeader>, name: Seq<u8>, own_code: int) -> Option<
    (int, Seq<u8>, Seq<ExecutableSegment>),
> {
    let segments = segments_upto(load_bias as int, headers, headers.len() as int);
    if load_bias > usize::MAX || segments.len() == 0 || exists|i: int|
        0 <= i < segments.len() && #[trigger] segments[i].start <= own_code < segments[i].end {
        None
    } else {
        Some((load_bias as int, if name.len() == 0 { main_program_path() } else { name }, segments))
    }
}

/// Describes a loaded image from what the loader reports of it; `name` is
/// empty for the main program.
pub fn collect_image(load_bias: u64, headers: &[ProgramHeader], name: &[u8], own_code: usize) -> (image: Option<Image>)
    ensures
        match image {
            None => spec_collect_image(load_bias, headers@, name@, own_code as int) is None,
            Some(image) => spec_collect_image(load_bias, headers@, name@, own_code as int) == Some(
                (image.load_bias as int, image.path@, image.segments@),
            ),
        },
{
    if load_bias > usize::MAX as u64 {
        return None;
    }
    let bias: usize = load_bias as usize;
    let mut segments: Vec<ExecutableSegment> = Vec::new();
    let mut i: usize = 0;
    while i < headers.len()
        invariant
            bias == load_bias,
            0 <= i <= headers@.len(),
            segments@ == segments_upto(bias as int, headers@, i as int),
        decreases headers@.len() - i,
    {
        let header = headers[i];
        if header.p_type == PT_LOAD && header.p_flags & PF_X != 0 && header.p_flags & PF_R != 0 && header.p_flags
            & PF_W == 0 && header.p_vaddr <= usize::MAX as u64 && header.p_memsz <= usize::MAX as u64 {
            let virtual_address: usize = header.p_vaddr as usize;
            let memory_size: usize = header.p_memsz as usize;
            if bias <= usize::MAX - virtual_address {
                let start: usize = bias + virtual_address;
                if start <= usize::MAX - memory_size && memory_size != 0 {
                    segments.push(ExecutableSegment { start, end: start + memory_size, protection: PROT_READ_EXEC });
                }
            }
        }
        i = i + 1;
    }
    if segments.len() == 0 {
        return None;
    }
    let mut k: usize = 0;
    while k < segments.len()
        invariant
            load_bias <= usize::MAX,
            segments@ == segments_upto(load_bias as int, headers@, headers@.len() as int),
            0 <= k <= segments@.len(),
            forall|j: int| 0 <= j < k ==> !(#[trigger] segments@[j].start <= own_code < segments@[j].end),
        decreases segments@.len() - k,
    {
        if segments[k].start <= own_code && own_code < segments[k].end {
            assert(segments@[k as int].start <= own_code < segments@[k as int].end);
            return None;
        }
        k = k + 1;
    }
    let path: Vec<u8> = if name.len() == 0 {
        let main_program: &str = "/proc/self/exe";
        slice_to_vec(main_program.as_bytes())
    } else {
        slice_to_vec(name)
    };
    Some(Image { load_bias: bias, path, segments })
}

/// The section that holds a symbol: its address in the image and, unless
/// it occupies no file space, its `(offset, size)` in the file.
#[derive(Debug, Clone, Copy)]
pub struct SectionInfo {
    pub address: u64,
    pub file_range: Option<(u64, u64)>,
}

/// The facts of one ELF symbol that the patcher reads.
#[derive(Debug)]
pub struct SymbolInfo {
    /// The symbol names code.
    pub text: bool,
    /// The symbol is defined in this file.
    pub definition: bool,
    pub address: u64,
    pub size: u64,
    /// The symbol's name, `None` when it could not be read.
    pub name: Option<Vec<u8>>,
    /// The section that holds the symbol, if it has a readable one.
    pub section: Option<SectionInfo>,
}

/// Where a symbol's bytes lie in the ELF file, as `[start, end)` within a
/// file of `file_len` bytes.
pub open spec fn spec_symbol_file_range(symbol: SymbolInfo, file_len: int) -> Option<(int, int)> {
    match symbol.section {
        None => None,
        Some(section) => match section.file_range {
            None => None,
            Some((section_offset, section_size)) => {
                let symbol_offset = symbol.address - section.address;
                let file_start = section_offset + symbol_offset;
                let file_end = file_start + symbol.size;
                if symbol_offset < 0 || symbol_offset + symbol.size > u64::MAX || symbol_offset + symbol.size
                    > section_size || file_start > u64::MAX || file_end > u64::MAX || file_end > usize::MAX
                    || file_end > file_len {
                    None
                } else {
                    Some((file_start, file_end))
                }
            },
        },
    }
}

/// Where the bytes of `symbol` lie in a file of `file_len` bytes.
pub fn symbol_file_range(symbol: &SymbolInfo, file_len: usize) -> (range: Option<(usize, usize)>)
    ensures
        match range {
            None => spec_symbol_file_range(*symbol, file_len as int) is None,
            Some((start, end)) => spec_symbol_file_range(*symbol, file_len as int) == Some((start as int, end as int)),
        },
{
    let section: SectionInfo = match symbol.section {
        Some(section) => section,
        None => return None,
    };
    let (section_offset, section_size): (u64, u64) = match section.file_range {
        Some(range) => range,
        None => return None,
    };
    if symbol.address < section.address {
        return None;
    }
    let symbol_offset: u64 = symbol.address - section.address;
    if symbol_offset > u64::MAX - symbol.size || symbol_offset + symbol.size > section_size {
        return None;
    }
    if section_offset > u64::MAX - symbol_offset {
        return None;
    }
    let file_start: u64 = section_offset + symbol_offset;
    if file_start > u64::MAX - symbol.size {
        return None;
    }
    let file_end: u64 = file_start + symbol.size;
    if file_end > usize::MAX as u64 || file_end > file_len as u64 {
        return None;
    }
    Some((file_start as usize, file_end as usize))
}

/// The live range `[start, end)` of a symbol, when it fits the address
/// space.
pub open spec fn spec_symbol_span(load_bias: int, symbol: SymbolInfo) -> Option<(int, int)> {
    if symbol.address > usize::MAX || symbol.size > usize::MAX || load_bias + symbol.address > usize::MAX
        || load_bias + symbol.address + symbol.size > usize::MAX {
        None
    } else {
        Some((load_bias + symbol.address, load_bias + symbol.address + symbol.size))
    }
}

pub fn symbol_span(load_bias: usize, symbol: &SymbolInfo) -> (span: Option<(usize, usize)>)
    ensures
        match span {
            None => spec_symbol_span(load_bias as int, *symbol) is None,
            Some((start, end)) => spec_symbol_span(load_bias as int, *symbol) == Some((start as int, end as int)),
        },
{
    if symbol.address > usize::MAX as u64 || symbol.size > usize::MAX as u64 {
        return None;
    }
    let address: usize = symbol.address as usize;
    let size: usize = symbol.size as usize;
    if load_bias > usize::MAX - address {
        return None;
    }
    let start: usize = load_bias + address;
    if start > usize::MAX - size {
        return None;
    }
    Some((start, start + size))
}

/// The first of `segments` from `from` on that holds `[start, end)`.
pub open spec fn spec_segment_holding(segments: Seq<ExecutableSegment>, start: int, end: int, from: int) -> Option<int>
    decreases segments.len() - from,
{
    if from < 0 || from >= segments.len() {
        None
    } else if segments[from].start <= start && end <= segments[from].end {
        Some(from)
    } else {
        spec_segment_holding(segments, start, end, from + 1)
    }
}

/// The index of the first segment that holds `[start, end)`.
pub fn segment_holding(segments: &[ExecutableSegment], start: usize, end: usize) -> (index: Option<usize>)
    ensures
        match index {
            None => spec_segment_holding(segments@, start as int, end as int, 0) is None,
            Some(i) => spec_segment_holding(segments@, start as int, end as int, 0) == Some(i as int),
        },
{
    let mut i: usize = 0;
    while i < segments.len()
        invariant
            0 <= i <= segments@.len(),
            spec_segment_holding(segments@, start as int, end as int, 0) == spec_segment_holding(
                segments@,
                start as int,
                end as int,
                i as int,
            ),
        decreases segments@.len() - i,
    {
        if segments[i].start <= start && end <= segments[i].end {
            return Some(i);
        }
        i = i + 1;
    }
    None
}

/// A relocation's target before biasing: its symbol's or section's address,
/// or 0 for an absolute one (`base`), and its addend.
#[derive(Debug, Clone, Copy)]
pub struct RelocationInfo {
    pub base: u64,
    pub addend: i64,
}

/// The live address a relocation points at, when it fits.
pub open spec fn spec_relocation_target(load_bias: int, relocation: RelocationInfo) -> Option<int> {
    let target = relocation.base + relocation.addend;
    if target < 0 || target > u64::MAX || target > usize::MAX || load_bias + target > usize::MAX {
        None
    } else {
        Some(load_bias + target)
    }
}

pub fn relocation_target(load_bias: usize, relocation: RelocationInfo) -> (target: Option<usize>)
    ensures
        match target {
            None => spec_relocation_target(load_bias as int, relocation) is None,
            Some(t) => spec_relocation_target(load_bias as int, relocation) == Some(t as int),
        },
{
    let base: u64 = relocation.base;
    let addend: i64 = relocation.addend;
    let target: u64 = if addend >= 0 {
        let up: u64 = addend as u64;
        if base > u64::MAX - up {
            return None;
        }
        base + up
    } else {
        let down: u64 = (0 - (addend as i128)) as u64;
        if base < down {
            return None;
        }
        base - down
    };
    if target > usize::MAX as u64 {
        return None;
    }
    let target: usize = target as usize;
    if load_bias > usize::MAX - target {
        return None;
    }
    Some(load_bias + target)
}

/// The targets of the first `count` relocations that point somewhere in the
/// address space, in order.
pub open spec fn relocation_targets_upto(load_bias: int, relocations: Seq<RelocationInfo>, count: int) -> Seq<usize>
    decreases count,
{
    if count <= 0 {
        Seq::empty()
    } else {
        relocation_targets_upto(load_bias, relocations, count - 1) + match spec_relocation_target(
            load_bias,
            relocations[count - 1],
        ) {
            Some(target) => seq![target as usize],
            None => Seq::empty(),
        }
    }
}

/// The live addresses the image's relocations point at: code they point
/// into may be entered there.
pub fn collect_relocation_targets(load_bias: usize, relocations: &[RelocationInfo]) -> (targets: Vec<usize>)
    ensures
        targets@ == relocation_targets_upto(load_bias as int, relocations@, relocations@.len() as int),
{
    let mut targets: Vec<usize> = Vec::new();
    let mut i: usize = 0;
    while i < relocations.len()
        invariant
            0 <= i <= relocations@.len(),
            targets@ == relocation_targets_upto(load_bias as int, relocations@, i as int),
        decreases relocations@.len() - i,
    {
        match relocation_target(load_bias, relocations[i]) {
            Some(target) => targets.push(target),
            None => {},
        }
        i = i + 1;
    }
    targets
}

/// A symbol that names code defined in this file.
pub open spec fn is_code_symbol(symbol: SymbolInfo) -> bool {
    symbol.text && symbol.definition && symbol.size != 0
}

/// Where a symbol's code is: its live start, the index of the segment
/// that holds it, and its range in a file of `file_len` bytes.
pub open spec fn symbol_code(load_bias: int, segments: Seq<ExecutableSegment>, symbol: SymbolInfo, file_len: int) -> Option<
    (int, int, int, int),
> {
    match spec_symbol_span(load_bias, symbol) {
        None => None,
        Some((start, end)) => match spec_segment_holding(segments, start, end, 0) {
            None => None,
            Some(segment) => match spec_symbol_file_range(symbol, file_len) {
                None => None,
                Some((file_start, file_end)) => Some((start, segment, file_start, file_end)),
            },
        },
    }
}

/// The live address of a defined symbol, when it fits.
pub open spec fn defined_address(load_bias: int, symbol: SymbolInfo) -> Option<usize> {
    if !symbol.definition || symbol.address > usize::MAX || load_bias + symbol.address > usize::MAX {
        None
    } else {
        Some((load_bias + symbol.address) as usize)
    }
}

/// The live addresses of the first `count` symbols that are defined.
pub open spec fn defined_addresses_upto(load_bias: int, symbols: Seq<SymbolInfo>, count: int) -> Seq<usize>
    decreases count,
{
    if count <= 0 {
        Seq::empty()
    } else {
        defined_addresses_upto(load_bias, symbols, count - 1) + match defined_address(load_bias, symbols[count - 1]) {
            Some(address) => seq![address],
            None => Seq::empty(),
        }
    }
}

/// The direct branch targets found in the code of one symbol.
pub open spec fn symbol_direct_targets(arch: Architecture, load_bias: int, segments: Seq<ExecutableSegment>, symbol: SymbolInfo, file_bytes: Seq<u8>) -> Seq<usize> {
    if !is_code_symbol(symbol) {
        Seq::empty()
    } else {
        match symbol_code(load_bias, segments, symbol, file_bytes.len() as int) {
            None => Seq::empty(),
            Some((start, _segment, file_start, file_end)) => arch::spec_direct_targets(
                arch,
                start,
                file_bytes.subrange(file_start, file_end),
            ),
        }
    }
}

/// The direct branch targets found in the code of the first `count` symbols.
pub open spec fn direct_targets_upto(arch: Architecture, load_bias: int, segments: Seq<ExecutableSegment>, symbols: Seq<SymbolInfo>, file_bytes: Seq<u8>, count: int) -> Seq<usize>
    decreases count,
{
    if count <= 0 {
        Seq::empty()
    } else {
        direct_targets_upto(arch, load_bias, segments, symbols, file_bytes, count - 1) + symbol_direct_targets(
            arch,
            load_bias,
            segments,
            symbols[count - 1],
            file_bytes,
        )
    }
}

/// The live addresses known to be entered from elsewhere: every defined
/// symbol, then every direct branch target in the code of every function.
pub open spec fn spec_known_code_targets(arch: Architecture, load_bias: int, segments: Seq<ExecutableSegment>, symbols: Seq<SymbolInfo>, file_bytes: Seq<u8>) -> Seq<usize> {
    defined_addresses_upto(load_bias, symbols, symbols.len() as int) + direct_targets_upto(
        arch,
        load_bias,
        segments,
        symbols,
        file_bytes,
        symbols.len() as int,
    )
}

/// The code of `symbol` in `file_bytes`, with its live start and segment.
fn locate_code<'a>(image: &Image, symbol: &SymbolInfo, file_bytes: &'a [u8]) -> (code: Option<(usize, usize, &'a [u8])>)
    ensures
        match code {
            None => symbol_code(image.load_bias as int, image.segments@, *symbol, file_bytes@.len() as int) is None,
            Some((start, segment, bytes)) => match symbol_code(
                image.load_bias as int,
                image.segments@,
                *symbol,
                file_bytes@.len() as int,
            ) {
                None => false,
                Some((found_start, found_segment, file_start, file_end)) => {
                    &&& found_start == start
                    &&& found_segment == segment
                    &&& bytes@ == file_bytes@.subrange(file_start, file_end)
                    &&& start + bytes@.len() <= usize::MAX
                    &&& segment < image.segments@.len()
                },
            },
        },
{
    let (start, end) = match symbol_span(image.load_bias, symbol) {
        Some(span) => span,
        None => return None,
    };
    let segment: usize = match segment_holding(image.segments.as_slice(), start, end) {
        Some(segment) => segment,
        None => return None,
    };
    proof {
        lemma_segment_holding_in_bounds(image.segments@, start as int, end as int, 0);
    }
    let (file_start, file_end) = match symbol_file_range(symbol, file_bytes.len()) {
        Some(range) => range,
        None => return None,
    };
    Some((start, segment, slice_subrange(file_bytes, file_start, file_end)))
}

proof fn lemma_segment_holding_in_bounds(segments: Seq<ExecutableSegment>, start: int, end: int, from: int)
    ensures
        spec_segment_holding(segments, start, end, from) matches Some(i) ==> 0 <= i < segments.len(),
    decreases segments.len() - from,
{
    if 0 <= from < segments.len() {
        lemma_segment_holding_in_bounds(segments, start, end, from + 1);
    }
}

/// The addresses in the image known to be entered from elsewhere, from
/// its symbols and the code of its functions.
pub fn collect_known_code_targets(arch: Architecture, image: &Image, symbols: &[SymbolInfo], file_bytes: &[u8]) -> (targets: Vec<usize>)
    ensures
        targets@ == spec_known_code_targets(arch, image.load_bias as int, image.segments@, symbols@, file_bytes@),
{
    let mut targets: Vec<usize> = Vec::new();
    let mut i: usize = 0;
    while i < symbols.len()
        invariant
            0 <= i <= symbols@.len(),
            targets@ == defined_addresses_upto(image.load_bias as int, symbols@, i as int),
        decreases symbols@.len() - i,
    {
        let symbol = &symbols[i];
        if symbol.definition && symbol.address <= usize::MAX as u64 && image.load_bias <= usize::MAX - (symbol.address as usize) {
            targets.push(image.load_bias + symbol.address as usize);
        }
        i = i + 1;
    }
    let ghost defined = targets@;
    let mut j: usize = 0;
    while j < symbols.len()
        invariant
            0 <= j <= symbols@.len(),
            defined == defined_addresses_upto(image.load_bias as int, symbols@, symbols@.len() as int),
            targets@ == defined + direct_targets_upto(
                arch,
                image.load_bias as int,
                image.segments@,
                symbols@,
                file_bytes@,
                j as int,
            ),
        decreases symbols@.len() - j,
    {
        let symbol = &symbols[j];
        let ghost before = targets@;
        if symbol.text && symbol.definition && symbol.size != 0 {
            match locate_code(image, symbol, file_bytes) {
                Some((start, _segment, code)) => {
                    let mut found = arch::collect_known_direct_targets(arch, start, code);
                    targets.append(&mut found);
                },
                None => {},
            }
        }
        assert(targets@ =~= defined + direct_targets_upto(
            arch,
            image.load_bias as int,
            image.segments@,
            symbols@,
            file_bytes@,
            j + 1,
        ));
        j = j + 1;
    }
    targets
}

/// The sites of `views` whose displaced bytes hold none of `targets`, to be
/// restored to `protection`, in order.
pub open spec fn clear_sites_upto(views: Seq<(int, int, Seq<u8>)>, syscall_len: int, targets: Seq<usize>, protection: int, count: int) -> Seq<(int, int, Seq<u8>, int)>
    decreases count,
{
    if count <= 0 {
        Seq::empty()
    } else {
        let site = views[count - 1];
        clear_sites_upto(views, syscall_len, targets, protection, count - 1) + if spec_site_clear_of_targets(
            site.0,
            site.1,
            syscall_len,
            targets,
        ) {
            seq![(site.0, site.1, site.2, protection)]
        } else {
            Seq::empty()
        }
    }
}

/// The candidate sites of one symbol: those of a monitored function that
/// lies inside an executable segment, clear of the known targets, restored
/// to that segment's protection.
pub open spec fn symbol_sites(arch: Architecture, load_bias: int, segments: Seq<ExecutableSegment>, symbol: SymbolInfo, file_bytes: Seq<u8>, targets: Seq<usize>) -> Seq<(int, int, Seq<u8>, int)> {
    if !is_code_symbol(symbol) || symbol.name is None || !spec_is_monitored_symbol(symbol.name->0@) {
        Seq::empty()
    } else {
        match symbol_code(load_bias, segments, symbol, file_bytes.len() as int) {
            None => Seq::empty(),
            Some((start, segment, file_start, file_end)) => {
                let views = arch::spec_function_sites(arch, start, file_bytes.subrange(file_start, file_end));
                clear_sites_upto(
                    views,
                    arch::spec_syscall_instruction_length(arch),
                    targets,
                    segments[segment].protection as int,
                    views.len() as int,
                )
            },
        }
    }
}

/// The candidate sites of the first `count` symbols, in order.
pub open spec fn candidate_sites_upto(arch: Architecture, load_bias: int, segments: Seq<ExecutableSegment>, symbols: Seq<SymbolInfo>, file_bytes: Seq<u8>, targets: Seq<usize>, count: int) -> Seq<(int, int, Seq<u8>, int)>
    decreases count,
{
    if count <= 0 {
        Seq::empty()
    } else {
        candidate_sites_upto(arch, load_bias, segments, symbols, file_bytes, targets, count - 1) + symbol_sites(
            arch,
            load_bias,
            segments,
            symbols[count - 1],
            file_bytes,
            targets,
        )
    }
}

/// The candidate sites of every symbol of the image, given the known
/// branch targets.
pub fn candidate_sites(arch: Architecture, image: &Image, symbols: &[SymbolInfo], file_bytes: &[u8], targets: &[usize]) -> (sites: Vec<PatchSite>)
    ensures
        sites@.map_values(|site: PatchSite| full_view(site)) == candidate_sites_upto(
            arch,
            image.load_bias as int,
            image.segments@,
            symbols@,
            file_bytes@,
            targets@,
            symbols@.len() as int,
        ),
{
    let syscall_len: usize = arch::syscall_instruction_length(arch);
    let mut sites: Vec<PatchSite> = Vec::new();
    let mut i: usize = 0;
    while i < symbols.len()
        invariant
            0 <= i <= symbols@.len(),
            syscall_len == arch::spec_syscall_instruction_length(arch),
            sites@.map_values(|site: PatchSite| full_view(site)) == candidate_sites_upto(
                arch,
                image.load_bias as int,
                image.segments@,
                symbols@,
                file_bytes@,
                targets@,
                i as int,
            ),
        decreases symbols@.len() - i,
    {
        let symbol = &symbols[i];
        let ghost before = sites@.map_values(|site: PatchSite| full_view(site));
        let monitored: bool = match &symbol.name {
            Some(name) => is_monitored_symbol(name.as_slice()),
            None => false,
        };
        if symbol.text && symbol.definition && symbol.size != 0 && monitored {
            match locate_code(image, symbol, file_bytes) {
                Some((start, segment, code)) => {
                    let protection: i32 = image.segments[segment].protection;
                    let found = arch::collect_sites(arch, start, code);
                    let ghost views = arch::spec_function_sites(arch, start as int, code@);
                    let mut k: usize = 0;
                    while k < found.len()
                        invariant
                            0 <= k <= found@.len(),
                            found@.map_values(|site: PatchSite| arch::site_view(site)) == views,
                            sites@.map_values(|site: PatchSite| full_view(site)) == before + clear_sites_upto(
                                views,
                                syscall_len as int,
                                targets@,
                                protection as int,
                                k as int,
                            ),
                        decreases found@.len() - k,
                    {
                        let ghost inner = sites@.map_values(|site: PatchSite| full_view(site));
                        assert(arch::site_view(found@[k as int]) == views[k as int]);
                        if site_clear_of_targets(&found[k], syscall_len, targets) {
                            let mut site = found[k].copy();
                            site.restore_protection = protection;
                            sites.push(site);
                            assert(sites@.map_values(|site: PatchSite| full_view(site)) =~= inner.push(
                                (views[k as int].0, views[k as int].1, views[k as int].2, protection as int),
                            ));
                        }
                        assert(sites@.map_values(|site: PatchSite| full_view(site)) =~= before + clear_sites_upto(
                            views,
                            syscall_len as int,
                            targets@,
                            protection as int,
                            k + 1,
                        ));
                        k = k + 1;
                    }
                    assert(found@.len() == views.len());
                },
                None => {},
            }
        }
        assert(sites@.map_values(|site: PatchSite| full_view(site)) =~= candidate_sites_upto(
            arch,
            image.load_bias as int,
            image.segments@,
            symbols@,
            file_bytes@,
            targets@,
            i + 1,
        ));
        i = i + 1;
    }
    sites
}

/// Whether `sites` are the sites to patch in `image`: the candidate sites
/// of its monitored functions, clear of every known branch target
/// (`relocations`' targets, symbol addresses and direct branches), ordered
/// by address, the first at each address, none overlapping the previous
/// one.
pub open spec fn spec_image_selection(
    arch: Architecture,
    image: Image,
    symbols: Seq<SymbolInfo>,
    relocations: Seq<RelocationInfo>,
    file_bytes: Seq<u8>,
    sites: Seq<PatchSite>,
) -> bool {
    let targets = relocation_targets_upto(image.load_bias as int, relocations, relocations.len() as int)
        + spec_known_code_targets(arch, image.load_bias as int, image.segments@, symbols, file_bytes);
    let candidates = candidate_sites_upto(
        arch,
        image.load_bias as int,
        image.segments@,
        symbols,
        file_bytes,
        targets,
        symbols.len() as int,
    );
    exists|ordered: Seq<(int, int, Seq<u8>, int)>|
        #![trigger spec_select(ordered, ordered.len() as int)]
        {
            &&& sorted_by_address(ordered)
            &&& ordered.to_multiset() == candidates.to_multiset()
            &&& sites.map_values(|site: PatchSite| full_view(site)) == spec_select(ordered, ordered.len() as int).0
        }
}

/// The sites to patch in an image: the candidate sites of its monitored
/// functions, clear of every known branch target (`relocations`' targets,
/// symbol addresses and direct branches), ordered by address, the first
/// at each address, none overlapping the previous one.
pub fn select_image_sites(arch: Architecture, image: &Image, symbols: &[SymbolInfo], relocations: &[RelocationInfo], file_bytes: &[u8]) -> (sites: Vec<PatchSite>)
    ensures
        spec_image_selection(arch, *image, symbols@, relocations@, file_bytes@, sites@),
{
    let mut targets = collect_relocation_targets(image.load_bias, relocations);
    let mut code_targets = collect_known_code_targets(arch, image, symbols, file_bytes);
    targets.append(&mut code_targets);
    let candidates = candidate_sites(arch, image, symbols, file_bytes, targets.as_slice());
    let ghost candidate_views = candidates@.map_values(|site: PatchSite| full_view(site));
    let ordered = sort_by_address(candidates);
    let ghost ordered_views = ordered@.map_values(|site: PatchSite| full_view(site));
    let kept = select_non_overlapping(ordered);
    assert(ordered_views.len() == ordered@.len());
    assert(sorted_by_address(ordered_views));
    assert(ordered_views.to_multiset() == candidate_views.to_multiset());
    assert(kept@.map_values(|site: PatchSite| full_view(site)) == spec_select(ordered_views, ordered_views.len() as int).0);
    kept
}

} // verus!
