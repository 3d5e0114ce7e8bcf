//! What the patcher reads of an image's ELF file: its byte order and
//! machine, its symbols (static, then dynamic) and its relocations, as
//! `object` parses them from the file's bytes; and the sites to patch that
//! follow from them.
use vstd::prelude::*;

use object::{Object as _, ObjectSection as _, ObjectSymbol as _};

use super::image::{spec_image_selection, select_image_sites, Image, RelocationInfo, SectionInfo, SymbolInfo};
use super::patcher::PatchSite;
use crate::seccomp::filter::Architecture;

verus! {

/// A symbol as plain values: whether it names code, whether it is defined
/// here, its address and size, its name, and its section's address and
/// file range.
pub type SymbolView = (bool, bool, u64, u64, Option<Seq<u8>>, Option<(u64, Option<(u64, u64)>)>);

/// What a relocation points at, as `object` reports it: a symbol or a
/// section (with its address, `None` when the index names none), an
/// absolute value, or a target of another kind.
#[derive(Debug, Clone, Copy, PartialEq, Eq, Structural)]
pub enum RelocationBase {
    Symbol(Option<u64>),
    Section(Option<u64>),
    Absolute,
    Other,
}

/// A relocation as plain values: what it points at and its addend.
pub type RelocationView = (RelocationBase, i64);

/// What the patcher reads of an ELF file: little-endian, machine,
/// symbols, relocations.
pub type ElfView = (bool, Option<Architecture>, Seq<SymbolView>, Seq<RelocationView>);

pub open spec fn symbol_view(symbol: SymbolInfo) -> SymbolView {
    (
        symbol.text,
        symbol.definition,
        symbol.address,
        symbol.size,
        match symbol.name {
            Some(name) => Some(name@),
            None => None,
        },
        match symbol.section {
            Some(section) => Some((section.address, section.file_range)),
            None => None,
        },
    )
}

/// Each symbol as plain values.
pub open spec fn symbol_views(symbols: Seq<SymbolInfo>) -> Seq<SymbolView> {
    symbols.map_values(|symbol: SymbolInfo| symbol_view(symbol))
}

/// What `object::File::parse` reads of `bytes`: `None` when they are no
/// object file it knows, and otherwise whether the file is little-endian,
/// its machine when it is one the patcher handles, its symbols (the symbol
/// table's, then the dynamic symbol table's) and its relocations (each
/// section's in section order, then the dynamic ones).
pub uninterp spec fn elf_contents(bytes: Seq<u8>) -> Option<ElfView>;

/// `object::File::parse`, then `is_little_endian` and `architecture`:
/// what `elf_contents` names of the file's byte order and machine.
#[verifier::external_body]
fn read_elf_header(bytes: &[u8]) -> (header: Option<(bool, Option<Architecture>)>)
    ensures
        match header {
            None => elf_contents(bytes@) is None,
            Some((little, machine)) => elf_contents(bytes@) matches Some(contents) && contents.0 == little
                && contents.1 == machine,
        },
{
    let file = object::File::parse(bytes).ok()?;
    let machine = match file.architecture() {
        object::Architecture::X86_64 => Some(Architecture::X86_64),
        object::Architecture::Aarch64 => Some(Architecture::Aarch64),
        _ => None,
    };
    Some((file.is_little_endian(), machine))
}

/// `object::File::parse`, then `symbols` chained with `dynamic_symbols`,
/// each symbol's kind (`Text` or not), `is_definition`, `address`, `size`,
/// `name_bytes` and section (`section_by_index`'s `address` and
/// `file_range`): what `elf_contents` names of the file's symbols.
#[verifier::external_body]
fn read_elf_symbols(bytes: &[u8]) -> (symbols: Option<Vec<SymbolInfo>>)
    ensures
        match symbols {
            None => elf_contents(bytes@) is None,
            Some(symbols) => elf_contents(bytes@) matches Some(contents) && contents.2 == symbol_views(symbols@),
        },
{
    let file = object::File::parse(bytes).ok()?;
    Some(file.symbols().chain(file.dynamic_symbols()).map(|s| SymbolInfo {
        text: s.kind() == object::SymbolKind::Text,
        definition: s.is_definition(),
        address: s.address(),
        size: s.size(),
        name: s.name_bytes().ok().map(|name| name.to_vec()),
        section: s.section_index().and_then(|i| file.section_by_index(i).ok()).map(
            |c| SectionInfo { address: c.address(), file_range: c.file_range() },
        ),
    }).collect())
}

/// `object::File::parse`, then each section's `relocations` followed by
/// `dynamic_relocations`, each with its `target` (for a symbol or a
/// section, its `address` through `symbol_by_index` / `section_by_index`)
/// and `addend`: what `elf_contents` names of the file's relocations.
#[verifier::external_body]
fn read_elf_relocations(bytes: &[u8]) -> (relocations: Option<Vec<(RelocationBase, i64)>>)
    ensures
        match relocations {
            None => elf_contents(bytes@) is None,
            Some(relocations) => elf_contents(bytes@) matches Some(contents) && contents.3 == relocations@,
        },
{
    let file = object::File::parse(bytes).ok()?;
    let dynamic = file.dynamic_relocations().into_iter().flatten();
    Some(file.sections().flat_map(|c| c.relocations()).chain(dynamic).map(|(_, r)| (match r.target() {
        object::RelocationTarget::Symbol(i) => RelocationBase::Symbol(file.symbol_by_index(i).ok().map(|s| s.address())),
        object::RelocationTarget::Section(i) => RelocationBase::Section(file.section_by_index(i).ok().map(|c| c.address())),
        object::RelocationTarget::Absolute => RelocationBase::Absolute,
        _ => RelocationBase::Other,
    }, r.addend())).collect())
}

/// The address a relocation's target stands for before biasing: a
/// symbol's or section's address, 0 for an absolute target, and none for
/// a target of another kind or an index that names nothing.
pub open spec fn spec_relocation_base(base: RelocationBase) -> Option<u64> {
    match base {
        RelocationBase::Symbol(address) => address,
        RelocationBase::Section(address) => address,
        RelocationBase::Absolute => Some(0),
        RelocationBase::Other => None,
    }
}

/// The address a relocation target stands for before biasing.
pub fn relocation_base(base: RelocationBase) -> (address: Option<u64>)
    ensures
        address == spec_relocation_base(base),
{
    match base {
        RelocationBase::Symbol(address) => address,
        RelocationBase::Section(address) => address,
        RelocationBase::Absolute => Some(0),
        RelocationBase::Other => None,
    }
}

/// The relocations among `raw` whose target has an address, in order.
pub open spec fn addressed_relocations(raw: Seq<RelocationView>) -> Seq<RelocationInfo>
    decreases raw.len(),
{
    if raw.len() == 0 {
        Seq::empty()
    } else {
        let rest = addressed_relocations(raw.drop_last());
        match spec_relocation_base(raw.last().0) {
            Some(base) => rest.push(RelocationInfo { base, addend: raw.last().1 }),
            None => rest,
        }
    }
}

/// Keeps the relocations whose target stands for an address (0 for an
/// absolute one), with that address as their base.
fn keep_addressed(raw: &Vec<(RelocationBase, i64)>) -> (relocations: Vec<RelocationInfo>)
    ensures
        relocations@ == addressed_relocations(raw@),
{
    let mut relocations: Vec<RelocationInfo> = Vec::new();
    let mut i: usize = 0;
    while i < raw.len()
        invariant
            0 <= i <= raw@.len(),
            relocations@ == addressed_relocations(raw@.subrange(0, i as int)),
        decreases raw@.len() - i,
    {
        let (target, addend) = raw[i];
        let base = relocation_base(target);
        proof {
            assert(raw@.subrange(0, i + 1).drop_last() =~= raw@.subrange(0, i as int));
        }
        match base {
            Some(base) => relocations.push(RelocationInfo { base, addend }),
            None => {},
        }
        i = i + 1;
    }
    assert(raw@.subrange(0, raw@.len() as int) =~= raw@);
    relocations
}

/// Whether the file read as `contents` is one the patcher handles on
/// `arch`: little-endian, for that machine.
pub open spec fn handled(arch: Architecture, contents: ElfView) -> bool {
    contents.0 && contents.1 == Some(arch)
}

/// The sites to patch in `image`, whose ELF file holds `file_bytes`: none
/// when `object` cannot parse the file or it is not a little-endian file
/// for `arch`, and otherwise the sites `select_image_sites` picks from the
/// file's symbols and from its relocations that have a target address.
pub fn image_sites(arch: Architecture, image: &Image, file_bytes: &[u8]) -> (sites: Vec<PatchSite>)
    ensures
        match elf_contents(file_bytes@) {
            None => sites@.len() == 0,
            Some(contents) => if !handled(arch, contents) {
                sites@.len() == 0
            } else {
                exists|symbols: Seq<SymbolInfo>|
                    #![trigger symbol_views(symbols)]
                    symbol_views(symbols) == contents.2
                        && spec_image_selection(
                        arch,
                        *image,
                        symbols,
                        addressed_relocations(contents.3),
                        file_bytes@,
                        sites@,
                    )
            },
        },
{
    let (little, machine) = match read_elf_header(file_bytes) {
        Some(header) => header,
        None => return Vec::new(),
    };
    let ours = match machine {
        Some(m) => m == arch,
        None => false,
    };
    if !little || !ours {
        return Vec::new();
    }
    let symbols = match read_elf_symbols(file_bytes) {
        Some(symbols) => symbols,
        None => return Vec::new(),
    };
    let raw = match read_elf_relocations(file_bytes) {
        Some(raw) => raw,
        None => return Vec::new(),
    };
    let relocations = keep_addressed(&raw);
    let sites = select_image_sites(arch, image, symbols.as_slice(), relocations.as_slice(), file_bytes);
    proof {
        let contents = elf_contents(file_bytes@)->0;
        assert(symbol_views(symbols@) == contents.2);
    }
    sites
}

} // verus!
