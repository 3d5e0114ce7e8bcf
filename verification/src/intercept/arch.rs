//! The architecture-specific steps of patching, chosen by the target
//! architecture: finding sites, the trampoline of a site, and the branch
//! that replaces it.
use vstd::prelude::*;

use super::aarch64;
use super::patcher::{PatchSite, PROT_READ_EXEC};
use super::x86_64;
use crate::seccomp::filter::Architecture;

verus! {

/// What a site is made of, as plain values: its address, the bytes its
/// branch overwrites, and the instructions the trampoline replays.
pub open spec fn site_view(site: PatchSite) -> (int, int, Seq<u8>) {
    (site.address as int, site.overwrite_length as int, site.displaced@)
}

/// Length of the syscall instruction.
pub open spec fn spec_syscall_instruction_length(arch: Architecture) -> int {
    match arch {
        Architecture::X86_64 => x86_64::SYSCALL_INSTRUCTION_LENGTH as int,
        Architecture::Aarch64 => aarch64::SYSCALL_INSTRUCTION_LENGTH as int,
    }
}

pub fn syscall_instruction_length(arch: Architecture) -> (length: usize)
    ensures
        length == spec_syscall_instruction_length(arch),
{
    match arch {
        Architecture::X86_64 => x86_64::SYSCALL_INSTRUCTION_LENGTH,
        Architecture::Aarch64 => aarch64::SYSCALL_INSTRUCTION_LENGTH,
    }
}

/// The sites that the architecture finds in a function at
/// `function_address` whose code is `bytes`.
pub open spec fn spec_function_sites(arch: Architecture, function_address: int, bytes: Seq<u8>) -> Seq<(int, int, Seq<u8>)> {
    match arch {
        Architecture::Aarch64 => if function_address % 4 != 0 {
            Seq::empty()
        } else {
            aarch64::entry_block_svc_sites(function_address, bytes, 0).map_values(
                |address: int| (address, 4int, Seq::<u8>::empty()),
            )
        },
        Architecture::X86_64 => {
            let block = x86_64::entry_block(function_address, bytes, 0);
            x86_64::sites_upto(function_address, bytes, block, block.len() as int).map_values(
                |site: (int, int, int)|
                    (
                        site.0,
                        site.1,
                        bytes.subrange(site.0 - function_address + site.2, site.0 - function_address + site.1),
                    ),
            )
        },
    }
}

/// Whether a site may be handed to the architecture's encoder: an x86-64
/// branch overwrites at least the five bytes of its jump.
pub open spec fn site_encodable(arch: Architecture, site: PatchSite) -> bool {
    arch is X86_64 ==> !(1 <= site.overwrite_length < 5)
}

/// The sites of a function, each to be restored to read+execute.
pub fn collect_sites(arch: Architecture, function_address: usize, bytes: &[u8]) -> (sites: Vec<PatchSite>)
    requires
        function_address + bytes@.len() <= usize::MAX,
    ensures
        sites@.map_values(|site: PatchSite| site_view(site)) == spec_function_sites(arch, function_address as int, bytes@),
        forall|i: int| 0 <= i < sites@.len() ==> #[trigger] sites@[i].restore_protection == PROT_READ_EXEC,
        forall|i: int| 0 <= i < sites@.len() ==> site_encodable(arch, #[trigger] sites@[i]),
{
    match arch {
        Architecture::Aarch64 => {
            let sites = aarch64::collect_sites(function_address, bytes);
            proof {
                let expected = spec_function_sites(arch, function_address as int, bytes@);
                let addresses = sites@.map_values(|site: PatchSite| site.address as int);
                assert forall|i: int| 0 <= i < sites@.len() implies #[trigger] sites@[i].restore_protection
                    == PROT_READ_EXEC && site_encodable(arch, sites@[i]) by {
                    assert(aarch64::is_svc_site(sites@[i]));
                }
                if function_address % 4 == 0 {
                    assert forall|i: int| 0 <= i < sites@.len() implies site_view(#[trigger] sites@[i]) == expected[i] by {
                        assert(aarch64::is_svc_site(sites@[i]));
                        assert(addresses[i] == sites@[i].address);
                        assert(sites@[i].displaced@ =~= Seq::<u8>::empty());
                    }
                }
                assert(sites@.map_values(|site: PatchSite| site_view(site)) =~= expected);
            }
            sites
        },
        Architecture::X86_64 => {
            let sites = x86_64::collect_sites(function_address, bytes);
            proof {
                let block = x86_64::entry_block(function_address as int, bytes@, 0);
                let found = x86_64::sites_upto(function_address as int, bytes@, block, block.len() as int);
                let expected = spec_function_sites(arch, function_address as int, bytes@);
                assert forall|i: int| 0 <= i < sites@.len() implies site_view(#[trigger] sites@[i]) == expected[i]
                    && sites@[i].restore_protection == PROT_READ_EXEC && site_encodable(arch, sites@[i]) by {
                    assert(x86_64::site_matches(sites@[i], function_address as int, bytes@, found[i]));
                    lemma_x86_site_long_enough(function_address as int, bytes@, block, i, found[i]);
                }
                assert(sites@.map_values(|site: PatchSite| site_view(site)) =~= expected);
            }
            sites
        },
    }
}

/// Every x86-64 site overwrites at least five bytes.
proof fn lemma_x86_site_long_enough(function_address: int, bytes: Seq<u8>, block: Seq<int>, i: int, site: (int, int, int))
    requires
        0 <= i < x86_64::sites_upto(function_address, bytes, block, block.len() as int).len(),
        site == x86_64::sites_upto(function_address, bytes, block, block.len() as int)[i],
    ensures
        site.1 >= 5,
{
    lemma_x86_sites_long_enough(function_address, bytes, block, block.len() as int);
}

proof fn lemma_x86_sites_long_enough(function_address: int, bytes: Seq<u8>, block: Seq<int>, count: int)
    ensures
        forall|i: int|
            0 <= i < x86_64::sites_upto(function_address, bytes, block, count).len() ==> (#[trigger] x86_64::sites_upto(
                function_address,
                bytes,
                block,
                count,
            )[i]).1 >= 5,
    decreases count,
{
    if count > 0 {
        lemma_x86_sites_long_enough(function_address, bytes, block, count - 1);
        let before = x86_64::sites_upto(function_address, bytes, block, count - 1);
        let all = x86_64::sites_upto(function_address, bytes, block, count);
        assert forall|i: int| 0 <= i < all.len() implies (#[trigger] all[i]).1 >= 5 by {
            if i < before.len() {
                assert(all[i] == before[i]);
            }
        }
    }
}

/// The direct branch targets that the architecture finds in a function.
pub open spec fn spec_direct_targets(arch: Architecture, function_address: int, bytes: Seq<u8>) -> Seq<usize> {
    match arch {
        Architecture::Aarch64 => Seq::empty(),
        Architecture::X86_64 => x86_64::direct_targets_upto(function_address, bytes, bytes.len() as int),
    }
}

pub fn collect_known_direct_targets(arch: Architecture, function_address: usize, bytes: &[u8]) -> (targets: Vec<usize>)
    requires
        function_address + bytes@.len() <= usize::MAX,
    ensures
        targets@ == spec_direct_targets(arch, function_address as int, bytes@),
{
    match arch {
        Architecture::Aarch64 => aarch64::collect_known_direct_targets(function_address, bytes),
        Architecture::X86_64 => x86_64::collect_known_direct_targets(function_address, bytes),
    }
}

/// Bytes of a site's trampoline.
pub open spec fn spec_trampoline_size(arch: Architecture, site: PatchSite) -> int {
    match arch {
        Architecture::Aarch64 => aarch64::TRAMPOLINE_SIZE as int,
        Architecture::X86_64 => x86_64::spec_trampoline_size(site.displaced@.len() as int),
    }
}

pub fn trampoline_size(arch: Architecture, site: &PatchSite) -> (size: usize)
    requires
        site.displaced@.len() + 59 <= usize::MAX,
    ensures
        size == spec_trampoline_size(arch, *site),
{
    match arch {
        Architecture::Aarch64 => aarch64::trampoline_size(site),
        Architecture::X86_64 => x86_64::trampoline_size(site),
    }
}

/// The branch that replaces a site, jumping to `trampoline`.
pub open spec fn spec_encode_site_branch(arch: Architecture, site: PatchSite, trampoline: int) -> Option<Seq<u8>> {
    match arch {
        Architecture::Aarch64 => match aarch64::spec_encode_branch(site.address as int, trampoline) {
            Some(instruction) => Some(vstd::bytes::spec_u32_to_le_bytes(instruction)),
            None => None,
        },
        Architecture::X86_64 => x86_64::spec_encode_site_branch(
            site.address as int,
            site.overwrite_length as int,
            trampoline,
        ),
    }
}

pub fn encode_site_branch(arch: Architecture, site: &PatchSite, trampoline: usize) -> (patch: Option<Vec<u8>>)
    requires
        site_encodable(arch, *site),
    ensures
        match patch {
            None => spec_encode_site_branch(arch, *site, trampoline as int) is None,
            Some(bytes) => spec_encode_site_branch(arch, *site, trampoline as int) == Some(bytes@),
        },
{
    match arch {
        Architecture::Aarch64 => aarch64::encode_site_branch(site, trampoline),
        Architecture::X86_64 => x86_64::encode_site_branch(site, trampoline),
    }
}

/// Whether the architecture can write a site's trampoline at `address`
/// into `available` bytes.
pub open spec fn spec_trampoline_fits(arch: Architecture, site: PatchSite, address: int, available: int) -> bool {
    match arch {
        Architecture::Aarch64 => {
            &&& site.displaced@.len() == 0
            &&& available >= aarch64::TRAMPOLINE_SIZE
            &&& aarch64::spec_encode_branch(address + 24, site.address + 4) is Some
        },
        Architecture::X86_64 => {
            &&& available >= x86_64::spec_trampoline_size(site.displaced@.len() as int)
            &&& x86_64::trampoline_fits(
                address,
                site.address as int,
                site.overwrite_length as int,
                site.displaced@.len() as int,
            )
        },
    }
}

/// The bytes of a site's trampoline at `address`; `padding` is what the
/// AArch64 record leaves as it was in its four unused bytes.
pub open spec fn spec_trampoline_bytes(arch: Architecture, site: PatchSite, address: int, dispatch_entry: int, padding: Seq<u8>) -> Seq<u8> {
    match arch {
        Architecture::Aarch64 => aarch64::trampoline_bytes(
            address,
            aarch64::spec_encode_branch(address + 24, site.address + 4)->0,
            dispatch_entry as u64,
            padding,
        ),
        Architecture::X86_64 => {
            let end = address + x86_64::spec_trampoline_size(site.displaced@.len() as int);
            x86_64::trampoline_bytes(
                address,
                site.address as int,
                site.displaced@,
                dispatch_entry as u64,
                x86_64::spec_rel32(end, site.address + site.overwrite_length)->0,
            )
        },
    }
}

/// Writes a site's trampoline at the start of `output`; `None` when it
/// does not fit.
pub fn emit_trampoline(arch: Architecture, output: &mut Vec<u8>, address: usize, site: &PatchSite, dispatch_entry: usize) -> (size: Option<usize>)
    requires
        site.displaced@.len() + 59 <= usize::MAX,
        address + aarch64::TRAMPOLINE_SIZE <= usize::MAX,
        site.address + 4 <= usize::MAX,
    ensures
        size is None <==> !spec_trampoline_fits(arch, *site, address as int, old(output)@.len() as int),
        size is None ==> final(output)@ == old(output)@,
        size matches Some(n) ==> {
            &&& n == spec_trampoline_size(arch, *site)
            &&& final(output)@.len() == old(output)@.len()
            &&& final(output)@.subrange(0, n as int) == spec_trampoline_bytes(
                arch,
                *site,
                address as int,
                dispatch_entry as int,
                old(output)@.subrange(28, 32),
            )
            &&& final(output)@.subrange(n as int, final(output)@.len() as int) == old(output)@.subrange(
                n as int,
                old(output)@.len() as int,
            )
        },
{
    match arch {
        Architecture::Aarch64 => aarch64::emit_trampoline(output, address, site, dispatch_entry),
        Architecture::X86_64 => x86_64::emit_trampoline(output, address, site, dispatch_entry),
    }
}

} // verus!
