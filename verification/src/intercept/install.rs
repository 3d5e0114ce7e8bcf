//! Installing an image's patches: one private region holds every
//! trampoline, mapped near enough to the sites that each can branch to its
//! own, and written completely before any site is touched.
//!
//! ```text
//! [ trampoline 0 ][ padding ][ trampoline 1 ] ... [ page padding ]
//! ```
//!
//! The mapping calls themselves are the caller's; this module decides the
//! layout, where to ask for the mapping, whether a mapping is usable, and
//! every byte written.
use vstd::prelude::*;

use super::arch;
use super::gate::zeros;
use super::patcher::{align_up_checked, spec_trampoline_offsets, trampoline_offsets, PatchSite};
use crate::seccomp::filter::Architecture;

verus! {

/// The trampoline sizes of `sites`.
pub open spec fn trampoline_sizes(arch: Architecture, sites: Seq<PatchSite>) -> Seq<usize> {
    sites.map_values(|site: PatchSite| arch::spec_trampoline_size(arch, site) as usize)
}

/// Whether every site's trampoline size is representable.
pub open spec fn sizes_representable(sites: Seq<PatchSite>) -> bool {
    forall|i: int| 0 <= i < sites.len() ==> #[trigger] sites[i].displaced@.len() + 59 <= usize::MAX
}

/// The layout of the region for `sites`: where each trampoline starts, the
/// bytes they use, and the page-rounded size to map; `None` for no sites or
/// when a size overflows.
pub fn install_layout(arch: Architecture, sites: &[PatchSite], page_size: usize) -> (layout: Option<(Vec<usize>, usize, usize)>)
    requires
        page_size >= 1,
        page_size & (page_size - 1) as usize == 0,
        sizes_representable(sites@),
    ensures
        layout is None <==> (sites@.len() == 0 || match spec_trampoline_offsets(
            trampoline_sizes(arch, sites@),
            sites@.len() as int,
        ) {
            None => true,
            Some((_offsets, used)) => used + page_size - 1 > usize::MAX,
        }),
        layout matches Some((offsets, used, mapping_size)) ==> {
            &&& spec_trampoline_offsets(trampoline_sizes(arch, sites@), sites@.len() as int) == Some(
                (offsets@, used as int),
            )
            &&& used <= mapping_size < used + page_size
            &&& mapping_size & ((page_size - 1) as usize) == 0
            &&& offsets@.len() == sites@.len()
            &&& forall|i: int| 0 <= i < offsets@.len() ==> #[trigger] offsets@[i] % 16 == 0
            &&& forall|i: int|
                0 <= i < offsets@.len() ==> offsets@[i] + arch::spec_trampoline_size(arch, #[trigger] sites@[i]) <= used
            &&& forall|i: int, j: int|
                0 <= i < j < offsets@.len() ==> offsets@[i] + arch::spec_trampoline_size(arch, sites@[i])
                    <= offsets@[j]
        },
{
    let mut sizes: Vec<usize> = Vec::new();
    let mut i: usize = 0;
    while i < sites.len()
        invariant
            0 <= i <= sites@.len(),
            sizes_representable(sites@),
            sizes@ == trampoline_sizes(arch, sites@).subrange(0, i as int),
        decreases sites@.len() - i,
    {
        assert(sites@[i as int].displaced@.len() + 59 <= usize::MAX);
        let size = arch::trampoline_size(arch, &sites[i]);
        sizes.push(size);
        assert(sizes@ =~= trampoline_sizes(arch, sites@).subrange(0, i + 1));
        i = i + 1;
    }
    assert(sizes@ =~= trampoline_sizes(arch, sites@));
    let (offsets, used) = match trampoline_offsets(sizes.as_slice()) {
        Some(layout) => layout,
        None => return None,
    };
    let mapping_size: usize = match align_up_checked(used, page_size) {
        Some(size) => size,
        None => return None,
    };
    if sites.len() == 0 {
        return None;
    }
    assert forall|k: int| 0 <= k < offsets@.len() implies offsets@[k] + arch::spec_trampoline_size(
        arch,
        #[trigger] sites@[k],
    ) <= used by {
        assert(sizes@[k] == arch::spec_trampoline_size(arch, sites@[k]) as usize);
    }
    assert forall|a: int, b: int| 0 <= a < b < offsets@.len() implies offsets@[a] + arch::spec_trampoline_size(
        arch,
        sites@[a],
    ) <= offsets@[b] by {
        assert(sizes@[a] == arch::spec_trampoline_size(arch, sites@[a]) as usize);
    }
    Some((offsets, used, mapping_size))
}

/// Where to look for a region: from the page after the last site upward,
/// and from below the first site downward, leaving room for the region.
pub open spec fn spec_near_bounds(first: int, last: int, mapping_size: int, page_size: int) -> Option<(int, Option<int>)> {
    if last + page_size > usize::MAX || last + page_size + page_size - 1 > usize::MAX {
        None
    } else {
        let after = ((last + page_size + page_size - 1) as usize & !((page_size - 1) as usize)) as int;
        let before = if first < mapping_size + page_size {
            None
        } else {
            Some(((first - mapping_size - page_size) as usize & !((page_size - 1) as usize)) as int)
        };
        Some((after, before))
    }
}

pub fn near_bounds(first: usize, last: usize, mapping_size: usize, page_size: usize) -> (bounds: Option<(usize, Option<usize>)>)
    requires
        page_size >= 1,
        page_size & (page_size - 1) as usize == 0,
        mapping_size + page_size <= usize::MAX,
    ensures
        match bounds {
            None => spec_near_bounds(first as int, last as int, mapping_size as int, page_size as int) is None,
            Some((after, before)) => spec_near_bounds(first as int, last as int, mapping_size as int, page_size as int)
                == Some(
                (
                    after as int,
                    match before {
                        None => None,
                        Some(b) => Some(b as int),
                    },
                ),
            ),
        },
{
    let above: usize = match last.checked_add(page_size) {
        Some(above) => above,
        None => return None,
    };
    let after: usize = match align_up_checked(above, page_size) {
        Some(after) => after,
        None => return None,
    };
    let before: Option<usize> = if first < mapping_size + page_size {
        None
    } else {
        Some((first - (mapping_size + page_size)) & !(page_size - 1))
    };
    Some((after, before))
}

/// The step between successive attempts, in bytes.
pub const HINT_STEP: usize = 0x10_0000;
/// How many attempts are made on each side.
pub const HINT_ATTEMPTS: usize = 256;

/// The two addresses to ask for on attempt `attempt`: `attempt` steps above
/// `after`, and `attempt` steps below `before` (0, meaning no hint, when
/// there is no such address); `None`, ending the search, when the upper one
/// overflows.
pub open spec fn spec_attempt_hints(after: int, before: Option<int>, attempt: int) -> Option<(int, int)> {
    let offset = attempt * HINT_STEP;
    if after + offset > usize::MAX {
        None
    } else {
        Some(
            (
                after + offset,
                match before {
                    Some(b) => if b >= offset {
                        b - offset
                    } else {
                        0
                    },
                    None => 0,
                },
            ),
        )
    }
}

pub fn attempt_hints(after: usize, before: Option<usize>, attempt: usize) -> (hints: Option<(usize, usize)>)
    requires
        attempt < HINT_ATTEMPTS,
    ensures
        match hints {
            None => spec_attempt_hints(
                after as int,
                match before {
                    None => None,
                    Some(b) => Some(b as int),
                },
                attempt as int,
            ) is None,
            Some((above, below)) => spec_attempt_hints(
                after as int,
                match before {
                    None => None,
                    Some(b) => Some(b as int),
                },
                attempt as int,
            ) == Some((above as int, below as int)),
        },
{
    let offset: usize = attempt * HINT_STEP;
    let above: usize = match after.checked_add(offset) {
        Some(above) => above,
        None => return None,
    };
    let below: usize = match before {
        Some(b) => if b >= offset {
            b - offset
        } else {
            0
        },
        None => 0,
    };
    Some((above, below))
}

/// Whether every site can branch to its trampoline in a region mapped at
/// `mapping`.
pub open spec fn spec_sites_reachable(arch: Architecture, mapping: int, sites: Seq<PatchSite>, offsets: Seq<usize>) -> bool {
    forall|i: int|
        0 <= i < sites.len() && i < offsets.len() ==> mapping + offsets[i] <= usize::MAX
            && arch::spec_encode_site_branch(arch, #[trigger] sites[i], mapping + offsets[i]) is Some
}

/// Whether a region mapped at `mapping` is near enough to every site.
pub fn sites_reachable(arch: Architecture, mapping: usize, sites: &[PatchSite], offsets: &[usize]) -> (reachable: bool)
    requires
        forall|i: int| 0 <= i < sites@.len() ==> arch::site_encodable(arch, #[trigger] sites@[i]),
    ensures
        reachable == spec_sites_reachable(arch, mapping as int, sites@, offsets@),
{
    let mut i: usize = 0;
    while i < sites.len() && i < offsets.len()
        invariant
            0 <= i <= sites@.len(),
            forall|k: int| 0 <= k < sites@.len() ==> arch::site_encodable(arch, #[trigger] sites@[k]),
            forall|k: int|
                0 <= k < i && k < offsets@.len() ==> mapping + offsets@[k] <= usize::MAX
                    && arch::spec_encode_site_branch(arch, #[trigger] sites@[k], mapping + offsets@[k]) is Some,
        decreases sites@.len() - i,
    {
        let trampoline: usize = match mapping.checked_add(offsets[i]) {
            Some(t) => t,
            None => {
                assert(!(mapping + offsets@[i as int] <= usize::MAX));
                assert(sites@[i as int] == sites@[i as int]);
                return false;
            },
        };
        match arch::encode_site_branch(arch, &sites[i], trampoline) {
            Some(_) => {},
            None => {
                assert(arch::spec_encode_site_branch(arch, sites@[i as int], mapping + offsets@[i as int]) is None);
                return false;
            },
        }
        i = i + 1;
    }
    true
}

/// Writes `data` over `region` at `offset`.
fn write_at(region: &mut Vec<u8>, offset: usize, data: &Vec<u8>)
    requires
        offset + data@.len() <= old(region)@.len(),
    ensures
        final(region)@.len() == old(region)@.len(),
        forall|j: int| 0 <= j < data@.len() ==> #[trigger] final(region)@[offset + j] == data@[j],
        forall|j: int|
            0 <= j < old(region)@.len() && (j < offset || j >= offset + data@.len()) ==> #[trigger] final(region)@[j]
                == old(region)@[j],
{
    let n: usize = region.len();
    let mut i: usize = 0;
    while i < data.len()
        invariant
            n == region@.len(),
            offset + data@.len() <= region@.len(),
            region@.len() == old(region)@.len(),
            0 <= i <= data@.len(),
            forall|j: int| 0 <= j < i ==> #[trigger] region@[offset + j] == data@[j],
            forall|j: int|
                0 <= j < old(region)@.len() && (j < offset || j >= offset + i) ==> #[trigger] region@[j] == old(region)@[j],
        decreases data@.len() - i,
    {
        region.set(offset + i, data[i]);
        i = i + 1;
    }
}

/// `count` zero bytes.
fn zeroed(count: usize) -> (bytes: Vec<u8>)
    ensures
        bytes@ == zeros(count as int),
{
    let mut bytes: Vec<u8> = Vec::new();
    let mut i: usize = 0;
    while i < count
        invariant
            0 <= i <= count,
            bytes@ == zeros(i as int),
        decreases count - i,
    {
        bytes.push(0);
        i = i + 1;
        assert(bytes@ =~= zeros(i as int));
    }
    bytes
}

/// Whether the trampoline of every site fits where the layout puts it in a
/// region at `mapping`, and every site can branch to it.
pub open spec fn spec_trampolines_fit(arch: Architecture, mapping: int, sites: Seq<PatchSite>, offsets: Seq<usize>) -> bool {
    forall|i: int|
        0 <= i < sites.len() ==> {
            &&& arch::spec_trampoline_fits(
                arch,
                #[trigger] sites[i],
                mapping + offsets[i],
                arch::spec_trampoline_size(arch, sites[i]),
            )
            &&& arch::spec_encode_site_branch(arch, sites[i], mapping + offsets[i]) is Some
        }
}

/// The contents of a region at `mapping` of `used` bytes holding the
/// trampolines of `sites` at `offsets`, and the branch that replaces each
/// site; `None` when a trampoline or a branch cannot be encoded.
pub fn build_trampolines(
    arch: Architecture,
    mapping: usize,
    sites: &[PatchSite],
    offsets: &[usize],
    used: usize,
    dispatch_entry: usize,
) -> (built: Option<(Vec<u8>, Vec<Vec<u8>>)>)
    requires
        offsets@.len() == sites@.len(),
        mapping + used <= usize::MAX,
        sizes_representable(sites@),
        forall|i: int| 0 <= i < sites@.len() ==> #[trigger] sites@[i].address + 4 <= usize::MAX,
        forall|i: int| 0 <= i < sites@.len() ==> arch::site_encodable(arch, #[trigger] sites@[i]),
        forall|i: int| 0 <= i < sites@.len() ==> offsets@[i] + arch::spec_trampoline_size(arch, #[trigger] sites@[i]) <= used,
        forall|i: int, j: int|
            0 <= i < j < sites@.len() ==> offsets@[i] + arch::spec_trampoline_size(arch, sites@[i]) <= offsets@[j],
    ensures
        built is None <==> !spec_trampolines_fit(arch, mapping as int, sites@, offsets@),
        built matches Some((region, patches)) ==> {
            &&& region@.len() == used
            &&& patches@.len() == sites@.len()
            &&& forall|i: int|
                0 <= i < sites@.len() ==> #[trigger] region@.subrange(
                    offsets@[i] as int,
                    offsets@[i] + arch::spec_trampoline_size(arch, sites@[i]),
                ) == arch::spec_trampoline_bytes(arch, sites@[i], mapping + offsets@[i], dispatch_entry as int, zeros(4))
            &&& forall|i: int|
                0 <= i < sites@.len() ==> arch::spec_encode_site_branch(arch, sites@[i], mapping + offsets@[i]) == Some(
                    #[trigger] patches@[i]@,
                )
        },
{
    let mut region: Vec<u8> = zeroed(used);
    let mut patches: Vec<Vec<u8>> = Vec::new();
    let mut i: usize = 0;
    while i < sites.len()
        invariant
            offsets@.len() == sites@.len(),
            mapping + used <= usize::MAX,
            sizes_representable(sites@),
            forall|k: int| 0 <= k < sites@.len() ==> #[trigger] sites@[k].address + 4 <= usize::MAX,
            forall|k: int| 0 <= k < sites@.len() ==> arch::site_encodable(arch, #[trigger] sites@[k]),
            forall|k: int| 0 <= k < sites@.len() ==> offsets@[k] + arch::spec_trampoline_size(arch, #[trigger] sites@[k]) <= used,
            forall|a: int, b: int|
                0 <= a < b < sites@.len() ==> offsets@[a] + arch::spec_trampoline_size(arch, sites@[a]) <= offsets@[b],
            0 <= i <= sites@.len(),
            region@.len() == used,
            patches@.len() == i,
            forall|k: int|
                0 <= k < i ==> {
                    &&& arch::spec_trampoline_fits(
                        arch,
                        #[trigger] sites@[k],
                        mapping + offsets@[k],
                        arch::spec_trampoline_size(arch, sites@[k]),
                    )
                    &&& arch::spec_encode_site_branch(arch, sites@[k], mapping + offsets@[k]) is Some
                },
            forall|k: int, j: int|
                0 <= k < i && 0 <= j < arch::spec_trampoline_size(arch, sites@[k]) ==> #[trigger] region@[offsets@[k]
                    + j] == arch::spec_trampoline_bytes(
                    arch,
                    sites@[k],
                    mapping + offsets@[k],
                    dispatch_entry as int,
                    zeros(4),
                )[j],
            forall|k: int|
                0 <= k < i ==> arch::spec_encode_site_branch(arch, sites@[k], mapping + offsets@[k]) == Some(
                    #[trigger] patches@[k]@,
                ),
            forall|k: int|
                0 <= k < i ==> #[trigger] arch::spec_trampoline_bytes(
                    arch,
                    sites@[k],
                    mapping + offsets@[k],
                    dispatch_entry as int,
                    zeros(4),
                ).len() == arch::spec_trampoline_size(arch, sites@[k]),
        decreases sites@.len() - i,
    {
        let site = &sites[i];
        assert(site.displaced@.len() + 59 <= usize::MAX);
        let size: usize = arch::trampoline_size(arch, site);
        let trampoline: usize = mapping + offsets[i];
        let mut record: Vec<u8> = zeroed(size);
        assert(size >= 48) by {
            if arch is X86_64 {
                assert(size == 59 + site.displaced@.len());
            }
        }
        assert(record@.subrange(28, 32) =~= zeros(4));
        match arch::emit_trampoline(arch, &mut record, trampoline, site, dispatch_entry) {
            Some(_) => {},
            None => {
                assert(!spec_trampolines_fit(arch, mapping as int, sites@, offsets@));
                return None;
            },
        }
        let patch: Vec<u8> = match arch::encode_site_branch(arch, site, trampoline) {
            Some(patch) => patch,
            None => {
                assert(!spec_trampolines_fit(arch, mapping as int, sites@, offsets@));
                return None;
            },
        };
        let ghost content = arch::spec_trampoline_bytes(arch, sites@[i as int], mapping + offsets@[i as int], dispatch_entry as int, zeros(4));
        assert(record@.subrange(0, size as int) == content);
        let ghost region_before = region@;
        let ghost patches_before = patches@;
        write_at(&mut region, offsets[i], &record);
        patches.push(patch);
        assert forall|k: int, j: int|
            0 <= k < i + 1 && 0 <= j < arch::spec_trampoline_size(arch, sites@[k]) implies #[trigger] region@[offsets@[k]
                + j] == arch::spec_trampoline_bytes(
                arch,
                sites@[k],
                mapping + offsets@[k],
                dispatch_entry as int,
                zeros(4),
            )[j] by {
            if k < i {
                assert(offsets@[k] + arch::spec_trampoline_size(arch, sites@[k]) <= offsets@[i as int]);
                assert(region@[offsets@[k] + j] == region_before[offsets@[k] + j]);
            } else {
                assert(record@[j] == record@.subrange(0, size as int)[j]);
            }
        }
        assert forall|k: int| 0 <= k < i + 1 implies arch::spec_encode_site_branch(arch, sites@[k], mapping + offsets@[k])
            == Some(#[trigger] patches@[k]@) by {
            if k < i {
                assert(patches@[k] == patches_before[k]);
            }
        }
        i = i + 1;
    }
    assert forall|k: int| 0 <= k < sites@.len() implies #[trigger] region@.subrange(
        offsets@[k] as int,
        offsets@[k] + arch::spec_trampoline_size(arch, sites@[k]),
    ) == arch::spec_trampoline_bytes(arch, sites@[k], mapping + offsets@[k], dispatch_entry as int, zeros(4)) by {
        let size = arch::spec_trampoline_size(arch, sites@[k]);
        let content = arch::spec_trampoline_bytes(arch, sites@[k], mapping + offsets@[k], dispatch_entry as int, zeros(4));
        assert forall|j: int| 0 <= j < size implies region@.subrange(offsets@[k] as int, offsets@[k] + size)[j]
            == content[j] by {
            assert(region@[offsets@[k] + j] == content[j]);
        }
        assert(region@.subrange(offsets@[k] as int, offsets@[k] + size) =~= content);
    }
    Some((region, patches))
}

} // verus!
