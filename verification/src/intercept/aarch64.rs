//! AArch64 encodings: finding `svc #0` sites, the `B` branch that replaces
//! them, and the per-site trampoline.
//!
//! AArch64 instructions are fixed-width 32-bit little-endian words. `bti c`
//! is the landing pad for a gate entered with BLR; `ret` branches to x30.
use vstd::bytes::*;
use vstd::prelude::*;
use vstd::slice::*;

use super::dispatcher::SyscallContext;
use super::patcher::{PatchSite, PROT_READ_EXEC};

verus! {

/// `bti c`
pub const LANDING_PAD: [u8; 4] = [0x5f, 0x24, 0x03, 0xd5];
/// `svc #0`
pub const ALLOWED_GATE_INSTRUCTION: [u8; 4] = [0x01, 0x00, 0x00, 0xd4];
/// `ret`
pub const RETURN_INSTRUCTION: [u8; 4] = [0xc0, 0x03, 0x5f, 0xd6];
pub const SYSCALL_INSTRUCTION_LENGTH: usize = 4;
/// The farthest a `B` instruction reaches forward.
pub const MAX_BRANCH_DISTANCE: usize = 0x7ff_fffc;

pub const SVC_ZERO: u32 = 0xd400_0001;
pub const BTI_J: u32 = 0xd503_249f;
/// Bytes of one trampoline.
pub const TRAMPOLINE_SIZE: usize = 48;

/// The immediate field of a `B` spanning `displacement` bytes: the
/// displacement in instruction words, as a 26-bit two's-complement value.
pub open spec fn branch_immediate(displacement: int) -> int {
    if displacement >= 0 {
        displacement / 4
    } else {
        0x400_0000 + displacement / 4
    }
}

/// The `B` from `from` to `to`, or `None` when the target is misaligned
/// relative to `from` or out of the ±128 MiB range (`-2^27 ..= 2^27 - 4`).
pub open spec fn spec_encode_branch(from: int, to: int) -> Option<u32> {
    let displacement = to - from;
    if from > i64::MAX || to > i64::MAX || displacement % 4 != 0 || displacement < -0x800_0000
        || displacement >= 0x800_0000 {
        None
    } else {
        Some((0x1400_0000 + branch_immediate(displacement)) as u32)
    }
}

/// Where a `B` at `from` with encoding `instruction` lands.
pub open spec fn branch_target(instruction: u32, from: int) -> int {
    let immediate = (instruction & 0x03ff_ffff) as int;
    from + 4 * (if immediate < 0x200_0000 {
        immediate
    } else {
        immediate - 0x400_0000
    })
}

/// Encodes the unconditional `B` from `from` to `to`.
pub fn encode_branch(from: usize, to: usize) -> (instruction: Option<u32>)
    ensures
        instruction == spec_encode_branch(from as int, to as int),
        instruction matches Some(i) ==> branch_target(i, from as int) == to,
        instruction matches Some(i) ==> i & 0xfc00_0000 == 0x1400_0000,
{
    if from as u64 > 0x7fff_ffff_ffff_ffff || to as u64 > 0x7fff_ffff_ffff_ffff {
        return None;
    }
    let from64: u64 = from as u64;
    let to64: u64 = to as u64;
    let immediate: u32 = if to64 >= from64 {
        let distance: u64 = to64 - from64;
        if distance % 4 != 0 || distance >= 0x800_0000 {
            return None;
        }
        (distance / 4) as u32
    } else {
        let distance: u64 = from64 - to64;
        if distance % 4 != 0 || distance > 0x800_0000 {
            return None;
        }
        (0x400_0000 - distance / 4) as u32
    };
    proof {
        lemma_branch_word(immediate);
    }
    Some(0x1400_0000 | immediate)
}

/// An immediate below 2^26 sits in the low bits of the opcode.
proof fn lemma_branch_word(immediate: u32)
    requires
        immediate < 0x400_0000,
    ensures
        0x1400_0000u32 | immediate == 0x1400_0000 + immediate,
        (0x1400_0000u32 | immediate) & 0x03ff_ffff == immediate,
        (0x1400_0000u32 | immediate) & 0xfc00_0000 == 0x1400_0000,
{
    assert(immediate < 0x400_0000u32 ==> 0x1400_0000u32 | immediate == 0x1400_0000u32 + immediate
        && (0x1400_0000u32 | immediate) & 0x03ff_ffffu32 == immediate
        && (0x1400_0000u32 | immediate) & 0xfc00_0000u32 == 0x1400_0000u32) by (bit_vector);
}

pub open spec fn spec_is_control_flow(instruction: u32) -> bool {
    ||| instruction & 0x7c00_0000 == 0x1400_0000
    ||| instruction & 0x7e00_0000 == 0x3400_0000
    ||| instruction & 0x7e00_0000 == 0x3600_0000
    ||| instruction & 0xff00_0010 == 0x5400_0000
    ||| instruction & 0xfe00_0000 == 0xd600_0000
    ||| instruction & 0xff00_0000 == 0xd400_0000
}

/// B/BL, CBZ/CBNZ, TBZ/TBNZ, B.cond, BR/BLR/RET/ERET/DRPS, and exception
/// generation.
pub fn is_control_flow(instruction: u32) -> (control_flow: bool)
    ensures
        control_flow == spec_is_control_flow(instruction),
{
    instruction & 0x7c00_0000 == 0x1400_0000 || instruction & 0x7e00_0000 == 0x3400_0000
        || instruction & 0x7e00_0000 == 0x3600_0000 || instruction & 0xff00_0010 == 0x5400_0000
        || instruction & 0xfe00_0000 == 0xd600_0000 || instruction & 0xff00_0000 == 0xd400_0000
}

/// The entry-block scan stops at every control transfer of the A64
/// encoding: B/BL, CBZ/CBNZ, TBZ/TBNZ, B.cond, the register branches
/// (BR/BLR/RET/ERET/DRPS) and exception generation are all control flow.
/// And only words of the branch, exception-generation and system group
/// (bits 28..26 = 101) are, while hint and system instructions such as
/// NOP are not.
pub proof fn lemma_control_flow_classes(instruction: u32)
    ensures
        instruction & 0x7c00_0000 == 0x1400_0000 ==> spec_is_control_flow(instruction),
        instruction & 0x7e00_0000 == 0x3400_0000 ==> spec_is_control_flow(instruction),
        instruction & 0x7e00_0000 == 0x3600_0000 ==> spec_is_control_flow(instruction),
        instruction & 0xff00_0010 == 0x5400_0000 ==> spec_is_control_flow(instruction),
        instruction & 0xfe00_0000 == 0xd600_0000 ==> spec_is_control_flow(instruction),
        instruction & 0xff00_0000 == 0xd400_0000 ==> spec_is_control_flow(instruction),
        spec_is_control_flow(instruction) ==> instruction & 0x1c00_0000 == 0x1400_0000,
        instruction & 0xff00_0000 == 0xd500_0000 ==> !spec_is_control_flow(instruction),
{
    assert(instruction & 0x7c00_0000 == 0x1400_0000 ==> instruction & 0x1c00_0000 == 0x1400_0000) by (bit_vector);
    assert(instruction & 0x7e00_0000 == 0x3400_0000 ==> instruction & 0x1c00_0000 == 0x1400_0000) by (bit_vector);
    assert(instruction & 0x7e00_0000 == 0x3600_0000 ==> instruction & 0x1c00_0000 == 0x1400_0000) by (bit_vector);
    assert(instruction & 0xff00_0010 == 0x5400_0000 ==> instruction & 0x1c00_0000 == 0x1400_0000) by (bit_vector);
    assert(instruction & 0xfe00_0000 == 0xd600_0000 ==> instruction & 0x1c00_0000 == 0x1400_0000) by (bit_vector);
    assert(instruction & 0xff00_0000 == 0xd400_0000 ==> instruction & 0x1c00_0000 == 0x1400_0000) by (bit_vector);
    assert(instruction & 0xff00_0000 == 0xd500_0000 ==> {
        &&& instruction & 0x7c00_0000 != 0x1400_0000
        &&& instruction & 0x7e00_0000 != 0x3400_0000
        &&& instruction & 0x7e00_0000 != 0x3600_0000
        &&& instruction & 0xff00_0010 != 0x5400_0000
        &&& instruction & 0xfe00_0000 != 0xd600_0000
        &&& instruction & 0xff00_0000 != 0xd400_0000
    }) by (bit_vector);
}

/// The little-endian instruction word `index` of `bytes`.
pub open spec fn word_at(bytes: Seq<u8>, index: int) -> u32 {
    spec_u32_from_le_bytes(bytes.subrange(4 * index, 4 * index + 4))
}

/// The addresses of the `svc #0` words of the function's entry block:
/// every whole word up to the first other control-flow instruction.
pub open spec fn entry_block_svc_sites(function_address: int, bytes: Seq<u8>, index: int) -> Seq<int>
    decreases bytes.len() / 4 - index,
{
    if index < 0 || index >= bytes.len() / 4 {
        Seq::empty()
    } else {
        let word = word_at(bytes, index);
        if word == SVC_ZERO {
            seq![function_address + 4 * index] + entry_block_svc_sites(function_address, bytes, index + 1)
        } else if spec_is_control_flow(word) {
            Seq::empty()
        } else {
            entry_block_svc_sites(function_address, bytes, index + 1)
        }
    }
}

/// A site that overwrites exactly its own `svc #0` word, displaces nothing,
/// and goes back to read+execute after patching.
pub open spec fn is_svc_site(site: PatchSite) -> bool {
    &&& site.overwrite_length == 4
    &&& site.displaced@.len() == 0
    &&& site.restore_protection == PROT_READ_EXEC
}

/// The patchable `svc #0` sites of a function at `function_address` whose
/// code is `bytes`: none unless the function is word-aligned.
pub fn collect_sites(function_address: usize, bytes: &[u8]) -> (sites: Vec<PatchSite>)
    requires
        function_address + bytes@.len() <= usize::MAX,
    ensures
        function_address % 4 != 0 ==> sites@.len() == 0,
        function_address % 4 == 0 ==> sites@.map_values(|site: PatchSite| site.address as int)
            == entry_block_svc_sites(function_address as int, bytes@, 0),
        forall|i: int| 0 <= i < sites@.len() ==> #[trigger] is_svc_site(sites@[i]),
{
    let mut sites: Vec<PatchSite> = Vec::new();
    if function_address % 4 != 0 {
        return sites;
    }
    let words: usize = bytes.len() / 4;
    let mut index: usize = 0;
    while index < words
        invariant
            words == bytes@.len() / 4,
            function_address % 4 == 0,
            function_address + bytes@.len() <= usize::MAX,
            0 <= index <= words,
            sites@.map_values(|site: PatchSite| site.address as int) + entry_block_svc_sites(
                function_address as int,
                bytes@,
                index as int,
            ) == entry_block_svc_sites(function_address as int, bytes@, 0),
            forall|i: int| 0 <= i < sites@.len() ==> #[trigger] is_svc_site(sites@[i]),
        decreases words - index,
    {
        let word: u32 = u32_from_le_bytes(slice_subrange(bytes, 4 * index, 4 * index + 4));
        let ghost before = sites@.map_values(|site: PatchSite| site.address as int);
        if word == SVC_ZERO {
            sites.push(
                PatchSite {
                    address: function_address + index * 4,
                    overwrite_length: 4,
                    displaced: Vec::new(),
                    restore_protection: PROT_READ_EXEC,
                },
            );
            proof {
                assert(sites@.map_values(|site: PatchSite| site.address as int) =~= before.push(
                    function_address + 4 * index,
                ));
                assert(before.push(function_address + 4 * index) + entry_block_svc_sites(
                    function_address as int,
                    bytes@,
                    index + 1,
                ) =~= before + entry_block_svc_sites(function_address as int, bytes@, index as int));
            }
        } else if is_control_flow(word) {
            proof {
                assert(sites@.map_values(|site: PatchSite| site.address as int) =~= sites@.map_values(
                    |site: PatchSite| site.address as int,
                ) + entry_block_svc_sites(function_address as int, bytes@, index as int));
            }
            return sites;
        }
        index = index + 1;
    }
    proof {
        assert(sites@.map_values(|site: PatchSite| site.address as int) =~= sites@.map_values(
            |site: PatchSite| site.address as int,
        ) + entry_block_svc_sites(function_address as int, bytes@, index as int));
    }
    sites
}

/// No AArch64 instruction in a function's entry block is known to be a
/// direct branch target worth excluding: fixed-width decoding proves the
/// instruction boundaries.
pub fn collect_known_direct_targets(function_address: usize, bytes: &[u8]) -> (targets: Vec<usize>)
    ensures
        targets@.len() == 0,
{
    Vec::new()
}

pub fn trampoline_size(site: &PatchSite) -> (size: usize)
    ensures
        size == TRAMPOLINE_SIZE,
{
    48
}

/// Appends `instruction` to `record` as a little-endian word.
fn write_instruction(record: &mut Vec<u8>, instruction: u32)
    ensures
        final(record)@ == old(record)@ + spec_u32_to_le_bytes(instruction),
{
    let mut bytes = u32_to_le_bytes(instruction);
    record.append(&mut bytes);
}

/// Writes `data` over `output` from its start.
fn write_bytes(output: &mut Vec<u8>, data: &Vec<u8>)
    requires
        data@.len() <= old(output)@.len(),
    ensures
        final(output)@ == data@ + old(output)@.subrange(data@.len() as int, old(output)@.len() as int),
{
    let n: usize = output.len();
    let mut i: usize = 0;
    while i < data.len()
        invariant
            data@.len() <= n,
            output@.len() == n == old(output)@.len(),
            0 <= i <= data@.len(),
            forall|k: int| 0 <= k < i ==> output@[k] == data@[k],
            forall|k: int| i <= k < n ==> output@[k] == old(output)@[k],
        decreases data@.len() - i,
    {
        output.set(i, data[i]);
        i = i + 1;
    }
    assert(output@ =~= data@ + old(output)@.subrange(data@.len() as int, old(output)@.len() as int));
}

/// The 48 bytes of a site's trampoline at `address`, given the bytes 28..32
/// that stay as they were:
///
/// ```text
/// +0x00   STP x16, x17, [sp, #-16]!   save scratch pair
/// +0x04   LDR x16, [PC-relative]      address + 0x10
/// +0x08   LDR x17, [PC-relative]      dispatch_entry address
/// +0x0c   BR x17                      enter shared dispatcher
/// +0x10   BTI J                       return-stub landing pad
/// +0x14   LDP x16, x17, [sp], #16     restore pair and SP
/// +0x18   B site + 4                  resume after the replaced SVC
/// +0x1c   padding
/// +0x20   64-bit return-stub literal (address + 0x10)
/// +0x28   64-bit dispatch_entry literal
/// ```
pub open spec fn trampoline_bytes(address: int, resume_branch: u32, dispatch_entry: u64, padding: Seq<u8>) -> Seq<u8> {
    spec_u32_to_le_bytes(0xa9bf_47f0) + spec_u32_to_le_bytes(0x5800_00f0) + spec_u32_to_le_bytes(0x5800_0111)
        + spec_u32_to_le_bytes(0xd61f_0220) + spec_u32_to_le_bytes(BTI_J) + spec_u32_to_le_bytes(0xa8c1_47f0)
        + spec_u32_to_le_bytes(resume_branch) + padding + spec_u64_to_le_bytes((address + 16) as u64)
        + spec_u64_to_le_bytes(dispatch_entry)
}

/// Writes a site's trampoline at the start of `output`, for a trampoline
/// living at `address`; `dispatch_entry` is the shared dispatcher's entry
/// address. Returns the trampoline's size, or `None` when the site displaces
/// instructions, `output` is too short, or the resume branch cannot reach
/// the site.
pub fn emit_trampoline(output: &mut Vec<u8>, address: usize, site: &PatchSite, dispatch_entry: usize) -> (size: Option<usize>)
    requires
        address + TRAMPOLINE_SIZE <= usize::MAX,
        site.address + SYSCALL_INSTRUCTION_LENGTH <= usize::MAX,
    ensures
        final(output)@.len() == old(output)@.len(),
        size is None ==> final(output)@ == old(output)@,
        size is None <==> (site.displaced@.len() != 0 || old(output)@.len() < TRAMPOLINE_SIZE || spec_encode_branch(
            address + 24,
            site.address + 4,
        ) is None),
        match size {
            None => true,
            Some(size) => {
                &&& size == TRAMPOLINE_SIZE
                &&& site.displaced@.len() == 0
                &&& final(output)@.subrange(0, 48) == trampoline_bytes(
                    address as int,
                    spec_encode_branch(address + 24, site.address + 4)->0,
                    dispatch_entry as u64,
                    old(output)@.subrange(28, 32),
                )
                &&& final(output)@.subrange(48, final(output)@.len() as int) == old(output)@.subrange(
                    48,
                    old(output)@.len() as int,
                )
                &&& branch_target(spec_encode_branch(address + 24, site.address + 4)->0, address + 24)
                    == site.address + 4
            },
        },
{
    if site.displaced.len() != 0 || output.len() < 48 {
        return None;
    }
    let branch: u32 = match encode_branch(address + 24, site.address + SYSCALL_INSTRUCTION_LENGTH) {
        Some(branch) => branch,
        None => return None,
    };
    proof {
        lemma_auto_spec_u32_to_from_le_bytes();
    }
    let mut record: Vec<u8> = Vec::new();
    write_instruction(&mut record, 0xa9bf_47f0);  // stp x16, x17, [sp, #-16]!
    write_instruction(&mut record, 0x5800_00f0);  // ldr x16, return literal
    write_instruction(&mut record, 0x5800_0111);  // ldr x17, dispatch literal
    write_instruction(&mut record, 0xd61f_0220);  // br x17
    write_instruction(&mut record, BTI_J);
    write_instruction(&mut record, 0xa8c1_47f0);  // ldp x16, x17, [sp], #16
    write_instruction(&mut record, branch);
    let mut padding = slice_to_vec(slice_subrange(output.as_slice(), 28, 32));
    record.append(&mut padding);
    let mut stub_bytes = u64_to_le_bytes((address + 16) as u64);
    record.append(&mut stub_bytes);
    let mut entry_bytes = u64_to_le_bytes(dispatch_entry as u64);
    record.append(&mut entry_bytes);
    let ghost before = output@;
    write_bytes(output, &record);
    assert(output@.subrange(0, 48) =~= record@);
    assert(output@.subrange(48, output@.len() as int) =~= before.subrange(48, before.len() as int));
    Some(48)
}

/// The `B` that replaces a site's `svc #0`, branching to its trampoline.
pub fn encode_site_branch(site: &PatchSite, trampoline: usize) -> (patch: Option<Vec<u8>>)
    ensures
        match patch {
            None => spec_encode_branch(site.address as int, trampoline as int) is None,
            Some(bytes) => {
                &&& spec_encode_branch(site.address as int, trampoline as int) is Some
                &&& bytes@ == spec_u32_to_le_bytes(spec_encode_branch(site.address as int, trampoline as int)->0)
                &&& branch_target(spec_encode_branch(site.address as int, trampoline as int)->0, site.address as int)
                    == trampoline
            },
        },
{
    match encode_branch(site.address, trampoline) {
        Some(instruction) => Some(u32_to_le_bytes(instruction)),
        None => None,
    }
}

pub const NEWLINE: u8 = 0x0a;
pub const SPACE: u8 = 0x20;

/// The key that opens the flags line of a mapping in `/proc/self/smaps`:
/// `VmFlags:` in ASCII.
pub open spec fn vm_flags_key() -> Seq<u8> {
    seq![0x56, 0x6d, 0x46, 0x6c, 0x61, 0x67, 0x73, 0x3a]
}

/// Where the line holding position `at` of `text` starts.
pub open spec fn line_start(text: Seq<u8>, at: int) -> int
    decreases at,
{
    if at <= 0 || text[at - 1] == NEWLINE {
        at
    } else {
        line_start(text, at - 1)
    }
}

/// Whether a flags line starts at `start`.
pub open spec fn is_flags_line(text: Seq<u8>, start: int) -> bool {
    start + 8 <= text.len() && text.subrange(start, start + 8) == vm_flags_key()
}

/// Whether the space-separated flag `bt` (ASCII 0x62 0x74) begins at `at`, inside the flags
/// of a `VmFlags:` line.
pub open spec fn bt_flag_at(text: Seq<u8>, at: int) -> bool {
    let start = line_start(text, at);
    &&& is_flags_line(text, start)
    &&& start + 8 <= at
    &&& at + 2 <= text.len()
    &&& (at == start + 8 || text[at - 1] == SPACE)
    &&& text[at] == 0x62
    &&& text[at + 1] == 0x74
    &&& (at + 2 == text.len() || text[at + 2] == SPACE || text[at + 2] == NEWLINE)
}

/// Whether some mapping listed in `smaps` (the text of
/// `/proc/self/smaps`) carries the BTI-guarded flag `bt`.
pub fn has_bti_guarded_mapping(smaps: &[u8]) -> (guarded: bool)
    ensures
        guarded == exists|at: int| 0 <= at < smaps@.len() && #[trigger] bt_flag_at(smaps@, at),
{
    let len: usize = smaps.len();
    let mut start: usize = 0;
    let mut flags_line: bool = starts_flags_line(smaps, 0);
    let mut at: usize = 0;
    while at < len
        invariant
            len == smaps@.len(),
            0 <= start <= at <= len,
            start == line_start(smaps@, at as int),
            flags_line == is_flags_line(smaps@, start as int),
            forall|k: int| 0 <= k < at ==> !#[trigger] bt_flag_at(smaps@, k),
        decreases len - at,
    {
        if flags_line && start + 8 <= at && 2 <= len - at && (at == start + 8 || smaps[at - 1] == SPACE)
            && smaps[at] == 0x62 && smaps[at + 1] == 0x74 && (at + 2 == len || smaps[at + 2] == SPACE
            || smaps[at + 2] == NEWLINE) {
            assert(bt_flag_at(smaps@, at as int));
            return true;
        }
        assert(!bt_flag_at(smaps@, at as int));
        if smaps[at] == NEWLINE {
            start = at + 1;
            flags_line = starts_flags_line(smaps, start);
        }
        at = at + 1;
    }
    false
}

/// Whether `VmFlags:` starts at `start`.
fn starts_flags_line(text: &[u8], start: usize) -> (found: bool)
    ensures
        found == is_flags_line(text@, start as int),
{
    if start > text.len() || text.len() - start < 8 {
        return false;
    }
    let found = text[start] == 0x56 && text[start + 1] == 0x6d && text[start + 2] == 0x46 && text[start + 3]
        == 0x6c && text[start + 4] == 0x61 && text[start + 5] == 0x67 && text[start + 6] == 0x73
        && text[start + 7] == 0x3a;
    assert(found == (text@.subrange(start as int, start + 8) =~= vm_flags_key()));
    found
}

/// The scalable vector extension, whose state the dispatch frame cannot save.
pub const HWCAP_SVE: u64 = 1 << 22;
/// Branch target identification.
pub const HWCAP2_BTI: u64 = 1 << 17;
/// The scalable matrix extension, whose state the dispatch frame cannot save.
pub const HWCAP2_SME: u64 = 1 << 23;

/// Whether interception can run on this machine, from its capability words
/// and, when BTI is available, the text of `/proc/self/smaps` (`None` when
/// unreadable): no SVE or SME state the dispatcher cannot save, and no
/// BTI-guarded mapping whose guard the patcher would not restore.
pub fn runtime_supported(hwcap: u64, hwcap2: u64, smaps: Option<&[u8]>) -> (supported: bool)
    ensures
        supported == (hwcap & HWCAP_SVE == 0 && hwcap2 & HWCAP2_SME == 0 && (hwcap2 & HWCAP2_BTI != 0 ==> match smaps {
            None => false,
            Some(text) => !exists|at: int| 0 <= at < text@.len() && #[trigger] bt_flag_at(text@, at),
        })),
{
    if hwcap & HWCAP_SVE != 0 || hwcap2 & HWCAP2_SME != 0 {
        return false;
    }
    if hwcap2 & HWCAP2_BTI != 0 {
        match smaps {
            None => false,
            Some(text) => !has_bti_guarded_mapping(text),
        }
    } else {
        true
    }
}

/// The registers the dispatcher saved: x0-x7 and then x8, the syscall
/// number.
#[derive(Debug, Clone, Copy)]
pub struct DispatchContext {
    pub arg0: usize,
    pub arg1: usize,
    pub arg2: usize,
    pub arg3: usize,
    pub arg4: usize,
    pub arg5: usize,
    pub arg6: usize,
    pub arg7: usize,
    pub syscall_number: usize,
}

/// The syscall number and its six arguments, x0-x5.
pub fn syscall_context(context: &DispatchContext) -> (syscall: SyscallContext)
    ensures
        syscall.spec_syscall_number() == context.syscall_number,
        syscall.spec_arguments() == [context.arg0, context.arg1, context.arg2, context.arg3, context.arg4, context.arg5],
{
    SyscallContext::new(
        context.syscall_number,
        [context.arg0, context.arg1, context.arg2, context.arg3, context.arg4, context.arg5],
    )
}

} // verus!
