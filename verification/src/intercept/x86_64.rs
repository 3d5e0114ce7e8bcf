//! x86-64 encodings: the relocatable instruction that a patch displaces,
//! the `E9 rel32` jump that replaces a `SYSCALL`, and the per-site
//! trampoline.
//!
//! `SYSCALL` is two bytes and the jump five, so a site also overwrites one
//! complete following instruction, which the trampoline replays. Every
//! generated indirect target starts with `ENDBR64`.
use vstd::bytes::*;
use vstd::prelude::*;
use vstd::slice::*;

use super::dispatcher::SyscallContext;
use super::patcher::{PatchSite, PROT_READ_EXEC};

verus! {

/// `endbr64`
pub const LANDING_PAD: [u8; 4] = [0xf3, 0x0f, 0x1e, 0xfa];
/// `syscall`
pub const ALLOWED_GATE_INSTRUCTION: [u8; 2] = [0x0f, 0x05];
/// `ret`
pub const RETURN_INSTRUCTION: [u8; 1] = [0xc3];
pub const SYSCALL_INSTRUCTION_LENGTH: usize = 2;
/// The farthest an `E9 rel32` reaches forward from the end of the jump.
pub const MAX_BRANCH_DISTANCE: usize = 0x7fff_ffff;

/// The XSAVE image the dispatch frame reserves room for.
pub const MAX_XSAVE_SIZE: usize = 4096;
/// Where the XSAVE image starts in the dispatch frame.
pub const XSAVE_OFFSET: usize = 128;
/// The XSAVE header follows the 512-byte legacy x87/SSE area.
pub const XSAVE_HEADER_OFFSET: usize = 640;
pub const DISPATCH_FRAME_SIZE: usize = 4224;

/// Whether the XSAVE image the CPU needs for the enabled user state fits the
/// dispatch frame: at least the legacy area and header, at most the room
/// reserved.
pub fn xsave_size_supported(required_size: usize) -> (supported: bool)
    ensures
        supported == (576 <= required_size <= MAX_XSAVE_SIZE),
{
    required_size >= 576 && required_size <= MAX_XSAVE_SIZE
}

/// CPUID leaf 1 ECX bits: XSAVE, and XSAVE enabled by the kernel.
pub const CPUID_XSAVE: u32 = 1 << 26;
pub const CPUID_OSXSAVE: u32 = 1 << 27;

/// Whether the processor and kernel support XSAVE: CPUID reaches leaf
/// 0x0d and leaf 1 reports XSAVE and OSXSAVE.
pub fn xsave_available(maximum_leaf: u32, features: u32) -> (available: bool)
    ensures
        available == (maximum_leaf >= 0x0d && features & (CPUID_XSAVE | CPUID_OSXSAVE) == CPUID_XSAVE | CPUID_OSXSAVE),
{
    maximum_leaf >= 0x0d && features & (CPUID_XSAVE | CPUID_OSXSAVE) == CPUID_XSAVE | CPUID_OSXSAVE
}

/// Whether the user state enabled in XCR0 (`mask`) can be saved around the
/// callback: it includes x87 and SSE, whose state the callback may alter,
/// and its XSAVE image (`required_size`, from CPUID leaf 0x0d) fits.
pub fn xsave_state_supported(mask: u64, required_size: u32) -> (supported: bool)
    ensures
        supported == (mask & 3 == 3 && 576 <= required_size <= MAX_XSAVE_SIZE),
{
    mask & 3 == 3 && xsave_size_supported(required_size as usize)
}

/// The first seven qwords of the dispatch frame: the syscall number and its
/// six arguments.
#[derive(Debug, Clone, Copy)]
pub struct DispatchContext {
    pub syscall_number: usize,
    pub arg0: usize,
    pub arg1: usize,
    pub arg2: usize,
    pub arg3: usize,
    pub arg4: usize,
    pub arg5: usize,
}

/// The syscall number and its six arguments, as the callback sees them.
pub fn syscall_context(context: &DispatchContext) -> (syscall: SyscallContext)
    ensures
        syscall.spec_syscall_number() == context.syscall_number,
        syscall.spec_arguments() == [context.arg0, context.arg1, context.arg2, context.arg3, context.arg4, context.arg5],
{
    SyscallContext::new(
        context.syscall_number,
        [context.arg0, context.arg1, context.arg2, context.arg3, context.arg4, context.arg5],
    )
}

/// `test rax, rax`, `cmp rax, imm32` and `cmp rax, imm8`: result checks
/// with no address-dependent operand, which set the same flags when run
/// from a trampoline.
pub open spec fn spec_is_supported_displaced_pattern(bytes: Seq<u8>) -> bool {
    ||| bytes == seq![0x48u8, 0x85u8, 0xc0u8]
    ||| (bytes.len() == 6 && bytes[0] == 0x48 && bytes[1] == 0x3d)
    ||| (bytes.len() == 4 && bytes[0] == 0x48 && bytes[1] == 0x83 && bytes[2] == 0xf8)
}

/// Whether `bytes` is an instruction that a trampoline can replay as is.
pub fn is_supported_displaced_pattern(bytes: &[u8]) -> (supported: bool)
    ensures
        supported == spec_is_supported_displaced_pattern(bytes@),
{
    let n: usize = bytes.len();
    if n == 3 {
        let found = bytes[0] == 0x48 && bytes[1] == 0x85 && bytes[2] == 0xc0;
        assert(found == (bytes@ =~= seq![0x48u8, 0x85u8, 0xc0u8]));
        found
    } else if n == 6 {
        bytes[0] == 0x48 && bytes[1] == 0x3d
    } else if n == 4 {
        bytes[0] == 0x48 && bytes[1] == 0x83 && bytes[2] == 0xf8
    } else {
        proof {
            assert(bytes@.len() != seq![0x48u8, 0x85u8, 0xc0u8].len());
        }
        false
    }
}

/// What the logic reads of one decoded instruction.
#[derive(Debug, Clone, Copy, PartialEq, Eq, Structural)]
pub struct DecodedInstruction {
    /// The bytes do not start a valid instruction.
    pub invalid: bool,
    /// The instruction's length in bytes.
    pub len: usize,
    /// The decoder's control-flow class of the instruction (see `FLOW_NEXT`).
    pub flow_control: u8,
    /// The instruction is `SYSCALL`.
    pub syscall: bool,
    /// The instruction has a RIP- or EIP-relative memory operand.
    pub ip_relative_memory: bool,
    /// The decoder's kind of the first operand (see `NEAR_BRANCH16`).
    pub op0_kind: u8,
    /// The target of a near branch; meaningful only for near branches.
    pub near_branch_target: u64,
}

/// The control-flow class of an instruction after which execution goes on
/// with the next instruction.
pub const FLOW_NEXT: u8 = 0;
/// The first-operand kinds of near branches with 16-, 32- and 64-bit
/// targets.
pub const NEAR_BRANCH16: u8 = 1;
pub const NEAR_BRANCH64: u8 = 3;

/// The 64-bit decoding of the instruction at the start of `bytes`, placed at
/// address `ip`.
pub uninterp spec fn decoded_x86_64(bytes: Seq<u8>, ip: u64) -> DecodedInstruction;

/// Decodes the 64-bit instruction at the start of `bytes`, placed at `ip`,
/// with `iced_x86::Decoder`. Trusted: the result is whatever the decoder
/// makes of these bytes at this address, which depends on nothing else.
#[verifier::external_body]
fn decode_instruction(bytes: &[u8], ip: u64) -> (instruction: DecodedInstruction)
    ensures
        instruction == decoded_x86_64(bytes@, ip),
{
    let mut decoder = iced_x86::Decoder::with_ip(64, bytes, ip, iced_x86::DecoderOptions::NONE);
    let decoded = decoder.decode();
    DecodedInstruction {
        invalid: decoded.is_invalid(),
        len: decoded.len(),
        flow_control: decoded.flow_control() as u8,
        syscall: decoded.code() == iced_x86::Code::Syscall,
        ip_relative_memory: decoded.is_ip_rel_memory_operand(),
        op0_kind: decoded.op0_kind() as u8,
        near_branch_target: decoded.near_branch_target(),
    }
}

/// The instruction decoded at `offset` of a function at `function_address`
/// whose code is `bytes`.
pub open spec fn decoded_at(function_address: int, bytes: Seq<u8>, offset: int) -> DecodedInstruction {
    decoded_x86_64(bytes.subrange(offset, bytes.len() as int), (function_address + offset) as u64)
}

/// The instructions decoded when decoding starts at each offset of the
/// function, in offset order.
pub open spec fn decodings(function_address: int, bytes: Seq<u8>) -> Seq<DecodedInstruction> {
    Seq::new(bytes.len(), |offset: int| decoded_at(function_address, bytes, offset))
}

/// The direct branch target of a decoded instruction, if it is a near
/// branch to an address that fits.
pub open spec fn direct_target_of(instruction: DecodedInstruction) -> Option<usize> {
    if instruction.invalid || instruction.op0_kind < NEAR_BRANCH16 || instruction.op0_kind > NEAR_BRANCH64
        || instruction.near_branch_target > usize::MAX {
        None
    } else {
        Some(instruction.near_branch_target as usize)
    }
}

/// The direct branch targets of the first `count` of `decoded`, in order.
pub open spec fn targets_in(decoded: Seq<DecodedInstruction>, count: int) -> Seq<usize>
    decreases count,
{
    if count <= 0 {
        Seq::empty()
    } else {
        targets_in(decoded, count - 1) + match direct_target_of(decoded[count - 1]) {
            Some(target) => seq![target],
            None => Seq::empty(),
        }
    }
}

/// The direct branch targets decoded when decoding starts at each of the
/// first `count` offsets, in offset order.
pub open spec fn direct_targets_upto(function_address: int, bytes: Seq<u8>, count: int) -> Seq<usize> {
    targets_in(decodings(function_address, bytes), count)
}

/// The direct branch targets among `decoded`, the instructions decoded
/// from each offset of a function.
pub fn direct_targets_of_decoded(decoded: &[DecodedInstruction]) -> (targets: Vec<usize>)
    ensures
        targets@ == targets_in(decoded@, decoded@.len() as int),
{
    let mut targets: Vec<usize> = Vec::new();
    let mut offset: usize = 0;
    while offset < decoded.len()
        invariant
            0 <= offset <= decoded@.len(),
            targets@ == targets_in(decoded@, offset as int),
        decreases decoded@.len() - offset,
    {
        let instruction = decoded[offset];
        if !instruction.invalid && NEAR_BRANCH16 <= instruction.op0_kind && instruction.op0_kind <= NEAR_BRANCH64
            && instruction.near_branch_target <= usize::MAX as u64 {
            targets.push(instruction.near_branch_target as usize);
        }
        offset = offset + 1;
    }
    targets
}

/// Decodes the instruction that starts at each offset of the function.
fn decode_all(function_address: usize, bytes: &[u8]) -> (decoded: Vec<DecodedInstruction>)
    requires
        function_address + bytes@.len() <= usize::MAX,
    ensures
        decoded@ == decodings(function_address as int, bytes@),
{
    let mut decoded: Vec<DecodedInstruction> = Vec::new();
    let mut offset: usize = 0;
    while offset < bytes.len()
        invariant
            function_address + bytes@.len() <= usize::MAX,
            0 <= offset <= bytes@.len(),
            decoded@ == decodings(function_address as int, bytes@).subrange(0, offset as int),
        decreases bytes@.len() - offset,
    {
        let instruction = decode_instruction(
            slice_subrange(bytes, offset, bytes.len()),
            (function_address + offset) as u64,
        );
        decoded.push(instruction);
        offset = offset + 1;
        assert(decoded@ =~= decodings(function_address as int, bytes@).subrange(0, offset as int));
    }
    assert(decodings(function_address as int, bytes@).subrange(0, bytes@.len() as int) =~= decodings(
        function_address as int,
        bytes@,
    ));
    decoded
}

/// Every direct branch target found by decoding from each byte of the
/// function, not only from instruction boundaries: a false positive merely
/// declines a site, while a missed entry into displaced bytes could jump
/// into the middle of the patch.
pub fn collect_known_direct_targets(function_address: usize, bytes: &[u8]) -> (targets: Vec<usize>)
    requires
        function_address + bytes@.len() <= usize::MAX,
    ensures
        targets@ == direct_targets_upto(function_address as int, bytes@, bytes@.len() as int),
{
    let decoded = decode_all(function_address, bytes);
    direct_targets_of_decoded(decoded.as_slice())
}

/// Whether one of `targets` lies in `[displaced_start, displaced_end)`.
pub open spec fn spec_has_target_in(targets: Seq<usize>, displaced_start: int, displaced_end: int) -> bool {
    exists|k: int| 0 <= k < targets.len() && displaced_start <= #[trigger] targets[k] < displaced_end
}

/// Whether one of `targets` lies in `[displaced_start, displaced_end)`.
fn has_target_between(targets: &[usize], displaced_start: usize, displaced_end: usize) -> (found: bool)
    ensures
        found == spec_has_target_in(targets@, displaced_start as int, displaced_end as int),
{
    let mut k: usize = 0;
    while k < targets.len()
        invariant
            0 <= k <= targets@.len(),
            forall|j: int| 0 <= j < k ==> !(displaced_start <= #[trigger] targets@[j] < displaced_end),
        decreases targets@.len() - k,
    {
        if displaced_start <= targets[k] && targets[k] < displaced_end {
            assert(displaced_start <= targets@[k as int] < displaced_end);
            return true;
        }
        k = k + 1;
    }
    false
}

/// Whether a known direct branch target of the function lands in the
/// displaced bytes `[displaced_start, displaced_end)`: moving them would
/// strand the branch.
pub fn has_incoming_direct_target(function_address: usize, bytes: &[u8], displaced_start: usize, displaced_end: usize) -> (found: bool)
    requires
        function_address + bytes@.len() <= usize::MAX,
    ensures
        found == spec_has_target_in(
            direct_targets_upto(function_address as int, bytes@, bytes@.len() as int),
            displaced_start as int,
            displaced_end as int,
        ),
{
    let targets = collect_known_direct_targets(function_address, bytes);
    has_target_between(targets.as_slice(), displaced_start, displaced_end)
}

/// The offsets of the instructions of the function's entry block, with
/// `decoded` the instructions decoded from each offset: decoded one after
/// another from `offset` up to and including the first control transfer
/// other than `SYSCALL`. Only that block is provably code, while later
/// bytes could be a jump table or data.
pub open spec fn entry_block_in(decoded: Seq<DecodedInstruction>, offset: int) -> Seq<int>
    decreases decoded.len() - offset,
{
    if offset < 0 || offset >= decoded.len() {
        Seq::empty()
    } else {
        let instruction = decoded[offset];
        if instruction.invalid || instruction.len == 0 || offset + instruction.len > decoded.len() {
            Seq::empty()
        } else if instruction.flow_control != FLOW_NEXT && !instruction.syscall {
            seq![offset]
        } else {
            seq![offset] + entry_block_in(decoded, offset + instruction.len)
        }
    }
}

/// The entry block of a function at `function_address` whose code is
/// `bytes`, from `offset` on.
pub open spec fn entry_block(function_address: int, bytes: Seq<u8>, offset: int) -> Seq<int> {
    entry_block_in(decodings(function_address, bytes), offset)
}

/// The site made of the `index`th instruction of `block` and the next one,
/// as its address, overwritten length and syscall instruction length: a
/// `SYSCALL` followed by a supported, position-independent instruction with
/// ordinary fallthrough, together at least as long as the jump, inside the
/// function, and with no known branch into the displaced bytes. `decoded`
/// holds the instructions decoded from each offset of the function.
pub open spec fn site_in(
    function_address: int,
    bytes: Seq<u8>,
    decoded: Seq<DecodedInstruction>,
    block: Seq<int>,
    index: int,
) -> Option<(int, int, int)> {
    let start = block[index];
    let instruction = decoded[start];
    if !instruction.syscall || index + 1 >= block.len() {
        None
    } else {
        let displaced = decoded[block[index + 1]];
        let overwrite_length = instruction.len + displaced.len;
        if displaced.flow_control != FLOW_NEXT || displaced.ip_relative_memory || overwrite_length < 5 || start
            + overwrite_length > bytes.len() || !spec_is_supported_displaced_pattern(
            bytes.subrange(start + instruction.len, start + overwrite_length),
        ) || spec_has_target_in(
            targets_in(decoded, decoded.len() as int),
            function_address + start + instruction.len,
            function_address + start + overwrite_length,
        ) {
            None
        } else {
            Some((function_address + start, overwrite_length, instruction.len as int))
        }
    }
}

/// The sites among the first `count` instructions of `block`, in order.
pub open spec fn sites_in(
    function_address: int,
    bytes: Seq<u8>,
    decoded: Seq<DecodedInstruction>,
    block: Seq<int>,
    count: int,
) -> Seq<(int, int, int)>
    decreases count,
{
    if count <= 0 {
        Seq::empty()
    } else {
        sites_in(function_address, bytes, decoded, block, count - 1) + match site_in(
            function_address,
            bytes,
            decoded,
            block,
            count - 1,
        ) {
            Some(site) => seq![site],
            None => Seq::empty(),
        }
    }
}

/// The sites among the first `count` instructions of `block` of a function
/// at `function_address` whose code is `bytes`.
pub open spec fn sites_upto(function_address: int, bytes: Seq<u8>, block: Seq<int>, count: int) -> Seq<(int, int, int)> {
    sites_in(function_address, bytes, decodings(function_address, bytes), block, count)
}

/// Whether `site` is the site `expected` (address, overwritten length and
/// syscall length) of a function at `function_address` with code `bytes`.
pub open spec fn site_matches(site: PatchSite, function_address: int, bytes: Seq<u8>, expected: (int, int, int)) -> bool {
    let start = expected.0 - function_address;
    &&& site.address == expected.0
    &&& site.overwrite_length == expected.1
    &&& site.displaced@ == bytes.subrange(start + expected.2, start + expected.1)
    &&& site.restore_protection == PROT_READ_EXEC
}

/// The patchable `SYSCALL` sites of a function at `function_address` whose
/// code is `bytes`, where `decoded` holds the instruction decoded from each
/// offset of `bytes`.
pub fn sites_of_decoded(function_address: usize, bytes: &[u8], decoded: &[DecodedInstruction]) -> (sites: Vec<PatchSite>)
    requires
        function_address + bytes@.len() <= usize::MAX,
        decoded@.len() == bytes@.len(),
    ensures
        ({
            let block = entry_block_in(decoded@, 0);
            let expected = sites_in(function_address as int, bytes@, decoded@, block, block.len() as int);
            &&& sites@.len() == expected.len()
            &&& forall|i: int|
                0 <= i < sites@.len() ==> #[trigger] site_matches(sites@[i], function_address as int, bytes@, expected[i])
        }),
{
    let ghost block0 = entry_block_in(decoded@, 0);
    let targets = direct_targets_of_decoded(decoded);
    let mut offsets: Vec<usize> = Vec::new();
    let mut offset: usize = 0;
    let mut done: bool = false;
    while !done && offset < decoded.len()
        invariant
            decoded@.len() == bytes@.len(),
            0 <= offset <= decoded@.len(),
            forall|k: int| 0 <= k < offsets@.len() ==> #[trigger] offsets@[k] < decoded@.len(),
            done ==> offsets@.map_values(|o: usize| o as int) == block0,
            !done ==> offsets@.map_values(|o: usize| o as int) + entry_block_in(decoded@, offset as int) == block0,
        decreases decoded@.len() - offset + (if done { 0int } else { 1int }),
    {
        let ghost before = offsets@.map_values(|o: usize| o as int);
        let instruction = decoded[offset];
        if instruction.invalid || instruction.len == 0 || instruction.len > decoded.len() - offset {
            assert(before =~= before + entry_block_in(decoded@, offset as int));
            done = true;
        } else {
            offsets.push(offset);
            assert(offsets@.map_values(|o: usize| o as int) =~= before.push(offset as int));
            if instruction.flow_control != FLOW_NEXT && !instruction.syscall {
                assert(before.push(offset as int) =~= before + entry_block_in(decoded@, offset as int));
                done = true;
            } else {
                assert(before.push(offset as int) + entry_block_in(decoded@, offset + instruction.len) =~= before
                    + entry_block_in(decoded@, offset as int));
                offset = offset + instruction.len;
            }
        }
    }
    if !done {
        assert(offsets@.map_values(|o: usize| o as int) =~= block0);
    }
    let ghost block = block0;
    let mut sites: Vec<PatchSite> = Vec::new();
    let mut index: usize = 0;
    while index < offsets.len()
        invariant
            function_address + bytes@.len() <= usize::MAX,
            decoded@.len() == bytes@.len(),
            targets@ == targets_in(decoded@, decoded@.len() as int),
            offsets@.map_values(|o: usize| o as int) == block,
            forall|k: int| 0 <= k < offsets@.len() ==> #[trigger] offsets@[k] < bytes@.len(),
            0 <= index <= offsets@.len(),
            ({
                let expected = sites_in(function_address as int, bytes@, decoded@, block, index as int);
                &&& sites@.len() == expected.len()
                &&& forall|i: int|
                    0 <= i < sites@.len() ==> #[trigger] site_matches(sites@[i], function_address as int, bytes@, expected[i])
            }),
        decreases offsets@.len() - index,
    {
        assert(block[index as int] == offsets@[index as int]);
        let ghost expected_before = sites_in(function_address as int, bytes@, decoded@, block, index as int);
        let instruction = decoded[offsets[index]];
        if instruction.syscall && index + 1 < offsets.len() {
            assert(block[index + 1] == offsets@[index + 1]);
            let start: usize = offsets[index];
            let displaced = decoded[offsets[index + 1]];
            if displaced.flow_control == FLOW_NEXT && !displaced.ip_relative_memory && instruction.len <= usize::MAX
                - displaced.len {
                let overwrite_length: usize = instruction.len + displaced.len;
                if overwrite_length >= 5 && overwrite_length <= bytes.len() - start {
                    let displaced_bytes = slice_subrange(bytes, start + instruction.len, start + overwrite_length);
                    if is_supported_displaced_pattern(displaced_bytes) && !has_target_between(
                        targets.as_slice(),
                        function_address + start + instruction.len,
                        function_address + start + overwrite_length,
                    ) {
                        sites.push(
                            PatchSite {
                                address: function_address + start,
                                overwrite_length,
                                displaced: slice_to_vec(displaced_bytes),
                                restore_protection: PROT_READ_EXEC,
                            },
                        );
                    }
                }
            }
        }
        index = index + 1;
    }
    sites
}

/// The patchable `SYSCALL` sites of a function at `function_address` whose
/// code is `bytes`.
pub fn collect_sites(function_address: usize, bytes: &[u8]) -> (sites: Vec<PatchSite>)
    requires
        function_address + bytes@.len() <= usize::MAX,
    ensures
        ({
            let expected = sites_upto(
                function_address as int,
                bytes@,
                entry_block(function_address as int, bytes@, 0),
                entry_block(function_address as int, bytes@, 0).len() as int,
            );
            &&& sites@.len() == expected.len()
            &&& forall|i: int|
                0 <= i < sites@.len() ==> #[trigger] site_matches(sites@[i], function_address as int, bytes@, expected[i])
        }),
{
    let decoded = decode_all(function_address, bytes);
    sites_of_decoded(function_address, bytes, decoded.as_slice())
}

/// Bytes of a site's trampoline.
pub open spec fn spec_trampoline_size(displaced_len: int) -> int {
    59 + displaced_len
}

pub fn trampoline_size(site: &PatchSite) -> (size: usize)
    requires
        site.displaced@.len() + 59 <= usize::MAX,
    ensures
        size == spec_trampoline_size(site.displaced@.len() as int),
{
    59 + site.displaced.len()
}

/// The `rel32` displacement of a near jump ending at `jump_end` to `target`:
/// `None` when either address exceeds `i64::MAX` or the distance does not
/// fit a signed 32-bit value.
pub open spec fn spec_rel32(jump_end: int, target: int) -> Option<int> {
    if jump_end > i64::MAX || target > i64::MAX || target - jump_end < i32::MIN || target - jump_end > i32::MAX {
        None
    } else {
        Some(target - jump_end)
    }
}

/// A signed 32-bit displacement as its little-endian two's-complement bytes.
pub open spec fn rel32_bytes(displacement: int) -> Seq<u8> {
    spec_u32_to_le_bytes(
        (if displacement >= 0 {
            displacement
        } else {
            displacement + 0x1_0000_0000
        }) as u32,
    )
}

/// The two's-complement word of a displacement that fits 32 bits.
fn rel32_word(jump_end: usize, target: usize) -> (word: Option<u32>)
    ensures
        match word {
            None => spec_rel32(jump_end as int, target as int) is None,
            Some(w) => {
                &&& spec_rel32(jump_end as int, target as int) is Some
                &&& spec_u32_to_le_bytes(w) == rel32_bytes(spec_rel32(jump_end as int, target as int)->0)
            },
        },
{
    if jump_end as u64 > 0x7fff_ffff_ffff_ffff || target as u64 > 0x7fff_ffff_ffff_ffff {
        return None;
    }
    let from: i64 = jump_end as i64;
    let to: i64 = target as i64;
    let displacement: i64 = to - from;
    if displacement < -0x8000_0000 || displacement > 0x7fff_ffff {
        return None;
    }
    if displacement >= 0 {
        Some(displacement as u32)
    } else {
        Some((displacement + 0x1_0000_0000) as u32)
    }
}

/// The little-endian bytes `[0x90; count]`: `nop` padding.
pub open spec fn nop_padding(count: int) -> Seq<u8> {
    Seq::new(count as nat, |i: int| 0x90u8)
}

/// The patch over a site: `E9 rel32` to the trampoline, then `nop` up to
/// the end of the overwritten instructions, so no stale instruction suffix
/// stays reachable.
pub open spec fn spec_encode_site_branch(address: int, overwrite_length: int, trampoline: int) -> Option<Seq<u8>> {
    if address + 5 > usize::MAX || overwrite_length == 0 {
        None
    } else {
        match spec_rel32(address + 5, trampoline) {
            None => None,
            Some(displacement) => Some(seq![0xe9u8] + rel32_bytes(displacement) + nop_padding(overwrite_length - 5)),
        }
    }
}

/// Replaces a site's `SYSCALL` and displaced instruction with one jump to
/// `trampoline`.
pub fn encode_site_branch(site: &PatchSite, trampoline: usize) -> (patch: Option<Vec<u8>>)
    requires
        !(1 <= site.overwrite_length < 5),
    ensures
        match patch {
            None => spec_encode_site_branch(site.address as int, site.overwrite_length as int, trampoline as int) is None,
            Some(bytes) => spec_encode_site_branch(site.address as int, site.overwrite_length as int, trampoline as int)
                == Some(bytes@),
        },
{
    let next_instruction: usize = match site.address.checked_add(5) {
        Some(next) => next,
        None => return None,
    };
    let word: u32 = match rel32_word(next_instruction, trampoline) {
        Some(word) => word,
        None => return None,
    };
    if site.overwrite_length == 0 {
        return None;
    }
    proof {
        lemma_auto_spec_u32_to_from_le_bytes();
    }
    let mut patch: Vec<u8> = Vec::new();
    patch.push(0xe9);
    let mut displacement = u32_to_le_bytes(word);
    patch.append(&mut displacement);
    let mut i: usize = 5;
    while i < site.overwrite_length
        invariant
            5 <= i <= site.overwrite_length,
            patch@ == seq![0xe9u8] + spec_u32_to_le_bytes(word) + nop_padding(i - 5),
        decreases site.overwrite_length - i,
    {
        let ghost before = patch@;
        patch.push(0x90);
        assert(nop_padding(i - 5).push(0x90) =~= nop_padding(i - 4));
        assert(before.push(0x90) =~= seq![0xe9u8] + spec_u32_to_le_bytes(word) + nop_padding(i - 5).push(0x90));
        i = i + 1;
    }
    Some(patch)
}

/// The trampoline of a site at `address`; `rel` is the displacement of its
/// final jump back to the first untouched instruction.
///
/// ```text
///    0  movabs r11, return_stub          address + 34
///   10  movabs rcx, site + 2             native post-SYSCALL RCX
///   20  jmp qword ptr [rip + 0]          indirect absolute dispatch jump
///   26  dq dispatch_entry
///   34  return_stub: ENDBR64
///   38  lea rsp, [r12 + 144]             restore the interrupted stack pointer
///   46  mov r12, [rsp - 144]             restore the interrupted R12
///   54  displaced instruction
///    .  jmp rel32 continuation           resume after the patched range
/// ```
pub open spec fn trampoline_bytes(address: int, site_address: int, displaced: Seq<u8>, dispatch_entry: u64, rel: int) -> Seq<u8> {
    seq![0x49u8, 0xbbu8] + spec_u64_to_le_bytes((address + 34) as u64) + seq![0x48u8, 0xb9u8]
        + spec_u64_to_le_bytes((site_address + 2) as u64) + seq![0xffu8, 0x25u8, 0u8, 0u8, 0u8, 0u8]
        + spec_u64_to_le_bytes(dispatch_entry) + seq![0xf3u8, 0x0fu8, 0x1eu8, 0xfau8]
        + seq![0x49u8, 0x8du8, 0xa4u8, 0x24u8, 0x90u8, 0u8, 0u8, 0u8]
        + seq![0x4cu8, 0x8bu8, 0xa4u8, 0x24u8, 0x70u8, 0xffu8, 0xffu8, 0xffu8] + displaced + seq![0xe9u8]
        + rel32_bytes(rel)
}

/// Whether a site's trampoline can be written at `address`: the
/// addresses it embeds do not overflow and its final jump reaches the
/// first instruction after the patched range.
pub open spec fn trampoline_fits(address: int, site_address: int, overwrite_length: int, displaced_len: int) -> bool {
    &&& address + 34 <= usize::MAX
    &&& site_address + 2 <= usize::MAX
    &&& site_address + overwrite_length <= usize::MAX
    &&& address + spec_trampoline_size(displaced_len) <= usize::MAX
    &&& spec_rel32(address + spec_trampoline_size(displaced_len), site_address + overwrite_length) is Some
}

/// Appends `data` to `record`.
fn append_bytes(record: &mut Vec<u8>, data: &[u8])
    ensures
        final(record)@ == old(record)@ + data@,
{
    let mut copy = slice_to_vec(data);
    record.append(&mut copy);
}

/// Writes `data` over `output` from its start.
fn write_bytes(output: &mut Vec<u8>, data: &Vec<u8>)
    requires
        data@.len() <= old(output)@.len(),
    ensures
        final(output)@ == data@ + old(output)@.subrange(data@.len() as int, old(output)@.len() as int),
{
    let n: usize = output.len();
    let mut i: usize = 0;
    while i < data.len()
        invariant
            data@.len() <= n,
            output@.len() == n == old(output)@.len(),
            0 <= i <= data@.len(),
            forall|k: int| 0 <= k < i ==> output@[k] == data@[k],
            forall|k: int| i <= k < n ==> output@[k] == old(output)@[k],
        decreases data@.len() - i,
    {
        output.set(i, data[i]);
        i = i + 1;
    }
    assert(output@ =~= data@ + old(output)@.subrange(data@.len() as int, old(output)@.len() as int));
}

/// Writes a site's trampoline at the start of `output`, for a trampoline
/// living at `address`; `dispatch_entry` is the shared dispatcher's entry
/// address. Returns the trampoline's size, or `None`, leaving `output` as
/// it was, when `output` is too short or the trampoline does not fit.
pub fn emit_trampoline(output: &mut Vec<u8>, address: usize, site: &PatchSite, dispatch_entry: usize) -> (size: Option<usize>)
    requires
        site.displaced@.len() + 59 <= usize::MAX,
    ensures
        size is None ==> final(output)@ == old(output)@,
        size is None <==> (old(output)@.len() < spec_trampoline_size(site.displaced@.len() as int) || !trampoline_fits(
            address as int,
            site.address as int,
            site.overwrite_length as int,
            site.displaced@.len() as int,
        )),
        size matches Some(n) ==> {
            let end = address + spec_trampoline_size(site.displaced@.len() as int);
            &&& n == spec_trampoline_size(site.displaced@.len() as int)
            &&& final(output)@.len() == old(output)@.len()
            &&& final(output)@.subrange(0, n as int) == trampoline_bytes(
                address as int,
                site.address as int,
                site.displaced@,
                dispatch_entry as u64,
                spec_rel32(end, site.address + site.overwrite_length)->0,
            )
            &&& final(output)@.subrange(n as int, final(output)@.len() as int) == old(output)@.subrange(
                n as int,
                old(output)@.len() as int,
            )
            &&& end + spec_rel32(end, site.address + site.overwrite_length)->0 == site.address + site.overwrite_length
        },
{
    let required: usize = trampoline_size(site);
    if output.len() < required {
        return None;
    }
    let return_stub: usize = match address.checked_add(34) {
        Some(stub) => stub,
        None => return None,
    };
    let resume: usize = match site.address.checked_add(SYSCALL_INSTRUCTION_LENGTH) {
        Some(resume) => resume,
        None => return None,
    };
    let continuation: usize = match site.address.checked_add(site.overwrite_length) {
        Some(continuation) => continuation,
        None => return None,
    };
    let jump_end: usize = match address.checked_add(required) {
        Some(end) => end,
        None => return None,
    };
    let word: u32 = match rel32_word(jump_end, continuation) {
        Some(word) => word,
        None => return None,
    };
    let mut record: Vec<u8> = Vec::new();
    append_bytes(&mut record, &[0x49, 0xbb]);  // movabs r11, return_stub
    let mut stub_bytes = u64_to_le_bytes(return_stub as u64);
    record.append(&mut stub_bytes);
    append_bytes(&mut record, &[0x48, 0xb9]);  // movabs rcx, native post-syscall PC
    let mut resume_bytes = u64_to_le_bytes(resume as u64);
    record.append(&mut resume_bytes);
    append_bytes(&mut record, &[0xff, 0x25, 0, 0, 0, 0]);  // jmp [rip]
    let mut entry_bytes = u64_to_le_bytes(dispatch_entry as u64);
    record.append(&mut entry_bytes);
    append_bytes(&mut record, &LANDING_PAD);
    append_bytes(&mut record, &[0x49, 0x8d, 0xa4, 0x24, 0x90, 0, 0, 0]);  // lea rsp, [r12 + 144]
    append_bytes(&mut record, &[0x4c, 0x8b, 0xa4, 0x24, 0x70, 0xff, 0xff, 0xff]);  // mov r12, [rsp - 144]
    append_bytes(&mut record, site.displaced.as_slice());
    append_bytes(&mut record, &[0xe9]);
    let mut rel_bytes = u32_to_le_bytes(word);
    record.append(&mut rel_bytes);
    proof {
        lemma_auto_spec_u32_to_from_le_bytes();
        lemma_auto_spec_u64_to_from_le_bytes();
        assert(record@ =~= trampoline_bytes(
            address as int,
            site.address as int,
            site.displaced@,
            dispatch_entry as u64,
            spec_rel32(jump_end as int, continuation as int)->0,
        ));
    }
    let ghost before = output@;
    write_bytes(output, &record);
    assert(output@.subrange(0, required as int) =~= record@);
    assert(output@.subrange(required as int, output@.len() as int) =~= before.subrange(
        required as int,
        before.len() as int,
    ));
    Some(required)
}

} // verus!
