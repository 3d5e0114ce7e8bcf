//! The exact-address gate that the tracer's seccomp filter allows, and the
//! choice between it and the fallback gate for one intercepted syscall.
//!
//! An allowed gate is three instructions on one private page: a landing pad for
//! the indirect call, the syscall instruction, and a return, so that the
//! address right after the syscall instruction is `post_syscall_pc`, the
//! one program counter the filter lets through.
use vstd::prelude::*;

verus! {

/// The published gate address, `None` while no gate is installed (0).
pub fn allowed_gate(address: usize) -> (gate: Option<usize>)
    ensures
        gate == (if address == 0 { None } else { Some(address) }),
{
    if address == 0 {
        None
    } else {
        Some(address)
    }
}

/// Where a syscall runs: the allowed gate only when a callback is installed
/// (`callback_result` is its answer), it allowed the syscall, and an allowed gate
/// is installed; the fallback gate, still visible to seccomp, otherwise.
pub fn choose_gate(callback_result: Option<bool>, allowed_gate: Option<usize>, fallback: usize) -> (gate: usize)
    ensures
        gate == (match (callback_result, allowed_gate) {
            (Some(true), Some(allowed)) => allowed,
            _ => fallback,
        }),
{
    match callback_result {
        Some(true) => match allowed_gate {
            Some(allowed) => allowed,
            None => fallback,
        },
        _ => fallback,
    }
}

/// Where an allowed gate's parts go on its page.
#[derive(Debug, Clone, Copy, PartialEq, Eq, Structural)]
pub struct GateLayout {
    /// Start of the page that holds an allowed gate.
    pub page_address: usize,
    /// Address of the landing pad: the allowed gate's entry.
    pub entry_address: usize,
    /// Address of the syscall instruction.
    pub instruction_address: usize,
}

/// The allowed-gate layout ending its syscall instruction at `post_syscall_pc`,
/// when the landing pad, the instruction and the return all fit on the
/// page that holds `post_syscall_pc`.
pub open spec fn spec_gate_layout(
    post_syscall_pc: int,
    page_size: int,
    landing_len: int,
    instruction_len: int,
    return_len: int,
    page_address: int,
) -> Option<GateLayout> {
    let instruction_address = post_syscall_pc - instruction_len;
    let entry_address = instruction_address - landing_len;
    if instruction_address < 0 || entry_address < 0 || page_address + page_size > usize::MAX
        || entry_address < page_address || post_syscall_pc + return_len > page_address + page_size {
        None
    } else {
        Some(
            GateLayout {
                page_address: page_address as usize,
                entry_address: entry_address as usize,
                instruction_address: instruction_address as usize,
            },
        )
    }
}

/// Lays an allowed gate out around `post_syscall_pc` on pages of the power-of-two
/// `page_size`, or `None` when it would straddle a page boundary or an
/// address would overflow.
pub fn gate_layout(post_syscall_pc: usize, page_size: usize, landing_len: usize, instruction_len: usize, return_len: usize) -> (layout: Option<GateLayout>)
    requires
        page_size >= 1,
        page_size & (page_size - 1) as usize == 0,
    ensures
        layout == spec_gate_layout(
            post_syscall_pc as int,
            page_size as int,
            landing_len as int,
            instruction_len as int,
            return_len as int,
            (post_syscall_pc & !((page_size - 1) as usize)) as int,
        ),
        layout matches Some(l) ==> l.page_address & ((page_size - 1) as usize) == 0 && l.page_address <= post_syscall_pc,
{
    let page_address: usize = post_syscall_pc & !(page_size - 1);
    proof {
        let a = post_syscall_pc;
        let p = page_size;
        let m = (p - 1) as usize;
        assert(p >= 1 && m == (p - 1) as usize ==> (a & !m) <= a && (a & !m) & m == 0) by (bit_vector);
    }
    if post_syscall_pc < instruction_len {
        return None;
    }
    let instruction_address: usize = post_syscall_pc - instruction_len;
    if instruction_address < landing_len {
        return None;
    }
    let entry_address: usize = instruction_address - landing_len;
    if page_address > usize::MAX - page_size {
        return None;
    }
    let page_end: usize = page_address + page_size;
    if entry_address < page_address {
        return None;
    }
    if post_syscall_pc > usize::MAX - return_len || post_syscall_pc + return_len > page_end {
        return None;
    }
    Some(GateLayout { page_address, entry_address, instruction_address })
}

/// `count` zero bytes.
pub open spec fn zeros(count: int) -> Seq<u8> {
    Seq::new(count as nat, |i: int| 0u8)
}

/// An allowed gate's page: zero-filled but for the landing pad at the entry, the
/// syscall instruction right after it and the return right after that.
pub open spec fn gate_page(layout: GateLayout, page_size: int, landing: Seq<u8>, instruction: Seq<u8>, ret: Seq<u8>) -> Seq<u8> {
    let offset = layout.entry_address - layout.page_address;
    zeros(offset) + landing + instruction + ret + zeros(
        page_size - offset - landing.len() - instruction.len() - ret.len(),
    )
}

/// The contents of an allowed gate's page, for a layout that `gate_layout` gave
/// for these instructions.
pub fn gate_page_image(layout: GateLayout, page_size: usize, landing: &[u8], instruction: &[u8], ret: &[u8]) -> (image: Vec<u8>)
    requires
        page_size >= 1,
        page_size & (page_size - 1) as usize == 0,
        spec_gate_layout(
            layout.instruction_address + instruction@.len(),
            page_size as int,
            landing@.len() as int,
            instruction@.len() as int,
            ret@.len() as int,
            layout.page_address as int,
        ) == Some(layout),
    ensures
        image@ == gate_page(layout, page_size as int, landing@, instruction@, ret@),
        image@.len() == page_size,
{
    let offset: usize = layout.entry_address - layout.page_address;
    let mut image: Vec<u8> = Vec::new();
    let mut i: usize = 0;
    while i < offset
        invariant
            0 <= i <= offset,
            image@ == zeros(i as int),
        decreases offset - i,
    {
        image.push(0);
        i = i + 1;
        assert(image@ =~= zeros(i as int));
    }
    let mut copy = vstd::slice::slice_to_vec(landing);
    image.append(&mut copy);
    let mut copy = vstd::slice::slice_to_vec(instruction);
    image.append(&mut copy);
    let mut copy = vstd::slice::slice_to_vec(ret);
    image.append(&mut copy);
    let ghost head = image@;
    let used: usize = image.len();
    let mut j: usize = used;
    while j < page_size
        invariant
            used <= j <= page_size,
            image@ == head + zeros(j - used),
        decreases page_size - j,
    {
        image.push(0);
        j = j + 1;
        assert(image@ =~= head + zeros(j - used));
    }
    image
}

} // verus!
