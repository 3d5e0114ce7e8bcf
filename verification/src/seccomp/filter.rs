//! The classic-BPF seccomp program that routes monitored syscalls to the
//! user-notification supervisor unless they come from the allowlisted gate.
//!
//! Program shape (`n` monitored syscalls, sorted and deduplicated):
//!
//! ```text
//! 0        ld  [arch]
//! 1        jeq #audit_arch, +1, +0
//! 2        ret USER_NOTIF                      foreign architecture
//! 3        ld  [nr]
//! (x86-64) jset #X32_BIT, +0, +1
//! (x86-64) ret USER_NOTIF                      x32 syscall
//! base+i   jeq #syscall[i], +(n - i), +0       monitored: go to the PC check
//! base+n   ret ALLOW                           not monitored
//! base+n+1 ld  [ip low]
//! base+n+2 jeq #pc_low, +0, +2
//! base+n+3 ld  [ip high]
//! base+n+4 jeq #pc_high, +1, +0
//! base+n+5 ret USER_NOTIF                      monitored, not from the allowed PC
//! base+n+6 ret ALLOW                           monitored, from the allowed PC
//! ```
use vstd::prelude::*;

verus! {

/// `BPF_LD | BPF_W | BPF_ABS`: load a 32-bit word of `seccomp_data`.
pub const BPF_LD_W_ABS: u16 = 0x20;
/// `BPF_JMP | BPF_JEQ | BPF_K`: jump on equality with the operand.
pub const BPF_JMP_JEQ_K: u16 = 0x15;
/// `BPF_JMP | BPF_JSET | BPF_K`: jump when the accumulator shares a bit with the operand.
pub const BPF_JMP_JSET_K: u16 = 0x45;
/// `BPF_RET | BPF_K`: return the operand as the filter's action.
pub const BPF_RET_K: u16 = 0x06;

pub const SECCOMP_DATA_NR_OFFSET: u32 = 0;
pub const SECCOMP_DATA_ARCH_OFFSET: u32 = 4;
pub const SECCOMP_DATA_INSTRUCTION_POINTER_LOW_OFFSET: u32 = 8;
pub const SECCOMP_DATA_INSTRUCTION_POINTER_HIGH_OFFSET: u32 = 12;
/// Bit set in the syscall number of every x32-ABI syscall on x86-64.
pub const X32_SYSCALL_BIT: u32 = 0x4000_0000;

/// The kernel's `SECCOMP_RET_USER_NOTIF` action.
pub const SECCOMP_RET_USER_NOTIF: u32 = 0x7fc0_0000;
/// The kernel's `SECCOMP_RET_ALLOW` action.
pub const SECCOMP_RET_ALLOW: u32 = 0x7fff_0000;

/// The largest number of distinct monitored syscalls one classic-BPF jump
/// offset can skip over.
pub const MAX_MONITORED_SYSCALLS: usize = 255;

/// Architectures supported by the fspy seccomp filter.
#[derive(Debug, Clone, Copy, PartialEq, Eq, Structural)]
pub enum Architecture {
    X86_64,
    Aarch64,
}

impl Architecture {
    /// The `AUDIT_ARCH_*` value the kernel reports for this architecture:
    /// its ELF machine number with the 64-bit and little-endian flags.
    pub open spec fn spec_audit_value(self) -> u32 {
        match self {
            Architecture::X86_64 => 0xc000_003e,
            Architecture::Aarch64 => 0xc000_00b7,
        }
    }

    pub open spec fn spec_is_x32_syscall(self, syscall: i32) -> bool {
        self is X86_64 && (syscall as u32) & X32_SYSCALL_BIT != 0
    }

    pub fn audit_value(self) -> (value: u32)
        ensures
            value == self.spec_audit_value(),
    {
        let audit_arch_64bit: u32 = 0x8000_0000;
        let audit_arch_little_endian: u32 = 0x4000_0000;
        let value: u32 = match self {
            Architecture::X86_64 => 0x003e | audit_arch_64bit | audit_arch_little_endian,
            Architecture::Aarch64 => 0x00b7 | audit_arch_64bit | audit_arch_little_endian,
        };
        assert(0x003eu32 | 0x8000_0000u32 | 0x4000_0000u32 == 0xc000_003eu32) by (bit_vector);
        assert(0x00b7u32 | 0x8000_0000u32 | 0x4000_0000u32 == 0xc000_00b7u32) by (bit_vector);
        value
    }

    /// Whether `syscall` (as the kernel reports it) is an x32-ABI syscall.
    pub fn is_x32_syscall(self, syscall: i32) -> (x32: bool)
        ensures
            x32 == self.spec_is_x32_syscall(syscall),
    {
        match self {
            Architecture::X86_64 => (syscall as u32) & X32_SYSCALL_BIT != 0,
            Architecture::Aarch64 => false,
        }
    }
}

/// One classic-BPF instruction, field for field as `struct sock_filter`.
#[derive(Debug, Clone, Copy, PartialEq, Eq, Structural)]
pub struct CodableSockFilter {
    pub code: u16,
    pub jt: u8,
    pub jf: u8,
    pub k: u32,
}

pub open spec fn spec_statement(code: u16, k: u32) -> CodableSockFilter {
    CodableSockFilter { code, jt: 0, jf: 0, k }
}

pub open spec fn spec_jump(code: u16, k: u32, jt: u8, jf: u8) -> CodableSockFilter {
    CodableSockFilter { code, jt, jf, k }
}

impl CodableSockFilter {
    pub fn statement(code: u16, k: u32) -> (filter: Self)
        ensures
            filter == spec_statement(code, k),
    {
        CodableSockFilter { code, jt: 0, jf: 0, k }
    }

    pub fn jump(code: u16, k: u32, jt: u8, jf: u8) -> (filter: Self)
        ensures
            filter == spec_jump(code, k, jt, jf),
    {
        CodableSockFilter { code, jt, jf, k }
    }

    /// The instruction as `(code, jt, jf, k)`.
    pub fn parts(self) -> (parts: (u16, u8, u8, u32))
        ensures
            parts == (self.code, self.jt, self.jf, self.k),
    {
        (self.code, self.jt, self.jf, self.k)
    }
}

// --- The canonical monitored-syscall list ------------------------------------

/// Inserts `x` into a strictly increasing sequence, keeping it strictly
/// increasing (an element already present is not repeated).
pub open spec fn insert_sorted(s: Seq<i32>, x: i32) -> Seq<i32>
    decreases s.len(),
{
    if s.len() == 0 {
        seq![x]
    } else if x < s[0] {
        seq![x] + s
    } else if x == s[0] {
        s
    } else {
        seq![s[0]] + insert_sorted(s.drop_first(), x)
    }
}

/// The monitored syscalls sorted in increasing order without duplicates.
pub open spec fn canonical_syscalls(s: Seq<i32>) -> Seq<i32>
    decreases s.len(),
{
    if s.len() == 0 {
        Seq::empty()
    } else {
        insert_sorted(canonical_syscalls(s.drop_last()), s.last())
    }
}

pub open spec fn strictly_increasing(s: Seq<i32>) -> bool {
    forall|i: int, j: int| 0 <= i < j < s.len() ==> s[i] < s[j]
}

proof fn lemma_insert_sorted_properties(s: Seq<i32>, x: i32)
    requires
        strictly_increasing(s),
    ensures
        strictly_increasing(insert_sorted(s, x)),
        forall|y: i32| insert_sorted(s, x).contains(y) <==> (s.contains(y) || y == x),
        insert_sorted(s, x).len() >= 1,
    decreases s.len(),
{
    let r = insert_sorted(s, x);
    if s.len() == 0 {
        assert forall|y: i32| r.contains(y) <==> (s.contains(y) || y == x) by {
            if r.contains(y) {
                let k = choose|k: int| 0 <= k < r.len() && r[k] == y;
                assert(k == 0);
            }
            if y == x {
                assert(r[0] == y);
            }
        }
    } else if x < s[0] {
        assert forall|y: i32| r.contains(y) <==> (s.contains(y) || y == x) by {
            if r.contains(y) {
                let k = choose|k: int| 0 <= k < r.len() && r[k] == y;
                if k > 0 {
                    assert(s[k - 1] == y);
                }
            }
            if s.contains(y) {
                let k = choose|k: int| 0 <= k < s.len() && s[k] == y;
                assert(r[k + 1] == y);
            }
            if y == x {
                assert(r[0] == y);
            }
        }
    } else if x == s[0] {
        assert forall|y: i32| r.contains(y) <==> (s.contains(y) || y == x) by {
            if y == x {
                assert(s[0] == y);
            }
        }
    } else {
        let t = s.drop_first();
        assert(strictly_increasing(t));
        lemma_insert_sorted_properties(t, x);
        let rt = insert_sorted(t, x);
        assert(r == seq![s[0]] + rt);
        assert forall|k: int| 0 <= k < rt.len() implies s[0] < #[trigger] rt[k] by {
            assert(rt.contains(rt[k]));
            if t.contains(rt[k]) {
                let m = choose|m: int| 0 <= m < t.len() && t[m] == rt[k];
                assert(s[m + 1] == rt[k]);
            }
        }
        assert forall|y: i32| r.contains(y) <==> (s.contains(y) || y == x) by {
            if r.contains(y) {
                let k = choose|k: int| 0 <= k < r.len() && r[k] == y;
                if k > 0 {
                    assert(rt[k - 1] == y);
                    assert(rt.contains(y));
                    if t.contains(y) {
                        let m = choose|m: int| 0 <= m < t.len() && t[m] == y;
                        assert(s[m + 1] == y);
                    }
                } else {
                    assert(s[0] == y);
                }
            }
            if s.contains(y) {
                let k = choose|k: int| 0 <= k < s.len() && s[k] == y;
                if k > 0 {
                    assert(t[k - 1] == y);
                    assert(t.contains(y));
                    assert(rt.contains(y));
                    let m = choose|m: int| 0 <= m < rt.len() && rt[m] == y;
                    assert(r[m + 1] == y);
                } else {
                    assert(r[0] == y);
                }
            }
            if y == x {
                assert(rt.contains(y));
                let m = choose|m: int| 0 <= m < rt.len() && rt[m] == y;
                assert(r[m + 1] == y);
            }
        }
        assert forall|i: int, j: int| 0 <= i < j < r.len() implies r[i] < r[j] by {
            if i == 0 {
                assert(r[j] == rt[j - 1]);
            } else {
                assert(r[i] == rt[i - 1]);
                assert(r[j] == rt[j - 1]);
            }
        }
    }
}

/// The canonical list is strictly increasing and holds exactly the
/// syscalls of the input.
pub proof fn lemma_canonical_syscalls(s: Seq<i32>)
    ensures
        strictly_increasing(canonical_syscalls(s)),
        forall|y: i32| canonical_syscalls(s).contains(y) <==> s.contains(y),
    decreases s.len(),
{
    if s.len() > 0 {
        let p = s.drop_last();
        lemma_canonical_syscalls(p);
        lemma_insert_sorted_properties(canonical_syscalls(p), s.last());
        assert forall|y: i32| canonical_syscalls(s).contains(y) <==> s.contains(y) by {
            if p.contains(y) {
                let k = choose|k: int| 0 <= k < p.len() && p[k] == y;
                assert(s[k] == y);
            }
            if s.contains(y) {
                let k = choose|k: int| 0 <= k < s.len() && s[k] == y;
                if k < s.len() - 1 {
                    assert(p[k] == y);
                }
            }
        }
    }
}

/// Inserting at the first position whose element is not smaller.
proof fn lemma_insert_sorted_at(s: Seq<i32>, x: i32, j: int)
    requires
        strictly_increasing(s),
        0 <= j <= s.len(),
        forall|k: int| 0 <= k < j ==> s[k] < x,
        j < s.len() ==> s[j] >= x,
    ensures
        insert_sorted(s, x) == (if j < s.len() && s[j] == x {
            s
        } else {
            s.insert(j, x)
        }),
    decreases s.len(),
{
    if s.len() == 0 {
        assert(insert_sorted(s, x) =~= s.insert(j, x));
    } else if j == 0 {
        if x < s[0] {
            assert(insert_sorted(s, x) =~= s.insert(0, x));
        }
    } else {
        let t = s.drop_first();
        lemma_insert_sorted_at(t, x, j - 1);
        if j < s.len() && s[j] == x {
            assert(t[j - 1] == x);
            assert(insert_sorted(s, x) =~= s);
        } else {
            assert(insert_sorted(s, x) =~= s.insert(j, x));
        }
    }
}

/// Inserts `x` into a strictly increasing vector unless already present.
fn insert_sorted_exec(v: &mut Vec<i32>, x: i32)
    requires
        strictly_increasing(old(v)@),
    ensures
        final(v)@ == insert_sorted(old(v)@, x),
        strictly_increasing(final(v)@),
{
    proof {
        lemma_insert_sorted_properties(v@, x);
    }
    let mut j: usize = 0;
    while j < v.len() && v[j] < x
        invariant
            0 <= j <= v@.len(),
            forall|k: int| 0 <= k < j ==> v@[k] < x,
        decreases v@.len() - j,
    {
        j = j + 1;
    }
    proof {
        lemma_insert_sorted_at(v@, x, j as int);
    }
    if j < v.len() && v[j] == x {
    } else {
        v.insert(j, x);
    }
}

/// Sorts and deduplicates the monitored syscalls.
fn sorted_unique(input: &[i32]) -> (out: Vec<i32>)
    ensures
        out@ == canonical_syscalls(input@),
{
    let mut out: Vec<i32> = Vec::new();
    let mut i: usize = 0;
    while i < input.len()
        invariant
            0 <= i <= input@.len(),
            out@ == canonical_syscalls(input@.subrange(0, i as int)),
            strictly_increasing(out@),
        decreases input@.len() - i,
    {
        proof {
            let next = input@.subrange(0, i as int + 1);
            assert(next.drop_last() =~= input@.subrange(0, i as int));
            assert(next.last() == input@[i as int]);
        }
        insert_sorted_exec(&mut out, input[i]);
        i = i + 1;
    }
    proof {
        assert(input@.subrange(0, input@.len() as int) =~= input@);
    }
    out
}

// --- The program ---------------------------------------------------------------

/// The instructions before the monitored-syscall jumps.
pub open spec fn filter_header(architecture: Architecture) -> Seq<CodableSockFilter> {
    let common = seq![
        spec_statement(BPF_LD_W_ABS, SECCOMP_DATA_ARCH_OFFSET),
        spec_jump(BPF_JMP_JEQ_K, architecture.spec_audit_value(), 1, 0),
        spec_statement(BPF_RET_K, SECCOMP_RET_USER_NOTIF),
        spec_statement(BPF_LD_W_ABS, SECCOMP_DATA_NR_OFFSET),
    ];
    match architecture {
        Architecture::X86_64 => common + seq![
            spec_jump(BPF_JMP_JSET_K, X32_SYSCALL_BIT, 0, 1),
            spec_statement(BPF_RET_K, SECCOMP_RET_USER_NOTIF),
        ],
        Architecture::Aarch64 => common,
    }
}

/// One equality jump per monitored syscall, each landing on the PC check.
pub open spec fn filter_jumps(monitored: Seq<i32>) -> Seq<CodableSockFilter> {
    Seq::new(
        monitored.len(),
        |i: int| spec_jump(BPF_JMP_JEQ_K, monitored[i] as u32, (monitored.len() - i) as u8, 0),
    )
}

/// The fall-through `ALLOW` and the check of both halves of the syscall's PC.
pub open spec fn filter_tail(post_syscall_pc: u64) -> Seq<CodableSockFilter> {
    seq![
        spec_statement(BPF_RET_K, SECCOMP_RET_ALLOW),
        spec_statement(BPF_LD_W_ABS, SECCOMP_DATA_INSTRUCTION_POINTER_LOW_OFFSET),
        spec_jump(BPF_JMP_JEQ_K, (post_syscall_pc & 0xffff_ffff) as u32, 0, 2),
        spec_statement(BPF_LD_W_ABS, SECCOMP_DATA_INSTRUCTION_POINTER_HIGH_OFFSET),
        spec_jump(BPF_JMP_JEQ_K, (post_syscall_pc >> 32) as u32, 1, 0),
        spec_statement(BPF_RET_K, SECCOMP_RET_USER_NOTIF),
        spec_statement(BPF_RET_K, SECCOMP_RET_ALLOW),
    ]
}

pub open spec fn filter_program(
    architecture: Architecture,
    monitored: Seq<i32>,
    post_syscall_pc: u64,
) -> Seq<CodableSockFilter> {
    filter_header(architecture) + filter_jumps(monitored) + filter_tail(post_syscall_pc)
}

/// A seccomp filter program.
#[derive(Debug, Clone, PartialEq, Eq)]
pub struct Filter(pub Vec<CodableSockFilter>);

impl Filter {
    /// Builds the filter for `architecture` that notifies the supervisor of
    /// every monitored syscall not issued from `post_syscall_pc`'s gate, and
    /// of every syscall it cannot classify (foreign architecture, x32).
    ///
    /// At most 255 distinct monitored syscalls fit the filter's jumps, and
    /// syscall numbers are non-negative.
    pub fn new(architecture: Architecture, monitored_syscalls: &[i32], post_syscall_pc: u64) -> (filter: Self)
        requires
            forall|i: int| 0 <= i < monitored_syscalls@.len() ==> monitored_syscalls@[i] >= 0,
            canonical_syscalls(monitored_syscalls@).len() <= MAX_MONITORED_SYSCALLS,
        ensures
            filter.0@ == filter_program(architecture, canonical_syscalls(monitored_syscalls@), post_syscall_pc),
    {
        let monitored = sorted_unique(monitored_syscalls);
        let ghost m = monitored@;
        let mut instructions: Vec<CodableSockFilter> = Vec::new();
        instructions.push(CodableSockFilter::statement(BPF_LD_W_ABS, SECCOMP_DATA_ARCH_OFFSET));
        instructions.push(CodableSockFilter::jump(BPF_JMP_JEQ_K, architecture.audit_value(), 1, 0));
        instructions.push(CodableSockFilter::statement(BPF_RET_K, SECCOMP_RET_USER_NOTIF));
        instructions.push(CodableSockFilter::statement(BPF_LD_W_ABS, SECCOMP_DATA_NR_OFFSET));
        match architecture {
            Architecture::X86_64 => {
                instructions.push(CodableSockFilter::jump(BPF_JMP_JSET_K, X32_SYSCALL_BIT, 0, 1));
                instructions.push(CodableSockFilter::statement(BPF_RET_K, SECCOMP_RET_USER_NOTIF));
            },
            Architecture::Aarch64 => {},
        }
        assert(instructions@ =~= filter_header(architecture));
        let count: usize = monitored.len();
        let mut index: usize = 0;
        while index < count
            invariant
                count == m.len(),
                m.len() <= MAX_MONITORED_SYSCALLS,
                monitored@ == m,
                0 <= index <= count,
                instructions@ =~= filter_header(architecture) + filter_jumps(m).subrange(0, index as int),
            decreases count - index,
        {
            let jump_to_gate: u8 = (count - index) as u8;
            instructions.push(
                CodableSockFilter::jump(BPF_JMP_JEQ_K, monitored[index] as u32, jump_to_gate, 0),
            );
            index = index + 1;
        }
        assert(filter_jumps(m).subrange(0, count as int) =~= filter_jumps(m));
        let post_syscall_pc_low: u32 = (post_syscall_pc & 0xffff_ffff) as u32;
        let post_syscall_pc_high: u32 = (post_syscall_pc >> 32) as u32;
        instructions.push(CodableSockFilter::statement(BPF_RET_K, SECCOMP_RET_ALLOW));
        instructions.push(
            CodableSockFilter::statement(BPF_LD_W_ABS, SECCOMP_DATA_INSTRUCTION_POINTER_LOW_OFFSET),
        );
        instructions.push(CodableSockFilter::jump(BPF_JMP_JEQ_K, post_syscall_pc_low, 0, 2));
        instructions.push(
            CodableSockFilter::statement(BPF_LD_W_ABS, SECCOMP_DATA_INSTRUCTION_POINTER_HIGH_OFFSET),
        );
        instructions.push(CodableSockFilter::jump(BPF_JMP_JEQ_K, post_syscall_pc_high, 1, 0));
        instructions.push(CodableSockFilter::statement(BPF_RET_K, SECCOMP_RET_USER_NOTIF));
        instructions.push(CodableSockFilter::statement(BPF_RET_K, SECCOMP_RET_ALLOW));
        assert(instructions@ =~= filter_program(architecture, m, post_syscall_pc));
        Filter(instructions)
    }

    pub fn instructions(&self) -> (instructions: &[CodableSockFilter])
        ensures
            instructions@ == self.0@,
    {
        self.0.as_slice()
    }
}

// --- What the program does -----------------------------------------------------

/// The part of the kernel's `struct seccomp_data` the filter reads.
#[derive(Debug, Clone, Copy, PartialEq, Eq, Structural)]
pub struct SeccompData {
    pub nr: i32,
    pub arch: u32,
    pub instruction_pointer: u64,
}

/// The 32-bit word of `seccomp_data` at byte `offset`, for the offsets the
/// filter loads.
pub open spec fn load_word(data: SeccompData, offset: u32) -> Option<u32> {
    if offset == SECCOMP_DATA_NR_OFFSET {
        Some(data.nr as u32)
    } else if offset == SECCOMP_DATA_ARCH_OFFSET {
        Some(data.arch)
    } else if offset == SECCOMP_DATA_INSTRUCTION_POINTER_LOW_OFFSET {
        Some((data.instruction_pointer & 0xffff_ffff) as u32)
    } else if offset == SECCOMP_DATA_INSTRUCTION_POINTER_HIGH_OFFSET {
        Some((data.instruction_pointer >> 32) as u32)
    } else {
        None
    }
}

/// Runs the instructions the filter uses from `pc` with accumulator `acc`.
/// `None` when the program runs off its end or meets anything else.
pub open spec fn run_from(program: Seq<CodableSockFilter>, pc: int, acc: u32, data: SeccompData) -> Option<u32>
    decreases program.len() - pc,
{
    if pc < 0 || pc >= program.len() {
        None
    } else {
        let instruction = program[pc];
        if instruction.code == BPF_RET_K {
            Some(instruction.k)
        } else if instruction.code == BPF_LD_W_ABS {
            match load_word(data, instruction.k) {
                Some(value) => run_from(program, pc + 1, value, data),
                None => None,
            }
        } else if instruction.code == BPF_JMP_JEQ_K || instruction.code == BPF_JMP_JSET_K {
            let matches = if instruction.code == BPF_JMP_JEQ_K {
                acc == instruction.k
            } else {
                acc & instruction.k != 0
            };
            let next = pc + 1 + if matches {
                instruction.jt as int
            } else {
                instruction.jf as int
            };
            if next > program.len() {
                None
            } else {
                run_from(program, next, acc, data)
            }
        } else {
            None
        }
    }
}

/// The action a program returns for one syscall.
pub open spec fn evaluate(program: Seq<CodableSockFilter>, data: SeccompData) -> Option<u32> {
    run_from(program, 0, 0, data)
}

/// The allowed-gate contract: a monitored syscall is allowed only from the
/// gate's post-syscall PC; unmonitored syscalls are allowed; anything the
/// filter cannot classify notifies the supervisor rather than being killed.
pub open spec fn gate_action(
    architecture: Architecture,
    monitored: Seq<i32>,
    post_syscall_pc: u64,
    data: SeccompData,
) -> u32 {
    if data.arch != architecture.spec_audit_value() {
        SECCOMP_RET_USER_NOTIF
    } else if architecture.spec_is_x32_syscall(data.nr) {
        SECCOMP_RET_USER_NOTIF
    } else if monitored.contains(data.nr) {
        if data.instruction_pointer == post_syscall_pc {
            SECCOMP_RET_ALLOW
        } else {
            SECCOMP_RET_USER_NOTIF
        }
    } else {
        SECCOMP_RET_ALLOW
    }
}

proof fn lemma_tail(program: Seq<CodableSockFilter>, start: int, acc: u32, post_syscall_pc: u64, data: SeccompData)
    requires
        0 <= start,
        start + 7 <= program.len(),
        forall|k: int| 0 <= k < 7 ==> program[start + k] == #[trigger] filter_tail(post_syscall_pc)[k],
    ensures
        run_from(program, start + 1, acc, data) == Some(
            if data.instruction_pointer == post_syscall_pc {
                SECCOMP_RET_ALLOW
            } else {
                SECCOMP_RET_USER_NOTIF
            },
        ),
{
    let t = filter_tail(post_syscall_pc);
    let ip = data.instruction_pointer;
    let low = (ip & 0xffff_ffff) as u32;
    let high = (ip >> 32) as u32;
    let pc_low = (post_syscall_pc & 0xffff_ffff) as u32;
    let pc_high = (post_syscall_pc >> 32) as u32;
    assert(program[start + 1] == t[1]);
    assert(program[start + 2] == t[2]);
    assert(program[start + 3] == t[3]);
    assert(program[start + 4] == t[4]);
    assert(program[start + 5] == t[5]);
    assert(program[start + 6] == t[6]);
    assert(run_from(program, start + 5, high, data) == Some(SECCOMP_RET_USER_NOTIF));
    assert(run_from(program, start + 5, low, data) == Some(SECCOMP_RET_USER_NOTIF));
    assert(run_from(program, start + 6, high, data) == Some(SECCOMP_RET_ALLOW));
    assert(run_from(program, start + 4, high, data) == if high == pc_high {
        Some(SECCOMP_RET_ALLOW)
    } else {
        Some(SECCOMP_RET_USER_NOTIF)
    });
    assert(run_from(program, start + 3, low, data) == run_from(program, start + 4, high, data));
    assert(run_from(program, start + 2, low, data) == if low == pc_low {
        run_from(program, start + 3, low, data)
    } else {
        Some(SECCOMP_RET_USER_NOTIF)
    });
    assert(run_from(program, start + 1, acc, data) == run_from(program, start + 2, low, data));
    assert((low == pc_low && high == pc_high) <==> ip == post_syscall_pc) by (bit_vector)
        requires
            low == (ip & 0xffff_ffff) as u32,
            high == (ip >> 32) as u32,
            pc_low == (post_syscall_pc & 0xffff_ffff) as u32,
            pc_high == (post_syscall_pc >> 32) as u32,
    ;
}

proof fn lemma_jump_chain(
    architecture: Architecture,
    m: Seq<i32>,
    post_syscall_pc: u64,
    data: SeccompData,
    i: int,
)
    requires
        m.len() <= MAX_MONITORED_SYSCALLS,
        forall|k: int| 0 <= k < m.len() ==> m[k] >= 0,
        0 <= i <= m.len(),
    ensures
        run_from(
            filter_program(architecture, m, post_syscall_pc),
            filter_header(architecture).len() + i,
            data.nr as u32,
            data,
        ) == Some(
            if exists|j: int| i <= j < m.len() && m[j] == data.nr {
                if data.instruction_pointer == post_syscall_pc {
                    SECCOMP_RET_ALLOW
                } else {
                    SECCOMP_RET_USER_NOTIF
                }
            } else {
                SECCOMP_RET_ALLOW
            },
        ),
    decreases m.len() - i,
{
    let p = filter_program(architecture, m, post_syscall_pc);
    let h = filter_header(architecture);
    let base = h.len() as int;
    let n = m.len() as int;
    let acc = data.nr as u32;
    assert(p.len() == base + n + 7);
    assert forall|k: int| 0 <= k < 7 implies p[base + n + k] == #[trigger] filter_tail(post_syscall_pc)[k] by {}
    lemma_tail(p, base + n, acc, post_syscall_pc, data);
    if i == n {
        assert(p[base + n] == filter_tail(post_syscall_pc)[0]);
    } else {
        let jump = p[base + i];
        assert(jump == filter_jumps(m)[i]);
        let mi = m[i];
        let nr = data.nr;
        assert(mi >= 0);
        assert((nr as u32 == mi as u32) <==> nr == mi) by (bit_vector)
            requires
                mi >= 0,
        ;
        assert(((n - i) as u8) as int == n - i);
        if acc == mi as u32 {
            assert(run_from(p, base + i, acc, data) == run_from(p, base + n + 1, acc, data));
        } else {
            lemma_jump_chain(architecture, m, post_syscall_pc, data, i + 1);
            assert(run_from(p, base + i, acc, data) == run_from(p, base + i + 1, acc, data));
            assert((exists|j: int| i <= j < n && m[j] == data.nr) <==> (exists|j: int| i + 1 <= j < n && m[j] == data.nr));
        }
    }
}

/// What the filter decides: for every syscall, the program `Filter::new`
/// builds returns exactly the allowed-gate contract's action.
pub proof fn lemma_filter_follows_gate_contract(
    architecture: Architecture,
    monitored_syscalls: Seq<i32>,
    post_syscall_pc: u64,
    data: SeccompData,
)
    requires
        forall|i: int| 0 <= i < monitored_syscalls.len() ==> monitored_syscalls[i] >= 0,
        canonical_syscalls(monitored_syscalls).len() <= MAX_MONITORED_SYSCALLS,
    ensures
        evaluate(
            filter_program(architecture, canonical_syscalls(monitored_syscalls), post_syscall_pc),
            data,
        ) == Some(gate_action(architecture, monitored_syscalls, post_syscall_pc, data)),
{
    let m = canonical_syscalls(monitored_syscalls);
    lemma_canonical_syscalls(monitored_syscalls);
    assert forall|k: int| 0 <= k < m.len() implies m[k] >= 0 by {
        assert(m.contains(m[k]));
        assert(monitored_syscalls.contains(m[k]));
        let j = choose|j: int| 0 <= j < monitored_syscalls.len() && monitored_syscalls[j] == m[k];
        assert(monitored_syscalls[j] >= 0);
    }
    let p = filter_program(architecture, m, post_syscall_pc);
    let h = filter_header(architecture);
    let base = h.len() as int;
    lemma_jump_chain(architecture, m, post_syscall_pc, data, 0);
    assert((exists|j: int| 0 <= j < m.len() && m[j] == data.nr) <==> monitored_syscalls.contains(data.nr)) by {
        if monitored_syscalls.contains(data.nr) {
            assert(m.contains(data.nr));
        }
    }
    let audit = architecture.spec_audit_value();
    let acc = data.nr as u32;
    assert(p[0] == h[0]);
    assert(p[1] == h[1]);
    assert(p[2] == h[2]);
    assert(p[3] == h[3]);
    assert(run_from(p, 2, data.arch, data) == Some(SECCOMP_RET_USER_NOTIF));
    assert(run_from(p, 0, 0, data) == run_from(p, 1, data.arch, data));
    if data.arch == audit {
        assert(run_from(p, 1, data.arch, data) == run_from(p, 3, data.arch, data));
        assert(run_from(p, 3, data.arch, data) == run_from(p, 4, acc, data));
        match architecture {
            Architecture::X86_64 => {
                assert(p[4] == h[4]);
                assert(p[5] == h[5]);
                assert(run_from(p, 5, acc, data) == Some(SECCOMP_RET_USER_NOTIF));
                if acc & X32_SYSCALL_BIT != 0 {
                    assert(run_from(p, 4, acc, data) == run_from(p, 5, acc, data));
                } else {
                    assert(run_from(p, 4, acc, data) == run_from(p, 6, acc, data));
                }
            },
            Architecture::Aarch64 => {},
        }
    } else {
        assert(run_from(p, 1, data.arch, data) == run_from(p, 2, data.arch, data));
    }
}

} // verus!
