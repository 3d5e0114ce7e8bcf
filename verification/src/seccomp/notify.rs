//! The filter a supervisor hands to the processes it traces: seccompiler
//! compiles a program that allows every syscall but the monitored ones,
//! and each monitored syscall's verdict becomes a user notification.
use vstd::prelude::*;

use super::filter::{Architecture, CodableSockFilter, Filter, BPF_RET_K, SECCOMP_RET_USER_NOTIF};

verus! {

/// The kernel's `SECCOMP_RET_TRACE` action, with no data.
pub const SECCOMP_RET_TRACE: u32 = 0x7ff0_0000;

/// What seccompiler compiles for `syscalls` on `arch`: a filter that
/// checks the architecture (killing the process on another one), allows
/// every syscall but those in `syscalls`, and returns `SECCOMP_RET_TRACE`
/// for those; `None` when it refuses to build it.
pub uninterp spec fn seccompiler_trace_program(syscalls: Seq<i64>, arch: Architecture) -> Option<Seq<CodableSockFilter>>;

/// `seccompiler::SeccompFilter::new` with `Allow` on a mismatch and
/// `Trace(0)` on a match, for `arch`, then `BpfProgram::try_from`, each
/// instruction moved field for field: what `seccompiler_trace_program`
/// names. Every syscall number must fit a `u32`, or seccompiler panics.
#[verifier::external_body]
fn compile_trace_program(syscalls: &[i64], arch: Architecture) -> (program: Option<Vec<CodableSockFilter>>)
    requires
        forall|i: int| 0 <= i < syscalls@.len() ==> 0 <= #[trigger] syscalls@[i] <= u32::MAX,
    ensures
        match program {
            Some(program) => seccompiler_trace_program(syscalls@, arch) == Some(program@),
            None => seccompiler_trace_program(syscalls@, arch) is None,
        },
{
    let target = match arch {
        Architecture::X86_64 => seccompiler::TargetArch::x86_64,
        Architecture::Aarch64 => seccompiler::TargetArch::aarch64,
    };
    let rules = syscalls.iter().map(|&number| (number, Vec::new())).collect();
    let filter = seccompiler::SeccompFilter::new(
        rules,
        seccompiler::SeccompAction::Allow,
        seccompiler::SeccompAction::Trace(0),
        target,
    ).ok()?;
    let program: seccompiler::BpfProgram = filter.try_into().ok()?;
    Some(program.into_iter().map(|i| CodableSockFilter { code: i.code, jt: i.jt, jf: i.jf, k: i.k }).collect())
}

/// An instruction with a trace verdict turned into a user-notification
/// verdict; any other instruction as it is.
pub open spec fn notify_instruction(instruction: CodableSockFilter) -> CodableSockFilter {
    if instruction.code == BPF_RET_K && instruction.k == SECCOMP_RET_TRACE {
        CodableSockFilter { k: SECCOMP_RET_USER_NOTIF, ..instruction }
    } else {
        instruction
    }
}

/// `program` with every trace verdict turned into a user-notification
/// verdict, so the supervisor, not a tracer, hears of those syscalls.
pub fn notify_filter(program: &[CodableSockFilter]) -> (filter: Filter)
    ensures
        filter.0@ == program@.map_values(|instruction: CodableSockFilter| notify_instruction(instruction)),
{
    let mut instructions: Vec<CodableSockFilter> = Vec::new();
    let mut i: usize = 0;
    while i < program.len()
        invariant
            0 <= i <= program@.len(),
            instructions@ == program@.subrange(0, i as int).map_values(
                |instruction: CodableSockFilter| notify_instruction(instruction),
            ),
        decreases program@.len() - i,
    {
        let instruction = program[i];
        let notified = if instruction.code == BPF_RET_K && instruction.k == SECCOMP_RET_TRACE {
            CodableSockFilter { code: instruction.code, jt: instruction.jt, jf: instruction.jf, k: SECCOMP_RET_USER_NOTIF }
        } else {
            instruction
        };
        instructions.push(notified);
        proof {
            assert(program@.subrange(0, i + 1) =~= program@.subrange(0, i as int).push(program@[i as int]));
        }
        i = i + 1;
    }
    assert(program@.subrange(0, program@.len() as int) =~= program@);
    Filter(instructions)
}

/// The filter a supervisor of `syscalls` hands out on `arch`: seccompiler's
/// program with each monitored syscall reported to the supervisor; `None`
/// when seccompiler refuses to build it.
pub fn supervisor_filter(syscalls: &[i64], arch: Architecture) -> (filter: Option<Filter>)
    requires
        forall|i: int| 0 <= i < syscalls@.len() ==> 0 <= #[trigger] syscalls@[i] <= u32::MAX,
    ensures
        match seccompiler_trace_program(syscalls@, arch) {
            None => filter is None,
            Some(program) => filter matches Some(f) && f.0@ == program.map_values(
                |instruction: CodableSockFilter| notify_instruction(instruction),
            ),
        },
{
    match compile_trace_program(syscalls, arch) {
        Some(program) => Some(notify_filter(program.as_slice())),
        None => None,
    }
}

} // verus!
