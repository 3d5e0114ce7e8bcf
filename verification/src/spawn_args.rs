//! Checking what a child spawned on a terminal is handed: `posix_spawn`
//! takes C strings, so the program's arguments, its environment, its
//! working directory and the terminal's path must hold no NUL byte, and
//! there must be a program to run.
use vstd::prelude::*;

verus! {

/// Why a child's spawn arguments cannot be handed to `posix_spawn`.
#[derive(Debug, Clone, Copy, PartialEq, Eq, Structural)]
pub enum SpawnArgError {
    /// There is no program: the argument list is empty.
    EmptyArgv,
    /// An argument, an environment entry, the working directory or the
    /// terminal's path holds a NUL byte.
    InteriorNul,
}

/// Whether `bytes` can become a C string: no NUL byte in it.
pub open spec fn c_string_safe(bytes: Seq<u8>) -> bool {
    forall|i: int| 0 <= i < bytes.len() ==> bytes[i] != 0
}

/// Whether every argument can become a C string.
pub open spec fn argv_safe(argv: Seq<Vec<u8>>) -> bool {
    forall|k: int| 0 <= k < argv.len() ==> c_string_safe(#[trigger] argv[k]@)
}

/// Whether every `name=value` entry can become a C string.
pub open spec fn env_safe(env: Seq<(Vec<u8>, Vec<u8>)>) -> bool {
    forall|k: int| 0 <= k < env.len() ==> c_string_safe((#[trigger] env[k]).0@) && c_string_safe(env[k].1@)
}

/// Whether the spawn arguments hold no NUL byte anywhere.
pub open spec fn spawn_args_safe(
    argv: Seq<Vec<u8>>,
    env: Seq<(Vec<u8>, Vec<u8>)>,
    cwd: Option<Seq<u8>>,
    tty: Seq<u8>,
) -> bool {
    &&& argv_safe(argv)
    &&& env_safe(env)
    &&& (cwd matches Some(dir) ==> c_string_safe(dir))
    &&& c_string_safe(tty)
}

/// Whether `bytes` holds no NUL byte.
pub fn is_c_string_safe(bytes: &[u8]) -> (safe: bool)
    ensures
        safe == c_string_safe(bytes@),
{
    let mut i: usize = 0;
    while i < bytes.len()
        invariant
            0 <= i <= bytes@.len(),
            forall|j: int| 0 <= j < i ==> bytes@[j] != 0,
        decreases bytes@.len() - i,
    {
        if bytes[i] == 0 {
            return false;
        }
        i = i + 1;
    }
    true
}

/// Checks a terminal child's spawn arguments before any of them is turned
/// into a C string: `EmptyArgv` when there is no program, `InteriorNul`
/// when an argument, an environment name or value, the working directory
/// or the terminal's path holds a NUL byte.
pub fn check_spawn_args(
    argv: &[Vec<u8>],
    env: &[(Vec<u8>, Vec<u8>)],
    cwd: Option<&[u8]>,
    tty: &[u8],
) -> (checked: Result<(), SpawnArgError>)
    ensures
        checked == Ok::<(), SpawnArgError>(()) <==> argv@.len() > 0 && spawn_args_safe(
            argv@,
            env@,
            match cwd {
                Some(dir) => Some(dir@),
                None => None,
            },
            tty@,
        ),
        checked == Err::<(), SpawnArgError>(SpawnArgError::EmptyArgv) <==> argv@.len() == 0,
{
    if argv.len() == 0 {
        return Err(SpawnArgError::EmptyArgv);
    }
    let mut k: usize = 0;
    while k < argv.len()
        invariant
            0 < argv@.len(),
            0 <= k <= argv@.len(),
            forall|j: int| 0 <= j < k ==> c_string_safe(#[trigger] argv@[j]@),
        decreases argv@.len() - k,
    {
        if !is_c_string_safe(argv[k].as_slice()) {
            return Err(SpawnArgError::InteriorNul);
        }
        k = k + 1;
    }
    let mut e: usize = 0;
    while e < env.len()
        invariant
            0 < argv@.len(),
            argv_safe(argv@),
            0 <= e <= env@.len(),
            forall|j: int| 0 <= j < e ==> c_string_safe((#[trigger] env@[j]).0@) && c_string_safe(env@[j].1@),
        decreases env@.len() - e,
    {
        if !is_c_string_safe(env[e].0.as_slice()) || !is_c_string_safe(env[e].1.as_slice()) {
            return Err(SpawnArgError::InteriorNul);
        }
        e = e + 1;
    }
    if !is_c_string_safe(tty) {
        return Err(SpawnArgError::InteriorNul);
    }
    match cwd {
        Some(dir) => {
            if !is_c_string_safe(dir) {
                return Err(SpawnArgError::InteriorNul);
            }
        },
        None => {},
    }
    Ok(())
}

} // verus!
