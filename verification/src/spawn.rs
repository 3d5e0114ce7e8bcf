//! Preparing a traced `exec` on Linux: the environment that carries the
//! preload library and the payload to the child, and the seccomp filter
//! the child installs before it runs.
use vstd::prelude::*;

use vstd::slice::slice_to_vec;

use crate::exec::{append_path_env, env_view, spec_append_path_env, spec_ensure_env, ensure_env, strings_view, Exec};
use crate::payload::EncodedPayload;
use crate::seccomp::{Filter, SeccompPayload};

verus! {

/// `LD_PRELOAD` in ASCII.
pub open spec fn ld_preload() -> Seq<u8> {
    seq![0x4cu8, 0x44u8, 0x5fu8, 0x50u8, 0x52u8, 0x45u8, 0x4cu8, 0x4fu8, 0x41u8, 0x44u8]
}

/// `FSPY_PAYLOAD` in ASCII: the variable that carries the encoded payload.
pub open spec fn payload_env_name() -> Seq<u8> {
    seq![0x46u8, 0x53u8, 0x50u8, 0x59u8, 0x5fu8, 0x50u8, 0x41u8, 0x59u8, 0x4cu8, 0x4fu8, 0x41u8, 0x44u8]
}

/// What the child runs before `exec`: installing the seccomp filter.
#[derive(Debug)]
pub struct PreExec(pub SeccompPayload);

/// Whether `copy` holds the same path and filter as `payload`.
pub open spec fn same_seccomp_payload(copy: SeccompPayload, payload: SeccompPayload) -> bool {
    copy.ipc_path@ == payload.ipc_path@ && copy.filter.0@ == payload.filter.0@
}

/// Prepares a traced `exec`: the preload library becomes the last
/// `LD_PRELOAD` entry (static targets ignore it, but their dynamic
/// descendants need it), and `FSPY_PAYLOAD` is set to the encoded payload,
/// failing with `EINVAL` when it is already set to something else. The
/// filter is installed before `exec` only when `install_listener`. The
/// program and its arguments are left as they are.
pub fn handle_exec(command: &mut Exec, encoded_payload: &EncodedPayload, install_listener: bool) -> (pre_exec: Result<
    Option<PreExec>,
    i32,
>)
    ensures
        final(command).program@ == old(command).program@,
        strings_view(final(command).args@) == strings_view(old(command).args@),
        ({
            let preloaded = spec_append_path_env(
                env_view(old(command).envs@),
                ld_preload(),
                encoded_payload.payload.preload_path.spec_data(),
            );
            match spec_ensure_env(preloaded, payload_env_name(), encoded_payload.encoded_string@) {
                Ok(prepared) => env_view(final(command).envs@) == prepared && match pre_exec {
                    Ok(Some(PreExec(payload))) => install_listener && same_seccomp_payload(
                        payload,
                        encoded_payload.payload.seccomp_payload,
                    ),
                    Ok(None) => !install_listener,
                    Err(_) => false,
                },
                Err(error) => pre_exec == Err::<Option<PreExec>, i32>(error) && env_view(final(command).envs@)
                    == preloaded,
            }
        }),
{
    let ld_preload_name: [u8; 10] = [0x4c, 0x44, 0x5f, 0x50, 0x52, 0x45, 0x4c, 0x4f, 0x41, 0x44];
    let payload_name: [u8; 12] = [0x46, 0x53, 0x50, 0x59, 0x5f, 0x50, 0x41, 0x59, 0x4c, 0x4f, 0x41, 0x44];
    assert(ld_preload_name@ =~= ld_preload());
    assert(payload_name@ =~= payload_env_name());
    append_path_env(&mut command.envs, &ld_preload_name, encoded_payload.payload.preload_path.as_bytes());
    match ensure_env(&mut command.envs, &payload_name, encoded_payload.encoded_string.as_slice()) {
        Ok(()) => {},
        Err(error) => return Err(error),
    }
    if install_listener {
        let seccomp_payload = &encoded_payload.payload.seccomp_payload;
        let copy = SeccompPayload {
            ipc_path: slice_to_vec(seccomp_payload.ipc_path.as_slice()),
            filter: Filter(slice_to_vec(seccomp_payload.filter.0.as_slice())),
        };
        Ok(Some(PreExec(copy)))
    } else {
        Ok(None)
    }
}

} // verus!
