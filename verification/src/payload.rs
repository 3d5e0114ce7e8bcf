//! The payload a supervisor hands to the processes it traces, and its
//! environment form: the serialized payload in unpadded standard base64,
//! carried in `FSPY_PAYLOAD`.
//!
//! Serializing the payload itself is left to the caller; this module frames
//! the serialized bytes for the environment and finds them there again.
use vstd::prelude::*;

use crate::channel::conf::ChannelConf;
use crate::exec::{bytes_equal, env_view, first_value, spec_append_path_env, spec_ensure_env, EnvEntry};
use crate::ipc::native_str::NativeStr;
use crate::seccomp::SeccompPayload;
use crate::spawn::{ld_preload, payload_env_name};

verus! {

/// The payload as it travels between processes.
#[derive(Debug, Clone)]
pub struct Payload {
    pub ipc_channel_conf: ChannelConf,
    pub preload_path: NativeStr,
    pub seccomp_payload: SeccompPayload,
}

/// The paths of the shell and the core utilities that a macOS payload
/// carries, so that traced scripts run tools the preload library can see.
#[derive(Debug, Clone)]
pub struct Artifacts {
    pub bash_path: NativeStr,
    pub coreutils_path: NativeStr,
}

/// A payload together with its encoded form, for handing to child
/// processes.
#[derive(Debug, Clone)]
pub struct EncodedPayload {
    pub payload: Payload,
    pub encoded_string: Vec<u8>,
}

/// Why the environment yielded no payload bytes.
#[derive(Debug, Clone, Copy, PartialEq, Eq, Structural)]
pub enum PayloadError {
    /// No `FSPY_PAYLOAD` entry with a value.
    NotFound,
    /// The value is not unpadded standard base64.
    InvalidBase64,
}

/// The encoded payload found in an environment and the serialized payload
/// it decodes to.
#[derive(Debug, Clone, PartialEq, Eq)]
pub struct PayloadBytes {
    pub encoded_string: Vec<u8>,
    pub serialized: Vec<u8>,
}

#[verifier::external_type_specification]
#[verifier::external_body]
pub struct ExDecodeError(base64::DecodeError);

/// The unpadded standard base64 encoding of `bytes`.
pub uninterp spec fn base64_no_pad(bytes: Seq<u8>) -> Seq<u8>;

/// What unpadded standard base64 decoding makes of `encoded`: the bytes,
/// or `None` when it is refused.
pub uninterp spec fn base64_no_pad_decoded(encoded: Seq<u8>) -> Option<Seq<u8>>;

/// Encodes `bytes` with base64's `STANDARD_NO_PAD` engine
/// (`Engine::encode`). Its result is named `base64_no_pad`, and decoding it
/// with the same engine gives `bytes` back: base64's documentation shows this
/// round trip, and its fuzz targets exercise it. The length bound rules out
/// the overflow on which `encode` panics.
#[verifier::external_body]
fn encode_base64(bytes: &[u8]) -> (encoded: Vec<u8>)
    requires
        bytes@.len() <= usize::MAX / 2,
    ensures
        encoded@ == base64_no_pad(bytes@),
        base64_no_pad_decoded(encoded@) == Some(bytes@),
{
    base64::Engine::encode(&base64::prelude::BASE64_STANDARD_NO_PAD, bytes).into_bytes()
}

/// Decodes `encoded` with base64's `STANDARD_NO_PAD` engine
/// (`Engine::decode`). The bytes on success, and the refusal otherwise, are
/// what `base64_no_pad_decoded` names.
#[verifier::external_body]
fn decode_base64(encoded: &[u8]) -> (decoded: Result<Vec<u8>, base64::DecodeError>)
    ensures
        match decoded {
            Ok(bytes) => base64_no_pad_decoded(encoded@) == Some(bytes@),
            Err(_) => base64_no_pad_decoded(encoded@) is None,
        },
{
    base64::Engine::decode(&base64::prelude::BASE64_STANDARD_NO_PAD, encoded)
}

/// Assembles the payload that travels to child processes from the payload
/// and its serialized form: the encoded string is the unpadded base64 of
/// `serialized`.
pub fn encode_payload(payload: Payload, serialized: &[u8]) -> (encoded: EncodedPayload)
    requires
        serialized@.len() <= usize::MAX / 2,
    ensures
        encoded.payload == payload,
        encoded.encoded_string@ == base64_no_pad(serialized@),
        base64_no_pad_decoded(encoded.encoded_string@) == Some(serialized@),
{
    let encoded_string = encode_base64(serialized);
    EncodedPayload { payload, encoded_string }
}

/// The value of the first `FSPY_PAYLOAD` entry that has one, copied out of
/// the environment.
pub fn find_payload_env(envs: &Vec<EnvEntry>) -> (encoded: Option<Vec<u8>>)
    ensures
        match encoded {
            Some(value) => first_value(env_view(envs@), payload_env_name(), 0) == Some(value@),
            None => first_value(env_view(envs@), payload_env_name(), 0) is None,
        },
{
    let name: [u8; 12] = [0x46, 0x53, 0x50, 0x59, 0x5f, 0x50, 0x41, 0x59, 0x4c, 0x4f, 0x41, 0x44];
    assert(name@ =~= payload_env_name());
    let ghost view = env_view(envs@);
    let mut i: usize = 0;
    while i < envs.len()
        invariant
            view == env_view(envs@),
            name@ == payload_env_name(),
            0 <= i <= envs@.len(),
            first_value(view, payload_env_name(), 0) == first_value(view, payload_env_name(), i as int),
        decreases envs@.len() - i,
    {
        if bytes_equal(envs[i].0.as_slice(), &name) {
            match &envs[i].1 {
                Some(value) => {
                    return Some(vstd::slice::slice_to_vec(value.as_slice()));
                },
                None => {},
            }
        }
        i = i + 1;
    }
    None
}

/// What `payload_from_env` makes of an environment: the encoded payload and
/// its decoded bytes, or why there are none.
pub open spec fn spec_payload_from_env(envs: Seq<(Seq<u8>, Option<Seq<u8>>)>) -> Result<(Seq<u8>, Seq<u8>), PayloadError> {
    match first_value(envs, payload_env_name(), 0) {
        None => Err(PayloadError::NotFound),
        Some(encoded) => match base64_no_pad_decoded(encoded) {
            None => Err(PayloadError::InvalidBase64),
            Some(serialized) => Ok((encoded, serialized)),
        },
    }
}

/// Finds the encoded payload in an environment and decodes it to the
/// serialized payload. The encoded string is copied out: the process
/// environment is not stable storage.
pub fn payload_from_env(envs: &Vec<EnvEntry>) -> (bytes: Result<PayloadBytes, PayloadError>)
    ensures
        match spec_payload_from_env(env_view(envs@)) {
            Ok((encoded, serialized)) => bytes matches Ok(found) && found.encoded_string@ == encoded
                && found.serialized@ == serialized,
            Err(error) => bytes == Err::<PayloadBytes, PayloadError>(error),
        },
{
    let encoded_string = match find_payload_env(envs) {
        Some(value) => value,
        None => return Err(PayloadError::NotFound),
    };
    match decode_base64(encoded_string.as_slice()) {
        Ok(serialized) => Ok(PayloadBytes { encoded_string, serialized }),
        Err(_) => Err(PayloadError::InvalidBase64),
    }
}

/// Appending an entry keeps the first value found before it.
proof fn lemma_first_value_push(
    envs: Seq<(Seq<u8>, Option<Seq<u8>>)>,
    name: Seq<u8>,
    entry: (Seq<u8>, Option<Seq<u8>>),
    from: int,
)
    requires
        0 <= from <= envs.len(),
    ensures
        first_value(envs.push(entry), name, from) == match first_value(envs, name, from) {
            Some(value) => Some(value),
            None => if entry.0 == name && entry.1 is Some {
                entry.1
            } else {
                None
            },
        },
    decreases envs.len() - from,
{
    let pushed = envs.push(entry);
    if from < envs.len() {
        assert(pushed[from] == envs[from]);
        lemma_first_value_push(envs, name, entry, from + 1);
    } else {
        assert(pushed[from] == entry);
        assert(first_value(pushed, name, from + 1) is None);
    }
}

/// Whatever `name` held, once `ensure_env` succeeds the first value of
/// `name` is `value`.
pub proof fn lemma_ensured_env_holds_value(envs: Seq<(Seq<u8>, Option<Seq<u8>>)>, name: Seq<u8>, value: Seq<u8>)
    requires
        spec_ensure_env(envs, name, value) is Ok,
    ensures
        first_value(spec_ensure_env(envs, name, value)->Ok_0, name, 0) == Some(value),
{
    if first_value(envs, name, 0) is None {
        lemma_first_value_push(envs, name, (name, Some(value)), 0);
    }
}

/// The payload a traced `exec` hands to its child is the one the child
/// finds: when the environment `handle_exec` prepares (the preload library
/// appended to `LD_PRELOAD`, `FSPY_PAYLOAD` set to the encoded payload)
/// comes about, reading the payload from it gives back the encoded string
/// and the serialized bytes. `encode_payload` returns only encoded strings
/// that decode to their serialized bytes.
pub proof fn lemma_prepared_exec_carries_payload(
    envs: Seq<(Seq<u8>, Option<Seq<u8>>)>,
    preload_path: Seq<u8>,
    encoded: Seq<u8>,
    serialized: Seq<u8>,
)
    requires
        spec_ensure_env(spec_append_path_env(envs, ld_preload(), preload_path), payload_env_name(), encoded) is Ok,
    ensures
        base64_no_pad_decoded(encoded) == Some(serialized) ==> spec_payload_from_env(
            spec_ensure_env(spec_append_path_env(envs, ld_preload(), preload_path), payload_env_name(), encoded)->Ok_0,
        ) == Ok::<(Seq<u8>, Seq<u8>), PayloadError>((encoded, serialized)),
{
    lemma_ensured_env_holds_value(spec_append_path_env(envs, ld_preload(), preload_path), payload_env_name(), encoded);
}

} // verus!
