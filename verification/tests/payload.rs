use fspy::channel::conf::ChannelConf;
use fspy::exec::EnvEntry;
use fspy::ipc::native_str::NativeStr;
use fspy::payload::{encode_payload, find_payload_env, payload_from_env, Payload, PayloadBytes, PayloadError};
use fspy::seccomp::SeccompPayload;

fn entry(name: &str, value: Option<&str>) -> EnvEntry {
    (name.as_bytes().to_vec(), value.map(|v| v.as_bytes().to_vec()))
}

fn payload() -> Payload {
    Payload {
        ipc_channel_conf: ChannelConf { shm_id: b"/tmp/id".to_vec() },
        preload_path: NativeStr::from_bytes(b"/fspy.so"),
        seccomp_payload: SeccompPayload::unreachable(b"/sock".to_vec()),
    }
}

#[test]
fn encoding_is_unpadded_standard_base64() {
    let encoded = encode_payload(payload(), b"some bytes");
    assert_eq!(encoded.encoded_string, b"c29tZSBieXRlcw".to_vec());
    assert_eq!(encoded.payload.preload_path.as_bytes(), b"/fspy.so");
    assert_eq!(encode_payload(payload(), b"").encoded_string, Vec::<u8>::new());
    assert_eq!(encode_payload(payload(), b"\xfb\xff").encoded_string, b"+/8".to_vec());
}

#[test]
fn a_missing_payload_is_reported() {
    assert_eq!(payload_from_env(&Vec::new()), Err(PayloadError::NotFound));
    // An entry without a value does not count.
    assert_eq!(payload_from_env(&vec![entry("FSPY_PAYLOAD", None)]), Err(PayloadError::NotFound));
    assert_eq!(payload_from_env(&vec![entry("FSPY_PAYLOADS", Some("cGF5"))]), Err(PayloadError::NotFound));
}

#[test]
fn padded_or_foreign_encodings_are_refused() {
    assert_eq!(payload_from_env(&vec![entry("FSPY_PAYLOAD", Some("cGE="))]), Err(PayloadError::InvalidBase64));
    assert_eq!(payload_from_env(&vec![entry("FSPY_PAYLOAD", Some("c*F5"))]), Err(PayloadError::InvalidBase64));
    assert_eq!(payload_from_env(&vec![entry("FSPY_PAYLOAD", Some("c"))]), Err(PayloadError::InvalidBase64));
}

#[test]
fn the_first_payload_with_a_value_is_decoded() {
    let envs = vec![
        entry("PATH", Some("/bin")),
        entry("FSPY_PAYLOAD", None),
        entry("FSPY_PAYLOAD", Some("cGF5")),
        entry("FSPY_PAYLOAD", Some("b3RoZXI")),
    ];
    assert_eq!(find_payload_env(&envs), Some(b"cGF5".to_vec()));
    assert_eq!(
        payload_from_env(&envs),
        Ok(PayloadBytes { encoded_string: b"cGF5".to_vec(), serialized: b"pay".to_vec() })
    );
}

#[test]
fn encoded_payloads_decode_to_their_bytes() {
    for len in 0..40u8 {
        let serialized: Vec<u8> = (0..len).map(|i| i.wrapping_mul(37).wrapping_add(len)).collect();
        let encoded = encode_payload(payload(), &serialized);
        let envs = vec![(b"FSPY_PAYLOAD".to_vec(), Some(encoded.encoded_string.clone()))];
        assert_eq!(payload_from_env(&envs), Ok(PayloadBytes { encoded_string: encoded.encoded_string, serialized }));
    }
}
