use fspy::channel::conf::close_channel;
use fspy::channel::shm_io::{MappedLayout, ShmWriter};
use fspy::channel::conf::ChannelConf;
use fspy::exec::{EnvEntry, Exec};
use fspy::ipc::native_str::NativeStr;
use fspy::payload::{encode_payload, payload_from_env, Payload, PayloadBytes};
use fspy::seccomp::SeccompPayload;
use fspy::spawn::handle_exec;

fn entry(name: &str, value: Option<&str>) -> EnvEntry {
    (name.as_bytes().to_vec(), value.map(|v| v.as_bytes().to_vec()))
}

fn payload(preload: &str, ipc_path: &str) -> Payload {
    Payload {
        ipc_channel_conf: ChannelConf { shm_id: b"/tmp/vite-task-fspy-0.shm".to_vec() },
        preload_path: NativeStr::from_bytes(preload.as_bytes()),
        seccomp_payload: SeccompPayload::unreachable(ipc_path.as_bytes().to_vec()),
    }
}

fn command(envs: Vec<EnvEntry>) -> Exec {
    Exec { program: b"/bin/sh".to_vec(), args: vec![b"sh".to_vec()], envs }
}

#[test]
fn exec_environment_carries_the_preload_and_the_payload() {
    let encoded = encode_payload(payload("/fspy.so", "/x"), b"pay");
    assert_eq!(encoded.encoded_string, b"cGF5".to_vec());

    let mut exec = command(vec![entry("LD_PRELOAD", Some("/user.so"))]);
    let pre_exec = handle_exec(&mut exec, &encoded, true);
    let pre_exec = pre_exec.unwrap().unwrap();
    assert_eq!(pre_exec.0.ipc_path, b"/x".to_vec());
    assert_eq!(exec.envs, vec![entry("LD_PRELOAD", Some("/user.so:/fspy.so")), entry("FSPY_PAYLOAD", Some("cGF5"))]);
    assert_eq!(exec.program, b"/bin/sh".to_vec());

    let mut exec = command(vec![entry("FSPY_PAYLOAD", Some("other"))]);
    let refused = handle_exec(&mut exec, &encoded, false);
    assert_eq!(refused.err(), Some(libc::EINVAL));

    let mut exec = command(Vec::new());
    let no_listener = handle_exec(&mut exec, &encoded, false);
    assert!(no_listener.unwrap().is_none());
}

#[test]
fn the_child_reads_back_the_payload_its_exec_carried() {
    let serialized = b"\x00\x01serialized payload\xff".to_vec();
    let encoded = encode_payload(payload("/fspy.so", "/x"), &serialized);
    let mut exec = command(vec![entry("FSPY_PAYLOAD", None), entry("HOME", Some("/root"))]);
    assert!(handle_exec(&mut exec, &encoded, false).unwrap().is_none());
    let found = payload_from_env(&exec.envs).unwrap();
    assert_eq!(found, PayloadBytes { encoded_string: encoded.encoded_string.clone(), serialized });
}

#[test]
fn closing_a_channel_that_lost_a_record_reports_it() {
    let mut region = MappedLayout::new(1024, 15).unwrap();
    let writer = ShmWriter::new(&region);
    assert!(writer.try_write_frame(&mut region, b"kept"));
    let reader = close_channel(&mut region).unwrap();
    let mut frames = reader.iter();
    assert_eq!(frames.next(&region), Some(b"kept".to_vec()));
    assert_eq!(frames.next(&region), None);

    let mut region = MappedLayout::new(1024, 15).unwrap();
    let writer = ShmWriter::new(&region);
    assert!(!writer.try_write_frame(&mut region, &vec![0; 4096]));
    assert!(close_channel(&mut region).is_err());
}
