use fspy::channel::conf::{close_channel, ChannelConf};
use fspy::channel::shm_io::{ClaimError, MappedLayout, ShmWriter};

fn conf() -> ChannelConf {
    ChannelConf { shm_id: b"/tmp/vite-task-fspy-00.shm".to_vec() }
}

#[test]
fn a_removed_or_sealed_channel_has_no_senders() {
    assert!(conf().sender(None).is_none());

    let mut region = MappedLayout::new(1024, 15).unwrap();
    assert!(conf().sender(Some(&region)).is_some());
    assert!(close_channel(&mut region).is_ok());
    assert!(conf().sender(Some(&region)).is_none());
}

#[test]
fn sent_records_reach_the_receiver_in_order() {
    let mut region = MappedLayout::new(1024, 15).unwrap();
    let sender = conf().sender(Some(&region)).unwrap();
    sender.send(&mut region, b"first");
    sender.send(&mut region, b"second");
    let reader = close_channel(&mut region).unwrap();
    let mut frames = reader.iter();
    assert_eq!(frames.next(&region), Some(b"first".to_vec()));
    assert_eq!(frames.next(&region), Some(b"second".to_vec()));
    assert_eq!(frames.next(&region), None);
}

#[test]
fn a_record_that_does_not_fit_is_skipped_and_reported_at_close() {
    let mut region = MappedLayout::new(1024, 15).unwrap();
    let sender = conf().sender(Some(&region)).unwrap();
    sender.send(&mut region, b"kept");
    sender.send(&mut region, &vec![7u8; 4096]);
    // The failed claim closed the channel: later senders find it over.
    assert!(conf().sender(Some(&region)).is_none());
    assert!(close_channel(&mut region).is_err());
}

#[test]
fn a_capacity_too_small_for_the_table_fails_the_channel() {
    // The counters alone need sixteen bytes, and the table needs eight per
    // slot on top.
    assert!(MappedLayout::new(8, fspy::channel::conf::SLOTS).is_none());
}

#[test]
fn smoke() {
    let mut region = MappedLayout::new(4096, 64).unwrap();
    let sender = conf().sender(Some(&region)).unwrap();
    sender.send(&mut region, &[4, 2]);
    let frames = close_channel(&mut region).unwrap();
    let mut iter = frames.iter();
    assert_eq!(iter.next(&region), Some(vec![4, 2]));
    assert_eq!(iter.next(&region), None);
}

#[test]
fn forbid_new_senders_after_close() {
    let mut region = MappedLayout::new(4096, 64).unwrap();
    let _frames = close_channel(&mut region).unwrap();
    assert!(conf().sender(Some(&region)).is_none());
}

#[test]
fn forbid_new_senders_after_receiver_dropped() {
    // The receiver removed the backing file: there is no region to find.
    assert!(conf().sender(None).is_none());
}

#[test]
fn attached_sender_cannot_claim_after_close() {
    let mut region = MappedLayout::new(4096, 64).unwrap();
    let writer = ShmWriter::new(&region);
    let frame = writer.claim_frame(&mut region, 2).unwrap();
    frame.write(&mut region, &[4, 2]);
    frame.finish(&mut region);

    let frames = close_channel(&mut region).unwrap();
    assert_eq!(frames.iter().next(&region), Some(vec![4, 2]));
    assert!(writer.claim_frame(&mut region, 2).unwrap_err() == ClaimError::Closed);
}

#[test]
fn concurrent_senders() {
    let mut region = MappedLayout::new(64 * 1024, 256).unwrap();
    for i in 0u16..200 {
        let sender = conf().sender(Some(&region)).unwrap();
        sender.send(&mut region, i.to_string().as_bytes());
    }
    let frames = close_channel(&mut region).unwrap();
    let mut iter = frames.iter();
    let mut received: Vec<u16> = Vec::new();
    while let Some(frame) = iter.next(&region) {
        received.push(String::from_utf8(frame).unwrap().parse().unwrap());
    }
    received.sort_unstable();
    assert_eq!(received, (0u16..200).collect::<Vec<u16>>());
}
