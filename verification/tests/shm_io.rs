use fspy::channel::shm_io::{ClaimError, MappedLayout, SealError, ShmReader, ShmWriter};

/// The table length most tests use; regions add payload room on top.
const S: usize = 15;

fn region(len: usize) -> MappedLayout {
    MappedLayout::new(len, S).unwrap()
}

fn collect_frames(region: &mut MappedLayout) -> ShmReader {
    ShmReader::seal(region).unwrap()
}

/// Drains the reader's iterator over the region as it reads now.
fn frames_of(reader: &ShmReader, region: &MappedLayout) -> Vec<Vec<u8>> {
    let mut iter = reader.iter();
    let mut frames = Vec::new();
    while let Some(frame) = iter.next(region) {
        frames.push(frame);
    }
    frames
}

#[test]
fn single_thread_basic() {
    let mut shm = region(1024);
    let writer = ShmWriter::new(&shm);
    assert!(writer.try_write_frame(&mut shm, b"hello"));
    assert!(writer.try_write_frame(&mut shm, b"world"));
    assert!(writer.try_write_frame(&mut shm, b"this is a test"));

    let frames = collect_frames(&mut shm);
    let frames = frames_of(&frames, &shm);
    assert_eq!(frames, vec![b"hello".to_vec(), b"world".to_vec(), b"this is a test".to_vec()]);
}

#[test]
fn zero_sized_frames_are_rejected() {
    let mut shm = region(1024);
    let writer = ShmWriter::new(&shm);
    assert!(writer.try_write_frame(&mut shm, b"hello"));
    assert!(!writer.try_write_frame(&mut shm, b""));

    let frames = collect_frames(&mut shm);
    assert_eq!(frames_of(&frames, &shm), vec![b"hello".to_vec()]);
}

#[test]
fn frame_spanning_many_u64s_roundtrips_exactly() {
    let mut shm = region(1024);
    let writer = ShmWriter::new(&shm);
    let pattern: Vec<u8> = (0..=99).collect();
    assert!(writer.try_write_frame(&mut shm, &pattern));

    let frames = collect_frames(&mut shm);
    assert_eq!(frames_of(&frames, &shm), vec![pattern]);
}

#[test]
fn full_region_fails_the_seal() {
    let mut shm = region(1024);
    let writer = ShmWriter::new(&shm);

    assert!(writer.try_write_frame(&mut shm, b"test"));

    // Larger than the payload region: the claim fails and sets the CLOSED bit,
    // which is what tells the receiver a record was lost.
    assert!(!writer.try_write_frame(&mut shm, &vec![0u8; 2048]));
    // The refused reservation stays counted: four bytes of "test" plus the
    // 2048 that did not fit.
    assert!(shm.payload_reserved() == 4 + 2048);

    let sealed = ShmReader::seal(&mut shm);
    assert!(sealed.unwrap_err() == SealError::Closed);
}

#[test]
fn oversized_frame_is_refused_and_fails_the_seal() {
    let mut shm = region(1024);
    let writer = ShmWriter::new(&shm);
    assert!(writer.try_write_frame(&mut shm, b"kept"));

    // No descriptor can describe a frame this long: the claim is refused
    // and sets the CLOSED bit, which shuts out later claims.
    let oversized = u32::MAX as usize + 1;
    assert!(matches!(writer.claim_frame(&mut shm, oversized), Err(ClaimError::Capacity)));
    assert!(writer.is_closed(&shm));
    assert!(!writer.try_write_frame(&mut shm, b"refused"));

    let sealed = ShmReader::seal(&mut shm);
    assert!(sealed.unwrap_err() == SealError::Closed);
}

#[test]
fn crash_after_claim_is_skipped() {
    let mut shm = region(1024);
    let writer = ShmWriter::new(&shm);
    assert!(writer.try_write_frame(&mut shm, b"foo"));

    // A crash right after claiming and an abandoned frame leave the
    // identical state: an unfinished slot.
    let _ = writer.claim_frame(&mut shm, 5).unwrap();

    assert!(writer.try_write_frame(&mut shm, b"bar"));

    let frames = collect_frames(&mut shm);
    assert_eq!(frames_of(&frames, &shm), vec![b"foo".to_vec(), b"bar".to_vec()]);
}

#[test]
fn crash_during_partial_write_is_skipped() {
    let mut shm = region(1024);
    let writer = ShmWriter::new(&shm);
    assert!(writer.try_write_frame(&mut shm, b"foo"));

    // Simulate a crash during writing: the frame is abandoned half-filled.
    {
        let frame = writer.claim_frame(&mut shm, 5).unwrap();
        frame.write(&mut shm, b"wor");
    }

    assert!(writer.try_write_frame(&mut shm, b"bar"));

    let frames = collect_frames(&mut shm);
    assert_eq!(frames_of(&frames, &shm), vec![b"foo".to_vec(), b"bar".to_vec()]);
}

#[test]
fn consecutive_crashes_do_not_hide_later_frames() {
    let mut shm = region(1024);
    let writer = ShmWriter::new(&shm);

    assert!(writer.try_write_frame(&mut shm, b"foo"));

    // Crash after claim (slot stays zero, payload untouched).
    let _ = writer.claim_frame(&mut shm, 5).unwrap();

    // Crash mid-write (slot stays zero, payload partially filled).
    {
        let frame = writer.claim_frame(&mut shm, 7).unwrap();
        frame.write(&mut shm, b"wor");
    }

    assert!(writer.try_write_frame(&mut shm, b"bar"));

    let frames = collect_frames(&mut shm);
    assert_eq!(frames_of(&frames, &shm), vec![b"foo".to_vec(), b"bar".to_vec()]);
}

#[test]
fn abandoned_frame_is_ignored() {
    let mut shm = region(1024);
    let writer = ShmWriter::new(&shm);
    assert!(writer.try_write_frame(&mut shm, b"foo"));

    // Dropping an unfinished frame abandons it: the receiver ignores the
    // slot exactly as if the writer had died there.
    let _ = writer.claim_frame(&mut shm, 5).unwrap();

    let frames = collect_frames(&mut shm);
    assert_eq!(frames_of(&frames, &shm), vec![b"foo".to_vec()]);
}

#[test]
fn slot_capacity_failure_fails_the_seal() {
    // A 15-slot table: the 16th claim must fail on the slot side while
    // payload space remains.
    let mut shm = region(1024);
    let writer = ShmWriter::new(&shm);
    for _ in 0..15 {
        assert!(writer.try_write_frame(&mut shm, b"x"));
    }
    assert!(writer.claim_frame(&mut shm, 1).unwrap_err() == ClaimError::Capacity);
    // The refused claim leaves its increment behind, and sets the CLOSED bit:
    // sixteen claims counted, fifteen of them in slots.
    assert!(shm.claims() == (1 << 63) | 16);

    let sealed = ShmReader::seal(&mut shm);
    assert!(sealed.unwrap_err() == SealError::Closed);
}

#[test]
fn claims_after_seal_are_gated_without_poisoning() {
    let mut shm = region(1024);
    let writer = ShmWriter::new(&shm);
    assert!(writer.try_write_frame(&mut shm, b"foo"));

    assert!(!writer.is_closed(&shm));
    let frames = collect_frames(&mut shm);
    assert_eq!(frames_of(&frames, &shm), vec![b"foo".to_vec()]);

    // The seal set the CLOSED bit: a late writer's claim fails cleanly.
    assert!(writer.is_closed(&shm));
    let before = shm.claims();
    for _ in 0..100 {
        assert!(writer.claim_frame(&mut shm, 5).unwrap_err() == ClaimError::Closed);
    }
    // Each refusal still counted its claim, and the CLOSED bit stayed set.
    assert!(shm.claims() == before + 100);
}

#[test]
fn commit_after_seal_shows_up_in_a_later_read() {
    let mut shm = region(1024);
    let writer = ShmWriter::new(&shm);

    let frame = writer.claim_frame(&mut shm, 5).unwrap();
    frame.write(&mut shm, b"late!");

    // The receiver seals while the frame is still unfinished: nothing to
    // show yet, and nothing lost either.
    let frames = collect_frames(&mut shm);
    assert!(frames_of(&frames, &shm).is_empty());

    // The reader reads the table when asked, so a commit that lands after
    // the seal shows up in the very same reader.
    frame.finish(&mut shm);
    assert!(frames_of(&frames, &shm).len() == 1);

    // A second seal fails: the first one set the CLOSED bit.
    let sealed = ShmReader::seal(&mut shm);
    assert!(sealed.unwrap_err() == SealError::Closed);
}

#[test]
fn meta_is_the_counters_then_the_table() {
    let shm = region(1024);
    assert_eq!(shm.table().len(), S);
    assert_eq!(shm.payload_len() as usize, 1024 - (2 + S) * 8);
}

#[test]
fn a_region_too_small_for_the_table_is_refused() {
    assert!(MappedLayout::new(8, S).is_none());
    assert!(MappedLayout::new(16 + 8 * S, S).is_some());
}

#[test]
fn a_lost_record_closes_the_channel() {
    let mut shm = region(1024);
    let writer = ShmWriter::new(&shm);
    assert!(writer.try_write_frame(&mut shm, b"kept"));
    writer.report_lost_record(&mut shm);
    assert!(writer.is_closed(&shm));
    assert!(ShmReader::seal(&mut shm).unwrap_err() == SealError::Closed);
}

#[test]
fn an_iterator_reads_each_slot_when_it_reaches_it() {
    let mut shm = region(1024);
    let writer = ShmWriter::new(&shm);
    assert!(writer.try_write_frame(&mut shm, b"first"));
    let late = writer.claim_frame(&mut shm, 4).unwrap();
    late.write(&mut shm, b"late");

    let frames = collect_frames(&mut shm);
    let mut iter = frames.iter();
    assert_eq!(iter.next(&shm), Some(b"first".to_vec()));
    // The second slot was unfinished at the seal; its commit lands before
    // the iterator reaches it.
    late.finish(&mut shm);
    assert_eq!(iter.next(&shm), Some(b"late".to_vec()));
    assert_eq!(iter.next(&shm), None);
    assert_eq!(iter.next(&shm), None);
}
