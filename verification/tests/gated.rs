use fspy::channel::gate::EnterError;
use fspy::channel::gated::WriteEncodedError;
use fspy::channel::gated::{ClaimError, GatedRegion, GatedShmWriter, GATE_REGION_SIZE};

fn write_frame(writer: &GatedShmWriter, region: &mut GatedRegion, bytes: &[u8]) -> Result<(), ClaimError> {
    let frame = writer.claim_frame(region, bytes.len())?;
    frame.write(region, bytes);
    frame.finish(region);
    Ok(())
}

#[test]
fn write_close_read_roundtrip() {
    let (mut region, writer, receiver) = GatedRegion::new(1024);

    write_frame(&writer, &mut region, b"hello").unwrap();
    write_frame(&writer, &mut region, b"world").unwrap();

    let reader = receiver.close(&mut region).unwrap();
    let frames = reader.iter_frames();
    assert_eq!(frames, vec![b"hello".to_vec(), b"world".to_vec()]);
}

#[test]
fn close_with_a_live_frame_reports_still_writing() {
    let (mut region, writer, receiver) = GatedRegion::new(1024);

    let frame = writer.claim_frame(&mut region, 4).unwrap();
    // `close` consumes the receiver and hands back a reader only on
    // success, so this error value is the end of the road for the read side.
    let error = receiver.close(&mut region).unwrap_err();

    assert_eq!(error.in_flight, 1);
    frame.finish(&mut region);
}

#[test]
fn claims_after_close_are_refused() {
    let (mut region, writer, receiver) = GatedRegion::new(1024);

    write_frame(&writer, &mut region, b"before").unwrap();
    let reader = receiver.close(&mut region).unwrap();

    assert!(matches!(write_frame(&writer, &mut region, b"after"), Err(ClaimError::Closed)));

    let frames = reader.iter_frames();
    assert_eq!(frames, vec![b"before".to_vec()]);
}

#[test]
fn a_full_arena_reports_capacity() {
    let (mut region, writer, receiver) = GatedRegion::new(GATE_REGION_SIZE + 64);

    while write_frame(&writer, &mut region, b"filler").is_ok() {}
    assert!(matches!(write_frame(&writer, &mut region, b"filler"), Err(ClaimError::Capacity)));

    // Whatever fitted before the arena filled up is still readable.
    let reader = receiver.close(&mut region).unwrap();
    assert!(reader.iter_frames().iter().all(|frame| frame == b"filler"));
}

#[test]
fn a_frame_too_large_for_the_header_is_refused() {
    let (mut region, writer, _receiver) = GatedRegion::new(1024);
    assert!(matches!(
        writer.claim_frame(&mut region, u32::MAX as usize + 1),
        Err(ClaimError::Capacity)
    ));
}

#[test]
fn a_partly_written_frame_reads_back_zero_filled() {
    let (mut region, writer, receiver) = GatedRegion::new(1024);
    let frame = writer.claim_frame(&mut region, 6).unwrap();
    frame.write(&mut region, b"ab");
    frame.finish(&mut region);
    let reader = receiver.close(&mut region).unwrap();
    assert_eq!(reader.iter_frames(), vec![vec![b'a', b'b', 0, 0, 0, 0]]);
}

#[test]
fn write_encoded_after_close_reports_closed_for_any_value() {
    let (mut region, writer, receiver) = GatedRegion::new(1024);
    let _frames = receiver.close(&mut region).unwrap();

    // A zero-sized encoding must still report the close, not its own size.
    assert_eq!(writer.write_encoded(&mut region, &[]), Err(WriteEncodedError::Claim(ClaimError::Closed)));
    assert_eq!(writer.write_encoded(&mut region, &7u32.to_le_bytes()), Err(WriteEncodedError::Claim(ClaimError::Closed)));
}

#[test]
fn write_encoded_roundtrips_through_the_gate() {
    let (mut region, writer, receiver) = GatedRegion::new(1024);

    writer.write_encoded(&mut region, &4242u32.to_le_bytes()).unwrap();
    assert_eq!(writer.write_encoded(&mut region, &[]), Err(WriteEncodedError::ZeroSizedFrame));

    let reader = receiver.close(&mut region).unwrap();
    let frame = reader.iter_frames().into_iter().next().unwrap();
    assert_eq!(u32::from_le_bytes(frame.try_into().unwrap()), 4242);
}

#[test]
fn gate_refusals_become_claim_errors() {
    assert_eq!(ClaimError::from(EnterError::Closed), ClaimError::Closed);
    assert_eq!(ClaimError::from(EnterError::Saturated), ClaimError::Capacity);
}
