use fspy::channel::shm_io::alloc_word::{
    AllocWord, ReserveError, CLOSED, HEADER_LEN, INCOMPLETE, MAX_MAPPING_LEN, MAX_PAYLOAD_LEN, SLOT_LEN,
};

const MAPPING_LEN: usize = 1024;

#[test]
fn zero_word_is_open_and_empty() {
    let word = AllocWord::from_bits(0);
    assert!(!word.is_closed());
    assert!(!word.is_incomplete());
    assert!(word.slot_count() == 0);
    assert!(word.reserved_payload_bytes() == 0);
    assert!(word.is_valid_for(HEADER_LEN));
}

#[test]
fn reserve_advances_both_frontiers() {
    let word = AllocWord::from_bits(0);
    let reservation = word.reserve(5, MAPPING_LEN).unwrap();
    assert!(reservation.slot_index == 0);
    assert!(reservation.payload_offset == MAPPING_LEN - 8);
    assert!(reservation.new_word.slot_count() == 1);
    assert!(reservation.new_word.reserved_payload_bytes() == 8);

    let second = reservation.new_word.reserve(9, MAPPING_LEN).unwrap();
    assert!(second.slot_index == 1);
    assert!(second.payload_offset == MAPPING_LEN - 8 - 16);
    assert!(second.new_word.slot_count() == 2);
    assert!(second.new_word.reserved_payload_bytes() == 24);
}

#[test]
fn reserve_rejects_closed() {
    let word = AllocWord::from_bits(CLOSED);
    assert!(word.reserve(1, MAPPING_LEN).unwrap_err() == ReserveError::Closed);
}

#[test]
fn reserve_preserves_incomplete() {
    let word = AllocWord::from_bits(INCOMPLETE);
    let reservation = word.reserve(1, MAPPING_LEN).unwrap();
    assert!(reservation.new_word.is_incomplete());
    assert!(!reservation.new_word.is_closed());
}

#[test]
fn reserve_rejects_oversized_payloads() {
    let word = AllocWord::from_bits(0);
    assert!(word.reserve(MAX_PAYLOAD_LEN + 1, usize::MAX).unwrap_err() == ReserveError::Capacity);
}

#[test]
fn reserve_stops_at_the_frontier_collision() {
    // 80 bytes fit the header, one slot, and one 8-byte payload span.
    let word = AllocWord::from_bits(0);
    let reservation = word.reserve(8, 80).unwrap();
    assert!(reservation.payload_offset == 72);
    assert!(reservation.new_word.reserve(1, 80).unwrap_err() == ReserveError::Capacity);
}

#[test]
fn reserve_handles_the_4_gib_mapping_edge() {
    let mapping_len = MAX_MAPPING_LEN as usize;
    let max_payload = mapping_len - HEADER_LEN - SLOT_LEN;
    // One frame cannot exceed MAX_PAYLOAD_LEN even if the mapping has room.
    assert!(AllocWord::from_bits(0).reserve(max_payload, mapping_len).unwrap_err() == ReserveError::Capacity);

    // Fill the payload region with maximal frames until the 32-bit
    // reserved-bytes field would have to exceed its width; the capacity
    // check must fail first.
    let mut word = AllocWord::from_bits(0);
    loop {
        match word.reserve(MAX_PAYLOAD_LEN, mapping_len) {
            Ok(reservation) => {
                assert!(reservation.new_word.is_valid_for(mapping_len));
                word = reservation.new_word;
            }
            Err(err) => {
                assert!(err == ReserveError::Capacity);
                break;
            }
        }
    }
    assert!(word.slot_count() == 1);
    // The remaining space still admits smaller frames.
    let reservation = word.reserve(1024, mapping_len).unwrap();
    assert!(reservation.new_word.is_valid_for(mapping_len));
}

#[test]
fn a_reservation_rounds_payloads_up_to_words() {
    let reservation = AllocWord::from_bits(0).reserve(1, 1024).unwrap();
    assert_eq!(reservation.new_word.reserved_payload_bytes(), 8);
    assert_eq!(reservation.new_word.bits(), (1u64 << 32) | 8);
}
