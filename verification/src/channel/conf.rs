//! What both ends of a channel agree on: where its shared memory lives,
//! and what the receiver reports when a sender lost a record.
use vstd::prelude::*;

use super::shm_io::{claim_admitted, claims_after, MappedLayout, SealError, ShmReader, ShmWriter};
use crate::channel::gate::{word_closed, word_count, COUNT_MASK};
use crate::shm::{hex_of, push_hex_byte, random_uuid_bytes, uuid_v4_bytes};

verus! {

/// Descriptor slots in every channel, one per record. Fixed so that both
/// ends agree on it without carrying it between them.
pub const SLOTS: usize = 0x400_0000;

/// Serializable configuration to create channel senders: the path of the
/// shared memory's backing file.
#[derive(Debug, Clone, PartialEq, Eq)]
pub struct ChannelConf {
    pub shm_id: Vec<u8>,
}

/// A sender could not record something (the region filled up, or a record
/// outgrew a frame), so the receiver has no complete set of records.
#[derive(Debug, Clone, Copy, PartialEq, Eq, Structural)]
pub struct RecordsLost;

/// `vite-task-fspy-` in ASCII: the prefix of backing file names, which sit
/// directly in the system temporary directory.
pub open spec fn backing_prefix() -> Seq<u8> {
    seq![
        0x76u8, 0x69u8, 0x74u8, 0x65u8, 0x2du8, 0x74u8, 0x61u8, 0x73u8, 0x6bu8, 0x2du8, 0x66u8, 0x73u8, 0x70u8, 0x79u8,
        0x2du8,
    ]
}

/// `.shm` in ASCII.
pub open spec fn backing_suffix() -> Seq<u8> {
    seq![0x2eu8, 0x73u8, 0x68u8, 0x6du8]
}

/// The backing file name made from the 16 bytes of a UUID: the prefix, the
/// UUID's 32 lowercase hex digits, and `.shm`.
pub open spec fn spec_backing_file_name(uuid: Seq<u8>) -> Seq<u8> {
    backing_prefix() + hex_of(uuid) + backing_suffix()
}

fn push_all(output: &mut Vec<u8>, bytes: &[u8])
    ensures
        final(output)@ == old(output)@ + bytes@,
{
    let mut copy = vstd::slice::slice_to_vec(bytes);
    output.append(&mut copy);
}

/// The backing file name for the UUID `uuid`.
pub fn backing_file_name_from(uuid: &[u8]) -> (name: Vec<u8>)
    ensures
        name@ == spec_backing_file_name(uuid@),
{
    let mut name: Vec<u8> = Vec::new();
    push_all(&mut name, &[0x76, 0x69, 0x74, 0x65, 0x2d, 0x74, 0x61, 0x73, 0x6b, 0x2d, 0x66, 0x73, 0x70, 0x79, 0x2d]);
    assert(name@ =~= backing_prefix());
    let mut i: usize = 0;
    while i < uuid.len()
        invariant
            0 <= i <= uuid@.len(),
            name@ == backing_prefix() + hex_of(uuid@.subrange(0, i as int)),
        decreases uuid@.len() - i,
    {
        push_hex_byte(&mut name, uuid[i]);
        assert(uuid@.subrange(0, i + 1).drop_last() =~= uuid@.subrange(0, i as int));
        i = i + 1;
    }
    assert(uuid@.subrange(0, uuid@.len() as int) =~= uuid@);
    push_all(&mut name, &[0x2e, 0x73, 0x68, 0x6d]);
    assert(name@ =~= spec_backing_file_name(uuid@));
    name
}

/// A fresh backing file name, from a random UUID.
pub fn backing_file_name() -> (name: Vec<u8>)
    ensures
        exists|uuid: Seq<u8>| uuid_v4_bytes(uuid) && name@ == spec_backing_file_name(uuid),
{
    let uuid = random_uuid_bytes();
    let name = backing_file_name_from(&uuid);
    assert(uuid@.len() == 16);
    name
}

/// The sending end of a channel, attached to its region.
#[derive(Debug)]
pub struct Sender {
    writer: ShmWriter,
}

impl ChannelConf {
    /// Creates a sender from the region the caller found at this
    /// configuration's path (`None` when the backing file was gone), or
    /// `None` when the channel is already over: the receiver removed the
    /// file, or sealed the region and has not removed it yet. Either way
    /// whatever the caller does next happens past the receiver's boundary,
    /// so recording nothing loses nothing.
    pub fn sender(&self, region: Option<&MappedLayout>) -> (sender: Option<Sender>)
        ensures
            sender is Some <==> (region matches Some(region) && !word_closed(region.spec_claims())),
    {
        match region {
            None => None,
            Some(region) => {
                let writer = ShmWriter::new(region);
                if writer.is_closed(region) {
                    None
                } else {
                    Some(Sender { writer })
                }
            },
        }
    }
}

impl Sender {
    /// Writes one serialized record into a committed frame. A claim the
    /// channel refuses is skipped: the channel has closed, so the record
    /// belongs past the receiver's boundary, or the region is full and the
    /// failed claim already set the CLOSED gate to say so. A record is never
    /// empty.
    pub fn send(&self, region: &mut MappedLayout, record: &[u8])
        requires
            old(region).wf(),
            record@.len() >= 1,
            record@.len() <= u32::MAX ==> old(region).spec_payload_reserved() + record@.len() <= u64::MAX,
            word_count(old(region).spec_claims()) < COUNT_MASK,
        ensures
            final(region).wf(),
            final(region).frames() == (if claim_admitted(
                old(region).spec_claims(),
                old(region).spec_payload_reserved(),
                old(region).spec_payload_len(),
                old(region).spec_table().len() as int,
                record@.len() as int,
            ) {
                old(region).frames().push(Some(record@))
            } else {
                old(region).frames()
            }),
            final(region).spec_claims() == claims_after(
                old(region).spec_claims(),
                old(region).spec_payload_reserved(),
                old(region).spec_payload_len(),
                old(region).spec_table().len() as int,
                record@.len() as int,
            ),
    {
        let _ = self.writer.try_write_frame(region, record);
    }
}

/// Closes the channel and hands back its records, or `RecordsLost` when a
/// sender had already closed it because it lost a record.
pub fn close_channel(region: &mut MappedLayout) -> (reader: Result<ShmReader, RecordsLost>)
    requires
        old(region).wf(),
    ensures
        final(region).wf(),
        final(region).frames() == old(region).frames(),
        match reader {
            Ok(reader) => !word_closed(old(region).spec_claims()) && reader.admitted() == old(region).frames().len(),
            Err(_) => word_closed(old(region).spec_claims()),
        },
{
    match ShmReader::seal(region) {
        Ok(reader) => Ok(reader),
        Err(_) => Err(RecordsLost),
    }
}

} // verus!
