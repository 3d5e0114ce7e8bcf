//! Naming and sizing the shared memory that carries a channel.
//!
//! A macOS POSIX shared-memory name is `/fspy_` and 24 lowercase hex
//! digits: 10 random bytes, then the low 2 bytes of the exact size, which
//! Darwin's page-rounded `st_size` loses.
use vstd::prelude::*;

verus! {

/// Why a shared-memory name or size was refused.
#[derive(Debug, Clone, Copy, PartialEq, Eq, Structural)]
pub enum ShmError {
    /// A mapping of zero bytes.
    ZeroSize,
    /// A name that no creator produces.
    InvalidId,
    /// The object exists with a size other than the one asked for.
    SizeMismatch,
}

/// The random bytes in a name.
pub const NAME_RANDOM_BYTES: usize = 10;
/// The size bytes in a name.
pub const NAME_SIZE_BYTES: usize = 2;
/// Bytes of `/fspy_`.
pub const NAME_PREFIX_LEN: usize = 6;
/// Bytes of a whole name.
pub const NAME_LEN: usize = 30;
/// The size tag keeps sizes modulo this.
pub const SIZE_TAG_MODULUS: u64 = 0x1_0000;

/// Converts a backing file's size to a mapping length.
pub fn file_size_to_len(size: u64) -> (len: usize)
    requires
        size <= usize::MAX,
    ensures
        len == size,
{
    size as usize
}

/// A mapping size as the file APIs take it: nonzero.
pub fn valid_size(size: usize) -> (valid: Result<u64, ShmError>)
    ensures
        valid == (if size == 0 {
            Err(ShmError::ZeroSize)
        } else {
            Ok(size as u64)
        }),
{
    if size == 0 {
        Err(ShmError::ZeroSize)
    } else {
        Ok(size as u64)
    }
}

/// `/fspy_` in ASCII.
pub open spec fn name_prefix() -> Seq<u8> {
    seq![0x2fu8, 0x66u8, 0x73u8, 0x70u8, 0x79u8, 0x5fu8]
}

/// The lowercase hex digit of `nibble`.
pub open spec fn hex_digit(nibble: int) -> u8 {
    if nibble < 10 {
        (0x30 + nibble) as u8
    } else {
        (0x61 + nibble - 10) as u8
    }
}

/// The two lowercase hex digits of `byte`.
pub open spec fn hex_byte(byte: u8) -> Seq<u8> {
    seq![hex_digit(byte as int / 16), hex_digit(byte as int % 16)]
}

/// The lowercase hex digits of `bytes`, two per byte.
pub open spec fn hex_of(bytes: Seq<u8>) -> Seq<u8>
    decreases bytes.len(),
{
    if bytes.len() == 0 {
        Seq::empty()
    } else {
        hex_of(bytes.drop_last()) + hex_byte(bytes.last())
    }
}

/// Whether `byte` is a lowercase hex digit.
pub open spec fn is_hex_digit(byte: u8) -> bool {
    (0x30 <= byte <= 0x39) || (0x61 <= byte <= 0x66)
}

/// The low two bytes of `size`, most significant first.
pub open spec fn size_tag(size: int) -> Seq<u8> {
    seq![((size / 256) % 256) as u8, (size % 256) as u8]
}

/// The name made of `random` (its first ten bytes) and the size tag of
/// `size`.
pub open spec fn spec_new_id(random: Seq<u8>, size: int) -> Seq<u8> {
    name_prefix() + hex_of(random.subrange(0, 10)) + hex_of(size_tag(size))
}

fn hex_digit_exec(nibble: u8) -> (digit: u8)
    requires
        nibble < 16,
    ensures
        digit == hex_digit(nibble as int),
{
    if nibble < 10 {
        0x30 + nibble
    } else {
        0x61 + nibble - 10
    }
}

/// Appends the two lowercase hex digits of `byte`.
pub fn push_hex_byte(output: &mut Vec<u8>, byte: u8)
    ensures
        final(output)@ == old(output)@ + hex_byte(byte),
{
    output.push(hex_digit_exec(byte / 16));
    output.push(hex_digit_exec(byte % 16));
    assert(output@ =~= old(output)@ + hex_byte(byte));
}

/// Whether `bytes` are a version 4 (random) UUID of the RFC 4122 variant:
/// version nibble 4 in byte 6, variant bits `10` on top of byte 8.
pub open spec fn uuid_v4_bytes(bytes: Seq<u8>) -> bool {
    &&& bytes.len() == 16
    &&& bytes[6] / 16 == 4
    &&& bytes[8] / 64 == 2
}

/// `uuid::Uuid::new_v4`: 16 bytes from the system's random source, as
/// `as_bytes` gives them, with the version and variant bits set; the other
/// bits are random and nothing is promised of them.
#[verifier::external_body]
pub(crate) fn random_uuid_bytes() -> (bytes: [u8; 16])
    ensures
        uuid_v4_bytes(bytes@),
{
    *uuid::Uuid::new_v4().as_bytes()
}

/// The name for a mapping of `size` bytes with the random bytes `random`.
pub fn id_from(random: &[u8], size: usize) -> (id: Vec<u8>)
    requires
        random@.len() >= NAME_RANDOM_BYTES,
    ensures
        id@ == spec_new_id(random@, size as int),
{
    let mut id: Vec<u8> = Vec::new();
    id.push(0x2f);
    id.push(0x66);
    id.push(0x73);
    id.push(0x70);
    id.push(0x79);
    id.push(0x5f);
    assert(id@ =~= name_prefix());
    let mut i: usize = 0;
    while i < NAME_RANDOM_BYTES
        invariant
            random@.len() >= NAME_RANDOM_BYTES,
            0 <= i <= NAME_RANDOM_BYTES,
            id@ == name_prefix() + hex_of(random@.subrange(0, i as int)),
        decreases NAME_RANDOM_BYTES - i,
    {
        push_hex_byte(&mut id, random[i]);
        assert(random@.subrange(0, i + 1).drop_last() =~= random@.subrange(0, i as int));
        i = i + 1;
    }
    let high: u8 = ((size / 256) % 256) as u8;
    let low: u8 = (size % 256) as u8;
    push_hex_byte(&mut id, high);
    push_hex_byte(&mut id, low);
    proof {
        let tag = size_tag(size as int);
        assert(tag.drop_last() =~= seq![high]);
        assert(seq![high].drop_last() =~= Seq::<u8>::empty());
        assert(hex_of(tag) == hex_of(seq![high]) + hex_byte(low));
        assert(hex_of(Seq::<u8>::empty()) == Seq::<u8>::empty());
        assert(hex_of(seq![high]) == hex_of(seq![high].drop_last()) + hex_byte(seq![high].last()));
        assert(hex_of(seq![high]) =~= hex_byte(high));
        assert(id@ =~= spec_new_id(random@, size as int));
    }
    id
}

/// A fresh random name for a mapping of `size` bytes.
pub fn new_id(size: usize) -> (id: Vec<u8>)
    ensures
        exists|random: Seq<u8>| uuid_v4_bytes(random) && id@ == spec_new_id(random, size as int),
{
    let random = random_uuid_bytes();
    let id = id_from(&random, size);
    assert(random@.len() == 16);
    id
}

/// Whether `id` is a name some creator produces.
pub open spec fn spec_valid_id(id: Seq<u8>) -> bool {
    &&& id.len() == NAME_LEN
    &&& id.subrange(0, 6) == name_prefix()
    &&& forall|i: int| 6 <= i < id.len() ==> is_hex_digit(#[trigger] id[i])
}

/// Accepts exactly the names that creators produce.
pub fn validate_id(id: &[u8]) -> (valid: Result<(), ShmError>)
    ensures
        valid == (if spec_valid_id(id@) {
            Ok(())
        } else {
            Err(ShmError::InvalidId)
        }),
{
    if id.len() != NAME_LEN {
        return Err(ShmError::InvalidId);
    }
    if !(id[0] == 0x2f && id[1] == 0x66 && id[2] == 0x73 && id[3] == 0x70 && id[4] == 0x79 && id[5] == 0x5f) {
        proof {
            if id@.subrange(0, 6) == name_prefix() {
                assert(id@[0] == id@.subrange(0, 6)[0]);
                assert(id@[1] == id@.subrange(0, 6)[1]);
                assert(id@[2] == id@.subrange(0, 6)[2]);
                assert(id@[3] == id@.subrange(0, 6)[3]);
                assert(id@[4] == id@.subrange(0, 6)[4]);
                assert(id@[5] == id@.subrange(0, 6)[5]);
            }
        }
        return Err(ShmError::InvalidId);
    }
    assert(id@.subrange(0, 6) =~= name_prefix());
    let mut i: usize = 6;
    while i < NAME_LEN
        invariant
            id@.len() == NAME_LEN,
            6 <= i <= NAME_LEN,
            forall|k: int| 6 <= k < i ==> is_hex_digit(#[trigger] id@[k]),
        decreases NAME_LEN - i,
    {
        let byte: u8 = id[i];
        if !((0x30 <= byte && byte <= 0x39) || (0x61 <= byte && byte <= 0x66)) {
            assert(!is_hex_digit(id@[i as int]));
            return Err(ShmError::InvalidId);
        }
        i = i + 1;
    }
    Ok(())
}

/// Whether the last four digits of a name are the size tag of `size`.
pub open spec fn spec_size_tag_matches(id: Seq<u8>, size: int) -> bool {
    id.subrange(NAME_LEN - 4, NAME_LEN as int) == hex_of(size_tag(size))
}

/// Whether a name carries the size tag of `size`.
pub fn size_tag_matches(id: &[u8], size: usize) -> (matches: bool)
    requires
        id@.len() >= NAME_LEN,
    ensures
        matches == spec_size_tag_matches(id@, size as int),
{
    let mut expected: Vec<u8> = Vec::new();
    push_hex_byte(&mut expected, ((size / 256) % 256) as u8);
    push_hex_byte(&mut expected, (size % 256) as u8);
    proof {
        let tag = size_tag(size as int);
        assert(tag.drop_last() =~= seq![tag[0]]);
        assert(seq![tag[0]].drop_last() =~= Seq::<u8>::empty());
        assert(hex_of(Seq::<u8>::empty()) == Seq::<u8>::empty());
        assert(hex_of(seq![tag[0]]) == hex_of(seq![tag[0]].drop_last()) + hex_byte(seq![tag[0]].last()));
        assert(hex_of(seq![tag[0]]) =~= hex_byte(tag[0]));
        assert(expected@ =~= hex_of(tag));
    }
    let found = id[26] == expected[0] && id[27] == expected[1] && id[28] == expected[2] && id[29] == expected[3];
    assert(found == (id@.subrange(26, 30) =~= expected@));
    found
}

/// A name is valid and carries the size tag of the size it was made for.
pub proof fn lemma_new_id_is_valid(random: Seq<u8>, size: int)
    requires
        random.len() >= 10,
    ensures
        spec_valid_id(spec_new_id(random, size)),
        spec_size_tag_matches(spec_new_id(random, size), size),
{
    let id = spec_new_id(random, size);
    lemma_hex_of(random.subrange(0, 10));
    lemma_hex_of(size_tag(size));
    assert(id.subrange(0, 6) =~= name_prefix());
    assert(id.subrange(26, 30) =~= hex_of(size_tag(size)));
    assert forall|i: int| 6 <= i < id.len() implies is_hex_digit(#[trigger] id[i]) by {
        if i < 26 {
            assert(id[i] == hex_of(random.subrange(0, 10))[i - 6]);
        } else {
            assert(id[i] == hex_of(size_tag(size))[i - 26]);
        }
    }
}

/// Hex digits are two per byte, and all digits.
proof fn lemma_hex_of(bytes: Seq<u8>)
    ensures
        hex_of(bytes).len() == 2 * bytes.len(),
        forall|i: int| 0 <= i < hex_of(bytes).len() ==> is_hex_digit(#[trigger] hex_of(bytes)[i]),
    decreases bytes.len(),
{
    if bytes.len() > 0 {
        lemma_hex_of(bytes.drop_last());
        let rest = hex_of(bytes.drop_last());
        let all = hex_of(bytes);
        assert forall|i: int| 0 <= i < all.len() implies is_hex_digit(#[trigger] all[i]) by {
            if i < rest.len() {
                assert(all[i] == rest[i]);
            }
        }
    }
}

/// The size Darwin reports for an object of `size` bytes on pages of
/// `page_size` bytes: `size` rounded up to a page, when pages are small
/// enough for the size tag to tell sizes apart.
pub open spec fn spec_rounded_size(size: int, page_size: int) -> Option<int> {
    if page_size == 0 || page_size > SIZE_TAG_MODULUS || (size % page_size != 0 && size + page_size - size
        % page_size > u64::MAX) {
        None
    } else if size % page_size == 0 {
        Some(size)
    } else {
        Some(size + page_size - size % page_size)
    }
}

pub fn rounded_size(size: u64, page_size: u64) -> (rounded: Option<u64>)
    ensures
        match rounded {
            None => spec_rounded_size(size as int, page_size as int) is None,
            Some(r) => spec_rounded_size(size as int, page_size as int) == Some(r as int),
        },
{
    if page_size == 0 || page_size > SIZE_TAG_MODULUS {
        return None;
    }
    let remainder: u64 = size % page_size;
    if remainder == 0 {
        Some(size)
    } else {
        size.checked_add(page_size - remainder)
    }
}

/// For every page size the size tag allows, a rounded size is the least
/// multiple of the page size not below `size`; there is none only when
/// `size` is not a multiple and the next multiple passes `u64::MAX`.
pub proof fn lemma_rounded_size_is_next_page_multiple(size: u64, page_size: u64)
    requires
        1 <= page_size <= SIZE_TAG_MODULUS,
    ensures
        match spec_rounded_size(size as int, page_size as int) {
            Some(r) => r % (page_size as int) == 0 && size <= r < size + page_size,
            None => size % page_size != 0 && size + page_size > u64::MAX,
        },
        size + page_size <= u64::MAX ==> spec_rounded_size(size as int, page_size as int) is Some,
        size % page_size == 0 ==> spec_rounded_size(size as int, page_size as int) == Some(size as int),
{
    let s = size as int;
    let p = page_size as int;
    let q = s / p;
    let rem = s % p;
    vstd::arithmetic::div_mod::lemma_fundamental_div_mod(s, p);
    assert(0 <= rem < p);
    if rem != 0 {
        let r = s + p - rem;
        assert(r == (q + 1) * p + 0) by (nonlinear_arith)
            requires
                s == p * q + rem,
                r == s + p - rem,
        ;
        vstd::arithmetic::div_mod::lemma_fundamental_div_mod_converse_mod(r, p, q + 1, 0);
    }
}

/// Whether an existing object named `id`, reported `actual_size` bytes
/// long (`None` when the size cannot be read), was made for `size`: its
/// name carries the size tag, and it is `size` bytes or `size` rounded up
/// to a page.
pub fn opened_size_matches(id: &[u8], size: usize, actual_size: Option<u64>, page_size: u64) -> (matches: bool)
    requires
        id@.len() >= NAME_LEN,
    ensures
        matches == (spec_size_tag_matches(id@, size as int) && match actual_size {
            None => false,
            Some(actual) => actual == size || Some(actual as int) == spec_rounded_size(size as int, page_size as int),
        }),
{
    if !size_tag_matches(id, size) {
        return false;
    }
    match actual_size {
        None => false,
        Some(actual) => {
            if actual == size as u64 {
                true
            } else {
                match rounded_size(size as u64, page_size) {
                    Some(rounded) => actual == rounded,
                    None => false,
                }
            }
        },
    }
}

/// Who holds a mapping's name: its creator, who removes the name when
/// done, or a process that opened it.
#[derive(Debug)]
pub enum ShmName {
    Owner(Vec<u8>),
    Opened(Vec<u8>),
}

impl ShmName {
    /// The name itself.
    pub fn as_str(&self) -> (name: &[u8])
        ensures
            name@ == (match self {
                ShmName::Owner(id) => id@,
                ShmName::Opened(id) => id@,
            }),
    {
        match self {
            ShmName::Owner(id) => id.as_slice(),
            ShmName::Opened(id) => id.as_slice(),
        }
    }
}

} // verus!
