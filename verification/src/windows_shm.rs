//! Identifiers of Windows shared memory: a named file mapping backed by a
//! file, both named after one random UUID.
//!
//! The mapping name is `Local\vite-task-fspy-` and the UUID in canonical
//! form (lowercase, hyphenated); the identifier is
//! `fspy-win32-v1.<path>.<name>`, the backing path's UTF-16 code units (as
//! little-endian bytes) and the mapping name each in unpadded URL-safe
//! base64. Decoding accepts only what encoding produces.
//!
//! Whether the backing path is absolute and names `<uuid>.shm` is a
//! question for the platform's path rules; the caller answers it.
use vstd::prelude::*;
use vstd::slice::*;

use crate::ipc::native_str::{lemma_wide_roundtrip, units_of, wide_bytes, NativeStr};
use crate::shm::{hex_byte, hex_of, push_hex_byte};

verus! {

/// `.`, which separates the parts of an identifier.
pub const DOT: u8 = 0x2e;
/// `-`.
pub const HYPHEN: u8 = 0x2d;

/// An identifier or mapping name that no creator produces.
#[derive(Debug, Clone, Copy, PartialEq, Eq, Structural)]
pub struct InvalidId;

/// `fspy-win32-v1` in ASCII: the identifier format's version tag.
pub open spec fn id_prefix() -> Seq<u8> {
    seq![0x66u8, 0x73u8, 0x70u8, 0x79u8, 0x2du8, 0x77u8, 0x69u8, 0x6eu8, 0x33u8, 0x32u8, 0x2du8, 0x76u8, 0x31u8]
}

/// `Local\vite-task-fspy-` in ASCII: what every mapping name starts with.
pub open spec fn mapping_name_prefix() -> Seq<u8> {
    seq![
        0x4cu8, 0x6fu8, 0x63u8, 0x61u8, 0x6cu8, 0x5cu8, 0x76u8, 0x69u8, 0x74u8, 0x65u8, 0x2du8, 0x74u8, 0x61u8,
        0x73u8, 0x6bu8, 0x2du8, 0x66u8, 0x73u8, 0x70u8, 0x79u8, 0x2du8,
    ]
}

/// The canonical text of the UUID `bytes`: lowercase hex in groups of
/// 8, 4, 4, 4 and 12 digits, joined by hyphens.
pub open spec fn hyphenated(bytes: Seq<u8>) -> Seq<u8> {
    hex_of(bytes.subrange(0, 4)) + seq![HYPHEN] + hex_of(bytes.subrange(4, 6)) + seq![HYPHEN] + hex_of(
        bytes.subrange(6, 8),
    ) + seq![HYPHEN] + hex_of(bytes.subrange(8, 10)) + seq![HYPHEN] + hex_of(bytes.subrange(10, 16))
}

/// What `uuid::Uuid::try_parse_ascii` makes of `text`: the UUID's bytes,
/// or `None` when it is refused.
pub uninterp spec fn uuid_parsed(text: Seq<u8>) -> Option<Seq<u8>>;

/// The unpadded URL-safe base64 encoding of `bytes`.
pub uninterp spec fn base64_url_no_pad(bytes: Seq<u8>) -> Seq<u8>;

/// What unpadded URL-safe base64 decoding makes of `encoded`: the bytes,
/// or `None` when it is refused.
pub uninterp spec fn base64_url_no_pad_decoded(encoded: Seq<u8>) -> Option<Seq<u8>>;

/// Parses a UUID in any of the forms `uuid` accepts
/// (`Uuid::try_parse_ascii`, the parser behind `Uuid::parse_str`). The
/// result is what `uuid_parsed` names.
#[verifier::external_body]
fn parse_uuid(text: &[u8]) -> (bytes: Option<[u8; 16]>)
    ensures
        match bytes {
            Some(bytes) => uuid_parsed(text@) == Some(bytes@),
            None => uuid_parsed(text@) is None,
        },
{
    uuid::Uuid::try_parse_ascii(text).ok().map(|uuid| *uuid.as_bytes())
}

/// Encodes `bytes` with base64's `URL_SAFE_NO_PAD` engine
/// (`Engine::encode`). Its result is named `base64_url_no_pad`; it is
/// made of the URL-safe alphabet, which has no `.`; and decoding it with
/// the same engine gives `bytes` back, the round trip base64's
/// documentation shows. The length bound rules out the overflow of the
/// encoded length (`4 * (n / 3)` plus up to 3) on which `encode` panics.
#[verifier::external_body]
fn encode_base64_url(bytes: &[u8]) -> (encoded: Vec<u8>)
    requires
        bytes@.len() <= usize::MAX / 4 * 3 + 2,
    ensures
        encoded@ == base64_url_no_pad(bytes@),
        forall|i: int| 0 <= i < encoded@.len() ==> encoded@[i] != DOT,
        base64_url_no_pad_decoded(encoded@) == Some(bytes@),
{
    base64::Engine::encode(&base64::engine::general_purpose::URL_SAFE_NO_PAD, bytes).into_bytes()
}

/// Decodes `encoded` with base64's `URL_SAFE_NO_PAD` engine
/// (`Engine::decode`). The bytes on success, and the refusal otherwise, are
/// what `base64_url_no_pad_decoded` names. Four symbols make three bytes
/// and a final partial group at most two.
#[verifier::external_body]
fn decode_base64_url(encoded: &[u8]) -> (decoded: Result<Vec<u8>, base64::DecodeError>)
    ensures
        match decoded {
            Ok(bytes) => base64_url_no_pad_decoded(encoded@) == Some(bytes@) && bytes@.len() <= encoded@.len() / 4 * 3
                + 2,
            Err(_) => base64_url_no_pad_decoded(encoded@) is None,
        },
{
    base64::Engine::decode(&base64::engine::general_purpose::URL_SAFE_NO_PAD, encoded)
}

/// Appends the hex digits of `bytes[start..end]`.
fn push_hex_range(output: &mut Vec<u8>, bytes: &[u8], start: usize, end: usize)
    requires
        start <= end <= bytes@.len(),
    ensures
        final(output)@ == old(output)@ + hex_of(bytes@.subrange(start as int, end as int)),
{
    let mut k: usize = start;
    while k < end
        invariant
            start <= k <= end <= bytes@.len(),
            output@ == old(output)@ + hex_of(bytes@.subrange(start as int, k as int)),
        decreases end - k,
    {
        push_hex_byte(output, bytes[k]);
        proof {
            let next = bytes@.subrange(start as int, k + 1);
            assert(next.drop_last() =~= bytes@.subrange(start as int, k as int));
            assert(next.last() == bytes@[k as int]);
        }
        k = k + 1;
    }
    assert(output@ =~= old(output)@ + hex_of(bytes@.subrange(start as int, end as int)));
}

/// The canonical text of a UUID (`Hyphenated::encode_lower`), whose whole
/// behaviour `hyphenated` states.
pub fn hyphenated_text(bytes: &[u8; 16]) -> (text: Vec<u8>)
    ensures
        text@ == hyphenated(bytes@),
{
    let bytes = bytes.as_slice();
    let mut text: Vec<u8> = Vec::new();
    push_hex_range(&mut text, bytes, 0, 4);
    text.push(HYPHEN);
    push_hex_range(&mut text, bytes, 4, 6);
    text.push(HYPHEN);
    push_hex_range(&mut text, bytes, 6, 8);
    text.push(HYPHEN);
    push_hex_range(&mut text, bytes, 8, 10);
    text.push(HYPHEN);
    push_hex_range(&mut text, bytes, 10, 16);
    assert(text@ =~= hyphenated(bytes@));
    text
}

/// The UUID text of a mapping name: what follows the prefix, when it is a
/// UUID in canonical form.
pub open spec fn spec_mapping_name_suffix(name: Seq<u8>) -> Option<Seq<u8>> {
    let prefix = mapping_name_prefix();
    if name.len() >= prefix.len() && name.subrange(0, prefix.len() as int) == prefix {
        let suffix = name.subrange(prefix.len() as int, name.len() as int);
        match uuid_parsed(suffix) {
            Some(uuid) => if hyphenated(uuid) == suffix {
                Some(suffix)
            } else {
                None
            },
            None => None,
        }
    } else {
        None
    }
}

/// Whether `bytes` starts with `prefix`.
fn starts_with(bytes: &[u8], prefix: &[u8]) -> (starts: bool)
    ensures
        starts == (bytes@.len() >= prefix@.len() && bytes@.subrange(0, prefix@.len() as int) == prefix@),
{
    if bytes.len() < prefix.len() {
        return false;
    }
    let mut i: usize = 0;
    while i < prefix.len()
        invariant
            prefix@.len() <= bytes@.len(),
            0 <= i <= prefix@.len(),
            forall|k: int| 0 <= k < i ==> bytes@[k] == prefix@[k],
        decreases prefix@.len() - i,
    {
        if bytes[i] != prefix[i] {
            assert(bytes@.subrange(0, prefix@.len() as int)[i as int] != prefix@[i as int]);
            return false;
        }
        i = i + 1;
    }
    assert(bytes@.subrange(0, prefix@.len() as int) =~= prefix@);
    true
}

/// Whether `a` equals `b`.
fn same_bytes(a: &[u8], b: &[u8]) -> (same: bool)
    ensures
        same == (a@ == b@),
{
    if a.len() != b.len() {
        return false;
    }
    let same = starts_with(a, b);
    assert(a@.subrange(0, b@.len() as int) =~= a@);
    same
}

/// The UUID text of `mapping_name`, or `InvalidId` when it is not the
/// prefix followed by a canonical UUID.
pub fn mapping_name_suffix(mapping_name: &[u8]) -> (suffix: Result<&[u8], InvalidId>)
    ensures
        match spec_mapping_name_suffix(mapping_name@) {
            Some(expected) => suffix matches Ok(found) && found@ == expected,
            None => suffix is Err,
        },
{
    let prefix: [u8; 21] = [
        0x4c, 0x6f, 0x63, 0x61, 0x6c, 0x5c, 0x76, 0x69, 0x74, 0x65, 0x2d, 0x74, 0x61, 0x73, 0x6b, 0x2d, 0x66, 0x73,
        0x70, 0x79, 0x2d,
    ];
    assert(prefix@ =~= mapping_name_prefix());
    if !starts_with(mapping_name, &prefix) {
        return Err(InvalidId);
    }
    let suffix = slice_subrange(mapping_name, 21, mapping_name.len());
    let uuid = match parse_uuid(suffix) {
        Some(uuid) => uuid,
        None => return Err(InvalidId),
    };
    let text = hyphenated_text(&uuid);
    if same_bytes(text.as_slice(), suffix) {
        Ok(suffix)
    } else {
        Err(InvalidId)
    }
}

/// Whether the encoding of `bytes` has no `.` and decodes back to `bytes`,
/// as every encoding `encode_id` makes does.
pub open spec fn encodes_back(bytes: Seq<u8>) -> bool {
    &&& forall|i: int| 0 <= i < base64_url_no_pad(bytes).len() ==> base64_url_no_pad(bytes)[i] != DOT
    &&& base64_url_no_pad_decoded(base64_url_no_pad(bytes)) == Some(bytes)
}

/// The identifier of the mapping `name` backed by the file at `path`.
pub open spec fn spec_encode_id(path: Seq<u16>, name: Seq<u8>) -> Seq<u8> {
    id_prefix() + seq![DOT] + base64_url_no_pad(wide_bytes(path)) + seq![DOT] + base64_url_no_pad(name)
}

proof fn lemma_wide_bytes_len(wide: Seq<u16>)
    ensures
        wide_bytes(wide).len() == 2 * wide.len(),
    decreases wide.len(),
{
    if wide.len() > 0 {
        lemma_wide_bytes_len(wide.drop_last());
    }
}

/// Appends `bytes`.
fn push_all(output: &mut Vec<u8>, bytes: &[u8])
    ensures
        final(output)@ == old(output)@ + bytes@,
{
    let mut copy = slice_to_vec(bytes);
    output.append(&mut copy);
}

/// The identifier of the mapping `mapping_name` backed by the file whose
/// path has the code units `backing_path`, or `InvalidId` when the mapping
/// name is not one a creator makes. The caller has checked that the path
/// is absolute and names `<uuid>.shm`.
pub fn encode_id(backing_path: &[u16], mapping_name: &[u8]) -> (id: Result<Vec<u8>, InvalidId>)
    requires
        backing_path@.len() <= usize::MAX / 4,
        mapping_name@.len() <= usize::MAX / 2,
    ensures
        match spec_mapping_name_suffix(mapping_name@) {
            Some(_) => id matches Ok(encoded) && encoded@ == spec_encode_id(backing_path@, mapping_name@)
                && encodes_back(wide_bytes(backing_path@)) && encodes_back(mapping_name@),
            None => id is Err,
        },
{
    if mapping_name_suffix(mapping_name).is_err() {
        return Err(InvalidId);
    }
    let path_bytes = NativeStr::from_wide(backing_path);
    proof {
        lemma_wide_bytes_len(backing_path@);
    }
    let encoded_path = encode_base64_url(path_bytes.as_bytes());
    let encoded_name = encode_base64_url(mapping_name);
    let mut id: Vec<u8> = Vec::new();
    push_all(&mut id, &[0x66, 0x73, 0x70, 0x79, 0x2d, 0x77, 0x69, 0x6e, 0x33, 0x32, 0x2d, 0x76, 0x31]);
    assert(id@ =~= id_prefix());
    id.push(DOT);
    push_all(&mut id, encoded_path.as_slice());
    id.push(DOT);
    push_all(&mut id, encoded_name.as_slice());
    assert(id@ =~= spec_encode_id(backing_path@, mapping_name@));
    Ok(id)
}

/// The first `byte` in `s` at or after `from`.
pub open spec fn spec_find(s: Seq<u8>, byte: u8, from: int) -> Option<int>
    decreases s.len() - from,
{
    if from < 0 || from >= s.len() {
        None
    } else if s[from] == byte {
        Some(from)
    } else {
        spec_find(s, byte, from + 1)
    }
}

/// The three dot-separated parts of `id`, when it has exactly two dots.
pub open spec fn dot_split(id: Seq<u8>) -> Option<(Seq<u8>, Seq<u8>, Seq<u8>)> {
    match spec_find(id, DOT, 0) {
        None => None,
        Some(first) => match spec_find(id, DOT, first + 1) {
            None => None,
            Some(second) => if spec_find(id, DOT, second + 1) is Some {
                None
            } else {
                Some((id.subrange(0, first), id.subrange(first + 1, second), id.subrange(second + 1, id.len() as int)))
            },
        },
    }
}

/// The bytes an identifier part decodes to, when it is the canonical
/// encoding of them.
pub open spec fn canonical_decoded(encoded: Seq<u8>) -> Option<Seq<u8>> {
    match base64_url_no_pad_decoded(encoded) {
        Some(bytes) => if base64_url_no_pad(bytes) == encoded {
            Some(bytes)
        } else {
            None
        },
        None => None,
    }
}

/// What an identifier names: the backing path's code units and the
/// mapping name, when the identifier is one `encode_id` makes (for some
/// path, the caller's rules aside).
pub open spec fn spec_decode_id(id: Seq<u8>) -> Option<(Seq<u16>, Seq<u8>)> {
    match dot_split(id) {
        None => None,
        Some((version, path_part, name_part)) => if version != id_prefix() {
            None
        } else {
            match canonical_decoded(path_part) {
                None => None,
                Some(path_bytes) => if path_bytes.len() == 0 || path_bytes.len() % 2 != 0 {
                    None
                } else {
                    match canonical_decoded(name_part) {
                        None => None,
                        Some(name) => if spec_mapping_name_suffix(name) is None {
                            None
                        } else {
                            Some((units_of(path_bytes), name))
                        },
                    }
                },
            }
        },
    }
}

/// The first `byte` in `s` at or after `from`.
fn find_byte(s: &[u8], byte: u8, from: usize) -> (found: Option<usize>)
    requires
        from <= s@.len(),
    ensures
        match found {
            Some(i) => spec_find(s@, byte, from as int) == Some(i as int) && from <= i && i < s.len(),
            None => spec_find(s@, byte, from as int) is None,
        },
{
    let mut i: usize = from;
    while i < s.len()
        invariant
            from <= i <= s@.len(),
            spec_find(s@, byte, from as int) == spec_find(s@, byte, i as int),
        decreases s@.len() - i,
    {
        if s[i] == byte {
            return Some(i);
        }
        i = i + 1;
    }
    None
}

/// The canonically encoded bytes of an identifier part.
fn decode_part(encoded: &[u8]) -> (decoded: Result<Vec<u8>, InvalidId>)
    ensures
        match canonical_decoded(encoded@) {
            Some(bytes) => decoded matches Ok(found) && found@ == bytes,
            None => decoded is Err,
        },
{
    let bytes = match decode_base64_url(encoded) {
        Ok(bytes) => bytes,
        Err(_) => return Err(InvalidId),
    };
    let n: usize = encoded.len();
    assert(bytes@.len() <= usize::MAX / 4 * 3 + 2) by (nonlinear_arith)
        requires
            bytes@.len() <= n as int / 4 * 3 + 2,
            n <= usize::MAX,
    ;
    let again = encode_base64_url(bytes.as_slice());
    if same_bytes(again.as_slice(), encoded) {
        Ok(bytes)
    } else {
        Err(InvalidId)
    }
}

/// The backing path's code units and the mapping name that `id` names.
#[derive(Debug, Clone, PartialEq, Eq)]
pub struct DecodedId {
    pub backing_path: Vec<u16>,
    pub mapping_name: Vec<u8>,
}

/// Decodes an identifier, or `InvalidId` when no creator makes it. The
/// caller goes on to check that the path is absolute and names
/// `<uuid>.shm`.
pub fn decode_id(id: &[u8]) -> (decoded: Result<DecodedId, InvalidId>)
    ensures
        match spec_decode_id(id@) {
            Some((path, name)) => decoded matches Ok(found) && found.backing_path@ == path && found.mapping_name@
                == name,
            None => decoded is Err,
        },
{
    let first = match find_byte(id, DOT, 0) {
        Some(i) => i,
        None => return Err(InvalidId),
    };
    let second = match find_byte(id, DOT, first + 1) {
        Some(i) => i,
        None => return Err(InvalidId),
    };
    if find_byte(id, DOT, second + 1).is_some() {
        return Err(InvalidId);
    }
    let version = slice_subrange(id, 0, first);
    let version_tag: [u8; 13] = [0x66, 0x73, 0x70, 0x79, 0x2d, 0x77, 0x69, 0x6e, 0x33, 0x32, 0x2d, 0x76, 0x31];
    assert(version_tag@ =~= id_prefix());
    if !same_bytes(version, &version_tag) {
        return Err(InvalidId);
    }
    let path_bytes = match decode_part(slice_subrange(id, first + 1, second)) {
        Ok(bytes) => bytes,
        Err(error) => return Err(error),
    };
    if path_bytes.len() == 0 || path_bytes.len() % 2 != 0 {
        return Err(InvalidId);
    }
    let mapping_name = match decode_part(slice_subrange(id, second + 1, id.len())) {
        Ok(bytes) => bytes,
        Err(error) => return Err(error),
    };
    if mapping_name_suffix(mapping_name.as_slice()).is_err() {
        return Err(InvalidId);
    }
    let backing_path = NativeStr::from_bytes(path_bytes.as_slice()).to_wide();
    Ok(DecodedId { backing_path, mapping_name })
}

/// Where the first `byte` from `from` on is, when it is at `at`.
proof fn lemma_find_at(s: Seq<u8>, byte: u8, from: int, at: int)
    requires
        0 <= from <= at,
        at <= s.len(),
        forall|k: int| from <= k < at ==> s[k] != byte,
    ensures
        at < s.len() && s[at] == byte ==> spec_find(s, byte, from) == Some(at),
        at == s.len() ==> spec_find(s, byte, from) is None,
    decreases at - from,
{
    if from < at {
        lemma_find_at(s, byte, from + 1, at);
    }
}

/// Decoding an identifier gives back the backing path and mapping name it
/// was encoded from, whenever the mapping name is one a creator makes and
/// the path is not empty. (Its parts' encodings have no `.` and decode back,
/// as `encode_id` ensures of every identifier it returns.)
pub proof fn lemma_windows_id_round_trip(path: Seq<u16>, name: Seq<u8>)
    requires
        spec_mapping_name_suffix(name) is Some,
        path.len() > 0,
    ensures
        encodes_back(wide_bytes(path)) && encodes_back(name) ==> spec_decode_id(spec_encode_id(path, name)) == Some(
            (path, name),
        ),
{
    if encodes_back(wide_bytes(path)) && encodes_back(name) {
        let bytes = wide_bytes(path);
        let a = base64_url_no_pad(bytes);
        let b = base64_url_no_pad(name);
        let p = id_prefix();
        let id = spec_encode_id(path, name);
        let first = p.len() as int;
        let second = first + 1 + a.len();
        assert(id.len() == second + 1 + b.len());
        assert forall|k: int| 0 <= k < first implies id[k] != DOT by {
            assert(id[k] == p[k]);
        }
        assert(id[first] == DOT);
        lemma_find_at(id, DOT, 0, first);
        assert forall|k: int| first + 1 <= k < second implies id[k] != DOT by {
            assert(id[k] == a[k - first - 1]);
        }
        assert(id[second] == DOT);
        lemma_find_at(id, DOT, first + 1, second);
        assert forall|k: int| second + 1 <= k < id.len() implies id[k] != DOT by {
            assert(id[k] == b[k - second - 1]);
        }
        lemma_find_at(id, DOT, second + 1, id.len() as int);
        assert(id.subrange(0, first) =~= p);
        assert(id.subrange(first + 1, second) =~= a);
        assert(id.subrange(second + 1, id.len() as int) =~= b);
        lemma_wide_bytes_len(path);
        lemma_wide_roundtrip(path);
    }
}

} // verus!
