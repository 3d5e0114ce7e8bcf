//! Platform-native strings carried losslessly between processes: raw bytes
//! on Unix, UTF-16 code units stored as their little-endian bytes on
//! Windows.
use vstd::prelude::*;
use vstd::slice::*;

verus! {

/// The little-endian bytes of UTF-16 code units, two per unit.
pub open spec fn wide_bytes(wide: Seq<u16>) -> Seq<u8>
    decreases wide.len(),
{
    if wide.len() == 0 {
        Seq::empty()
    } else {
        wide_bytes(wide.drop_last()) + seq![(wide.last() & 0xff) as u8, (wide.last() >> 8) as u8]
    }
}

/// The code units of little-endian `bytes`; an odd last byte becomes a
/// unit of its own, zero-extended.
pub open spec fn units_of(bytes: Seq<u8>) -> Seq<u16> {
    Seq::new(
        ((bytes.len() + 1) / 2) as nat,
        |i: int|
            (bytes[2 * i] as int + if 2 * i + 1 < bytes.len() {
                256 * (bytes[2 * i + 1] as int)
            } else {
                0
            }) as u16,
    )
}

/// Where each code unit's bytes are.
pub proof fn lemma_wide_bytes(wide: Seq<u16>)
    ensures
        wide_bytes(wide).len() == 2 * wide.len(),
        forall|i: int|
            0 <= i < wide.len() ==> {
                &&& #[trigger] wide_bytes(wide)[2 * i] == (wide[i] & 0xff) as u8
                &&& wide_bytes(wide)[2 * i + 1] == (wide[i] >> 8) as u8
            },
    decreases wide.len(),
{
    if wide.len() > 0 {
        let rest = wide.drop_last();
        lemma_wide_bytes(rest);
        assert forall|i: int| 0 <= i < wide.len() implies {
            &&& #[trigger] wide_bytes(wide)[2 * i] == (wide[i] & 0xff) as u8
            &&& wide_bytes(wide)[2 * i + 1] == (wide[i] >> 8) as u8
        } by {
            if i < rest.len() {
                assert(wide_bytes(rest)[2 * i] == (rest[i] & 0xff) as u8);
            }
        }
    }
}

/// Decoding the bytes of code units gives the same code units back.
pub proof fn lemma_wide_roundtrip(wide: Seq<u16>)
    ensures
        units_of(wide_bytes(wide)) == wide,
{
    lemma_wide_bytes(wide);
    let bytes = wide_bytes(wide);
    assert forall|i: int| 0 <= i < wide.len() implies #[trigger] units_of(bytes)[i] == wide[i] by {
        let unit = wide[i];
        assert(bytes[2 * i] == (unit & 0xff) as u8);
        assert(((unit & 0xff) as u8) as int + 256 * (((unit >> 8) as u8) as int) == unit) by (bit_vector);
    }
    assert(units_of(bytes) =~= wide);
}

/// A platform-native string.
#[derive(Debug, Clone, PartialEq, Eq)]
pub struct NativeStr {
    data: Vec<u8>,
}

impl NativeStr {
    pub closed spec fn spec_data(&self) -> Seq<u8> {
        self.data@
    }

    /// The Unix string of `bytes`.
    pub fn from_bytes(bytes: &[u8]) -> (s: NativeStr)
        ensures
            s.spec_data() == bytes@,
    {
        NativeStr { data: slice_to_vec(bytes) }
    }

    /// The Windows string of the code units `wide`.
    pub fn from_wide(wide: &[u16]) -> (s: NativeStr)
        ensures
            s.spec_data() == wide_bytes(wide@),
    {
        let mut data: Vec<u8> = Vec::new();
        let mut i: usize = 0;
        while i < wide.len()
            invariant
                0 <= i <= wide@.len(),
                data@ == wide_bytes(wide@.subrange(0, i as int)),
            decreases wide@.len() - i,
        {
            let unit: u16 = wide[i];
            data.push((unit & 0xff) as u8);
            data.push((unit >> 8) as u8);
            assert(wide@.subrange(0, i + 1).drop_last() =~= wide@.subrange(0, i as int));
            i = i + 1;
        }
        assert(wide@.subrange(0, wide@.len() as int) =~= wide@);
        NativeStr { data }
    }

    /// The raw bytes.
    pub fn as_bytes(&self) -> (bytes: &[u8])
        ensures
            bytes@ == self.spec_data(),
    {
        self.data.as_slice()
    }

    /// The Windows code units of the string.
    pub fn to_wide(&self) -> (wide: Vec<u16>)
        ensures
            wide@ == units_of(self.spec_data()),
    {
        let n: usize = self.data.len();
        let units: usize = n / 2 + n % 2;
        let mut wide: Vec<u16> = Vec::new();
        let mut k: usize = 0;
        while k < units
            invariant
                n == self.data@.len(),
                units == (n + 1) / 2,
                0 <= k <= units,
                wide@.len() == k,
                forall|j: int| 0 <= j < k ==> #[trigger] wide@[j] == units_of(self.data@)[j],
            decreases units - k,
        {
            let low: u16 = self.data[2 * k] as u16;
            let high: u16 = if 2 * k + 1 < n {
                self.data[2 * k + 1] as u16
            } else {
                0
            };
            wide.push(low + 256 * high);
            k = k + 1;
        }
        assert(wide@ =~= units_of(self.data@));
        wide
    }
}

/// An owned platform-native string: on Unix the bytes of an `OsStr`.
#[derive(Debug, Clone, PartialEq, Eq, Hash)]
pub struct NativeString {
    data: Vec<u8>,
}

impl NativeString {
    pub closed spec fn spec_data(&self) -> Seq<u8> {
        self.data@
    }

    /// The owned string of the Unix string `bytes`.
    pub fn from_bytes(bytes: &[u8]) -> (s: NativeString)
        ensures
            s.spec_data() == bytes@,
    {
        NativeString { data: slice_to_vec(bytes) }
    }

    /// The raw bytes.
    pub fn as_bytes(&self) -> (bytes: &[u8])
        ensures
            bytes@ == self.spec_data(),
    {
        self.data.as_slice()
    }
}

/// A path the tracer reports: on Windows an NT Object Manager path, whose
/// raw form is only meaningful after its prefix is stripped.
#[derive(Debug, Clone, PartialEq, Eq)]
pub struct NativePath {
    pub inner: NativeStr,
}

impl NativePath {
    /// The Windows path of the code units `wide`.
    pub fn from_wide(wide: &[u16]) -> (path: NativePath)
        ensures
            path.inner.spec_data() == wide_bytes(wide@),
    {
        NativePath { inner: NativeStr::from_wide(wide) }
    }
}

/// The Windows path prefixes `\\?\`, `\\.\` and `\??\` in ASCII.
pub open spec fn windows_path_prefixes() -> Seq<Seq<u8>> {
    seq![seq![0x5cu8, 0x5cu8, 0x3fu8, 0x5cu8], seq![0x5cu8, 0x5cu8, 0x2eu8, 0x5cu8], seq![0x5cu8, 0x3fu8, 0x3fu8, 0x5cu8]]
}

/// `path` without the first of the Windows prefixes it starts with.
pub open spec fn spec_strip_windows_path_prefix(path: Seq<u8>) -> Seq<u8> {
    if path.len() >= 4 && exists|i: int| 0 <= i < 3 && path.subrange(0, 4) == #[trigger] windows_path_prefixes()[i] {
        path.subrange(4, path.len() as int)
    } else {
        path
    }
}

/// Strips the `\\?\` (long path), `\\.\` (device) or `\??\` (NT object)
/// prefix from a Windows path. The result need not name the same file;
/// it is only good enough to compare paths.
pub fn strip_windows_path_prefix(path: &[u8]) -> (stripped: &[u8])
    ensures
        stripped@ == spec_strip_windows_path_prefix(path@),
{
    if path.len() >= 4 && path[0] == 0x5c && path[3] == 0x5c && ((path[1] == 0x5c && (path[2] == 0x3f
        || path[2] == 0x2e)) || (path[1] == 0x3f && path[2] == 0x3f)) {
        proof {
            let p = path@.subrange(0, 4);
            if path@[1] == 0x5c && path@[2] == 0x3f {
                assert(p =~= windows_path_prefixes()[0]);
            } else if path@[1] == 0x5c {
                assert(p =~= windows_path_prefixes()[1]);
            } else {
                assert(p =~= windows_path_prefixes()[2]);
            }
        }
        slice_subrange(path, 4, path.len())
    } else {
        proof {
            if path@.len() >= 4 {
                assert forall|i: int| 0 <= i < 3 implies path@.subrange(0, 4) != #[trigger] windows_path_prefixes()[i] by {
                    if path@.subrange(0, 4) == windows_path_prefixes()[i] {
                        assert(path@[1] == path@.subrange(0, 4)[1]);
                        assert(path@[2] == path@.subrange(0, 4)[2]);
                        assert(path@[0] == path@.subrange(0, 4)[0]);
                        assert(path@[3] == path@.subrange(0, 4)[3]);
                    }
                }
            }
        }
        path
    }
}

} // verus!
