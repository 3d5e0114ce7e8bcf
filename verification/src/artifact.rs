//! A file embedded in the executable that is written out to disk when
//! first needed, under a content-addressed name: `{name}_{hash}{suffix}`.
//! The hash of the content in the name means a file that exists needs no
//! rewrite, a stale one from another build is never mistaken for this one,
//! and builds coexist in one directory.
use vstd::prelude::*;
use vstd::slice::*;

verus! {

/// `_` in ASCII.
pub const UNDERSCORE: u8 = 0x5f;

/// An embedded file.
#[derive(Debug)]
pub struct Artifact {
    name: Vec<u8>,
    content: Vec<u8>,
    hash: Vec<u8>,
}

impl Artifact {
    pub closed spec fn spec_name(&self) -> Seq<u8> {
        self.name@
    }

    pub closed spec fn spec_content(&self) -> Seq<u8> {
        self.content@
    }

    pub closed spec fn spec_hash(&self) -> Seq<u8> {
        self.hash@
    }

    /// The artifact `name` with `content`, whose hash the build computed.
    pub fn __new(name: &[u8], content: &[u8], hash: &[u8]) -> (artifact: Artifact)
        ensures
            artifact.spec_name() == name@,
            artifact.spec_content() == content@,
            artifact.spec_hash() == hash@,
    {
        Artifact { name: slice_to_vec(name), content: slice_to_vec(content), hash: slice_to_vec(hash) }
    }

    /// The bytes to write.
    pub fn content(&self) -> (content: &[u8])
        ensures
            content@ == self.spec_content(),
    {
        self.content.as_slice()
    }

    /// The file name the artifact is materialized under.
    pub fn file_name(&self, suffix: &[u8]) -> (file_name: Vec<u8>)
        ensures
            file_name@ == self.spec_name() + seq![UNDERSCORE] + self.spec_hash() + suffix@,
    {
        let mut file_name = slice_to_vec(self.name.as_slice());
        file_name.push(UNDERSCORE);
        let mut hash = slice_to_vec(self.hash.as_slice());
        file_name.append(&mut hash);
        let mut tail = slice_to_vec(suffix);
        file_name.append(&mut tail);
        file_name
    }
}

/// The Unix mode of a materialized file: `0o755` when executable, `0o644`
/// otherwise.
pub fn wanted_mode(executable: bool) -> (mode: u32)
    ensures
        mode == (if executable {
            0o755u32
        } else {
            0o644u32
        }),
{
    if executable {
        0o755
    } else {
        0o644
    }
}

/// Whether an existing file's permission bits drifted from `wanted` and
/// have to be set again.
pub fn mode_drifted(current_mode: u32, wanted: u32) -> (drifted: bool)
    ensures
        drifted == (current_mode & 0o777 != wanted),
{
    current_mode & 0o777 != wanted
}

} // verus!
