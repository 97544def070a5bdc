use vstd::prelude::*;
use vstd::string::StringSliceAdditionalSpecFns;
use vstd::utf8::encode_utf8;

verus! {

/// Offset basis of the 64-bit FNV-1a hash.
pub const FNV_OFFSET: u64 = 0xcbf2_9ce4_8422_2325;

/// Prime of the 64-bit FNV-1a hash.
pub const FNV_PRIME: u64 = 0x0000_0100_0000_01b3;

/// What a path denotes, as a mathematical value.
pub enum PathView {
    Root,
    File(Seq<char>),
}

/// A logical path: the single root directory, or a file name below it.
pub enum PathRef {
    Root,
    File(String),
}

impl View for PathRef {
    type V = PathView;

    open spec fn view(&self) -> PathView {
        match self {
            PathRef::Root => PathView::Root,
            PathRef::File(name) => PathView::File(name@),
        }
    }
}

impl Clone for PathRef {
    fn clone(&self) -> (r: PathRef)
        ensures
            r@ == self@,
    {
        match self {
            PathRef::Root => PathRef::Root,
            PathRef::File(name) => PathRef::File(name.clone()),
        }
    }
}

/// Whether an identifier names a directory or a regular file.
#[derive(Clone, Copy, Debug, PartialEq, Eq, Structural)]
pub enum QidKind {
    Dir,
    File,
}

/// The server's identifier for a filesystem object.
#[derive(Clone, Copy, Debug, PartialEq, Eq, Structural)]
pub struct Qid {
    pub kind: QidKind,
    pub version: u32,
    pub path: u64,
}

/// FNV-1a over a byte sequence, folded from the first byte to the last.
pub open spec fn name_hash_spec(bytes: Seq<u8>) -> u64
    decreases bytes.len(),
{
    if bytes.len() == 0 {
        FNV_OFFSET
    } else {
        vstd::wrapping::u64_specs::wrapping_mul(
            name_hash_spec(bytes.drop_last()) ^ (bytes.last() as u64),
            FNV_PRIME,
        )
    }
}

/// The identifier of the root directory.
pub open spec fn root_qid_spec() -> Qid {
    Qid { kind: QidKind::Dir, version: 0, path: 0 }
}

/// The identifier of the file called `name`: stable, derived from the name alone.
pub open spec fn file_qid_spec(name: Seq<char>) -> Qid {
    Qid { kind: QidKind::File, version: 0, path: name_hash_spec(encode_utf8(name)) }
}

/// The identifier of what a path denotes.
pub open spec fn qid_of(p: PathView) -> Qid {
    match p {
        PathView::Root => root_qid_spec(),
        PathView::File(name) => file_qid_spec(name),
    }
}

/// Hashes the UTF-8 bytes of a name with FNV-1a.
pub fn name_hash(name: &str) -> (r: u64)
    ensures
        r == name_hash_spec(encode_utf8(name@)),
{
    let bytes = name.as_bytes();
    let mut h: u64 = FNV_OFFSET;
    let mut i: usize = 0;
    while i < bytes.len()
        invariant
            bytes@ == name.spec_bytes(),
            0 <= i <= bytes@.len(),
            h == name_hash_spec(bytes@.subrange(0, i as int)),
        decreases bytes@.len() - i,
    {
        assert(bytes@.subrange(0, i + 1).drop_last() == bytes@.subrange(0, i as int));
        h = (h ^ (bytes[i] as u64)).wrapping_mul(FNV_PRIME);
        i = i + 1;
    }
    assert(bytes@.subrange(0, bytes@.len() as int) == bytes@);
    h
}

/// The identifier of what `p` denotes.
pub fn qid_for(p: &PathRef) -> (r: Qid)
    ensures
        r == qid_of(p@),
{
    match p {
        PathRef::Root => root_qid(),
        PathRef::File(name) => file_qid(name.as_str()),
    }
}

/// The identifier of the root directory.
pub fn root_qid() -> (r: Qid)
    ensures
        r == root_qid_spec(),
{
    Qid { kind: QidKind::Dir, version: 0, path: 0 }
}

/// The identifier of the file called `name`.
pub fn file_qid(name: &str) -> (r: Qid)
    ensures
        r == file_qid_spec(name@),
{
    Qid { kind: QidKind::File, version: 0, path: name_hash(name) }
}

} // verus!
