use vstd::prelude::*;
use crate::handle::{FsError, Handle};
use crate::path::{
    file_qid, file_qid_spec, qid_for, qid_of, root_qid, root_qid_spec, PathRef, PathView, Qid,
};
use crate::store::{read_result, written, FileStore};

verus! {

/// The I/O block size offered with every open and create.
pub const IOUNIT: u32 = 8192;

/// Mode reported for the root directory: a directory, rwxr-xr-x.
pub const DIR_MODE: u32 = 0o040755;

/// Mode reported for a file: a regular file, rw-r--r--.
pub const FILE_MODE: u32 = 0o100644;

/// The reply to open and create.
#[derive(Clone, Copy, Debug, PartialEq, Eq, Structural)]
pub struct OpenReply {
    pub qid: Qid,
    pub iounit: u32,
}

/// What a read returns: the root's listing, or bytes of a file.
pub enum ReadReply {
    Listing(Vec<String>),
    Data(Vec<u8>),
}

/// The attributes of the object a handle denotes.
#[derive(Clone, Copy, Debug, PartialEq, Eq, Structural)]
pub struct Attr {
    pub valid: u64,
    pub qid: Qid,
    pub mode: u32,
    pub nlink: u64,
    pub size: u64,
}

/// Where a walk from `from` through `names` ends: at the last name, or where
/// it started when there is none.
pub open spec fn walk_dest(from: PathView, names: Seq<Seq<char>>) -> PathView {
    if names.len() == 0 {
        from
    } else {
        PathView::File(names.last())
    }
}

/// The views of a sequence of strings.
pub open spec fn views_of(names: Seq<String>) -> Seq<Seq<char>> {
    names.map_values(|s: String| s@)
}

/// The reply an open of `p` owes.
pub open spec fn open_reply(p: PathView) -> OpenReply {
    OpenReply { qid: qid_of(p), iounit: IOUNIT }
}

/// The attributes of `p` over the store `files`, for the request mask `mask`.
pub open spec fn attr_of(p: PathView, files: Map<Seq<char>, Seq<u8>>, mask: u64) -> Attr {
    match p {
        PathView::Root => Attr { valid: mask, qid: root_qid_spec(), mode: DIR_MODE, nlink: 1, size: 0 },
        PathView::File(n) => Attr {
            valid: mask,
            qid: file_qid_spec(n),
            mode: FILE_MODE,
            nlink: 1,
            size: if files.contains_key(n) { files[n].len() as u64 } else { 0 },
        },
    }
}

/// Attaches `h` to the root directory, whatever it was bound to before.
pub fn attach(h: &mut Handle) -> (r: Qid)
    ensures
        final(h)@ == Some(PathView::Root),
        r == root_qid_spec(),
{
    h.bind(PathRef::Root);
    root_qid()
}

/// Walks from `source` through `names` and binds `target` to where the walk
/// ends; one file identifier per name walked. Names are not looked up in the
/// store: a walk may end at a name that is created later.
pub fn walk(source: &Handle, target: &mut Handle, names: &Vec<String>) -> (r: Result<Vec<Qid>, FsError>)
    ensures
        match source@ {
            None => r == Err::<Vec<Qid>, FsError>(FsError::UnboundHandle) && final(target)@ == old(target)@,
            Some(from) => r matches Ok(qids)
                && qids@ == views_of(names@).map_values(|n: Seq<char>| file_qid_spec(n))
                && final(target)@ == Some(walk_dest(from, views_of(names@))),
        },
        source@ is Some && names@.len() == 0 ==> final(target)@ == source@,
{
    let from = match source.resolve() {
        Ok(p) => p,
        Err(e) => return Err(e),
    };
    let mut qids: Vec<Qid> = Vec::new();
    let mut dest = from;
    let mut i: usize = 0;
    while i < names.len()
        invariant
            source@ is Some,
            0 <= i <= names@.len(),
            qids@ == views_of(names@).subrange(0, i as int).map_values(|n: Seq<char>| file_qid_spec(n)),
            dest@ == walk_dest(source@->Some_0, views_of(names@).subrange(0, i as int)),
        decreases names@.len() - i,
    {
        qids.push(file_qid(names[i].as_str()));
        dest = PathRef::File(names[i].clone());
        proof {
            assert(views_of(names@).subrange(0, i + 1).map_values(|n: Seq<char>| file_qid_spec(n))
                =~= views_of(names@).subrange(0, i as int).map_values(|n: Seq<char>| file_qid_spec(n)).push(file_qid_spec(names@[i as int]@)));
        }
        i = i + 1;
    }
    proof {
        assert(views_of(names@).subrange(0, names@.len() as int) =~= views_of(names@));
    }
    target.bind(dest);
    Ok(qids)
}

/// Opens the object `h` denotes; nothing changes.
pub fn open(h: &Handle) -> (r: Result<OpenReply, FsError>)
    ensures
        match h@ {
            None => r == Err::<OpenReply, FsError>(FsError::UnboundHandle),
            Some(p) => r == Ok::<OpenReply, FsError>(open_reply(p)),
        },
{
    match h.resolve() {
        Ok(p) => Ok(OpenReply { qid: qid_for(&p), iounit: IOUNIT }),
        Err(e) => Err(e),
    }
}

/// Creates `name` in the store (truncating an existing file) and rebinds `h`
/// to it, as a create also opens what it made.
pub fn create(h: &mut Handle, store: &mut FileStore, name: &String) -> (r: Result<OpenReply, FsError>)
    requires
        old(store).wf(),
    ensures
        final(store).wf(),
        old(h)@ is None ==> r == Err::<OpenReply, FsError>(FsError::UnboundHandle)
            && final(h)@ == old(h)@ && final(store)@ == old(store)@ && final(store).order() == old(store).order(),
        old(h)@ is Some ==> r == Ok::<OpenReply, FsError>(open_reply(PathView::File(name@)))
            && final(h)@ == Some(PathView::File(name@))
            && final(store)@ == old(store)@.insert(name@, Seq::<u8>::empty())
            && (old(store)@.contains_key(name@) ==> final(store).order() == old(store).order())
            && (!old(store)@.contains_key(name@) ==> final(store).order() == old(store).order().push(name@)),
{
    if let Err(e) = h.resolve() {
        return Err(e);
    }
    store.create(name);
    h.bind(PathRef::File(name.clone()));
    Ok(OpenReply { qid: file_qid(name.as_str()), iounit: IOUNIT })
}

/// Reads through `h`: the listing of the store at the root, otherwise up to
/// `count` bytes of the file from `offset` on (empty past the end and for a
/// name that was never created).
pub fn read(h: &Handle, store: &FileStore, offset: u64, count: u32) -> (r: Result<ReadReply, FsError>)
    requires
        store.wf(),
    ensures
        match h@ {
            None => r matches Err(e) && e == FsError::UnboundHandle,
            Some(PathView::Root) => r matches Ok(ReadReply::Listing(names))
                && views_of(names@) == store.order()
                && views_of(names@).to_set() == store@.dom()
                && views_of(names@).no_duplicates(),
            Some(PathView::File(n)) => r matches Ok(ReadReply::Data(d))
                && d@ == read_result(store@, n, offset as int, count as int),
        },
{
    match h.resolve() {
        Ok(PathRef::Root) => Ok(ReadReply::Listing(store.list_root())),
        Ok(PathRef::File(name)) => Ok(ReadReply::Data(store.read(&name, offset, count as u64))),
        Err(e) => Err(e),
    }
}

/// Writes through `h`: appends `data` to the file it denotes, whatever the
/// offset, and returns the number of bytes taken. The root and a name that
/// was never created take nothing.
pub fn write(h: &Handle, store: &mut FileStore, offset: u64, data: &[u8]) -> (r: Result<u32, FsError>)
    requires
        old(store).wf(),
        data@.len() <= u32::MAX,
    ensures
        final(store).wf(),
        final(store).order() == old(store).order(),
        match h@ {
            None => r == Err::<u32, FsError>(FsError::UnboundHandle) && final(store)@ == old(store)@,
            Some(PathView::Root) => r == Ok::<u32, FsError>(0) && final(store)@ == old(store)@,
            Some(PathView::File(n)) => final(store)@ == written(old(store)@, n, data@)
                && r == Ok::<u32, FsError>(if old(store)@.contains_key(n) { data@.len() as u32 } else { 0 }),
        },
{
    match h.resolve() {
        Ok(PathRef::Root) => Ok(0),
        Ok(PathRef::File(name)) => {
            let n = store.write(&name, offset, data);
            Ok(n as u32)
        },
        Err(e) => Err(e),
    }
}

/// The attributes of what `h` denotes; a file's size is the length of its
/// content, 0 when it was never created.
pub fn getattr(h: &Handle, store: &FileStore, mask: u64) -> (r: Result<Attr, FsError>)
    requires
        store.wf(),
    ensures
        match h@ {
            None => r == Err::<Attr, FsError>(FsError::UnboundHandle),
            Some(p) => r == Ok::<Attr, FsError>(attr_of(p, store@, mask)),
        },
{
    match h.resolve() {
        Ok(PathRef::Root) => Ok(Attr { valid: mask, qid: root_qid(), mode: DIR_MODE, nlink: 1, size: 0 }),
        Ok(PathRef::File(name)) => {
            let size: u64 = match store.size(&name) {
                Some(len) => len as u64,
                None => 0,
            };
            Ok(Attr { valid: mask, qid: file_qid(name.as_str()), mode: FILE_MODE, nlink: 1, size })
        },
        Err(e) => Err(e),
    }
}

} // verus!
