//! An in-memory file server core in the style of 9P2000.L: handles bound to
//! paths, a flat store of named byte blobs under one synthetic root directory,
//! and the protocol operations that map requests onto both.

pub mod handle;
pub mod laws;
pub mod path;
pub mod protocol;
pub mod store;

pub use handle::{FsError, Handle};
pub use path::{file_qid, name_hash, qid_for, root_qid, PathRef, PathView, Qid, QidKind};
pub use protocol::{Attr, OpenReply, ReadReply, DIR_MODE, FILE_MODE, IOUNIT};
pub use store::{window, FileStore};
