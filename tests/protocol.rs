use willowfs::protocol::{self as proto, ReadReply};
use willowfs::{
    file_qid, name_hash, qid_for, root_qid, PathRef, FileStore, FsError, Handle, OpenReply, Qid, QidKind, DIR_MODE,
    FILE_MODE, IOUNIT,
};

fn s(x: &str) -> String {
    x.to_string()
}

fn data_of(r: Result<ReadReply, FsError>) -> Vec<u8> {
    match r {
        Ok(ReadReply::Data(d)) => d,
        Ok(ReadReply::Listing(_)) => panic!("expected file data, got a listing"),
        Err(e) => panic!("unexpected error {:?}", e),
    }
}

fn listing_of(r: Result<ReadReply, FsError>) -> Vec<String> {
    match r {
        Ok(ReadReply::Listing(l)) => l,
        Ok(ReadReply::Data(_)) => panic!("expected a listing, got file data"),
        Err(e) => panic!("unexpected error {:?}", e),
    }
}

#[test]
fn fnv_hash_values() {
    assert_eq!(name_hash(""), 0xcbf2_9ce4_8422_2325);
    assert_eq!(name_hash("a"), 0xaf63_dc4c_8601_ec8c);
    assert_eq!(name_hash("foobar"), 0x8594_4171_f739_67e8);
}

#[test]
fn qids_are_stable_per_name() {
    assert_eq!(root_qid(), Qid { kind: QidKind::Dir, version: 0, path: 0 });
    assert_eq!(file_qid("a"), file_qid("a"));
    assert_ne!(file_qid("a").path, file_qid("b").path);
    assert_eq!(file_qid("a").kind, QidKind::File);
    assert_eq!(qid_for(&PathRef::Root), root_qid());
    assert_eq!(qid_for(&PathRef::File(s("a"))), file_qid("a"));
}

#[test]
fn unbound_handle_fails_everywhere_but_attach_and_walk() {
    let mut h = Handle::new();
    let mut st = FileStore::new();
    st.create(&s("a"));
    assert_eq!(h.resolve().err(), Some(FsError::UnboundHandle));
    assert_eq!(proto::open(&h), Err(FsError::UnboundHandle));
    assert!(matches!(proto::read(&h, &st, 0, 10), Err(FsError::UnboundHandle)));
    assert_eq!(proto::write(&h, &mut st, 0, b"x"), Err(FsError::UnboundHandle));
    assert_eq!(proto::getattr(&h, &st, 0x7ff), Err(FsError::UnboundHandle));
    assert_eq!(proto::create(&mut h, &mut st, &s("b")), Err(FsError::UnboundHandle));
    assert!(!st.contains(&s("b")));
    assert_eq!(st.read(&s("a"), 0, 10), Vec::<u8>::new());
    let mut target = Handle::new();
    assert_eq!(proto::walk(&h, &mut target, &vec![s("a")]), Err(FsError::UnboundHandle));
    assert!(target.resolve().is_err());
}

#[test]
fn attach_binds_root_from_any_state() {
    let mut h = Handle::new();
    assert_eq!(proto::attach(&mut h), root_qid());
    assert!(matches!(h.resolve(), Ok(willowfs::PathRef::Root)));
    let mut st = FileStore::new();
    proto::create(&mut h, &mut st, &s("f")).unwrap();
    assert!(matches!(h.resolve(), Ok(willowfs::PathRef::File(ref n)) if n == "f"));
    assert_eq!(proto::attach(&mut h), root_qid());
    assert!(matches!(h.resolve(), Ok(willowfs::PathRef::Root)));
}

#[test]
fn walk_with_no_names_copies_binding() {
    let mut a = Handle::new();
    let mut st = FileStore::new();
    proto::attach(&mut a);
    proto::create(&mut a, &mut st, &s("f")).unwrap();
    let mut b = Handle::new();
    assert_eq!(proto::walk(&a, &mut b, &Vec::new()), Ok(Vec::new()));
    assert!(matches!(b.resolve(), Ok(willowfs::PathRef::File(ref n)) if n == "f"));
    let mut root = Handle::new();
    proto::attach(&mut root);
    let mut c = Handle::new();
    proto::walk(&root, &mut c, &Vec::new()).unwrap();
    assert!(matches!(c.resolve(), Ok(willowfs::PathRef::Root)));
}

#[test]
fn walk_binds_last_name_with_one_qid_each() {
    let mut root = Handle::new();
    proto::attach(&mut root);
    let mut t = Handle::new();
    let qids = proto::walk(&root, &mut t, &vec![s("x"), s("y")]).unwrap();
    assert_eq!(qids, vec![file_qid("x"), file_qid("y")]);
    assert!(matches!(t.resolve(), Ok(willowfs::PathRef::File(ref n)) if n == "y"));
}

#[test]
fn open_reports_qid_and_iounit() {
    let mut root = Handle::new();
    proto::attach(&mut root);
    assert_eq!(proto::open(&root), Ok(OpenReply { qid: root_qid(), iounit: 8192 }));
    let mut t = Handle::new();
    proto::walk(&root, &mut t, &vec![s("f")]).unwrap();
    assert_eq!(proto::open(&t), Ok(OpenReply { qid: file_qid("f"), iounit: IOUNIT }));
}

#[test]
fn create_rebinds_and_truncates() {
    let mut h = Handle::new();
    let mut st = FileStore::new();
    proto::attach(&mut h);
    let r = proto::create(&mut h, &mut st, &s("f")).unwrap();
    assert_eq!(r, OpenReply { qid: file_qid("f"), iounit: IOUNIT });
    assert_eq!(proto::write(&h, &mut st, 0, b"abc"), Ok(3));
    proto::attach(&mut h);
    proto::create(&mut h, &mut st, &s("f")).unwrap();
    assert_eq!(data_of(proto::read(&h, &st, 0, 10)), Vec::<u8>::new());
}

#[test]
fn scenario_write_twice_then_read() {
    let mut h = Handle::new();
    let mut st = FileStore::new();
    proto::attach(&mut h);
    proto::create(&mut h, &mut st, &s("notes.txt")).unwrap();
    assert_eq!(proto::write(&h, &mut st, 0, b"hello "), Ok(6));
    assert_eq!(proto::write(&h, &mut st, 0, b"world"), Ok(5));
    assert_eq!(data_of(proto::read(&h, &st, 0, 100)), b"hello world".to_vec());
}

#[test]
fn scenario_root_listing() {
    let mut st = FileStore::new();
    let mut maker = Handle::new();
    proto::attach(&mut maker);
    proto::create(&mut maker, &mut st, &s("a")).unwrap();
    proto::attach(&mut maker);
    proto::create(&mut maker, &mut st, &s("b")).unwrap();
    let mut h = Handle::new();
    proto::attach(&mut h);
    let mut names = listing_of(proto::read(&h, &st, 0, 100));
    names.sort();
    assert_eq!(names, vec![s("a"), s("b")]);
}

#[test]
fn scenario_walk_to_missing_then_read() {
    let st = FileStore::new();
    let mut h = Handle::new();
    proto::attach(&mut h);
    let mut h2 = Handle::new();
    proto::walk(&h, &mut h2, &vec![s("missing.txt")]).unwrap();
    assert_eq!(data_of(proto::read(&h2, &st, 0, 10)), Vec::<u8>::new());
}

#[test]
fn write_to_root_or_missing_takes_nothing() {
    let mut st = FileStore::new();
    let mut root = Handle::new();
    proto::attach(&mut root);
    assert_eq!(proto::write(&root, &mut st, 0, b"x"), Ok(0));
    let mut t = Handle::new();
    proto::walk(&root, &mut t, &vec![s("ghost")]).unwrap();
    assert_eq!(proto::write(&t, &mut st, 0, b"x"), Ok(0));
    assert!(st.list_root().is_empty());
}

#[test]
fn read_past_end_is_empty() {
    let mut st = FileStore::new();
    let mut h = Handle::new();
    proto::attach(&mut h);
    proto::create(&mut h, &mut st, &s("f")).unwrap();
    proto::write(&h, &mut st, 0, b"abc").unwrap();
    assert_eq!(data_of(proto::read(&h, &st, 3, 10)), Vec::<u8>::new());
    assert_eq!(data_of(proto::read(&h, &st, 99, 10)), Vec::<u8>::new());
    assert_eq!(data_of(proto::read(&h, &st, 1, 1)), b"b".to_vec());
}

#[test]
fn round_trip_after_create() {
    let mut st = FileStore::new();
    let mut h = Handle::new();
    proto::attach(&mut h);
    proto::create(&mut h, &mut st, &s("r")).unwrap();
    let d: Vec<u8> = (0..=255u8).collect();
    assert_eq!(proto::write(&h, &mut st, 0, &d), Ok(256));
    assert_eq!(data_of(proto::read(&h, &st, 0, 256)), d);
}

#[test]
fn getattr_derives_size_and_mode() {
    let mut st = FileStore::new();
    let mut root = Handle::new();
    proto::attach(&mut root);
    let a = proto::getattr(&root, &st, 0x3fff).unwrap();
    assert_eq!(a.valid, 0x3fff);
    assert_eq!(a.qid, root_qid());
    assert_eq!(a.mode, DIR_MODE);
    assert_eq!(a.size, 0);
    let mut h = Handle::new();
    proto::attach(&mut h);
    proto::create(&mut h, &mut st, &s("f")).unwrap();
    proto::write(&h, &mut st, 0, b"12345").unwrap();
    let f = proto::getattr(&h, &st, 1).unwrap();
    assert_eq!(f.valid, 1);
    assert_eq!(f.qid, file_qid("f"));
    assert_eq!(f.mode, FILE_MODE);
    assert_eq!(f.mode, 0o100644);
    assert_eq!(f.nlink, 1);
    assert_eq!(f.size, 5);
    let mut g = Handle::new();
    proto::walk(&root, &mut g, &vec![s("none")]).unwrap();
    assert_eq!(proto::getattr(&g, &st, 1).unwrap().size, 0);
}

#[test]
fn default_handle_is_unbound() {
    let h = Handle::default();
    assert_eq!(h.resolve().err(), Some(FsError::UnboundHandle));
    let mut h = h;
    h.bind(willowfs::PathRef::File(s("z")));
    assert!(matches!(h.resolve(), Ok(willowfs::PathRef::File(ref n)) if n == "z"));
}
