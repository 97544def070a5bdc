//! Facts that relate several store operations, stated over the models that
//! the operations' own contracts use.
use vstd::prelude::*;
use crate::store::{read_result, written};

verus! {

/// The fragments joined end to end, in order.
pub open spec fn joined(frags: Seq<Seq<u8>>) -> Seq<u8>
    decreases frags.len(),
{
    if frags.len() == 0 {
        Seq::empty()
    } else {
        joined(frags.drop_last()) + frags.last()
    }
}

/// The sum of the fragments' lengths.
pub open spec fn total_len(frags: Seq<Seq<u8>>) -> nat
    decreases frags.len(),
{
    if frags.len() == 0 {
        0
    } else {
        total_len(frags.drop_last()) + frags.last().len()
    }
}

/// The store after the fragments were written to `name` one after another.
pub open spec fn apply_writes(files: Map<Seq<char>, Seq<u8>>, name: Seq<char>, frags: Seq<Seq<u8>>) -> Map<Seq<char>, Seq<u8>>
    decreases frags.len(),
{
    if frags.len() == 0 {
        files
    } else {
        written(apply_writes(files, name, frags.drop_last()), name, frags.last())
    }
}

/// Two writes after a create leave the file holding the first data followed
/// by the second, whatever offsets the writes named.
pub proof fn lemma_create_then_two_writes(files: Map<Seq<char>, Seq<u8>>, name: Seq<char>, d1: Seq<u8>, d2: Seq<u8>)
    ensures
        written(written(files.insert(name, Seq::empty()), name, d1), name, d2).contains_key(name),
        written(written(files.insert(name, Seq::empty()), name, d1), name, d2)[name] == d1 + d2,
{
    assert(Seq::<u8>::empty() + d1 == d1);
}

/// A name that was never created reads as empty and takes no write.
pub proof fn lemma_absent_name(files: Map<Seq<char>, Seq<u8>>, name: Seq<char>, k: int, data: Seq<u8>)
    requires
        !files.contains_key(name),
        k >= 0,
    ensures
        read_result(files, name, 0, k) == Seq::<u8>::empty(),
        written(files, name, data) == files,
{
}

/// A read that starts at or past the end of a stored file is empty.
pub proof fn lemma_read_past_end(files: Map<Seq<char>, Seq<u8>>, name: Seq<char>, offset: int, k: int)
    requires
        files.contains_key(name),
        offset >= files[name].len(),
    ensures
        read_result(files, name, offset, k) == Seq::<u8>::empty(),
{
}

/// Data written to a freshly created file reads back unchanged.
pub proof fn lemma_round_trip(files: Map<Seq<char>, Seq<u8>>, name: Seq<char>, data: Seq<u8>)
    ensures
        read_result(written(files.insert(name, Seq::empty()), name, data), name, 0, data.len() as int) == data,
{
    assert(Seq::<u8>::empty() + data == data);
    assert(data.subrange(0, data.len() as int) == data);
}

/// Appends to a stored file, taken one at a time in whatever order they were
/// granted exclusive access, leave its old content followed by every fragment
/// exactly once in that order; its length grows by the sum of their lengths.
pub proof fn lemma_serialized_appends(files: Map<Seq<char>, Seq<u8>>, name: Seq<char>, frags: Seq<Seq<u8>>)
    requires
        files.contains_key(name),
    ensures
        apply_writes(files, name, frags) == files.insert(name, files[name] + joined(frags)),
        apply_writes(files, name, frags)[name].len() == files[name].len() + total_len(frags),
    decreases frags.len(),
{
    if frags.len() == 0 {
        assert(files[name] + joined(frags) == files[name]);
        assert(files.insert(name, files[name]) == files);
    } else {
        lemma_serialized_appends(files, name, frags.drop_last());
        let before = apply_writes(files, name, frags.drop_last());
        assert(before[name] + frags.last() == files[name] + joined(frags));
        assert(before.insert(name, before[name] + frags.last()) == files.insert(name, files[name] + joined(frags)));
        lemma_joined_len(frags);
    }
}

/// The joined fragments are as long as the fragments together.
pub proof fn lemma_joined_len(frags: Seq<Seq<u8>>)
    ensures
        joined(frags).len() == total_len(frags),
    decreases frags.len(),
{
    if frags.len() > 0 {
        lemma_joined_len(frags.drop_last());
    }
}

} // verus!
