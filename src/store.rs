use vstd::prelude::*;

verus! {

/// The bytes of `content` from `offset` on, at most `count` of them; nothing
/// when `offset` lies at or past the end.
pub open spec fn clamped_slice(content: Seq<u8>, offset: int, count: int) -> Seq<u8> {
    if offset >= content.len() {
        Seq::empty()
    } else if offset + count >= content.len() {
        content.subrange(offset, content.len() as int)
    } else {
        content.subrange(offset, offset + count)
    }
}

/// What a read of `name` at `offset` for `count` bytes yields: an absent name
/// reads as an empty file.
pub open spec fn read_result(files: Map<Seq<char>, Seq<u8>>, name: Seq<char>, offset: int, count: int) -> Seq<u8> {
    if files.contains_key(name) {
        clamped_slice(files[name], offset, count)
    } else {
        Seq::empty()
    }
}

/// The store after `data` was written to `name`: appended to an existing file,
/// nothing at all for an absent name.
pub open spec fn written(files: Map<Seq<char>, Seq<u8>>, name: Seq<char>, data: Seq<u8>) -> Map<Seq<char>, Seq<u8>> {
    if files.contains_key(name) {
        files.insert(name, files[name] + data)
    } else {
        files
    }
}

/// Up to `count` bytes of `content` from `offset` on.
pub fn window(content: &Vec<u8>, offset: u64, count: u64) -> (r: Vec<u8>)
    ensures
        r@ == clamped_slice(content@, offset as int, count as int),
{
    let mut out: Vec<u8> = Vec::new();
    if offset < content.len() as u64 {
        let start = offset as usize;
        let end: usize = if count >= (content.len() - start) as u64 {
            content.len()
        } else {
            start + count as usize
        };
        let mut k: usize = start;
        while k < end
            invariant
                start <= k <= end <= content@.len(),
                out@ == content@.subrange(start as int, k as int),
            decreases end - k,
        {
            out.push(content[k]);
            k = k + 1;
        }
    }
    proof {
        assert(out@ =~= clamped_slice(content@, offset as int, count as int));
    }
    out
}

/// The shared mapping from file name to content. Names are unique and listed
/// in the order in which they were first created.
pub struct FileStore {
    entries: Vec<(String, Vec<u8>)>,
    files: Ghost<Map<Seq<char>, Seq<u8>>>,
}

impl View for FileStore {
    type V = Map<Seq<char>, Seq<u8>>;

    closed spec fn view(&self) -> Map<Seq<char>, Seq<u8>> {
        self.files@
    }
}

impl FileStore {
    /// The stored names, in listing order.
    pub closed spec fn order(&self) -> Seq<Seq<char>> {
        self.entries@.map_values(|e: (String, Vec<u8>)| e.0@)
    }

    /// Names are unique and the listing order covers exactly the stored names.
    pub open spec fn wf(&self) -> bool {
        &&& self.inner_wf()
        &&& self.order().no_duplicates()
        &&& self.order().to_set() == self@.dom()
    }

    /// The entries carry distinct names, and the ghost map holds exactly the
    /// entries' names with their contents.
    pub closed spec fn inner_wf(&self) -> bool {
        &&& forall|i: int, j: int|
            0 <= i < j < self.entries@.len() ==> self.entries@[i].0@ != self.entries@[j].0@
        &&& forall|i: int|
            0 <= i < self.entries@.len() ==> #[trigger] self.files@.contains_key(self.entries@[i].0@)
                && self.files@[self.entries@[i].0@] == self.entries@[i].1@
        &&& forall|n: Seq<char>|
            #[trigger] self.files@.contains_key(n) ==> exists|i: int|
                0 <= i < self.entries@.len() && self.entries@[i].0@ == n
    }

    /// The entry-level invariant gives the public one.
    proof fn lemma_wf(&self)
        requires
            self.inner_wf(),
        ensures
            self.wf(),
    {
        let o = self.order();
        assert forall|i: int, j: int| 0 <= i < o.len() && 0 <= j < o.len() && i != j implies o[i] != o[j] by {
            if j < i {
                assert(self.entries@[j].0@ != self.entries@[i].0@);
            }
        }
        assert forall|n: Seq<char>| o.to_set().contains(n) <==> self@.dom().contains(n) by {
            if self@.dom().contains(n) {
                let i = choose|i: int| 0 <= i < self.entries@.len() && self.entries@[i].0@ == n;
                assert(o[i] == n);
            }
            if o.to_set().contains(n) {
                let i = choose|i: int| 0 <= i < o.len() && o[i] == n;
                assert(self.files@.contains_key(self.entries@[i].0@));
            }
        }
        assert(o.to_set() =~= self@.dom());
    }

    /// An empty store.
    pub fn new() -> (r: FileStore)
        ensures
            r.wf(),
            r@ == Map::<Seq<char>, Seq<u8>>::empty(),
            r.order() == Seq::<Seq<char>>::empty(),
    {
        let r = FileStore { entries: Vec::new(), files: Ghost(Map::empty()) };
        proof {
            r.lemma_wf();
            assert(r.order() =~= Seq::<Seq<char>>::empty());
        }
        r
    }

    /// The index of the entry called `name`, if there is one.
    fn find(&self, name: &String) -> (r: Option<usize>)
        requires
            self.wf(),
        ensures
            match r {
                Some(i) => i < self.entries@.len() && self.entries@[i as int].0@ == name@,
                None => !self@.contains_key(name@),
            },
    {
        let mut i: usize = 0;
        while i < self.entries.len()
            invariant
                self.wf(),
                0 <= i <= self.entries@.len(),
                forall|j: int| 0 <= j < i ==> self.entries@[j].0@ != name@,
            decreases self.entries@.len() - i,
        {
            if self.entries[i].0 == *name {
                return Some(i);
            }
            i = i + 1;
        }
        None
    }

    /// Whether a file called `name` is stored.
    pub fn contains(&self, name: &String) -> (r: bool)
        requires
            self.wf(),
        ensures
            r == self@.contains_key(name@),
    {
        match self.find(name) {
            Some(i) => {
                proof {
                    assert(self.files@.contains_key(self.entries@[i as int].0@));
                }
                true
            },
            None => false,
        }
    }

    /// Creates `name` with empty content, truncating it if it was already
    /// stored. A new name goes to the end of the listing order.
    pub fn create(&mut self, name: &String)
        requires
            old(self).wf(),
        ensures
            final(self).wf(),
            final(self)@ == old(self)@.insert(name@, Seq::<u8>::empty()),
            old(self)@.contains_key(name@) ==> final(self).order() == old(self).order(),
            !old(self)@.contains_key(name@) ==> final(self).order() == old(self).order().push(name@),
    {
        match self.find(name) {
            Some(i) => {
                self.entries.set(i, (name.clone(), Vec::new()));
                proof {
                    self.files@ = self.files@.insert(name@, Seq::<u8>::empty());
                    assert forall|j: int| 0 <= j < self.entries@.len() implies
                        #[trigger] self.entries@[j].0@ == old(self).entries@[j].0@ by {}
                    assert forall|j: int| 0 <= j < self.entries@.len() implies #[trigger] self.files@.contains_key(self.entries@[j].0@)
                        && self.files@[self.entries@[j].0@] == self.entries@[j].1@ by {
                        assert(old(self).files@.contains_key(old(self).entries@[j].0@));
                    }
                    assert forall|n: Seq<char>| #[trigger] self.files@.contains_key(n) implies exists|j: int|
                        0 <= j < self.entries@.len() && self.entries@[j].0@ == n by {
                        assert(old(self).files@.contains_key(n));
                        let j = choose|j: int| 0 <= j < old(self).entries@.len() && old(self).entries@[j].0@ == n;
                        assert(self.entries@[j].0@ == n);
                    }
                    assert(self.order() =~= old(self).order());
                }
            },
            None => {
                self.entries.push((name.clone(), Vec::new()));
                proof {
                    self.files@ = self.files@.insert(name@, Seq::<u8>::empty());
                    assert(self.order() =~= old(self).order().push(name@));
                    assert forall|j: int| 0 <= j < self.entries@.len() implies #[trigger] self.files@.contains_key(self.entries@[j].0@)
                        && self.files@[self.entries@[j].0@] == self.entries@[j].1@ by {
                        if j < old(self).entries@.len() {
                            assert(old(self).files@.contains_key(old(self).entries@[j].0@));
                        }
                    }
                    assert forall|n: Seq<char>| #[trigger] self.files@.contains_key(n) implies exists|i: int|
                        0 <= i < self.entries@.len() && self.entries@[i].0@ == n by {
                        if n != name@ {
                            assert(old(self).files@.contains_key(n));
                            let j = choose|j: int| 0 <= j < old(self).entries@.len() && old(self).entries@[j].0@ == n;
                            assert(self.entries@[j].0@ == n);
                        } else {
                            assert(self.entries@[self.entries@.len() - 1].0@ == n);
                        }
                    }
                }
            },
        }
        proof {
            self.lemma_wf();
        }
    }

    /// Appends `data` to the content of `name`, whatever the offset; returns
    /// the number of bytes taken. An absent name takes nothing and returns 0.
    pub fn write(&mut self, name: &String, offset: u64, data: &[u8]) -> (r: usize)
        requires
            old(self).wf(),
        ensures
            final(self).wf(),
            final(self)@ == written(old(self)@, name@, data@),
            final(self).order() == old(self).order(),
            r == if old(self)@.contains_key(name@) { data@.len() } else { 0 },
    {
        match self.find(name) {
            Some(i) => {
                let entry = &mut self.entries[i];
                let mut k: usize = 0;
                while k < data.len()
                    invariant
                        0 <= k <= data@.len(),
                        i < old(self).entries@.len(),
                        entry.0@ == old(self).entries@[i as int].0@,
                        entry.1@ == old(self).entries@[i as int].1@ + data@.subrange(0, k as int),
                    decreases data@.len() - k,
                {
                    entry.1.push(data[k]);
                    k = k + 1;
                }
                proof {
                    assert(data@.subrange(0, data@.len() as int) == data@);
                    assert(old(self).files@.contains_key(old(self).entries@[i as int].0@));
                    self.files@ = self.files@.insert(name@, old(self).files@[name@] + data@);
                    assert(self.order() =~= old(self).order());
                    assert forall|n: Seq<char>| #[trigger] self.files@.contains_key(n) implies exists|j: int|
                        0 <= j < self.entries@.len() && self.entries@[j].0@ == n by {
                        assert(old(self).files@.contains_key(n));
                        let j = choose|j: int| 0 <= j < old(self).entries@.len() && old(self).entries@[j].0@ == n;
                        assert(self.entries@[j].0@ == n);
                    }
                    assert(self.entries@ == old(self).entries@.update(i as int, self.entries@[i as int]));
                    assert forall|j: int| 0 <= j < self.entries@.len() implies #[trigger] self.files@.contains_key(self.entries@[j].0@)
                        && self.files@[self.entries@[j].0@] == self.entries@[j].1@ by {
                        assert(old(self).files@.contains_key(old(self).entries@[j].0@));
                    }
                    self.lemma_wf();
                }
                data.len()
            },
            None => 0,
        }
    }

    /// Up to `count` bytes of `name` from `offset` on; empty past the end of
    /// the content and for an absent name.
    pub fn read(&self, name: &String, offset: u64, count: u64) -> (r: Vec<u8>)
        requires
            self.wf(),
        ensures
            r@ == read_result(self@, name@, offset as int, count as int),
    {
        match self.find(name) {
            Some(i) => {
                let content = &self.entries[i].1;
                proof {
                    assert(self.files@.contains_key(self.entries@[i as int].0@));
                }
                let out = window(content, offset, count);
                proof {
                    assert(out@ =~= read_result(self@, name@, offset as int, count as int));
                }
                out
            },
            None => Vec::new(),
        }
    }

    /// The length of the content of `name`, if it is stored.
    pub fn size(&self, name: &String) -> (r: Option<usize>)
        requires
            self.wf(),
        ensures
            match r {
                Some(len) => self@.contains_key(name@) && len == self@[name@].len(),
                None => !self@.contains_key(name@),
            },
    {
        match self.find(name) {
            Some(i) => {
                proof {
                    assert(self.files@.contains_key(self.entries@[i as int].0@));
                }
                Some(self.entries[i].1.len())
            },
            None => None,
        }
    }

    /// The stored names, in listing order: each stored name exactly once.
    pub fn list_root(&self) -> (r: Vec<String>)
        requires
            self.wf(),
        ensures
            r@.map_values(|s: String| s@) == self.order(),
            r@.map_values(|s: String| s@).to_set() == self@.dom(),
            r@.map_values(|s: String| s@).no_duplicates(),
    {
        let mut out: Vec<String> = Vec::new();
        let mut i: usize = 0;
        while i < self.entries.len()
            invariant
                0 <= i <= self.entries@.len(),
                out@.len() == i,
                out@.map_values(|s: String| s@) == self.order().subrange(0, i as int),
            decreases self.entries@.len() - i,
        {
            let ghost prev = out@;
            out.push(self.entries[i].0.clone());
            proof {
                assert(out@ == prev.push(out@[i as int]));
                assert(self.order()[i as int] == self.entries@[i as int].0@);
                assert(out@.map_values(|s: String| s@) =~= self.order().subrange(0, i + 1));
            }
            i = i + 1;
        }
        proof {
            assert(self.order().subrange(0, self.entries@.len() as int) =~= self.order());
        }
        out
    }
}

} // verus!
