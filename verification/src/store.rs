use vstd::prelude::*;

verus! {

/// One stored file: the client-supplied name and the bytes written so far.
pub struct StoredFile {
    pub name: String,
    pub data: Vec<u8>,
}

/// A model of one flat storage directory: files keyed solely by the
/// client-supplied filename, with no metadata beside the bytes. Creating a
/// name that already exists truncates it (the last writer wins), matching
/// the behaviour of the on-disk directory it stands for.
pub struct FileStore {
    files: Vec<StoredFile>,
}

impl FileStore {
    /// Well-formed: no two slots share a filename, so the directory view
    /// below is unambiguous.
    pub closed spec fn wf(self) -> bool {
        forall|i: int, j: int|
            0 <= i < j < self.files@.len() ==> self.files@[i].name@ != self.files@[j].name@
    }

    /// The directory's contents: filename to stored bytes.
    pub closed spec fn contents(self) -> Map<Seq<char>, Seq<u8>> {
        Map::new(
            |k: Seq<char>|
                exists|i: int| 0 <= i < self.files@.len() && self.files@[i].name@ == k,
            |k: Seq<char>|
                {
                    let i = choose|i: int|
                        0 <= i < self.files@.len() && self.files@[i].name@ == k;
                    self.files@[i].data@
                },
        )
    }

    /// Slot `i` is visible in the directory view, holding exactly its bytes.
    proof fn lemma_slot(self, i: int)
        requires
            self.wf(),
            0 <= i < self.files@.len(),
        ensures
            self.contents().contains_key(self.files@[i].name@),
            self.contents()[self.files@[i].name@] == self.files@[i].data@,
    {
        let k = self.files@[i].name@;
        assert(0 <= i < self.files@.len() && self.files@[i].name@ == k);
        let j = choose|j: int| 0 <= j < self.files@.len() && self.files@[j].name@ == k;
        if j < i {
            assert(self.files@[j].name@ != self.files@[i].name@);
        } else if i < j {
            assert(self.files@[i].name@ != self.files@[j].name@);
        }
    }

    /// Replacing the bytes of one slot, keeping its name, updates exactly
    /// that name in the directory view.
    proof fn lemma_update_slot(pre: Self, post: Self, i: int)
        requires
            pre.wf(),
            0 <= i < pre.files@.len(),
            post.files@.len() == pre.files@.len(),
            forall|j: int|
                0 <= j < pre.files@.len() && j != i ==> post.files@[j] == pre.files@[j],
            post.files@[i].name@ == pre.files@[i].name@,
        ensures
            post.wf(),
            post.contents() == pre.contents().insert(
                pre.files@[i].name@,
                post.files@[i].data@,
            ),
    {
        let n = pre.files@.len();
        let nm = pre.files@[i].name@;
        assert(forall|j: int| 0 <= j < n ==> post.files@[j].name@ == pre.files@[j].name@);
        assert(post.wf());
        let m2 = pre.contents().insert(nm, post.files@[i].data@);
        assert forall|k: Seq<char>| post.contents().contains_key(k) implies m2.contains_key(k)
            && post.contents()[k] == m2[k] by {
            let j = choose|j: int| 0 <= j < n && post.files@[j].name@ == k;
            post.lemma_slot(j);
            if j == i {
                assert(k == nm);
            } else {
                assert(pre.files@[j].name@ == k);
                pre.lemma_slot(j);
                if j < i {
                    assert(pre.files@[j].name@ != pre.files@[i].name@);
                } else {
                    assert(pre.files@[i].name@ != pre.files@[j].name@);
                }
            }
        }
        assert forall|k: Seq<char>| m2.contains_key(k) implies post.contents().contains_key(
            k,
        ) by {
            if k == nm {
                assert(0 <= i < n && post.files@[i].name@ == k);
            } else {
                let j = choose|j: int| 0 <= j < n && pre.files@[j].name@ == k;
                assert(0 <= j < n && post.files@[j].name@ == k);
            }
        }
        assert(post.contents() =~= m2);
    }

    /// Adding a slot under a fresh name inserts exactly that name into the
    /// directory view.
    proof fn lemma_push_slot(pre: Self, post: Self)
        requires
            pre.wf(),
            post.files@.len() == pre.files@.len() + 1,
            forall|j: int| 0 <= j < pre.files@.len() ==> post.files@[j] == pre.files@[j],
            forall|j: int|
                0 <= j < pre.files@.len() ==> pre.files@[j].name@ != post.files@[
                    pre.files@.len() as int
                ].name@,
        ensures
            post.wf(),
            post.contents() == pre.contents().insert(
                post.files@[pre.files@.len() as int].name@,
                post.files@[pre.files@.len() as int].data@,
            ),
    {
        let n = pre.files@.len();
        let nm = post.files@[n as int].name@;
        assert(forall|j: int| 0 <= j < n ==> post.files@[j].name@ == pre.files@[j].name@);
        assert(post.wf());
        let m2 = pre.contents().insert(nm, post.files@[n as int].data@);
        assert forall|k: Seq<char>| post.contents().contains_key(k) implies m2.contains_key(k)
            && post.contents()[k] == m2[k] by {
            let j = choose|j: int| 0 <= j < n + 1 && post.files@[j].name@ == k;
            post.lemma_slot(j);
            if j == n {
                assert(k == nm);
            } else {
                assert(pre.files@[j].name@ == k);
                pre.lemma_slot(j);
                assert(k != nm);
            }
        }
        assert forall|k: Seq<char>| m2.contains_key(k) implies post.contents().contains_key(
            k,
        ) by {
            if k == nm {
                assert(0 <= n < n + 1 && post.files@[n as int].name@ == k);
            } else {
                let j = choose|j: int| 0 <= j < n && pre.files@[j].name@ == k;
                assert(0 <= j < n + 1 && post.files@[j].name@ == k);
            }
        }
        assert(post.contents() =~= m2);
    }

    /// An empty directory.
    pub fn new() -> (s: FileStore)
        ensures
            s.wf(),
            s.contents() == Map::<Seq<char>, Seq<u8>>::empty(),
    {
        let s = FileStore { files: Vec::new() };
        proof {
            assert(s.contents() =~= Map::<Seq<char>, Seq<u8>>::empty());
        }
        s
    }

    /// Finds the slot holding `name`, if any.
    fn find_slot(&self, name: &str) -> (r: Option<usize>)
        requires
            self.wf(),
        ensures
            match r {
                Some(i) => i < self.files@.len() && self.files@[i as int].name@ == name@,
                None => !self.contents().contains_key(name@),
            },
    {
        let n = self.files.len();
        let mut i: usize = 0;
        while i < n
            invariant
                n == self.files@.len(),
                0 <= i <= n,
                forall|j: int| 0 <= j < i ==> self.files@[j].name@ != name@,
            decreases n - i,
        {
            if str_eq(self.files[i].name.as_str(), name) {
                return Some(i);
            }
            i += 1;
        }
        None
    }

    /// Whether a file of this name exists in the directory.
    pub fn contains(&self, name: &str) -> (r: bool)
        requires
            self.wf(),
        ensures
            r == self.contents().contains_key(name@),
    {
        match self.find_slot(name) {
            Some(i) => {
                proof {
                    self.lemma_slot(i as int);
                }
                true
            },
            None => false,
        }
    }

    /// Creates the file `name`, truncating any previous bytes stored under
    /// that name: afterwards the directory holds the empty byte sequence
    /// there, and every other name is untouched.
    pub fn create(&mut self, name: &str)
        requires
            old(self).wf(),
        ensures
            final(self).wf(),
            final(self).contents() == old(self).contents().insert(name@, Seq::<u8>::empty()),
    {
        let slot = self.find_slot(name);
        match slot {
            Some(i) => {
                let entry = self.files.remove(i);
                let emptied = StoredFile { name: entry.name, data: Vec::new() };
                self.files.insert(i, emptied);
                proof {
                    assert(self.files@ =~= old(self).files@.update(
                        i as int,
                        self.files@[i as int],
                    ));
                    Self::lemma_update_slot(*old(self), *self, i as int);
                }
            },
            None => {
                let fresh = StoredFile { name: String::from_str(name), data: Vec::new() };
                self.files.push(fresh);
                proof {
                    assert forall|j: int| 0 <= j < old(self).files@.len() implies old(
                        self,
                    ).files@[j].name@ != self.files@[old(self).files@.len() as int].name@ by {
                        if old(self).files@[j].name@ == name@ {
                            old(self).lemma_slot(j);
                        }
                    }
                    Self::lemma_push_slot(*old(self), *self);
                }
            },
        }
    }

    /// Appends `chunk` to the file `name`: the stored bytes become the old
    /// bytes followed by the chunk, in order, and every other name is
    /// untouched.
    pub fn append(&mut self, name: &str, chunk: &[u8])
        requires
            old(self).wf(),
            old(self).contents().contains_key(name@),
        ensures
            final(self).wf(),
            final(self).contents() == old(self).contents().insert(
                name@,
                old(self).contents()[name@] + chunk@,
            ),
    {
        let slot = self.find_slot(name);
        match slot {
            Some(i) => {
                proof {
                    old(self).lemma_slot(i as int);
                }
                let mut entry = self.files.remove(i);
                let ghost prior = entry.data@;
                let m = chunk.len();
                let mut j: usize = 0;
                while j < m
                    invariant
                        m == chunk@.len(),
                        0 <= j <= m,
                        entry.name@ == old(self).files@[i as int].name@,
                        entry.data@ == prior + chunk@.take(j as int),
                    decreases m - j,
                {
                    entry.data.push(chunk[j]);
                    proof {
                        assert(prior + chunk@.take(j as int + 1) =~= (prior + chunk@.take(
                            j as int,
                        )).push(chunk@[j as int]));
                    }
                    j += 1;
                }
                proof {
                    assert(chunk@.take(m as int) =~= chunk@);
                }
                self.files.insert(i, entry);
                proof {
                    assert(self.files@ =~= old(self).files@.update(
                        i as int,
                        self.files@[i as int],
                    ));
                    Self::lemma_update_slot(*old(self), *self, i as int);
                }
            },
            None => {
                proof {
                    assert(false);
                }
            },
        }
    }

    /// Reads the full contents of the file `name`, or nothing when no such
    /// file exists.
    pub fn read(&self, name: &str) -> (r: Option<Vec<u8>>)
        requires
            self.wf(),
        ensures
            match r {
                Some(data) => self.contents().contains_key(name@) && data@
                    == self.contents()[name@],
                None => !self.contents().contains_key(name@),
            },
    {
        match self.find_slot(name) {
            Some(i) => {
                proof {
                    self.lemma_slot(i as int);
                }
                let stored = &self.files[i].data;
                let n = stored.len();
                let mut out: Vec<u8> = Vec::new();
                let mut j: usize = 0;
                while j < n
                    invariant
                        n == stored@.len(),
                        0 <= j <= n,
                        out@ == stored@.take(j as int),
                    decreases n - j,
                {
                    out.push(stored[j]);
                    proof {
                        assert(stored@.take(j as int + 1) =~= stored@.take(j as int).push(
                            stored@[j as int],
                        ));
                    }
                    j += 1;
                }
                proof {
                    assert(stored@.take(n as int) =~= stored@);
                }
                Some(out)
            },
            None => None,
        }
    }
}

/// Character-by-character string equality, decided without assuming anything
/// of how the strings were built.
fn str_eq(a: &str, b: &str) -> (r: bool)
    ensures
        r == (a@ == b@),
{
    let la = a.unicode_len();
    let lb = b.unicode_len();
    if la != lb {
        return false;
    }
    let mut i: usize = 0;
    while i < la
        invariant
            la == a@.len(),
            lb == b@.len(),
            la == lb,
            0 <= i <= la,
            forall|j: int| 0 <= j < i ==> a@[j] == b@[j],
        decreases la - i,
    {
        if a.get_char(i) != b.get_char(i) {
            return false;
        }
        i += 1;
    }
    proof {
        assert(a@ =~= b@);
    }
    true
}

} // verus!
