//! The files that programs are writing.
//!
//! MTP needs the size of a file before the bytes, and a program gives the bytes with no size in advance.
//! The host keeps the bytes until the program closes the file, and sends the file then.

use vstd::prelude::*;

use crate::text;

verus! {

/// A file a program is writing.
#[derive(Debug, Clone, PartialEq, Eq)]
pub struct Pending {
    /// The folder that holds the new file.
    pub parent: u32,
    /// The name of the new file.
    pub name: String,
    /// The bytes so far.
    pub data: Vec<u8>,
}

/// What a [`Pending`] holds.
pub struct PendingView {
    pub parent: u32,
    pub name: Seq<char>,
    pub data: Seq<u8>,
}

impl View for Pending {
    type V = PendingView;

    open spec fn view(&self) -> PendingView {
        PendingView { parent: self.parent, name: self.name@, data: self.data@ }
    }
}

/// The files that programs are writing, by path.
#[derive(Debug)]
pub struct PendingFiles {
    files: Vec<(String, Pending)>,
}

/// The files of a list, by path.
spec fn by_path(files: Seq<(String, Pending)>) -> Map<Seq<char>, PendingView>
    decreases files.len(),
{
    if files.len() == 0 {
        Map::empty()
    } else {
        by_path(files.drop_last()).insert(files.last().0@, files.last().1@)
    }
}

/// No path occurs twice.
spec fn distinct(files: Seq<(String, Pending)>) -> bool {
    forall|i: int, j: int|
        0 <= i < j < files.len() ==> (#[trigger] files[i]).0@ != (#[trigger] files[j]).0@
}

proof fn lemma_by_path(files: Seq<(String, Pending)>)
    requires
        distinct(files),
    ensures
        forall|i: int|
            0 <= i < files.len() ==> by_path(files).contains_key((#[trigger] files[i]).0@)
                && by_path(files)[files[i].0@] == files[i].1@,
        forall|p: Seq<char>| #[trigger]
            by_path(files).contains_key(p) ==> exists|i: int|
                0 <= i < files.len() && (#[trigger] files[i]).0@ == p,
    decreases files.len(),
{
    if files.len() > 0 {
        let front = files.drop_last();
        assert(distinct(front)) by {
            assert forall|i: int, j: int| 0 <= i < j < front.len() implies (#[trigger] front[i]).0@
                != (#[trigger] front[j]).0@ by {
                assert(files[i].0@ != files[j].0@);
            }
        }
        lemma_by_path(front);
        assert forall|i: int| 0 <= i < files.len() implies by_path(files).contains_key(
            (#[trigger] files[i]).0@,
        ) && by_path(files)[files[i].0@] == files[i].1@ by {
            if i < front.len() {
                assert(front[i] == files[i]);
                assert(files[i].0@ != files[files.len() - 1].0@);
            }
        }
        assert forall|p: Seq<char>| #[trigger] by_path(files).contains_key(p) implies exists|i: int|
            0 <= i < files.len() && (#[trigger] files[i]).0@ == p by {
            if p == files.last().0@ {
                assert(files[files.len() - 1].0@ == p);
            } else {
                assert(by_path(front).contains_key(p));
                let i = choose|i: int| 0 <= i < front.len() && (#[trigger] front[i]).0@ == p;
                assert(files[i].0@ == p);
            }
        }
    }
}

impl View for PendingFiles {
    type V = Map<Seq<char>, PendingView>;

    closed spec fn view(&self) -> Map<Seq<char>, PendingView> {
        by_path(self.files@)
    }
}

/// The bytes of a file with another length. A longer file ends with zeros.
pub open spec fn resized(data: Seq<u8>, len: int) -> Seq<u8> {
    Seq::new(
        len as nat,
        |i: int|
            if i < data.len() {
                data[i]
            } else {
                0u8
            },
    )
}

/// The bytes of a file after a write. A gap in front of the write is filled with zeros.
pub open spec fn written(data: Seq<u8>, offset: int, bytes: Seq<u8>) -> Seq<u8> {
    let end = offset + bytes.len();
    let len = if data.len() < end {
        end
    } else {
        data.len() as int
    };
    Seq::new(
        len as nat,
        |i: int|
            if offset <= i < end {
                bytes[i - offset]
            } else if i < data.len() {
                data[i]
            } else {
                0u8
            },
    )
}

impl PendingFiles {
    /// No path occurs twice.
    #[verifier::type_invariant]
    spec fn wf(self) -> bool {
        distinct(self.files@)
    }

    /// No file is being written.
    pub fn new() -> (r: Self)
        ensures
            r@ == Map::<Seq<char>, PendingView>::empty(),
    {
        PendingFiles { files: Vec::new() }
    }

    /// The position of a file.
    fn position(&self, path: &str) -> (r: Option<usize>)
        ensures
            match r {
                Some(i) => i < self.files@.len() && self.files@[i as int].0@ == path@
                    && self@.contains_key(path@) && self@[path@] == self.files@[i as int].1@,
                None => !self@.contains_key(path@),
            },
    {
        proof {
            use_type_invariant(self);
            lemma_by_path(self.files@);
        }
        let mut i: usize = 0;
        while i < self.files.len()
            invariant
                i <= self.files@.len(),
                forall|k: int| 0 <= k < i ==> (#[trigger] self.files@[k]).0@ != path@,
            decreases self.files@.len() - i,
        {
            if text::same(self.files[i].0.as_str(), path) {
                proof {
                    use_type_invariant(self);
                    lemma_by_path(self.files@);
                }
                return Some(i);
            }
            i = i + 1;
        }
        None
    }

    /// Gives a file that is being written.
    pub fn get(&self, path: &str) -> (r: Option<&Pending>)
        ensures
            match r {
                Some(p) => self@.contains_key(path@) && self@[path@] == p@,
                None => !self@.contains_key(path@),
            },
    {
        match self.position(path) {
            Some(i) => Some(&self.files[i].1),
            None => None,
        }
    }

    /// Takes a file out of the list.
    pub fn remove(&mut self, path: &str) -> (r: Option<Pending>)
        ensures
            final(self)@ == old(self)@.remove(path@),
            match r {
                Some(p) => old(self)@.contains_key(path@) && old(self)@[path@] == p@,
                None => !old(self)@.contains_key(path@),
            },
    {
        proof {
            use_type_invariant(&*self);
        }
        match self.position(path) {
            Some(i) => {
                let ghost before = self.files@;
                let mut files: Vec<(String, Pending)> = Vec::new();
                std::mem::swap(&mut files, &mut self.files);
                let taken = files.remove(i);
                proof {
                    lemma_removed(before, i as int);
                }
                self.files = files;
                Some(taken.1)
            },
            None => {
                proof {
                    assert(self@.remove(path@) =~= self@);
                }
                None
            },
        }
    }

    /// Starts a file, in place of one with the same path.
    pub fn insert(&mut self, path: String, p: Pending)
        ensures
            final(self)@ == old(self)@.insert(path@, p@),
    {
        self.remove(path.as_str());
        proof {
            use_type_invariant(&*self);
        }
        let ghost before = self.files@;
        let ghost without = self@;
        let mut files: Vec<(String, Pending)> = Vec::new();
        std::mem::swap(&mut files, &mut self.files);
        proof {
            lemma_by_path(before);
            let after = before.push((path, p));
            assert(after.drop_last() =~= before);
            assert forall|i: int, j: int| 0 <= i < j < after.len() implies (#[trigger] after[i]).0@
                != (#[trigger] after[j]).0@ by {
                if j == before.len() {
                    assert(without.contains_key(before[i].0@));
                }
            }
            assert(old(self)@.remove(path@).insert(path@, p@) =~= old(self)@.insert(path@, p@));
        }
        files.push((path, p));
        self.files = files;
    }

    /// Keeps the bytes of a write, and says whether the file is being written.
    pub fn write(&mut self, path: &str, offset: usize, bytes: &[u8]) -> (r: bool)
        requires
            offset + bytes@.len() <= usize::MAX,
        ensures
            r == old(self)@.contains_key(path@),
            final(self)@ == if r {
                let p = old(self)@[path@];
                old(self)@.insert(
                    path@,
                    PendingView { data: written(p.data, offset as int, bytes@), ..p },
                )
            } else {
                old(self)@
            },
    {
        match self.remove(path) {
            Some(p) => {
                let ghost before = p@;
                let mut data = p.data;
                let end: usize = offset + bytes.len();
                if data.len() < end {
                    let ghost short = data@;
                    data.resize(end, 0);
                    proof {
                        assert forall|k: int| 0 <= k < short.len() implies data@[k] == short[k] by {
                            assert(data@.subrange(0, short.len() as int)[k] == data@[k]);
                        }
                        assert(data@ =~= resized(short, end as int));
                    }
                }
                let ghost long = data@;
                let mut i: usize = 0;
                while i < bytes.len()
                    invariant
                        i <= bytes@.len(),
                        offset + bytes@.len() <= data@.len() <= usize::MAX,
                        data@.len() == long.len(),
                        forall|k: int|
                            0 <= k < data@.len() ==> #[trigger] data@[k] == if offset <= k < offset
                                + i {
                                bytes@[k - offset]
                            } else {
                                long[k]
                            },
                    decreases bytes@.len() - i,
                {
                    data.set(offset + i, bytes[i]);
                    i = i + 1;
                }
                proof {
                    assert(data@ =~= written(before.data, offset as int, bytes@));
                    assert(old(self)@.remove(path@).insert(
                        path@,
                        PendingView { data: data@, ..before },
                    ) =~= old(self)@.insert(path@, PendingView { data: data@, ..before }));
                }
                self.insert(
                    text::owned(path),
                    Pending { parent: p.parent, name: p.name, data },
                );
                true
            },
            None => {
                proof {
                    assert(old(self)@.remove(path@) =~= old(self)@);
                }
                false
            },
        }
    }

    /// Changes the size of a file, and says whether the file is being written.
    pub fn truncate(&mut self, path: &str, size: usize) -> (r: bool)
        ensures
            r == old(self)@.contains_key(path@),
            final(self)@ == if r {
                let p = old(self)@[path@];
                old(self)@.insert(path@, PendingView { data: resized(p.data, size as int), ..p })
            } else {
                old(self)@
            },
    {
        match self.remove(path) {
            Some(p) => {
                let ghost before = p@;
                let mut data = p.data;
                data.resize(size, 0);
                proof {
                    let short = before.data;
                    assert forall|k: int| 0 <= k < short.len() && k < size implies data@[k]
                        == short[k] by {
                        if size > short.len() {
                            assert(data@.subrange(0, short.len() as int)[k] == data@[k]);
                        }
                    }
                    assert(data@ =~= resized(short, size as int));
                    assert(old(self)@.remove(path@).insert(
                        path@,
                        PendingView { data: data@, ..before },
                    ) =~= old(self)@.insert(path@, PendingView { data: data@, ..before }));
                }
                self.insert(
                    text::owned(path),
                    Pending { parent: p.parent, name: p.name, data },
                );
                true
            },
            None => {
                proof {
                    assert(old(self)@.remove(path@) =~= old(self)@);
                }
                false
            },
        }
    }
}

proof fn lemma_removed(files: Seq<(String, Pending)>, i: int)
    requires
        distinct(files),
        0 <= i < files.len(),
    ensures
        distinct(files.remove(i)),
        by_path(files.remove(i)) == by_path(files).remove(files[i].0@),
{
    let rest = files.remove(i);
    let path = files[i].0@;
    lemma_by_path(files);
    assert forall|a: int, b: int| 0 <= a < b < rest.len() implies (#[trigger] rest[a]).0@ != (
    #[trigger] rest[b]).0@ by {
        let x = if a < i {
            a
        } else {
            a + 1
        };
        let y = if b < i {
            b
        } else {
            b + 1
        };
        assert(files[x].0@ != files[y].0@);
    }
    lemma_by_path(rest);
    let smaller = by_path(files).remove(path);
    assert forall|p: Seq<char>| by_path(rest).contains_key(p) <==> smaller.contains_key(p) by {
        if by_path(rest).contains_key(p) {
            let a = choose|a: int| 0 <= a < rest.len() && (#[trigger] rest[a]).0@ == p;
            let x = if a < i {
                a
            } else {
                a + 1
            };
            assert(files[x].0@ == p);
            if x < i {
                assert(files[x].0@ != files[i].0@);
            } else {
                assert(files[i].0@ != files[x].0@);
            }
        }
        if smaller.contains_key(p) {
            let x = choose|x: int| 0 <= x < files.len() && (#[trigger] files[x]).0@ == p;
            let a = if x < i {
                x
            } else {
                x - 1
            };
            assert(rest[a] == files[x]);
        }
    }
    assert forall|p: Seq<char>| by_path(rest).contains_key(p) implies #[trigger] by_path(rest)[p]
        == smaller[p] by {
        let a = choose|a: int| 0 <= a < rest.len() && (#[trigger] rest[a]).0@ == p;
        let x = if a < i {
            a
        } else {
            a + 1
        };
        assert(rest[a] == files[x]);
        assert(smaller.contains_key(p));
    }
    assert(by_path(rest) =~= smaller);
}

/// What a write stored is what the file holds there, and nothing else of the file changes.
pub proof fn law_a_write_changes_only_its_range(data: Seq<u8>, offset: int, bytes: Seq<u8>)
    requires
        0 <= offset,
    ensures
        ({
            let after = written(data, offset, bytes);
            &&& after.len() >= offset + bytes.len()
            &&& after.subrange(offset, offset + bytes.len()) == bytes
            &&& forall|i: int|
                0 <= i < data.len() && !(offset <= i < offset + bytes.len()) ==> after[i]
                    == data[i]
            &&& forall|i: int| data.len() <= i < offset ==> after[i] == 0
            &&& after.len() == data.len() || after.len() == offset + bytes.len()
        }),
{
    let after = written(data, offset, bytes);
    assert(after.subrange(offset, offset + bytes.len()) =~= bytes);
}

/// Writes one behind the other, from the start of a new file on, leave the bytes in the file in order.
pub proof fn law_writes_in_order_append(data: Seq<u8>, bytes: Seq<u8>)
    ensures
        written(data, data.len() as int, bytes) == data + bytes,
{
    assert(written(data, data.len() as int, bytes) =~= data + bytes);
}

/// A file that gets another length keeps its bytes up to that length, and every byte behind its old end is 0.
pub proof fn law_a_resized_file_keeps_its_front(data: Seq<u8>, len: int)
    requires
        0 <= len,
    ensures
        resized(data, len).len() == len,
        forall|i: int| 0 <= i < len && i < data.len() ==> #[trigger] resized(data, len)[i] == data[i],
        forall|i: int| data.len() <= i < len ==> #[trigger] resized(data, len)[i] == 0,
        len == data.len() ==> resized(data, len) == data,
{
    if len == data.len() {
        assert(resized(data, len) =~= data);
    }
}

/// No write makes a file shorter, and a write that ends behind the end of the file makes it end there.
pub proof fn law_how_long_a_written_file_is(data: Seq<u8>, offset: int, bytes: Seq<u8>)
    requires
        0 <= offset,
    ensures
        offset + bytes.len() >= data.len() ==> written(data, offset, bytes).len() == offset
            + bytes.len(),
        offset + bytes.len() < data.len() ==> written(data, offset, bytes).len() == data.len(),
{
}

/// What the files that are being written become: a new one stands under its path, a write and a cut change the
/// one under the path, and taking one out leaves the others.
pub proof fn law_what_happens_to_a_file(
    path: &str,
    name: String,
    p: Pending,
    offset: usize,
    bytes: &[u8],
    size: usize,
)
    ensures
        forall|f: &mut PendingFiles| #[trigger]
            call_ensures(PendingFiles::insert, (f, name, p), ()) ==> final(f)@ == (*f)@.insert(
                name@,
                p@,
            ),
        forall|f: &mut PendingFiles, r: bool| #[trigger]
            call_ensures(PendingFiles::write, (f, path, offset, bytes), r) ==> {
                &&& r <==> (*f)@.contains_key(path@)
                &&& r ==> final(f)@.contains_key(path@) && final(f)@[path@].data == written(
                    (*f)@[path@].data,
                    offset as int,
                    bytes@,
                ) && final(f)@.remove(path@) == (*f)@.remove(path@)
                &&& !r ==> final(f)@ == (*f)@
            },
        forall|f: &mut PendingFiles, r: bool| #[trigger]
            call_ensures(PendingFiles::truncate, (f, path, size), r) ==> {
                &&& r <==> (*f)@.contains_key(path@)
                &&& r ==> final(f)@.contains_key(path@) && final(f)@[path@].data == resized(
                    (*f)@[path@].data,
                    size as int,
                ) && final(f)@.remove(path@) == (*f)@.remove(path@)
                &&& !r ==> final(f)@ == (*f)@
            },
        forall|f: &mut PendingFiles, r: Option<Pending>| #[trigger]
            call_ensures(PendingFiles::remove, (f, path), r) ==> {
                &&& r is Some <==> (*f)@.contains_key(path@)
                &&& r is Some ==> r->0@ == (*f)@[path@]
                &&& final(f)@ == (*f)@.remove(path@)
            },
{
    assert forall|f: &mut PendingFiles, r: bool| #[trigger]
        call_ensures(PendingFiles::write, (f, path, offset, bytes), r) && r implies final(f)@.remove(
        path@,
    ) == (*f)@.remove(path@) by {
        assert(final(f)@.remove(path@) =~= (*f)@.remove(path@));
    }
    assert forall|f: &mut PendingFiles, r: bool| #[trigger]
        call_ensures(PendingFiles::truncate, (f, path, size), r) && r implies final(f)@.remove(
        path@,
    ) == (*f)@.remove(path@) by {
        assert(final(f)@.remove(path@) =~= (*f)@.remove(path@));
    }
}

} // verus!
