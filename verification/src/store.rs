//! An in-memory model of the filesystem the pipeline touches.
//!
//! The pipeline observes the filesystem only at two grains: a source or
//! target location holding row-oriented records, and an artifact file
//! holding raw bytes. A `FileStore` maps paths to such contents; callers
//! that work against real files load them into a store first and write the
//! store's contents back out afterwards.

use vstd::prelude::*;

verus! {

/// The contents stored under one path.
pub enum FileData {
    /// Row-oriented records: rows of byte-string fields.
    Rows(Vec<Vec<Vec<u8>>>),
    /// Raw bytes, as an emitted artifact.
    Bytes(Vec<u8>),
}

/// The mathematical value of stored contents.
pub enum FileDataView {
    /// Row-oriented records.
    Rows(Seq<Seq<Seq<u8>>>),
    /// Raw bytes.
    Bytes(Seq<u8>),
}

impl View for FileData {
    type V = FileDataView;

    open spec fn view(&self) -> FileDataView {
        match self {
            FileData::Rows(r) => FileDataView::Rows(r.deep_view()),
            FileData::Bytes(b) => FileDataView::Bytes(b@),
        }
    }
}

struct Entry {
    path: String,
    data: FileData,
}

/// A path-to-contents map. Later writes to a path shadow earlier ones.
pub struct FileStore {
    entries: Vec<Entry>,
}

impl FileStore {
    /// The contents under path `p`: the most recently written entry.
    spec fn lookup(s: Seq<Entry>, p: Seq<char>) -> Option<FileDataView>
        decreases s.len(),
    {
        if s.len() == 0 {
            None
        } else if s.last().path@ == p {
            Some(s.last().data@)
        } else {
            Self::lookup(s.drop_last(), p)
        }
    }

    /// The contents the store holds under path `p`, if any.
    pub closed spec fn spec_get(&self, p: Seq<char>) -> Option<FileDataView> {
        Self::lookup(self.entries@, p)
    }

    /// Creates an empty store.
    pub fn new() -> (s: FileStore)
        ensures
            forall|p: Seq<char>| s.spec_get(p) is None,
    {
        let s = FileStore { entries: Vec::new() };
        proof {
            assert(forall|p: Seq<char>| Self::lookup(s.entries@, p) is None);
        }
        s
    }

    /// Writes `data` under `path`, shadowing any earlier contents there.
    pub fn put(&mut self, path: &str, data: FileData)
        ensures
            final(self).spec_get(path@) == Some(data@),
            forall|q: Seq<char>|
                q != path@ ==> final(self).spec_get(q) == old(self).spec_get(q),
    {
        let ghost pre = self.entries@;
        let ghost data_v = data@;
        self.entries.push(Entry { path: path.to_owned(), data });
        proof {
            assert(self.entries@.drop_last() =~= pre);
            assert(self.entries@.last().path@ == path@);
            assert(self.entries@.last().data@ == data_v);
        }
    }

    /// Reads the contents under `path`, if any.
    #[verifier::loop_isolation(false)]
    pub fn get(&self, path: &str) -> (r: Option<&FileData>)
        ensures
            match r {
                Some(v) => self.spec_get(path@) == Some(v@),
                None => self.spec_get(path@) is None,
            },
    {
        let p: String = path.to_owned();
        let mut k: usize = self.entries.len();
        proof {
            assert(self.entries@.take(self.entries@.len() as int) =~= self.entries@);
        }
        while k > 0
            invariant
                k <= self.entries@.len(),
                Self::lookup(self.entries@, path@) == Self::lookup(
                    self.entries@.take(k as int),
                    path@,
                ),
            decreases k,
        {
            k = k - 1;
            proof {
                assert(self.entries@.take(k as int + 1).last() == self.entries@[k as int]);
                assert(self.entries@.take(k as int + 1).drop_last() =~= self.entries@.take(
                    k as int,
                ));
            }
            if self.entries[k].path == p {
                return Some(&self.entries[k].data);
            }
        }
        proof {
            assert(self.entries@.take(0) =~= Seq::<Entry>::empty());
        }
        None
    }
}

} // verus!
