//! The open files of the virtual mounts. A virtual descriptor names its
//! file object by a handle; descriptors made by duplication or by a fork
//! hold the same handle and so share the object with its offset.

use crate::sqlite::SqliteFile;
use std::collections::HashMap;
use vstd::prelude::*;

verus! {

broadcast use vstd::std_specs::hash::group_hash_axioms;

/// What the table of open files holds: the file objects by handle, and the
/// handle that the next file object gets.
pub struct OpenFilesView {
    pub files: Map<u64, SqliteFile>,
    pub next: u64,
}

impl OpenFilesView {
    /// A file object stands behind the handle.
    pub open spec fn contains_key(self, id: u64) -> bool {
        self.files.contains_key(id)
    }

    /// The file object behind the handle.
    pub open spec fn spec_index(self, id: u64) -> SqliteFile {
        self.files[id]
    }

    /// The table with `file` behind the handle `id`.
    pub open spec fn insert(self, id: u64, file: SqliteFile) -> OpenFilesView {
        OpenFilesView { files: self.files.insert(id, file), ..self }
    }

    /// The table without the handle `id`.
    pub open spec fn remove(self, id: u64) -> OpenFilesView {
        OpenFilesView { files: self.files.remove(id), ..self }
    }

    /// The table after `file` was taken in under the next handle.
    pub open spec fn taken_in(self, file: SqliteFile) -> OpenFilesView {
        OpenFilesView { files: self.files.insert(self.next, file), next: (self.next + 1) as u64 }
    }
}

/// The file objects by handle.
#[derive(Debug)]
pub struct OpenFiles {
    files: HashMap<u64, SqliteFile>,
    next: u64,
}

impl View for OpenFiles {
    type V = OpenFilesView;

    closed spec fn view(&self) -> OpenFilesView {
        OpenFilesView { files: self.files@, next: self.next }
    }
}

impl OpenFiles {
    /// No handle in use is one still to be given out.
    pub closed spec fn wf(&self) -> bool {
        forall|id: u64| self.files@.contains_key(id) ==> id < self.next
    }

    /// In a sound table the next handle names nothing yet.
    pub proof fn lemma_next_is_new(&self)
        requires
            self.wf(),
        ensures
            !self@.contains_key(self@.next),
    {
    }

    /// No file objects.
    pub fn new() -> (r: Self)
        ensures
            r.wf(),
            r@ == (OpenFilesView { files: Map::<u64, SqliteFile>::empty(), next: 0 }),
    {
        OpenFiles { files: HashMap::new(), next: 0 }
    }

    /// Whether a handle is left for one more file object.
    pub fn has_room(&self) -> (r: bool)
        ensures
            r == (self@.next < u64::MAX),
    {
        self.next < u64::MAX
    }

    /// Takes a file object in and returns its handle; none, and nothing
    /// changes, where the handles have run out.
    pub fn insert(&mut self, file: SqliteFile) -> (r: Option<u64>)
        requires
            old(self).wf(),
        ensures
            final(self).wf(),
            match r {
                Some(id) => id == old(self)@.next && final(self)@ == old(self)@.taken_in(file),
                None => old(self)@.next == u64::MAX && final(self)@ == old(self)@,
            },
    {
        if self.next == u64::MAX {
            return None;
        }
        let id = self.next;
        self.files.insert(id, file);
        self.next = id + 1;
        Some(id)
    }

    /// The file object behind a handle.
    pub fn get(&self, id: u64) -> (r: Option<SqliteFile>)
        ensures
            match r {
                Some(f) => self@.contains_key(id) && self@[id] == f,
                None => !self@.contains_key(id),
            },
    {
        match self.files.get(&id) {
            Some(f) => Some(*f),
            None => None,
        }
    }

    /// Lets the file object behind a handle go.
    pub fn remove(&mut self, id: u64)
        requires
            old(self).wf(),
        ensures
            final(self).wf(),
            final(self)@ == old(self)@.remove(id),
    {
        let _ = self.files.remove(&id);
    }

    /// Records the new state of the file object behind a handle. A handle
    /// that names nothing is left so.
    pub fn put(&mut self, id: u64, file: SqliteFile)
        requires
            old(self).wf(),
        ensures
            final(self).wf(),
            old(self)@.contains_key(id) ==> final(self)@ == old(self)@.insert(id, file),
            !old(self)@.contains_key(id) ==> final(self)@ == old(self)@,
    {
        if self.files.contains_key(&id) {
            self.files.insert(id, file);
        }
    }
}

} // verus!
