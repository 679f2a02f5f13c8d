//! The mount table: which backing filesystem serves which part of the
//! guest's tree.
//!
//! Mounts are kept deepest first, and a path goes to the first mount that
//! accepts it: the mount with the longest matching prefix.

use crate::bind::BindVfs;
use crate::error::VfsError;
use crate::passthrough::{PassthroughFile, PassthroughVfs};
use crate::path::{
    clean, depth, lemma_depth_strict, path_depth, translated, under_root,
};
use crate::sqlite::{virtual_marker, SqliteVfs};
use crate::text::to_chars;
use vstd::prelude::*;

verus! {

/// A backing filesystem of one of the kinds the sandbox knows.
#[derive(Debug, Clone)]
pub enum Vfs {
    Bind(BindVfs),
    Passthrough(PassthroughVfs),
    Sqlite(SqliteVfs),
}

impl Vfs {
    /// The path of the guest's tree that the filesystem is written for.
    pub open spec fn root(&self) -> Seq<char> {
        match self {
            Vfs::Bind(b) => b@.sandbox_root,
            Vfs::Passthrough(p) => p@.sandbox_root,
            Vfs::Sqlite(s) => s.spec_mount_point(),
        }
    }

    /// What the filesystem makes of `path`: a host path, a marked path, or
    /// nothing where `path` is not its own.
    pub open spec fn translates(&self, path: Seq<char>) -> Option<Seq<char>> {
        match self {
            Vfs::Bind(b) => translated(b@.host_root, b@.sandbox_root, path),
            Vfs::Passthrough(p) => translated(p@.host_root, p@.sandbox_root, path),
            Vfs::Sqlite(s) => if under_root(s.spec_mount_point(), path) {
                Some(virtual_marker() + path)
            } else {
                None
            },
        }
    }

    /// The filesystem takes `path` as its own.
    pub open spec fn accepts(&self, path: Seq<char>) -> bool {
        self.translates(path) is Some
    }

    /// The filesystem serves its files in-process.
    pub open spec fn spec_is_virtual(&self) -> bool {
        self is Sqlite
    }

    /// A filesystem accepts exactly the paths under its root.
    pub proof fn lemma_accepts_under_root(&self, path: Seq<char>)
        ensures
            self.accepts(path) == under_root(self.root(), path),
    {
    }

    /// The translated path for `path`; `NotFound` where `path` is not under
    /// the filesystem's root.
    pub fn translate_path(&self, path: &str) -> (r: Result<String, VfsError>)
        ensures
            match self.translates(path@) {
                Some(p) => r is Ok && r->Ok_0@ == p,
                None => r == Err::<String, VfsError>(VfsError::NotFound),
            },
    {
        match self {
            Vfs::Bind(b) => b.translate_path(path),
            Vfs::Passthrough(p) => p.translate_path(path),
            Vfs::Sqlite(s) => s.translate_path(path),
        }
    }

    /// Whether handlers must serve calls from the filesystem itself (true)
    /// or inject rewritten calls into the kernel (false).
    pub fn is_virtual(&self) -> (r: bool)
        ensures
            r == self.spec_is_virtual(),
    {
        match self {
            Vfs::Bind(b) => b.is_virtual(),
            Vfs::Passthrough(p) => p.is_virtual(),
            Vfs::Sqlite(s) => s.is_virtual(),
        }
    }
}

/// One line of the mount table.
#[derive(Debug, Clone)]
pub struct MountPoint {
    /// The path as the guest sees it.
    pub sandbox_path: String,
    /// The filesystem behind it.
    pub vfs: Vfs,
}

/// The mounts of a sandbox, deepest first.
#[derive(Debug)]
pub struct MountTable {
    mounts: Vec<MountPoint>,
}

impl View for MountTable {
    type V = Seq<MountPoint>;

    closed spec fn view(&self) -> Seq<MountPoint> {
        self.mounts@
    }
}

/// No mount stands before a deeper one.
pub open spec fn deepest_first(mounts: Seq<MountPoint>) -> bool {
    forall|i: int, j: int|
        0 <= i < j < mounts.len() ==> depth(mounts[i].sandbox_path@) >= depth(
            mounts[j].sandbox_path@,
        )
}

/// Where a mount of depth `d` goes: behind every mount that is at least as
/// deep, before every shallower one.
pub open spec fn insertion_point(mounts: Seq<MountPoint>, d: nat, k: int) -> bool {
    &&& 0 <= k <= mounts.len()
    &&& forall|j: int| 0 <= j < k ==> depth(#[trigger] mounts[j].sandbox_path@) >= d
    &&& forall|j: int| k <= j < mounts.len() ==> depth(#[trigger] mounts[j].sandbox_path@) < d
}

/// `i` is the first mount that accepts `path`.
pub open spec fn first_accepting(mounts: Seq<MountPoint>, path: Seq<char>, i: int) -> bool {
    &&& 0 <= i < mounts.len()
    &&& mounts[i].vfs.accepts(path)
    &&& forall|j: int| 0 <= j < i ==> !(#[trigger] mounts[j]).vfs.accepts(path)
}

/// No mount accepts `path`.
pub open spec fn none_accepting(mounts: Seq<MountPoint>, path: Seq<char>) -> bool {
    forall|j: int| 0 <= j < mounts.len() ==> !(#[trigger] mounts[j]).vfs.accepts(path)
}

/// Every mount is listed under the root that its filesystem is written for,
/// and that root is clean.
pub open spec fn consistent(mounts: Seq<MountPoint>) -> bool {
    forall|k: int|
        0 <= k < mounts.len() ==> (#[trigger] mounts[k]).sandbox_path@ == mounts[k].vfs.root()
            && clean(mounts[k].vfs.root())
}

/// Resolution finds the longest prefix. In a table that stands deepest
/// first, whose mounts are listed under the clean roots of their
/// filesystems, no mount that accepts `path` has a longer root than the
/// first mount that accepts it.
pub proof fn lemma_longest_prefix_wins(mounts: Seq<MountPoint>, path: Seq<char>, i: int, j: int)
    requires
        deepest_first(mounts),
        consistent(mounts),
        first_accepting(mounts, path, i),
        0 <= j < mounts.len(),
        mounts[j].vfs.accepts(path),
    ensures
        mounts[j].vfs.root().len() <= mounts[i].vfs.root().len(),
        depth(mounts[j].vfs.root()) <= depth(mounts[i].vfs.root()),
{
    let a = mounts[i].vfs.root();
    let b = mounts[j].vfs.root();
    mounts[i].vfs.lemma_accepts_under_root(path);
    mounts[j].vfs.lemma_accepts_under_root(path);
    assert(mounts[i].sandbox_path@ == a && mounts[j].sandbox_path@ == b);
    assert(i <= j);
    if a.len() < b.len() {
        lemma_depth_strict(a, b, path);
    }
}

impl MountTable {
    /// The mounts stand deepest first.
    pub closed spec fn wf(&self) -> bool {
        deepest_first(self.mounts@)
    }

    /// In a sound table no mount stands before a deeper one.
    pub proof fn lemma_deepest_first(&self)
        requires
            self.wf(),
        ensures
            deepest_first(self@),
    {
    }

    /// A table without mounts.
    pub fn new() -> (t: Self)
        ensures
            t.wf(),
            t@ == Seq::<MountPoint>::empty(),
    {
        MountTable { mounts: Vec::new() }
    }

    /// How deep the mount at position `k` is.
    fn depth_at(&self, k: usize) -> (r: usize)
        requires
            k < self.mounts@.len(),
        ensures
            r == depth(self.mounts@[k as int].sandbox_path@),
    {
        let here = to_chars(self.mounts[k].sandbox_path.as_str());
        path_depth(here.as_slice())
    }

    /// Adds a mount. It goes behind the mounts that are at least as deep and
    /// before the shallower ones, so that the table stays deepest first and
    /// mounts of one depth keep the order in which they were added.
    pub fn add_mount(&mut self, sandbox_path: String, vfs: Vfs)
        requires
            old(self).wf(),
        ensures
            final(self).wf(),
            exists|k: int|
                insertion_point(old(self)@, depth(sandbox_path@), k) && final(self)@ == old(
                    self,
                )@.insert(k, MountPoint { sandbox_path, vfs }),
    {
        let chars = to_chars(sandbox_path.as_str());
        let d = path_depth(chars.as_slice());
        let mut k: usize = 0;
        while k < self.mounts.len() && self.depth_at(k) >= d
            invariant
                k <= self.mounts@.len(),
                self.mounts@ == old(self).mounts@,
                forall|j: int| 0 <= j < k ==> depth(#[trigger] self.mounts@[j].sandbox_path@) >= d,
                deepest_first(self.mounts@),
            decreases self.mounts.len() - k,
        {
            k += 1;
        }
        proof {
            assert forall|j: int| k <= j < self.mounts@.len() implies depth(
                #[trigger] self.mounts@[j].sandbox_path@,
            ) < d by {
                if j > k {
                    assert(depth(self.mounts@[k as int].sandbox_path@) >= depth(
                        self.mounts@[j].sandbox_path@,
                    ));
                }
            }
            assert(insertion_point(old(self)@, depth(sandbox_path@), k as int));
        }
        let ghost point = MountPoint { sandbox_path, vfs };
        self.mounts.insert(k, MountPoint { sandbox_path, vfs });
        proof {
            let after = self.mounts@;
            let before = old(self).mounts@;
            assert(after == before.insert(k as int, point));
            assert forall|i: int, j: int| 0 <= i < j < after.len() implies depth(
                after[i].sandbox_path@,
            ) >= depth(after[j].sandbox_path@) by {
                let bi = if i < k { i } else { i - 1 };
                let bj = if j < k { j } else { j - 1 };
                if i != k {
                    assert(after[i] == before[bi]);
                }
                if j != k {
                    assert(after[j] == before[bj]);
                }
            }
        }
    }

    /// The position of the first mount that accepts `path`.
    pub fn resolve_index(&self, path: &str) -> (r: Option<usize>)
        ensures
            match r {
                Some(i) => first_accepting(self@, path@, i as int),
                None => none_accepting(self@, path@),
            },
    {
        let mut i: usize = 0;
        while i < self.mounts.len()
            invariant
                i <= self.mounts@.len(),
                forall|j: int| 0 <= j < i ==> !(#[trigger] self.mounts@[j]).vfs.accepts(path@),
            decreases self.mounts.len() - i,
        {
            if self.mounts[i].vfs.translate_path(path).is_ok() {
                return Some(i);
            }
            i += 1;
        }
        None
    }

    /// The position of the first mount that accepts `path`, with the
    /// translated path. None where no mount accepts it.
    pub fn resolve_at(&self, path: &str) -> (r: Option<(usize, String)>)
        ensures
            match r {
                Some((i, translated)) => first_accepting(self@, path@, i as int) && Some(
                    translated@,
                ) == self@[i as int].vfs.translates(path@),
                None => none_accepting(self@, path@),
            },
    {
        let mut i: usize = 0;
        while i < self.mounts.len()
            invariant
                i <= self.mounts@.len(),
                forall|j: int| 0 <= j < i ==> !(#[trigger] self.mounts@[j]).vfs.accepts(path@),
            decreases self.mounts.len() - i,
        {
            match self.mounts[i].vfs.translate_path(path) {
                Ok(translated) => {
                    return Some((i, translated));
                },
                Err(_) => {},
            }
            i += 1;
        }
        None
    }

    /// The filesystem that serves `path`, with the translated path: the
    /// first mount in the table that accepts it. None where no mount does.
    pub fn resolve(&self, path: &str) -> (r: Option<(&Vfs, String)>)
        ensures
            match r {
                Some((vfs, translated)) => exists|i: int|
                    first_accepting(self@, path@, i) && *vfs == self@[i].vfs && Some(translated@)
                        == self@[i].vfs.translates(path@),
                None => none_accepting(self@, path@),
            },
    {
        let mut i: usize = 0;
        while i < self.mounts.len()
            invariant
                i <= self.mounts@.len(),
                forall|j: int| 0 <= j < i ==> !(#[trigger] self.mounts@[j]).vfs.accepts(path@),
            decreases self.mounts.len() - i,
        {
            match self.mounts[i].vfs.translate_path(path) {
                Ok(translated) => {
                    assert(first_accepting(self@, path@, i as int));
                    return Some((&self.mounts[i].vfs, translated));
                },
                Err(_) => {},
            }
            i += 1;
        }
        None
    }

    /// All mounts, deepest first.
    pub fn mounts(&self) -> (r: &[MountPoint])
        ensures
            r@ == self@,
    {
        self.mounts.as_slice()
    }

    /// The record of the kernel descriptor `kernel_fd` that was opened on
    /// `path`, where a mount accepts `path`; none for a file outside every
    /// mount.
    pub fn create_file_ops(&self, path: &str, kernel_fd: i32, flags: i32) -> (r: Option<
        PassthroughFile,
    >)
        ensures
            none_accepting(self@, path@) ==> r is None,
            !none_accepting(self@, path@) ==> r == Some(PassthroughFile { fd: kernel_fd, flags }),
    {
        match self.resolve_index(path) {
            Some(i) => {
                assert(self@[i as int].vfs.accepts(path@));
                Some(PassthroughFile::new(kernel_fd, flags))
            },
            None => None,
        }
    }
}

impl Default for MountTable {
    fn default() -> (t: Self)
        ensures
            t.wf(),
            t@ == Seq::<MountPoint>::empty(),
    {
        MountTable::new()
    }
}

} // verus!
