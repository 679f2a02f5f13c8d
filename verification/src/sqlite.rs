//! A virtual mount: every call below its mount point is served in-process
//! from a filesystem kept in relational tables.

use crate::abi::{
    DT_DIR, DT_LNK, DT_REG, DT_UNKNOWN, F_GETFL, F_SETFL, O_CREAT, SEEK_CUR, SEEK_END, SEEK_SET,
    S_IFDIR, S_IFLNK, S_IFMT, S_IFREG,
};
use crate::bytes::{low_bits, low_i32, to_u64, wrap_u64};
use crate::error::VfsError;
use crate::fs::{
    keep_non_empty, last_slash, non_empty, parent_chars, parent_of, trim_end_slashes, trimmed_len,
    walk, walk_names,
};
use crate::path::{is_under_root, under_root};
use crate::stat::{stat_from_inode, stat_of, Stat};
use crate::store::{entry_views, Inode, Store, StoreView, ROOT_INO};
use crate::text::{chars_eq, decimal, decimal_string, from_chars, slice_of, split, split_chars, to_chars, views};
use vstd::prelude::*;

verus! {

/// The size of the chunks that a write is cut into.
pub const CHUNK_SIZE: usize = 65536;

/// The words put before a path that a virtual mount accepts. A path marked
/// so is served in-process and never handed to the kernel.
pub open spec fn virtual_marker() -> Seq<char> {
    "__sqlite_vfs__"@
}

/// The names that lead from the root of the mount at `mount` to `path`;
/// none where `path` is not under the mount.
pub open spec fn relative_components(mount: Seq<char>, path: Seq<char>) -> Option<Seq<Seq<char>>> {
    if path == mount {
        Some(Seq::empty())
    } else if mount.push('/').is_prefix_of(path) {
        Some(non_empty(split(path.skip(mount.len() as int + 1), '/')))
    } else {
        None
    }
}

/// The inode that `path` leads to in the mount at `mount`.
pub open spec fn resolve_in(v: StoreView, mount: Seq<char>, path: Seq<char>) -> Option<i64> {
    match relative_components(mount, path) {
        Some(comps) => walk(v.dentries, ROOT_INO, comps),
        None => None,
    }
}

/// The last name of a path: what stands behind its last slash.
pub open spec fn file_name_of(path: Seq<char>) -> Seq<char> {
    match last_slash(path) {
        Some(i) => path.skip(i + 1),
        None => path,
    }
}

/// The mode of a new file: a mode without a file type is that of a regular
/// file.
pub open spec fn file_mode(mode: u32) -> u32 {
    if mode & S_IFMT == 0 {
        S_IFREG | mode
    } else {
        mode
    }
}

/// Why a file cannot be made.
pub enum CreateFailure {
    /// The path has no last name, or its directory does not exist.
    NotFound,
    /// The last name is a dot or a double dot.
    InvalidName,
    /// The name stands in the directory already.
    Exists,
    /// The inode numbers have run out.
    NoInode,
}

impl CreateFailure {
    /// `e` is the error that reports the failure.
    pub open spec fn reported_by(self, e: VfsError) -> bool {
        match self {
            CreateFailure::NotFound => e is NotFound,
            CreateFailure::InvalidName => e matches VfsError::InvalidInput(m) && m@
                == "Invalid file name"@,
            CreateFailure::Exists => e matches VfsError::Other(m) && m@
                == "Failed to create dentry"@,
            CreateFailure::NoInode => e matches VfsError::Other(m) && m@
                == "Failed to create inode"@,
        }
    }
}

/// The store after a file was made at `path` with the new inode, or why
/// none can be made.
pub open spec fn create_spec(
    v: StoreView,
    mount: Seq<char>,
    path: Seq<char>,
    mode: u32,
    now: i64,
) -> Result<(StoreView, i64), CreateFailure> {
    let t = trim_end_slashes(path);
    let name = file_name_of(t);
    if t.len() == 0 {
        Err(CreateFailure::NotFound)
    } else if name == crate::fs::dot() || name == crate::fs::dot_dot() || name.len() == 0 {
        Err(CreateFailure::InvalidName)
    } else {
        match resolve_in(v, mount, parent_of(t)) {
            None => Err(CreateFailure::NotFound),
            Some(parent) => if v.dentries.contains_key((parent, name)) {
                Err(CreateFailure::Exists)
            } else if v.last_ino == i64::MAX {
                Err(CreateFailure::NoInode)
            } else {
                let ino = (v.last_ino + 1) as i64;
                Ok(
                    (
                        StoreView {
                            inodes: v.inodes.insert(
                                ino,
                                crate::fs::fresh_inode(ino, file_mode(mode), 0, now),
                            ),
                            dentries: v.dentries.insert((parent, name), ino),
                            last_ino: ino,
                            ..v
                        },
                        ino,
                    ),
                )
            },
        }
    }
}

/// A virtual mount at a mount point.
#[derive(Debug, Clone)]
pub struct SqliteVfs {
    mount_point: String,
}

impl SqliteVfs {
    /// The path that the guest sees the mount at.
    pub closed spec fn spec_mount_point(&self) -> Seq<char> {
        self.mount_point@
    }

    /// A virtual mount at `mount_point`.
    pub fn new(mount_point: String) -> (r: Self)
        ensures
            r.spec_mount_point() == mount_point@,
    {
        SqliteVfs { mount_point }
    }

    /// The path that the guest sees the mount at.
    pub fn mount_point(&self) -> (r: &str)
        ensures
            r@ == self.spec_mount_point(),
    {
        self.mount_point.as_str()
    }

    /// The marked path for `path`; `NotFound` where `path` is not under the
    /// mount point.
    pub fn translate_path(&self, path: &str) -> (r: Result<String, VfsError>)
        ensures
            under_root(self.spec_mount_point(), path@) ==> r is Ok && r->Ok_0@ == virtual_marker()
                + path@,
            !under_root(self.spec_mount_point(), path@) ==> r == Err::<String, VfsError>(
                VfsError::NotFound,
            ),
    {
        let root = to_chars(self.mount_point.as_str());
        let p = to_chars(path);
        if is_under_root(root.as_slice(), p.as_slice()) {
            let mut r = String::from_str("__sqlite_vfs__");
            r.append(path);
            Ok(r)
        } else {
            Err(VfsError::NotFound)
        }
    }

    /// A virtual mount holds no kernel descriptors.
    pub fn is_virtual(&self) -> (r: bool)
        ensures
            r,
    {
        true
    }

    /// A file object for a descriptor that the kernel opened. A virtual
    /// mount never opens through the kernel; the object stands for inode 0.
    pub fn create_file_ops(&self, kernel_fd: i32, flags: i32) -> (r: SqliteFile)
        ensures
            r == SqliteFile::spec_new(0, flags),
    {
        SqliteFile::new(0, flags)
    }

    /// The inode that the path `p` leads to.
    fn resolve_chars(&self, store: &Store, p: &[char]) -> (r: Option<i64>)
        requires
            store.wf(),
        ensures
            r == resolve_in(store@, self.spec_mount_point(), p@),
    {
        let root = to_chars(self.mount_point.as_str());
        if chars_eq(p, root.as_slice()) {
            return Some(ROOT_INO);
        }
        if !is_under_root(root.as_slice(), p) {
            return None;
        }
        let skip = root.len();
        let end = p.len();
        assert(root@.push('/').len() <= p@.len());
        let rest = slice_of(p, skip + 1, end);
        assert(rest@ =~= p@.skip(root@.len() as int + 1));
        let segs = split_chars(rest.as_slice(), '/');
        let comps = keep_non_empty(&segs);
        assert(views(comps@).take(comps@.len() as int) =~= views(comps@));
        walk_names(store, &comps, comps.len())
    }

    /// The inode that `path` leads to from the root of the mount;
    /// `NotFound` where `path` is not under the mount or a name on the way
    /// is missing.
    pub fn resolve_path(&self, store: &Store, path: &str) -> (r: Result<i64, VfsError>)
        requires
            store.wf(),
        ensures
            match resolve_in(store@, self.spec_mount_point(), path@) {
                Some(ino) => r == Ok::<i64, VfsError>(ino),
                None => r == Err::<i64, VfsError>(VfsError::NotFound),
            },
    {
        let p = to_chars(path);
        match self.resolve_chars(store, p.as_slice()) {
            Some(ino) => Ok(ino),
            None => Err(VfsError::NotFound),
        }
    }

    /// Makes a regular file at `path`, at time `now`, and returns its
    /// inode. The directory of `path` must exist and not hold the name yet.
    pub fn create_file(&self, store: &mut Store, path: &str, mode: u32, now: i64) -> (r: Result<
        i64,
        VfsError,
    >)
        requires
            old(store).wf(),
        ensures
            final(store).wf(),
            match create_spec(old(store)@, self.spec_mount_point(), path@, mode, now) {
                Ok((v, ino)) => r == Ok::<i64, VfsError>(ino) && final(store)@ == v,
                Err(f) => r is Err && f.reported_by(r->Err_0) && final(store)@ == old(store)@,
            },
    {
        let p = to_chars(path);
        let n = trimmed_len(p.as_slice());
        if n == 0 {
            return Err(VfsError::NotFound);
        }
        let t = slice_of(p.as_slice(), 0, n);
        assert(t@ =~= p@.take(n as int));
        let name = file_name_chars(t.as_slice());
        let one: [char; 1] = ['.'];
        let two: [char; 2] = ['.', '.'];
        assert(one@ =~= crate::fs::dot() && two@ =~= crate::fs::dot_dot());
        if chars_eq(name.as_slice(), one.as_slice()) || chars_eq(name.as_slice(), two.as_slice())
            || name.len() == 0 {
            return Err(VfsError::InvalidInput(String::from_str("Invalid file name")));
        }
        let parent_path = parent_chars(t.as_slice());
        let parent = match self.resolve_chars(store, parent_path.as_slice()) {
            Some(parent) => parent,
            None => {
                return Err(VfsError::NotFound);
            },
        };
        let name = from_chars(name.as_slice());
        if store.lookup(parent, &name).is_some() {
            return Err(VfsError::Other(String::from_str("Failed to create dentry")));
        }
        proof {
            store.lemma_sound();
            lemma_resolve_bounded(store@, self.spec_mount_point(), parent_path@);
        }
        let file_mode = if mode & S_IFMT == 0 {
            S_IFREG | mode
        } else {
            mode
        };
        let ino = match store.insert_inode(file_mode, 0, now) {
            Some(ino) => ino,
            None => {
                return Err(VfsError::Other(String::from_str("Failed to create inode")));
            },
        };
        store.insert_dentry(name, parent, ino);
        Ok(ino)
    }

    /// Opens the file or directory at `path`. A file that does not exist is
    /// made if `flags` hold `O_CREAT`, and is `NotFound` otherwise.
    pub fn open_file(&self, store: &mut Store, path: &str, flags: i32, mode: u32, now: i64) -> (r:
        Result<SqliteFile, VfsError>)
        requires
            old(store).wf(),
        ensures
            final(store).wf(),
            match resolve_in(old(store)@, self.spec_mount_point(), path@) {
                Some(ino) => r == Ok::<SqliteFile, VfsError>(SqliteFile::spec_new(ino, flags))
                    && final(store)@ == old(store)@,
                None => if flags & O_CREAT != 0 {
                    match create_spec(old(store)@, self.spec_mount_point(), path@, mode, now) {
                        Ok((v, ino)) => r == Ok::<SqliteFile, VfsError>(
                            SqliteFile::spec_new(ino, flags),
                        ) && final(store)@ == v,
                        Err(f) => r is Err && f.reported_by(r->Err_0) && final(store)@ == old(
                            store,
                        )@,
                    }
                } else {
                    r == Err::<SqliteFile, VfsError>(VfsError::NotFound) && final(store)@ == old(
                        store,
                    )@
                },
            },
    {
        let p = to_chars(path);
        let ino = match self.resolve_chars(store, p.as_slice()) {
            Some(ino) => ino,
            None => {
                if flags & O_CREAT != 0 {
                    match self.create_file(store, path, mode, now) {
                        Ok(ino) => ino,
                        Err(e) => {
                            return Err(e);
                        },
                    }
                } else {
                    return Err(VfsError::NotFound);
                }
            },
        };
        Ok(SqliteFile::new(ino, flags))
    }

    /// Opens the file or directory at `path`; see `open_file`.
    pub fn open(&self, store: &mut Store, path: &str, flags: i32, mode: u32, now: i64) -> (r:
        Result<SqliteFile, VfsError>)
        requires
            old(store).wf(),
        ensures
            final(store).wf(),
            match resolve_in(old(store)@, self.spec_mount_point(), path@) {
                Some(ino) => r == Ok::<SqliteFile, VfsError>(SqliteFile::spec_new(ino, flags))
                    && final(store)@ == old(store)@,
                None => if flags & O_CREAT != 0 {
                    match create_spec(old(store)@, self.spec_mount_point(), path@, mode, now) {
                        Ok((v, ino)) => r == Ok::<SqliteFile, VfsError>(
                            SqliteFile::spec_new(ino, flags),
                        ) && final(store)@ == v,
                        Err(f) => r is Err && f.reported_by(r->Err_0) && final(store)@ == old(
                            store,
                        )@,
                    }
                } else {
                    r == Err::<SqliteFile, VfsError>(VfsError::NotFound) && final(store)@ == old(
                        store,
                    )@
                },
            },
    {
        self.open_file(store, path, flags, mode, now)
    }

    /// The `stat` record of what stands at `path`; `NotFound` where nothing
    /// does.
    pub fn stat(&self, store: &Store, path: &str) -> (r: Result<Stat, VfsError>)
        requires
            store.wf(),
        ensures
            match resolve_in(store@, self.spec_mount_point(), path@) {
                Some(ino) => if store@.inodes.contains_key(ino) {
                    r == Ok::<Stat, VfsError>(stat_of(ino, store@.inodes[ino]))
                } else {
                    r == Err::<Stat, VfsError>(VfsError::NotFound)
                },
                None => r == Err::<Stat, VfsError>(VfsError::NotFound),
            },
    {
        let p = to_chars(path);
        let ino = match self.resolve_chars(store, p.as_slice()) {
            Some(ino) => ino,
            None => {
                return Err(VfsError::NotFound);
            },
        };
        match store.find_inode(ino) {
            Some(row) => Ok(stat_from_inode(ino, &row)),
            None => Err(VfsError::NotFound),
        }
    }
}

/// The last name of a path.
fn file_name_chars(path: &[char]) -> (r: Vec<char>)
    ensures
        r@ == file_name_of(path@),
{
    let mut n: usize = path.len();
    assert(path@.take(n as int) =~= path@);
    while n > 0 && path[n - 1] != '/'
        invariant
            n <= path@.len(),
            last_slash(path@) == last_slash(path@.take(n as int)),
        decreases n,
    {
        assert(path@.take(n as int).drop_last() =~= path@.take(n - 1));
        n -= 1;
    }
    let r = slice_of(path, n, path.len());
    if n == 0 {
        assert(r@ =~= path@);
    } else {
        assert(r@ =~= path@.skip(n as int));
    }
    r
}

/// A path in a sound store leads to an inode number that was given out.
pub proof fn lemma_resolve_bounded(v: StoreView, mount: Seq<char>, path: Seq<char>)
    requires
        v.sound(),
    ensures
        resolve_in(v, mount, path) matches Some(ino) ==> ino <= v.last_ino,
{
    match relative_components(mount, path) {
        Some(comps) => {
            crate::fs::lemma_walk_bounded(v, ROOT_INO, comps);
        },
        None => {},
    }
}

/// An open file of a virtual mount: its inode, the offset of the next read
/// or write, its flags, and whether its directory listing was handed out.
#[derive(Debug, Clone, Copy, PartialEq, Eq, Structural)]
pub struct SqliteFile {
    pub ino: i64,
    pub offset: i64,
    pub flags: i32,
    pub dir_pos: usize,
}

/// The type of a directory entry whose inode has mode `mode`.
pub open spec fn d_type_of(mode: u32) -> u8 {
    let kind = mode & S_IFMT;
    if kind == S_IFDIR {
        DT_DIR
    } else if kind == S_IFREG {
        DT_REG
    } else if kind == S_IFLNK {
        DT_LNK
    } else {
        DT_UNKNOWN
    }
}

/// The number of chunks that a write of `len` bytes is cut into.
pub open spec fn chunk_count(len: nat) -> nat {
    (len + CHUNK_SIZE - 1) as nat / (CHUNK_SIZE as nat)
}

/// Chunk `k` of a write of `buf`.
pub open spec fn piece(buf: Seq<u8>, k: int) -> Seq<u8> {
    buf.subrange(
        k * CHUNK_SIZE,
        if (k + 1) * CHUNK_SIZE < buf.len() {
            (k + 1) * CHUNK_SIZE
        } else {
            buf.len() as int
        },
    )
}

/// The chunks after the first `n` chunks of `buf` were written to file
/// `ino` from `offset` on: each replaces the chunk at its own offset.
pub open spec fn with_pieces(
    chunks: Map<(i64, i64), Seq<u8>>,
    ino: i64,
    offset: i64,
    buf: Seq<u8>,
    n: nat,
) -> Map<(i64, i64), Seq<u8>>
    decreases n,
{
    if n == 0 {
        chunks
    } else {
        with_pieces(chunks, ino, offset, buf, (n - 1) as nat).insert(
            (ino, (offset + (n - 1) * CHUNK_SIZE) as i64),
            piece(buf, n - 1),
        )
    }
}

/// The store after `buf` was written to file `ino` at `offset` at time
/// `now`: the chunks of `buf` are in place, and the inode, if it has a row,
/// has grown to the end of the write and has a new modification time.
pub open spec fn written(v: StoreView, ino: i64, offset: i64, buf: Seq<u8>, now: i64) -> StoreView {
    StoreView {
        chunks: with_pieces(v.chunks, ino, offset, buf, chunk_count(buf.len())),
        inodes: if v.inodes.contains_key(ino) {
            let row = v.inodes[ino];
            v.inodes.insert(
                ino,
                Inode {
                    size: if row.size > offset + buf.len() {
                        row.size
                    } else {
                        (offset + buf.len()) as i64
                    },
                    mtime: now,
                    ..row
                },
            )
        } else {
            v.inodes
        },
        ..v
    }
}

/// The entries that `getdents` reports for directory `ino`: the directory
/// itself as `.` and as `..`, then the listed entries whose inode has a
/// row, each with the type that its mode gives.
pub open spec fn dir_listing(v: StoreView, ino: i64, ev: Seq<(Seq<char>, i64)>) -> Seq<
    (u64, Seq<char>, u8),
> {
    seq![(wrap_u64(ino), crate::fs::dot(), DT_DIR), (wrap_u64(ino), crate::fs::dot_dot(), DT_DIR)]
        + joined(v, ev)
}

/// The listed entries whose inode has a row, with their types.
pub open spec fn joined(v: StoreView, ev: Seq<(Seq<char>, i64)>) -> Seq<(u64, Seq<char>, u8)>
    decreases ev.len(),
{
    if ev.len() == 0 {
        Seq::empty()
    } else {
        let rest = joined(v, ev.drop_last());
        let e = ev.last();
        if v.inodes.contains_key(e.1) {
            rest.push((wrap_u64(e.1), e.0, d_type_of(v.inodes[e.1].mode)))
        } else {
            rest
        }
    }
}

/// Directory entries as values of the model.
pub open spec fn listing_views(v: Seq<(u64, String, u8)>) -> Seq<(u64, Seq<char>, u8)> {
    v.map_values(|e: (u64, String, u8)| (e.0, e.1@, e.2))
}

impl SqliteFile {
    /// A file on inode `ino`, at offset 0.
    pub open spec fn spec_new(ino: i64, flags: i32) -> SqliteFile {
        SqliteFile { ino, offset: 0, flags, dir_pos: 0 }
    }

    /// A file on inode `ino`, at offset 0.
    pub fn new(ino: i64, flags: i32) -> (r: Self)
        ensures
            r == Self::spec_new(ino, flags),
    {
        SqliteFile { ino, offset: 0, flags, dir_pos: 0 }
    }

    /// Reads up to `len` bytes at the offset and moves the offset behind
    /// them. The bytes end with the last chunk that holds a byte of the
    /// range; at the end of the file that is no byte at all.
    pub fn read(&mut self, store: &Store, len: usize) -> (r: Result<Vec<u8>, VfsError>)
        requires
            store.wf(),
            old(self).offset + len <= i64::MAX,
        ensures
            r is Ok,
            r->Ok_0@.len() <= len,
            store@.reads(
                old(self).ino,
                old(self).offset as int,
                old(self).offset + len,
                r->Ok_0@.len() as int,
            ),
            forall|i: int|
                0 <= i < r->Ok_0@.len() ==> r->Ok_0@[i] == store@.byte_at(
                    old(self).ino,
                    old(self).offset + i,
                ),
            *final(self) == (SqliteFile {
                offset: (old(self).offset + r->Ok_0@.len()) as i64,
                ..*old(self)
            }),
    {
        let data = store.read_range(self.ino, self.offset, len);
        self.offset = ((self.offset as i128) + (data.len() as i128)) as i64;
        Ok(data)
    }

    /// Writes `buf` at the offset, in chunks of 64 KiB that each replace the
    /// chunk at the same offset, and moves the offset behind it. A write of
    /// at least one byte to a file whose inode has no row fails and changes
    /// nothing.
    pub fn write(&mut self, store: &mut Store, buf: &[u8], now: i64) -> (r: Result<
        usize,
        VfsError,
    >)
        requires
            old(store).wf(),
            old(self).offset + buf@.len() <= i64::MAX,
        ensures
            final(store).wf(),
            if buf@.len() > 0 && !old(store)@.inodes.contains_key(old(self).ino) {
                &&& r matches Err(VfsError::Other(m)) && m@ == "Failed to write data"@
                &&& final(store)@ == old(store)@
                &&& *final(self) == *old(self)
            } else {
                &&& r == Ok::<usize, VfsError>(buf@.len() as usize)
                &&& final(store)@ == written(old(store)@, old(self).ino, old(self).offset, buf@, now)
                &&& *final(self) == (SqliteFile {
                    offset: (old(self).offset + buf@.len()) as i64,
                    ..*old(self)
                })
            },
    {
        let ino = self.ino;
        let offset = self.offset;
        let row = store.find_inode(ino);
        if buf.len() > 0 && row.is_none() {
            return Err(VfsError::Other(String::from_str("Failed to write data")));
        }
        proof {
            store.lemma_sound();
        }
        let mut done: usize = 0;
        let ghost mut k: nat = 0;
        while done < buf.len()
            invariant
                store.wf(),
                buf@.len() > 0 ==> store@.inodes.contains_key(ino),
                offset + buf@.len() <= i64::MAX,
                done <= buf@.len(),
                done == if k * CHUNK_SIZE < buf@.len() {
                    k * CHUNK_SIZE
                } else {
                    buf@.len() as int
                },
                k <= chunk_count(buf@.len()),
                done == buf@.len() ==> k == chunk_count(buf@.len()),
                store@ == (StoreView {
                    chunks: with_pieces(old(store)@.chunks, ino, offset, buf@, k),
                    ..old(store)@
                }),
            decreases buf@.len() - done,
        {
            let size = if buf.len() - done < CHUNK_SIZE {
                buf.len() - done
            } else {
                CHUNK_SIZE
            };
            let at = ((offset as i128) + (done as i128)) as i64;
            let data = crate::bytes::copy_range(buf, done, done + size);
            proof {
                store.lemma_sound();
                assert(data@ =~= piece(buf@, k as int));
                assert(at == offset + k * CHUNK_SIZE);
            }
            store.delete_chunk(ino, at);
            store.insert_chunk(ino, at, data);
            proof {
                let base = with_pieces(old(store)@.chunks, ino, offset, buf@, k);
                assert(base.remove((ino, at)).insert((ino, at), piece(buf@, k as int))
                    =~= base.insert((ino, at), piece(buf@, k as int)));
                k = k + 1;
            }
            done = done + size;
        }
        proof {
            if buf@.len() == 0 {
                assert(chunk_count(0) == 0);
            }
        }
        match row {
            Some(row) => {
                let end = ((offset as i128) + (buf.len() as i128)) as i64;
                let size = if row.size > end {
                    row.size
                } else {
                    end
                };
                store.update_inode(Inode { size, mtime: now, ..row });
            },
            None => {},
        }
        self.offset = ((offset as i128) + (buf.len() as i128)) as i64;
        proof {
            let want = written(old(store)@, ino, offset, buf@, now);
            assert(final(store)@.inodes =~= want.inodes);
        }
        Ok(buf.len())
    }

    /// The offset that a seek leads to: from the start, from the current
    /// offset, or from the size of the file; none for another `whence`.
    pub open spec fn seek_target(self, v: StoreView, offset: i64, whence: i32) -> Option<int> {
        if whence == SEEK_SET {
            Some(offset as int)
        } else if whence == SEEK_CUR {
            Some(self.offset + offset)
        } else if whence == SEEK_END {
            Some(
                if v.inodes.contains_key(self.ino) {
                    v.inodes[self.ino].size + offset
                } else {
                    offset as int
                },
            )
        } else {
            None
        }
    }

    /// Moves the offset and returns it. An unknown `whence` and a negative
    /// target are refused and leave the offset where it was.
    pub fn seek(&mut self, store: &Store, offset: i64, whence: i32) -> (r: Result<i64, VfsError>)
        requires
            store.wf(),
            old(self).seek_target(store@, offset, whence) matches Some(t) ==> i64::MIN <= t
                <= i64::MAX,
        ensures
            match old(self).seek_target(store@, offset, whence) {
                None => {
                    &&& r matches Err(VfsError::InvalidInput(m)) && m@ == "Invalid whence"@
                    &&& *final(self) == *old(self)
                },
                Some(t) => if t < 0 {
                    &&& r matches Err(VfsError::InvalidInput(m)) && m@ == "Negative seek offset"@
                    &&& *final(self) == *old(self)
                } else {
                    &&& r == Ok::<i64, VfsError>(t as i64)
                    &&& *final(self) == (SqliteFile { offset: t as i64, ..*old(self) })
                },
            },
    {
        let target = if whence == SEEK_SET {
            offset
        } else if whence == SEEK_CUR {
            self.offset + offset
        } else if whence == SEEK_END {
            let size = match store.find_inode(self.ino) {
                Some(row) => row.size,
                None => 0,
            };
            size + offset
        } else {
            return Err(VfsError::InvalidInput(String::from_str("Invalid whence")));
        };
        if target < 0 {
            return Err(VfsError::InvalidInput(String::from_str("Negative seek offset")));
        }
        self.offset = target;
        Ok(target)
    }

    /// The `stat` record of the file; `NotFound` where its inode has no
    /// row.
    pub fn fstat(&self, store: &Store) -> (r: Result<Stat, VfsError>)
        requires
            store.wf(),
        ensures
            if store@.inodes.contains_key(self.ino) {
                r == Ok::<Stat, VfsError>(stat_of(self.ino, store@.inodes[self.ino]))
            } else {
                r == Err::<Stat, VfsError>(VfsError::NotFound)
            },
    {
        match store.find_inode(self.ino) {
            Some(row) => Ok(stat_from_inode(self.ino, &row)),
            None => Err(VfsError::NotFound),
        }
    }

    /// Nothing is left to write out: the store is always current.
    pub fn fsync(&self) -> (r: Result<(), VfsError>)
        ensures
            r is Ok,
    {
        Ok(())
    }

    /// Nothing is left to write out: the store is always current.
    pub fn fdatasync(&self) -> (r: Result<(), VfsError>)
        ensures
            r is Ok,
    {
        Ok(())
    }

    /// `F_GETFL` yields the flags, `F_SETFL` sets them to the low 32 bits of
    /// `arg` and yields 0; every other command is refused by its number.
    pub fn fcntl(&mut self, cmd: i32, arg: i64) -> (r: Result<i64, VfsError>)
        ensures
            cmd == F_GETFL ==> r == Ok::<i64, VfsError>(old(self).flags as i64) && *final(self)
                == *old(self),
            cmd == F_SETFL ==> r == Ok::<i64, VfsError>(0) && *final(self) == (SqliteFile {
                flags: low_i32(arg),
                ..*old(self)
            }),
            cmd != F_GETFL && cmd != F_SETFL ==> *final(self) == *old(self) && (
            r matches Err(VfsError::Other(m)) && m@ == "Unsupported fcntl command: "@ + decimal(
                cmd as int,
            )),
    {
        if cmd == F_GETFL {
            Ok(self.flags as i64)
        } else if cmd == F_SETFL {
            self.flags = low_bits(arg);
            Ok(0)
        } else {
            let mut m = String::from_str("Unsupported fcntl command: ");
            let number = decimal_string(cmd as i64);
            m.append(number.as_str());
            Err(VfsError::Other(m))
        }
    }

    /// A virtual file answers no device requests.
    pub fn ioctl(&self, request: u64, arg: u64) -> (r: Result<i64, VfsError>)
        ensures
            r matches Err(VfsError::Other(m)) && m@ == "ioctl not supported on SQLite VFS"@,
    {
        Err(VfsError::Other(String::from_str("ioctl not supported on SQLite VFS")))
    }

    /// A virtual file has no kernel descriptor.
    pub fn as_raw_fd(&self) -> (r: Option<i32>)
        ensures
            r is None,
    {
        None
    }

    /// Closing a virtual file always succeeds.
    pub fn close(&self) -> (r: Result<(), VfsError>)
        ensures
            r is Ok,
    {
        Ok(())
    }

    /// The flags of the file.
    pub fn get_flags(&self) -> (r: i32)
        ensures
            r == self.flags,
    {
        self.flags
    }

    /// Sets the flags of the file.
    pub fn set_flags(&mut self, flags: i32) -> (r: Result<(), VfsError>)
        ensures
            r is Ok,
            *final(self) == (SqliteFile { flags, ..*old(self) }),
    {
        self.flags = flags;
        Ok(())
    }

    /// The entries of the directory, once: `.` and `..`, then the entries by
    /// name. A second call yields nothing.
    pub fn getdents(&mut self, store: &Store) -> (r: Result<Vec<(u64, String, u8)>, VfsError>)
        requires
            store.wf(),
        ensures
            r is Ok,
            old(self).dir_pos > 0 ==> r->Ok_0@.len() == 0 && *final(self) == *old(self),
            old(self).dir_pos == 0 ==> *final(self) == (SqliteFile { dir_pos: 1, ..*old(self) })
                && exists|ev: Seq<(Seq<char>, i64)>|
                store@.lists_children(old(self).ino, ev) && listing_views(r->Ok_0@) == dir_listing(
                    store@,
                    old(self).ino,
                    ev,
                ),
    {
        if self.dir_pos > 0 {
            return Ok(Vec::new());
        }
        let children = store.children(self.ino);
        let ghost ev = entry_views(children@);
        let me = to_u64(self.ino);
        let mut out: Vec<(u64, String, u8)> = Vec::new();
        out.push((me, String::from_str("."), DT_DIR));
        out.push((me, String::from_str(".."), DT_DIR));
        proof {
            reveal_strlit(".");
            reveal_strlit("..");
            assert("."@ =~= crate::fs::dot());
            assert(".."@ =~= crate::fs::dot_dot());
            assert(ev.take(0) =~= Seq::empty());
            assert(listing_views(out@) =~= dir_listing(store@, self.ino, ev.take(0)));
        }
        let mut i: usize = 0;
        while i < children.len()
            invariant
                store.wf(),
                i <= children@.len(),
                ev == entry_views(children@),
                listing_views(out@) == dir_listing(store@, self.ino, ev.take(i as int)),
            decreases children.len() - i,
        {
            let ghost before = listing_views(out@);
            assert(ev.take(i + 1).drop_last() =~= ev.take(i as int));
            assert(ev.take(i + 1).last() == (children@[i as int].0@, children@[i as int].1));
            let child = children[i].1;
            match store.find_inode(child) {
                Some(row) => {
                    let kind = row.mode & S_IFMT;
                    let d_type = if kind == S_IFDIR {
                        DT_DIR
                    } else if kind == S_IFREG {
                        DT_REG
                    } else if kind == S_IFLNK {
                        DT_LNK
                    } else {
                        DT_UNKNOWN
                    };
                    out.push((to_u64(child), children[i].0.clone(), d_type));
                    assert(listing_views(out@) =~= before.push(
                        (wrap_u64(child), children@[i as int].0@, d_type),
                    ));
                },
                None => {},
            }
            assert(listing_views(out@) =~= dir_listing(store@, self.ino, ev.take(i + 1)));
            i += 1;
        }
        assert(ev.take(children@.len() as int) =~= ev);
        self.dir_pos = 1;
        Ok(out)
    }
}

/// The offset of chunk `k` of a write at `offset`.
pub open spec fn piece_offset(offset: i64, k: int) -> int {
    offset + k * CHUNK_SIZE
}

/// `o` is the offset of one of the first `n` chunks of a write at `offset`.
pub open spec fn is_piece_offset(offset: i64, n: nat, o: i64) -> bool {
    exists|k: int| 0 <= k < n && o == #[trigger] piece_offset(offset, k)
}

/// What the chunks of a write are: each of the first `n` pieces stands at
/// its offset, and every other chunk of the file is as it was.
pub proof fn lemma_pieces(
    chunks: Map<(i64, i64), Seq<u8>>,
    ino: i64,
    offset: i64,
    buf: Seq<u8>,
    n: nat,
)
    requires
        offset + buf.len() <= i64::MAX,
        n <= chunk_count(buf.len()),
    ensures
        forall|k: int|
            0 <= k < n ==> with_pieces(chunks, ino, offset, buf, n).contains_key(
                (ino, (#[trigger] piece_offset(offset, k)) as i64),
            ) && with_pieces(chunks, ino, offset, buf, n)[(ino, piece_offset(offset, k) as i64)]
                == piece(buf, k),
        forall|o: i64| #[trigger]
            with_pieces(chunks, ino, offset, buf, n).contains_key((ino, o)) && !is_piece_offset(
                offset,
                n,
                o,
            ) ==> chunks.contains_key((ino, o)) && with_pieces(chunks, ino, offset, buf, n)[(
                ino,
                o,
            )] == chunks[(ino, o)],
    decreases n,
{
    if n > 0 {
        let m = (n - 1) as nat;
        lemma_pieces(chunks, ino, offset, buf, m);
        let w = with_pieces(chunks, ino, offset, buf, n);
        let prev = with_pieces(chunks, ino, offset, buf, m);
        let at = (offset + m * CHUNK_SIZE) as i64;
        assert(m * CHUNK_SIZE < buf.len());
        assert forall|k: int| 0 <= k < n implies w.contains_key(
            (ino, (#[trigger] piece_offset(offset, k)) as i64),
        ) && w[(ino, piece_offset(offset, k) as i64)] == piece(buf, k) by {
            if k < m {
                assert(k * CHUNK_SIZE < m * CHUNK_SIZE);
                assert(prev.contains_key((ino, piece_offset(offset, k) as i64)));
            }
        }
        assert forall|o: i64| #[trigger]
            w.contains_key((ino, o)) && !is_piece_offset(offset, n, o) implies chunks.contains_key(
            (ino, o),
        ) && w[(ino, o)] == chunks[(ino, o)] by {
            if o == at {
                assert(o == piece_offset(offset, m as int));
                assert(is_piece_offset(offset, n, o));
            } else {
                assert(prev.contains_key((ino, o)));
                if is_piece_offset(offset, m, o) {
                    let k = choose|k: int| 0 <= k < m && o == #[trigger] piece_offset(offset, k);
                    assert(0 <= k < n && o == piece_offset(offset, k));
                }
            }
        }
    }
}

/// What is written is what is read back. After `buf` was written to file
/// `ino` at offset 0, a read of as many bytes from offset 0 yields exactly
/// `buf`: it is as long as `buf`, and every byte a reader sees is the byte
/// written. This holds of a file that has no older chunk beginning inside
/// the written range off a chunk boundary; such a chunk would show through.
pub proof fn lemma_write_then_read(v: StoreView, ino: i64, buf: Seq<u8>, now: i64)
    requires
        buf.len() <= i64::MAX,
        forall|o: i64|
            v.chunks.contains_key((ino, o)) && 0 < o < buf.len() ==> o as int % (
            CHUNK_SIZE as int) == 0,
    ensures
        forall|n: int|
            written(v, ino, 0, buf, now).reads(ino, 0, buf.len() as int, n) <==> n == buf.len(),
        forall|p: int|
            0 <= p < buf.len() ==> written(v, ino, 0, buf, now).byte_at(ino, p) == buf[p],
{
    let w = written(v, ino, 0, buf, now);
    let len = buf.len() as int;
    let count = chunk_count(buf.len());
    let size = CHUNK_SIZE as int;
    lemma_pieces(v.chunks, ino, 0, buf, count);
    assert forall|p: int| 0 <= p < len implies w.byte_at(ino, p) == buf[p] by {
        let k = p / size;
        let o = (k * size) as i64;
        assert(0 <= k < count && k * size <= p < k * size + size);
        assert(o == piece_offset(0, k) as i64);
        assert(w.chunks[(ino, o)] == piece(buf, k));
        assert(w.covers(ino, o, p));
        assert forall|o2: i64| w.covers(ino, o2, p) implies o2 <= o by {
            if is_piece_offset(0, count, o2) {
                let j = choose|j: int| 0 <= j < count && o2 == #[trigger] piece_offset(0, j);
                assert(o2 == piece_offset(0, j) as i64);
                assert(w.chunks[(ino, o2)] == piece(buf, j));
                assert(j * size <= p < j * size + size);
                assert(j == k);
            } else {
                assert(v.chunks.contains_key((ino, o2)));
                if o2 > 0 {
                    let j = o2 as int / size;
                    assert(o2 == j * size);
                    assert(0 <= j < count && o2 == piece_offset(0, j));
                    assert(is_piece_offset(0, count, o2));
                } else if o2 == 0 {
                    assert(0 <= 0 < count && o2 == piece_offset(0, 0));
                    assert(is_piece_offset(0, count, o2));
                }
            }
        }
        assert(w.visible(ino, o, p));
        let chosen = choose|x: i64| w.visible(ino, x, p);
        assert(w.covers(ino, chosen, p));
        assert(chosen == o);
        assert(piece(buf, k)[p - o] == buf[p]);
    }
    assert forall|n: int| w.reads(ino, 0, len, n) <==> n == len by {
        if len == 0 {
            assert forall|o: i64| !w.intersects(ino, o, 0, len) by {}
        } else {
            let last = count - 1;
            let o = (last * size) as i64;
            assert(0 <= last < count && last * size < len <= last * size + size);
            assert(o == piece_offset(0, last) as i64);
            assert(w.chunks[(ino, o)] == piece(buf, last));
            assert(piece(buf, last).len() == len - last * size);
            assert(w.intersects(ino, o, 0, len));
            assert(w.clipped_end(ino, o, len) == len);
            assert forall|x: i64| w.intersects(ino, x, 0, len) implies w.clipped_end(ino, x, len)
                <= len by {}
            if w.reads(ino, 0, len, n) {
                let x = choose|x: i64|
                    w.intersects(ino, x, 0, len) && w.clipped_end(ino, x, len) == 0 + n;
                assert(w.clipped_end(ino, x, len) <= len);
                assert(w.clipped_end(ino, o, len) <= 0 + n);
            }
        }
    }
}

} // verus!
