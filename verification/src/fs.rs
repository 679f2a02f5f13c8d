//! A POSIX-like filesystem on the backing store: directories, files with
//! their bytes, symbolic links, and the lookups that tie paths to inodes.

use crate::abi::{S_IFDIR, S_IFLNK, S_IFMT, S_IFREG};
use crate::store::{entry_views, Inode, Store, StoreView, ROOT_INO};
use crate::text::{concat, from_chars, slice_of, split, split_chars, to_chars, views};
use vstd::prelude::*;

verus! {

/// The mode of a new regular file.
pub const DEFAULT_FILE_MODE: u32 = 0o100644;

/// The mode of a new directory.
pub const DEFAULT_DIR_MODE: u32 = 0o040755;

/// The mode of a new symbolic link.
pub const SYMLINK_MODE: u32 = 0o120777;

/// How many symbolic links `stat` follows before it gives up.
pub const MAX_SYMLINK_DEPTH: usize = 40;

/// `s` without the slashes it ends in.
pub open spec fn trim_end_slashes(s: Seq<char>) -> Seq<char>
    decreases s.len(),
{
    if s.len() > 0 && s.last() == '/' {
        trim_end_slashes(s.drop_last())
    } else {
        s
    }
}

/// The single dot, which stands for the directory itself.
pub open spec fn dot() -> Seq<char> {
    seq!['.']
}

/// The double dot, which stands for the parent directory.
pub open spec fn dot_dot() -> Seq<char> {
    seq!['.', '.']
}

/// The components that the pieces of a path leave: empty pieces and single
/// dots are dropped, and a double dot takes the component before it away,
/// if there is one.
pub open spec fn clean_components(segs: Seq<Seq<char>>) -> Seq<Seq<char>>
    decreases segs.len(),
{
    if segs.len() == 0 {
        Seq::empty()
    } else {
        let acc = clean_components(segs.drop_last());
        let seg = segs.last();
        if seg.len() == 0 || seg == dot() {
            acc
        } else if seg == dot_dot() {
            if acc.len() > 0 {
                acc.drop_last()
            } else {
                acc
            }
        } else {
            acc.push(seg)
        }
    }
}

/// The components written out: each one behind a slash.
pub open spec fn join_abs(comps: Seq<Seq<char>>) -> Seq<char>
    decreases comps.len(),
{
    if comps.len() == 0 {
        Seq::empty()
    } else {
        join_abs(comps.drop_last()).push('/') + comps.last()
    }
}

/// The root path.
pub open spec fn root_path() -> Seq<char> {
    seq!['/']
}

/// The normal form of a path: no trailing slash, a leading slash, and, for
/// a path that was written with a leading slash, no empty, dot or double
/// dot components.
pub open spec fn normalize(path: Seq<char>) -> Seq<char> {
    let t = trim_end_slashes(path);
    if t.len() == 0 {
        root_path()
    } else if t[0] != '/' {
        root_path() + t
    } else {
        let comps = clean_components(split(t, '/'));
        if comps.len() == 0 {
            root_path()
        } else {
            join_abs(comps)
        }
    }
}

/// The pieces that are not empty.
pub open spec fn non_empty(segs: Seq<Seq<char>>) -> Seq<Seq<char>>
    decreases segs.len(),
{
    if segs.len() == 0 {
        Seq::empty()
    } else if segs.last().len() == 0 {
        non_empty(segs.drop_last())
    } else {
        non_empty(segs.drop_last()).push(segs.last())
    }
}

/// The components of a path: the names to look up, one after the other,
/// from the root.
pub open spec fn components(path: Seq<char>) -> Seq<Seq<char>> {
    let n = normalize(path);
    if n == root_path() {
        Seq::empty()
    } else {
        non_empty(split(n, '/'))
    }
}

/// `s` without the slashes it ends in.
pub fn trimmed_len(s: &[char]) -> (n: usize)
    ensures
        n <= s@.len(),
        trim_end_slashes(s@) == s@.take(n as int),
{
    let mut n: usize = s.len();
    assert(s@.take(n as int) =~= s@);
    while n > 0 && s[n - 1] == '/'
        invariant
            n <= s@.len(),
            trim_end_slashes(s@) == trim_end_slashes(s@.take(n as int)),
        decreases n,
    {
        assert(s@.take(n as int).drop_last() =~= s@.take(n - 1));
        n -= 1;
    }
    n
}

/// Whether `seg` is exactly the characters of `word`.
fn is_word(seg: &Vec<char>, word: &[char]) -> (r: bool)
    ensures
        r == (seg@ == word@),
{
    crate::text::chars_eq(seg.as_slice(), word)
}

/// The components that the pieces leave.
fn clean(segs: &Vec<Vec<char>>) -> (r: Vec<Vec<char>>)
    ensures
        views(r@) == clean_components(views(segs@)),
{
    let one: [char; 1] = ['.'];
    let two: [char; 2] = ['.', '.'];
    assert(one@ =~= dot() && two@ =~= dot_dot());
    let mut acc: Vec<Vec<char>> = Vec::new();
    let mut i: usize = 0;
    assert(views(segs@).take(0) =~= Seq::empty());
    assert(views(acc@) =~= Seq::empty());
    while i < segs.len()
        invariant
            i <= segs@.len(),
            one@ == dot(),
            two@ == dot_dot(),
            views(acc@) == clean_components(views(segs@).take(i as int)),
        decreases segs.len() - i,
    {
        let ghost all = views(segs@);
        assert(all.take(i + 1).drop_last() =~= all.take(i as int));
        assert(all.take(i + 1).last() == segs@[i as int]@);
        let ghost before = views(acc@);
        let seg = &segs[i];
        if seg.len() == 0 || is_word(seg, one.as_slice()) {
        } else if is_word(seg, two.as_slice()) {
            if acc.len() > 0 {
                let _ = acc.pop();
                assert(views(acc@) =~= before.drop_last());
            }
        } else {
            let copy = slice_of(seg.as_slice(), 0, seg.len());
            assert(copy@ =~= seg@);
            acc.push(copy);
            assert(views(acc@) =~= before.push(seg@));
        }
        i += 1;
    }
    assert(views(segs@).take(segs@.len() as int) =~= views(segs@));
    acc
}

/// The components written out, each behind a slash.
fn join_components(comps: &Vec<Vec<char>>) -> (r: Vec<char>)
    ensures
        r@ == join_abs(views(comps@)),
{
    let mut r: Vec<char> = Vec::new();
    let mut i: usize = 0;
    assert(views(comps@).take(0) =~= Seq::empty());
    while i < comps.len()
        invariant
            i <= comps@.len(),
            r@ == join_abs(views(comps@).take(i as int)),
        decreases comps.len() - i,
    {
        let ghost all = views(comps@);
        assert(all.take(i + 1).drop_last() =~= all.take(i as int));
        assert(all.take(i + 1).last() == comps@[i as int]@);
        r.push('/');
        r = concat(r.as_slice(), comps[i].as_slice());
        i += 1;
    }
    assert(views(comps@).take(comps@.len() as int) =~= views(comps@));
    r
}

/// The normal form of a path.
pub fn normalize_chars(path: &[char]) -> (r: Vec<char>)
    ensures
        r@ == normalize(path@),
{
    let n = trimmed_len(path);
    let t = slice_of(path, 0, n);
    assert(t@ =~= path@.take(n as int));
    let slash: [char; 1] = ['/'];
    assert(slash@ =~= root_path());
    if n == 0 {
        let empty: [char; 0] = [];
        let r = concat(slash.as_slice(), empty.as_slice());
        assert(r@ =~= root_path());
        return r;
    }
    if t[0] != '/' {
        return concat(slash.as_slice(), t.as_slice());
    }
    let segs = split_chars(t.as_slice(), '/');
    let comps = clean(&segs);
    if comps.len() == 0 {
        let empty: [char; 0] = [];
        let r = concat(slash.as_slice(), empty.as_slice());
        assert(r@ =~= root_path());
        r
    } else {
        join_components(&comps)
    }
}

/// The pieces that are not empty.
pub fn keep_non_empty(segs: &Vec<Vec<char>>) -> (r: Vec<Vec<char>>)
    ensures
        views(r@) == non_empty(views(segs@)),
{
    let mut acc: Vec<Vec<char>> = Vec::new();
    let mut i: usize = 0;
    assert(views(segs@).take(0) =~= Seq::empty());
    assert(views(acc@) =~= Seq::empty());
    while i < segs.len()
        invariant
            i <= segs@.len(),
            views(acc@) == non_empty(views(segs@).take(i as int)),
        decreases segs.len() - i,
    {
        let ghost all = views(segs@);
        assert(all.take(i + 1).drop_last() =~= all.take(i as int));
        assert(all.take(i + 1).last() == segs@[i as int]@);
        let ghost before = views(acc@);
        let seg = &segs[i];
        if seg.len() > 0 {
            let copy = slice_of(seg.as_slice(), 0, seg.len());
            assert(copy@ =~= seg@);
            acc.push(copy);
            assert(views(acc@) =~= before.push(seg@));
        }
        i += 1;
    }
    assert(views(segs@).take(segs@.len() as int) =~= views(segs@));
    acc
}

/// The components of a path.
pub fn split_chars_path(path: &[char]) -> (r: Vec<Vec<char>>)
    ensures
        views(r@) == components(path@),
{
    let n = normalize_chars(path);
    let slash: [char; 1] = ['/'];
    assert(slash@ =~= root_path());
    if crate::text::chars_eq(n.as_slice(), slash.as_slice()) {
        let r: Vec<Vec<char>> = Vec::new();
        assert(views(r@) =~= Seq::empty());
        return r;
    }
    let segs = split_chars(n.as_slice(), '/');
    keep_non_empty(&segs)
}

/// What `stat` reports of an inode.
#[derive(Debug, Clone, Copy, PartialEq, Eq, Structural)]
pub struct Stats {
    pub ino: i64,
    pub mode: u32,
    pub nlink: u32,
    pub uid: u32,
    pub gid: u32,
    pub size: i64,
    pub atime: i64,
    pub mtime: i64,
    pub ctime: i64,
}

impl Stats {
    /// Whether the inode is a regular file.
    pub fn is_file(&self) -> (r: bool)
        ensures
            r == (self.mode & S_IFMT == S_IFREG),
    {
        (self.mode & S_IFMT) == S_IFREG
    }

    /// Whether the inode is a directory.
    pub fn is_directory(&self) -> (r: bool)
        ensures
            r == (self.mode & S_IFMT == S_IFDIR),
    {
        (self.mode & S_IFMT) == S_IFDIR
    }

    /// Whether the inode is a symbolic link.
    pub fn is_symlink(&self) -> (r: bool)
        ensures
            r == (self.mode & S_IFMT == S_IFLNK),
    {
        (self.mode & S_IFMT) == S_IFLNK
    }
}

/// Why the filesystem refuses an operation.
#[derive(Debug, Clone, Copy, PartialEq, Eq, Structural)]
pub enum FsError {
    /// A directory was to be made at the root.
    CreateRoot,
    /// The directory that should hold the new name does not exist.
    ParentMissing,
    /// A directory was to be made where a name already stands.
    DirectoryExists,
    /// A file was to be written at the root.
    WriteRoot,
    /// A link was to be made at the root.
    SymlinkAtRoot,
    /// A link was to be made where a name already stands.
    PathExists,
    /// The target of something that is no link was asked for.
    NotSymlink,
    /// A link has no target on record.
    SymlinkWithoutTarget,
    /// Too many links led to links.
    TooManyLinks,
    /// The root was to be removed.
    RemoveRoot,
    /// Nothing stands at the path.
    PathMissing,
    /// A directory that still has entries was to be removed.
    DirectoryNotEmpty,
    /// The inode numbers have run out.
    NoInode,
}

impl FsError {
    /// The refusal in words.
    pub open spec fn spec_message(self) -> Seq<char> {
        match self {
            FsError::CreateRoot => "Cannot create root directory"@,
            FsError::ParentMissing => "Parent directory does not exist"@,
            FsError::DirectoryExists => "Directory already exists"@,
            FsError::WriteRoot => "Cannot write to root directory"@,
            FsError::SymlinkAtRoot => "Cannot create symlink at root"@,
            FsError::PathExists => "Path already exists"@,
            FsError::NotSymlink => "Not a symbolic link"@,
            FsError::SymlinkWithoutTarget => "Symlink has no target"@,
            FsError::TooManyLinks => "Too many levels of symbolic links"@,
            FsError::RemoveRoot => "Cannot remove root directory"@,
            FsError::PathMissing => "Path does not exist"@,
            FsError::DirectoryNotEmpty => "Directory not empty"@,
            FsError::NoInode => "Failed to get inode"@,
        }
    }

    /// The refusal in words.
    pub fn message(&self) -> (r: String)
        ensures
            r@ == self.spec_message(),
    {
        match self {
            FsError::CreateRoot => String::from_str("Cannot create root directory"),
            FsError::ParentMissing => String::from_str("Parent directory does not exist"),
            FsError::DirectoryExists => String::from_str("Directory already exists"),
            FsError::WriteRoot => String::from_str("Cannot write to root directory"),
            FsError::SymlinkAtRoot => String::from_str("Cannot create symlink at root"),
            FsError::PathExists => String::from_str("Path already exists"),
            FsError::NotSymlink => String::from_str("Not a symbolic link"),
            FsError::SymlinkWithoutTarget => String::from_str("Symlink has no target"),
            FsError::TooManyLinks => String::from_str("Too many levels of symbolic links"),
            FsError::RemoveRoot => String::from_str("Cannot remove root directory"),
            FsError::PathMissing => String::from_str("Path does not exist"),
            FsError::DirectoryNotEmpty => String::from_str("Directory not empty"),
            FsError::NoInode => String::from_str("Failed to get inode"),
        }
    }
}

/// The inode reached from `cur` by looking up the names of `comps` one
/// after the other; none where a name is missing.
pub open spec fn walk(d: Map<(i64, Seq<char>), i64>, cur: i64, comps: Seq<Seq<char>>) -> Option<
    i64,
>
    decreases comps.len(),
{
    if comps.len() == 0 {
        Some(cur)
    } else if d.contains_key((cur, comps[0])) {
        walk(d, d[(cur, comps[0])], comps.drop_first())
    } else {
        None
    }
}

/// The inode that `path` leads to from the root.
pub open spec fn resolve(v: StoreView, path: Seq<char>) -> Option<i64> {
    walk(v.dentries, ROOT_INO, components(path))
}

/// A count as a 32-bit number, the largest one standing for all that are
/// larger.
pub open spec fn saturate(n: nat) -> u32 {
    if n > u32::MAX {
        u32::MAX
    } else {
        n as u32
    }
}

/// What `stat` reports of the inode with row `row`.
pub open spec fn stats_of(v: StoreView, row: Inode) -> Stats {
    Stats {
        ino: row.ino,
        mode: row.mode,
        nlink: saturate(v.link_count(row.ino)),
        uid: row.uid,
        gid: row.gid,
        size: row.size,
        atime: row.atime,
        mtime: row.mtime,
        ctime: row.ctime,
    }
}

/// What `lstat` reports of `path`: the inode it leads to, links not
/// followed.
pub open spec fn lstat_spec(v: StoreView, path: Seq<char>) -> Option<Stats> {
    match resolve(v, normalize(path)) {
        Some(ino) => if v.inodes.contains_key(ino) {
            Some(stats_of(v, v.inodes[ino]))
        } else {
            None
        },
        None => None,
    }
}

/// What `readlink` reports of `path`.
pub open spec fn readlink_spec(v: StoreView, path: Seq<char>) -> Result<
    Option<Seq<char>>,
    FsError,
> {
    match resolve(v, normalize(path)) {
        None => Ok(None),
        Some(ino) => if !v.inodes.contains_key(ino) {
            Ok(None)
        } else if v.inodes[ino].mode & S_IFMT != S_IFLNK {
            Err(FsError::NotSymlink)
        } else if v.symlinks.contains_key(ino) {
            Ok(Some(v.symlinks[ino]))
        } else {
            Ok(None)
        },
    }
}

/// The directory part of a path: what stands before its last slash, or the
/// root where that is the leading slash.
pub open spec fn parent_of(path: Seq<char>) -> Seq<char> {
    match last_slash(path) {
        Some(i) => if i == 0 {
            root_path()
        } else {
            path.take(i)
        },
        None => Seq::empty(),
    }
}

/// The position of the last slash.
pub open spec fn last_slash(path: Seq<char>) -> Option<int>
    decreases path.len(),
{
    if path.len() == 0 {
        None
    } else if path.last() == '/' {
        Some(path.len() - 1)
    } else {
        last_slash(path.drop_last())
    }
}

/// The path that a link at `current` with target `target` leads to: the
/// target itself where it is absolute, else the target taken from the
/// directory of the link; in normal form.
pub open spec fn next_path(current: Seq<char>, target: Seq<char>) -> Seq<char> {
    if target.len() > 0 && target[0] == '/' {
        normalize(target)
    } else {
        normalize(crate::path::join(parent_of(current), target))
    }
}

/// What `stat` reports of the normal path `current` when it may follow
/// `fuel` more links: what stands at the end of the links, or a refusal
/// where one more link would have to be followed than it may.
pub open spec fn follow(v: StoreView, current: Seq<char>, fuel: nat) -> Result<
    Option<Stats>,
    FsError,
>
    decreases fuel,
{
    match resolve(v, current) {
        None => Ok(None),
        Some(ino) => if !v.inodes.contains_key(ino) {
            Ok(None)
        } else if v.inodes[ino].mode & S_IFMT == S_IFLNK {
            if fuel == 0 {
                Err(FsError::TooManyLinks)
            } else {
                match readlink_spec(v, current) {
                    Ok(Some(target)) => follow(v, next_path(current, target), (fuel - 1) as nat),
                    Ok(None) => Err(FsError::SymlinkWithoutTarget),
                    Err(e) => Err(e),
                }
            }
        } else {
            Ok(Some(stats_of(v, v.inodes[ino])))
        },
    }
}

/// What `stat` reports of `path`: the inode it leads to, links followed, up
/// to 40 of them. A 41st link is refused.
pub open spec fn stat_spec(v: StoreView, path: Seq<char>) -> Result<Option<Stats>, FsError> {
    follow(v, normalize(path), MAX_SYMLINK_DEPTH as nat)
}

/// A new inode of mode `mode` and size `size`, made at time `now`.
pub open spec fn fresh_inode(ino: i64, mode: u32, size: i64, now: i64) -> Inode {
    Inode { ino, mode, uid: 0, gid: 0, size, atime: now, mtime: now, ctime: now }
}

/// The store after `mkdir`, or why `mkdir` refuses: at the root, below a
/// missing parent, over an existing name, or without an inode number left.
pub open spec fn mkdir_spec(v: StoreView, path: Seq<char>, now: i64) -> Result<
    StoreView,
    FsError,
> {
    let comps = components(normalize(path));
    if comps.len() == 0 {
        Err(FsError::CreateRoot)
    } else {
        match walk(v.dentries, ROOT_INO, comps.drop_last()) {
            None => Err(FsError::ParentMissing),
            Some(parent) => if walk(v.dentries, ROOT_INO, comps) is Some {
                Err(FsError::DirectoryExists)
            } else if v.last_ino == i64::MAX {
                Err(FsError::NoInode)
            } else {
                let ino = (v.last_ino + 1) as i64;
                Ok(
                    StoreView {
                        inodes: v.inodes.insert(ino, fresh_inode(ino, DEFAULT_DIR_MODE, 0, now)),
                        dentries: v.dentries.insert((parent, comps.last()), ino),
                        last_ino: ino,
                        ..v
                    },
                )
            },
        }
    }
}

/// The store after `symlink`, or why `symlink` refuses.
pub open spec fn symlink_spec(
    v: StoreView,
    target: Seq<char>,
    size: i64,
    linkpath: Seq<char>,
    now: i64,
) -> Result<StoreView, FsError> {
    let comps = components(normalize(linkpath));
    if comps.len() == 0 {
        Err(FsError::SymlinkAtRoot)
    } else {
        match walk(v.dentries, ROOT_INO, comps.drop_last()) {
            None => Err(FsError::ParentMissing),
            Some(parent) => if walk(v.dentries, ROOT_INO, comps) is Some {
                Err(FsError::PathExists)
            } else if v.last_ino == i64::MAX {
                Err(FsError::NoInode)
            } else {
                let ino = (v.last_ino + 1) as i64;
                Ok(
                    StoreView {
                        inodes: v.inodes.insert(ino, fresh_inode(ino, SYMLINK_MODE, size, now)),
                        dentries: v.dentries.insert((parent, comps.last()), ino),
                        symlinks: v.symlinks.insert(ino, target),
                        last_ino: ino,
                        ..v
                    },
                )
            },
        }
    }
}

/// The keys of the chunks of file `ino`.
pub open spec fn chunks_of(ino: i64) -> Set<(i64, i64)> {
    Set::new(|k: (i64, i64)| k.0 == ino)
}

/// The store after the bytes `data` were made the whole content of inode
/// `ino` at time `now`: one chunk at offset 0, unless `data` is empty, and
/// the size and modification time on the inode, if it has a row.
pub open spec fn with_content(v: StoreView, ino: i64, data: Seq<u8>, now: i64) -> StoreView {
    let cleared = v.chunks.remove_keys(chunks_of(ino));
    StoreView {
        chunks: if data.len() > 0 {
            cleared.insert((ino, 0), data)
        } else {
            cleared
        },
        inodes: if v.inodes.contains_key(ino) {
            v.inodes.insert(ino, Inode { size: data.len() as i64, mtime: now, ..v.inodes[ino] })
        } else {
            v.inodes
        },
        ..v
    }
}

/// The store after `write_file`, or why `write_file` refuses. A file that
/// exists keeps its inode and loses its old content; a new one gets the
/// next inode number and an entry in its directory.
pub open spec fn write_file_spec(v: StoreView, path: Seq<char>, data: Seq<u8>, now: i64) -> Result<
    StoreView,
    FsError,
> {
    let comps = components(normalize(path));
    if comps.len() == 0 {
        Err(FsError::WriteRoot)
    } else {
        match walk(v.dentries, ROOT_INO, comps.drop_last()) {
            None => Err(FsError::ParentMissing),
            Some(parent) => match walk(v.dentries, ROOT_INO, comps) {
                Some(ino) => Ok(with_content(v, ino, data, now)),
                None => if v.last_ino == i64::MAX {
                    Err(FsError::NoInode)
                } else {
                    let ino = (v.last_ino + 1) as i64;
                    Ok(
                        with_content(
                            StoreView {
                                inodes: v.inodes.insert(
                                    ino,
                                    fresh_inode(ino, DEFAULT_FILE_MODE, data.len() as i64, now),
                                ),
                                dentries: v.dentries.insert((parent, comps.last()), ino),
                                last_ino: ino,
                                ..v
                            },
                            ino,
                            data,
                            now,
                        ),
                    )
                },
            },
        }
    }
}

/// The store after `remove`, or why `remove` refuses: the root, a missing
/// path, a directory with entries. With its last name an inode loses its
/// row, its chunks and its link target.
pub open spec fn remove_spec(v: StoreView, path: Seq<char>) -> Result<StoreView, FsError> {
    let comps = components(normalize(path));
    if comps.len() == 0 {
        Err(FsError::RemoveRoot)
    } else {
        match walk(v.dentries, ROOT_INO, comps) {
            None => Err(FsError::PathMissing),
            Some(ino) => if ino == ROOT_INO {
                Err(FsError::RemoveRoot)
            } else if v.has_children(ino) {
                Err(FsError::DirectoryNotEmpty)
            } else {
                match walk(v.dentries, ROOT_INO, comps.drop_last()) {
                    None => Err(FsError::ParentMissing),
                    Some(parent) => {
                        let unnamed = StoreView {
                            dentries: v.dentries.remove((parent, comps.last())),
                            ..v
                        };
                        if unnamed.is_linked(ino) {
                            Ok(unnamed)
                        } else {
                            Ok(
                                StoreView {
                                    inodes: unnamed.inodes.remove(ino),
                                    chunks: unnamed.chunks.remove_keys(chunks_of(ino)),
                                    symlinks: unnamed.symlinks.remove(ino),
                                    ..unnamed
                                },
                            )
                        }
                    },
                }
            },
        }
    }
}

/// Why the content of a path cannot be shown.
#[derive(Debug, Clone, Copy, PartialEq, Eq, Structural)]
pub enum CatError {
    /// Nothing stands at the path.
    NotFound,
    /// A directory stands at the path.
    IsDirectory,
    /// What stands at the path is neither directory nor regular file.
    NotRegular,
}

/// What showing the content of `path` yields: the names of the path, taken
/// as written, lead from the root to a regular file, whose content it is.
pub open spec fn cat_spec(v: StoreView, path: Seq<char>) -> Result<Seq<u8>, CatError> {
    match walk(v.dentries, ROOT_INO, non_empty(split(path, '/'))) {
        None => Err(CatError::NotFound),
        Some(ino) => if !v.inodes.contains_key(ino) {
            Err(CatError::NotFound)
        } else if v.inodes[ino].mode & S_IFMT == S_IFDIR {
            Err(CatError::IsDirectory)
        } else if v.inodes[ino].mode & S_IFMT != S_IFREG {
            Err(CatError::NotRegular)
        } else {
            Ok(v.content(ino))
        },
    }
}

/// One line of a listing of the tree: what stands at `path`.
#[derive(Debug)]
pub struct Listed {
    pub ino: i64,
    pub path: String,
    pub is_dir: bool,
}

/// A line of a listing, as a value of the model.
pub struct ListedView {
    pub ino: i64,
    pub path: Seq<char>,
    pub is_dir: bool,
}

/// The lines of a listing as values of the model.
pub open spec fn listed_views(v: Seq<Listed>) -> Seq<ListedView> {
    v.map_values(|l: Listed| ListedView { ino: l.ino, path: l.path@, is_dir: l.is_dir })
}

/// The path of the entry `name` of the directory listed under `prefix`.
pub open spec fn listed_path(prefix: Seq<char>, name: Seq<char>) -> Seq<char> {
    if prefix.len() == 0 {
        name
    } else {
        prefix.push('/') + name
    }
}

/// The lines for the entries `ev` of a directory listed under `prefix`:
/// one for each entry whose inode has a row.
pub open spec fn level_lines(v: StoreView, prefix: Seq<char>, ev: Seq<(Seq<char>, i64)>) -> Seq<
    ListedView,
>
    decreases ev.len(),
{
    if ev.len() == 0 {
        Seq::empty()
    } else {
        let rest = level_lines(v, prefix, ev.drop_last());
        let e = ev.last();
        if v.inodes.contains_key(e.1) {
            rest.push(
                ListedView {
                    ino: e.1,
                    path: listed_path(prefix, e.0),
                    is_dir: v.inodes[e.1].mode & S_IFMT == S_IFDIR,
                },
            )
        } else {
            rest
        }
    }
}

/// A filesystem on a backing store.
#[derive(Debug)]
pub struct Filesystem {
    store: Store,
}

impl View for Filesystem {
    type V = StoreView;

    closed spec fn view(&self) -> StoreView {
        self.store@
    }
}

impl Filesystem {
    /// The backing store is well-formed.
    pub closed spec fn wf(&self) -> bool {
        self.store.wf()
    }

    /// The view of a well-formed filesystem is sound.
    pub proof fn lemma_sound(&self)
        requires
            self.wf(),
        ensures
            self@.sound(),
    {
        self.store.lemma_sound();
    }

    /// A filesystem that holds the root directory and nothing else, made at
    /// time `now`.
    pub fn new(now: i64) -> (r: Self)
        ensures
            r.wf(),
            r@.dentries == Map::<(i64, Seq<char>), i64>::empty(),
            r@.chunks == Map::<(i64, i64), Seq<u8>>::empty(),
            r@.symlinks == Map::<i64, Seq<char>>::empty(),
            r@.last_ino == ROOT_INO,
            r@.inodes.dom() == Set::<i64>::empty().insert(ROOT_INO),
            r@.inodes[ROOT_INO] == (Inode {
                ino: ROOT_INO,
                mode: DEFAULT_DIR_MODE,
                uid: 0,
                gid: 0,
                size: 0,
                atime: now,
                mtime: now,
                ctime: now,
            }),
    {
        let r = Filesystem { store: Store::new(now) };
        assert(r@.inodes.dom() =~= Set::<i64>::empty().insert(ROOT_INO));
        r
    }

    /// A filesystem on the store `store`.
    pub fn from_store(store: Store) -> (r: Self)
        requires
            store.wf(),
        ensures
            r.wf(),
            r@ == store@,
    {
        Filesystem { store }
    }

    /// The store behind the filesystem.
    pub fn store(&self) -> (r: &Store)
        ensures
            r@ == self@,
            self.wf() ==> r.wf(),
    {
        &self.store
    }

    /// The inode reached from the root by the first `n` names of `comps`.
    fn walk_prefix(&self, comps: &Vec<Vec<char>>, n: usize) -> (r: Option<i64>)
        requires
            self.wf(),
            n <= comps@.len(),
        ensures
            r == walk(self@.dentries, ROOT_INO, views(comps@).take(n as int)),
    {
        walk_names(&self.store, comps, n)
    }

    /// The inode reached from the root by the names `comps`.
    fn walk_from_root(&self, comps: &Vec<Vec<char>>) -> (r: Option<i64>)
        requires
            self.wf(),
        ensures
            r == walk(self@.dentries, ROOT_INO, views(comps@)),
    {
        assert(views(comps@).take(comps@.len() as int) =~= views(comps@));
        self.walk_prefix(comps, comps.len())
    }

    /// The inode that `path` leads to.
    fn resolve_chars(&self, path: &[char]) -> (r: Option<i64>)
        requires
            self.wf(),
        ensures
            r == resolve(self@, path@),
    {
        let comps = split_chars_path(path);
        self.walk_from_root(&comps)
    }

    /// The normal form of `path`.
    pub fn normalize_path(&self, path: &str) -> (r: String)
        ensures
            r@ == normalize(path@),
    {
        let chars = to_chars(path);
        let n = normalize_chars(chars.as_slice());
        from_chars(n.as_slice())
    }

    /// The components of `path`.
    pub fn split_path(&self, path: &str) -> (r: Vec<String>)
        ensures
            r@.len() == components(path@).len(),
            forall|i: int| 0 <= i < r@.len() ==> (#[trigger] r@[i])@ == components(path@)[i],
    {
        let chars = to_chars(path);
        let comps = split_chars_path(chars.as_slice());
        let mut out: Vec<String> = Vec::new();
        let mut i: usize = 0;
        while i < comps.len()
            invariant
                i <= comps@.len(),
                out@.len() == i,
                views(comps@) == components(path@),
                forall|j: int| 0 <= j < i ==> (#[trigger] out@[j])@ == components(path@)[j],
            decreases comps.len() - i,
        {
            assert(views(comps@)[i as int] == comps@[i as int]@);
            out.push(from_chars(comps[i].as_slice()));
            i += 1;
        }
        assert(views(comps@).len() == comps@.len());
        out
    }

    /// The inode that `path` leads to from the root; none where a name on
    /// the way is missing.
    pub fn resolve_path(&self, path: &str) -> (r: Option<i64>)
        requires
            self.wf(),
        ensures
            r == resolve(self@, path@),
    {
        let chars = to_chars(path);
        self.resolve_chars(chars.as_slice())
    }

    /// The number of directory entries that stand for `ino`, up to the
    /// largest 32-bit number.
    pub fn get_link_count(&self, ino: i64) -> (r: u32)
        requires
            self.wf(),
        ensures
            r == saturate(self@.link_count(ino)),
    {
        let n = self.store.link_count(ino);
        if n > 0xffff_ffff {
            u32::MAX
        } else {
            n as u32
        }
    }

    /// What `stat` reports of the inode with row `row`.
    fn build_stats_from_row(&self, row: &Inode) -> (r: Stats)
        requires
            self.wf(),
        ensures
            r == stats_of(self@, *row),
    {
        Stats {
            ino: row.ino,
            mode: row.mode,
            nlink: self.get_link_count(row.ino),
            uid: row.uid,
            gid: row.gid,
            size: row.size,
            atime: row.atime,
            mtime: row.mtime,
            ctime: row.ctime,
        }
    }

    /// What stands at `path`, links not followed; none where nothing does.
    pub fn lstat(&self, path: &str) -> (r: Option<Stats>)
        requires
            self.wf(),
        ensures
            r == lstat_spec(self@, path@),
    {
        let chars = to_chars(path);
        let n = normalize_chars(chars.as_slice());
        match self.resolve_chars(n.as_slice()) {
            Some(ino) => match self.store.find_inode(ino) {
                Some(row) => Some(self.build_stats_from_row(&row)),
                None => None,
            },
            None => None,
        }
    }

    /// The target of the link at `path`; none where nothing stands there or
    /// the link has no target on record; a refusal where what stands there
    /// is no link.
    pub fn readlink(&self, path: &str) -> (r: Result<Option<String>, FsError>)
        requires
            self.wf(),
        ensures
            match readlink_spec(self@, path@) {
                Ok(Some(t)) => r is Ok && r->Ok_0 is Some && r->Ok_0->0@ == t,
                Ok(None) => r is Ok && r->Ok_0 is None,
                Err(e) => r == Err::<Option<String>, FsError>(e),
            },
    {
        let chars = to_chars(path);
        let n = normalize_chars(chars.as_slice());
        self.readlink_chars(n.as_slice())
    }

    /// The target of the link at the normal path `n`.
    fn readlink_chars(&self, n: &[char]) -> (r: Result<Option<String>, FsError>)
        requires
            self.wf(),
        ensures
            match resolve(self@, n@) {
                None => r is Ok && r->Ok_0 is None,
                Some(ino) => if !self@.inodes.contains_key(ino) {
                    r is Ok && r->Ok_0 is None
                } else if self@.inodes[ino].mode & S_IFMT != S_IFLNK {
                    r == Err::<Option<String>, FsError>(FsError::NotSymlink)
                } else if self@.symlinks.contains_key(ino) {
                    r is Ok && r->Ok_0 is Some && r->Ok_0->0@ == self@.symlinks[ino]
                } else {
                    r is Ok && r->Ok_0 is None
                },
            },
    {
        let ino = match self.resolve_chars(n) {
            Some(ino) => ino,
            None => {
                return Ok(None);
            },
        };
        match self.store.find_inode(ino) {
            Some(row) => {
                if (row.mode & S_IFMT) != S_IFLNK {
                    return Err(FsError::NotSymlink);
                }
            },
            None => {
                return Ok(None);
            },
        }
        Ok(self.store.find_symlink(ino))
    }

    /// Makes a directory at `path`, at time `now`.
    pub fn mkdir(&mut self, path: &str, now: i64) -> (r: Result<(), FsError>)
        requires
            old(self).wf(),
        ensures
            final(self).wf(),
            match mkdir_spec(old(self)@, path@, now) {
                Ok(v) => r is Ok && final(self)@ == v,
                Err(e) => r == Err::<(), FsError>(e) && final(self)@ == old(self)@,
            },
    {
        let chars = to_chars(path);
        let n = normalize_chars(chars.as_slice());
        let comps = split_chars_path(n.as_slice());
        if comps.len() == 0 {
            return Err(FsError::CreateRoot);
        }
        assert(views(comps@).take(comps@.len() - 1) =~= views(comps@).drop_last());
        let parent = match self.walk_prefix(&comps, comps.len() - 1) {
            Some(parent) => parent,
            None => {
                return Err(FsError::ParentMissing);
            },
        };
        if self.walk_from_root(&comps).is_some() {
            return Err(FsError::DirectoryExists);
        }
        let name = from_chars(comps[comps.len() - 1].as_slice());
        proof {
            self.store.lemma_sound();
            lemma_walk_last(self@.dentries, ROOT_INO, views(comps@));
            lemma_walk_bounded(self@, ROOT_INO, views(comps@).drop_last());
        }
        let ino = match self.store.insert_inode(DEFAULT_DIR_MODE, 0, now) {
            Some(ino) => ino,
            None => {
                return Err(FsError::NoInode);
            },
        };
        self.store.insert_dentry(name, parent, ino);
        Ok(())
    }

    /// Makes a link at `linkpath` that leads to `target`, at time `now`.
    pub fn symlink(&mut self, target: &str, linkpath: &str, now: i64) -> (r: Result<(), FsError>)
        requires
            old(self).wf(),
            target.len() <= i64::MAX,
        ensures
            final(self).wf(),
            match symlink_spec(
                old(self)@,
                target@,
                target.len() as i64,
                linkpath@,
                now,
            ) {
                Ok(v) => r is Ok && final(self)@ == v,
                Err(e) => r == Err::<(), FsError>(e) && final(self)@ == old(self)@,
            },
    {
        let chars = to_chars(linkpath);
        let n = normalize_chars(chars.as_slice());
        let comps = split_chars_path(n.as_slice());
        if comps.len() == 0 {
            return Err(FsError::SymlinkAtRoot);
        }
        assert(views(comps@).take(comps@.len() - 1) =~= views(comps@).drop_last());
        let parent = match self.walk_prefix(&comps, comps.len() - 1) {
            Some(parent) => parent,
            None => {
                return Err(FsError::ParentMissing);
            },
        };
        if self.walk_from_root(&comps).is_some() {
            return Err(FsError::PathExists);
        }
        let name = from_chars(comps[comps.len() - 1].as_slice());
        proof {
            self.store.lemma_sound();
            lemma_walk_last(self@.dentries, ROOT_INO, views(comps@));
            lemma_walk_bounded(self@, ROOT_INO, views(comps@).drop_last());
        }
        let size = target.len() as i64;
        let ino = match self.store.insert_inode(SYMLINK_MODE, size, now) {
            Some(ino) => ino,
            None => {
                return Err(FsError::NoInode);
            },
        };
        proof {
            self.store.lemma_sound();
        }
        self.store.insert_symlink(ino, String::from_str(target));
        self.store.insert_dentry(name, parent, ino);
        Ok(())
    }

    /// Makes `data` the whole content of inode `ino`.
    fn set_content(&mut self, ino: i64, data: &[u8], now: i64)
        requires
            old(self).wf(),
            ino <= old(self)@.last_ino,
            data@.len() <= i64::MAX,
        ensures
            final(self).wf(),
            final(self)@ == with_content(old(self)@, ino, data@, now),
    {
        self.store.delete_chunks(ino);
        if data.len() > 0 {
            let copy = crate::bytes::copy_of(data);
            self.store.insert_chunk(ino, 0, copy);
        }
        proof {
            self.store.lemma_sound();
        }
        match self.store.find_inode(ino) {
            Some(row) => {
                let size = data.len() as i64;
                self.store.update_inode(Inode { size, mtime: now, ..row });
            },
            None => {},
        }
        proof {
            let want = with_content(old(self)@, ino, data@, now);
            assert(final(self)@.chunks =~= want.chunks);
            assert(final(self)@.inodes =~= want.inodes);
        }
    }

    /// Writes `data` as the whole content of the file at `path`, at time
    /// `now`. The file is made if it does not exist.
    pub fn write_file(&mut self, path: &str, data: &[u8], now: i64) -> (r: Result<(), FsError>)
        requires
            old(self).wf(),
            data@.len() <= i64::MAX,
        ensures
            final(self).wf(),
            match write_file_spec(old(self)@, path@, data@, now) {
                Ok(v) => r is Ok && final(self)@ == v,
                Err(e) => r == Err::<(), FsError>(e) && final(self)@ == old(self)@,
            },
    {
        let chars = to_chars(path);
        let n = normalize_chars(chars.as_slice());
        let comps = split_chars_path(n.as_slice());
        if comps.len() == 0 {
            return Err(FsError::WriteRoot);
        }
        assert(views(comps@).take(comps@.len() - 1) =~= views(comps@).drop_last());
        let parent = match self.walk_prefix(&comps, comps.len() - 1) {
            Some(parent) => parent,
            None => {
                return Err(FsError::ParentMissing);
            },
        };
        proof {
            self.store.lemma_sound();
            lemma_walk_last(self@.dentries, ROOT_INO, views(comps@));
            lemma_walk_bounded(self@, ROOT_INO, views(comps@).drop_last());
            lemma_walk_bounded(self@, ROOT_INO, views(comps@));
        }
        let ino = match self.walk_from_root(&comps) {
            Some(ino) => ino,
            None => {
                let name = from_chars(comps[comps.len() - 1].as_slice());
                let size = data.len() as i64;
                let ino = match self.store.insert_inode(DEFAULT_FILE_MODE, size, now) {
                    Some(ino) => ino,
                    None => {
                        return Err(FsError::NoInode);
                    },
                };
                self.store.insert_dentry(name, parent, ino);
                ino
            },
        };
        self.set_content(ino, data, now);
        Ok(())
    }

    /// Removes the file, link or empty directory at `path`.
    pub fn remove(&mut self, path: &str) -> (r: Result<(), FsError>)
        requires
            old(self).wf(),
        ensures
            final(self).wf(),
            match remove_spec(old(self)@, path@) {
                Ok(v) => r is Ok && final(self)@ == v,
                Err(e) => r == Err::<(), FsError>(e) && final(self)@ == old(self)@,
            },
    {
        let chars = to_chars(path);
        let n = normalize_chars(chars.as_slice());
        let comps = split_chars_path(n.as_slice());
        if comps.len() == 0 {
            return Err(FsError::RemoveRoot);
        }
        let ino = match self.walk_from_root(&comps) {
            Some(ino) => ino,
            None => {
                return Err(FsError::PathMissing);
            },
        };
        if ino == ROOT_INO {
            return Err(FsError::RemoveRoot);
        }
        if self.store.has_children(ino) {
            return Err(FsError::DirectoryNotEmpty);
        }
        assert(views(comps@).take(comps@.len() - 1) =~= views(comps@).drop_last());
        let parent = match self.walk_prefix(&comps, comps.len() - 1) {
            Some(parent) => parent,
            None => {
                return Err(FsError::ParentMissing);
            },
        };
        let name = from_chars(comps[comps.len() - 1].as_slice());
        self.store.delete_dentry(parent, &name);
        let ghost unnamed = self@;
        if !self.store.is_linked(ino) {
            self.store.delete_chunks(ino);
            self.store.delete_symlink(ino);
            self.store.delete_inode(ino);
            proof {
                assert(final(self)@.chunks =~= unnamed.chunks.remove_keys(chunks_of(ino)));
            }
        }
        Ok(())
    }

    /// The content of the file at `path`: the bytes of its chunks in
    /// ascending order of offset; none where nothing stands at `path`.
    pub fn read_file(&self, path: &str) -> (r: Option<Vec<u8>>)
        requires
            self.wf(),
        ensures
            match resolve(self@, path@) {
                Some(ino) => r is Some && r->0@ == self@.content(ino),
                None => r is None,
            },
    {
        match self.resolve_path(path) {
            Some(ino) => Some(self.store.content(ino)),
            None => None,
        }
    }

    /// One level of a listing of the tree: the entries of directory `ino`,
    /// which is listed under `prefix`, by name, each with its path and with
    /// whether it is a directory and so to be listed in turn.
    pub fn ls_filesystem(&self, ino: i64, prefix: &str) -> (r: Vec<Listed>)
        requires
            self.wf(),
        ensures
            exists|ev: Seq<(Seq<char>, i64)>|
                self@.lists_children(ino, ev) && listed_views(r@) == level_lines(
                    self@,
                    prefix@,
                    ev,
                ),
    {
        let children = self.store.children(ino);
        let ghost ev = entry_views(children@);
        let mut out: Vec<Listed> = Vec::new();
        let mut i: usize = 0;
        assert(ev.take(0) =~= Seq::empty());
        assert(listed_views(out@) =~= Seq::empty());
        while i < children.len()
            invariant
                self.wf(),
                i <= children@.len(),
                ev == entry_views(children@),
                listed_views(out@) == level_lines(self@, prefix@, ev.take(i as int)),
            decreases children.len() - i,
        {
            assert(ev.take(i + 1).drop_last() =~= ev.take(i as int));
            assert(ev.take(i + 1).last() == (children@[i as int].0@, children@[i as int].1));
            let ghost before = listed_views(out@);
            let child = children[i].1;
            match self.store.find_inode(child) {
                Some(row) => {
                    let name = children[i].0.as_str();
                    let path = if prefix.unicode_len() == 0 {
                        String::from_str(name)
                    } else {
                        let mut p = String::from_str(prefix);
                        p.append("/");
                        p.append(name);
                        proof {
                            reveal_strlit("/");
                            assert(p@ =~= prefix@.push('/') + name@);
                        }
                        p
                    };
                    let is_dir = row.mode & S_IFMT == S_IFDIR;
                    let ghost line = ListedView { ino: child, path: path@, is_dir };
                    out.push(Listed { ino: child, path, is_dir });
                    assert(listed_views(out@) =~= before.push(line));
                },
                None => {},
            }
            i += 1;
        }
        assert(ev.take(children@.len() as int) =~= ev);
        out
    }

    /// The content of the regular file at `path`, for showing it. The names
    /// of `path` are taken as written: dots are names like any other.
    pub fn cat_filesystem(&self, path: &str) -> (r: Result<Vec<u8>, CatError>)
        requires
            self.wf(),
        ensures
            match cat_spec(self@, path@) {
                Ok(bytes) => r is Ok && r->Ok_0@ == bytes,
                Err(e) => r == Err::<Vec<u8>, CatError>(e),
            },
    {
        let chars = to_chars(path);
        let segs = split_chars(chars.as_slice(), '/');
        let comps = keep_non_empty(&segs);
        let ino = match self.walk_from_root(&comps) {
            Some(ino) => ino,
            None => {
                return Err(CatError::NotFound);
            },
        };
        let row = match self.store.find_inode(ino) {
            Some(row) => row,
            None => {
                return Err(CatError::NotFound);
            },
        };
        if row.mode & S_IFMT == S_IFDIR {
            return Err(CatError::IsDirectory);
        }
        if row.mode & S_IFMT != S_IFREG {
            return Err(CatError::NotRegular);
        }
        Ok(self.store.content(ino))
    }

    /// The names in the directory at `path`, in ascending order; none where
    /// nothing stands at `path`.
    pub fn readdir(&self, path: &str) -> (r: Option<Vec<String>>)
        requires
            self.wf(),
        ensures
            match resolve(self@, path@) {
                None => r is None,
                Some(ino) => r is Some && exists|ev: Seq<(Seq<char>, i64)>|
                    self@.lists_children(ino, ev) && string_views(r->0@) == non_empty(
                        crate::store::names_of(ev),
                    ),
            },
    {
        let ino = match self.resolve_path(path) {
            Some(ino) => ino,
            None => {
                return None;
            },
        };
        let entries = self.store.children(ino);
        let ghost ev = entry_views(entries@);
        let ghost names = crate::store::names_of(ev);
        let mut out: Vec<String> = Vec::new();
        let mut i: usize = 0;
        assert(names.take(0) =~= Seq::empty());
        assert(string_views(out@) =~= Seq::empty());
        while i < entries.len()
            invariant
                i <= entries@.len(),
                ev == entry_views(entries@),
                names == crate::store::names_of(ev),
                string_views(out@) == non_empty(names.take(i as int)),
            decreases entries.len() - i,
        {
            assert(names.take(i + 1).drop_last() =~= names.take(i as int));
            assert(names.take(i + 1).last() == entries@[i as int].0@);
            let ghost before = string_views(out@);
            let name = &entries[i].0;
            if name.as_str().unicode_len() > 0 {
                out.push(name.clone());
                assert(string_views(out@) =~= before.push(entries@[i as int].0@));
            }
            i += 1;
        }
        assert(names.take(entries@.len() as int) =~= names);
        Some(out)
    }

    /// What stands at `path`, links followed; none where nothing does; a
    /// refusal where more than 40 links lead on to links.
    pub fn stat(&self, path: &str) -> (r: Result<Option<Stats>, FsError>)
        requires
            self.wf(),
        ensures
            r == stat_spec(self@, path@),
    {
        let chars = to_chars(path);
        let mut current = normalize_chars(chars.as_slice());
        let mut hops: usize = 0;
        loop
            invariant
                self.wf(),
                hops <= MAX_SYMLINK_DEPTH,
                stat_spec(self@, path@) == follow(
                    self@,
                    current@,
                    (MAX_SYMLINK_DEPTH - hops) as nat,
                ),
            decreases MAX_SYMLINK_DEPTH - hops,
        {
            let ino = match self.resolve_chars(current.as_slice()) {
                Some(ino) => ino,
                None => {
                    return Ok(None);
                },
            };
            let row = match self.store.find_inode(ino) {
                Some(row) => row,
                None => {
                    return Ok(None);
                },
            };
            if (row.mode & S_IFMT) != S_IFLNK {
                return Ok(Some(self.build_stats_from_row(&row)));
            }
            if hops == MAX_SYMLINK_DEPTH {
                return Err(FsError::TooManyLinks);
            }
            let again = normalize_chars(current.as_slice());
            let target = match self.readlink_chars(again.as_slice()) {
                Ok(Some(target)) => target,
                Ok(None) => {
                    return Err(FsError::SymlinkWithoutTarget);
                },
                Err(e) => {
                    return Err(e);
                },
            };
            let t = to_chars(target.as_str());
            current = next_path_chars(current.as_slice(), t.as_slice());
            hops += 1;
        }
    }
}

/// The directory part of a path.
pub fn parent_chars(path: &[char]) -> (r: Vec<char>)
    ensures
        r@ == parent_of(path@),
{
    let mut n: usize = path.len();
    assert(path@.take(n as int) =~= path@);
    while n > 0 && path[n - 1] != '/'
        invariant
            n <= path@.len(),
            last_slash(path@) == last_slash(path@.take(n as int)),
        decreases n,
    {
        assert(path@.take(n as int).drop_last() =~= path@.take(n - 1));
        n -= 1;
    }
    if n == 0 {
        Vec::new()
    } else if n == 1 {
        let mut r: Vec<char> = Vec::new();
        r.push('/');
        assert(r@ =~= root_path());
        r
    } else {
        let r = slice_of(path, 0, n - 1);
        assert(r@ =~= path@.take(n - 1));
        r
    }
}

/// The path that a link at `current` with target `target` leads to.
fn next_path_chars(current: &[char], target: &[char]) -> (r: Vec<char>)
    ensures
        r@ == next_path(current@, target@),
{
    if target.len() > 0 && target[0] == '/' {
        normalize_chars(target)
    } else {
        let parent = parent_chars(current);
        let joined = crate::path::join_paths(parent.as_slice(), target);
        normalize_chars(joined.as_slice())
    }
}

/// The inode reached from the root of `store` by the first `n` names of
/// `comps`.
pub fn walk_names(store: &Store, comps: &Vec<Vec<char>>, n: usize) -> (r: Option<i64>)
    requires
        store.wf(),
        n <= comps@.len(),
    ensures
        r == walk(store@.dentries, ROOT_INO, views(comps@).take(n as int)),
{
    let ghost all = views(comps@).take(n as int);
    let mut cur: i64 = ROOT_INO;
    let mut i: usize = 0;
    assert(all.skip(0) =~= all);
    while i < n
        invariant
            store.wf(),
            all == views(comps@).take(n as int),
            i <= n <= comps@.len(),
            walk(store@.dentries, ROOT_INO, all) == walk(store@.dentries, cur, all.skip(i as int)),
        decreases n - i,
    {
        let name = from_chars(comps[i].as_slice());
        assert(all.skip(i as int)[0] == name@);
        assert(all.skip(i as int).drop_first() =~= all.skip(i + 1));
        match store.lookup(cur, &name) {
            Some(ino) => {
                cur = ino;
            },
            None => {
                return None;
            },
        }
        i += 1;
    }
    Some(cur)
}

/// The sequences that a list of strings holds.
pub open spec fn string_views(v: Seq<String>) -> Seq<Seq<char>> {
    v.map_values(|x: String| x@)
}

/// A walk is a walk to the directory followed by one more lookup.
pub proof fn lemma_walk_last(d: Map<(i64, Seq<char>), i64>, cur: i64, comps: Seq<Seq<char>>)
    requires
        comps.len() > 0,
    ensures
        walk(d, cur, comps) == match walk(d, cur, comps.drop_last()) {
            Some(parent) => if d.contains_key((parent, comps.last())) {
                Some(d[(parent, comps.last())])
            } else {
                None
            },
            None => None,
        },
    decreases comps.len(),
{
    if comps.len() == 1 {
        assert(comps.drop_last() =~= Seq::empty());
        assert(comps.drop_first() =~= Seq::empty());
    } else {
        assert(comps.drop_last()[0] == comps[0]);
        assert(comps.drop_last().drop_first() =~= comps.drop_first().drop_last());
        if d.contains_key((cur, comps[0])) {
            lemma_walk_last(d, d[(cur, comps[0])], comps.drop_first());
        }
    }
}

/// A walk in a sound store ends at an inode number that was given out.
pub proof fn lemma_walk_bounded(v: StoreView, cur: i64, comps: Seq<Seq<char>>)
    requires
        v.sound(),
        cur <= v.last_ino,
    ensures
        walk(v.dentries, cur, comps) matches Some(ino) ==> ino <= v.last_ino,
    decreases comps.len(),
{
    if comps.len() > 0 && v.dentries.contains_key((cur, comps[0])) {
        lemma_walk_bounded(v, v.dentries[(cur, comps[0])], comps.drop_first());
    }
}

/// A walk that succeeds goes the same way after a new entry is added.
pub proof fn lemma_walk_insert_fresh(
    d: Map<(i64, Seq<char>), i64>,
    cur: i64,
    comps: Seq<Seq<char>>,
    k: (i64, Seq<char>),
    ino: i64,
)
    requires
        walk(d, cur, comps) is Some,
        !d.contains_key(k),
    ensures
        walk(d.insert(k, ino), cur, comps) == walk(d, cur, comps),
    decreases comps.len(),
{
    if comps.len() > 0 {
        lemma_walk_insert_fresh(d, d[(cur, comps[0])], comps.drop_first(), k, ino);
    }
}

/// The store after something new was made at a path and removed again:
/// the tables are as before, and the inode number is spent.
pub open spec fn spent(v: StoreView) -> StoreView {
    StoreView { last_ino: (v.last_ino + 1) as i64, ..v }
}

/// What making a name and removing it again comes to. If `made` is the
/// store `v` with a new inode, entered under the path's name in the path's
/// directory, and maybe with chunks and a link target for that inode, then
/// removing the path succeeds and leaves the tables of `v`; after that
/// nothing stands at the path, and removing it again is refused.
proof fn lemma_made_then_removed(v: StoreView, made: StoreView, path: Seq<char>)
    requires
        v.sound(),
        v.last_ino < i64::MAX,
        components(normalize(path)).len() > 0,
        walk(v.dentries, ROOT_INO, components(normalize(path)).drop_last()) is Some,
        walk(v.dentries, ROOT_INO, components(normalize(path))) is None,
        made.last_ino == v.last_ino + 1,
        made.dentries == v.dentries.insert(
            (
                walk(v.dentries, ROOT_INO, components(normalize(path)).drop_last())->0,
                components(normalize(path)).last(),
            ),
            made.last_ino,
        ),
        made.inodes.remove(made.last_ino) == v.inodes,
        made.chunks.remove_keys(chunks_of(made.last_ino)) == v.chunks,
        made.symlinks.remove(made.last_ino) == v.symlinks,
    ensures
        remove_spec(made, path) == Ok::<StoreView, FsError>(spent(v)),
        stat_spec(spent(v), path) == Ok::<Option<Stats>, FsError>(None),
        lstat_spec(spent(v), path) is None,
        remove_spec(spent(v), path) == Err::<StoreView, FsError>(FsError::PathMissing),
{
    let comps = components(normalize(path));
    let parent = walk(v.dentries, ROOT_INO, comps.drop_last())->0;
    let k = (parent, comps.last());
    let ino = made.last_ino;
    lemma_walk_last(v.dentries, ROOT_INO, comps);
    lemma_walk_bounded(v, ROOT_INO, comps.drop_last());
    lemma_walk_insert_fresh(v.dentries, ROOT_INO, comps.drop_last(), k, ino);
    lemma_walk_last(made.dentries, ROOT_INO, comps);
    assert(walk(made.dentries, ROOT_INO, comps) == Some(ino));
    assert(!made.has_children(ino)) by {
        assert forall|name: Seq<char>| !made.dentries.contains_key((ino, name)) by {
            if made.dentries.contains_key((ino, name)) {
                assert(v.dentries.contains_key((ino, name)));
            }
        }
    }
    let unnamed = StoreView { dentries: made.dentries.remove(k), ..made };
    assert(unnamed.dentries =~= v.dentries);
    assert(!unnamed.is_linked(ino)) by {
        assert forall|key: (i64, Seq<char>)|
            !(unnamed.dentries.contains_key(key) && unnamed.dentries[key] == ino) by {
            if unnamed.dentries.contains_key(key) {
                assert(v.dentries.contains_key(key));
            }
        }
    }
    let w = spent(v);
    assert(resolve(w, normalize(path)) is None);
}

/// After a directory is made and removed again, nothing stands at its
/// path, and a second removal is refused.
pub proof fn lemma_mkdir_then_remove(v: StoreView, path: Seq<char>, now: i64)
    requires
        v.sound(),
        mkdir_spec(v, path, now) is Ok,
    ensures
        remove_spec(mkdir_spec(v, path, now)->Ok_0, path) == Ok::<StoreView, FsError>(spent(v)),
        stat_spec(spent(v), path) == Ok::<Option<Stats>, FsError>(None),
        lstat_spec(spent(v), path) is None,
        remove_spec(spent(v), path) == Err::<StoreView, FsError>(FsError::PathMissing),
{
    let made = mkdir_spec(v, path, now)->Ok_0;
    let ino = made.last_ino;
    assert(made.inodes.remove(ino) =~= v.inodes);
    assert(made.chunks.remove_keys(chunks_of(ino)) =~= v.chunks);
    assert(made.symlinks.remove(ino) =~= v.symlinks);
    lemma_made_then_removed(v, made, path);
}

/// After a file is written where none was and removed again, nothing
/// stands at its path, and a second removal is refused.
pub proof fn lemma_write_then_remove(v: StoreView, path: Seq<char>, data: Seq<u8>, now: i64)
    requires
        v.sound(),
        write_file_spec(v, path, data, now) is Ok,
        walk(v.dentries, ROOT_INO, components(normalize(path))) is None,
    ensures
        remove_spec(write_file_spec(v, path, data, now)->Ok_0, path) == Ok::<StoreView, FsError>(
            spent(v),
        ),
        stat_spec(spent(v), path) == Ok::<Option<Stats>, FsError>(None),
        lstat_spec(spent(v), path) is None,
        remove_spec(spent(v), path) == Err::<StoreView, FsError>(FsError::PathMissing),
{
    let made = write_file_spec(v, path, data, now)->Ok_0;
    let ino = made.last_ino;
    assert(made.inodes.remove(ino) =~= v.inodes);
    assert(made.chunks.remove_keys(chunks_of(ino)) =~= v.chunks);
    assert(made.symlinks.remove(ino) =~= v.symlinks);
    lemma_made_then_removed(v, made, path);
}

/// After a link is made and removed again, nothing stands at its path, and
/// a second removal is refused.
pub proof fn lemma_symlink_then_remove(
    v: StoreView,
    target: Seq<char>,
    size: i64,
    path: Seq<char>,
    now: i64,
)
    requires
        v.sound(),
        symlink_spec(v, target, size, path, now) is Ok,
    ensures
        remove_spec(symlink_spec(v, target, size, path, now)->Ok_0, path) == Ok::<
            StoreView,
            FsError,
        >(spent(v)),
        stat_spec(spent(v), path) == Ok::<Option<Stats>, FsError>(None),
        lstat_spec(spent(v), path) is None,
        remove_spec(spent(v), path) == Err::<StoreView, FsError>(FsError::PathMissing),
{
    let made = symlink_spec(v, target, size, path, now)->Ok_0;
    let ino = made.last_ino;
    assert(made.inodes.remove(ino) =~= v.inodes);
    assert(made.chunks.remove_keys(chunks_of(ino)) =~= v.chunks);
    assert(made.symlinks.remove(ino) =~= v.symlinks);
    lemma_made_then_removed(v, made, path);
}

/// Where the normal path `current` leads to a link with a target on
/// record, the path that the link leads on to.
pub open spec fn hop(v: StoreView, current: Seq<char>) -> Option<Seq<char>> {
    match resolve(v, current) {
        Some(ino) => if v.inodes.contains_key(ino) && v.inodes[ino].mode & S_IFMT == S_IFLNK {
            match readlink_spec(v, current) {
                Ok(Some(target)) => Some(next_path(current, target)),
                _ => None,
            }
        } else {
            None
        },
        None => None,
    }
}

/// On a cycle of links every walk runs out of steps.
pub proof fn lemma_follow_cycle(v: StoreView, cycle: Seq<Seq<char>>, i: int, fuel: nat)
    requires
        cycle.len() > 0,
        0 <= i < cycle.len(),
        forall|j: int|
            0 <= j < cycle.len() ==> hop(v, #[trigger] cycle[j]) == Some(
                cycle[(j + 1) % (cycle.len() as int)],
            ),
    ensures
        follow(v, cycle[i], fuel) == Err::<Option<Stats>, FsError>(FsError::TooManyLinks),
    decreases fuel,
{
    assert(hop(v, cycle[i]) == Some(cycle[(i + 1) % (cycle.len() as int)]));
    if fuel > 0 {
        lemma_follow_cycle(v, cycle, (i + 1) % (cycle.len() as int), (fuel - 1) as nat);
    }
}

/// A cycle of links is refused: where the path leads into links that lead
/// round to the first of them, `stat` reports too many levels of links
/// after its 40 steps.
pub proof fn lemma_symlink_cycle(v: StoreView, cycle: Seq<Seq<char>>, path: Seq<char>)
    requires
        cycle.len() > 0,
        normalize(path) == cycle[0],
        forall|j: int|
            0 <= j < cycle.len() ==> hop(v, #[trigger] cycle[j]) == Some(
                cycle[(j + 1) % (cycle.len() as int)],
            ),
    ensures
        stat_spec(v, path) == Err::<Option<Stats>, FsError>(FsError::TooManyLinks),
{
    lemma_follow_cycle(v, cycle, 0, MAX_SYMLINK_DEPTH as nat);
}

/// What `write_file` wrote, `read_file` reads: after `data` was made the
/// whole content of an inode, the content of the inode is `data`.
pub proof fn lemma_content_of_written(v: StoreView, ino: i64, data: Seq<u8>, now: i64)
    ensures
        with_content(v, ino, data, now).content(ino) == data,
{
    let w = with_content(v, ino, data, now);
    let start = i64::MIN - 1;
    if data.len() > 0 {
        assert(w.is_next_chunk(ino, start, 0));
        let first = choose|o: i64| w.is_next_chunk(ino, start, o);
        assert(w.chunks.contains_key((ino, first)));
        assert(first == 0);
        assert forall|o: i64| !w.is_next_chunk(ino, 0, o) by {
            if w.is_next_chunk(ino, 0, o) {
                assert(w.chunks.contains_key((ino, o)));
            }
        }
        assert(w.content_after(ino, 0) =~= Seq::<u8>::empty());
        assert(w.content(ino) =~= data);
    } else {
        assert forall|o: i64| !w.is_next_chunk(ino, start, o) by {
            if w.is_next_chunk(ino, start, o) {
                assert(w.chunks.contains_key((ino, o)));
            }
        }
        assert(w.content(ino) =~= data);
    }
}

} // verus!
