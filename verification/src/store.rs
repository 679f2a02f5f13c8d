//! The backing store of a virtual filesystem: four tables of rows.
//!
//! `inode` holds one row per file, directory or link; `dentry` names an
//! inode inside a directory; `data chunk` holds a run of a file's bytes at
//! an offset; `symlink` holds the target of a link.

use crate::abi::S_IFDIR;
use crate::table::{
    distinct_keys, lemma_lookup_step, lemma_push_distinct, lemma_to_map_keys, to_map,
};
use crate::text::{chars_lt, lemma_lt_total, lemma_lt_trans, seq_lt, to_chars, views};
use vstd::prelude::*;

verus! {

/// The inode of the root directory.
pub const ROOT_INO: i64 = 1;

/// The mode of a fresh root directory.
pub const ROOT_MODE: u32 = 0o040755;

/// A row of the inode table.
#[derive(Debug, Clone, Copy, PartialEq, Eq, Structural)]
pub struct Inode {
    pub ino: i64,
    pub mode: u32,
    pub uid: u32,
    pub gid: u32,
    pub size: i64,
    pub atime: i64,
    pub mtime: i64,
    pub ctime: i64,
}

/// A row of the directory-entry table: `name` in directory `parent_ino`
/// stands for `ino`.
#[derive(Debug)]
pub struct Dentry {
    pub name: String,
    pub parent_ino: i64,
    pub ino: i64,
}

/// A row of the data table: the bytes of file `ino` from `offset` on.
#[derive(Debug)]
pub struct Chunk {
    pub ino: i64,
    pub offset: i64,
    pub data: Vec<u8>,
}

/// A row of the symlink table.
#[derive(Debug)]
pub struct Symlink {
    pub ino: i64,
    pub target: String,
}

/// The tables as maps from their keys.
pub struct StoreView {
    /// Inode number to row.
    pub inodes: Map<i64, Inode>,
    /// Directory and name to inode number.
    pub dentries: Map<(i64, Seq<char>), i64>,
    /// File and offset to bytes.
    pub chunks: Map<(i64, i64), Seq<u8>>,
    /// Link to target.
    pub symlinks: Map<i64, Seq<char>>,
    /// The highest inode number ever given out.
    pub last_ino: i64,
}

impl StoreView {
    /// What holds of every store: the root directory exists, every inode
    /// row is filed under its own number, and no table mentions an inode
    /// number that was never given out.
    pub open spec fn sound(self) -> bool {
        &&& self.inodes.contains_key(ROOT_INO)
        &&& self.inodes[ROOT_INO].mode & crate::abi::S_IFMT == S_IFDIR
        &&& self.last_ino >= ROOT_INO
        &&& forall|ino: i64|
            (#[trigger] self.inodes.contains_key(ino)) ==> self.inodes[ino].ino == ino && ino
                <= self.last_ino
        &&& forall|k: (i64, Seq<char>)|
            (#[trigger] self.dentries.contains_key(k)) ==> k.0 <= self.last_ino
                && self.dentries[k] <= self.last_ino
        &&& forall|k: (i64, i64)|
            (#[trigger] self.chunks.contains_key(k)) ==> k.0 <= self.last_ino
        &&& forall|ino: i64|
            (#[trigger] self.symlinks.contains_key(ino)) ==> ino <= self.last_ino
    }

    /// Directory `ino` has an entry.
    pub open spec fn has_children(self, ino: i64) -> bool {
        exists|name: Seq<char>| self.dentries.contains_key((ino, name))
    }

    /// `r` lists the entries of directory `ino` by name: every entry once,
    /// in strictly ascending order of name.
    pub open spec fn lists_children(self, ino: i64, r: Seq<(Seq<char>, i64)>) -> bool {
        children_listed(self.dentries, ino, r)
    }

    /// The chunk of file `ino` at offset `o` holds the byte at position `p`.
    pub open spec fn covers(self, ino: i64, o: i64, p: int) -> bool {
        self.chunks.contains_key((ino, o)) && o <= p < o + self.chunks[(ino, o)].len()
    }

    /// The chunk at offset `o` is the one a reader sees at position `p`:
    /// of the chunks that hold a byte there, the one that starts last.
    pub open spec fn visible(self, ino: i64, o: i64, p: int) -> bool {
        self.covers(ino, o, p) && forall|o2: i64| self.covers(ino, o2, p) ==> o2 <= o
    }

    /// The byte that a reader sees at position `p` of file `ino`: that of
    /// the chunk visible there, and zero where no chunk holds the position.
    pub open spec fn byte_at(self, ino: i64, p: int) -> u8 {
        if exists|o: i64| self.visible(ino, o, p) {
            let o = choose|o: i64| self.visible(ino, o, p);
            self.chunks[(ino, o)][p - o]
        } else {
            0
        }
    }

    /// The chunk at offset `o` holds a byte of the range from `start` up
    /// to, not including, `end`.
    pub open spec fn intersects(self, ino: i64, o: i64, start: int, end: int) -> bool {
        &&& self.chunks.contains_key((ino, o))
        &&& o < end
        &&& o + self.chunks[(ino, o)].len() > start
        &&& start < end
        &&& self.chunks[(ino, o)].len() > 0
    }

    /// Where the chunk at offset `o` ends, or `end` if that comes first.
    pub open spec fn clipped_end(self, ino: i64, o: i64, end: int) -> int {
        let stop = o + self.chunks[(ino, o)].len();
        if stop < end {
            stop
        } else {
            end
        }
    }

    /// A read of the range from `start` to `end` yields `n` bytes: up to
    /// the end of the chunk in the range that ends last, and none where no
    /// chunk holds a byte of the range.
    pub open spec fn reads(self, ino: i64, start: int, end: int, n: int) -> bool {
        if exists|o: i64| self.intersects(ino, o, start, end) {
            &&& exists|o: i64|
                self.intersects(ino, o, start, end) && self.clipped_end(ino, o, end) == start + n
            &&& forall|o: i64|
                self.intersects(ino, o, start, end) ==> self.clipped_end(ino, o, end) <= start + n
        } else {
            n == 0
        }
    }

    /// The chunk at offset `o` is the first chunk of file `ino` behind
    /// offset `after`.
    pub open spec fn is_next_chunk(self, ino: i64, after: int, o: i64) -> bool {
        &&& self.chunks.contains_key((ino, o))
        &&& o > after
        &&& forall|o2: i64| self.chunks.contains_key((ino, o2)) && o2 > after ==> o <= o2
    }

    /// The bytes of the chunks of file `ino` behind offset `after`, one
    /// chunk after the other in ascending order of offset.
    pub open spec fn content_after(self, ino: i64, after: int) -> Seq<u8>
        decreases i64::MAX - after,
    {
        if exists|o: i64| self.is_next_chunk(ino, after, o) {
            let o = choose|o: i64| self.is_next_chunk(ino, after, o);
            self.chunks[(ino, o)] + self.content_after(ino, o as int)
        } else {
            Seq::empty()
        }
    }

    /// The bytes of all chunks of file `ino`, one chunk after the other in
    /// ascending order of offset.
    pub open spec fn content(self, ino: i64) -> Seq<u8> {
        self.content_after(ino, i64::MIN - 1)
    }

    /// The directory entries that stand for `ino`.
    pub open spec fn links(self, ino: i64) -> Set<(i64, Seq<char>)> {
        links_in(self.dentries, ino)
    }

    /// The number of directory entries that stand for `ino`.
    pub open spec fn link_count(self, ino: i64) -> nat {
        self.links(ino).len()
    }

    /// Some directory entry stands for `ino`.
    pub open spec fn is_linked(self, ino: i64) -> bool {
        exists|k: (i64, Seq<char>)| self.dentries.contains_key(k) && self.dentries[k] == ino
    }
}

/// The inode rows as pairs of key and value.
pub open spec fn inode_pairs(rows: Seq<Inode>) -> Seq<(i64, Inode)> {
    rows.map_values(|r: Inode| (r.ino, r))
}

/// The directory entries as pairs of key and value.
pub open spec fn dentry_pairs(rows: Seq<Dentry>) -> Seq<((i64, Seq<char>), i64)> {
    rows.map_values(|d: Dentry| ((d.parent_ino, d.name@), d.ino))
}

/// The data chunks as pairs of key and value.
pub open spec fn chunk_pairs(rows: Seq<Chunk>) -> Seq<((i64, i64), Seq<u8>)> {
    rows.map_values(|c: Chunk| ((c.ino, c.offset), c.data@))
}

/// The symlink rows as pairs of key and value.
pub open spec fn symlink_pairs(rows: Seq<Symlink>) -> Seq<(i64, Seq<char>)> {
    rows.map_values(|s: Symlink| (s.ino, s.target@))
}

/// Names with inode numbers, as values of the model.
pub open spec fn entry_views(v: Seq<(String, i64)>) -> Seq<(Seq<char>, i64)> {
    v.map_values(|e: (String, i64)| (e.0@, e.1))
}

/// The backing store.
#[derive(Debug)]
pub struct Store {
    inodes: Vec<Inode>,
    dentries: Vec<Dentry>,
    chunks: Vec<Chunk>,
    symlinks: Vec<Symlink>,
    last_ino: i64,
}

/// The maps that the rows of the four tables stand for.
pub open spec fn view_of(
    inodes: Seq<Inode>,
    dentries: Seq<Dentry>,
    chunks: Seq<Chunk>,
    symlinks: Seq<Symlink>,
    last_ino: i64,
) -> StoreView {
    StoreView {
        inodes: to_map(inode_pairs(inodes)),
        dentries: to_map(dentry_pairs(dentries)),
        chunks: to_map(chunk_pairs(chunks)),
        symlinks: to_map(symlink_pairs(symlinks)),
        last_ino,
    }
}

/// The rows can be the tables of a store: no table holds a key twice, and
/// the maps they stand for are sound.
pub open spec fn acceptable(
    inodes: Seq<Inode>,
    dentries: Seq<Dentry>,
    chunks: Seq<Chunk>,
    symlinks: Seq<Symlink>,
    last_ino: i64,
) -> bool {
    &&& distinct_keys(inode_pairs(inodes))
    &&& distinct_keys(dentry_pairs(dentries))
    &&& distinct_keys(chunk_pairs(chunks))
    &&& distinct_keys(symlink_pairs(symlinks))
    &&& view_of(inodes, dentries, chunks, symlinks, last_ino).sound()
}

impl View for Store {
    type V = StoreView;

    closed spec fn view(&self) -> StoreView {
        view_of(self.inodes@, self.dentries@, self.chunks@, self.symlinks@, self.last_ino)
    }
}

impl Store {
    /// No table holds a key twice, and the view is sound.
    pub closed spec fn wf(&self) -> bool {
        acceptable(self.inodes@, self.dentries@, self.chunks@, self.symlinks@, self.last_ino)
    }

    /// The view of a well-formed store is sound.
    pub proof fn lemma_sound(&self)
        requires
            self.wf(),
        ensures
            self@.sound(),
    {
    }

    /// A store that holds the root directory and nothing else, made at
    /// time `now`.
    pub fn new(now: i64) -> (s: Self)
        ensures
            s.wf(),
            s@.inodes == Map::<i64, Inode>::empty().insert(
                ROOT_INO,
                Inode {
                    ino: ROOT_INO,
                    mode: ROOT_MODE,
                    uid: 0,
                    gid: 0,
                    size: 0,
                    atime: now,
                    mtime: now,
                    ctime: now,
                },
            ),
            s@.dentries == Map::<(i64, Seq<char>), i64>::empty(),
            s@.chunks == Map::<(i64, i64), Seq<u8>>::empty(),
            s@.symlinks == Map::<i64, Seq<char>>::empty(),
            s@.last_ino == ROOT_INO,
    {
        let root = Inode {
            ino: ROOT_INO,
            mode: ROOT_MODE,
            uid: 0,
            gid: 0,
            size: 0,
            atime: now,
            mtime: now,
            ctime: now,
        };
        let mut inodes: Vec<Inode> = Vec::new();
        inodes.push(root);
        let s = Store {
            inodes,
            dentries: Vec::new(),
            chunks: Vec::new(),
            symlinks: Vec::new(),
            last_ino: ROOT_INO,
        };
        proof {
            let pairs = inode_pairs(s.inodes@);
            assert(pairs =~= Seq::<(i64, Inode)>::empty().push((ROOT_INO, root)));
            assert(pairs.drop_last() =~= Seq::<(i64, Inode)>::empty());
            assert(to_map(pairs.drop_last()) == Map::<i64, Inode>::empty());
            assert(to_map(pairs) == Map::<i64, Inode>::empty().insert(ROOT_INO, root));
            assert(pairs.last() == (ROOT_INO, root));
            assert(dentry_pairs(s.dentries@) =~= Seq::empty());
            assert(chunk_pairs(s.chunks@) =~= Seq::empty());
            assert(symlink_pairs(s.symlinks@) =~= Seq::empty());
            assert(ROOT_MODE & crate::abi::S_IFMT == S_IFDIR) by (bit_vector)
                requires
                    ROOT_MODE == 0o040755u32,
                    crate::abi::S_IFMT == 0o170000u32,
                    S_IFDIR == 0o040000u32,
            ;
        }
        s
    }

    /// A store with the given rows, if they can be the tables of a store.
    pub fn from_rows(
        inodes: Vec<Inode>,
        dentries: Vec<Dentry>,
        chunks: Vec<Chunk>,
        symlinks: Vec<Symlink>,
        last_ino: i64,
    ) -> (r: Option<Self>)
        ensures
            match r {
                Some(s) => s.wf() && s@ == view_of(
                    inodes@,
                    dentries@,
                    chunks@,
                    symlinks@,
                    last_ino,
                ) && s.rows() == (inodes@, dentries@, chunks@, symlinks@),
                None => !acceptable(inodes@, dentries@, chunks@, symlinks@, last_ino),
            },
    {
        if !distinct_inodes(&inodes) || !distinct_dentries(&dentries) || !distinct_chunks(&chunks)
            || !distinct_symlinks(&symlinks) {
            return None;
        }
        if !sound_rows(&inodes, &dentries, &chunks, &symlinks, last_ino) {
            return None;
        }
        Some(Store { inodes, dentries, chunks, symlinks, last_ino })
    }

    /// The rows of the four tables, in the order in which they are kept.
    pub closed spec fn rows(&self) -> (Seq<Inode>, Seq<Dentry>, Seq<Chunk>, Seq<Symlink>) {
        (self.inodes@, self.dentries@, self.chunks@, self.symlinks@)
    }

    /// The rows stand for the view.
    pub proof fn lemma_rows(&self)
        ensures
            self@ == view_of(self.rows().0, self.rows().1, self.rows().2, self.rows().3, self@.last_ino),
            self.wf() == acceptable(
                self.rows().0,
                self.rows().1,
                self.rows().2,
                self.rows().3,
                self@.last_ino,
            ),
    {
    }

    /// The rows of the inode table.
    pub fn inodes(&self) -> (r: &Vec<Inode>)
        ensures
            r@ == self.rows().0,
    {
        &self.inodes
    }

    /// The rows of the directory-entry table.
    pub fn dentries(&self) -> (r: &Vec<Dentry>)
        ensures
            r@ == self.rows().1,
    {
        &self.dentries
    }

    /// The rows of the data table.
    pub fn chunks(&self) -> (r: &Vec<Chunk>)
        ensures
            r@ == self.rows().2,
    {
        &self.chunks
    }

    /// The rows of the symlink table.
    pub fn symlinks(&self) -> (r: &Vec<Symlink>)
        ensures
            r@ == self.rows().3,
    {
        &self.symlinks
    }

    /// The highest inode number ever given out.
    pub fn last_ino(&self) -> (r: i64)
        ensures
            r == self@.last_ino,
    {
        self.last_ino
    }

    /// The row of inode `ino`.
    pub fn find_inode(&self, ino: i64) -> (r: Option<Inode>)
        requires
            self.wf(),
        ensures
            match r {
                Some(row) => self@.inodes.contains_key(ino) && self@.inodes[ino] == row,
                None => !self@.inodes.contains_key(ino),
            },
    {
        let mut found: Option<Inode> = None;
        let mut i: usize = 0;
        assert(inode_pairs(self.inodes@).take(0) =~= Seq::empty());
        while i < self.inodes.len()
            invariant
                i <= self.inodes@.len(),
                match found {
                    Some(row) => to_map(inode_pairs(self.inodes@).take(i as int)).contains_key(ino)
                        && to_map(inode_pairs(self.inodes@).take(i as int))[ino] == row,
                    None => !to_map(inode_pairs(self.inodes@).take(i as int)).contains_key(ino),
                },
            decreases self.inodes.len() - i,
        {
            proof {
                lemma_lookup_step(inode_pairs(self.inodes@), i as int);
            }
            if self.inodes[i].ino == ino {
                found = Some(self.inodes[i]);
            }
            i += 1;
        }
        assert(inode_pairs(self.inodes@).take(self.inodes@.len() as int) =~= inode_pairs(
            self.inodes@,
        ));
        found
    }

    /// The inode that `name` stands for in directory `parent`.
    pub fn lookup(&self, parent: i64, name: &String) -> (r: Option<i64>)
        requires
            self.wf(),
        ensures
            match r {
                Some(ino) => self@.dentries.contains_key((parent, name@)) && self@.dentries[(
                    parent,
                    name@,
                )] == ino,
                None => !self@.dentries.contains_key((parent, name@)),
            },
    {
        let ghost key = (parent, name@);
        let mut found: Option<i64> = None;
        let mut i: usize = 0;
        assert(dentry_pairs(self.dentries@).take(0) =~= Seq::empty());
        while i < self.dentries.len()
            invariant
                i <= self.dentries@.len(),
                key == (parent, name@),
                match found {
                    Some(ino) => to_map(dentry_pairs(self.dentries@).take(i as int)).contains_key(
                        key,
                    ) && to_map(dentry_pairs(self.dentries@).take(i as int))[key] == ino,
                    None => !to_map(dentry_pairs(self.dentries@).take(i as int)).contains_key(key),
                },
            decreases self.dentries.len() - i,
        {
            proof {
                lemma_lookup_step(dentry_pairs(self.dentries@), i as int);
            }
            if self.dentries[i].parent_ino == parent && self.dentries[i].name == *name {
                found = Some(self.dentries[i].ino);
            }
            i += 1;
        }
        assert(dentry_pairs(self.dentries@).take(self.dentries@.len() as int) =~= dentry_pairs(
            self.dentries@,
        ));
        found
    }

    /// The position of the row of inode `ino`.
    fn inode_index(&self, ino: i64) -> (r: Option<usize>)
        requires
            self.wf(),
        ensures
            match r {
                Some(i) => i < self.inodes@.len() && self.inodes@[i as int].ino == ino,
                None => !self@.inodes.contains_key(ino),
            },
    {
        let mut i: usize = 0;
        while i < self.inodes.len()
            invariant
                i <= self.inodes@.len(),
                forall|j: int| 0 <= j < i ==> self.inodes@[j].ino != ino,
            decreases self.inodes.len() - i,
        {
            if self.inodes[i].ino == ino {
                return Some(i);
            }
            i += 1;
        }
        proof {
            lemma_to_map_keys(inode_pairs(self.inodes@), ino);
        }
        None
    }

    /// The position of the entry `name` of directory `parent`.
    fn dentry_index(&self, parent: i64, name: &String) -> (r: Option<usize>)
        requires
            self.wf(),
        ensures
            match r {
                Some(i) => i < self.dentries@.len() && dentry_pairs(self.dentries@)[i as int].0 == (
                    parent,
                    name@,
                ),
                None => !self@.dentries.contains_key((parent, name@)),
            },
    {
        let mut i: usize = 0;
        while i < self.dentries.len()
            invariant
                i <= self.dentries@.len(),
                forall|j: int| 0 <= j < i ==> dentry_pairs(self.dentries@)[j].0 != (parent, name@),
            decreases self.dentries.len() - i,
        {
            if self.dentries[i].parent_ino == parent && self.dentries[i].name == *name {
                return Some(i);
            }
            i += 1;
        }
        proof {
            lemma_to_map_keys(dentry_pairs(self.dentries@), (parent, name@));
        }
        None
    }

    /// The position of the chunk of file `ino` at `offset`.
    fn chunk_index(&self, ino: i64, offset: i64) -> (r: Option<usize>)
        requires
            self.wf(),
        ensures
            match r {
                Some(i) => i < self.chunks@.len() && chunk_pairs(self.chunks@)[i as int].0 == (
                    ino,
                    offset,
                ),
                None => !self@.chunks.contains_key((ino, offset)),
            },
    {
        let mut i: usize = 0;
        while i < self.chunks.len()
            invariant
                i <= self.chunks@.len(),
                forall|j: int| 0 <= j < i ==> chunk_pairs(self.chunks@)[j].0 != (ino, offset),
            decreases self.chunks.len() - i,
        {
            if self.chunks[i].ino == ino && self.chunks[i].offset == offset {
                return Some(i);
            }
            i += 1;
        }
        proof {
            lemma_to_map_keys(chunk_pairs(self.chunks@), (ino, offset));
        }
        None
    }

    /// The position of the symlink row of `ino`.
    fn symlink_index(&self, ino: i64) -> (r: Option<usize>)
        requires
            self.wf(),
        ensures
            match r {
                Some(i) => i < self.symlinks@.len() && self.symlinks@[i as int].ino == ino,
                None => !self@.symlinks.contains_key(ino),
            },
    {
        let mut i: usize = 0;
        while i < self.symlinks.len()
            invariant
                i <= self.symlinks@.len(),
                forall|j: int| 0 <= j < i ==> self.symlinks@[j].ino != ino,
            decreases self.symlinks.len() - i,
        {
            if self.symlinks[i].ino == ino {
                return Some(i);
            }
            i += 1;
        }
        proof {
            lemma_to_map_keys(symlink_pairs(self.symlinks@), ino);
        }
        None
    }

    /// Adds an inode under the next number. None, and nothing changes,
    /// where the numbers have run out.
    pub fn insert_inode(&mut self, mode: u32, size: i64, now: i64) -> (r: Option<i64>)
        requires
            old(self).wf(),
        ensures
            final(self).wf(),
            match r {
                Some(ino) => ino == old(self)@.last_ino + 1 && final(self)@ == (StoreView {
                    inodes: old(self)@.inodes.insert(
                        ino,
                        Inode {
                            ino,
                            mode,
                            uid: 0,
                            gid: 0,
                            size,
                            atime: now,
                            mtime: now,
                            ctime: now,
                        },
                    ),
                    last_ino: ino,
                    ..old(self)@
                }),
                None => old(self)@.last_ino == i64::MAX && final(self)@ == old(self)@,
            },
    {
        if self.last_ino == i64::MAX {
            return None;
        }
        let ino = self.last_ino + 1;
        let row = Inode { ino, mode, uid: 0, gid: 0, size, atime: now, mtime: now, ctime: now };
        proof {
            lemma_push_distinct(inode_pairs(self.inodes@), ino, row);
            assert(inode_pairs(self.inodes@.push(row)) =~= inode_pairs(self.inodes@).push(
                (ino, row),
            ));
        }
        self.inodes.push(row);
        self.last_ino = ino;
        Some(ino)
    }

    /// Replaces the row of inode `row.ino`.
    pub fn update_inode(&mut self, row: Inode)
        requires
            old(self).wf(),
            old(self)@.inodes.contains_key(row.ino),
            row.ino == ROOT_INO ==> row.mode & crate::abi::S_IFMT == S_IFDIR,
        ensures
            final(self).wf(),
            final(self)@ == (StoreView {
                inodes: old(self)@.inodes.insert(row.ino, row),
                ..old(self)@
            }),
    {
        match self.inode_index(row.ino) {
            Some(i) => {
                proof {
                    crate::table::lemma_remove_row(inode_pairs(self.inodes@), i as int);
                    assert(inode_pairs(self.inodes@.remove(i as int)) =~= inode_pairs(
                        self.inodes@,
                    ).remove(i as int));
                }
                let _ = self.inodes.remove(i);
                proof {
                    lemma_push_distinct(inode_pairs(self.inodes@), row.ino, row);
                    assert(inode_pairs(self.inodes@.push(row)) =~= inode_pairs(self.inodes@).push(
                        (row.ino, row),
                    ));
                }
                self.inodes.push(row);
                proof {
                    assert(final(self)@.inodes =~= old(self)@.inodes.insert(row.ino, row));
                }
            },
            None => {},
        }
    }

    /// Takes the row of inode `ino` out.
    pub fn delete_inode(&mut self, ino: i64)
        requires
            old(self).wf(),
            ino != ROOT_INO,
        ensures
            final(self).wf(),
            final(self)@ == (StoreView { inodes: old(self)@.inodes.remove(ino), ..old(self)@ }),
    {
        match self.inode_index(ino) {
            Some(i) => {
                proof {
                    crate::table::lemma_remove_row(inode_pairs(self.inodes@), i as int);
                    assert(inode_pairs(self.inodes@.remove(i as int)) =~= inode_pairs(
                        self.inodes@,
                    ).remove(i as int));
                }
                let ghost prev = self@;
                let _ = self.inodes.remove(i);
                proof {
                    assert(prev.sound());
                    assert(self@.inodes.dom().subset_of(prev.inodes.dom()));
                    assert(self@.dentries.dom().subset_of(prev.dentries.dom()));
                    assert(self@.chunks.dom().subset_of(prev.chunks.dom()));
                    assert(self@.symlinks.dom().subset_of(prev.symlinks.dom()));
                    assert(self@.sound());
                }
            },
            None => {
                assert(old(self)@.inodes.remove(ino) =~= old(self)@.inodes);
            },
        }
    }

    /// Adds the entry `name` to directory `parent`, standing for `ino`.
    pub fn insert_dentry(&mut self, name: String, parent: i64, ino: i64)
        requires
            old(self).wf(),
            !old(self)@.dentries.contains_key((parent, name@)),
            parent <= old(self)@.last_ino,
            ino <= old(self)@.last_ino,
        ensures
            final(self).wf(),
            final(self)@ == (StoreView {
                dentries: old(self)@.dentries.insert((parent, name@), ino),
                ..old(self)@
            }),
    {
        let ghost key = (parent, name@);
        let row = Dentry { name, parent_ino: parent, ino };
        proof {
            lemma_push_distinct(dentry_pairs(self.dentries@), key, ino);
            assert(dentry_pairs(self.dentries@.push(row)) =~= dentry_pairs(self.dentries@).push(
                (key, ino),
            ));
        }
        self.dentries.push(row);
    }

    /// Takes the entry `name` out of directory `parent`.
    pub fn delete_dentry(&mut self, parent: i64, name: &String)
        requires
            old(self).wf(),
        ensures
            final(self).wf(),
            final(self)@ == (StoreView {
                dentries: old(self)@.dentries.remove((parent, name@)),
                ..old(self)@
            }),
    {
        match self.dentry_index(parent, name) {
            Some(i) => {
                proof {
                    crate::table::lemma_remove_row(dentry_pairs(self.dentries@), i as int);
                    assert(dentry_pairs(self.dentries@.remove(i as int)) =~= dentry_pairs(
                        self.dentries@,
                    ).remove(i as int));
                }
                let ghost prev = self@;
                let _ = self.dentries.remove(i);
                proof {
                    assert(prev.sound());
                    assert(self@.inodes.dom().subset_of(prev.inodes.dom()));
                    assert(self@.dentries.dom().subset_of(prev.dentries.dom()));
                    assert(self@.chunks.dom().subset_of(prev.chunks.dom()));
                    assert(self@.symlinks.dom().subset_of(prev.symlinks.dom()));
                    assert(self@.sound());
                }
            },
            None => {
                assert(old(self)@.dentries.remove((parent, name@)) =~= old(self)@.dentries);
            },
        }
    }

    /// The target of symlink `ino`.
    pub fn find_symlink(&self, ino: i64) -> (r: Option<String>)
        requires
            self.wf(),
        ensures
            match r {
                Some(t) => self@.symlinks.contains_key(ino) && self@.symlinks[ino] == t@,
                None => !self@.symlinks.contains_key(ino),
            },
    {
        match self.symlink_index(ino) {
            Some(i) => {
                proof {
                    crate::table::lemma_to_map_row(symlink_pairs(self.symlinks@), i as int);
                }
                Some(self.symlinks[i].target.clone())
            },
            None => None,
        }
    }

    /// Records `target` as the target of symlink `ino`.
    pub fn insert_symlink(&mut self, ino: i64, target: String)
        requires
            old(self).wf(),
            !old(self)@.symlinks.contains_key(ino),
            ino <= old(self)@.last_ino,
        ensures
            final(self).wf(),
            final(self)@ == (StoreView {
                symlinks: old(self)@.symlinks.insert(ino, target@),
                ..old(self)@
            }),
    {
        let ghost t = target@;
        let row = Symlink { ino, target };
        proof {
            lemma_push_distinct(symlink_pairs(self.symlinks@), ino, t);
            assert(symlink_pairs(self.symlinks@.push(row)) =~= symlink_pairs(self.symlinks@).push(
                (ino, t),
            ));
        }
        self.symlinks.push(row);
    }

    /// Takes the symlink row of `ino` out.
    pub fn delete_symlink(&mut self, ino: i64)
        requires
            old(self).wf(),
        ensures
            final(self).wf(),
            final(self)@ == (StoreView { symlinks: old(self)@.symlinks.remove(ino), ..old(self)@ }),
    {
        match self.symlink_index(ino) {
            Some(i) => {
                proof {
                    crate::table::lemma_remove_row(symlink_pairs(self.symlinks@), i as int);
                    assert(symlink_pairs(self.symlinks@.remove(i as int)) =~= symlink_pairs(
                        self.symlinks@,
                    ).remove(i as int));
                }
                let ghost prev = self@;
                let _ = self.symlinks.remove(i);
                proof {
                    assert(prev.sound());
                    assert(self@.inodes.dom().subset_of(prev.inodes.dom()));
                    assert(self@.dentries.dom().subset_of(prev.dentries.dom()));
                    assert(self@.chunks.dom().subset_of(prev.chunks.dom()));
                    assert(self@.symlinks.dom().subset_of(prev.symlinks.dom()));
                    assert(self@.sound());
                }
            },
            None => {
                assert(old(self)@.symlinks.remove(ino) =~= old(self)@.symlinks);
            },
        }
    }

    /// Stores `data` as the bytes of file `ino` from `offset` on.
    pub fn insert_chunk(&mut self, ino: i64, offset: i64, data: Vec<u8>)
        requires
            old(self).wf(),
            !old(self)@.chunks.contains_key((ino, offset)),
            ino <= old(self)@.last_ino,
        ensures
            final(self).wf(),
            final(self)@ == (StoreView {
                chunks: old(self)@.chunks.insert((ino, offset), data@),
                ..old(self)@
            }),
    {
        let ghost d = data@;
        let row = Chunk { ino, offset, data };
        proof {
            lemma_push_distinct(chunk_pairs(self.chunks@), (ino, offset), d);
            assert(chunk_pairs(self.chunks@.push(row)) =~= chunk_pairs(self.chunks@).push(
                ((ino, offset), d),
            ));
        }
        self.chunks.push(row);
    }

    /// Takes the chunk of file `ino` at `offset` out.
    pub fn delete_chunk(&mut self, ino: i64, offset: i64)
        requires
            old(self).wf(),
        ensures
            final(self).wf(),
            final(self)@ == (StoreView {
                chunks: old(self)@.chunks.remove((ino, offset)),
                ..old(self)@
            }),
    {
        match self.chunk_index(ino, offset) {
            Some(i) => {
                proof {
                    crate::table::lemma_remove_row(chunk_pairs(self.chunks@), i as int);
                    assert(chunk_pairs(self.chunks@.remove(i as int)) =~= chunk_pairs(
                        self.chunks@,
                    ).remove(i as int));
                }
                let ghost prev = self@;
                let _ = self.chunks.remove(i);
                proof {
                    assert(prev.sound());
                    assert(self@.inodes.dom().subset_of(prev.inodes.dom()));
                    assert(self@.dentries.dom().subset_of(prev.dentries.dom()));
                    assert(self@.chunks.dom().subset_of(prev.chunks.dom()));
                    assert(self@.symlinks.dom().subset_of(prev.symlinks.dom()));
                    assert(self@.sound());
                }
            },
            None => {
                assert(old(self)@.chunks.remove((ino, offset)) =~= old(self)@.chunks);
            },
        }
    }

    /// Takes every chunk of file `ino` out.
    pub fn delete_chunks(&mut self, ino: i64)
        requires
            old(self).wf(),
        ensures
            final(self).wf(),
            final(self)@ == (StoreView {
                chunks: old(self)@.chunks.remove_keys(Set::new(|k: (i64, i64)| k.0 == ino)),
                ..old(self)@
            }),
    {
        let ghost gone = Set::new(|k: (i64, i64)| k.0 == ino);
        let ghost before = old(self)@.chunks;
        let mut i: usize = 0;
        while i < self.chunks.len()
            invariant
                i <= self.chunks@.len(),
                self.wf(),
                self@ == (StoreView { chunks: self@.chunks, ..old(self)@ }),
                gone == Set::new(|k: (i64, i64)| k.0 == ino),
                before == old(self)@.chunks,
                self@.chunks.remove_keys(gone) == before.remove_keys(gone),
                forall|k: (i64, i64)| self@.chunks.contains_key(k) ==> before.contains_key(k),
                forall|j: int| 0 <= j < i ==> self.chunks@[j].ino != ino,
            decreases self.chunks.len() - i,
        {
            if self.chunks[i].ino == ino {
                let ghost rows = chunk_pairs(self.chunks@);
                proof {
                    crate::table::lemma_remove_row(rows, i as int);
                    assert(chunk_pairs(self.chunks@.remove(i as int)) =~= rows.remove(i as int));
                    assert(gone.contains(rows[i as int].0));
                    assert(to_map(rows).remove(rows[i as int].0).remove_keys(gone) =~= to_map(
                        rows,
                    ).remove_keys(gone));
                }
                let ghost prev = self@;
                let _ = self.chunks.remove(i);
                proof {
                    assert(self@.chunks == prev.chunks.remove(rows[i as int].0));
                    assert(prev.sound());
                    assert(self@.dentries == prev.dentries);
                    assert(self@.symlinks == prev.symlinks);
                    assert(self@.last_ino == prev.last_ino);
                    assert(self@.sound());
                }
            } else {
                i += 1;
            }
        }
        proof {
            let rows = chunk_pairs(self.chunks@);
            assert forall|k: (i64, i64)| self@.chunks.contains_key(k) implies !gone.contains(
                k,
            ) by {
                lemma_to_map_keys(rows, k);
                let j = choose|j: int| 0 <= j < rows.len() && rows[j].0 == k;
                assert(self.chunks@[j].ino != ino);
            }
            assert(self@.chunks =~= self@.chunks.remove_keys(gone));
        }
    }

    /// Whether directory `ino` has an entry.
    pub fn has_children(&self, ino: i64) -> (r: bool)
        requires
            self.wf(),
        ensures
            r == self@.has_children(ino),
    {
        let ghost rows = dentry_pairs(self.dentries@);
        let mut i: usize = 0;
        while i < self.dentries.len()
            invariant
                i <= self.dentries@.len(),
                forall|j: int| 0 <= j < i ==> self.dentries@[j].parent_ino != ino,
            decreases self.dentries.len() - i,
        {
            if self.dentries[i].parent_ino == ino {
                proof {
                    let rows = dentry_pairs(self.dentries@);
                    lemma_to_map_keys(rows, rows[i as int].0);
                    assert(self@.dentries.contains_key((ino, self.dentries@[i as int].name@)));
                }
                return true;
            }
            i += 1;
        }
        proof {
            let rows = dentry_pairs(self.dentries@);
            assert forall|name: Seq<char>| !self@.dentries.contains_key((ino, name)) by {
                lemma_to_map_keys(rows, (ino, name));
                if self@.dentries.contains_key((ino, name)) {
                    let j = choose|j: int| 0 <= j < rows.len() && rows[j].0 == (ino, name);
                    assert(self.dentries@[j].parent_ino == ino);
                }
            }
        }
        false
    }

    /// Whether a directory entry stands for `ino`.
    pub fn is_linked(&self, ino: i64) -> (r: bool)
        requires
            self.wf(),
        ensures
            r == self@.is_linked(ino),
    {
        let mut i: usize = 0;
        while i < self.dentries.len()
            invariant
                self.wf(),
                i <= self.dentries@.len(),
                forall|j: int| 0 <= j < i ==> self.dentries@[j].ino != ino,
            decreases self.dentries.len() - i,
        {
            if self.dentries[i].ino == ino {
                proof {
                    let rows = dentry_pairs(self.dentries@);
                    crate::table::lemma_to_map_row(rows, i as int);
                    assert(self@.dentries[rows[i as int].0] == ino);
                }
                return true;
            }
            i += 1;
        }
        proof {
            let rows = dentry_pairs(self.dentries@);
            assert forall|k: (i64, Seq<char>)|
                !(self@.dentries.contains_key(k) && self@.dentries[k] == ino) by {
                lemma_to_map_keys(rows, k);
                if self@.dentries.contains_key(k) {
                    let j = choose|j: int| 0 <= j < rows.len() && rows[j].0 == k;
                    crate::table::lemma_to_map_row(rows, j);
                    assert(self.dentries@[j].ino != ino);
                }
            }
        }
        false
    }

    /// The byte that a reader sees at position `p` of file `ino`.
    pub fn byte_at(&self, ino: i64, p: i64) -> (r: u8)
        requires
            self.wf(),
        ensures
            r == self@.byte_at(ino, p as int),
    {
        let ghost rows = chunk_pairs(self.chunks@);
        let mut best: Option<(i64, u8)> = None;
        let mut j: usize = 0;
        while j < self.chunks.len()
            invariant
                self.wf(),
                rows == chunk_pairs(self.chunks@),
                j <= self.chunks@.len(),
                match best {
                    Some((o, b)) => exists|k: int|
                        0 <= k < j && #[trigger] rows[k].0 == (ino, o) && o <= p < o
                            + rows[k].1.len() && rows[k].1[p - o] == b,
                    None => true,
                },
                forall|k: int|
                    0 <= k < j && (#[trigger] rows[k]).0.0 == ino && rows[k].0.1 <= p < rows[k].0.1
                        + rows[k].1.len() ==> (best matches Some(pair) && rows[k].0.1 <= pair.0),
            decreases self.chunks.len() - j,
        {
            let c = &self.chunks[j];
            assert(rows[j as int] == ((c.ino, c.offset), c.data@));
            if c.ino == ino && c.offset <= p && (p as i128) < (c.offset as i128) + (
            c.data.len() as i128) {
                let better = match best {
                    Some((o, _)) => c.offset > o,
                    None => true,
                };
                if better {
                    let at = ((p as i128) - (c.offset as i128)) as usize;
                    best = Some((c.offset, c.data[at]));
                }
            }
            j += 1;
        }
        proof {
            let v = self@;
            assert forall|o2: i64| v.covers(ino, o2, p as int) implies (best matches Some(pair)
                && o2 <= pair.0) by {
                lemma_to_map_keys(rows, (ino, o2));
                let k = choose|k: int| 0 <= k < rows.len() && rows[k].0 == (ino, o2);
                crate::table::lemma_to_map_row(rows, k);
            }
            match best {
                Some((o, b)) => {
                    let k = choose|k: int|
                        0 <= k < j && #[trigger] rows[k].0 == (ino, o) && o <= p < o
                            + rows[k].1.len() && rows[k].1[p - o] == b;
                    crate::table::lemma_to_map_row(rows, k);
                    assert(v.visible(ino, o, p as int));
                    let chosen = choose|o: i64| v.visible(ino, o, p as int);
                    assert(v.covers(ino, chosen, p as int));
                    assert(v.covers(ino, o, p as int));
                    assert(chosen == o);
                },
                None => {
                    assert forall|o: i64| !v.visible(ino, o, p as int) by {
                        if v.visible(ino, o, p as int) {
                            assert(v.covers(ino, o, p as int));
                        }
                    }
                },
            }
        }
        match best {
            Some((_, b)) => b,
            None => 0,
        }
    }

    /// How many bytes a read of `len` bytes from position `start` of file
    /// `ino` yields.
    pub fn read_len(&self, ino: i64, start: i64, len: usize) -> (n: usize)
        requires
            self.wf(),
        ensures
            n <= len,
            self@.reads(ino, start as int, start + len, n as int),
    {
        let ghost rows = chunk_pairs(self.chunks@);
        let ghost end = start + len;
        let mut n: usize = 0;
        let mut found: bool = false;
        let mut j: usize = 0;
        while j < self.chunks.len()
            invariant
                self.wf(),
                rows == chunk_pairs(self.chunks@),
                end == start + len,
                j <= self.chunks@.len(),
                n <= len,
                !found ==> n == 0,
                found ==> exists|k: int|
                    0 <= k < j && row_intersects(#[trigger] rows[k], ino, start as int, end)
                        && row_end(rows[k], end) == start + n,
                forall|k: int|
                    0 <= k < j && row_intersects(#[trigger] rows[k], ino, start as int, end)
                        ==> found && row_end(rows[k], end) <= start + n,
            decreases self.chunks.len() - j,
        {
            let c = &self.chunks[j];
            assert(rows[j as int] == ((c.ino, c.offset), c.data@));
            let stop: i128 = (c.offset as i128) + (c.data.len() as i128);
            let last: i128 = (start as i128) + (len as i128);
            if c.ino == ino && (c.offset as i128) < last && stop > (start as i128) && len > 0
                && c.data.len() > 0 {
                let clipped: i128 = if stop < last {
                    stop
                } else {
                    last
                };
                let here = (clipped - (start as i128)) as usize;
                if !found || here > n {
                    n = here;
                }
                found = true;
            }
            j += 1;
        }
        proof {
            let v = self@;
            assert forall|o: i64| v.intersects(ino, o, start as int, end) implies found
                && v.clipped_end(ino, o, end) <= start + n by {
                lemma_to_map_keys(rows, (ino, o));
                let k = choose|k: int| 0 <= k < rows.len() && rows[k].0 == (ino, o);
                crate::table::lemma_to_map_row(rows, k);
                assert(row_intersects(rows[k], ino, start as int, end));
            }
            if found {
                let k = choose|k: int|
                    0 <= k < j && row_intersects(#[trigger] rows[k], ino, start as int, end)
                        && row_end(rows[k], end) == start + n;
                crate::table::lemma_to_map_row(rows, k);
                assert(v.intersects(ino, rows[k].0.1, start as int, end));
                assert(v.clipped_end(ino, rows[k].0.1, end) == start + n);
            }
        }
        n
    }

    /// What a read of `len` bytes from position `start` of file `ino`
    /// yields: the bytes up to the end of the last chunk in the range, each
    /// taken from the chunk visible at its position, holes as zeros.
    pub fn read_range(&self, ino: i64, start: i64, len: usize) -> (r: Vec<u8>)
        requires
            self.wf(),
            start + len <= i64::MAX,
        ensures
            r@.len() <= len,
            self@.reads(ino, start as int, start + len, r@.len() as int),
            forall|i: int| 0 <= i < r@.len() ==> r@[i] == self@.byte_at(ino, start + i),
    {
        let n = self.read_len(ino, start, len);
        let mut out: Vec<u8> = Vec::new();
        let mut i: usize = 0;
        while i < n
            invariant
                self.wf(),
                i <= n <= len,
                start + len <= i64::MAX,
                out@.len() == i,
                forall|k: int| 0 <= k < i ==> out@[k] == self@.byte_at(ino, start + k),
            decreases n - i,
        {
            let p = ((start as i128) + (i as i128)) as i64;
            out.push(self.byte_at(ino, p));
            i += 1;
        }
        out
    }

    /// The position of the first chunk of file `ino` behind offset `after`.
    fn next_chunk(&self, ino: i64, after: i128) -> (r: Option<usize>)
        requires
            self.wf(),
        ensures
            match r {
                Some(j) => j < self.chunks@.len() && self.chunks@[j as int].ino == ino
                    && self@.is_next_chunk(ino, after as int, self.chunks@[j as int].offset)
                    && self@.chunks[(ino, self.chunks@[j as int].offset)]
                    == self.chunks@[j as int].data@,
                None => forall|o: i64| !self@.is_next_chunk(ino, after as int, o),
            },
    {
        let ghost rows = chunk_pairs(self.chunks@);
        let mut best: Option<usize> = None;
        let mut j: usize = 0;
        while j < self.chunks.len()
            invariant
                self.wf(),
                rows == chunk_pairs(self.chunks@),
                j <= self.chunks@.len(),
                match best {
                    Some(b) => b < j && self.chunks@[b as int].ino == ino
                        && self.chunks@[b as int].offset > after,
                    None => true,
                },
                forall|k: int|
                    0 <= k < j && (#[trigger] self.chunks@[k]).ino == ino && self.chunks@[k].offset
                        > after ==> (best matches Some(b) && self.chunks@[b as int].offset
                        <= self.chunks@[k].offset),
            decreases self.chunks.len() - j,
        {
            let c = &self.chunks[j];
            if c.ino == ino && (c.offset as i128) > after {
                let better = match best {
                    Some(b) => c.offset < self.chunks[b].offset,
                    None => true,
                };
                if better {
                    best = Some(j);
                }
            }
            j += 1;
        }
        proof {
            let v = self@;
            assert forall|o2: i64| v.chunks.contains_key((ino, o2)) && o2 > after implies (
            best matches Some(b) && self.chunks@[b as int].offset <= o2) by {
                lemma_to_map_keys(rows, (ino, o2));
                let k = choose|k: int| 0 <= k < rows.len() && rows[k].0 == (ino, o2);
                assert(self.chunks@[k].ino == ino && self.chunks@[k].offset == o2);
            }
            match best {
                Some(b) => {
                    crate::table::lemma_to_map_row(rows, b as int);
                    assert(rows[b as int].0 == (ino, self.chunks@[b as int].offset));
                },
                None => {},
            }
        }
        best
    }

    /// The bytes of all chunks of file `ino`, one chunk after the other in
    /// ascending order of offset.
    pub fn content(&self, ino: i64) -> (r: Vec<u8>)
        requires
            self.wf(),
        ensures
            r@ == self@.content(ino),
    {
        let mut out: Vec<u8> = Vec::new();
        let mut after: i128 = (i64::MIN as i128) - 1;
        assert(out@ + self@.content_after(ino, after as int) =~= self@.content(ino));
        loop
            invariant
                self.wf(),
                i64::MIN - 1 <= after <= i64::MAX,
                self@.content(ino) == out@ + self@.content_after(ino, after as int),
            decreases i64::MAX - after,
        {
            match self.next_chunk(ino, after) {
                Some(j) => {
                    let ghost o = self.chunks@[j as int].offset;
                    let ghost before = out@;
                    proof {
                        let chosen = choose|x: i64| self@.is_next_chunk(ino, after as int, x);
                        assert(self@.is_next_chunk(ino, after as int, o));
                        assert(chosen == o);
                    }
                    crate::bytes::append(&mut out, self.chunks[j].data.as_slice());
                    after = self.chunks[j].offset as i128;
                    assert(self@.content(ino) =~= out@ + self@.content_after(ino, after as int));
                },
                None => {
                    assert(self@.content_after(ino, after as int) =~= Seq::<u8>::empty());
                    assert(out@ + Seq::<u8>::empty() =~= out@);
                    return out;
                },
            }
        }
    }

    /// The number of directory entries that stand for `ino`.
    pub fn link_count(&self, ino: i64) -> (r: usize)
        requires
            self.wf(),
        ensures
            r == self@.link_count(ino),
    {
        let ghost rows = dentry_pairs(self.dentries@);
        let mut count: usize = 0;
        let mut i: usize = 0;
        proof {
            assert(rows.take(0) =~= Seq::empty());
            assert(links_in(to_map(rows.take(0)), ino) =~= Set::empty());
        }
        while i < self.dentries.len()
            invariant
                self.wf(),
                rows == dentry_pairs(self.dentries@),
                i <= self.dentries@.len(),
                count <= i,
                links_in(to_map(rows.take(i as int)), ino).finite(),
                count == links_in(to_map(rows.take(i as int)), ino).len(),
            decreases self.dentries.len() - i,
        {
            proof {
                let m = to_map(rows.take(i as int));
                let k = rows[i as int].0;
                let v = rows[i as int].1;
                lemma_lookup_step(rows, i as int);
                crate::table::lemma_take_fresh(rows, i as int);
                if v == ino {
                    assert(links_in(m.insert(k, v), ino) =~= links_in(m, ino).insert(k));
                } else {
                    assert(links_in(m.insert(k, v), ino) =~= links_in(m, ino));
                }
            }
            if self.dentries[i].ino == ino {
                count += 1;
            }
            i += 1;
        }
        proof {
            assert(rows.take(rows.len() as int) =~= rows);
        }
        count
    }

    /// The entries of directory `ino`, by name.
    pub fn children(&self, ino: i64) -> (r: Vec<(String, i64)>)
        requires
            self.wf(),
        ensures
            self@.lists_children(ino, entry_views(r@)),
    {
        let ghost rows = dentry_pairs(self.dentries@);
        let mut out: Vec<(String, i64)> = Vec::new();
        let mut keys: Vec<Vec<char>> = Vec::new();
        let mut i: usize = 0;
        proof {
            assert(views(keys@) =~= names_of(entry_views(out@)));
            assert(rows.take(0) =~= Seq::empty());
            lemma_listed_empty(ino);
            assert(entry_views(out@) =~= Seq::empty());
        }
        while i < self.dentries.len()
            invariant
                self.wf(),
                rows == dentry_pairs(self.dentries@),
                i <= self.dentries@.len(),
                keys@.len() == out@.len(),
                views(keys@) == names_of(entry_views(out@)),
                children_listed(to_map(rows.take(i as int)), ino, entry_views(out@)),
            decreases self.dentries.len() - i,
        {
            let ghost m = to_map(rows.take(i as int));
            let ghost before = entry_views(out@);
            proof {
                lemma_lookup_step(rows, i as int);
                crate::table::lemma_take_fresh(rows, i as int);
            }
            if self.dentries[i].parent_ino == ino {
                let name = self.dentries[i].name.clone();
                let key = to_chars(name.as_str());
                let child = self.dentries[i].ino;
                assert(rows[i as int] == ((ino, name@), child));
                let p = position_for(&keys, key.as_slice());
                let ghost keys_before = views(keys@);
                proof {
                    assert(before.len() == out@.len());
                    assert(keys_before.len() == keys@.len());
                    assert(names_of(before).len() == before.len());
                    assert forall|a: int| 0 <= a < p implies seq_lt(
                        (#[trigger] before[a]).0,
                        name@,
                    ) by {
                        assert(names_of(before)[a] == before[a].0);
                    }
                    if p < before.len() {
                        assert(names_of(before)[p as int] == before[p as int].0);
                    }
                    lemma_listed_insert(m, ino, before, p as int, name@, child);
                }
                out.insert(p, (name, child));
                keys.insert(p, key);
                proof {
                    assert(entry_views(out@) =~= before.insert(p as int, (name@, child)));
                    assert(views(keys@) =~= keys_before.insert(p as int, name@));
                    assert(names_of(before.insert(p as int, (name@, child))) =~= names_of(
                        before,
                    ).insert(p as int, name@));
                }
            } else {
                proof {
                    lemma_listed_skip(m, ino, before, rows[i as int].0, rows[i as int].1);
                }
            }
            i += 1;
        }
        proof {
            assert(rows.take(rows.len() as int) =~= rows);
        }
        out
    }
}

/// The chunk row holds a byte of the range from `start` to `end` of file
/// `ino`.
pub open spec fn row_intersects(row: ((i64, i64), Seq<u8>), ino: i64, start: int, end: int) -> bool {
    &&& row.0.0 == ino
    &&& row.0.1 < end
    &&& row.0.1 + row.1.len() > start
    &&& start < end
    &&& row.1.len() > 0
}

/// Where the chunk row ends, or `end` if that comes first.
pub open spec fn row_end(row: ((i64, i64), Seq<u8>), end: int) -> int {
    let stop = row.0.1 + row.1.len();
    if stop < end {
        stop
    } else {
        end
    }
}

/// The keys of `m` whose value is `ino`.
pub open spec fn links_in(m: Map<(i64, Seq<char>), i64>, ino: i64) -> Set<(i64, Seq<char>)> {
    Set::new(|k: (i64, Seq<char>)| m.contains_key(k) && m[k] == ino)
}

/// The inode rows with a root directory: the rows as they are where one of
/// them is the root, and else with a fresh root, made at `now`, behind
/// them.
pub fn with_root(inodes: Vec<Inode>, now: i64) -> (r: Vec<Inode>)
    ensures
        r@ == if exists|i: int| 0 <= i < inodes@.len() && inodes@[i].ino == ROOT_INO {
            inodes@
        } else {
            inodes@.push(
                Inode {
                    ino: ROOT_INO,
                    mode: ROOT_MODE,
                    uid: 0,
                    gid: 0,
                    size: 0,
                    atime: now,
                    mtime: now,
                    ctime: now,
                },
            )
        },
{
    let mut i: usize = 0;
    while i < inodes.len()
        invariant
            i <= inodes@.len(),
            forall|j: int| 0 <= j < i ==> inodes@[j].ino != ROOT_INO,
        decreases inodes.len() - i,
    {
        if inodes[i].ino == ROOT_INO {
            return inodes;
        }
        i += 1;
    }
    let mut r = inodes;
    r.push(
        Inode {
            ino: ROOT_INO,
            mode: ROOT_MODE,
            uid: 0,
            gid: 0,
            size: 0,
            atime: now,
            mtime: now,
            ctime: now,
        },
    );
    r
}

/// `n` is the highest inode number among the rows, and 1 where no row has
/// a higher one.
pub open spec fn is_highest_ino(inodes: Seq<Inode>, n: i64) -> bool {
    &&& n >= ROOT_INO
    &&& forall|i: int| 0 <= i < inodes.len() ==> inodes[i].ino <= n
    &&& n == ROOT_INO || exists|i: int| 0 <= i < inodes.len() && inodes[i].ino == n
}

/// The highest inode number that the rows show to have been given out.
pub fn highest_ino(inodes: &Vec<Inode>) -> (n: i64)
    ensures
        is_highest_ino(inodes@, n),
{
    let mut n: i64 = ROOT_INO;
    let mut i: usize = 0;
    while i < inodes.len()
        invariant
            i <= inodes@.len(),
            n >= ROOT_INO,
            forall|j: int| 0 <= j < i ==> inodes@[j].ino <= n,
            n == ROOT_INO || exists|j: int| 0 <= j < i && inodes@[j].ino == n,
        decreases inodes.len() - i,
    {
        if inodes[i].ino > n {
            n = inodes[i].ino;
        }
        i += 1;
    }
    n
}

/// Whether no two inode rows have the same number.
fn distinct_inodes(rows: &Vec<Inode>) -> (r: bool)
    ensures
        r == distinct_keys(inode_pairs(rows@)),
{
    let ghost pairs = inode_pairs(rows@);
    let mut j: usize = 0;
    while j < rows.len()
        invariant
            j <= rows@.len(),
            pairs == inode_pairs(rows@),
            forall|a: int, b: int| 0 <= a < b < j ==> pairs[a].0 != pairs[b].0,
        decreases rows.len() - j,
    {
        let mut i: usize = 0;
        while i < j
            invariant
                i <= j < rows@.len(),
                pairs == inode_pairs(rows@),
                forall|a: int| 0 <= a < i ==> pairs[a].0 != pairs[j as int].0,
            decreases j - i,
        {
            if rows[i].ino == rows[j].ino {
                assert(pairs[i as int].0 == pairs[j as int].0);
                return false;
            }
            i += 1;
        }
        j += 1;
    }
    true
}

/// Whether no two directory entries have the same directory and name.
fn distinct_dentries(rows: &Vec<Dentry>) -> (r: bool)
    ensures
        r == distinct_keys(dentry_pairs(rows@)),
{
    let ghost pairs = dentry_pairs(rows@);
    let mut j: usize = 0;
    while j < rows.len()
        invariant
            j <= rows@.len(),
            pairs == dentry_pairs(rows@),
            forall|a: int, b: int| 0 <= a < b < j ==> pairs[a].0 != pairs[b].0,
        decreases rows.len() - j,
    {
        let mut i: usize = 0;
        while i < j
            invariant
                i <= j < rows@.len(),
                pairs == dentry_pairs(rows@),
                forall|a: int| 0 <= a < i ==> pairs[a].0 != pairs[j as int].0,
            decreases j - i,
        {
            if rows[i].parent_ino == rows[j].parent_ino && rows[i].name == rows[j].name {
                assert(pairs[i as int].0 == pairs[j as int].0);
                return false;
            }
            i += 1;
        }
        j += 1;
    }
    true
}

/// Whether no two chunks have the same file and offset.
fn distinct_chunks(rows: &Vec<Chunk>) -> (r: bool)
    ensures
        r == distinct_keys(chunk_pairs(rows@)),
{
    let ghost pairs = chunk_pairs(rows@);
    let mut j: usize = 0;
    while j < rows.len()
        invariant
            j <= rows@.len(),
            pairs == chunk_pairs(rows@),
            forall|a: int, b: int| 0 <= a < b < j ==> pairs[a].0 != pairs[b].0,
        decreases rows.len() - j,
    {
        let mut i: usize = 0;
        while i < j
            invariant
                i <= j < rows@.len(),
                pairs == chunk_pairs(rows@),
                forall|a: int| 0 <= a < i ==> pairs[a].0 != pairs[j as int].0,
            decreases j - i,
        {
            if rows[i].ino == rows[j].ino && rows[i].offset == rows[j].offset {
                assert(pairs[i as int].0 == pairs[j as int].0);
                return false;
            }
            i += 1;
        }
        j += 1;
    }
    true
}

/// Whether no two symlink rows have the same inode number.
fn distinct_symlinks(rows: &Vec<Symlink>) -> (r: bool)
    ensures
        r == distinct_keys(symlink_pairs(rows@)),
{
    let ghost pairs = symlink_pairs(rows@);
    let mut j: usize = 0;
    while j < rows.len()
        invariant
            j <= rows@.len(),
            pairs == symlink_pairs(rows@),
            forall|a: int, b: int| 0 <= a < b < j ==> pairs[a].0 != pairs[b].0,
        decreases rows.len() - j,
    {
        let mut i: usize = 0;
        while i < j
            invariant
                i <= j < rows@.len(),
                pairs == symlink_pairs(rows@),
                forall|a: int| 0 <= a < i ==> pairs[a].0 != pairs[j as int].0,
            decreases j - i,
        {
            if rows[i].ino == rows[j].ino {
                assert(pairs[i as int].0 == pairs[j as int].0);
                return false;
            }
            i += 1;
        }
        j += 1;
    }
    true
}

/// Whether the maps that the rows stand for are sound.
fn sound_rows(
    inodes: &Vec<Inode>,
    dentries: &Vec<Dentry>,
    chunks: &Vec<Chunk>,
    symlinks: &Vec<Symlink>,
    last_ino: i64,
) -> (r: bool)
    requires
        distinct_keys(inode_pairs(inodes@)),
        distinct_keys(dentry_pairs(dentries@)),
        distinct_keys(chunk_pairs(chunks@)),
        distinct_keys(symlink_pairs(symlinks@)),
    ensures
        r == view_of(inodes@, dentries@, chunks@, symlinks@, last_ino).sound(),
{
    let ghost v = view_of(inodes@, dentries@, chunks@, symlinks@, last_ino);
    let ghost ip = inode_pairs(inodes@);
    let ghost dp = dentry_pairs(dentries@);
    let ghost cp = chunk_pairs(chunks@);
    let ghost sp = symlink_pairs(symlinks@);
    if last_ino < ROOT_INO {
        return false;
    }
    let mut root: bool = false;
    let mut i: usize = 0;
    while i < inodes.len()
        invariant
            i <= inodes@.len(),
            ip == inode_pairs(inodes@),
            distinct_keys(ip),
            v == view_of(inodes@, dentries@, chunks@, symlinks@, last_ino),
            forall|k: int| 0 <= k < i ==> (#[trigger] ip[k]).0 <= last_ino,
            root == (exists|k: int|
                0 <= k < i && (#[trigger] ip[k]).0 == ROOT_INO && ip[k].1.mode & crate::abi::S_IFMT
                    == S_IFDIR),
            forall|k: int|
                0 <= k < i && (#[trigger] ip[k]).0 == ROOT_INO ==> ip[k].1.mode
                    & crate::abi::S_IFMT == S_IFDIR,
        decreases inodes.len() - i,
    {
        proof {
            crate::table::lemma_to_map_row(ip, i as int);
        }
        if inodes[i].ino > last_ino {
            return false;
        }
        if inodes[i].ino == ROOT_INO {
            if inodes[i].mode & crate::abi::S_IFMT != S_IFDIR {
                return false;
            }
            root = true;
        }
        i += 1;
    }
    if !root {
        proof {
            lemma_to_map_keys(ip, ROOT_INO);
            if v.inodes.contains_key(ROOT_INO) {
                let k = choose|k: int| 0 <= k < ip.len() && ip[k].0 == ROOT_INO;
                crate::table::lemma_to_map_row(ip, k);
            }
        }
        return false;
    }
    let mut i: usize = 0;
    while i < dentries.len()
        invariant
            i <= dentries@.len(),
            dp == dentry_pairs(dentries@),
            distinct_keys(dp),
            v == view_of(inodes@, dentries@, chunks@, symlinks@, last_ino),
            forall|k: int| 0 <= k < i ==> (#[trigger] dp[k]).0.0 <= last_ino && dp[k].1 <= last_ino,
        decreases dentries.len() - i,
    {
        proof {
            crate::table::lemma_to_map_row(dp, i as int);
            assert(dp[i as int] == (
                (dentries@[i as int].parent_ino, dentries@[i as int].name@),
                dentries@[i as int].ino,
            ));
            assert(v.dentries.contains_key(dp[i as int].0));
            assert(v.dentries[dp[i as int].0] == dentries@[i as int].ino);
        }
        if dentries[i].parent_ino > last_ino || dentries[i].ino > last_ino {
            return false;
        }
        i += 1;
    }
    let mut i: usize = 0;
    while i < chunks.len()
        invariant
            i <= chunks@.len(),
            cp == chunk_pairs(chunks@),
            distinct_keys(cp),
            v == view_of(inodes@, dentries@, chunks@, symlinks@, last_ino),
            forall|k: int| 0 <= k < i ==> (#[trigger] cp[k]).0.0 <= last_ino,
        decreases chunks.len() - i,
    {
        proof {
            crate::table::lemma_to_map_row(cp, i as int);
            assert(cp[i as int] == (
                (chunks@[i as int].ino, chunks@[i as int].offset),
                chunks@[i as int].data@,
            ));
            assert(v.chunks.contains_key(cp[i as int].0));
        }
        if chunks[i].ino > last_ino {
            return false;
        }
        i += 1;
    }
    let mut i: usize = 0;
    while i < symlinks.len()
        invariant
            i <= symlinks@.len(),
            sp == symlink_pairs(symlinks@),
            distinct_keys(sp),
            v == view_of(inodes@, dentries@, chunks@, symlinks@, last_ino),
            forall|k: int| 0 <= k < i ==> (#[trigger] sp[k]).0 <= last_ino,
        decreases symlinks.len() - i,
    {
        proof {
            crate::table::lemma_to_map_row(sp, i as int);
            assert(sp[i as int] == (symlinks@[i as int].ino, symlinks@[i as int].target@));
            assert(v.symlinks.contains_key(sp[i as int].0));
        }
        if symlinks[i].ino > last_ino {
            return false;
        }
        i += 1;
    }
    proof {
        let k = choose|k: int|
            0 <= k < ip.len() && (#[trigger] ip[k]).0 == ROOT_INO && ip[k].1.mode
                & crate::abi::S_IFMT == S_IFDIR;
        crate::table::lemma_to_map_row(ip, k);
        assert forall|ino: i64| (#[trigger] v.inodes.contains_key(ino)) implies v.inodes[ino].ino
            == ino && ino <= last_ino by {
            lemma_to_map_keys(ip, ino);
            let k = choose|k: int| 0 <= k < ip.len() && ip[k].0 == ino;
            crate::table::lemma_to_map_row(ip, k);
        }
        assert forall|key: (i64, Seq<char>)| (#[trigger] v.dentries.contains_key(key)) implies key.0
            <= last_ino && v.dentries[key] <= last_ino by {
            lemma_to_map_keys(dp, key);
            let k = choose|k: int| 0 <= k < dp.len() && dp[k].0 == key;
            crate::table::lemma_to_map_row(dp, k);
        }
        assert forall|key: (i64, i64)| (#[trigger] v.chunks.contains_key(key)) implies key.0
            <= last_ino by {
            lemma_to_map_keys(cp, key);
            let k = choose|k: int| 0 <= k < cp.len() && cp[k].0 == key;
        }
        assert forall|ino: i64| (#[trigger] v.symlinks.contains_key(ino)) implies ino
            <= last_ino by {
            lemma_to_map_keys(sp, ino);
            let k = choose|k: int| 0 <= k < sp.len() && sp[k].0 == ino;
        }
    }
    true
}

/// The names of a listing.
pub open spec fn names_of(ev: Seq<(Seq<char>, i64)>) -> Seq<Seq<char>> {
    ev.map_values(|e: (Seq<char>, i64)| e.0)
}

/// Where `key` goes among `keys`: behind every key that comes before it.
fn position_for(keys: &Vec<Vec<char>>, key: &[char]) -> (p: usize)
    ensures
        p <= keys@.len(),
        forall|a: int| 0 <= a < p ==> seq_lt(#[trigger] views(keys@)[a], key@),
        p < keys@.len() ==> !seq_lt(views(keys@)[p as int], key@),
{
    let mut p: usize = 0;
    while p < keys.len() && chars_lt(keys[p].as_slice(), key)
        invariant
            p <= keys@.len(),
            forall|a: int| 0 <= a < p ==> seq_lt(#[trigger] views(keys@)[a], key@),
        decreases keys.len() - p,
    {
        p += 1;
    }
    p
}

/// `ev` lists the entries that directory `ino` has in `m` by name: every
/// entry once, in strictly ascending order of name.
#[verifier::opaque]
pub open spec fn children_listed(
    m: Map<(i64, Seq<char>), i64>,
    ino: i64,
    ev: Seq<(Seq<char>, i64)>,
) -> bool {
    &&& forall|a: int, b: int| 0 <= a < b < ev.len() ==> seq_lt(ev[a].0, ev[b].0)
    &&& forall|a: int|
        0 <= a < ev.len() ==> m.contains_key((ino, (#[trigger] ev[a]).0)) && m[(ino, ev[a].0)]
            == ev[a].1
    &&& forall|name: Seq<char>| #[trigger]
        m.contains_key((ino, name)) ==> exists|a: int| 0 <= a < ev.len() && ev[a].0 == name
}

/// The empty list lists the empty table.
proof fn lemma_listed_empty(ino: i64)
    ensures
        children_listed(Map::<(i64, Seq<char>), i64>::empty(), ino, Seq::empty()),
{
    reveal(children_listed);
}

/// An entry of another directory changes nothing in a listing.
proof fn lemma_listed_skip(
    m: Map<(i64, Seq<char>), i64>,
    ino: i64,
    ev: Seq<(Seq<char>, i64)>,
    k: (i64, Seq<char>),
    v: i64,
)
    requires
        children_listed(m, ino, ev),
        k.0 != ino,
    ensures
        children_listed(m.insert(k, v), ino, ev),
{
    reveal(children_listed);
    let n = m.insert(k, v);
    assert forall|name: Seq<char>| #[trigger] n.contains_key((ino, name)) implies exists|a: int|
        0 <= a < ev.len() && ev[a].0 == name by {
        assert(m.contains_key((ino, name)));
    }
}

/// A new entry, put at its place by name, keeps a listing a listing.
proof fn lemma_listed_insert(
    m: Map<(i64, Seq<char>), i64>,
    ino: i64,
    ev: Seq<(Seq<char>, i64)>,
    p: int,
    name: Seq<char>,
    child: i64,
)
    requires
        children_listed(m, ino, ev),
        !m.contains_key((ino, name)),
        0 <= p <= ev.len(),
        forall|a: int| 0 <= a < p ==> seq_lt((#[trigger] ev[a]).0, name),
        p < ev.len() ==> !seq_lt(ev[p].0, name),
    ensures
        children_listed(m.insert((ino, name), child), ino, ev.insert(p, (name, child))),
{
    reveal(children_listed);
    let n = m.insert((ino, name), child);
    let next = ev.insert(p, (name, child));
    assert forall|b: int| p <= b < ev.len() implies seq_lt(name, (#[trigger] ev[b]).0) by {
        lemma_lt_total(name, ev[p].0);
        assert(m.contains_key((ino, ev[p].0)));
        if b > p {
            lemma_lt_trans(name, ev[p].0, ev[b].0);
        }
    }
    assert forall|a: int, b: int| 0 <= a < b < next.len() implies seq_lt(
        next[a].0,
        next[b].0,
    ) by {
        let oa = if a < p { a } else { a - 1 };
        let ob = if b < p { b } else { b - 1 };
        if a != p {
            assert(next[a] == ev[oa]);
        }
        if b != p {
            assert(next[b] == ev[ob]);
        }
    }
    assert forall|a: int| 0 <= a < next.len() implies n.contains_key(
        (ino, (#[trigger] next[a]).0),
    ) && n[(ino, next[a].0)] == next[a].1 by {
        if a != p {
            let o = if a < p { a } else { a - 1 };
            assert(next[a] == ev[o]);
            assert(m.contains_key((ino, ev[o].0)));
        }
    }
    assert forall|nm: Seq<char>| #[trigger] n.contains_key((ino, nm)) implies exists|a: int|
        0 <= a < next.len() && next[a].0 == nm by {
        if nm == name {
            assert(next[p].0 == nm);
        } else {
            assert(m.contains_key((ino, nm)));
            let o = choose|o: int| 0 <= o < ev.len() && ev[o].0 == nm;
            let a = if o < p { o } else { o + 1 };
            assert(next[a] == ev[o]);
        }
    }
}

} // verus!
