//! The per-process table of virtual file descriptors.
//!
//! A guest sees virtual descriptors. Each one stands either for a descriptor
//! of the kernel (passthrough) or for a file object served in-process
//! (virtual). Descriptors 0, 1 and 2 pass through from the start; every other
//! one is handed out by the table.

use std::collections::HashMap;
use vstd::prelude::*;
use vstd::std_specs::iter::IteratorSpec;

verus! {

broadcast use vstd::std_specs::hash::group_hash_axioms;

/// Standard input.
pub const STDIN_FILENO: i32 = 0;

/// Standard output.
pub const STDOUT_FILENO: i32 = 1;

/// Standard error.
pub const STDERR_FILENO: i32 = 2;

/// The lowest descriptor that the table hands out.
pub const FIRST_USER_FD: i32 = 3;

/// What a virtual descriptor stands for.
#[derive(Debug)]
pub enum FdEntry {
    /// A descriptor of the kernel.
    Passthrough { kernel_fd: i32, flags: i32, path: Option<String> },
    /// A file object served in-process, named by its handle. Entries made by
    /// duplication hold the same handle and so share the object.
    Virtual { file_ops: u64, flags: i32, path: Option<String> },
}

impl Clone for FdEntry {
    fn clone(&self) -> (r: Self)
        ensures
            r == *self,
    {
        match self {
            FdEntry::Passthrough { kernel_fd, flags, path } => FdEntry::Passthrough {
                kernel_fd: *kernel_fd,
                flags: *flags,
                path: clone_path(path),
            },
            FdEntry::Virtual { file_ops, flags, path } => FdEntry::Virtual {
                file_ops: *file_ops,
                flags: *flags,
                path: clone_path(path),
            },
        }
    }
}

fn clone_path(path: &Option<String>) -> (r: Option<String>)
    ensures
        r == *path,
{
    match path {
        Some(p) => Some(p.clone()),
        None => None,
    }
}

impl FdEntry {
    /// The kernel descriptor of a passthrough entry.
    pub open spec fn spec_kernel_fd(self) -> Option<i32> {
        match self {
            FdEntry::Passthrough { kernel_fd, .. } => Some(kernel_fd),
            FdEntry::Virtual { .. } => None,
        }
    }

    /// The flags recorded with the entry.
    pub open spec fn spec_flags(self) -> i32 {
        match self {
            FdEntry::Passthrough { flags, .. } => flags,
            FdEntry::Virtual { flags, .. } => flags,
        }
    }

    /// The file object of a virtual entry.
    pub open spec fn spec_file_ops(self) -> Option<u64> {
        match self {
            FdEntry::Passthrough { .. } => None,
            FdEntry::Virtual { file_ops, .. } => Some(file_ops),
        }
    }

    /// The path recorded with the entry.
    pub open spec fn spec_path(self) -> Option<String> {
        match self {
            FdEntry::Passthrough { path, .. } => path,
            FdEntry::Virtual { path, .. } => path,
        }
    }

    /// The kernel descriptor, for a passthrough entry; none for a virtual one.
    pub fn kernel_fd(&self) -> (r: Option<i32>)
        ensures
            r == self.spec_kernel_fd(),
    {
        match self {
            FdEntry::Passthrough { kernel_fd, .. } => Some(*kernel_fd),
            FdEntry::Virtual { .. } => None,
        }
    }

    /// The flags recorded with the entry.
    pub fn flags(&self) -> (r: i32)
        ensures
            r == self.spec_flags(),
    {
        match self {
            FdEntry::Passthrough { flags, .. } => *flags,
            FdEntry::Virtual { flags, .. } => *flags,
        }
    }

    /// The path the descriptor was opened on, where one was recorded.
    pub fn path(&self) -> (r: Option<&String>)
        ensures
            match r {
                Some(p) => self.spec_path() == Some(*p),
                None => self.spec_path() is None,
            },
    {
        match self {
            FdEntry::Passthrough { path, .. } => path.as_ref(),
            FdEntry::Virtual { path, .. } => path.as_ref(),
        }
    }

    /// The handle of the file object, for a virtual entry; none for a
    /// passthrough one.
    pub fn file_ops(&self) -> (r: Option<u64>)
        ensures
            r == self.spec_file_ops(),
    {
        match self {
            FdEntry::Passthrough { .. } => None,
            FdEntry::Virtual { file_ops, .. } => Some(*file_ops),
        }
    }
}

/// The passthrough entry that a fresh table holds for a standard stream.
pub open spec fn std_entry(fd: i32) -> FdEntry {
    FdEntry::Passthrough { kernel_fd: fd, flags: 0, path: None }
}

/// What a table holds: its entries, the next descriptor never handed out
/// or passed over, and the descriptors below it that wait to be used.
pub struct FdTableView {
    pub entries: Map<i32, FdEntry>,
    pub next_vfd: int,
    pub free: Set<i32>,
}

impl FdTableView {
    /// `fd` is at least `min` and stands for nothing.
    pub open spec fn unused_from(self, min: i32, fd: i32) -> bool {
        min <= fd < i32::MAX && !self.entries.contains_key(fd)
    }

    /// `fd` is the smallest descriptor that is at least `min` and stands for
    /// nothing.
    pub open spec fn lowest_unused_from(self, min: i32, fd: i32) -> bool {
        &&& self.unused_from(min, fd)
        &&& forall|other: i32| self.unused_from(min, other) ==> fd <= other
    }

    /// Every descriptor from 3 up to the next fresh one either stands for
    /// something or waits to be used.
    pub open spec fn gap_free(self) -> bool {
        forall|fd: i32|
            FIRST_USER_FD <= fd < self.next_vfd ==> self.entries.contains_key(fd)
                || self.free.contains(fd)
    }

    /// A descriptor stands for the file object `id`.
    pub open spec fn uses_file(self, id: u64) -> bool {
        exists|fd: i32| #[trigger]
            self.entries.contains_key(fd) && self.entries[fd].spec_file_ops() == Some(id)
    }

    /// A descriptor from 3 up stands for nothing, so that one more entry can
    /// get a descriptor.
    pub open spec fn has_room(self) -> bool {
        exists|fd: i32| self.unused_from(FIRST_USER_FD, fd)
    }

    /// The fresh descriptors that are passed over when an entry is placed
    /// at `fd`. They wait to be used from then on.
    pub open spec fn passed_over(self, fd: i32) -> Set<i32> {
        Set::new(|x: i32| self.next_vfd <= x < fd)
    }

    /// The table after `entry` was placed at `fd`.
    pub open spec fn place(self, fd: i32, entry: FdEntry) -> FdTableView {
        FdTableView {
            entries: self.entries.insert(fd, entry),
            next_vfd: if fd >= self.next_vfd {
                fd + 1
            } else {
                self.next_vfd
            },
            free: self.free.union(self.passed_over(fd)).remove(fd),
        }
    }

    /// The table after `fd` was given back.
    pub open spec fn release(self, fd: i32) -> FdTableView {
        if self.entries.contains_key(fd) {
            FdTableView {
                entries: self.entries.remove(fd),
                next_vfd: self.next_vfd,
                free: if fd >= FIRST_USER_FD {
                    self.free.insert(fd)
                } else {
                    self.free
                },
            }
        } else {
            self
        }
    }

    /// The kernel descriptor that `vfd` translates to.
    pub open spec fn translate(self, vfd: i32) -> Option<i32> {
        if self.entries.contains_key(vfd) {
            self.entries[vfd].spec_kernel_fd()
        } else {
            None
        }
    }

    /// The entry at `vfd`.
    pub open spec fn get(self, vfd: i32) -> Option<FdEntry> {
        if self.entries.contains_key(vfd) {
            Some(self.entries[vfd])
        } else {
            None
        }
    }
}

/// The table of one process.
#[derive(Debug)]
pub struct FdTable {
    entries: HashMap<i32, FdEntry>,
    next_vfd: i32,
    free_fds: Vec<i32>,
}

impl View for FdTable {
    type V = FdTableView;

    closed spec fn view(&self) -> FdTableView {
        FdTableView {
            entries: self.entries@,
            next_vfd: self.next_vfd as int,
            free: self.free_fds@.to_set(),
        }
    }
}

impl FdTable {
    /// The table's bookkeeping is sound: nothing waits twice, a descriptor
    /// that waits is at least 3 and stands for nothing, nothing below 0 or
    /// at or above the next fresh descriptor is in use, and the table is
    /// gap-free.
    pub closed spec fn wf(&self) -> bool {
        &&& self.next_vfd >= FIRST_USER_FD
        &&& self.free_fds@.no_duplicates()
        &&& forall|i: int|
            0 <= i < self.free_fds@.len() ==> {
                &&& FIRST_USER_FD <= #[trigger] self.free_fds@[i] < self.next_vfd
                &&& !self.entries@.contains_key(self.free_fds@[i])
            }
        &&& forall|fd: i32| self.entries@.contains_key(fd) ==> 0 <= fd < self.next_vfd
        &&& forall|fd: i32|
            FIRST_USER_FD <= fd < self.next_vfd ==> self.entries@.contains_key(fd)
                || self.free_fds@.contains(fd)
    }

    /// What the bookkeeping of a sound table guarantees, said of its view:
    /// a descriptor that waits is at least 3, below the next fresh one and
    /// stands for nothing; every descriptor in use is at least 0 and below
    /// the next fresh one; and the table is gap-free.
    pub open spec fn valid(v: FdTableView) -> bool {
        &&& FIRST_USER_FD <= v.next_vfd <= i32::MAX
        &&& forall|fd: i32|
            v.free.contains(fd) ==> FIRST_USER_FD <= fd < v.next_vfd && !v.entries.contains_key(fd)
        &&& forall|fd: i32| v.entries.contains_key(fd) ==> 0 <= fd < v.next_vfd
        &&& v.gap_free()
    }

    /// The view of a sound table is valid.
    pub proof fn lemma_valid(&self)
        requires
            self.wf(),
        ensures
            Self::valid(self@),
    {
        assert forall|fd: i32| self@.free.contains(fd) implies FIRST_USER_FD <= fd
            < self@.next_vfd && !self@.entries.contains_key(fd) by {
            let i = choose|i: int| 0 <= i < self.free_fds@.len() && self.free_fds@[i] == fd;
            assert(self.free_fds@[i] == fd);
        }
    }

    /// A table that holds the three standard streams, each passing through to
    /// the kernel descriptor of the same number.
    pub fn new() -> (t: Self)
        ensures
            t@.entries == Map::<i32, FdEntry>::empty().insert(0, std_entry(0)).insert(
                1,
                std_entry(1),
            ).insert(2, std_entry(2)),
            t@.next_vfd == FIRST_USER_FD,
            t@.free == Set::<i32>::empty(),
            t.wf(),
    {
        let mut entries: HashMap<i32, FdEntry> = HashMap::new();
        entries.insert(
            STDIN_FILENO,
            FdEntry::Passthrough { kernel_fd: STDIN_FILENO, flags: 0, path: None },
        );
        entries.insert(
            STDOUT_FILENO,
            FdEntry::Passthrough { kernel_fd: STDOUT_FILENO, flags: 0, path: None },
        );
        entries.insert(
            STDERR_FILENO,
            FdEntry::Passthrough { kernel_fd: STDERR_FILENO, flags: 0, path: None },
        );
        let t = FdTable { entries, next_vfd: FIRST_USER_FD, free_fds: Vec::new() };
        assert(t@.free =~= Set::<i32>::empty());
        t
    }

    /// An independent copy of the table: same entries, same bookkeeping.
    pub fn deep_clone(&self) -> (t: Self)
        requires
            self.wf(),
        ensures
            t.wf(),
            t@ == self@,
    {
        let t = FdTable {
            entries: self.entries.clone(),
            next_vfd: self.next_vfd,
            free_fds: self.free_fds.clone(),
        };
        assert(t.free_fds@ =~= self.free_fds@);
        t
    }

    /// The position in the waiting list of its smallest descriptor.
    fn lowest_free_index(&self) -> (r: Option<usize>)
        requires
            self.wf(),
        ensures
            match r {
                Some(m) => m < self.free_fds@.len() && forall|j: int|
                    0 <= j < self.free_fds@.len() ==> self.free_fds@[m as int]
                        <= self.free_fds@[j],
                None => self.free_fds@.len() == 0,
            },
    {
        if self.free_fds.len() == 0 {
            return None;
        }
        let mut m: usize = 0;
        let mut i: usize = 1;
        while i < self.free_fds.len()
            invariant
                m < i <= self.free_fds@.len(),
                forall|j: int| 0 <= j < i ==> self.free_fds@[m as int] <= self.free_fds@[j],
            decreases self.free_fds.len() - i,
        {
            if self.free_fds[i] < self.free_fds[m] {
                m = i;
            }
            i += 1;
        }
        Some(m)
    }

    /// The position of `vfd` in the waiting list.
    fn free_index_of(&self, vfd: i32) -> (r: Option<usize>)
        requires
            self.wf(),
        ensures
            match r {
                Some(m) => m < self.free_fds@.len() && self.free_fds@[m as int] == vfd,
                None => !self.free_fds@.contains(vfd),
            },
    {
        let mut i: usize = 0;
        while i < self.free_fds.len()
            invariant
                i <= self.free_fds@.len(),
                forall|j: int| 0 <= j < i ==> self.free_fds@[j] != vfd,
            decreases self.free_fds.len() - i,
        {
            if self.free_fds[i] == vfd {
                return Some(i);
            }
            i += 1;
        }
        None
    }

    /// The smallest descriptor from `min` up that stands for nothing.
    fn first_unused_from(&self, min: i32) -> (fd: i32)
        requires
            self.wf(),
            exists|w: i32| self@.unused_from(min, w),
        ensures
            self@.lowest_unused_from(min, fd),
    {
        let mut fd: i32 = min;
        loop
            invariant
                min <= fd < i32::MAX,
                exists|w: i32| self@.unused_from(min, w),
                forall|other: i32| min <= other < fd ==> self.entries@.contains_key(other),
            decreases i32::MAX - fd,
        {
            if !self.entries.contains_key(&fd) {
                return fd;
            }
            proof {
                let w = choose|w: i32| self@.unused_from(min, w);
                assert(w > fd);
            }
            fd += 1;
        }
    }

    /// The next descriptor that was never handed out or passed over.
    pub fn next_vfd(&self) -> (r: i32)
        ensures
            r == self@.next_vfd,
    {
        self.next_vfd
    }

    /// Whether a descriptor of the table stands for the file object `id`.
    pub fn uses_file(&self, id: u64) -> (r: bool)
        requires
            self.wf(),
        ensures
            r == self@.uses_file(id),
    {
        let ghost all = self.entries.values().remaining().unref();
        proof {
            assert(all.to_set() == self.entries@.values());
        }
        for entry in it: self.entries.values()
            invariant
                all.to_set() == self.entries@.values(),
                it.seq().unref() == all,
                forall|j: int| 0 <= j < it.index() ==> (#[trigger] all[j]).spec_file_ops() != Some(id),
        {
            assert(all[it.index() as int] == *entry);
            match entry.file_ops() {
                Some(found) => {
                    if found == id {
                        proof {
                            assert(all.contains(*entry));
                            assert(self.entries@.values().contains(*entry));
                            let fd = choose|fd: i32|
                                self.entries@.contains_key(fd) && self.entries@[fd] == *entry;
                            assert(self@.entries.contains_key(fd) && self@.entries[fd].spec_file_ops()
                                == Some(id));
                        }
                        return true;
                    }
                },
                None => {},
            }
        }
        proof {
            assert forall|fd: i32| #[trigger]
                self@.entries.contains_key(fd) implies self@.entries[fd].spec_file_ops() != Some(
                id,
            ) by {
                let e = self@.entries[fd];
                assert(self.entries@.values().contains(e));
                assert(all.contains(e));
                let j = choose|j: int| 0 <= j < all.len() && all[j] == e;
                assert(all[j].spec_file_ops() != Some(id));
            }
        }
        false
    }

    /// Whether `allocate` can find a descriptor for one more entry.
    pub fn has_room(&self) -> (r: bool)
        requires
            self.wf(),
        ensures
            r == self@.has_room(),
    {
        if self.free_fds.len() > 0 {
            assert(self.free_fds@.contains(self.free_fds@[0]));
            assert(self@.unused_from(FIRST_USER_FD, self.free_fds@[0]));
            return true;
        }
        if self.next_vfd < i32::MAX {
            assert(self@.unused_from(FIRST_USER_FD, self.next_vfd));
            return true;
        }
        proof {
            assert forall|fd: i32| !self@.unused_from(FIRST_USER_FD, fd) by {
                if FIRST_USER_FD <= fd < i32::MAX {
                    assert(self.entries@.contains_key(fd) || self.free_fds@.contains(fd));
                }
            }
        }
        false
    }

    /// Hands out a descriptor for `entry`: the lowest one available, as
    /// POSIX asks, which is the smallest descriptor from 3 up that stands
    /// for nothing.
    pub fn allocate(&mut self, entry: FdEntry) -> (vfd: i32)
        requires
            old(self).wf(),
            old(self)@.has_room(),
        ensures
            final(self).wf(),
            old(self)@.lowest_unused_from(FIRST_USER_FD, vfd),
            final(self)@ == old(self)@.place(vfd, entry),
    {
        proof {
            self.lemma_valid();
        }
        let vfd = match self.lowest_free_index() {
            Some(m) => {
                proof {
                    lemma_remove_to_set(self.free_fds@, m as int);
                    assert(self.free_fds@.contains(self.free_fds@[m as int]));
                }
                self.free_fds.remove(m)
            },
            None => {
                let next = self.next_vfd;
                proof {
                    if next == i32::MAX {
                        let w = choose|w: i32| self@.unused_from(FIRST_USER_FD, w);
                        assert(self.entries@.contains_key(w) || self.free_fds@.contains(w));
                    }
                }
                self.next_vfd = next + 1;
                next
            },
        };
        self.entries.insert(vfd, entry);
        proof {
            let before = old(self)@;
            let after = final(self)@;
            assert forall|other: i32| before.unused_from(FIRST_USER_FD, other) implies vfd
                <= other by {
                if other < before.next_vfd {
                    assert(old(self).entries@.contains_key(other) || old(self).free_fds@.contains(
                        other,
                    ));
                    let j = choose|j: int|
                        0 <= j < old(self).free_fds@.len() && old(self).free_fds@[j] == other;
                    assert(old(self).free_fds@[j] == other);
                }
            }
            assert(after.free =~= before.free.union(before.passed_over(vfd)).remove(vfd));
            assert forall|fd: i32| FIRST_USER_FD <= fd < final(self).next_vfd implies (final(self).entries@.contains_key(fd) || final(self).free_fds@.contains(fd)) by {
                if fd != vfd && fd < before.next_vfd {
                    assert(old(self).entries@.contains_key(fd) || old(self).free_fds@.contains(fd));
                    if old(self).free_fds@.contains(fd) {
                        assert(before.free.contains(fd));
                        assert(after.free.contains(fd));
                    }
                }
            }
        }
        vfd
    }

    /// Hands out, for `entry`, the smallest descriptor from `min_vfd` up that
    /// stands for nothing. Fresh descriptors below it that are passed over
    /// wait to be used.
    pub fn allocate_min(&mut self, min_vfd: i32, entry: FdEntry) -> (vfd: i32)
        requires
            old(self).wf(),
            0 <= min_vfd,
            exists|fd: i32| old(self)@.unused_from(min_vfd, fd),
        ensures
            final(self).wf(),
            old(self)@.lowest_unused_from(min_vfd, vfd),
            final(self)@ == old(self)@.place(vfd, entry),
    {
        let vfd = self.first_unused_from(min_vfd);
        let _ = self.allocate_at(vfd, entry);
        vfd
    }

    /// Puts the fresh descriptors below `vfd` on the waiting list.
    fn pass_over(&mut self, vfd: i32)
        requires
            old(self).wf(),
            old(self).next_vfd <= vfd < i32::MAX,
        ensures
            final(self).entries == old(self).entries,
            final(self).next_vfd == old(self).next_vfd,
            final(self).free_fds@.no_duplicates(),
            final(self).free_fds@.to_set() == old(self)@.free.union(old(self)@.passed_over(vfd)),
            forall|i: int|
                0 <= i < final(self).free_fds@.len() ==> FIRST_USER_FD
                    <= #[trigger] final(self).free_fds@[i] < vfd && !final(self).entries@.contains_key(final(self).free_fds@[i]),
    {
        proof {
            self.lemma_valid();
        }
        let mut fd: i32 = self.next_vfd;
        assert(self.free_fds@.to_set() =~= old(self)@.free.union(Set::new(|x: i32| old(self).next_vfd <= x < fd)));
        while fd < vfd
            invariant
                old(self).wf(),
                self.entries == old(self).entries,
                self.next_vfd == old(self).next_vfd,
                self.next_vfd <= fd <= vfd,
                vfd < i32::MAX,
                self.free_fds@.no_duplicates(),
                self.free_fds@.to_set() == old(self)@.free.union(
                    Set::new(|x: i32| old(self).next_vfd <= x < fd),
                ),
                forall|i: int|
                    0 <= i < self.free_fds@.len() ==> FIRST_USER_FD <= #[trigger] self.free_fds@[i]
                        < fd && !self.entries@.contains_key(self.free_fds@[i]),
            decreases vfd - fd,
        {
            proof {
                if self.free_fds@.contains(fd) {
                    let j = choose|j: int| 0 <= j < self.free_fds@.len() && self.free_fds@[j] == fd;
                    assert(self.free_fds@[j] < fd);
                }
                lemma_push_to_set(self.free_fds@, fd);
            }
            let ghost before = self.free_fds@;
            self.free_fds.push(fd);
            proof {
                assert(self.free_fds@.to_set() =~= old(self)@.free.union(
                    Set::new(|x: i32| old(self).next_vfd <= x < fd + 1),
                ));
                assert forall|i: int| 0 <= i < self.free_fds@.len() implies FIRST_USER_FD
                    <= #[trigger] self.free_fds@[i] < fd + 1 && !self.entries@.contains_key(
                    self.free_fds@[i],
                ) by {
                    if i < before.len() {
                        assert(self.free_fds@[i] == before[i]);
                    }
                }
            }
            fd += 1;
        }
    }

    /// Places `entry` at `vfd` and returns the entry that was there, for the
    /// caller to close. Fresh descriptors below `vfd` that are passed over
    /// wait to be used.
    pub fn allocate_at(&mut self, vfd: i32, entry: FdEntry) -> (r: Option<FdEntry>)
        requires
            old(self).wf(),
            0 <= vfd < i32::MAX,
        ensures
            final(self).wf(),
            r == old(self)@.get(vfd),
            final(self)@ == old(self)@.place(vfd, entry),
    {
        proof {
            self.lemma_valid();
        }
        if vfd >= self.next_vfd {
            self.pass_over(vfd);
            self.next_vfd = vfd + 1;
            let r = self.entries.insert(vfd, entry);
            proof {
                let before = old(self)@;
                assert(!before.free.union(before.passed_over(vfd)).contains(vfd));
                assert(final(self)@.free =~= before.free.union(before.passed_over(vfd)).remove(vfd));
                assert forall|fd: i32| FIRST_USER_FD <= fd < final(self).next_vfd implies (final(self).entries@.contains_key(fd) || final(self).free_fds@.contains(fd)) by {
                    if fd != vfd {
                        if fd < before.next_vfd {
                            assert(old(self).entries@.contains_key(fd) || old(self).free_fds@.contains(fd));
                            if old(self).free_fds@.contains(fd) {
                                assert(before.free.contains(fd));
                            }
                        } else {
                            assert(before.passed_over(vfd).contains(fd));
                        }
                        if !old(self).entries@.contains_key(fd) {
                            assert(final(self).free_fds@.to_set().contains(fd));
                        }
                    }
                }
            }
            r
        } else {
            match self.free_index_of(vfd) {
                Some(m) => {
                    proof {
                        lemma_remove_to_set(self.free_fds@, m as int);
                    }
                    let _ = self.free_fds.remove(m);
                },
                None => {},
            }
            let r = self.entries.insert(vfd, entry);
            proof {
                let before = old(self)@;
                assert(final(self)@.free =~= before.free.union(before.passed_over(vfd)).remove(vfd));
                assert forall|fd: i32| FIRST_USER_FD <= fd < final(self).next_vfd implies (final(self).entries@.contains_key(fd) || final(self).free_fds@.contains(fd)) by {
                    if fd != vfd {
                        assert(old(self).entries@.contains_key(fd) || old(self).free_fds@.contains(
                            fd,
                        ));
                        if old(self).free_fds@.contains(fd) {
                            assert(before.free.contains(fd));
                            assert(final(self)@.free.contains(fd));
                        }
                    }
                }
            }
            r
        }
    }

    /// The kernel descriptor behind `vfd`: none where `vfd` stands for a
    /// file object served in-process, or for nothing.
    pub fn translate(&self, vfd: i32) -> (r: Option<i32>)
        requires
            self.wf(),
        ensures
            r == self@.translate(vfd),
    {
        match self.entries.get(&vfd) {
            Some(entry) => entry.kernel_fd(),
            None => None,
        }
    }

    /// The entry at `vfd`.
    pub fn get(&self, vfd: i32) -> (r: Option<FdEntry>)
        requires
            self.wf(),
        ensures
            r == self@.get(vfd),
    {
        match self.entries.get(&vfd) {
            Some(entry) => Some(entry.clone()),
            None => None,
        }
    }

    /// Gives `vfd` back and returns its entry. A descriptor from 3 up then
    /// waits to be used.
    pub fn deallocate(&mut self, vfd: i32) -> (r: Option<FdEntry>)
        requires
            old(self).wf(),
        ensures
            final(self).wf(),
            r == old(self)@.get(vfd),
            final(self)@ == old(self)@.release(vfd),
    {
        let r = self.entries.remove(&vfd);
        if r.is_some() && vfd >= FIRST_USER_FD {
            proof {
                if self.free_fds@.contains(vfd) {
                    let j = choose|j: int| 0 <= j < self.free_fds@.len() && self.free_fds@[j] == vfd;
                    assert(self.free_fds@[j] == vfd);
                }
                lemma_push_to_set(self.free_fds@, vfd);
            }
            let ghost before = self.free_fds@;
            self.free_fds.push(vfd);
            proof {
                assert forall|i: int| 0 <= i < self.free_fds@.len() implies FIRST_USER_FD
                    <= #[trigger] self.free_fds@[i] < self.next_vfd && !self.entries@.contains_key(
                    self.free_fds@[i],
                ) by {
                    if i < before.len() {
                        assert(self.free_fds@[i] == before[i]);
                    }
                }
            }
        }
        proof {
            assert(final(self)@.free =~= old(self)@.release(vfd).free);
            assert(final(self)@.entries =~= old(self)@.release(vfd).entries);
            assert forall|fd: i32| FIRST_USER_FD <= fd < final(self).next_vfd implies (final(self).entries@.contains_key(fd) || final(self).free_fds@.contains(fd)) by {
                assert(old(self).entries@.contains_key(fd) || old(self).free_fds@.contains(fd));
                if old(self).free_fds@.contains(fd) {
                    assert(old(self)@.free.contains(fd));
                    assert(final(self)@.free.contains(fd));
                }
                if fd == vfd && old(self).entries@.contains_key(fd) {
                    assert(final(self)@.free.contains(fd));
                }
            }
        }
        r
    }

    /// Hands out a new descriptor for the entry at `old_vfd`; the two then
    /// share one file object or kernel descriptor.
    pub fn duplicate(&mut self, old_vfd: i32) -> (r: Option<i32>)
        requires
            old(self).wf(),
            old(self)@.get(old_vfd) is Some ==> old(self)@.has_room(),
        ensures
            final(self).wf(),
            match old(self)@.get(old_vfd) {
                Some(entry) => r is Some && old(self)@.lowest_unused_from(FIRST_USER_FD, r->0)
                    && final(self)@ == old(self)@.place(r->0, entry),
                None => r is None && final(self)@ == old(self)@,
            },
    {
        match self.get(old_vfd) {
            Some(entry) => Some(self.allocate(entry)),
            None => None,
        }
    }

    /// Places a copy of the entry at `old_vfd` at `new_vfd`, and returns the
    /// entry that was there. Where `old_vfd` stands for nothing, nothing
    /// changes.
    pub fn duplicate_at(&mut self, old_vfd: i32, new_vfd: i32) -> (r: Option<FdEntry>)
        requires
            old(self).wf(),
            0 <= new_vfd < i32::MAX,
        ensures
            final(self).wf(),
            match old(self)@.get(old_vfd) {
                Some(entry) => r == old(self)@.get(new_vfd) && final(self)@ == old(self)@.place(
                    new_vfd,
                    entry,
                ),
                None => r is None && final(self)@ == old(self)@,
            },
    {
        match self.get(old_vfd) {
            Some(entry) => self.allocate_at(new_vfd, entry),
            None => None,
        }
    }
}

impl Default for FdTable {
    fn default() -> (t: Self)
        ensures
            t@.entries == Map::<i32, FdEntry>::empty().insert(0, std_entry(0)).insert(
                1,
                std_entry(1),
            ).insert(2, std_entry(2)),
            t@.next_vfd == FIRST_USER_FD,
            t@.free == Set::<i32>::empty(),
            t.wf(),
    {
        FdTable::new()
    }
}

/// Taking one item out of a list without repeats takes it out of the set of
/// its items.
proof fn lemma_remove_to_set(s: Seq<i32>, i: int)
    requires
        0 <= i < s.len(),
        s.no_duplicates(),
    ensures
        s.remove(i).to_set() == s.to_set().remove(s[i]),
        s.remove(i).no_duplicates(),
        forall|j: int| 0 <= j < s.remove(i).len() ==> s.contains(#[trigger] s.remove(i)[j]),
        forall|x: i32| s.remove(i).contains(x) <==> s.contains(x) && x != s[i],
{
    let r = s.remove(i);
    assert forall|x: i32| r.contains(x) <==> (s.contains(x) && x != s[i]) by {
        if r.contains(x) {
            let j = choose|j: int| 0 <= j < r.len() && r[j] == x;
            if j < i {
                assert(s[j] == x);
            } else {
                assert(s[j + 1] == x);
            }
        }
        if s.contains(x) && x != s[i] {
            let j = choose|j: int| 0 <= j < s.len() && s[j] == x;
            if j < i {
                assert(r[j] == x);
            } else {
                assert(r[j - 1] == x);
            }
        }
    }
    assert(r.to_set() =~= s.to_set().remove(s[i]));
    assert forall|j: int| 0 <= j < r.len() implies s.contains(#[trigger] r[j]) by {
        assert(r.contains(r[j]));
    }
}

/// Adding an item to a list adds it to the set of its items.
proof fn lemma_push_to_set(s: Seq<i32>, x: i32)
    requires
        s.no_duplicates(),
        !s.contains(x),
    ensures
        s.push(x).to_set() == s.to_set().insert(x),
        s.push(x).no_duplicates(),
        forall|y: i32| s.push(x).contains(y) <==> s.contains(y) || y == x,
{
    let r = s.push(x);
    assert forall|y: i32| r.contains(y) <==> (s.contains(y) || y == x) by {
        if r.contains(y) {
            let j = choose|j: int| 0 <= j < r.len() && r[j] == y;
            if j < s.len() {
                assert(s[j] == y);
            }
        }
        if s.contains(y) {
            let j = choose|j: int| 0 <= j < s.len() && s[j] == y;
            assert(r[j] == y);
        }
        if y == x {
            assert(r[s.len() as int] == y);
        }
    }
    assert(r.to_set() =~= s.to_set().insert(x));
}

/// One step in the life of a table.
pub enum TableOp {
    /// The lowest descriptor is handed out for an entry.
    Allocate(FdEntry),
    /// A descriptor is given back.
    Deallocate(i32),
    /// An entry is placed at a chosen descriptor.
    Place(i32, FdEntry),
}

/// What a fresh table holds.
pub open spec fn fresh_table() -> FdTableView {
    FdTableView {
        entries: Map::<i32, FdEntry>::empty().insert(0, std_entry(0)).insert(1, std_entry(1)).insert(
            2,
            std_entry(2),
        ),
        next_vfd: FIRST_USER_FD as int,
        free: Set::empty(),
    }
}

/// The descriptor that `allocate` hands out on a table that holds `v`.
pub open spec fn handed_out(v: FdTableView) -> i32 {
    choose|fd: i32| v.lowest_unused_from(FIRST_USER_FD, fd)
}

/// What a table holds after one step.
pub open spec fn after_op(v: FdTableView, op: TableOp) -> FdTableView {
    match op {
        TableOp::Allocate(entry) => v.place(handed_out(v), entry),
        TableOp::Deallocate(fd) => v.release(fd),
        TableOp::Place(fd, entry) => v.place(fd, entry),
    }
}

/// The step can be taken on a table that holds `v`: handing out finds room,
/// and a chosen descriptor is at least 0 and below the largest number.
pub open spec fn can_take(v: FdTableView, op: TableOp) -> bool {
    match op {
        TableOp::Allocate(_) => v.has_room(),
        TableOp::Deallocate(_) => true,
        TableOp::Place(fd, _) => 0 <= fd < i32::MAX,
    }
}

/// What a fresh table holds after the steps `ops`.
pub open spec fn after_ops(ops: Seq<TableOp>) -> FdTableView
    decreases ops.len(),
{
    if ops.len() == 0 {
        fresh_table()
    } else {
        after_op(after_ops(ops.drop_last()), ops.last())
    }
}

/// Every one of the steps can be taken when its turn comes.
pub open spec fn can_take_all(ops: Seq<TableOp>) -> bool
    decreases ops.len(),
{
    if ops.len() == 0 {
        true
    } else {
        can_take_all(ops.drop_last()) && can_take(after_ops(ops.drop_last()), ops.last())
    }
}

/// Among the members of `s` from `lo` up to `hi` there is a least one.
proof fn lemma_least(s: Set<i32>, lo: int, hi: int) -> (least: i32)
    requires
        exists|x: i32| lo <= x < hi && s.contains(x),
    ensures
        lo <= least < hi,
        s.contains(least),
        forall|x: i32| lo <= x < hi && s.contains(x) ==> least <= x,
    decreases hi - lo,
{
    let w = choose|x: i32| lo <= x < hi && s.contains(x);
    if lo < i32::MIN {
        lemma_least(s, i32::MIN as int, hi)
    } else if s.contains(lo as i32) {
        lo as i32
    } else {
        assert(lo + 1 <= w < hi && s.contains(w));
        lemma_least(s, lo + 1, hi)
    }
}

/// A table with room hands out just one descriptor: the smallest one from
/// 3 up that stands for nothing.
pub proof fn lemma_handed_out(v: FdTableView)
    requires
        v.has_room(),
    ensures
        v.lowest_unused_from(FIRST_USER_FD, handed_out(v)),
        handed_out(v) >= FIRST_USER_FD,
        forall|fd: i32| v.lowest_unused_from(FIRST_USER_FD, fd) ==> fd == handed_out(v),
{
    let unused = Set::new(|fd: i32| !v.entries.contains_key(fd));
    let w = choose|fd: i32| v.unused_from(FIRST_USER_FD, fd);
    assert(FIRST_USER_FD <= w < i32::MAX && unused.contains(w));
    let least = lemma_least(unused, FIRST_USER_FD as int, i32::MAX as int);
    assert forall|other: i32| v.unused_from(FIRST_USER_FD, other) implies least <= other by {
        assert(unused.contains(other));
    }
    assert(v.lowest_unused_from(FIRST_USER_FD, least));
    let fd = handed_out(v);
    assert forall|other: i32| v.lowest_unused_from(FIRST_USER_FD, other) implies other == fd by {
        assert(v.unused_from(FIRST_USER_FD, other) && v.unused_from(FIRST_USER_FD, fd));
    }
}

/// A step keeps a valid table valid.
pub proof fn lemma_step_keeps_valid(v: FdTableView, op: TableOp)
    requires
        FdTable::valid(v),
        can_take(v, op),
    ensures
        FdTable::valid(after_op(v, op)),
{
    let w = after_op(v, op);
    match op {
        TableOp::Allocate(entry) => {
            lemma_handed_out(v);
            lemma_place_keeps_valid(v, handed_out(v), entry);
        },
        TableOp::Deallocate(fd) => {
            assert forall|x: i32| FIRST_USER_FD <= x < w.next_vfd implies (w.entries.contains_key(
                x,
            ) || w.free.contains(x)) by {
                assert(v.entries.contains_key(x) || v.free.contains(x));
            }
        },
        TableOp::Place(fd, entry) => {
            lemma_place_keeps_valid(v, fd, entry);
        },
    }
}

/// Placing an entry keeps a valid table valid.
pub proof fn lemma_place_keeps_valid(v: FdTableView, fd: i32, entry: FdEntry)
    requires
        FdTable::valid(v),
        0 <= fd < i32::MAX,
    ensures
        FdTable::valid(v.place(fd, entry)),
{
    let w = v.place(fd, entry);
    assert forall|x: i32| FIRST_USER_FD <= x < w.next_vfd implies (w.entries.contains_key(x)
        || w.free.contains(x)) by {
        if x != fd {
            if x < v.next_vfd {
                assert(v.entries.contains_key(x) || v.free.contains(x));
            } else {
                assert(v.passed_over(fd).contains(x));
            }
        }
    }
}

/// Whatever is handed out, given back and placed on a fresh table, the
/// table stays valid, and so gap-free.
pub proof fn lemma_valid_after_ops(ops: Seq<TableOp>)
    requires
        can_take_all(ops),
    ensures
        FdTable::valid(after_ops(ops)),
    decreases ops.len(),
{
    if ops.len() > 0 {
        lemma_valid_after_ops(ops.drop_last());
        lemma_step_keeps_valid(after_ops(ops.drop_last()), ops.last());
    }
}

/// The lowest descriptor, always. After any steps of handing out, giving
/// back and placing on a fresh table, the descriptor handed out next is at
/// least 3 and is the smallest descriptor from 3 up that stands for
/// nothing.
pub proof fn lemma_lowest_after_any_ops(ops: Seq<TableOp>)
    requires
        can_take_all(ops),
        after_ops(ops).has_room(),
    ensures
        handed_out(after_ops(ops)) >= FIRST_USER_FD,
        after_ops(ops).lowest_unused_from(FIRST_USER_FD, handed_out(after_ops(ops))),
{
    lemma_handed_out(after_ops(ops));
}

} // verus!
