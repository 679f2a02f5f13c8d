//! What the handlers of the intercepted system calls decide.
//!
//! A handler gets the arguments of a call as plain values. It answers with
//! the value to return to the guest, with the rewritten call to inject
//! into the kernel, or by letting the call of the guest through as it is. Where the
//! result of an injected call is needed to finish, a second function takes
//! it.

use crate::abi::{
    AT_FDCWD, CLONE_FILES, EBADF, EFAULT, EIO, ENOSYS, ENOTDIR, F_DUPFD, F_DUPFD_CLOEXEC,
    O_CLOEXEC,
};
use crate::bytes::{append, low_bits, low_i32};
use crate::dirent::{dir_entry_views, dirents, encode_dirents};
use crate::error::VfsError;
use crate::fdset::{
    is_kernel_nfds, kernel_fds_fit, kernel_fds_valid, kernel_set, translate_to_kernel,
    translate_to_virtual, virtual_set, FdSet,
};
use crate::fdtable::{FdEntry, FdTable, FdTableView, FIRST_USER_FD};
use crate::files::OpenFiles;
use crate::mount::{first_accepting, none_accepting, MountTable, Vfs};
use crate::registry::FdTables;
use crate::sqlite::{create_spec, resolve_in, SqliteFile, SqliteVfs};
use crate::stat::{stat_of, Stat};
use crate::store::Store;
use crate::text::{decimal, decimal_string};
use vstd::prelude::*;

verus! {

/// What a virtual descriptor stands for, as a handler sees it.
#[derive(Debug, Clone, Copy, PartialEq, Eq, Structural)]
pub enum FdTarget {
    /// A kernel descriptor: the call is injected with it.
    Kernel(i32),
    /// A file object served in-process.
    Virtual(u64),
    /// Nothing the sandbox knows: the call of the guest goes through as it is.
    Unknown,
}

/// What `vfd` stands for in the table.
pub open spec fn target_of(table: FdTableView, vfd: i32) -> FdTarget {
    match table.get(vfd) {
        Some(FdEntry::Passthrough { kernel_fd, .. }) => FdTarget::Kernel(kernel_fd),
        Some(FdEntry::Virtual { file_ops, .. }) => FdTarget::Virtual(file_ops),
        None => FdTarget::Unknown,
    }
}

/// What `vfd` stands for.
pub fn classify(fd_table: &FdTable, vfd: i32) -> (r: FdTarget)
    requires
        fd_table.wf(),
    ensures
        r == target_of(fd_table@, vfd),
{
    match fd_table.get(vfd) {
        Some(FdEntry::Passthrough { kernel_fd, .. }) => FdTarget::Kernel(kernel_fd),
        Some(FdEntry::Virtual { file_ops, .. }) => FdTarget::Virtual(file_ops),
        None => FdTarget::Unknown,
    }
}

/// The directory descriptor to hand to the kernel for the guest's `dirfd`:
/// the sentinel for the working directory as it is, a virtual descriptor
/// as its kernel descriptor, and anything the table cannot translate as it
/// is.
pub open spec fn spec_kernel_dirfd(table: FdTableView, dirfd: i32) -> i32 {
    if dirfd == AT_FDCWD {
        dirfd
    } else {
        match table.translate(dirfd) {
            Some(k) => k,
            None => dirfd,
        }
    }
}

/// The directory descriptor to hand to the kernel for the guest's `dirfd`.
pub fn kernel_dirfd(fd_table: &FdTable, dirfd: i32) -> (r: i32)
    requires
        fd_table.wf(),
    ensures
        r == spec_kernel_dirfd(fd_table@, dirfd),
{
    if dirfd == AT_FDCWD {
        dirfd
    } else {
        match fd_table.translate(dirfd) {
            Some(k) => k,
            None => dirfd,
        }
    }
}

/// The path to hand to the kernel in place of `path`: the translation by
/// the first mount that accepts it; none where no mount does.
pub open spec fn spec_translate_path(mounts: Seq<crate::mount::MountPoint>, path: Seq<char>, r: Option<Seq<char>>) -> bool {
    match r {
        Some(p) => exists|i: int|
            first_accepting(mounts, path, i) && mounts[i].vfs.translates(path) == Some(p),
        None => none_accepting(mounts, path),
    }
}

/// The path to hand to the kernel in place of `path`.
pub fn translate_path(mount_table: &MountTable, path: &str) -> (r: Option<String>)
    ensures
        spec_translate_path(
            mount_table@,
            path@,
            match r {
                Some(p) => Some(p@),
                None => None,
            },
        ),
{
    match mount_table.resolve(path) {
        Some((_, translated)) => Some(translated),
        None => None,
    }
}

/// `pread64`: inject with the kernel descriptor, or let the call through.
pub fn handle_pread64(fd_table: &FdTable, fd: i32) -> (r: Option<i32>)
    requires
        fd_table.wf(),
    ensures
        r == fd_table@.translate(fd),
{
    fd_table.translate(fd)
}

/// `pwrite64`: inject with the kernel descriptor, or let the call through.
pub fn handle_pwrite64(fd_table: &FdTable, fd: i32) -> (r: Option<i32>)
    requires
        fd_table.wf(),
    ensures
        r == fd_table@.translate(fd),
{
    fd_table.translate(fd)
}

/// `lseek`: inject with the kernel descriptor, or let the call through.
pub fn handle_lseek(fd_table: &FdTable, fd: i32) -> (r: Option<i32>)
    requires
        fd_table.wf(),
    ensures
        r == fd_table@.translate(fd),
{
    fd_table.translate(fd)
}

/// `readv`: inject with the kernel descriptor, or let the call through.
pub fn handle_readv(fd_table: &FdTable, fd: i32) -> (r: Option<i32>)
    requires
        fd_table.wf(),
    ensures
        r == fd_table@.translate(fd),
{
    fd_table.translate(fd)
}

/// `writev`: inject with the kernel descriptor, or let the call through.
pub fn handle_writev(fd_table: &FdTable, fd: i32) -> (r: Option<i32>)
    requires
        fd_table.wf(),
    ensures
        r == fd_table@.translate(fd),
{
    fd_table.translate(fd)
}

/// `sendto`: inject with the kernel descriptor, or let the call through.
pub fn handle_sendto(fd_table: &FdTable, fd: i32) -> (r: Option<i32>)
    requires
        fd_table.wf(),
    ensures
        r == fd_table@.translate(fd),
{
    fd_table.translate(fd)
}

/// `connect`: inject with the kernel descriptor, or let the call through.
pub fn handle_connect(fd_table: &FdTable, fd: i32) -> (r: Option<i32>)
    requires
        fd_table.wf(),
    ensures
        r == fd_table@.translate(fd),
{
    fd_table.translate(fd)
}

/// `getpeername`: inject with the kernel descriptor, or let the call
/// through.
pub fn handle_getpeername(fd_table: &FdTable, fd: i32) -> (r: Option<i32>)
    requires
        fd_table.wf(),
    ensures
        r == fd_table@.translate(fd),
{
    fd_table.translate(fd)
}

/// `mmap`: an anonymous mapping, with descriptor -1, goes through; a
/// mapping of a file is injected with the kernel descriptor.
pub fn handle_mmap(fd_table: &FdTable, fd: i32) -> (r: Option<i32>)
    requires
        fd_table.wf(),
    ensures
        r == if fd == -1 {
            None
        } else {
            fd_table@.translate(fd)
        },
{
    if fd == -1 {
        return None;
    }
    fd_table.translate(fd)
}

/// `ioctl`: injected with the kernel descriptor where that differs from the
/// guest's; where it is the same, as for the standard streams, the call
/// goes through as it is.
pub fn handle_ioctl(fd_table: &FdTable, fd: i32) -> (r: Option<i32>)
    requires
        fd_table.wf(),
    ensures
        r == match fd_table@.translate(fd) {
            Some(k) => if k == fd {
                None
            } else {
                Some(k)
            },
            None => None,
        },
{
    match fd_table.translate(fd) {
        Some(k) => if k == fd {
            None
        } else {
            Some(k)
        },
        None => None,
    }
}

/// `access`: inject with the translated path, or let the call through.
pub fn handle_access(mount_table: &MountTable, path: Option<&str>) -> (r: Option<String>)
    ensures
        match path {
            Some(p) => spec_translate_path(
                mount_table@,
                p@,
                match r {
                    Some(t) => Some(t@),
                    None => None,
                },
            ),
            None => r is None,
        },
{
    match path {
        Some(p) => translate_path(mount_table, p),
        None => None,
    }
}

/// `statfs`: inject with the translated path, or let the call through.
pub fn handle_statfs(mount_table: &MountTable, path: Option<&str>) -> (r: Option<String>)
    ensures
        match path {
            Some(p) => spec_translate_path(
                mount_table@,
                p@,
                match r {
                    Some(t) => Some(t@),
                    None => None,
                },
            ),
            None => r is None,
        },
{
    handle_access(mount_table, path)
}

/// `readlink`: inject with the translated path, or let the call through.
pub fn handle_readlink(mount_table: &MountTable, path: Option<&str>) -> (r: Option<String>)
    ensures
        match path {
            Some(p) => spec_translate_path(
                mount_table@,
                p@,
                match r {
                    Some(t) => Some(t@),
                    None => None,
                },
            ),
            None => r is None,
        },
{
    handle_access(mount_table, path)
}

/// `unlink`: inject with the translated path, or let the call through.
pub fn handle_unlink(mount_table: &MountTable, path: Option<&str>) -> (r: Option<String>)
    ensures
        match path {
            Some(p) => spec_translate_path(
                mount_table@,
                p@,
                match r {
                    Some(t) => Some(t@),
                    None => None,
                },
            ),
            None => r is None,
        },
{
    handle_access(mount_table, path)
}

/// `llistxattr`: inject with the translated path, or let the call through.
pub fn handle_llistxattr(mount_table: &MountTable, path: Option<&str>) -> (r: Option<String>)
    ensures
        match path {
            Some(p) => spec_translate_path(
                mount_table@,
                p@,
                match r {
                    Some(t) => Some(t@),
                    None => None,
                },
            ),
            None => r is None,
        },
{
    handle_access(mount_table, path)
}

/// `lgetxattr`: inject with the translated path, or let the call through.
pub fn handle_lgetxattr(mount_table: &MountTable, path: Option<&str>) -> (r: Option<String>)
    ensures
        match path {
            Some(p) => spec_translate_path(
                mount_table@,
                p@,
                match r {
                    Some(t) => Some(t@),
                    None => None,
                },
            ),
            None => r is None,
        },
{
    handle_access(mount_table, path)
}

/// The two paths of a rewritten `rename`.
#[derive(Debug)]
pub struct RenamePaths {
    /// The old path, where the guest gave one: translated or as given.
    pub oldpath: Option<String>,
    /// The new path, where the guest gave one: translated or as given.
    pub newpath: Option<String>,
}

/// The path to put into a rewritten call: the translation where there is
/// one, else the path as the guest gave it; with whether it was translated.
fn translated_or_same(mount_table: &MountTable, path: Option<&str>) -> (r: (Option<String>, bool))
    ensures
        match path {
            None => r.0 is None && !r.1,
            Some(p) => r.0 is Some && if r.1 {
                spec_translate_path(mount_table@, p@, Some(r.0->0@))
            } else {
                spec_translate_path(mount_table@, p@, None) && r.0->0@ == p@
            },
        },
{
    match path {
        None => (None, false),
        Some(p) => match translate_path(mount_table, p) {
            Some(t) => (Some(t), true),
            None => (Some(String::from_str(p)), false),
        },
    }
}

/// `rename`: inject with both paths, each translated where a mount accepts
/// it, if at least one was translated; else let the call through.
pub fn handle_rename(mount_table: &MountTable, oldpath: Option<&str>, newpath: Option<&str>) -> (r:
    Option<RenamePaths>)
    ensures
        match r {
            None => (oldpath matches Some(p) ==> spec_translate_path(mount_table@, p@, None)) && (
            newpath matches Some(p) ==> spec_translate_path(mount_table@, p@, None)),
            Some(paths) => {
                &&& paths.oldpath is Some == oldpath is Some
                &&& paths.newpath is Some == newpath is Some
                &&& oldpath matches Some(p) ==> spec_translate_path(
                    mount_table@,
                    p@,
                    Some(paths.oldpath->0@),
                ) || (spec_translate_path(mount_table@, p@, None) && paths.oldpath->0@ == p@)
                &&& newpath matches Some(p) ==> spec_translate_path(
                    mount_table@,
                    p@,
                    Some(paths.newpath->0@),
                ) || (spec_translate_path(mount_table@, p@, None) && paths.newpath->0@ == p@)
                &&& (oldpath matches Some(p) && !spec_translate_path(mount_table@, p@, None)) || (
                newpath matches Some(p) && !spec_translate_path(mount_table@, p@, None))
            },
        },
{
    let (old, old_changed) = translated_or_same(mount_table, oldpath);
    let (new, new_changed) = translated_or_same(mount_table, newpath);
    proof {
        match oldpath {
            Some(p) => lemma_translation_decided(mount_table@, p@),
            None => {},
        }
        match newpath {
            Some(p) => lemma_translation_decided(mount_table@, p@),
            None => {},
        }
    }
    if old_changed || new_changed {
        Some(RenamePaths { oldpath: old, newpath: new })
    } else {
        None
    }
}

/// A path is either accepted by a first mount or by none, never both.
pub proof fn lemma_translation_decided(mounts: Seq<crate::mount::MountPoint>, path: Seq<char>)
    ensures
        forall|t: Seq<char>|
            spec_translate_path(mounts, path, Some(t)) ==> !spec_translate_path(mounts, path, None),
{
    assert forall|t: Seq<char>| spec_translate_path(mounts, path, Some(t)) implies !spec_translate_path(
        mounts,
        path,
        None,
    ) by {
        let i = choose|i: int|
            first_accepting(mounts, path, i) && mounts[i].vfs.translates(path) == Some(t);
        assert(mounts[i].vfs.accepts(path));
    }
}

/// A rewritten call that takes a directory descriptor and a path.
#[derive(Debug)]
pub struct AtCall {
    /// The directory descriptor for the kernel.
    pub dirfd: i32,
    /// The path for the kernel; none where the guest's own path stays.
    pub path: Option<String>,
}

/// The guest's `dirfd` is a virtual descriptor with a kernel descriptor
/// behind it, so that the call cannot go to the kernel as it is.
pub open spec fn dirfd_needs_translation(table: FdTableView, dirfd: i32) -> bool {
    dirfd != AT_FDCWD && table.translate(dirfd) is Some
}

/// What a call with a directory descriptor and a path is rewritten to.
/// The path is translated where a mount accepts it and stays as it is
/// where none does; the directory descriptor is translated in both cases.
/// Where neither changes, the call is not rewritten.
pub open spec fn rewritten_at(
    mounts: Seq<crate::mount::MountPoint>,
    table: FdTableView,
    dirfd: i32,
    path: Seq<char>,
    r: Option<AtCall>,
) -> bool {
    match r {
        Some(call) => {
            &&& call.dirfd == spec_kernel_dirfd(table, dirfd)
            &&& spec_translate_path(
                mounts,
                path,
                match call.path {
                    Some(t) => Some(t@),
                    None => None,
                },
            )
            &&& call.path is Some || dirfd_needs_translation(table, dirfd)
        },
        None => spec_translate_path(mounts, path, None) && !dirfd_needs_translation(table, dirfd),
    }
}

/// The rewritten call for a directory descriptor and a path.
pub fn rewrite_at(mount_table: &MountTable, fd_table: &FdTable, dirfd: i32, path: &str) -> (r:
    Option<AtCall>)
    requires
        fd_table.wf(),
    ensures
        rewritten_at(mount_table@, fd_table@, dirfd, path@, r),
{
    let needed = dirfd != AT_FDCWD && fd_table.translate(dirfd).is_some();
    let translated = translate_path(mount_table, path);
    if !needed && translated.is_none() {
        return None;
    }
    Some(AtCall { dirfd: kernel_dirfd(fd_table, dirfd), path: translated })
}

/// `readlinkat`: without a path the call goes through. Else it is
/// injected with the kernel's directory descriptor, and with the
/// translated path where a mount accepts the path; where neither
/// changes, it goes through.
pub fn handle_readlinkat(
    mount_table: &MountTable,
    fd_table: &FdTable,
    dirfd: i32,
    path: Option<&str>,
) -> (r: Option<AtCall>)
    requires
        fd_table.wf(),
    ensures
        match path {
            Some(p) => rewritten_at(mount_table@, fd_table@, dirfd, p@, r),
            None => r is None,
        },
{
    match path {
        Some(p) => rewrite_at(mount_table, fd_table, dirfd, p),
        None => None,
    }
}

/// `faccessat2`: where the directory descriptor or the path needs
/// translating, inject with both as the kernel needs them; else let the
/// call through.
pub fn handle_faccessat2(mount_table: &MountTable, fd_table: &FdTable, dirfd: i32, path: &str) -> (r:
    Option<AtCall>)
    requires
        fd_table.wf(),
    ensures
        rewritten_at(mount_table@, fd_table@, dirfd, path@, r),
{
    rewrite_at(mount_table, fd_table, dirfd, path)
}

/// What a handler of a call on a descriptor that may be virtual decides.
#[derive(Debug, Clone, Copy, PartialEq, Eq, Structural)]
pub enum IoStep {
    /// Inject the call with this kernel descriptor.
    Inject(i32),
    /// Serve the call from this file object.
    Serve(u64),
    /// Return "bad address": the guest gave no buffer.
    Fault,
    /// Let the call of the guest through as it is.
    PassThrough,
}

/// What a call that moves bytes decides on descriptor `fd`.
pub open spec fn io_step(table: FdTableView, fd: i32, has_buf: bool) -> IoStep {
    match target_of(table, fd) {
        FdTarget::Kernel(k) => IoStep::Inject(k),
        FdTarget::Virtual(id) => if has_buf {
            IoStep::Serve(id)
        } else {
            IoStep::Fault
        },
        FdTarget::Unknown => IoStep::PassThrough,
    }
}

/// `read`: a kernel descriptor is injected; a virtual one is served from
/// its file object, unless the guest gave no buffer.
pub fn handle_read(fd_table: &FdTable, fd: i32, has_buf: bool) -> (r: IoStep)
    requires
        fd_table.wf(),
    ensures
        r == io_step(fd_table@, fd, has_buf),
{
    match classify(fd_table, fd) {
        FdTarget::Kernel(k) => IoStep::Inject(k),
        FdTarget::Virtual(id) => if has_buf {
            IoStep::Serve(id)
        } else {
            IoStep::Fault
        },
        FdTarget::Unknown => IoStep::PassThrough,
    }
}

/// `write`: a kernel descriptor is injected; a virtual one is served from
/// its file object, unless the guest gave no buffer.
pub fn handle_write(fd_table: &FdTable, fd: i32, has_buf: bool) -> (r: IoStep)
    requires
        fd_table.wf(),
    ensures
        r == io_step(fd_table@, fd, has_buf),
{
    handle_read(fd_table, fd, has_buf)
}

/// `fstat`: a kernel descriptor is injected; a virtual one is served from
/// its file object.
pub fn handle_fstat(fd_table: &FdTable, fd: i32) -> (r: IoStep)
    requires
        fd_table.wf(),
    ensures
        r == io_step(fd_table@, fd, true),
{
    handle_read(fd_table, fd, true)
}

/// `getdents64`: a kernel descriptor is injected; a virtual one is served
/// from its file object.
pub fn handle_getdents64(fd_table: &FdTable, fd: i32) -> (r: IoStep)
    requires
        fd_table.wf(),
    ensures
        r == io_step(fd_table@, fd, true),
{
    handle_read(fd_table, fd, true)
}

/// The value to return to the guest, and the bytes to write into its
/// buffer.
#[derive(Debug)]
pub struct Reply {
    pub value: i64,
    pub data: Vec<u8>,
}

/// The value that reports "bad address".
pub open spec fn fault() -> i64 {
    (-EFAULT) as i64
}

/// Serves `read` from the file object `id`: the bytes read go to the
/// guest's buffer, their number is returned, and the offset of the file
/// object moves on.
pub fn serve_read(files: &mut OpenFiles, store: &Store, id: u64, len: usize) -> (r: Reply)
    requires
        old(files).wf(),
        store.wf(),
        old(files)@.contains_key(id),
        len <= i64::MAX,
        old(files)@[id].offset + len <= i64::MAX,
    ensures
        final(files).wf(),
        r.value == r.data@.len(),
        r.data@.len() <= len,
        store@.reads(
            old(files)@[id].ino,
            old(files)@[id].offset as int,
            old(files)@[id].offset + len,
            r.data@.len() as int,
        ),
        forall|i: int|
            0 <= i < r.data@.len() ==> r.data@[i] == store@.byte_at(
                old(files)@[id].ino,
                old(files)@[id].offset + i,
            ),
        final(files)@ == old(files)@.insert(
            id,
            SqliteFile { offset: (old(files)@[id].offset + r.data@.len()) as i64, ..old(files)@[id] },
        ),
{
    let mut file = files.get(id).unwrap();
    let outcome = file.read(store, len);
    files.put(id, file);
    read_reply(outcome)
}

/// The reply for the outcome of a read: the bytes with their number, or
/// the error number of the failure and no bytes.
pub fn read_reply(outcome: Result<Vec<u8>, VfsError>) -> (r: Reply)
    requires
        outcome matches Ok(data) ==> data@.len() <= i64::MAX,
    ensures
        match outcome {
            Ok(data) => r.value == data@.len() && r.data@ == data@,
            Err(e) => r.value == e.spec_errno() && r.data@.len() == 0,
        },
{
    match outcome {
        Ok(data) => Reply { value: data.len() as i64, data },
        Err(e) => Reply { value: e.errno(), data: Vec::new() },
    }
}

/// Serves `write` from the file object `id`: the number of bytes written
/// is returned, or the error number of the failure.
pub fn serve_write(files: &mut OpenFiles, store: &mut Store, id: u64, buf: &[u8], now: i64) -> (r:
    i64)
    requires
        old(files).wf(),
        old(store).wf(),
        old(files)@.contains_key(id),
        buf@.len() <= i64::MAX,
        old(files)@[id].offset + buf@.len() <= i64::MAX,
    ensures
        final(files).wf(),
        final(store).wf(),
        if buf@.len() > 0 && !old(store)@.inodes.contains_key(old(files)@[id].ino) {
            &&& r == -EIO
            &&& final(store)@ == old(store)@
            &&& final(files)@ == old(files)@
        } else {
            &&& r == buf@.len()
            &&& final(store)@ == crate::sqlite::written(
                old(store)@,
                old(files)@[id].ino,
                old(files)@[id].offset,
                buf@,
                now,
            )
            &&& final(files)@ == old(files)@.insert(
                id,
                SqliteFile {
                    offset: (old(files)@[id].offset + buf@.len()) as i64,
                    ..old(files)@[id]
                },
            )
        },
{
    let mut file = files.get(id).unwrap();
    let len = buf.len();
    match file.write(store, buf, now) {
        Ok(n) => {
            assert(n == len);
            files.put(id, file);
            n as i64
        },
        Err(e) => {
            assert(final(files)@ =~= old(files)@);
            e.errno()
        },
    }
}

/// The value to return to the guest for `fstat` or `newfstatat`, and the
/// `stat` record to write into its buffer on success.
#[derive(Debug)]
pub struct StatReply {
    pub value: i64,
    pub stat: Option<Stat>,
}

/// The reply for the outcome of a `stat`: 0 with the record, or the error
/// number.
pub open spec fn stat_reply(outcome: Result<Stat, VfsError>, r: StatReply) -> bool {
    match outcome {
        Ok(st) => r.value == 0 && r.stat == Some(st),
        Err(e) => r.value == e.spec_errno() && r.stat is None,
    }
}

/// The reply for the outcome of a `stat`.
pub fn reply_for_stat(outcome: Result<Stat, VfsError>) -> (r: StatReply)
    ensures
        stat_reply(outcome, r),
{
    match outcome {
        Ok(st) => StatReply { value: 0, stat: Some(st) },
        Err(e) => StatReply { value: e.errno(), stat: None },
    }
}

/// Serves `fstat` from the file object `id`.
pub fn serve_fstat(files: &OpenFiles, store: &Store, id: u64) -> (r: StatReply)
    requires
        store.wf(),
        files@.contains_key(id),
    ensures
        if store@.inodes.contains_key(files@[id].ino) {
            r.value == 0 && r.stat == Some(
                stat_of(files@[id].ino, store@.inodes[files@[id].ino]),
            )
        } else {
            r.value == -crate::abi::ENOENT && r.stat is None
        },
{
    let file = files.get(id).unwrap();
    reply_for_stat(file.fstat(store))
}

/// Serves `getdents64` from the file object `id`: the records of the
/// directory's entries that fit into `count` bytes, on the first call; no
/// bytes on every later one. Without a buffer the reply is "bad address",
/// and the listing is spent all the same.
pub fn serve_getdents64(files: &mut OpenFiles, store: &Store, id: u64, has_buf: bool, count: u32) -> (r:
    Reply)
    requires
        old(files).wf(),
        store.wf(),
        old(files)@.contains_key(id),
    ensures
        final(files).wf(),
        final(files)@ == old(files)@.insert(
            id,
            SqliteFile {
                dir_pos: if old(files)@[id].dir_pos > 0 {
                    old(files)@[id].dir_pos
                } else {
                    1
                },
                ..old(files)@[id]
            },
        ),
        !has_buf ==> r.value == fault() && r.data@.len() == 0,
        has_buf ==> r.value == r.data@.len() && r.data@.len() <= count,
        has_buf && old(files)@[id].dir_pos > 0 ==> r.data@.len() == 0,
        has_buf && old(files)@[id].dir_pos == 0 ==> exists|
            ev: Seq<(Seq<char>, i64)>,
            entries: Seq<(u64, String, u8)>,
        |
            store@.lists_children(old(files)@[id].ino, ev) && crate::sqlite::listing_views(entries)
                == crate::sqlite::dir_listing(store@, old(files)@[id].ino, ev) && r.data@
                == dirents(dir_entry_views(entries), count as int),
{
    let mut file = files.get(id).unwrap();
    let outcome = file.getdents(store);
    files.put(id, file);
    proof {
        if old(files)@[id].dir_pos > 0 {
            assert(dir_entry_views(outcome->Ok_0@) =~= Seq::empty());
        }
    }
    getdents_reply(outcome, has_buf, count)
}

/// The reply for the outcome of reading a directory: "not a directory"
/// for a failure, "bad address" where the guest gave no buffer, and else
/// the records of the entries that fit into `count` bytes, with their
/// length.
pub fn getdents_reply(
    outcome: Result<Vec<(u64, String, u8)>, VfsError>,
    has_buf: bool,
    count: u32,
) -> (r: Reply)
    ensures
        match outcome {
            Err(_) => r.value == -ENOTDIR && r.data@.len() == 0,
            Ok(entries) => if has_buf {
                r.data@ == dirents(dir_entry_views(entries@), count as int) && r.value
                    == r.data@.len() && r.data@.len() <= count
            } else {
                r.value == fault() && r.data@.len() == 0
            },
        },
{
    match outcome {
        Err(_) => Reply { value: -(ENOTDIR as i64), data: Vec::new() },
        Ok(entries) => {
            if !has_buf {
                return Reply { value: -(EFAULT as i64), data: Vec::new() };
            }
            let data = encode_dirents(&entries, count);
            Reply { value: data.len() as i64, data }
        },
    }
}

/// What `close` decides.
#[derive(Debug, Clone, Copy, PartialEq, Eq, Structural)]
pub enum CloseStep {
    /// Inject `close` on this kernel descriptor.
    Inject(i32),
    /// The descriptor stood for this file object: return 0, and let the
    /// object go if it was the last descriptor for it.
    Done(u64),
    /// Let the call of the guest through as it is.
    PassThrough,
}

/// `close`: gives the descriptor back. A kernel descriptor is then closed
/// in the kernel; closing a virtual one always succeeds.
pub fn handle_close(fd_table: &mut FdTable, fd: i32) -> (r: CloseStep)
    requires
        old(fd_table).wf(),
    ensures
        final(fd_table).wf(),
        final(fd_table)@ == old(fd_table)@.release(fd),
        r == match target_of(old(fd_table)@, fd) {
            FdTarget::Kernel(k) => CloseStep::Inject(k),
            FdTarget::Virtual(id) => CloseStep::Done(id),
            FdTarget::Unknown => CloseStep::PassThrough,
        },
{
    match fd_table.deallocate(fd) {
        Some(FdEntry::Passthrough { kernel_fd, .. }) => CloseStep::Inject(kernel_fd),
        Some(FdEntry::Virtual { file_ops, .. }) => CloseStep::Done(file_ops),
        None => CloseStep::PassThrough,
    }
}

/// Lets the file object `id` go once no descriptor of any process stands
/// for it. To be called after a descriptor for it was closed or placed
/// over.
pub fn release_file(files: &mut OpenFiles, tables: &FdTables, id: u64)
    requires
        old(files).wf(),
        tables.wf(),
    ensures
        final(files).wf(),
        final(files)@ == if tables@.uses_file(id) {
            old(files)@
        } else {
            old(files)@.remove(id)
        },
{
    if !tables.uses_file(id) {
        files.remove(id);
    }
}

/// What a handler of a call with a directory descriptor and a path
/// decides.
#[derive(Debug)]
pub enum AtStep {
    /// Let the call of the guest through as it is.
    PassThrough,
    /// Return this value.
    Value(i64),
    /// Serve the call from the virtual mount at this place of the table.
    Virtual(usize),
    /// Inject the rewritten call.
    Inject(AtCall),
}

/// The first mount that accepts `path` is a virtual one.
pub open spec fn served_virtually(mounts: Seq<crate::mount::MountPoint>, path: Seq<char>) -> bool {
    exists|i: int| first_accepting(mounts, path, i) && mounts[i].vfs is Sqlite
}

/// Only one mount is the first to accept a path.
pub proof fn lemma_first_accepting_is_one(
    mounts: Seq<crate::mount::MountPoint>,
    path: Seq<char>,
    i: int,
    j: int,
)
    requires
        first_accepting(mounts, path, i),
        first_accepting(mounts, path, j),
    ensures
        i == j,
{
    if i < j {
        assert(!mounts[i].vfs.accepts(path));
    }
    if j < i {
        assert(!mounts[j].vfs.accepts(path));
    }
}

/// `openat`: without a path the call goes through. A path of a virtual
/// mount is served by that mount. Every other path is injected, with the
/// kernel's directory descriptor, and with the translated path where a
/// mount accepts it.
pub fn handle_openat(mount_table: &MountTable, fd_table: &FdTable, dirfd: i32, path: Option<&str>) -> (r:
    AtStep)
    requires
        fd_table.wf(),
    ensures
        match path {
            None => r is PassThrough,
            Some(p) => match r {
                AtStep::Virtual(i) => first_accepting(mount_table@, p@, i as int)
                    && mount_table@[i as int].vfs is Sqlite,
                AtStep::Inject(call) => !served_virtually(mount_table@, p@) && call.dirfd
                    == spec_kernel_dirfd(fd_table@, dirfd) && spec_translate_path(
                    mount_table@,
                    p@,
                    match call.path {
                        Some(t) => Some(t@),
                        None => None,
                    },
                ),
                _ => false,
            },
        },
{
    let p = match path {
        Some(p) => p,
        None => {
            return AtStep::PassThrough;
        },
    };
    let dirfd = kernel_dirfd(fd_table, dirfd);
    match mount_table.resolve_at(p) {
        Some((i, translated)) => {
            if mount_table.mounts()[i].vfs.is_virtual() {
                AtStep::Virtual(i)
            } else {
                proof {
                    assert forall|j: int| first_accepting(mount_table@, p@, j) implies !(
                    mount_table@[j].vfs is Sqlite) by {
                        lemma_first_accepting_is_one(mount_table@, p@, i as int, j);
                    }
                }
                AtStep::Inject(AtCall { dirfd, path: Some(translated) })
            }
        },
        None => AtStep::Inject(AtCall { dirfd, path: None }),
    }
}

/// The mode of a file that `openat` makes when the guest gave none.
pub const DEFAULT_OPEN_MODE: u32 = 0o644;

/// `r` is the descriptor that a table which holds `table` hands out next:
/// the smallest one from 3 up that stands for nothing.
pub open spec fn hands_out(table: FdTableView, r: i64) -> bool {
    FIRST_USER_FD <= r < i32::MAX && table.lowest_unused_from(FIRST_USER_FD, r as i32)
}

/// Serves `openat` on a virtual mount: opens the file, making it if the
/// flags ask for that, and hands out the lowest virtual descriptor for its
/// file object. A failure is returned as its error number.
pub fn serve_openat(
    vfs: &SqliteVfs,
    store: &mut Store,
    files: &mut OpenFiles,
    fd_table: &mut FdTable,
    path: &str,
    flags: i32,
    mode: Option<u32>,
    now: i64,
) -> (r: i64)
    requires
        old(store).wf(),
        old(files).wf(),
        old(fd_table).wf(),
        old(fd_table)@.has_room(),
        old(files)@.next < u64::MAX,
    ensures
        final(store).wf(),
        final(files).wf(),
        final(fd_table).wf(),
        match opened(old(store)@, vfs.spec_mount_point(), path@, flags, mode, now) {
            Ok((v, ino)) => {
                let entry = FdEntry::Virtual { file_ops: old(files)@.next, flags, path: None };
                &&& hands_out(old(fd_table)@, r)
                &&& final(fd_table)@ == old(fd_table)@.place(r as i32, entry)
                &&& final(files)@ == old(files)@.taken_in(SqliteFile::spec_new(ino, flags))
                &&& final(store)@ == v
            },
            Err(errno) => {
                &&& r == errno
                &&& final(store)@ == old(store)@
                &&& final(files)@ == old(files)@
                &&& final(fd_table)@ == old(fd_table)@
            },
        },
{
    let mode = match mode {
        Some(m) => m,
        None => DEFAULT_OPEN_MODE,
    };
    match vfs.open(store, path, flags, mode, now) {
        Ok(file) => {
            let id = files.insert(file).unwrap();
            let vfd = fd_table.allocate(FdEntry::Virtual { file_ops: id, flags, path: None });
            vfd as i64
        },
        Err(e) => e.errno(),
    }
}

/// What opening `path` on a virtual mount comes to: the store afterwards
/// and the inode opened, or the error number for the guest.
pub open spec fn opened(
    v: crate::store::StoreView,
    mount: Seq<char>,
    path: Seq<char>,
    flags: i32,
    mode: Option<u32>,
    now: i64,
) -> Result<(crate::store::StoreView, i64), i64> {
    let mode = match mode {
        Some(m) => m,
        None => DEFAULT_OPEN_MODE,
    };
    match resolve_in(v, mount, path) {
        Some(ino) => Ok((v, ino)),
        None => if flags & crate::abi::O_CREAT != 0 {
            match create_spec(v, mount, path, mode, now) {
                Ok(made) => Ok(made),
                Err(crate::sqlite::CreateFailure::NotFound) => Err((-crate::abi::ENOENT) as i64),
                Err(_) => Err((-EIO) as i64),
            }
        } else {
            Err((-crate::abi::ENOENT) as i64)
        },
    }
}

/// Finishes a call that makes a kernel descriptor (`openat` on a path the
/// kernel serves, `socket`): a descriptor that the kernel returned gets the
/// lowest virtual descriptor, which is returned in its place; an error is
/// returned as it is.
pub fn finish_open(fd_table: &mut FdTable, result: i64, flags: i32, path: Option<String>) -> (r:
    i64)
    requires
        old(fd_table).wf(),
        old(fd_table)@.has_room(),
    ensures
        final(fd_table).wf(),
        result < 0 ==> r == result && final(fd_table)@ == old(fd_table)@,
        result >= 0 ==> hands_out(old(fd_table)@, r) && final(fd_table)@ == old(fd_table)@.place(
            r as i32,
            FdEntry::Passthrough { kernel_fd: low_i32(result), flags, path },
        ),
{
    if result >= 0 {
        let vfd = fd_table.allocate(
            FdEntry::Passthrough { kernel_fd: low_bits(result), flags, path },
        );
        vfd as i64
    } else {
        result
    }
}

/// Finishes `openat` on a path that the kernel serves.
pub fn finish_openat(fd_table: &mut FdTable, result: i64, flags: i32) -> (r: i64)
    requires
        old(fd_table).wf(),
        old(fd_table)@.has_room(),
    ensures
        final(fd_table).wf(),
        result < 0 ==> r == result && final(fd_table)@ == old(fd_table)@,
        result >= 0 ==> hands_out(old(fd_table)@, r) && final(fd_table)@ == old(fd_table)@.place(
            r as i32,
            FdEntry::Passthrough { kernel_fd: low_i32(result), flags, path: None },
        ),
{
    finish_open(fd_table, result, flags, None)
}

/// `socket`: the call is injected as it is; this finishes it.
pub fn handle_socket(fd_table: &mut FdTable, result: i64) -> (r: i64)
    requires
        old(fd_table).wf(),
        old(fd_table)@.has_room(),
    ensures
        final(fd_table).wf(),
        result < 0 ==> r == result && final(fd_table)@ == old(fd_table)@,
        result >= 0 ==> hands_out(old(fd_table)@, r) && final(fd_table)@ == old(fd_table)@.place(
            r as i32,
            FdEntry::Passthrough { kernel_fd: low_i32(result), flags: 0, path: None },
        ),
{
    finish_open(fd_table, result, 0, None)
}

/// What a call that asks about a path decides: a path of a virtual mount
/// is for the mount at that place of the table; every other call is
/// rewritten, or goes through where nothing is to rewrite.
fn decide_at(mount_table: &MountTable, fd_table: &FdTable, dirfd: i32, path: Option<&str>) -> (r:
    AtStep)
    requires
        fd_table.wf(),
    ensures
        match path {
            None => r is PassThrough,
            Some(p) => match r {
                AtStep::PassThrough => rewritten_at(mount_table@, fd_table@, dirfd, p@, None),
                AtStep::Virtual(i) => first_accepting(mount_table@, p@, i as int)
                    && mount_table@[i as int].vfs is Sqlite,
                AtStep::Inject(call) => !served_virtually(mount_table@, p@) && rewritten_at(
                    mount_table@,
                    fd_table@,
                    dirfd,
                    p@,
                    Some(call),
                ),
                AtStep::Value(_) => false,
            },
        },
{
    let p = match path {
        Some(p) => p,
        None => {
            return AtStep::PassThrough;
        },
    };
    let needed = dirfd != AT_FDCWD && fd_table.translate(dirfd).is_some();
    let dirfd = kernel_dirfd(fd_table, dirfd);
    match mount_table.resolve_at(p) {
        Some((i, translated)) => {
            if mount_table.mounts()[i].vfs.is_virtual() {
                AtStep::Virtual(i)
            } else {
                proof {
                    assert forall|j: int| first_accepting(mount_table@, p@, j) implies !(
                    mount_table@[j].vfs is Sqlite) by {
                        lemma_first_accepting_is_one(mount_table@, p@, i as int, j);
                    }
                }
                AtStep::Inject(AtCall { dirfd, path: Some(translated) })
            }
        },
        None => {
            assert(!served_virtually(mount_table@, p@)) by {
                assert forall|j: int| !first_accepting(mount_table@, p@, j) by {
                    if first_accepting(mount_table@, p@, j) {
                        assert(mount_table@[j].vfs.accepts(p@));
                    }
                }
            }
            if needed {
                AtStep::Inject(AtCall { dirfd, path: None })
            } else {
                AtStep::PassThrough
            }
        },
    }
}

/// `statx`: on a virtual mount the call is not served, so that the guest
/// falls back to `newfstatat`. Every other call is injected with the
/// kernel's directory descriptor, and with the translated path where a
/// mount accepts the path; where neither changes, it goes through.
pub fn handle_statx(mount_table: &MountTable, fd_table: &FdTable, dirfd: i32, path: Option<&str>) -> (r:
    AtStep)
    requires
        fd_table.wf(),
    ensures
        match path {
            None => r is PassThrough,
            Some(p) => match r {
                AtStep::PassThrough => rewritten_at(mount_table@, fd_table@, dirfd, p@, None),
                AtStep::Value(v) => v == -ENOSYS && served_virtually(mount_table@, p@),
                AtStep::Inject(call) => !served_virtually(mount_table@, p@) && rewritten_at(
                    mount_table@,
                    fd_table@,
                    dirfd,
                    p@,
                    Some(call),
                ),
                AtStep::Virtual(_) => false,
            },
        },
{
    match decide_at(mount_table, fd_table, dirfd, path) {
        AtStep::Virtual(_) => AtStep::Value(-(ENOSYS as i64)),
        other => other,
    }
}

/// `newfstatat`: a path of a virtual mount is served by that mount. Every
/// other call is injected with the kernel's directory descriptor, and with
/// the translated path where a mount accepts the path; where neither
/// changes, it goes through.
pub fn handle_newfstatat(
    mount_table: &MountTable,
    fd_table: &FdTable,
    dirfd: i32,
    path: Option<&str>,
) -> (r: AtStep)
    requires
        fd_table.wf(),
    ensures
        match path {
            None => r is PassThrough,
            Some(p) => match r {
                AtStep::PassThrough => rewritten_at(mount_table@, fd_table@, dirfd, p@, None),
                AtStep::Virtual(i) => first_accepting(mount_table@, p@, i as int)
                    && mount_table@[i as int].vfs is Sqlite,
                AtStep::Inject(call) => !served_virtually(mount_table@, p@) && rewritten_at(
                    mount_table@,
                    fd_table@,
                    dirfd,
                    p@,
                    Some(call),
                ),
                AtStep::Value(_) => false,
            },
        },
{
    decide_at(mount_table, fd_table, dirfd, path)
}

/// Serves `newfstatat` on a virtual mount.
pub fn serve_newfstatat(vfs: &SqliteVfs, store: &Store, path: &str) -> (r: StatReply)
    requires
        store.wf(),
    ensures
        match resolve_in(store@, vfs.spec_mount_point(), path@) {
            Some(ino) => if store@.inodes.contains_key(ino) {
                r.value == 0 && r.stat == Some(stat_of(ino, store@.inodes[ino]))
            } else {
                r.value == -crate::abi::ENOENT && r.stat is None
            },
            None => r.value == -crate::abi::ENOENT && r.stat is None,
        },
{
    reply_for_stat(vfs.stat(store, path))
}

/// What `dup` decides.
#[derive(Debug, Clone, Copy, PartialEq, Eq, Structural)]
pub enum DupStep {
    /// Let the call of the guest through as it is.
    PassThrough,
    /// The entry was duplicated: return this descriptor.
    Value(i64),
    /// Inject `dup` on this kernel descriptor, then finish.
    Inject(i32),
}

/// `dup`: a virtual descriptor gets a second descriptor for the same file
/// object at once, the lowest one that stands for nothing; for a kernel
/// descriptor the kernel is asked for a duplicate first.
pub fn handle_dup(fd_table: &mut FdTable, oldfd: i32) -> (r: DupStep)
    requires
        old(fd_table).wf(),
        target_of(old(fd_table)@, oldfd) is Virtual ==> old(fd_table)@.has_room(),
    ensures
        final(fd_table).wf(),
        match target_of(old(fd_table)@, oldfd) {
            FdTarget::Unknown => r == DupStep::PassThrough && final(fd_table)@ == old(fd_table)@,
            FdTarget::Kernel(k) => r == DupStep::Inject(k) && final(fd_table)@ == old(fd_table)@,
            FdTarget::Virtual(_) => r matches DupStep::Value(v) && hands_out(old(fd_table)@, v)
                && final(fd_table)@ == old(fd_table)@.place(
                v as i32,
                old(fd_table)@.entries[oldfd],
            ),
        },
{
    match fd_table.get(oldfd) {
        None => DupStep::PassThrough,
        Some(FdEntry::Passthrough { kernel_fd, .. }) => DupStep::Inject(kernel_fd),
        Some(FdEntry::Virtual { file_ops, flags, path }) => {
            let vfd = fd_table.allocate(FdEntry::Virtual { file_ops, flags, path });
            DupStep::Value(vfd as i64)
        },
    }
}

/// The passthrough entry for the kernel descriptor `kernel_fd`, with the
/// flags and the path of the entry at `oldfd`, if there is one.
pub open spec fn duplicate_entry(table: FdTableView, oldfd: i32, kernel_fd: i32) -> FdEntry {
    match table.get(oldfd) {
        Some(e) => FdEntry::Passthrough { kernel_fd, flags: e.spec_flags(), path: e.spec_path() },
        None => FdEntry::Passthrough { kernel_fd, flags: 0, path: None },
    }
}

/// Finishes `dup` of a kernel descriptor: the duplicate that the kernel
/// made gets the lowest virtual descriptor, which is returned; an error of
/// the kernel is returned as it is.
pub fn finish_dup(fd_table: &mut FdTable, oldfd: i32, result: i64) -> (r: i64)
    requires
        old(fd_table).wf(),
        old(fd_table)@.has_room(),
    ensures
        final(fd_table).wf(),
        result < 0 ==> r == result && final(fd_table)@ == old(fd_table)@,
        result >= 0 ==> hands_out(old(fd_table)@, r) && final(fd_table)@ == old(fd_table)@.place(
            r as i32,
            duplicate_entry(old(fd_table)@, oldfd, low_i32(result)),
        ),
{
    if result < 0 {
        return result;
    }
    let kernel_fd = low_bits(result);
    let entry = match fd_table.get(oldfd) {
        Some(FdEntry::Passthrough { flags, path, .. }) => FdEntry::Passthrough {
            kernel_fd,
            flags,
            path,
        },
        Some(FdEntry::Virtual { flags, path, .. }) => FdEntry::Passthrough {
            kernel_fd,
            flags,
            path,
        },
        None => FdEntry::Passthrough { kernel_fd, flags: 0, path: None },
    };
    fd_table.allocate(entry) as i64
}

/// What stood at a descriptor that was placed over, for the caller to
/// close.
#[derive(Debug, Clone, Copy, PartialEq, Eq, Structural)]
pub enum Closed {
    /// Nothing stood there.
    Nothing,
    /// A kernel descriptor: close it in the kernel.
    Kernel(i32),
    /// A file object.
    Virtual(u64),
}

/// What is to be closed for the entry `prior`.
pub open spec fn closed_for(prior: Option<FdEntry>) -> Closed {
    match prior {
        Some(FdEntry::Passthrough { kernel_fd, .. }) => Closed::Kernel(kernel_fd),
        Some(FdEntry::Virtual { file_ops, .. }) => Closed::Virtual(file_ops),
        None => Closed::Nothing,
    }
}

/// What is to be closed for the entry `prior`.
fn closed_of(prior: Option<FdEntry>) -> (r: Closed)
    ensures
        r == closed_for(prior),
{
    match prior {
        Some(FdEntry::Passthrough { kernel_fd, .. }) => Closed::Kernel(kernel_fd),
        Some(FdEntry::Virtual { file_ops, .. }) => Closed::Virtual(file_ops),
        None => Closed::Nothing,
    }
}

/// An entry can be placed at `newfd`: it is at least 0 and below the
/// largest number.
pub open spec fn placeable(newfd: i32) -> bool {
    0 <= newfd < i32::MAX
}

/// What `dup2` and `dup3` decide.
#[derive(Debug, Clone, Copy, PartialEq, Eq, Structural)]
pub enum Dup2Step {
    /// Let the call of the guest through as it is.
    PassThrough,
    /// Inject `dup` on this kernel descriptor, then finish.
    Inject(i32),
    /// Return `value`, and close what stood at the descriptor placed over.
    Done { value: i64, closed: Closed },
}

/// `dup3`: a virtual descriptor is placed at `newfd` at once, sharing its
/// file object, with `flags` recorded; for a kernel descriptor the kernel
/// is asked for a fresh duplicate first, so that nothing is closed before
/// the duplicate exists. A `newfd` at which nothing can be placed is a bad
/// descriptor.
pub fn handle_dup3(fd_table: &mut FdTable, oldfd: i32, newfd: i32, flags: i32) -> (r: Dup2Step)
    requires
        old(fd_table).wf(),
    ensures
        final(fd_table).wf(),
        match old(fd_table)@.get(oldfd) {
            None => r == Dup2Step::PassThrough && final(fd_table)@ == old(fd_table)@,
            Some(entry) => if !placeable(newfd) {
                r == (Dup2Step::Done { value: (-EBADF) as i64, closed: Closed::Nothing }) && final(fd_table)@ == old(fd_table)@
            } else {
                match entry {
                    FdEntry::Passthrough { kernel_fd, .. } => r == Dup2Step::Inject(kernel_fd)
                        && final(fd_table)@ == old(fd_table)@,
                    FdEntry::Virtual { file_ops, path, .. } => r == (Dup2Step::Done {
                        value: newfd as i64,
                        closed: closed_for(old(fd_table)@.get(newfd)),
                    }) && final(fd_table)@ == old(fd_table)@.place(
                        newfd,
                        FdEntry::Virtual { file_ops, flags, path },
                    ),
                }
            },
        },
{
    let entry = match fd_table.get(oldfd) {
        None => {
            return Dup2Step::PassThrough;
        },
        Some(entry) => entry,
    };
    if newfd < 0 || newfd == i32::MAX {
        return Dup2Step::Done { value: -(EBADF as i64), closed: Closed::Nothing };
    }
    match entry {
        FdEntry::Passthrough { kernel_fd, .. } => Dup2Step::Inject(kernel_fd),
        FdEntry::Virtual { file_ops, path, .. } => {
            let prior = fd_table.allocate_at(newfd, FdEntry::Virtual { file_ops, flags, path });
            Dup2Step::Done { value: newfd as i64, closed: closed_of(prior) }
        },
    }
}

/// `dup2`: as `dup3` without flags.
pub fn handle_dup2(fd_table: &mut FdTable, oldfd: i32, newfd: i32) -> (r: Dup2Step)
    requires
        old(fd_table).wf(),
    ensures
        final(fd_table).wf(),
        match old(fd_table)@.get(oldfd) {
            None => r == Dup2Step::PassThrough && final(fd_table)@ == old(fd_table)@,
            Some(entry) => if !placeable(newfd) {
                r == (Dup2Step::Done { value: (-EBADF) as i64, closed: Closed::Nothing }) && final(fd_table)@ == old(fd_table)@
            } else {
                match entry {
                    FdEntry::Passthrough { kernel_fd, .. } => r == Dup2Step::Inject(kernel_fd)
                        && final(fd_table)@ == old(fd_table)@,
                    FdEntry::Virtual { file_ops, path, .. } => r == (Dup2Step::Done {
                        value: newfd as i64,
                        closed: closed_for(old(fd_table)@.get(newfd)),
                    }) && final(fd_table)@ == old(fd_table)@.place(
                        newfd,
                        FdEntry::Virtual { file_ops, flags: 0, path },
                    ),
                }
            },
        },
{
    handle_dup3(fd_table, oldfd, newfd, 0)
}

/// The value to return for `dup2` or `dup3`, and what to close.
#[derive(Debug, Clone, Copy, PartialEq, Eq, Structural)]
pub struct Dup2Reply {
    pub value: i64,
    pub closed: Closed,
}

/// Finishes `dup3` of a kernel descriptor: the fresh duplicate is placed at
/// `newfd` with `flags` recorded, `newfd` is returned, and what stood there
/// is to be closed. An error of the kernel is returned as it is, and
/// nothing changes. Where nothing can be placed at `newfd`, the duplicate
/// is to be closed again and the descriptor is reported as bad.
pub fn finish_dup3(fd_table: &mut FdTable, newfd: i32, flags: i32, result: i64) -> (r: Dup2Reply)
    requires
        old(fd_table).wf(),
    ensures
        final(fd_table).wf(),
        result < 0 ==> r == (Dup2Reply { value: result, closed: Closed::Nothing }) && final(fd_table)@ == old(fd_table)@,
        result >= 0 && !placeable(newfd) ==> r == (Dup2Reply {
            value: (-EBADF) as i64,
            closed: Closed::Kernel(low_i32(result)),
        }) && final(fd_table)@ == old(fd_table)@,
        result >= 0 && placeable(newfd) ==> r == (Dup2Reply {
            value: newfd as i64,
            closed: closed_for(old(fd_table)@.get(newfd)),
        }) && final(fd_table)@ == old(fd_table)@.place(
            newfd,
            FdEntry::Passthrough { kernel_fd: low_i32(result), flags, path: None },
        ),
{
    if result < 0 {
        return Dup2Reply { value: result, closed: Closed::Nothing };
    }
    if newfd < 0 || newfd == i32::MAX {
        return Dup2Reply { value: -(EBADF as i64), closed: Closed::Kernel(low_bits(result)) };
    }
    let prior = fd_table.allocate_at(
        newfd,
        FdEntry::Passthrough { kernel_fd: low_bits(result), flags, path: None },
    );
    Dup2Reply { value: newfd as i64, closed: closed_of(prior) }
}

/// Finishes `dup2` of a kernel descriptor: as `finish_dup3` without flags.
pub fn finish_dup2(fd_table: &mut FdTable, newfd: i32, result: i64) -> (r: Dup2Reply)
    requires
        old(fd_table).wf(),
    ensures
        final(fd_table).wf(),
        result < 0 ==> r == (Dup2Reply { value: result, closed: Closed::Nothing }) && final(fd_table)@ == old(fd_table)@,
        result >= 0 && !placeable(newfd) ==> r == (Dup2Reply {
            value: (-EBADF) as i64,
            closed: Closed::Kernel(low_i32(result)),
        }) && final(fd_table)@ == old(fd_table)@,
        result >= 0 && placeable(newfd) ==> r == (Dup2Reply {
            value: newfd as i64,
            closed: closed_for(old(fd_table)@.get(newfd)),
        }) && final(fd_table)@ == old(fd_table)@.place(
            newfd,
            FdEntry::Passthrough { kernel_fd: low_i32(result), flags: 0, path: None },
        ),
{
    finish_dup3(fd_table, newfd, 0, result)
}

/// What `fcntl` decides.
#[derive(Debug, Clone, Copy, PartialEq, Eq, Structural)]
pub enum FcntlStep {
    /// Let the call of the guest through as it is.
    PassThrough,
    /// Inject the duplicating command on this kernel descriptor with
    /// minimum 0, then finish.
    Dup { kernel_fd: i32, cloexec: bool },
    /// Inject the command on this kernel descriptor.
    Inject(i32),
}

/// `fcntl`: a descriptor without a kernel descriptor goes through; the
/// duplicating commands are injected and finished; every other command is
/// injected on the kernel descriptor.
pub fn handle_fcntl(fd_table: &FdTable, fd: i32, cmd: i32) -> (r: FcntlStep)
    requires
        fd_table.wf(),
    ensures
        r == match fd_table@.translate(fd) {
            None => FcntlStep::PassThrough,
            Some(k) => if cmd == F_DUPFD {
                FcntlStep::Dup { kernel_fd: k, cloexec: false }
            } else if cmd == F_DUPFD_CLOEXEC {
                FcntlStep::Dup { kernel_fd: k, cloexec: true }
            } else {
                FcntlStep::Inject(k)
            },
        },
{
    match fd_table.translate(fd) {
        None => FcntlStep::PassThrough,
        Some(k) => if cmd == F_DUPFD {
            FcntlStep::Dup { kernel_fd: k, cloexec: false }
        } else if cmd == F_DUPFD_CLOEXEC {
            FcntlStep::Dup { kernel_fd: k, cloexec: true }
        } else {
            FcntlStep::Inject(k)
        },
    }
}

/// The flags recorded for a descriptor made by a duplicating `fcntl`.
pub open spec fn dupfd_flags(cloexec: bool) -> i32 {
    if cloexec {
        O_CLOEXEC
    } else {
        0
    }
}

/// Finishes a duplicating `fcntl`: the duplicate that the kernel made gets
/// the lowest virtual descriptor from `min_vfd` up, which is returned; an
/// error of the kernel is returned as it is.
pub fn finish_fcntl_dup(fd_table: &mut FdTable, min_vfd: i32, cloexec: bool, result: i64) -> (r:
    i64)
    requires
        old(fd_table).wf(),
        0 <= min_vfd,
        exists|fd: i32| old(fd_table)@.unused_from(min_vfd, fd),
    ensures
        final(fd_table).wf(),
        result < 0 ==> r == result && final(fd_table)@ == old(fd_table)@,
        result >= 0 ==> min_vfd <= r < i32::MAX && old(fd_table)@.lowest_unused_from(
            min_vfd,
            r as i32,
        ) && final(fd_table)@ == old(fd_table)@.place(
            r as i32,
            FdEntry::Passthrough {
                kernel_fd: low_i32(result),
                flags: dupfd_flags(cloexec),
                path: None,
            },
        ),
{
    if result < 0 {
        return result;
    }
    let flags = if cloexec {
        O_CLOEXEC
    } else {
        0
    };
    let vfd = fd_table.allocate_min(
        min_vfd,
        FdEntry::Passthrough { kernel_fd: low_bits(result), flags, path: None },
    );
    vfd as i64
}

/// The two virtual descriptors of a pipe, and the eight bytes to write
/// into the guest's array: each descriptor as four bytes, least
/// significant first.
#[derive(Debug)]
pub struct PipeReply {
    pub read_fd: i32,
    pub write_fd: i32,
    pub bytes: Vec<u8>,
}

/// `pipe2`: the call is injected as it is; after it succeeded, this gives
/// both ends of the pipe virtual descriptors, the read end first: each
/// gets the lowest descriptor that stands for nothing when its turn
/// comes.
pub fn handle_pipe2(fd_table: &mut FdTable, kernel_read: i32, kernel_write: i32, flags: i32) -> (r:
    PipeReply)
    requires
        old(fd_table).wf(),
        old(fd_table)@.next_vfd < i32::MAX - 1,
    ensures
        final(fd_table).wf(),
        FIRST_USER_FD <= r.read_fd < i32::MAX,
        FIRST_USER_FD <= r.write_fd < i32::MAX,
        old(fd_table)@.lowest_unused_from(FIRST_USER_FD, r.read_fd),
        old(fd_table)@.place(
            r.read_fd,
            FdEntry::Passthrough { kernel_fd: kernel_read, flags, path: None },
        ).lowest_unused_from(FIRST_USER_FD, r.write_fd),
        final(fd_table)@ == old(fd_table)@.place(
            r.read_fd,
            FdEntry::Passthrough { kernel_fd: kernel_read, flags, path: None },
        ).place(r.write_fd, FdEntry::Passthrough { kernel_fd: kernel_write, flags, path: None }),
        r.bytes@ == vstd::bytes::spec_u32_to_le_bytes(r.read_fd as u32)
            + vstd::bytes::spec_u32_to_le_bytes(r.write_fd as u32),
{
    proof {
        fd_table.lemma_valid();
        assert(fd_table@.unused_from(FIRST_USER_FD, fd_table@.next_vfd as i32));
    }
    let read_fd = fd_table.allocate(
        FdEntry::Passthrough { kernel_fd: kernel_read, flags, path: None },
    );
    proof {
        fd_table.lemma_valid();
        assert(fd_table@.unused_from(FIRST_USER_FD, fd_table@.next_vfd as i32));
    }
    let write_fd = fd_table.allocate(
        FdEntry::Passthrough { kernel_fd: kernel_write, flags, path: None },
    );
    let mut bytes: Vec<u8> = Vec::new();
    append(&mut bytes, vstd::bytes::u32_to_le_bytes(read_fd as u32).as_slice());
    append(&mut bytes, vstd::bytes::u32_to_le_bytes(write_fd as u32).as_slice());
    assert(bytes@ =~= vstd::bytes::spec_u32_to_le_bytes(read_fd as u32)
        + vstd::bytes::spec_u32_to_le_bytes(write_fd as u32));
    PipeReply { read_fd, write_fd, bytes }
}

/// `fork`: the call is injected as it is; in the parent, where the kernel
/// returned the child, this gives the child a copy of the parent's table.
pub fn handle_fork(tables: &mut FdTables, parent: i32, result: i64)
    requires
        old(tables).wf(),
        old(tables)@.knows(parent),
    ensures
        final(tables).wf(),
        final(tables)@ == if result > 0 {
            old(tables)@.forked(parent, low_i32(result))
        } else {
            old(tables)@
        },
{
    if result > 0 {
        tables.fork(parent, low_bits(result));
    }
}

/// `vfork`: as `fork`; the child gets a copy of its own.
pub fn handle_vfork(tables: &mut FdTables, parent: i32, result: i64)
    requires
        old(tables).wf(),
        old(tables)@.knows(parent),
    ensures
        final(tables).wf(),
        final(tables)@ == if result > 0 {
            old(tables)@.forked(parent, low_i32(result))
        } else {
            old(tables)@
        },
{
    handle_fork(tables, parent, result)
}

/// Whether a `clone` with these flags shares the descriptor table.
pub open spec fn shares_files(flags: u64) -> bool {
    flags & CLONE_FILES != 0
}

/// `clone`: the call is injected as it is; in the parent this lets the
/// child share the parent's table where the flags say so, and gives it a
/// copy otherwise.
pub fn handle_clone(tables: &mut FdTables, parent: i32, flags: u64, result: i64)
    requires
        old(tables).wf(),
        old(tables)@.knows(parent),
    ensures
        final(tables).wf(),
        final(tables)@ == if result <= 0 {
            old(tables)@
        } else if shares_files(flags) {
            old(tables)@.shared(parent, low_i32(result))
        } else {
            old(tables)@.forked(parent, low_i32(result))
        },
{
    if result > 0 {
        if flags & CLONE_FILES != 0 {
            tables.share(parent, low_bits(result));
        } else {
            tables.fork(parent, low_bits(result));
        }
    }
}

/// `clone3`: the flags in the guest's parameter block are not read; the
/// child gets a copy of its own.
pub fn handle_clone3(tables: &mut FdTables, parent: i32, result: i64)
    requires
        old(tables).wf(),
        old(tables)@.knows(parent),
    ensures
        final(tables).wf(),
        final(tables)@ == if result > 0 {
            old(tables)@.forked(parent, low_i32(result))
        } else {
            old(tables)@
        },
{
    handle_fork(tables, parent, result)
}

/// `poll`: a call without descriptors goes through; for every other one the
/// list is translated with `poll_to_kernel`, the call injected, and the
/// results written back with `poll_to_virtual` if the kernel reported any.
pub fn handle_poll(nfds: u64, has_fds: bool) -> (r: bool)
    ensures
        r == (nfds != 0 && has_fds),
{
    nfds != 0 && has_fds
}

/// The descriptor sets of a rewritten `pselect6`, with their count.
#[derive(Debug)]
pub struct SelectPlan {
    pub nfds: i32,
    pub readfds: Option<FdSet>,
    pub writefds: Option<FdSet>,
    pub exceptfds: Option<FdSet>,
}

/// The set for the kernel in place of the guest's set `virt`, if the guest
/// gave one, with its count, which is 0 for no set.
fn plan_set(virt: Option<&FdSet>, virt_nfds: i32, fd_table: &FdTable) -> (r: (Option<FdSet>, i32))
    requires
        fd_table.wf(),
        virt_nfds <= crate::abi::FD_SETSIZE,
        virt matches Some(s) ==> s.wf() && kernel_fds_fit(fd_table@, s@, virt_nfds as int),
    ensures
        planned(fd_table@, virt, virt_nfds, r.0, r.1),
{
    match virt {
        Some(s) => {
            let (k, n) = translate_to_kernel(s, virt_nfds, fd_table);
            (Some(k), n)
        },
        None => (None, 0),
    }
}

/// `kernel` and `n` are the set and the count for the kernel in place of
/// the guest's set `virt`.
pub open spec fn planned(
    table: FdTableView,
    virt: Option<&FdSet>,
    virt_nfds: i32,
    kernel: Option<FdSet>,
    n: i32,
) -> bool {
    match virt {
        Some(s) => kernel is Some && kernel->0.wf() && kernel->0@ == kernel_set(
            table,
            s@,
            virt_nfds as int,
        ) && is_kernel_nfds(kernel->0@, n as int),
        None => kernel is None && n == 0,
    }
}

/// `pselect6`: a call without any set goes through. For every other one,
/// each set the guest gave is replaced by the set of the kernel
/// descriptors behind it, and the count is the largest of the counts of
/// the three sets.
pub fn handle_pselect6(
    virt_nfds: i32,
    readfds: Option<&FdSet>,
    writefds: Option<&FdSet>,
    exceptfds: Option<&FdSet>,
    fd_table: &FdTable,
) -> (r: Option<SelectPlan>)
    requires
        fd_table.wf(),
        virt_nfds <= crate::abi::FD_SETSIZE,
        readfds matches Some(s) ==> s.wf() && kernel_fds_fit(fd_table@, s@, virt_nfds as int),
        writefds matches Some(s) ==> s.wf() && kernel_fds_fit(fd_table@, s@, virt_nfds as int),
        exceptfds matches Some(s) ==> s.wf() && kernel_fds_fit(fd_table@, s@, virt_nfds as int),
    ensures
        r is None <==> readfds is None && writefds is None && exceptfds is None,
        r matches Some(plan) ==> exists|nr: i32, nw: i32, ne: i32|
            planned(fd_table@, readfds, virt_nfds, plan.readfds, nr) && planned(
                fd_table@,
                writefds,
                virt_nfds,
                plan.writefds,
                nw,
            ) && planned(fd_table@, exceptfds, virt_nfds, plan.exceptfds, ne) && plan.nfds >= nr
                && plan.nfds >= nw && plan.nfds >= ne && (plan.nfds == nr || plan.nfds == nw
                || plan.nfds == ne),
{
    let (read, max_read) = plan_set(readfds, virt_nfds, fd_table);
    let (write, max_write) = plan_set(writefds, virt_nfds, fd_table);
    let (except, max_except) = plan_set(exceptfds, virt_nfds, fd_table);
    let mut nfds = max_read;
    if max_write > nfds {
        nfds = max_write;
    }
    if max_except > nfds {
        nfds = max_except;
    }
    if nfds == 0 {
        return None;
    }
    Some(SelectPlan { nfds, readfds: read, writefds: write, exceptfds: except })
}

/// Finishes `pselect6` for one set: the set to write back to the guest in
/// place of the set that the kernel left. Nothing is written back unless
/// the kernel reported descriptors.
pub fn finish_pselect6(
    result: i64,
    kernel_set: &FdSet,
    kernel_nfds: i32,
    virt_nfds: i32,
    fd_table: &FdTable,
) -> (r: Option<FdSet>)
    requires
        kernel_set.wf(),
        fd_table.wf(),
        virt_nfds <= crate::abi::FD_SETSIZE,
        kernel_fds_valid(fd_table@, kernel_nfds as int, virt_nfds as int),
    ensures
        result <= 0 ==> r is None,
        result > 0 ==> r is Some && r->0.wf() && r->0@ == virtual_set(
            fd_table@,
            kernel_set@,
            kernel_nfds as int,
            virt_nfds as int,
        ),
{
    if result <= 0 {
        return None;
    }
    let mut virt = FdSet::new();
    translate_to_virtual(kernel_set, kernel_nfds, &mut virt, virt_nfds, fd_table);
    Some(virt)
}

/// The return value of a call as the trace shows it.
pub fn format_result(value: i64) -> (r: String)
    ensures
        r@ == decimal(value as int),
{
    decimal_string(value)
}

/// The sandbox: its mounts, the descriptor tables of its processes, and
/// whether calls are traced.
#[derive(Debug)]
pub struct Sandbox {
    pub mount_table: MountTable,
    pub fd_tables: FdTables,
    pub strace: bool,
}

impl Sandbox {
    /// A sandbox with the mounts `mount_table`, without processes and
    /// without tracing.
    pub fn new(mount_table: MountTable) -> (r: Self)
        ensures
            r.mount_table == mount_table,
            r.fd_tables.wf(),
            r.fd_tables@.slot_of == Map::<i32, int>::empty(),
            !r.strace,
    {
        Sandbox { mount_table, fd_tables: crate::registry::init_fd_tables(), strace: false }
    }

    /// Whether calls are traced.
    pub fn is_strace_enabled(&self) -> (r: bool)
        ensures
            r == self.strace,
    {
        self.strace
    }

    /// The line of the trace for the return value of a call of process
    /// `pid`; none where calls are not traced.
    pub fn trace_result(&self, pid: i32, value: i64) -> (r: Option<String>)
        ensures
            self.strace ==> r is Some && r->0@ == "["@ + decimal(pid as int) + "] = "@ + decimal(
                value as int,
            ),
            !self.strace ==> r is None,
    {
        if !self.strace {
            return None;
        }
        let mut line = String::from_str("[");
        line.append(decimal_string(pid as i64).as_str());
        line.append("] = ");
        line.append(format_result(value).as_str());
        Some(line)
    }
}

/// Turns the tracing of calls on or off.
pub fn init_strace(sandbox: &mut Sandbox, enabled: bool)
    ensures
        final(sandbox).strace == enabled,
        final(sandbox).mount_table == old(sandbox).mount_table,
        final(sandbox).fd_tables == old(sandbox).fd_tables,
{
    sandbox.strace = enabled;
}

/// Puts the mounts of the sandbox in place.
pub fn init_mount_table(sandbox: &mut Sandbox, table: MountTable)
    ensures
        final(sandbox).mount_table == table,
        final(sandbox).strace == old(sandbox).strace,
        final(sandbox).fd_tables == old(sandbox).fd_tables,
{
    sandbox.mount_table = table;
}

} // verus!
