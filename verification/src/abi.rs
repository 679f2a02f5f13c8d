//! Numbers of the Linux x86-64 system-call interface that the sandbox reads
//! from the guest or hands back to it.

use vstd::prelude::*;

verus! {

/// No such file or directory.
pub const ENOENT: i32 = 2;

/// Input/output error.
pub const EIO: i32 = 5;

/// Bad file descriptor.
pub const EBADF: i32 = 9;

/// Permission denied.
pub const EACCES: i32 = 13;

/// Bad address.
pub const EFAULT: i32 = 14;

/// Not a directory.
pub const ENOTDIR: i32 = 20;

/// Function not implemented.
pub const ENOSYS: i32 = 38;

/// The directory descriptor that stands for the current working directory.
pub const AT_FDCWD: i32 = -100;

/// Open flag: create the file if it does not exist.
pub const O_CREAT: i32 = 0o100;

/// Open flag: close the descriptor on exec.
pub const O_CLOEXEC: i32 = 0o2000000;

/// Seek from the start of the file.
pub const SEEK_SET: i32 = 0;

/// Seek from the current offset.
pub const SEEK_CUR: i32 = 1;

/// Seek from the end of the file.
pub const SEEK_END: i32 = 2;

/// `fcntl` command: duplicate to the lowest descriptor at or above the argument.
pub const F_DUPFD: i32 = 0;

/// `fcntl` command: read the file status flags.
pub const F_GETFL: i32 = 3;

/// `fcntl` command: set the file status flags.
pub const F_SETFL: i32 = 4;

/// `fcntl` command: as `F_DUPFD`, and set close-on-exec on the new descriptor.
pub const F_DUPFD_CLOEXEC: i32 = 1030;

/// Directory entry type: unknown.
pub const DT_UNKNOWN: u8 = 0;

/// Directory entry type: directory.
pub const DT_DIR: u8 = 4;

/// Directory entry type: regular file.
pub const DT_REG: u8 = 8;

/// Directory entry type: symbolic link.
pub const DT_LNK: u8 = 10;

/// Mode bits that hold the file type.
pub const S_IFMT: u32 = 0o170000;

/// File type: regular file.
pub const S_IFREG: u32 = 0o100000;

/// File type: directory.
pub const S_IFDIR: u32 = 0o040000;

/// File type: symbolic link.
pub const S_IFLNK: u32 = 0o120000;

/// `clone` flag: parent and child share one descriptor table.
pub const CLONE_FILES: u64 = 0x400;

/// The size in bytes of the kernel's `stat` record.
pub const STAT_SIZE: usize = 144;

/// The number of descriptors that a `select` descriptor set can hold.
pub const FD_SETSIZE: usize = 1024;

} // verus!
