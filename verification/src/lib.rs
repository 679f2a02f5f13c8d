//! A user-space filesystem sandbox core: virtual file descriptors, a mount
//! table with longest-prefix resolution, the decisions of the system-call
//! handlers, and a POSIX-like filesystem kept in relational tables.

pub mod abi;
pub mod bind;
pub mod bytes;
pub mod config;
pub mod dirent;
pub mod error;
pub mod fdset;
pub mod fdtable;
pub mod files;
pub mod fs;
pub mod mount;
pub mod passthrough;
pub mod path;
pub mod registry;
pub mod rows;
pub mod sqlite;
pub mod stat;
pub mod store;
pub mod syscall;
pub mod table;
pub mod text;

pub use bind::BindVfs;
pub use config::{MountConfig, MountType};
pub use error::{VfsError, VfsResult};
pub use fdtable::{FdEntry, FdTable};
pub use fs::{Filesystem, Stats};
pub use mount::{MountPoint, MountTable, Vfs};
pub use passthrough::{PassthroughFile, PassthroughVfs};
pub use registry::{init_fd_tables, FdTables};
pub use sqlite::{SqliteFile, SqliteVfs};
pub use syscall::{init_mount_table, init_strace, Sandbox};
