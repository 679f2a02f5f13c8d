//! A passthrough mount, and the record of a kernel descriptor opened
//! through one.

use crate::bind::Roots;
use crate::error::VfsError;
use crate::path::{translate_under, translated};
use crate::text::{from_chars, to_chars};
use vstd::prelude::*;

verus! {

/// A mount that redirects paths below a sandbox root to a host directory.
#[derive(Debug, Clone)]
pub struct PassthroughVfs {
    host_root: String,
    sandbox_root: String,
}

impl View for PassthroughVfs {
    type V = Roots;

    closed spec fn view(&self) -> Roots {
        Roots { host_root: self.host_root@, sandbox_root: self.sandbox_root@ }
    }
}

impl PassthroughVfs {
    /// A mount that shows the host directory `host_root` at `sandbox_root`.
    pub fn new(host_root: String, sandbox_root: String) -> (r: Self)
        ensures
            r@ == (Roots { host_root: host_root@, sandbox_root: sandbox_root@ }),
    {
        PassthroughVfs { host_root, sandbox_root }
    }

    /// The directory on the host.
    pub fn host_root(&self) -> (r: &str)
        ensures
            r@ == self@.host_root,
    {
        self.host_root.as_str()
    }

    /// The path that the guest sees.
    pub fn sandbox_root(&self) -> (r: &str)
        ensures
            r@ == self@.sandbox_root,
    {
        self.sandbox_root.as_str()
    }

    /// The host path for `path`; `NotFound` where `path` is not under the
    /// sandbox root.
    pub fn translate_path(&self, path: &str) -> (r: Result<String, VfsError>)
        ensures
            match translated(self@.host_root, self@.sandbox_root, path@) {
                Some(p) => r is Ok && r->Ok_0@ == p,
                None => r == Err::<String, VfsError>(VfsError::NotFound),
            },
    {
        let host = to_chars(self.host_root.as_str());
        let root = to_chars(self.sandbox_root.as_str());
        let p = to_chars(path);
        match translate_under(host.as_slice(), root.as_slice(), p.as_slice()) {
            Some(t) => Ok(from_chars(t.as_slice())),
            None => Err(VfsError::NotFound),
        }
    }

    /// The record of a kernel descriptor that was opened through this mount.
    pub fn create_file_ops(&self, kernel_fd: i32, flags: i32) -> (r: PassthroughFile)
        ensures
            r == (PassthroughFile { fd: kernel_fd, flags }),
    {
        PassthroughFile::new(kernel_fd, flags)
    }

    /// A passthrough mount is never virtual.
    pub fn is_virtual(&self) -> (r: bool)
        ensures
            !r,
    {
        false
    }
}

/// A file that the kernel serves: its descriptor and the flags recorded for
/// it.
#[derive(Debug, Clone, Copy, PartialEq, Eq, Structural)]
pub struct PassthroughFile {
    pub fd: i32,
    pub flags: i32,
}

impl PassthroughFile {
    /// The record of the kernel descriptor `fd`.
    pub fn new(fd: i32, flags: i32) -> (r: Self)
        ensures
            r == (PassthroughFile { fd, flags }),
    {
        PassthroughFile { fd, flags }
    }

    /// The kernel descriptor behind the file.
    pub fn as_raw_fd(&self) -> (r: Option<i32>)
        ensures
            r == Some(self.fd),
    {
        Some(self.fd)
    }

    /// The flags recorded for the descriptor.
    pub fn get_flags(&self) -> (r: i32)
        ensures
            r == self.flags,
    {
        self.flags
    }

    /// Records new flags for the descriptor.
    pub fn set_flags(&mut self, flags: i32) -> (r: Result<(), VfsError>)
        ensures
            r is Ok,
            final(self).flags == flags,
            final(self).fd == old(self).fd,
    {
        self.flags = flags;
        Ok(())
    }
}

} // verus!
