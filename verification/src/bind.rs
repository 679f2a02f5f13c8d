//! A bind mount: paths below a sandbox root are rewritten to paths below a
//! host directory, and the kernel serves them.

use crate::error::VfsError;
use crate::path::{translate_under, translated};
use crate::text::{from_chars, to_chars};
use vstd::prelude::*;

verus! {

/// The two roots of a path-rewriting mount.
pub struct Roots {
    pub host_root: Seq<char>,
    pub sandbox_root: Seq<char>,
}

/// A bind mount from a sandbox root to a host directory.
#[derive(Debug, Clone)]
pub struct BindVfs {
    host_root: String,
    sandbox_root: String,
}

impl View for BindVfs {
    type V = Roots;

    closed spec fn view(&self) -> Roots {
        Roots { host_root: self.host_root@, sandbox_root: self.sandbox_root@ }
    }
}

impl BindVfs {
    /// A bind mount that shows the host directory `host_root` at
    /// `sandbox_root`.
    pub fn new(host_root: String, sandbox_root: String) -> (r: Self)
        ensures
            r@ == (Roots { host_root: host_root@, sandbox_root: sandbox_root@ }),
    {
        BindVfs { host_root, sandbox_root }
    }

    /// The directory on the host.
    pub fn host_root(&self) -> (r: &str)
        ensures
            r@ == self@.host_root,
    {
        self.host_root.as_str()
    }

    /// The path that the guest sees.
    pub fn sandbox_root(&self) -> (r: &str)
        ensures
            r@ == self@.sandbox_root,
    {
        self.sandbox_root.as_str()
    }

    /// The host path for `path`; `NotFound` where `path` is not under the
    /// sandbox root.
    pub fn translate_path(&self, path: &str) -> (r: Result<String, VfsError>)
        ensures
            match translated(self@.host_root, self@.sandbox_root, path@) {
                Some(p) => r is Ok && r->Ok_0@ == p,
                None => r == Err::<String, VfsError>(VfsError::NotFound),
            },
    {
        let host = to_chars(self.host_root.as_str());
        let root = to_chars(self.sandbox_root.as_str());
        let p = to_chars(path);
        match translate_under(host.as_slice(), root.as_slice(), p.as_slice()) {
            Some(t) => Ok(from_chars(t.as_slice())),
            None => Err(VfsError::NotFound),
        }
    }

    /// A bind mount is never virtual: the kernel holds its descriptors.
    pub fn is_virtual(&self) -> (r: bool)
        ensures
            !r,
    {
        false
    }
}

} // verus!
