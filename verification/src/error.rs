//! Errors of the virtual filesystem layer, and the error numbers that the
//! guest sees for them.

use crate::abi::{EACCES, EIO, ENOENT};
use vstd::prelude::*;

verus! {

/// `std::io::Error`, carried through unopened.
#[verifier::external_type_specification]
#[verifier::external_body]
pub struct ExIoError(std::io::Error);

/// What can go wrong in a virtual filesystem.
#[derive(Debug)]
pub enum VfsError {
    NotFound,
    PermissionDenied,
    InvalidInput(String),
    IoError(std::io::Error),
    Other(String),
}

/// The outcome of an operation of a virtual filesystem.
pub type VfsResult<T> = Result<T, VfsError>;

impl From<std::io::Error> for VfsError {
    fn from(err: std::io::Error) -> (r: Self) {
        VfsError::IoError(err)
    }
}

impl vstd::std_specs::convert::FromSpecImpl<std::io::Error> for VfsError {
    open spec fn obeys_from_spec() -> bool {
        true
    }

    open spec fn from_spec(err: std::io::Error) -> Self {
        VfsError::IoError(err)
    }
}

/// What `std::io::Error` prints for itself. The text comes from the operating
/// system, so nothing is claimed of it.
#[verifier::external_body]
fn io_error_text(err: &std::io::Error) -> (r: String) {
    format!("{}", err)
}

impl VfsError {
    /// The negated error number that a handler returns to the guest: `ENOENT`
    /// for a missing file, `EACCES` for a refusal, `EIO` for everything else.
    pub open spec fn spec_errno(self) -> int {
        match self {
            VfsError::NotFound => -ENOENT,
            VfsError::PermissionDenied => -EACCES,
            _ => -EIO,
        }
    }

    /// The fixed words that the message of the error begins with.
    pub open spec fn message_prefix(self) -> Seq<char> {
        match self {
            VfsError::NotFound => "Not found"@,
            VfsError::PermissionDenied => "Permission denied"@,
            VfsError::InvalidInput(_) => "Invalid input: "@,
            VfsError::IoError(_) => "IO error: "@,
            VfsError::Other(_) => Seq::empty(),
        }
    }

    /// The detail that follows the fixed words, where the error carries one of
    /// its own.
    pub open spec fn message_detail(self) -> Option<Seq<char>> {
        match self {
            VfsError::NotFound => Some(Seq::empty()),
            VfsError::PermissionDenied => Some(Seq::empty()),
            VfsError::InvalidInput(msg) => Some(msg@),
            VfsError::IoError(_) => None,
            VfsError::Other(msg) => Some(msg@),
        }
    }

    /// The negated error number for the guest.
    pub fn errno(&self) -> (r: i64)
        ensures
            r == self.spec_errno(),
    {
        match self {
            VfsError::NotFound => -(ENOENT as i64),
            VfsError::PermissionDenied => -(EACCES as i64),
            _ => -(EIO as i64),
        }
    }

    /// The error in words: the fixed words of its kind, then its detail. For
    /// an I/O error the detail is the operating system's text.
    pub fn message(&self) -> (r: String)
        ensures
            self.message_prefix().is_prefix_of(r@),
            self.message_detail() matches Some(detail) ==> r@ == self.message_prefix() + detail,
    {
        match self {
            VfsError::NotFound => {
                let r = String::from_str("Not found");
                assert(r@ =~= "Not found"@ + Seq::<char>::empty());
                r
            },
            VfsError::PermissionDenied => {
                let r = String::from_str("Permission denied");
                assert(r@ =~= "Permission denied"@ + Seq::<char>::empty());
                r
            },
            VfsError::InvalidInput(msg) => {
                let mut r = String::from_str("Invalid input: ");
                r.append(msg.as_str());
                r
            },
            VfsError::IoError(err) => {
                let mut r = String::from_str("IO error: ");
                let text = io_error_text(err);
                r.append(text.as_str());
                r
            },
            VfsError::Other(msg) => {
                let r = msg.clone();
                assert(r@ =~= Seq::<char>::empty() + msg@);
                r
            },
        }
    }
}

} // verus!
