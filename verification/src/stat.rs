//! The kernel's `stat` record as the guest reads it on Linux x86-64.

use crate::bytes::{append, append_zeros, to_u64, wrap_u64};
use crate::store::Inode;
use vstd::bytes::{spec_u32_to_le_bytes, spec_u64_to_le_bytes, u32_to_le_bytes, u64_to_le_bytes};
use vstd::prelude::*;

verus! {

/// The block size that every virtual file reports.
pub const BLOCK_SIZE: i64 = 4096;

/// The fields of the kernel's `stat` record.
#[derive(Debug, Clone, Copy, PartialEq, Eq, Structural)]
pub struct Stat {
    pub st_dev: u64,
    pub st_ino: u64,
    pub st_nlink: u64,
    pub st_mode: u32,
    pub st_uid: u32,
    pub st_gid: u32,
    pub st_rdev: u64,
    pub st_size: i64,
    pub st_blksize: i64,
    pub st_blocks: i64,
    pub st_atime: i64,
    pub st_atime_nsec: i64,
    pub st_mtime: i64,
    pub st_mtime_nsec: i64,
    pub st_ctime: i64,
    pub st_ctime_nsec: i64,
}

/// The number of 512-byte blocks that `size` bytes take, rounded up; the
/// quotient is cut towards zero.
pub open spec fn blocks_for(size: i64) -> i64 {
    let padded = size + 511;
    if padded >= 0 {
        (padded / 512) as i64
    } else {
        (-((-padded) / 512)) as i64
    }
}

/// The record for inode `ino` with row `row`: one link, blocks of 4096
/// bytes, the times in whole seconds.
pub open spec fn stat_of(ino: i64, row: Inode) -> Stat {
    Stat {
        st_dev: 0,
        st_ino: wrap_u64(ino),
        st_nlink: 1,
        st_mode: row.mode,
        st_uid: row.uid,
        st_gid: row.gid,
        st_rdev: 0,
        st_size: row.size,
        st_blksize: BLOCK_SIZE,
        st_blocks: blocks_for(row.size),
        st_atime: row.atime,
        st_atime_nsec: 0,
        st_mtime: row.mtime,
        st_mtime_nsec: 0,
        st_ctime: row.ctime,
        st_ctime_nsec: 0,
    }
}

/// The eight bytes of a signed 64-bit number, least significant first.
pub open spec fn i64_bytes(x: i64) -> Seq<u8> {
    spec_u64_to_le_bytes(wrap_u64(x))
}

/// The record for inode `ino` with row `row`.
pub fn stat_from_inode(ino: i64, row: &Inode) -> (r: Stat)
    ensures
        r == stat_of(ino, *row),
{
    let padded: i128 = (row.size as i128) + 511;
    let blocks: i128 = if padded >= 0 {
        padded / 512
    } else {
        -((-padded) / 512)
    };
    Stat {
        st_dev: 0,
        st_ino: to_u64(ino),
        st_nlink: 1,
        st_mode: row.mode,
        st_uid: row.uid,
        st_gid: row.gid,
        st_rdev: 0,
        st_size: row.size,
        st_blksize: BLOCK_SIZE,
        st_blocks: blocks as i64,
        st_atime: row.atime,
        st_atime_nsec: 0,
        st_mtime: row.mtime,
        st_mtime_nsec: 0,
        st_ctime: row.ctime,
        st_ctime_nsec: 0,
    }
}

impl Stat {
    /// The 144 bytes of the record: the fields in the kernel's order, each
    /// least significant byte first, four bytes of padding behind the group
    /// id and 24 unused bytes at the end.
    pub open spec fn spec_bytes(self) -> Seq<u8> {
        spec_u64_to_le_bytes(self.st_dev) + spec_u64_to_le_bytes(self.st_ino)
            + spec_u64_to_le_bytes(self.st_nlink) + spec_u32_to_le_bytes(self.st_mode)
            + spec_u32_to_le_bytes(self.st_uid) + spec_u32_to_le_bytes(self.st_gid) + Seq::new(
            4,
            |i: int| 0u8,
        ) + spec_u64_to_le_bytes(self.st_rdev) + i64_bytes(self.st_size) + i64_bytes(
            self.st_blksize,
        ) + i64_bytes(self.st_blocks) + i64_bytes(self.st_atime) + i64_bytes(self.st_atime_nsec)
            + i64_bytes(self.st_mtime) + i64_bytes(self.st_mtime_nsec) + i64_bytes(self.st_ctime)
            + i64_bytes(self.st_ctime_nsec) + Seq::new(24, |i: int| 0u8)
    }

    /// The record is 144 bytes long.
    pub proof fn lemma_size(self)
        ensures
            self.spec_bytes().len() == crate::abi::STAT_SIZE,
    {
        vstd::bytes::lemma_auto_spec_u64_to_from_le_bytes();
        vstd::bytes::lemma_auto_spec_u32_to_from_le_bytes();
    }

    /// The bytes of the record as the guest reads them.
    pub fn to_bytes(&self) -> (r: Vec<u8>)
        ensures
            r@ == self.spec_bytes(),
            r@.len() == crate::abi::STAT_SIZE,
    {
        let mut out: Vec<u8> = Vec::new();
        append(&mut out, u64_to_le_bytes(self.st_dev).as_slice());
        append(&mut out, u64_to_le_bytes(self.st_ino).as_slice());
        append(&mut out, u64_to_le_bytes(self.st_nlink).as_slice());
        append(&mut out, u32_to_le_bytes(self.st_mode).as_slice());
        append(&mut out, u32_to_le_bytes(self.st_uid).as_slice());
        append(&mut out, u32_to_le_bytes(self.st_gid).as_slice());
        append_zeros(&mut out, 4);
        append(&mut out, u64_to_le_bytes(self.st_rdev).as_slice());
        append(&mut out, u64_to_le_bytes(to_u64(self.st_size)).as_slice());
        append(&mut out, u64_to_le_bytes(to_u64(self.st_blksize)).as_slice());
        append(&mut out, u64_to_le_bytes(to_u64(self.st_blocks)).as_slice());
        append(&mut out, u64_to_le_bytes(to_u64(self.st_atime)).as_slice());
        append(&mut out, u64_to_le_bytes(to_u64(self.st_atime_nsec)).as_slice());
        append(&mut out, u64_to_le_bytes(to_u64(self.st_mtime)).as_slice());
        append(&mut out, u64_to_le_bytes(to_u64(self.st_mtime_nsec)).as_slice());
        append(&mut out, u64_to_le_bytes(to_u64(self.st_ctime)).as_slice());
        append(&mut out, u64_to_le_bytes(to_u64(self.st_ctime_nsec)).as_slice());
        append_zeros(&mut out, 24);
        proof {
            self.lemma_size();
            assert(out@ =~= self.spec_bytes());
        }
        out
    }
}

} // verus!
