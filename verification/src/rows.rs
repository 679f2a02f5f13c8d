//! Rows as the backing database hands them out: lists of values of the
//! database's own types, decoded into the rows of the four tables.

use crate::bytes::{copy_of, low_bits, low_i32, to_u32, wrap_u32};
use crate::store::{Chunk, Dentry, Inode, Symlink};
use vstd::prelude::*;

verus! {

/// A value of a column.
#[derive(Debug)]
pub enum SqlValue {
    Null,
    Integer(i64),
    /// A floating-point number. No column of the tables holds one.
    Real,
    Text(String),
    Blob(Vec<u8>),
}

/// The integer in column `idx` of a row; none where the row has no such
/// column or the column holds no integer.
pub open spec fn integer_at(row: Seq<SqlValue>, idx: int) -> Option<i64> {
    if 0 <= idx < row.len() {
        match row[idx] {
            SqlValue::Integer(n) => Some(n),
            _ => None,
        }
    } else {
        None
    }
}

/// The integer in column `idx`, and 0 where there is none.
pub open spec fn integer_or_zero(row: Seq<SqlValue>, idx: int) -> i64 {
    match integer_at(row, idx) {
        Some(n) => n,
        None => 0,
    }
}

/// The low 32 bits of a number, read as an unsigned one.
pub open spec fn low_u32(n: i64) -> u32 {
    wrap_u32(low_i32(n))
}

/// The text in column `idx` of a row.
pub open spec fn text_at(row: Seq<SqlValue>, idx: int) -> Option<Seq<char>> {
    if 0 <= idx < row.len() {
        match row[idx] {
            SqlValue::Text(t) => Some(t@),
            _ => None,
        }
    } else {
        None
    }
}

/// The bytes in column `idx` of a row: those of a blob, or those of a text
/// in UTF-8.
pub open spec fn bytes_at(row: Seq<SqlValue>, idx: int) -> Option<Seq<u8>> {
    if 0 <= idx < row.len() {
        match row[idx] {
            SqlValue::Blob(b) => Some(b@),
            SqlValue::Text(t) => Some(vstd::utf8::encode_utf8(t@)),
            _ => None,
        }
    } else {
        None
    }
}

/// The integer in column `idx` of a row.
pub fn column_integer(row: &Vec<SqlValue>, idx: usize) -> (r: Option<i64>)
    ensures
        r == integer_at(row@, idx as int),
{
    if idx < row.len() {
        match &row[idx] {
            SqlValue::Integer(n) => Some(*n),
            _ => None,
        }
    } else {
        None
    }
}

/// The integer in column `idx`, and 0 where there is none.
pub fn column_or_zero(row: &Vec<SqlValue>, idx: usize) -> (r: i64)
    ensures
        r == integer_or_zero(row@, idx as int),
{
    match column_integer(row, idx) {
        Some(n) => n,
        None => 0,
    }
}

/// The inode row in a row of the columns `ino`, `mode`, `uid`, `gid`,
/// `size`, `atime`, `mtime`, `ctime`. A column that is missing or holds no
/// integer counts as 0; mode, user and group are cut to 32 bits.
pub fn decode_inode(row: &Vec<SqlValue>) -> (r: Inode)
    ensures
        r == (Inode {
            ino: integer_or_zero(row@, 0),
            mode: low_u32(integer_or_zero(row@, 1)),
            uid: low_u32(integer_or_zero(row@, 2)),
            gid: low_u32(integer_or_zero(row@, 3)),
            size: integer_or_zero(row@, 4),
            atime: integer_or_zero(row@, 5),
            mtime: integer_or_zero(row@, 6),
            ctime: integer_or_zero(row@, 7),
        }),
{
    Inode {
        ino: column_or_zero(row, 0),
        mode: to_u32(low_bits(column_or_zero(row, 1))),
        uid: to_u32(low_bits(column_or_zero(row, 2))),
        gid: to_u32(low_bits(column_or_zero(row, 3))),
        size: column_or_zero(row, 4),
        atime: column_or_zero(row, 5),
        mtime: column_or_zero(row, 6),
        ctime: column_or_zero(row, 7),
    }
}

/// The directory entry in a row of the columns `name`, `parent_ino`, `ino`.
/// A name that is missing or no text counts as empty, a number as 0.
pub fn decode_dentry(row: &Vec<SqlValue>) -> (r: Dentry)
    ensures
        r.name@ == match text_at(row@, 0) {
            Some(t) => t,
            None => Seq::empty(),
        },
        r.parent_ino == integer_or_zero(row@, 1),
        r.ino == integer_or_zero(row@, 2),
{
    let name = if 0 < row.len() {
        match &row[0] {
            SqlValue::Text(t) => t.clone(),
            _ => String::new(),
        }
    } else {
        String::new()
    };
    Dentry { name, parent_ino: column_or_zero(row, 1), ino: column_or_zero(row, 2) }
}

/// The chunk in a row of the columns `ino`, `offset`, `data`; none where
/// a number is missing or the data is neither blob nor text.
pub fn decode_chunk(row: &Vec<SqlValue>) -> (r: Option<Chunk>)
    ensures
        match (integer_at(row@, 0), integer_at(row@, 1), bytes_at(row@, 2)) {
            (Some(ino), Some(offset), Some(data)) => r is Some && r->0.ino == ino && r->0.offset
                == offset && r->0.data@ == data,
            _ => r is None,
        },
{
    let ino = match column_integer(row, 0) {
        Some(n) => n,
        None => {
            return None;
        },
    };
    let offset = match column_integer(row, 1) {
        Some(n) => n,
        None => {
            return None;
        },
    };
    if 2 >= row.len() {
        return None;
    }
    let data = match &row[2] {
        SqlValue::Blob(b) => copy_of(b.as_slice()),
        SqlValue::Text(t) => copy_of(t.as_str().as_bytes()),
        _ => {
            return None;
        },
    };
    Some(Chunk { ino, offset, data })
}

/// The symlink row in a row of the columns `ino`, `target`; none where the
/// target is no text. A number that is missing counts as 0.
pub fn decode_symlink(row: &Vec<SqlValue>) -> (r: Option<Symlink>)
    ensures
        match text_at(row@, 1) {
            Some(t) => r is Some && r->0.ino == integer_or_zero(row@, 0) && r->0.target@ == t,
            None => r is None,
        },
{
    if 1 >= row.len() {
        return None;
    }
    match &row[1] {
        SqlValue::Text(t) => Some(Symlink { ino: column_or_zero(row, 0), target: t.clone() }),
        _ => None,
    }
}

} // verus!
