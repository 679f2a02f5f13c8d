//! Directory entries in the record format of `getdents64`.

use crate::bytes::{append, append_zeros, to_u64, wrap_u64};
use vstd::bytes::{spec_u16_to_le_bytes, spec_u64_to_le_bytes, u16_to_le_bytes, u64_to_le_bytes};
use vstd::prelude::*;
use vstd::string::StringSliceAdditionalSpecFns;

verus! {

/// The bytes of a record before the name: inode, offset, record length and
/// type.
pub const DIRENT_HEADER: usize = 19;

/// A directory entry: inode number, name and type.
pub struct DirEntryView {
    pub ino: u64,
    pub name: Seq<u8>,
    pub d_type: u8,
}

/// The entries as values of the model, names as their bytes.
pub open spec fn dir_entry_views(entries: Seq<(u64, String, u8)>) -> Seq<DirEntryView> {
    entries.map_values(
        |e: (u64, String, u8)|
            DirEntryView { ino: e.0, name: vstd::utf8::encode_utf8(e.1@), d_type: e.2 },
    )
}

/// The length of the record of a name of `name_len` bytes: header, name and
/// a zero byte, rounded up to a multiple of eight.
pub open spec fn record_len(name_len: nat) -> nat {
    (((DIRENT_HEADER + name_len + 1 + 7) / 8) * 8) as nat
}

/// The record of entry `e`, which is entry number `off` counted from 1:
/// inode, `off`, record length, type, the name, a zero byte, and zero bytes
/// up to the record length.
pub open spec fn record(e: DirEntryView, off: int) -> Seq<u8> {
    let len = record_len(e.name.len());
    spec_u64_to_le_bytes(e.ino) + spec_u64_to_le_bytes(off as u64) + spec_u16_to_le_bytes(
        (len % 0x10000) as u16,
    ) + seq![e.d_type] + e.name + Seq::new(
        (len - DIRENT_HEADER - e.name.len()) as nat,
        |i: int| 0u8,
    )
}

/// The records of the entries from number `k` on, as many as fit into what
/// is left of a buffer of `count` bytes of which `used` are taken: the
/// first record that does not fit ends the listing.
pub open spec fn records_from(entries: Seq<DirEntryView>, count: int, k: int, used: int) -> Seq<u8>
    decreases entries.len() - k,
{
    if k < 0 || k >= entries.len() {
        Seq::empty()
    } else {
        let len = record_len(entries[k].name.len());
        if used + len > count {
            Seq::empty()
        } else {
            record(entries[k], k + 1) + records_from(entries, count, k + 1, used + len)
        }
    }
}

/// What `getdents64` writes for the entries into a buffer of `count` bytes.
pub open spec fn dirents(entries: Seq<DirEntryView>, count: int) -> Seq<u8> {
    records_from(entries, count, 0, 0)
}

/// A record is as long as its record length says.
pub proof fn lemma_record_len(e: DirEntryView, off: int)
    ensures
        record(e, off).len() == record_len(e.name.len()),
        record_len(e.name.len()) % 8 == 0,
        record_len(e.name.len()) >= DIRENT_HEADER + e.name.len() + 1,
{
    vstd::bytes::lemma_auto_spec_u64_to_from_le_bytes();
    vstd::bytes::lemma_auto_spec_u16_to_from_le_bytes();
}

/// The records of the entries that fit into a buffer of `count` bytes, in
/// the format of `getdents64`.
pub fn encode_dirents(entries: &Vec<(u64, String, u8)>, count: u32) -> (r: Vec<u8>)
    ensures
        r@ == dirents(dir_entry_views(entries@), count as int),
        r@.len() <= count,
{
    let ghost all = dir_entry_views(entries@);
    let mut buf: Vec<u8> = Vec::new();
    let mut i: usize = 0;
    assert(buf@ + records_from(all, count as int, 0, 0) =~= dirents(all, count as int));
    while i < entries.len()
        invariant
            i <= entries@.len(),
            all == dir_entry_views(entries@),
            buf@.len() <= count,
            dirents(all, count as int) == buf@ + records_from(
                all,
                count as int,
                i as int,
                buf@.len() as int,
            ),
        decreases entries.len() - i,
    {
        let ino = entries[i].0;
        let name = entries[i].1.as_str().as_bytes();
        let d_type = entries[i].2;
        let ghost e = all[i as int];
        assert(e == DirEntryView { ino, name: name@, d_type });
        proof {
            lemma_record_len(e, i + 1);
        }
        let room: usize = (count as usize) - buf.len();
        if name.len() > room {
            assert(records_from(all, count as int, i as int, buf@.len() as int) =~= Seq::<
                u8,
            >::empty());
            assert(buf@ + Seq::<u8>::empty() =~= buf@);
            return buf;
        }
        let wide: u64 = ((DIRENT_HEADER as u64 + name.len() as u64 + 1 + 7) / 8) * 8;
        if wide > room as u64 {
            assert(records_from(all, count as int, i as int, buf@.len() as int) =~= Seq::<
                u8,
            >::empty());
            assert(buf@ + Seq::<u8>::empty() =~= buf@);
            return buf;
        }
        let reclen: usize = wide as usize;
        let ghost before = buf@;
        append(&mut buf, u64_to_le_bytes(ino).as_slice());
        append(&mut buf, u64_to_le_bytes((i + 1) as u64).as_slice());
        append(&mut buf, u16_to_le_bytes((reclen % 0x10000) as u16).as_slice());
        buf.push(d_type);
        append(&mut buf, name);
        append_zeros(&mut buf, reclen - DIRENT_HEADER - name.len());
        proof {
            assert(buf@ =~= before + record(e, i + 1));
            assert(dirents(all, count as int) =~= buf@ + records_from(
                all,
                count as int,
                i + 1,
                buf@.len() as int,
            ));
        }
        i += 1;
    }
    assert(buf@ + Seq::<u8>::empty() =~= buf@);
    buf
}

} // verus!
