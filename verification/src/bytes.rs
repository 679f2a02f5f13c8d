//! Byte buffers.

use vstd::prelude::*;

verus! {

/// A copy of the bytes of `data`.
pub fn copy_of(data: &[u8]) -> (r: Vec<u8>)
    ensures
        r@ == data@,
{
    let mut r: Vec<u8> = Vec::new();
    let mut i: usize = 0;
    while i < data.len()
        invariant
            i <= data@.len(),
            r@ == data@.take(i as int),
        decreases data.len() - i,
    {
        r.push(data[i]);
        i += 1;
    }
    assert(data@.take(data@.len() as int) =~= data@);
    r
}

/// The 64 bits of a signed number read as an unsigned one.
pub open spec fn wrap_u64(x: i64) -> u64 {
    if x >= 0 {
        x as u64
    } else {
        (x + 0x1_0000_0000_0000_0000) as u64
    }
}

/// The 64 bits of a signed number read as an unsigned one.
pub fn to_u64(x: i64) -> (r: u64)
    ensures
        r == wrap_u64(x),
{
    if x >= 0 {
        x as u64
    } else {
        ((x as i128) + 0x1_0000_0000_0000_0000) as u64
    }
}

/// The 32 bits of a signed number read as an unsigned one.
pub open spec fn wrap_u32(x: i32) -> u32 {
    if x >= 0 {
        x as u32
    } else {
        (x + 0x1_0000_0000) as u32
    }
}

/// The 32 bits of a signed number read as an unsigned one.
pub fn to_u32(x: i32) -> (r: u32)
    ensures
        r == wrap_u32(x),
{
    if x >= 0 {
        x as u32
    } else {
        ((x as i64) + 0x1_0000_0000) as u32
    }
}

/// Appends the bytes of `more` to `out`.
pub fn append(out: &mut Vec<u8>, more: &[u8])
    ensures
        final(out)@ == old(out)@ + more@,
{
    let mut i: usize = 0;
    assert(more@.take(0) =~= Seq::<u8>::empty());
    assert(out@ =~= old(out)@ + more@.take(0));
    while i < more.len()
        invariant
            i <= more@.len(),
            out@ == old(out)@ + more@.take(i as int),
        decreases more.len() - i,
    {
        out.push(more[i]);
        assert(more@.take(i + 1) =~= more@.take(i as int).push(more@[i as int]));
        assert(out@ =~= old(out)@ + more@.take(i + 1));
        i += 1;
    }
    assert(more@.take(more@.len() as int) =~= more@);
}

/// Appends `n` zero bytes to `out`.
pub fn append_zeros(out: &mut Vec<u8>, n: usize)
    ensures
        final(out)@ == old(out)@ + Seq::new(n as nat, |i: int| 0u8),
{
    let mut i: usize = 0;
    assert(out@ =~= old(out)@ + Seq::new(0, |i: int| 0u8));
    while i < n
        invariant
            i <= n,
            out@ == old(out)@ + Seq::new(i as nat, |i: int| 0u8),
        decreases n - i,
    {
        out.push(0);
        assert(out@ =~= old(out)@ + Seq::new((i + 1) as nat, |i: int| 0u8));
        i += 1;
    }
}

/// A copy of the bytes of `data` from position `from` up to, not
/// including, `to`.
pub fn copy_range(data: &[u8], from: usize, to: usize) -> (r: Vec<u8>)
    requires
        from <= to <= data@.len(),
    ensures
        r@ == data@.subrange(from as int, to as int),
{
    let mut r: Vec<u8> = Vec::new();
    let mut i: usize = from;
    while i < to
        invariant
            from <= i <= to,
            to <= data@.len(),
            r@ == data@.subrange(from as int, i as int),
        decreases to - i,
    {
        r.push(data[i]);
        assert(data@.subrange(from as int, i + 1) =~= data@.subrange(from as int, i as int).push(
            data@[i as int],
        ));
        i += 1;
    }
    r
}

/// The low 32 bits of `arg`, read as a signed number.
pub open spec fn low_i32(arg: i64) -> i32 {
    let m = arg as int % 0x1_0000_0000;
    if m >= 0x8000_0000 {
        (m - 0x1_0000_0000) as i32
    } else {
        m as i32
    }
}

/// The low 32 bits of `arg`, read as a signed number.
pub fn low_bits(arg: i64) -> (r: i32)
    ensures
        r == low_i32(arg),
{
    let wide: i128 = arg as i128;
    let m: i128 = if wide >= 0 {
        wide % 0x1_0000_0000
    } else {
        let back = (-wide) % 0x1_0000_0000;
        if back == 0 {
            0
        } else {
            0x1_0000_0000 - back
        }
    };
    assert(m == arg as int % 0x1_0000_0000) by (nonlinear_arith)
        requires
            wide == arg,
            m == if wide >= 0 {
                wide as int % 0x1_0000_0000
            } else if (-wide) as int % 0x1_0000_0000 == 0 {
                0
            } else {
                0x1_0000_0000 - (-wide) as int % 0x1_0000_0000
            },
    ;
    if m >= 0x8000_0000 {
        (m - 0x1_0000_0000) as i32
    } else {
        m as i32
    }
}

} // verus!
