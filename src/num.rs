//! Primitive readers over a byte buffer and a cursor: single bytes, little-endian 32-bit
//! integers and ITF-8 variable-length integers.
use vstd::prelude::*;

use crate::error::Error;

verus! {

/// The byte at `pos` and the position after it.
pub open spec fn byte_at(src: Seq<u8>, pos: int) -> Result<(u8, int), Error> {
    if 0 <= pos < src.len() {
        Ok((src[pos], pos + 1))
    } else {
        Err(Error::UnexpectedEof)
    }
}

/// The little-endian unsigned 32-bit integer at `pos` and the position after it.
pub open spec fn u32_le_at(src: Seq<u8>, pos: int) -> Result<(u32, int), Error> {
    if 0 <= pos && pos + 4 <= src.len() {
        Ok(
            ((src[pos] as int + src[pos + 1] as int * 0x100 + src[pos + 2] as int * 0x1_0000
                + src[pos + 3] as int * 0x100_0000) as u32, pos + 4),
        )
    } else {
        Err(Error::UnexpectedEof)
    }
}

/// The number of bytes of an ITF-8 integer whose first byte is `b0`.
pub open spec fn itf8_len(b0: u8) -> int {
    if b0 < 0x80 {
        1
    } else if b0 < 0xc0 {
        2
    } else if b0 < 0xe0 {
        3
    } else if b0 < 0xf0 {
        4
    } else {
        5
    }
}

/// The 32 bits of the ITF-8 integer whose bytes start at `pos`.
pub open spec fn itf8_bits(src: Seq<u8>, pos: int) -> int {
    let b0 = src[pos] as int;
    if b0 < 0x80 {
        b0
    } else if b0 < 0xc0 {
        (b0 - 0x80) * 0x100 + src[pos + 1] as int
    } else if b0 < 0xe0 {
        (b0 - 0xc0) * 0x1_0000 + src[pos + 1] as int * 0x100 + src[pos + 2] as int
    } else if b0 < 0xf0 {
        (b0 - 0xe0) * 0x100_0000 + src[pos + 1] as int * 0x1_0000 + src[pos + 2] as int * 0x100
            + src[pos + 3] as int
    } else {
        (b0 - 0xf0) * 0x1000_0000 + src[pos + 1] as int * 0x10_0000 + src[pos + 2] as int
            * 0x1000 + src[pos + 3] as int * 0x10 + src[pos + 4] as int % 0x10
    }
}

/// The ITF-8 integer at `pos`, as its 32 bits, and the position after it.
pub open spec fn itf8_at(src: Seq<u8>, pos: int) -> Result<(u32, int), Error> {
    if 0 <= pos < src.len() && pos + itf8_len(src[pos]) <= src.len() {
        Ok((itf8_bits(src, pos) as u32, pos + itf8_len(src[pos])))
    } else {
        Err(Error::UnexpectedEof)
    }
}

/// The ITF-8 integer at `pos` read as a `u16`: values that are negative as 32-bit signed
/// integers or above `u16::MAX` are invalid.
pub open spec fn itf8_u16_at(src: Seq<u8>, pos: int) -> Result<(u16, int), Error> {
    match itf8_at(src, pos) {
        Err(e) => Err(e),
        Ok((n, p)) => if n <= u16::MAX {
            Ok((n as u16, p))
        } else {
            Err(Error::InvalidData)
        },
    }
}

/// Reads one byte and advances the cursor.
pub fn read_u8(src: &[u8], pos: &mut usize) -> (r: Result<u8, Error>)
    ensures
        match byte_at(src@, *old(pos) as int) {
            Ok((b, p)) => r == Ok::<u8, Error>(b) && *final(pos) == p,
            Err(e) => r == Err::<u8, Error>(e) && *final(pos) == *old(pos),
        },
{
    if *pos < src.len() {
        let b = src[*pos];
        *pos = *pos + 1;
        Ok(b)
    } else {
        Err(Error::UnexpectedEof)
    }
}

/// Reads a little-endian unsigned 32-bit integer and advances the cursor.
pub fn read_u32_le(src: &[u8], pos: &mut usize) -> (r: Result<u32, Error>)
    ensures
        match u32_le_at(src@, *old(pos) as int) {
            Ok((n, p)) => r == Ok::<u32, Error>(n) && *final(pos) == p,
            Err(e) => r == Err::<u32, Error>(e) && *final(pos) == *old(pos),
        },
{
    if *pos <= src.len() && src.len() - *pos >= 4 {
        let p: usize = *pos;
        let n: u32 = src[p] as u32 + src[p + 1] as u32 * 0x100 + src[p + 2] as u32 * 0x1_0000
            + src[p + 3] as u32 * 0x100_0000;
        *pos = p + 4;
        Ok(n)
    } else {
        Err(Error::UnexpectedEof)
    }
}

/// Reads an ITF-8 integer, returned as its 32 bits, and advances the cursor.
pub fn read_itf8(src: &[u8], pos: &mut usize) -> (r: Result<u32, Error>)
    ensures
        match itf8_at(src@, *old(pos) as int) {
            Ok((n, p)) => r == Ok::<u32, Error>(n) && *final(pos) == p,
            Err(e) => r == Err::<u32, Error>(e) && *final(pos) == *old(pos),
        },
{
    let p: usize = *pos;
    if p >= src.len() {
        return Err(Error::UnexpectedEof);
    }
    let b0: u8 = src[p];
    let avail: usize = src.len() - p;
    if b0 < 0x80 {
        *pos = p + 1;
        Ok(b0 as u32)
    } else if b0 < 0xc0 {
        if avail < 2 {
            return Err(Error::UnexpectedEof);
        }
        *pos = p + 2;
        Ok((b0 as u32 - 0x80) * 0x100 + src[p + 1] as u32)
    } else if b0 < 0xe0 {
        if avail < 3 {
            return Err(Error::UnexpectedEof);
        }
        *pos = p + 3;
        Ok((b0 as u32 - 0xc0) * 0x1_0000 + src[p + 1] as u32 * 0x100 + src[p + 2] as u32)
    } else if b0 < 0xf0 {
        if avail < 4 {
            return Err(Error::UnexpectedEof);
        }
        *pos = p + 4;
        Ok(
            (b0 as u32 - 0xe0) * 0x100_0000 + src[p + 1] as u32 * 0x1_0000 + src[p + 2] as u32
                * 0x100 + src[p + 3] as u32,
        )
    } else {
        if avail < 5 {
            return Err(Error::UnexpectedEof);
        }
        *pos = p + 5;
        Ok(
            (b0 as u32 - 0xf0) * 0x1000_0000 + src[p + 1] as u32 * 0x10_0000 + src[p + 2] as u32
                * 0x1000 + src[p + 3] as u32 * 0x10 + src[p + 4] as u32 % 0x10,
        )
    }
}

/// Reads an ITF-8 integer that must fit in a `u16`, and advances the cursor.
pub fn read_itf8_as_u16(src: &[u8], pos: &mut usize) -> (r: Result<u16, Error>)
    ensures
        match itf8_u16_at(src@, *old(pos) as int) {
            Ok((n, p)) => r == Ok::<u16, Error>(n) && *final(pos) == p,
            Err(e) => r == Err::<u16, Error>(e),
        },
{
    let n: u32 = read_itf8(src, pos)?;
    if n <= 0xffff {
        Ok(n as u16)
    } else {
        Err(Error::InvalidData)
    }
}

/// `256` to the power `n`.
pub open spec fn pow256(n: int) -> int
    decreases n,
{
    if n <= 0 {
        1
    } else {
        256 * pow256(n - 1)
    }
}

/// The big-endian value of the `n` bytes at `pos`.
pub open spec fn be_value(src: Seq<u8>, pos: int, n: int) -> int
    decreases n,
{
    if n <= 0 {
        0
    } else {
        be_value(src, pos, n - 1) * 256 + src[pos + n - 1]
    }
}

/// The number of bytes that follow the first byte `b0` of an LTF-8 integer: its leading ones.
pub open spec fn ltf8_extra(b0: u8) -> int {
    if b0 < 0x80 {
        0
    } else if b0 < 0xc0 {
        1
    } else if b0 < 0xe0 {
        2
    } else if b0 < 0xf0 {
        3
    } else if b0 < 0xf8 {
        4
    } else if b0 < 0xfc {
        5
    } else if b0 < 0xfe {
        6
    } else if b0 < 0xff {
        7
    } else {
        8
    }
}

/// How many values the bits of the first byte that follow its leading ones can take.
pub open spec fn ltf8_head_range(n: int) -> int {
    if n == 0 {
        128
    } else if n == 1 {
        64
    } else if n == 2 {
        32
    } else if n == 3 {
        16
    } else if n == 4 {
        8
    } else if n == 5 {
        4
    } else if n == 6 {
        2
    } else {
        1
    }
}

/// The 64 bits of the LTF-8 integer at `pos` and the position after it.
pub open spec fn ltf8_at(src: Seq<u8>, pos: int) -> Result<(u64, int), Error> {
    if 0 <= pos < src.len() && pos + 1 + ltf8_extra(src[pos]) <= src.len() {
        let n = ltf8_extra(src[pos]);
        Ok(
            (((src[pos] as int % ltf8_head_range(n)) * pow256(n) + be_value(src, pos + 1, n)) as u64, pos
                + 1 + n),
        )
    } else {
        Err(Error::UnexpectedEof)
    }
}

/// A big-endian value of `n` bytes is below `256^n`.
proof fn lemma_be_value_bound(src: Seq<u8>, pos: int, n: int)
    requires
        0 <= n,
    ensures
        0 <= be_value(src, pos, n) < pow256(n),
    decreases n,
{
    if n > 0 {
        lemma_be_value_bound(src, pos, n - 1);
    }
}

/// Reads an LTF-8 integer, returned as its 64 bits, and advances the cursor.
pub fn read_ltf8(src: &[u8], pos: &mut usize) -> (r: Result<u64, Error>)
    ensures
        match ltf8_at(src@, *old(pos) as int) {
            Ok((n, p)) => r == Ok::<u64, Error>(n) && *final(pos) == p,
            Err(e) => r == Err::<u64, Error>(e) && *final(pos) == *old(pos),
        },
{
    let p: usize = *pos;
    if p >= src.len() {
        return Err(Error::UnexpectedEof);
    }
    let b0: u8 = src[p];
    let (n, head_range): (usize, u8) = if b0 < 0x80 {
        (0, 128)
    } else if b0 < 0xc0 {
        (1, 64)
    } else if b0 < 0xe0 {
        (2, 32)
    } else if b0 < 0xf0 {
        (3, 16)
    } else if b0 < 0xf8 {
        (4, 8)
    } else if b0 < 0xfc {
        (5, 4)
    } else if b0 < 0xfe {
        (6, 2)
    } else if b0 < 0xff {
        (7, 1)
    } else {
        (8, 1)
    };
    if src.len() - p - 1 < n {
        return Err(Error::UnexpectedEof);
    }
    let head: u8 = b0 % head_range;
    let mut v: u128 = head as u128;
    let mut i: usize = 0;
    let base: usize = p + 1;
    proof {
        assert(pow256(0) == 1);
        assert(be_value(src@, p + 1, 0) == 0);
        assert(v == head * pow256(0) + be_value(src@, p + 1, 0));
        assert(pow256(9) == 0x1_0000_0000_0000_0000_00) by {
            reveal_with_fuel(pow256, 10);
        }
    }
    while i < n
        invariant
            n == ltf8_extra(b0),
            head_range == ltf8_head_range(n as int),
            head < head_range,
            b0 == src@[p as int],
            p < src@.len(),
            base == p + 1,
            base + n <= src.len(),
            p + 1 + n <= src@.len(),
            i <= n <= 8,
            v == head * pow256(i as int) + be_value(src@, p + 1, i as int),
            pow256(9) == 0x1_0000_0000_0000_0000_00,
        decreases n - i,
    {
        proof {
            lemma_be_value_bound(src@, p + 1, i as int);
            lemma_pow256_monotone(i as int + 1, 8);
            let pw = pow256(i as int);
            assert(head * pw <= 255 * pw) by (nonlinear_arith)
                requires
                    head < 256,
                    pw >= 0,
            ;
        }
        let b: u8 = src[base + i];
        proof {
            let pw = pow256(i as int);
            let bv = be_value(src@, p + 1, i as int);
            assert((head * pw + bv) * 256 + b == head * (256 * pw) + (bv * 256 + b)) by (nonlinear_arith);
        }
        v = v * 256 + b as u128;
        i = i + 1;
    }
    proof {
        lemma_be_value_bound(src@, p + 1, n as int);
        lemma_ltf8_fits(head as int, head_range as int, n as int, be_value(src@, p + 1, n as int));
    }
    *pos = p + 1 + n;
    Ok(v as u64)
}

/// Powers of 256 grow with the exponent.
proof fn lemma_pow256_monotone(i: int, j: int)
    requires
        0 <= i <= j,
    ensures
        1 <= pow256(i) <= pow256(j),
    decreases j,
{
    if j > 0 {
        if i <= j - 1 {
            lemma_pow256_monotone(i, j - 1);
        } else {
            lemma_pow256_monotone(0, j - 1);
        }
    }
}

/// An LTF-8 value fits in 64 bits.
proof fn lemma_ltf8_fits(head: int, head_range: int, n: int, tail: int)
    requires
        0 <= n <= 8,
        head_range == ltf8_head_range(n),
        0 <= head < head_range,
        0 <= tail < pow256(n),
    ensures
        0 <= head * pow256(n) + tail < 0x1_0000_0000_0000_0000,
{
    let pw = pow256(n);
    assert(head_range * pw <= 0x1_0000_0000_0000_0000) by {
        reveal_with_fuel(pow256, 9);
    }
    lemma_pow256_monotone(0, n);
    assert(head * pw + tail < head_range * pw) by (nonlinear_arith)
        requires
            head < head_range,
            tail < pw,
            head >= 0,
            pw >= 1,
    {
        assert(head * pw <= (head_range - 1) * pw);
    }
    assert(head * pw >= 0) by (nonlinear_arith)
        requires
            head >= 0,
            pw >= 1,
    {
    }
    lemma_pow256_monotone(0, n);
}

/// Appends `src[from..to]` to `out`.
pub fn extend_from(out: &mut Vec<u8>, src: &[u8], from: usize, to: usize)
    requires
        from <= to <= src@.len(),
    ensures
        final(out)@ == old(out)@ + src@.subrange(from as int, to as int),
{
    let mut i: usize = from;
    while i < to
        invariant
            from <= i <= to <= src@.len(),
            out@ == old(out)@ + src@.subrange(from as int, i as int),
        decreases to - i,
    {
        out.push(src[i]);
        proof {
            assert(src@.subrange(from as int, i + 1) =~= src@.subrange(from as int, i as int).push(src@[i as int]));
        }
        i = i + 1;
    }
}

} // verus!
