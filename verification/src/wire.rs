//! Fixed-width integers to and from wire bytes in either byte order.
use vstd::prelude::*;

use crate::Endianness;

verus! {

/// A sequence in reverse order.
pub open spec fn rev(s: Seq<u8>) -> Seq<u8> {
    Seq::new(s.len(), |i: int| s[s.len() - 1 - i])
}

pub proof fn lemma_rev_rev(s: Seq<u8>)
    ensures
        rev(rev(s)) == s,
{
    assert(rev(rev(s)) =~= s);
}

/// The two wire bytes of a `u16` in the given byte order.
pub open spec fn u16_bytes(e: Endianness, x: u16) -> Seq<u8> {
    match e {
        Endianness::Little => vstd::bytes::spec_u16_to_le_bytes(x),
        Endianness::Big => rev(vstd::bytes::spec_u16_to_le_bytes(x)),
    }
}

/// The `u16` read from two wire bytes in the given byte order.
pub open spec fn u16_val(e: Endianness, s: Seq<u8>) -> u16 {
    match e {
        Endianness::Little => vstd::bytes::spec_u16_from_le_bytes(s),
        Endianness::Big => vstd::bytes::spec_u16_from_le_bytes(rev(s)),
    }
}

/// The four wire bytes of a `u32` in the given byte order.
pub open spec fn u32_bytes(e: Endianness, x: u32) -> Seq<u8> {
    match e {
        Endianness::Little => vstd::bytes::spec_u32_to_le_bytes(x),
        Endianness::Big => rev(vstd::bytes::spec_u32_to_le_bytes(x)),
    }
}

/// The `u32` read from four wire bytes in the given byte order.
pub open spec fn u32_val(e: Endianness, s: Seq<u8>) -> u32 {
    match e {
        Endianness::Little => vstd::bytes::spec_u32_from_le_bytes(s),
        Endianness::Big => vstd::bytes::spec_u32_from_le_bytes(rev(s)),
    }
}

/// The eight wire bytes of a `u64` in the given byte order.
pub open spec fn u64_bytes(e: Endianness, x: u64) -> Seq<u8> {
    match e {
        Endianness::Little => vstd::bytes::spec_u64_to_le_bytes(x),
        Endianness::Big => rev(vstd::bytes::spec_u64_to_le_bytes(x)),
    }
}

/// The `u64` read from eight wire bytes in the given byte order.
pub open spec fn u64_val(e: Endianness, s: Seq<u8>) -> u64 {
    match e {
        Endianness::Little => vstd::bytes::spec_u64_from_le_bytes(s),
        Endianness::Big => vstd::bytes::spec_u64_from_le_bytes(rev(s)),
    }
}

/// Reading back the bytes this module writes yields the value written,
/// in both byte orders.
pub proof fn lemma_u16_round_trip(e: Endianness, x: u16)
    ensures
        u16_bytes(e, x).len() == 2,
        u16_val(e, u16_bytes(e, x)) == x,
{
    vstd::bytes::lemma_auto_spec_u16_to_from_le_bytes();
    if e is Big {
        lemma_rev_rev(vstd::bytes::spec_u16_to_le_bytes(x));
    }
}

/// Reading back the bytes this module writes yields the value written,
/// in both byte orders.
pub proof fn lemma_u32_round_trip(e: Endianness, x: u32)
    ensures
        u32_bytes(e, x).len() == 4,
        u32_val(e, u32_bytes(e, x)) == x,
{
    vstd::bytes::lemma_auto_spec_u32_to_from_le_bytes();
    if e is Big {
        lemma_rev_rev(vstd::bytes::spec_u32_to_le_bytes(x));
    }
}

/// Reading back the bytes this module writes yields the value written,
/// in both byte orders.
pub proof fn lemma_u64_round_trip(e: Endianness, x: u64)
    ensures
        u64_bytes(e, x).len() == 8,
        u64_val(e, u64_bytes(e, x)) == x,
{
    vstd::bytes::lemma_auto_spec_u64_to_from_le_bytes();
    if e is Big {
        lemma_rev_rev(vstd::bytes::spec_u64_to_le_bytes(x));
    }
}

/// The unsigned bit pattern that stands for a signed 16-bit value on the wire.
pub open spec fn i16_pat(x: i16) -> u16 {
    if x >= 0 {
        x as u16
    } else {
        (x + 0x1_0000) as u16
    }
}

/// The signed 16-bit value a wire bit pattern stands for.
pub open spec fn i16_of_pat(x: u16) -> i16 {
    if x < 0x8000 {
        x as i16
    } else {
        (x - 0x1_0000) as i16
    }
}

/// The unsigned bit pattern that stands for a signed 32-bit value on the wire.
pub open spec fn i32_pat(x: i32) -> u32 {
    if x >= 0 {
        x as u32
    } else {
        (x + 0x1_0000_0000) as u32
    }
}

/// The signed 32-bit value a wire bit pattern stands for.
pub open spec fn i32_of_pat(x: u32) -> i32 {
    if x < 0x8000_0000 {
        x as i32
    } else {
        (x - 0x1_0000_0000) as i32
    }
}

/// The unsigned bit pattern that stands for a signed 64-bit value on the wire.
pub open spec fn i64_pat(x: i64) -> u64 {
    if x >= 0 {
        x as u64
    } else {
        (x + 0x1_0000_0000_0000_0000) as u64
    }
}

/// The signed 64-bit value a wire bit pattern stands for.
pub open spec fn i64_of_pat(x: u64) -> i64 {
    if x < 0x8000_0000_0000_0000 {
        x as i64
    } else {
        (x - 0x1_0000_0000_0000_0000) as i64
    }
}

/// Reverse a byte vector.
pub fn rev_vec(v: &Vec<u8>) -> (r: Vec<u8>)
    ensures
        r@ == rev(v@),
{
    let mut r: Vec<u8> = Vec::new();
    let mut i: usize = v.len();
    while i > 0
        invariant
            i <= v@.len(),
            r@ == rev(v@).subrange(0, v@.len() - i),
        decreases i,
    {
        i = i - 1;
        r.push(v[i]);
        assert(r@ =~= rev(v@).subrange(0, v@.len() - i));
    }
    assert(r@ =~= rev(v@));
    r
}

/// Append the two wire bytes of a `u16` in the given byte order.
pub fn push_u16(buf: &mut Vec<u8>, e: Endianness, x: u16)
    ensures
        final(buf)@ == old(buf)@ + u16_bytes(e, x),
{
    let bs = vstd::bytes::u16_to_le_bytes(x);
    let bs = match e {
        Endianness::Little => bs,
        Endianness::Big => rev_vec(&bs),
    };
    proof {
        vstd::bytes::lemma_auto_spec_u16_to_from_le_bytes();
    }
    let mut i: usize = 0;
    while i < bs.len()
        invariant
            bs@ == u16_bytes(e, x),
            i <= bs@.len(),
            buf@ == old(buf)@ + bs@.subrange(0, i as int),
        decreases bs@.len() - i,
    {
        buf.push(bs[i]);
        i = i + 1;
        assert(buf@ =~= old(buf)@ + bs@.subrange(0, i as int));
    }
    assert(buf@ =~= old(buf)@ + bs@);
}

/// Append the four wire bytes of a `u32` in the given byte order.
pub fn push_u32(buf: &mut Vec<u8>, e: Endianness, x: u32)
    ensures
        final(buf)@ == old(buf)@ + u32_bytes(e, x),
{
    let bs = vstd::bytes::u32_to_le_bytes(x);
    let bs = match e {
        Endianness::Little => bs,
        Endianness::Big => rev_vec(&bs),
    };
    proof {
        vstd::bytes::lemma_auto_spec_u32_to_from_le_bytes();
    }
    let mut i: usize = 0;
    while i < bs.len()
        invariant
            bs@ == u32_bytes(e, x),
            i <= bs@.len(),
            buf@ == old(buf)@ + bs@.subrange(0, i as int),
        decreases bs@.len() - i,
    {
        buf.push(bs[i]);
        i = i + 1;
        assert(buf@ =~= old(buf)@ + bs@.subrange(0, i as int));
    }
    assert(buf@ =~= old(buf)@ + bs@);
}

/// Append the eight wire bytes of a `u64` in the given byte order.
pub fn push_u64(buf: &mut Vec<u8>, e: Endianness, x: u64)
    ensures
        final(buf)@ == old(buf)@ + u64_bytes(e, x),
{
    let bs = vstd::bytes::u64_to_le_bytes(x);
    let bs = match e {
        Endianness::Little => bs,
        Endianness::Big => rev_vec(&bs),
    };
    proof {
        vstd::bytes::lemma_auto_spec_u64_to_from_le_bytes();
    }
    let mut i: usize = 0;
    while i < bs.len()
        invariant
            bs@ == u64_bytes(e, x),
            i <= bs@.len(),
            buf@ == old(buf)@ + bs@.subrange(0, i as int),
        decreases bs@.len() - i,
    {
        buf.push(bs[i]);
        i = i + 1;
        assert(buf@ =~= old(buf)@ + bs@.subrange(0, i as int));
    }
    assert(buf@ =~= old(buf)@ + bs@);
}

/// Copy the bytes of `data` from `i` (inclusive) to `j` (exclusive).
pub fn copy_range(data: &Vec<u8>, i: usize, j: usize) -> (r: Vec<u8>)
    requires
        i <= j <= data@.len(),
    ensures
        r@ == data@.subrange(i as int, j as int),
{
    let mut r: Vec<u8> = Vec::new();
    let mut k: usize = i;
    while k < j
        invariant
            i <= k <= j <= data@.len(),
            r@ == data@.subrange(i as int, k as int),
        decreases j - k,
    {
        r.push(data[k]);
        k = k + 1;
        assert(r@ =~= data@.subrange(i as int, k as int));
    }
    r
}

/// Read a `u16` from two wire bytes of `data` at `i` in the given byte order.
pub fn read_u16(data: &Vec<u8>, e: Endianness, i: usize) -> (r: u16)
    requires
        i + 2 <= data@.len(),
    ensures
        r == u16_val(e, data@.subrange(i as int, i + 2)),
{
    let n = data.len();
    let bs = copy_range(data, i, i + 2);
    let bs = match e {
        Endianness::Little => bs,
        Endianness::Big => rev_vec(&bs),
    };
    vstd::bytes::u16_from_le_bytes(bs.as_slice())
}

/// Read a `u32` from four wire bytes of `data` at `i` in the given byte order.
pub fn read_u32(data: &Vec<u8>, e: Endianness, i: usize) -> (r: u32)
    requires
        i + 4 <= data@.len(),
    ensures
        r == u32_val(e, data@.subrange(i as int, i + 4)),
{
    let n = data.len();
    let bs = copy_range(data, i, i + 4);
    let bs = match e {
        Endianness::Little => bs,
        Endianness::Big => rev_vec(&bs),
    };
    vstd::bytes::u32_from_le_bytes(bs.as_slice())
}

/// Read a `u64` from eight wire bytes of `data` at `i` in the given byte order.
pub fn read_u64(data: &Vec<u8>, e: Endianness, i: usize) -> (r: u64)
    requires
        i + 8 <= data@.len(),
    ensures
        r == u64_val(e, data@.subrange(i as int, i + 8)),
{
    let n = data.len();
    let bs = copy_range(data, i, i + 8);
    let bs = match e {
        Endianness::Little => bs,
        Endianness::Big => rev_vec(&bs),
    };
    vstd::bytes::u64_from_le_bytes(bs.as_slice())
}

/// The wire bit pattern of a signed 16-bit value.
pub fn to_i16_pat(x: i16) -> (r: u16)
    ensures
        r == i16_pat(x),
{
    if x >= 0 {
        x as u16
    } else {
        let w: i32 = x as i32 + 0x1_0000;
        w as u16
    }
}

/// The signed 16-bit value of a wire bit pattern.
pub fn from_i16_pat(x: u16) -> (r: i16)
    ensures
        r == i16_of_pat(x),
{
    if x < 0x8000 {
        x as i16
    } else {
        let w: i32 = x as i32 - 0x1_0000;
        w as i16
    }
}

/// The wire bit pattern of a signed 32-bit value.
pub fn to_i32_pat(x: i32) -> (r: u32)
    ensures
        r == i32_pat(x),
{
    if x >= 0 {
        x as u32
    } else {
        let w: i64 = x as i64 + 0x1_0000_0000;
        w as u32
    }
}

/// The signed 32-bit value of a wire bit pattern.
pub fn from_i32_pat(x: u32) -> (r: i32)
    ensures
        r == i32_of_pat(x),
{
    if x < 0x8000_0000 {
        x as i32
    } else {
        let w: i64 = x as i64 - 0x1_0000_0000;
        w as i32
    }
}

/// The wire bit pattern of a signed 64-bit value.
pub fn to_i64_pat(x: i64) -> (r: u64)
    ensures
        r == i64_pat(x),
{
    if x >= 0 {
        x as u64
    } else {
        let w: i128 = x as i128 + 0x1_0000_0000_0000_0000;
        w as u64
    }
}

/// The signed 64-bit value of a wire bit pattern.
pub fn from_i64_pat(x: u64) -> (r: i64)
    ensures
        r == i64_of_pat(x),
{
    if x < 0x8000_0000_0000_0000 {
        x as i64
    } else {
        let w: i128 = x as i128 - 0x1_0000_0000_0000_0000;
        w as i64
    }
}

/// Overwrite the four bytes of `buf` at `pos` with a `u32` in the given
/// byte order, leaving everything else unchanged.
pub fn write_u32_at(buf: &mut Vec<u8>, e: Endianness, pos: usize, x: u32)
    requires
        pos + 4 <= old(buf)@.len(),
    ensures
        final(buf)@.len() == old(buf)@.len(),
        final(buf)@ == old(buf)@.subrange(0, pos as int) + u32_bytes(e, x) + old(buf)@.subrange(
            pos + 4,
            old(buf)@.len() as int,
        ),
{
    let bs = vstd::bytes::u32_to_le_bytes(x);
    let bs = match e {
        Endianness::Little => bs,
        Endianness::Big => rev_vec(&bs),
    };
    proof {
        vstd::bytes::lemma_auto_spec_u32_to_from_le_bytes();
    }
    let total = buf.len();
    let mut k: usize = 0;
    while k < 4
        invariant
            k <= 4,
            total == buf@.len(),
            pos + 4 <= buf@.len(),
            bs@ == u32_bytes(e, x),
            bs@.len() == 4,
            buf@.len() == old(buf)@.len(),
            forall|j: int|
                0 <= j < buf@.len() ==> #[trigger] buf@[j] == if pos <= j < pos + k {
                    bs@[j - pos]
                } else {
                    old(buf)@[j]
                },
        decreases 4 - k,
    {
        buf.set(pos + k, bs[k]);
        k = k + 1;
    }
    assert(buf@ =~= old(buf)@.subrange(0, pos as int) + u32_bytes(e, x) + old(buf)@.subrange(
        pos + 4,
        old(buf)@.len() as int,
    ));
}

/// The two signed conversions invert each other.
pub proof fn lemma_i16_pat_round_trip(x: i16)
    ensures
        i16_of_pat(i16_pat(x)) == x,
{
}

/// The two signed conversions invert each other.
pub proof fn lemma_i32_pat_round_trip(x: i32)
    ensures
        i32_of_pat(i32_pat(x)) == x,
{
}

/// The two signed conversions invert each other.
pub proof fn lemma_i64_pat_round_trip(x: i64)
    ensures
        i64_of_pat(i64_pat(x)) == x,
{
}

} // verus!
