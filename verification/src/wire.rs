//! Little-endian encoding and decoding of the fixed-width integers used by
//! the wire formats of this crate, with their mathematical specifications.

use vstd::prelude::*;

verus! {

/// The little-endian bytes of a `u16`.
pub open spec fn spec_le16(v: u16) -> Seq<u8> {
    seq![(v % 256) as u8, (v / 256) as u8]
}

/// The little-endian bytes of a `u32`.
pub open spec fn spec_le32(v: u32) -> Seq<u8> {
    seq![
        (v % 256) as u8,
        ((v / 256) % 256) as u8,
        ((v / 65536) % 256) as u8,
        ((v / 16777216) % 256) as u8,
    ]
}

/// The little-endian bytes of a `u64`.
pub open spec fn spec_le64(v: u64) -> Seq<u8> {
    spec_le32((v % 4294967296) as u32) + spec_le32((v / 4294967296) as u32)
}

/// The little-endian bytes of an `i32`, in two's complement.
pub open spec fn spec_le_i32(v: i32) -> Seq<u8> {
    spec_le32(v as u32)
}

/// The little-endian bytes of an `i64`, in two's complement.
pub open spec fn spec_le_i64(v: i64) -> Seq<u8> {
    spec_le64(v as u64)
}

/// True when at least `want` bytes remain in `buf` at offset `pos`.
pub open spec fn spec_have(buf: Seq<u8>, pos: int, want: int) -> bool {
    pos + want <= buf.len()
}

/// Fails exactly when fewer than `want` bytes remain at `pos`.
pub fn need(buf: &[u8], pos: usize, want: usize) -> (r: bool)
    ensures
        r == spec_have(buf@, pos as int, want as int),
{
    want <= buf.len() && pos <= buf.len() - want
}

/// Takes the `n`-byte subslice at `pos` and advances the cursor.
pub fn take<'a>(buf: &'a [u8], pos: &mut usize, n: usize) -> (r: Option<&'a [u8]>)
    ensures
        match r {
            Some(s) => spec_have(buf@, *old(pos) as int, n as int) && *final(pos) == *old(pos) + n
                && s@ == buf@.subrange(*old(pos) as int, *old(pos) + n as int),
            None => !spec_have(buf@, *old(pos) as int, n as int) && *final(pos) == *old(pos),
        },
{
    let _blen: usize = buf.len();
    if need(buf, *pos, n) {
        let s: &[u8] = &buf[*pos..*pos + n];
        *pos = *pos + n;
        Some(s)
    } else {
        None
    }
}

/// Reads one byte and advances the cursor.
pub fn le_u8(buf: &[u8], pos: &mut usize) -> (r: Option<u8>)
    ensures
        match r {
            Some(v) => spec_have(buf@, *old(pos) as int, 1) && *final(pos) == *old(pos) + 1
                && v == buf@[*old(pos) as int],
            None => !spec_have(buf@, *old(pos) as int, 1) && *final(pos) == *old(pos),
        },
{
    if need(buf, *pos, 1) {
        let v: u8 = buf[*pos];
        *pos = *pos + 1;
        Some(v)
    } else {
        None
    }
}

/// The two little-endian bytes of the result are the two bytes read.
pub fn le_u16(buf: &[u8], pos: &mut usize) -> (r: Option<u16>)
    ensures
        match r {
            Some(v) => spec_have(buf@, *old(pos) as int, 2) && *final(pos) == *old(pos) + 2
                && spec_le16(v) == buf@.subrange(*old(pos) as int, *old(pos) + 2),
            None => !spec_have(buf@, *old(pos) as int, 2) && *final(pos) == *old(pos),
        },
{
    let _blen: usize = buf.len();
    if need(buf, *pos, 2) {
        let b0: u8 = buf[*pos];
        let b1: u8 = buf[*pos + 1];
        let v: u16 = b0 as u16 + 256 * (b1 as u16);
        proof {
            lemma_le16_of_bytes(b0, b1);
        }
        *pos = *pos + 2;
        Some(v)
    } else {
        None
    }
}

/// The four little-endian bytes of the result are the four bytes read.
pub fn le_u32(buf: &[u8], pos: &mut usize) -> (r: Option<u32>)
    ensures
        match r {
            Some(v) => spec_have(buf@, *old(pos) as int, 4) && *final(pos) == *old(pos) + 4
                && spec_le32(v) == buf@.subrange(*old(pos) as int, *old(pos) + 4),
            None => !spec_have(buf@, *old(pos) as int, 4) && *final(pos) == *old(pos),
        },
{
    let _blen: usize = buf.len();
    if need(buf, *pos, 4) {
        let b0: u8 = buf[*pos];
        let b1: u8 = buf[*pos + 1];
        let b2: u8 = buf[*pos + 2];
        let b3: u8 = buf[*pos + 3];
        let v: u32 =
            b0 as u32 + 256 * (b1 as u32) + 65536 * (b2 as u32) + 16777216 * (b3 as u32);
        proof {
            lemma_le32_of_bytes(b0, b1, b2, b3);
        }
        *pos = *pos + 4;
        Some(v)
    } else {
        None
    }
}

/// The eight little-endian bytes of the result are the eight bytes read.
pub fn le_u64(buf: &[u8], pos: &mut usize) -> (r: Option<u64>)
    ensures
        match r {
            Some(v) => spec_have(buf@, *old(pos) as int, 8) && *final(pos) == *old(pos) + 8
                && spec_le64(v) == buf@.subrange(*old(pos) as int, *old(pos) + 8),
            None => !spec_have(buf@, *old(pos) as int, 8) && *final(pos) == *old(pos),
        },
{
    if need(buf, *pos, 8) {
        let lo: u32 = le_u32(buf, pos).unwrap();
        let hi: u32 = le_u32(buf, pos).unwrap();
        let v: u64 = lo as u64 + 4294967296 * (hi as u64);
        proof {
            lemma_le64_split(v, lo, hi);
            assert(spec_le64(v) == buf@.subrange(*old(pos) as int, *old(pos) + 8)) by {
                assert(spec_le64(v) =~= buf@.subrange(*old(pos) as int, *old(pos) + 8));
            }
        }
        Some(v)
    } else {
        None
    }
}

/// Reads an `i32` as four little-endian two's-complement bytes.
pub fn le_i32(buf: &[u8], pos: &mut usize) -> (r: Option<i32>)
    ensures
        match r {
            Some(v) => spec_have(buf@, *old(pos) as int, 4) && *final(pos) == *old(pos) + 4
                && spec_le_i32(v) == buf@.subrange(*old(pos) as int, *old(pos) + 4),
            None => !spec_have(buf@, *old(pos) as int, 4) && *final(pos) == *old(pos),
        },
{
    match le_u32(buf, pos) {
        Some(u) => {
            #[verifier::truncate]
            let v: i32 = u as i32;
            proof {
                assert(v as u32 == u) by (bit_vector)
                    requires
                        v == u as i32,
                ;
            }
            Some(v)
        },
        None => None,
    }
}

/// Reads an `i64` as eight little-endian two's-complement bytes.
pub fn le_i64(buf: &[u8], pos: &mut usize) -> (r: Option<i64>)
    ensures
        match r {
            Some(v) => spec_have(buf@, *old(pos) as int, 8) && *final(pos) == *old(pos) + 8
                && spec_le_i64(v) == buf@.subrange(*old(pos) as int, *old(pos) + 8),
            None => !spec_have(buf@, *old(pos) as int, 8) && *final(pos) == *old(pos),
        },
{
    match le_u64(buf, pos) {
        Some(u) => {
            #[verifier::truncate]
            let v: i64 = u as i64;
            proof {
                assert(v as u64 == u) by (bit_vector)
                    requires
                        v == u as i64,
                ;
            }
            Some(v)
        },
        None => None,
    }
}

/// Appends the two little-endian bytes of `v`.
pub fn write_u16(out: &mut Vec<u8>, v: u16)
    ensures
        final(out)@ == old(out)@ + spec_le16(v),
{
    out.push((v % 256) as u8);
    out.push((v / 256) as u8);
    assert(out@ == old(out)@ + spec_le16(v)) by {
        assert(out@ =~= old(out)@ + spec_le16(v));
    }
}

/// Appends the four little-endian bytes of `v`.
pub fn write_u32(out: &mut Vec<u8>, v: u32)
    ensures
        final(out)@ == old(out)@ + spec_le32(v),
{
    out.push((v % 256) as u8);
    out.push(((v / 256) % 256) as u8);
    out.push(((v / 65536) % 256) as u8);
    out.push((v / 16777216) as u8);
    assert((v / 16777216) as u8 == ((v / 16777216) % 256) as u8) by {
        assert(v / 16777216 < 256) by (nonlinear_arith);
    };
    assert(out@ == old(out)@ + spec_le32(v)) by {
        assert(out@ =~= old(out)@ + spec_le32(v));
    }
}

/// Appends the eight little-endian bytes of `v`.
pub fn write_u64(out: &mut Vec<u8>, v: u64)
    ensures
        final(out)@ == old(out)@ + spec_le64(v),
{
    let lo: u32 = (v % 4294967296) as u32;
    let hi: u32 = (v / 4294967296) as u32;
    write_u32(out, lo);
    write_u32(out, hi);
    assert(v / 4294967296 < 4294967296) by (nonlinear_arith);
    assert(out@ == old(out)@ + spec_le64(v)) by {
        assert(out@ =~= old(out)@ + spec_le64(v));
    }
}

/// Appends the four little-endian two's-complement bytes of `v`.
pub fn write_i32(out: &mut Vec<u8>, v: i32)
    ensures
        final(out)@ == old(out)@ + spec_le_i32(v),
{
    #[verifier::truncate]
    let u: u32 = v as u32;
    write_u32(out, u);
}

/// Appends the eight little-endian two's-complement bytes of `v`.
pub fn write_i64(out: &mut Vec<u8>, v: i64)
    ensures
        final(out)@ == old(out)@ + spec_le_i64(v),
{
    #[verifier::truncate]
    let u: u64 = v as u64;
    write_u64(out, u);
}


/// The value of two little-endian bytes.
pub open spec fn spec_le16_val(b: Seq<u8>) -> u16
    recommends
        b.len() == 2,
{
    (b[0] + 256 * b[1]) as u16
}

/// The value of four little-endian bytes.
pub open spec fn spec_le32_val(b: Seq<u8>) -> u32
    recommends
        b.len() == 4,
{
    (b[0] + 256 * b[1] + 65536 * b[2] + 16777216 * b[3]) as u32
}

/// Reading back the little-endian bytes of a value gives the value.
pub proof fn lemma_le16_val(v: u16)
    ensures
        spec_le16_val(spec_le16(v)) == v,
{
    assert((v % 256) + 256 * ((v / 256) as int) == v) by (nonlinear_arith);
}

pub proof fn lemma_le32_val(v: u32)
    ensures
        spec_le32_val(spec_le32(v)) == v,
{
    assert((v % 256) + 256 * (((v / 256) % 256) as int) + 65536 * (((v / 65536) % 256) as int)
        + 16777216 * (((v / 16777216) % 256) as int) == v) by (nonlinear_arith);
}


/// The value of eight little-endian bytes.
pub open spec fn spec_le64_val(b: Seq<u8>) -> u64
    recommends
        b.len() == 8,
{
    (spec_le32_val(b.subrange(0, 4)) + 4294967296 * spec_le32_val(b.subrange(4, 8))) as u64
}

/// The value of four little-endian two's-complement bytes.
pub open spec fn spec_le_i32_val(b: Seq<u8>) -> i32
    recommends
        b.len() == 4,
{
    spec_le32_val(b) as i32
}

/// The value of eight little-endian two's-complement bytes.
pub open spec fn spec_le_i64_val(b: Seq<u8>) -> i64
    recommends
        b.len() == 8,
{
    spec_le64_val(b) as i64
}

pub proof fn lemma_le64_val(v: u64)
    ensures
        spec_le64_val(spec_le64(v)) == v,
{
    let lo: u32 = (v % 4294967296) as u32;
    let hi: u32 = (v / 4294967296) as u32;
    assert(spec_le64(v).subrange(0, 4) =~= spec_le32(lo));
    assert(spec_le64(v).subrange(4, 8) =~= spec_le32(hi));
    lemma_le32_val(lo);
    lemma_le32_val(hi);
    assert(lo + 4294967296 * (hi as int) == v) by (nonlinear_arith)
        requires
            lo == v % 4294967296,
            hi == v / 4294967296,
    ;
}

pub proof fn lemma_le_i32_val(v: i32)
    ensures
        spec_le_i32_val(spec_le_i32(v)) == v,
{
    lemma_le32_val(v as u32);
    assert((v as u32) as i32 == v) by (bit_vector);
}

pub proof fn lemma_le_i64_val(v: i64)
    ensures
        spec_le_i64_val(spec_le_i64(v)) == v,
{
    lemma_le64_val(v as u64);
    assert((v as u64) as i64 == v) by (bit_vector);
}

/// A value built from digits below the base occupies exactly those digits.
proof fn lemma_le16_of_bytes(b0: u8, b1: u8)
    ensures
        spec_le16((b0 + 256 * b1) as u16) == seq![b0, b1],
{
    let v: u16 = (b0 + 256 * b1) as u16;
    assert(v % 256 == b0 && v / 256 == b1) by (nonlinear_arith)
        requires
            v == b0 + 256 * b1,
            b0 < 256,
            b1 < 256,
    ;
    assert(spec_le16(v) =~= seq![b0, b1]);
}

proof fn lemma_le32_of_bytes(b0: u8, b1: u8, b2: u8, b3: u8)
    ensures
        spec_le32((b0 + 256 * b1 + 65536 * b2 + 16777216 * b3) as u32) == seq![b0, b1, b2, b3],
{
    let v: u32 = (b0 + 256 * b1 + 65536 * b2 + 16777216 * b3) as u32;
    assert(v % 256 == b0 && (v / 256) % 256 == b1 && (v / 65536) % 256 == b2 && (v / 16777216)
        % 256 == b3) by (nonlinear_arith)
        requires
            v == b0 + 256 * b1 + 65536 * b2 + 16777216 * b3,
            b0 < 256,
            b1 < 256,
            b2 < 256,
            b3 < 256,
    ;
    assert(spec_le32(v) =~= seq![b0, b1, b2, b3]);
}

/// A `u64` assembled from its two halves has those halves as its words.
proof fn lemma_le64_split(v: u64, lo: u32, hi: u32)
    requires
        v == lo + 4294967296 * hi,
    ensures
        spec_le64(v) == spec_le32(lo) + spec_le32(hi),
{
    assert(v % 4294967296 == lo && v / 4294967296 == hi) by (nonlinear_arith)
        requires
            v == lo + 4294967296 * hi,
            lo < 4294967296,
            hi < 4294967296,
    ;
}

} // verus!
