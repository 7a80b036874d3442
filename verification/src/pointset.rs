//! Compressed sets of 32-bit point identifiers with union, membership and a
//! length-prefixed, version-tagged wire format.
//!
//! The in-memory representation is `roaring::RoaringBitmap`; its contents are
//! modelled by the uninterpreted function [`rb_set`], and every call into the
//! crate goes through a small trusted wrapper whose contract speaks over that
//! model.

use vstd::prelude::*;

use crate::wire::{
    le_u64, le_u8, lemma_le64_val, spec_le64, spec_le64_val, take, write_u64,
};

verus! {

/// Version tag of the point-set wire format.
pub const WIRE_VERSION: u8 = 1;

/// Upper bound accepted for the payload length field of the wire format.
/// Any serialization this crate produces stays below it.
pub const WIRE_MAX_PAYLOAD: u64 = 0x4_0000_0000;

#[verifier::external_type_specification]
#[verifier::external_body]
pub struct ExRoaringBitmap(roaring::RoaringBitmap);

/// The set of ids a `roaring::RoaringBitmap` holds.
pub uninterp spec fn rb_set(b: roaring::RoaringBitmap) -> Set<u32>;

/// What `roaring::RoaringBitmap::deserialize_from` returns on the given
/// bytes: the decoded set, or nothing where the bytes are rejected.
pub uninterp spec fn rb_parse(bytes: Seq<u8>) -> Option<Set<u32>>;

/// Relies on `roaring::RoaringBitmap::new`: the fresh bitmap is empty.
#[verifier::external_body]
fn rb_new() -> (r: roaring::RoaringBitmap)
    ensures
        rb_set(r) == Set::<u32>::empty(),
{
    roaring::RoaringBitmap::new()
}

/// Relies on `roaring::RoaringBitmap::insert`: adds the value and reports
/// whether it was absent.
#[verifier::external_body]
fn rb_insert(b: &mut roaring::RoaringBitmap, v: u32) -> (r: bool)
    ensures
        rb_set(*final(b)) == rb_set(*old(b)).insert(v),
        r == !rb_set(*old(b)).contains(v),
{
    b.insert(v)
}

/// Relies on `roaring::RoaringBitmap::contains`.
#[verifier::external_body]
fn rb_contains(b: &roaring::RoaringBitmap, v: u32) -> (r: bool)
    ensures
        r == rb_set(*b).contains(v),
{
    b.contains(v)
}

/// Relies on `roaring::RoaringBitmap::len`: the number of stored ids.
#[verifier::external_body]
fn rb_len(b: &roaring::RoaringBitmap) -> (r: u64)
    ensures
        r == rb_set(*b).len(),
{
    b.len()
}

/// Relies on `roaring::RoaringBitmap::is_empty`.
#[verifier::external_body]
fn rb_is_empty(b: &roaring::RoaringBitmap) -> (r: bool)
    ensures
        r == (rb_set(*b) == Set::<u32>::empty()),
{
    b.is_empty()
}

/// Relies on `roaring::RoaringBitmap::max`: the largest stored id, or
/// nothing when the bitmap is empty.
#[verifier::external_body]
fn rb_max(b: &roaring::RoaringBitmap) -> (r: Option<u32>)
    ensures
        match r {
            Some(m) => rb_set(*b).contains(m) && forall|x: u32|
                rb_set(*b).contains(x) ==> x <= m,
            None => rb_set(*b) == Set::<u32>::empty(),
        },
{
    b.max()
}

/// Relies on `BitOrAssign<&RoaringBitmap> for RoaringBitmap`: in-place union.
#[verifier::external_body]
fn rb_union_with(b: &mut roaring::RoaringBitmap, other: &roaring::RoaringBitmap)
    ensures
        rb_set(*final(b)) == rb_set(*old(b)).union(rb_set(*other)),
{
    *b |= other;
}

/// Relies on `roaring::RoaringBitmap::clear`: removes every id.
#[verifier::external_body]
fn rb_clear(b: &mut roaring::RoaringBitmap)
    ensures
        rb_set(*final(b)) == Set::<u32>::empty(),
{
    b.clear()
}

/// Relies on `roaring::RoaringBitmap::serialize_into` writing the standard
/// portable format, which `deserialize_from` decodes back to the same set.
/// The size bound follows from the format: at most 65536 containers, each
/// serialized in at most 131074 bytes (a run container of 32768 runs at 4
/// bytes per run plus its 2-byte count; array and bitmap containers are
/// smaller), plus 8 bytes of description and offset per container and a
/// header of at most 8196 bytes -- under 2^34 in total.
#[verifier::external_body]
fn rb_serialize(b: &roaring::RoaringBitmap) -> (r: Vec<u8>)
    ensures
        rb_parse(r@) == Some(rb_set(*b)),
        r@.len() < 0x4_0000_0000,
{
    let mut buf: Vec<u8> = Vec::new();
    match b.serialize_into(&mut buf) {
        Ok(()) => buf,
        Err(_) => Vec::new(),
    }
}

/// Relies on `roaring::RoaringBitmap::deserialize_from`: decodes the standard
/// portable format and rejects malformed bytes.
#[verifier::external_body]
fn rb_deserialize(bytes: &[u8]) -> (r: Option<roaring::RoaringBitmap>)
    ensures
        match r {
            Some(b) => rb_parse(bytes@) == Some(rb_set(b)) && rb_set(b).finite(),
            None => rb_parse(bytes@) is None,
        },
{
    roaring::RoaringBitmap::deserialize_from(bytes).ok()
}

/// Why a byte sequence was rejected, or an id refused by a merge.
#[derive(Clone, Copy, Debug, PartialEq, Eq, Structural)]
pub enum ParseError {
    /// Fewer bytes than the header or the announced payload require.
    Truncated,
    /// The version tag is not one this crate understands.
    UnsupportedVersion,
    /// The announced payload length exceeds the accepted bound.
    Oversized,
    /// Bytes follow the announced payload.
    TrailingBytes,
    /// The payload is not a well-formed portable bitmap.
    Malformed,
    /// The decoded set holds an id at or beyond the universe size.
    IdOutOfUniverse,
}

/// The result of parsing the point-set wire format: a one-byte version tag,
/// an eight-byte little-endian payload length, and the portable bitmap
/// bytes.
pub open spec fn spec_wire_parse(bytes: Seq<u8>) -> Result<Set<u32>, ParseError> {
    if bytes.len() < 9 {
        Err(ParseError::Truncated)
    } else if bytes[0] != WIRE_VERSION {
        Err(ParseError::UnsupportedVersion)
    } else {
        let n = spec_le64_val(bytes.subrange(1, 9)) as int;
        if n > WIRE_MAX_PAYLOAD {
            Err(ParseError::Oversized)
        } else if bytes.len() < 9 + n {
            Err(ParseError::Truncated)
        } else if bytes.len() > 9 + n {
            Err(ParseError::TrailingBytes)
        } else {
            match rb_parse(bytes.subrange(9, 9 + n)) {
                Some(s) => Ok(s),
                None => Err(ParseError::Malformed),
            }
        }
    }
}

/// A compressed set of 32-bit point ids; the model of a value is the
/// mathematical set of the ids it holds.
pub struct PointSet {
    rb: roaring::RoaringBitmap,
}

impl View for PointSet {
    type V = Set<u32>;

    closed spec fn view(&self) -> Set<u32> {
        rb_set(self.rb)
    }
}

impl PointSet {
    /// Every value this crate constructs holds finitely many ids.
    pub open spec fn wf(&self) -> bool {
        self@.finite()
    }

    /// The empty set.
    pub fn new() -> (r: PointSet)
        ensures
            r@ == Set::<u32>::empty(),
            r.wf(),
    {
        PointSet { rb: rb_new() }
    }

    /// Cardinality.
    pub fn len(&self) -> (r: u64)
        requires
            self.wf(),
        ensures
            r == self@.len(),
    {
        rb_len(&self.rb)
    }

    /// Membership.
    pub fn contains(&self, id: u32) -> (r: bool)
        ensures
            r == self@.contains(id),
    {
        rb_contains(&self.rb, id)
    }

    /// True exactly when no id is present.
    pub fn is_empty(&self) -> (r: bool)
        ensures
            r == (self@ == Set::<u32>::empty()),
    {
        rb_is_empty(&self.rb)
    }

    /// Adds an id; reports whether it was new.
    pub fn insert(&mut self, id: u32) -> (r: bool)
        requires
            old(self).wf(),
        ensures
            final(self)@ == old(self)@.insert(id),
            final(self).wf(),
            r == !old(self)@.contains(id),
    {
        rb_insert(&mut self.rb, id)
    }

    /// The largest id present, or nothing when the set is empty.
    pub fn max_id(&self) -> (r: Option<u32>)
        ensures
            match r {
                Some(m) => self@.contains(m) && forall|x: u32| self@.contains(x) ==> x <= m,
                None => self@ == Set::<u32>::empty(),
            },
    {
        rb_max(&self.rb)
    }

    /// In-place union: afterwards this set holds exactly the ids of either
    /// operand. Union is commutative and idempotent on the model.
    pub fn union_in_place(&mut self, other: &PointSet)
        requires
            old(self).wf(),
            other.wf(),
        ensures
            final(self)@ == old(self)@.union(other@),
            final(self).wf(),
    {
        rb_union_with(&mut self.rb, &other.rb)
    }

    /// Removes every id.
    pub fn clear(&mut self)
        ensures
            final(self)@ == Set::<u32>::empty(),
            final(self).wf(),
    {
        rb_clear(&mut self.rb)
    }

    /// Writes the version tag, the payload length and the portable payload.
    /// Deserializing the result yields back exactly this set.
    pub fn serialize(&self) -> (r: Vec<u8>)
        requires
            self.wf(),
        ensures
            spec_wire_parse(r@) == Ok::<Set<u32>, ParseError>(self@),
            r@.len() >= 9,
            r@[0] == WIRE_VERSION,
    {
        let mut payload: Vec<u8> = rb_serialize(&self.rb);
        let n: u64 = payload.len() as u64;
        let ghost payload_seq: Seq<u8> = payload@;
        let mut out: Vec<u8> = Vec::new();
        out.push(WIRE_VERSION);
        write_u64(&mut out, n);
        out.append(&mut payload);
        proof {
            lemma_le64_val(n);
            assert(out@.subrange(1, 9) =~= spec_le64(n));
            assert(out@.subrange(9, 9 + n as int) =~= payload_seq);
            assert(out@[0] == WIRE_VERSION);
        }
        out
    }

    /// Inverse of `serialize`: decodes a framed point set, rejecting
    /// truncated, oversized, trailing, unversioned or malformed input with
    /// the error `spec_wire_parse` assigns to it.
    pub fn deserialize(bytes: &[u8]) -> (r: Result<PointSet, ParseError>)
        ensures
            match r {
                Ok(ps) => spec_wire_parse(bytes@) == Ok::<Set<u32>, ParseError>(ps@) && ps.wf(),
                Err(e) => spec_wire_parse(bytes@) == Err::<Set<u32>, ParseError>(e),
            },
    {
        let blen: usize = bytes.len();
        let mut pos: usize = 0;
        let version: u8 = match le_u8(bytes, &mut pos) {
            Some(v) => v,
            None => {
                return Err(ParseError::Truncated);
            },
        };
        let n: u64 = match le_u64(bytes, &mut pos) {
            Some(v) => v,
            None => {
                return Err(ParseError::Truncated);
            },
        };
        proof {
            lemma_le64_val(n);
            assert(bytes@.subrange(1, 9) =~= spec_le64(n));
        }
        if version != WIRE_VERSION {
            return Err(ParseError::UnsupportedVersion);
        }
        if n > WIRE_MAX_PAYLOAD {
            return Err(ParseError::Oversized);
        }
        if ((blen - pos) as u64) < n {
            return Err(ParseError::Truncated);
        }
        let payload: &[u8] = match take(bytes, &mut pos, n as usize) {
            Some(s) => s,
            None => {
                return Err(ParseError::Truncated);
            },
        };
        if pos != blen {
            return Err(ParseError::TrailingBytes);
        }
        match rb_deserialize(payload) {
            Some(rb) => Ok(PointSet { rb }),
            None => Err(ParseError::Malformed),
        }
    }
}

/// Union correctness on the model: merging two sets into a mask in either
/// order yields the same mask, and merging one set twice yields the same
/// mask as merging it once.
pub proof fn lemma_union_comm_idem(m: Set<u32>, a: Set<u32>, b: Set<u32>)
    ensures
        m.union(a).union(b) == m.union(b).union(a),
        m.union(a).union(a) == m.union(a),
{
    assert(m.union(a).union(b) =~= m.union(b).union(a));
    assert(m.union(a).union(a) =~= m.union(a));
}

/// Monotone reveal on the model: a mask never loses an id through a merge.
pub proof fn lemma_union_monotone(m: Set<u32>, a: Set<u32>)
    ensures
        m.subset_of(m.union(a)),
{
}

} // verus!
