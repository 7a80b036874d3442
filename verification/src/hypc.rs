//! The HYPC tile format: a little-endian, dependency-free point-cloud
//! container with an integer ECEF anchor, i32 per-point offsets, optional
//! per-point labels, an optional geographic extent chunk and an optional
//! semantic-mask chunk whose pixels may be run-length encoded.

use vstd::prelude::*;

use crate::wire::{
    le_i32, le_i64, le_u16, le_u32, le_u8, lemma_le16_val, lemma_le32_val, lemma_le_i32_val,
    lemma_le_i64_val, need, spec_le16, spec_le16_val, spec_le32, spec_le32_val, spec_le_i32,
    spec_le_i32_val, spec_le_i64, spec_le_i64_val, take, write_i32, write_i64, write_u16,
    write_u32,
};

verus! {

/// Format version written and accepted.
pub const HYPC_VERSION: u32 = 2;

/// The magic tag, the ASCII bytes of "HYPC".
pub open spec fn spec_hypc_magic() -> Seq<u8> {
    seq![72u8, 89u8, 80u8, 67u8]
}

/// The geographic-extent chunk tag, the ASCII bytes of "GEOT".
pub open spec fn spec_geot_tag() -> Seq<u8> {
    seq![71u8, 69u8, 79u8, 84u8]
}

/// The semantic-mask chunk tag, the ASCII bytes of "SMC1".
pub open spec fn spec_smc1_tag() -> Seq<u8> {
    seq![83u8, 77u8, 67u8, 49u8]
}

/// A geographic bounding box in Q7 fixed point (ticks of 1e-7 degree).
#[derive(Clone, Copy, Debug, PartialEq, Eq, Structural)]
pub struct GeoExtentQ7 {
    pub lon_min_q7: i32,
    pub lon_max_q7: i32,
    pub lat_min_q7: i32,
    pub lat_max_q7: i32,
}

/// How the semantic-mask pixels are stored.
#[derive(Clone, Copy, Debug, PartialEq, Eq, Structural)]
pub enum Smc1Encoding {
    Raw,
    Rle,
}

impl Smc1Encoding {
    pub open spec fn spec_code(self) -> u8 {
        match self {
            Smc1Encoding::Raw => 0,
            Smc1Encoding::Rle => 1,
        }
    }

    /// The wire code of this encoding.
    pub fn code(self) -> (r: u8)
        ensures
            r == self.spec_code(),
    {
        match self {
            Smc1Encoding::Raw => 0,
            Smc1Encoding::Rle => 1,
        }
    }

    /// The encoding a wire code names, if any.
    pub fn from_code(code: u8) -> (r: Option<Smc1Encoding>)
        ensures
            code == 0 ==> r == Some(Smc1Encoding::Raw),
            code == 1 ==> r == Some(Smc1Encoding::Rle),
            code > 1 ==> r is None,
    {
        if code == 0 {
            Some(Smc1Encoding::Raw)
        } else if code == 1 {
            Some(Smc1Encoding::Rle)
        } else {
            None
        }
    }
}

/// The coordinate space the semantic-mask grid is addressed in.
#[derive(Clone, Copy, Debug, PartialEq, Eq, Structural)]
pub enum Smc1CoordSpace {
    /// UV in legacy local decode space.
    DecodeXY,
    /// Normalized coordinates within the geographic extent.
    Crs84BboxNorm,
}

impl Smc1CoordSpace {
    pub open spec fn spec_code(self) -> u8 {
        match self {
            Smc1CoordSpace::DecodeXY => 0,
            Smc1CoordSpace::Crs84BboxNorm => 1,
        }
    }

    /// The wire code of this coordinate space.
    pub fn code(self) -> (r: u8)
        ensures
            r == self.spec_code(),
    {
        match self {
            Smc1CoordSpace::DecodeXY => 0,
            Smc1CoordSpace::Crs84BboxNorm => 1,
        }
    }

    /// The coordinate space a wire code names, if any.
    pub fn from_code(code: u8) -> (r: Option<Smc1CoordSpace>)
        ensures
            code == 0 ==> r == Some(Smc1CoordSpace::DecodeXY),
            code == 1 ==> r == Some(Smc1CoordSpace::Crs84BboxNorm),
            code > 1 ==> r is None,
    {
        if code == 0 {
            Some(Smc1CoordSpace::DecodeXY)
        } else if code == 1 {
            Some(Smc1CoordSpace::Crs84BboxNorm)
        } else {
            None
        }
    }
}

/// The semantic-mask chunk: a small grid of class bytes with a palette of
/// (class, precedence) pairs.
#[derive(Clone, Debug)]
pub struct Smc1Chunk {
    pub width: u16,
    pub height: u16,
    pub coord_space: Smc1CoordSpace,
    pub encoding: Smc1Encoding,
    pub palette: Vec<(u8, u8)>,
    pub data: Vec<u8>,
}

/// One point's offsets from the anchor, in integer units.
#[derive(Clone, Copy, Debug, PartialEq, Eq, Structural)]
pub struct PointUnits {
    pub x: i32,
    pub y: i32,
    pub z: i32,
}

/// An ECEF position in integer units.
#[derive(Clone, Copy, Debug, PartialEq, Eq, Structural)]
pub struct EcefUnits {
    pub x: i64,
    pub y: i64,
    pub z: i64,
}

/// One HYPC tile.
#[derive(Clone, Debug)]
pub struct HypcTile {
    pub units_per_meter: u32,
    pub anchor_ecef_units: EcefUnits,
    pub tile_key: Option<Vec<u8>>,
    pub points_units: Vec<PointUnits>,
    pub labels: Option<Vec<u8>>,
    pub geot: Option<GeoExtentQ7>,
    pub smc1: Option<Smc1Chunk>,
}

/// Why a tile or a mask payload was rejected.
#[derive(Clone, Copy, Debug, PartialEq, Eq, Structural)]
pub enum HypcError {
    /// Fewer bytes than the format requires at this position.
    Truncated,
    /// The magic tag is missing.
    BadMagic,
    /// The version field is not the supported one.
    UnsupportedVersion,
    /// A flag bit outside the defined four is set.
    UnknownFlags,
    /// `units_per_meter` must be positive.
    ZeroUnitsPerMeter,
    /// The 32-byte tile key has the wrong length.
    BadKeyLength,
    /// The geographic-extent chunk does not start with its tag.
    BadGeotTag,
    /// The semantic-mask chunk does not start with its tag.
    BadSmc1Tag,
    /// The coordinate-space code is not defined.
    UnknownCoordSpace,
    /// The encoding code is not defined.
    UnknownEncoding,
    /// Bytes remain after the last chunk.
    TrailingBytes,
    /// A run-length payload ends inside a run record.
    RleTruncated,
    /// The labels vector must pair with the points vector.
    LabelsLengthMismatch,
    /// A count or size field of the tile exceeds its wire width.
    Oversize,
}

/// The pixels a run-length payload denotes: a sequence of records, each a
/// 16-bit little-endian run length followed by the repeated byte. Nothing
/// where the payload ends inside a record.
pub open spec fn spec_rle_decode(rle: Seq<u8>) -> Option<Seq<u8>>
    decreases rle.len(),
{
    if rle.len() == 0 {
        Some(Seq::empty())
    } else if rle.len() < 3 {
        None
    } else {
        let run = spec_le16_val(rle.subrange(0, 2)) as int;
        let v = rle[2];
        match spec_rle_decode(rle.subrange(3, rle.len() as int)) {
            Some(rest) => Some(Seq::new(run as nat, |k: int| v) + rest),
            None => None,
        }
    }
}

/// Decoding distributes over splitting the payload at a record boundary.
pub proof fn lemma_rle_decode_concat(a: Seq<u8>, b: Seq<u8>)
    requires
        a.len() % 3 == 0,
        spec_rle_decode(a) is Some,
    ensures
        spec_rle_decode(a + b) == (match spec_rle_decode(b) {
            Some(db) => Some(spec_rle_decode(a).unwrap() + db),
            None => None::<Seq<u8>>,
        }),
    decreases a.len(),
{
    if a.len() == 0 {
        assert(a + b =~= b);
        match spec_rle_decode(b) {
            Some(db) => {
                assert(spec_rle_decode(a).unwrap() + db =~= db);
            },
            None => {},
        }
    } else {
        let ab = a + b;
        assert(ab.subrange(0, 2) =~= a.subrange(0, 2));
        assert(ab[2] == a[2]);
        assert(ab.subrange(3, ab.len() as int) =~= a.subrange(3, a.len() as int) + b);
        let atail = a.subrange(3, a.len() as int);
        lemma_rle_decode_concat(atail, b);
        let run = spec_le16_val(a.subrange(0, 2)) as int;
        let v = a[2];
        match spec_rle_decode(b) {
            Some(db) => {
                let dt = spec_rle_decode(atail).unwrap();
                assert(Seq::new(run as nat, |k: int| v) + (dt + db) =~= (Seq::new(
                    run as nat,
                    |k: int| v,
                ) + dt) + db);
            },
            None => {},
        }
    }
}

/// Length of the greedy first run: the longest prefix of bytes equal to
/// the first one, capped at 65535.
pub open spec fn spec_run(raw: Seq<u8>) -> int
    decreases raw.len(),
{
    if raw.len() == 0 {
        0
    } else if raw.len() == 1 {
        1
    } else if raw[1] != raw[0] {
        1
    } else {
        let r = 1 + spec_run(raw.subrange(1, raw.len() as int));
        if r > 65535 {
            65535
        } else {
            r
        }
    }
}

/// The first run covers at least one byte and no more than the input or
/// the cap.
pub proof fn lemma_spec_run_bounds(raw: Seq<u8>)
    ensures
        raw.len() == 0 ==> spec_run(raw) == 0,
        raw.len() > 0 ==> 1 <= spec_run(raw) <= raw.len() && spec_run(raw) <= 65535,
    decreases raw.len(),
{
    if raw.len() > 1 && raw[1] == raw[0] {
        lemma_spec_run_bounds(raw.subrange(1, raw.len() as int));
    }
}

/// A prefix of equal bytes pushes the first run at least that far.
proof fn lemma_spec_run_at_least(s: Seq<u8>, k: int)
    requires
        1 <= k <= s.len(),
        k <= 65535,
        forall|j: int| 0 <= j < k ==> #[trigger] s[j] == s[0],
    ensures
        spec_run(s) >= k,
    decreases k,
{
    lemma_spec_run_bounds(s);
    if k > 1 {
        let tail = s.subrange(1, s.len() as int);
        assert(forall|j: int| 0 <= j < k - 1 ==> #[trigger] tail[j] == tail[0]);
        lemma_spec_run_at_least(tail, k - 1);
    }
}

/// The greedy stopping conditions pin the first run's length exactly.
pub proof fn lemma_spec_run_is(s: Seq<u8>, r: int)
    requires
        1 <= r <= s.len(),
        r <= 65535,
        forall|j: int| 0 <= j < r ==> #[trigger] s[j] == s[0],
        r == s.len() || r == 65535 || s[r] != s[0],
    ensures
        spec_run(s) == r,
    decreases r,
{
    lemma_spec_run_bounds(s);
    if r == 65535 {
        lemma_spec_run_at_least(s, r);
    } else if r == 1 {
        if s.len() > 1 {
            assert(s[1] != s[0]);
        }
    } else {
        assert(s[1] == s[0]);
        let tail = s.subrange(1, s.len() as int);
        assert(forall|j: int| 0 <= j < r - 1 ==> #[trigger] tail[j] == tail[0]);
        assert(r - 1 == tail.len() || r - 1 == 65535 || tail[r - 1] != tail[0]);
        lemma_spec_run_is(tail, r - 1);
    }
}

/// The encoder's output as a function of the input: greedy maximal runs,
/// each written as a 16-bit little-endian length and the repeated byte.
pub open spec fn spec_rle_encode(raw: Seq<u8>) -> Seq<u8>
    decreases raw.len(),
    via spec_rle_encode_decreases
{
    if raw.len() == 0 {
        Seq::empty()
    } else {
        let r = spec_run(raw);
        spec_le16(r as u16) + seq![raw[0]] + spec_rle_encode(raw.subrange(r, raw.len() as int))
    }
}

#[via_fn]
proof fn spec_rle_encode_decreases(raw: Seq<u8>) {
    lemma_spec_run_bounds(raw);
}

/// Run-length encodes a pixel row: exactly the greedy maximal runs of up
/// to 65535 equal bytes that `spec_rle_encode` describes, each written as
/// a 16-bit little-endian length and the byte. Decoding the result yields
/// back exactly the input.
pub fn smc1_encode_rle(raw: &[u8]) -> (out: Vec<u8>)
    ensures
        out@ == spec_rle_encode(raw@),
        spec_rle_decode(out@) == Some(raw@),
        out@.len() % 3 == 0,
{
    let n: usize = raw.len();
    let mut out: Vec<u8> = Vec::new();
    let mut i: usize = 0;
    proof {
        assert(raw@.subrange(0, n as int) =~= raw@);
        assert(Seq::<u8>::empty() + spec_rle_encode(raw@) =~= spec_rle_encode(raw@));
    }
    while i < n
        invariant
            n == raw@.len(),
            i <= n,
            out@.len() % 3 == 0,
            spec_rle_decode(out@) == Some(raw@.subrange(0, i as int)),
            out@ + spec_rle_encode(raw@.subrange(i as int, n as int)) == spec_rle_encode(raw@),
        decreases n - i,
    {
        let v: u8 = raw[i];
        let mut run: usize = 1;
        while i + run < n && run < 65535 && raw[i + run] == v
            invariant
                n == raw@.len(),
                i < n,
                1 <= run,
                i + run <= n,
                run <= 65535,
                forall|k: int| i <= k < i + run ==> raw@[k] == v,
            decreases n - (i + run),
        {
            run = run + 1;
        }
        let ghost pre_out: Seq<u8> = out@;
        let ghost sub: Seq<u8> = raw@.subrange(i as int, n as int);
        proof {
            assert(sub[0] == v);
            assert(forall|j: int| 0 <= j < run ==> #[trigger] sub[j] == sub[0]);
            assert(run == sub.len() || run == 65535 || sub[run as int] != sub[0]);
            lemma_spec_run_is(sub, run as int);
        }
        write_u16(&mut out, run as u16);
        out.push(v);
        proof {
            lemma_le16_val(run as u16);
            let chunk = spec_le16(run as u16) + seq![v];
            assert(out@ =~= pre_out + chunk);
            assert(chunk.subrange(0, 2) =~= spec_le16(run as u16));
            assert(chunk[2] == v);
            assert(spec_rle_decode(Seq::<u8>::empty()) == Some(Seq::<u8>::empty()));
            assert(chunk.subrange(3, 3) =~= Seq::<u8>::empty());
            assert(spec_rle_decode(chunk) is Some);
            assert(spec_rle_decode(chunk).unwrap() =~= Seq::new(run as nat, |k: int| v));
            lemma_rle_decode_concat(pre_out, chunk);
            assert(spec_rle_decode(pre_out).unwrap() + spec_rle_decode(chunk).unwrap()
                =~= raw@.subrange(0, (i + run) as int));
            assert(spec_rle_decode(out@) == Some(raw@.subrange(0, (i + run) as int)));
            // the emitted record is the head of the remaining input's
            // greedy encoding
            let rest = spec_rle_encode(raw@.subrange((i + run) as int, n as int));
            assert(sub.subrange(run as int, sub.len() as int) =~= raw@.subrange(
                (i + run) as int,
                n as int,
            ));
            assert(spec_rle_encode(sub) == (spec_le16(run as u16) + seq![v]) + rest) by {
                assert(spec_le16(run as u16) + seq![sub[0]] + rest =~= (spec_le16(run as u16)
                    + seq![v]) + rest);
            }
            assert(pre_out + ((spec_le16(run as u16) + seq![v]) + rest) =~= out@ + rest);
        }
        i = i + run;
    }
    proof {
        assert(raw@.subrange(0, n as int) =~= raw@);
        assert(raw@.subrange(n as int, n as int) =~= Seq::<u8>::empty());
        assert(out@ + Seq::<u8>::empty() =~= out@);
    }
    out
}

/// Decodes a run-length payload, rejecting one that ends inside a record.
pub fn smc1_decode_rle(rle: &[u8]) -> (r: Result<Vec<u8>, HypcError>)
    ensures
        match spec_rle_decode(rle@) {
            Some(s) => (r matches Ok(v) && v@ == s),
            None => r == Err::<Vec<u8>, HypcError>(HypcError::RleTruncated),
        },
{
    let n: usize = rle.len();
    let mut out: Vec<u8> = Vec::new();
    let mut i: usize = 0;
    proof {
        assert(rle@.subrange(0, n as int) =~= rle@);
        match spec_rle_decode(rle@) {
            Some(rest) => {
                assert(Seq::<u8>::empty() + rest =~= rest);
            },
            None => {},
        }
    }
    while n - i >= 3
        invariant
            n == rle@.len(),
            i <= n,
            match spec_rle_decode(rle@.subrange(i as int, n as int)) {
                Some(rest) => spec_rle_decode(rle@) == Some(out@ + rest),
                None => spec_rle_decode(rle@) is None,
            },
        decreases n - i,
    {
        let mut pos: usize = i;
        let run: u16 = le_u16(rle, &mut pos).unwrap();
        let v: u8 = rle[i + 2];
        let ghost seg: Seq<u8> = rle@.subrange(i as int, n as int);
        proof {
            lemma_le16_val(run);
            assert(seg.subrange(0, 2) =~= rle@.subrange(i as int, i + 2));
            assert(rle@.subrange(i as int, i + 2) =~= spec_le16(run));
            assert(seg[2] == v);
            assert(seg.subrange(3, seg.len() as int) =~= rle@.subrange(i + 3, n as int));
        }
        let runs: usize = run as usize;
        let mut k: usize = 0;
        let ghost pre_out: Seq<u8> = out@;
        while k < runs
            invariant
                k <= runs,
                out@ == pre_out + Seq::new(k as nat, |q: int| v),
            decreases runs - k,
        {
            out.push(v);
            proof {
                assert(out@ =~= pre_out + Seq::new((k + 1) as nat, |q: int| v));
            }
            k = k + 1;
        }
        proof {
            match spec_rle_decode(rle@.subrange(i + 3, n as int)) {
                Some(rest2) => {
                    assert(spec_rle_decode(seg) is Some);
                    assert(spec_rle_decode(seg).unwrap() =~= Seq::new(run as nat, |q: int| v)
                        + rest2);
                    assert(pre_out + (Seq::new(run as nat, |q: int| v) + rest2) =~= out@
                        + rest2);
                    assert(spec_rle_decode(rle@) == Some(out@ + rest2));
                },
                None => {
                    assert(spec_rle_decode(seg) is None);
                },
            }
        }
        i = i + 3;
    }
    if i != n {
        proof {
            assert(rle@.subrange(i as int, n as int).len() < 3);
            assert(rle@.subrange(i as int, n as int).len() > 0);
        }
        return Err(HypcError::RleTruncated);
    }
    proof {
        assert(rle@.subrange(n as int, n as int) =~= Seq::<u8>::empty());
        assert(out@ + Seq::<u8>::empty() =~= out@);
    }
    Ok(out)
}


/// One point record: three i32 offsets and, when labels are present, the
/// label byte.
pub open spec fn spec_point_record(p: PointUnits, label: Option<u8>) -> Seq<u8> {
    spec_le_i32(p.x) + spec_le_i32(p.y) + spec_le_i32(p.z) + (match label {
        Some(l) => seq![l],
        None => Seq::empty(),
    })
}

/// The points section: one record per point, in order.
pub open spec fn spec_points_bytes(pts: Seq<PointUnits>, labels: Option<Seq<u8>>) -> Seq<u8>
    decreases pts.len(),
{
    if pts.len() == 0 {
        Seq::empty()
    } else {
        spec_point_record(
            pts[0],
            match labels {
                Some(ls) => Some(ls[0]),
                None => None,
            },
        ) + spec_points_bytes(
            pts.subrange(1, pts.len() as int),
            match labels {
                Some(ls) => Some(ls.subrange(1, ls.len() as int)),
                None => None,
            },
        )
    }
}

/// The palette section: (class, precedence) byte pairs in order.
pub open spec fn spec_palette_bytes(pal: Seq<(u8, u8)>) -> Seq<u8>
    decreases pal.len(),
{
    if pal.len() == 0 {
        Seq::empty()
    } else {
        seq![pal[0].0, pal[0].1] + spec_palette_bytes(pal.subrange(1, pal.len() as int))
    }
}

/// The flags word: one bit for each optional part.
pub open spec fn spec_flags(t: HypcTile) -> u32 {
    ((if t.tile_key is Some {
        1int
    } else {
        0int
    }) + (if t.labels is Some {
        2int
    } else {
        0int
    }) + (if t.geot is Some {
        4int
    } else {
        0int
    }) + (if t.smc1 is Some {
        8int
    } else {
        0int
    })) as u32
}

/// The geographic-extent chunk: its tag and four Q7 coordinates.
pub open spec fn spec_geot_bytes(g: GeoExtentQ7) -> Seq<u8> {
    spec_geot_tag() + spec_le_i32(g.lon_min_q7) + spec_le_i32(g.lon_max_q7) + spec_le_i32(
        g.lat_min_q7,
    ) + spec_le_i32(g.lat_max_q7)
}

/// The semantic-mask chunk: tag, extent, codes, palette and payload.
pub open spec fn spec_smc1_bytes(c: Smc1Chunk) -> Seq<u8> {
    spec_smc1_tag() + spec_le16(c.width) + spec_le16(c.height) + seq![
        c.coord_space.spec_code(),
        c.encoding.spec_code(),
    ] + spec_le16(c.palette@.len() as u16) + spec_palette_bytes(c.palette@) + spec_le32(
        c.data@.len() as u32,
    ) + c.data@
}

/// A tile the format can carry: positive units, counts within their wire
/// widths, a 32-byte key, and labels paired one to one with points.
pub open spec fn spec_tile_wf(t: HypcTile) -> bool {
    &&& t.units_per_meter > 0
    &&& t.points_units@.len() <= u32::MAX
    &&& (t.tile_key matches Some(k) ==> k@.len() == 32)
    &&& (match t.labels {
        Some(ls) => ls@.len() == t.points_units@.len(),
        None => true,
    })
    &&& (t.smc1 matches Some(c) ==> c.palette@.len() <= u16::MAX && c.data@.len() <= u32::MAX)
}

/// The serialization of a tile: header, anchor, optional key, the points
/// section, and the optional chunks, all little-endian.
pub open spec fn spec_tile_bytes(t: HypcTile) -> Seq<u8> {
    spec_hypc_magic() + spec_le32(HYPC_VERSION) + spec_le32(spec_flags(t)) + spec_le32(
        t.points_units@.len() as u32,
    ) + spec_le32(t.units_per_meter) + spec_le_i64(t.anchor_ecef_units.x) + spec_le_i64(
        t.anchor_ecef_units.y,
    ) + spec_le_i64(t.anchor_ecef_units.z) + (match t.tile_key {
        Some(k) => k@,
        None => Seq::empty(),
    }) + spec_points_bytes(
        t.points_units@,
        match t.labels {
            Some(ls) => Some(ls@),
            None => None,
        },
    ) + (match t.geot {
        Some(g) => spec_geot_bytes(g),
        None => Seq::empty(),
    }) + (match t.smc1 {
        Some(c) => spec_smc1_bytes(c),
        None => Seq::empty(),
    })
}

/// Appends a byte slice.
fn write_bytes(out: &mut Vec<u8>, src: &[u8])
    ensures
        final(out)@ == old(out)@ + src@,
{
    let n: usize = src.len();
    let mut i: usize = 0;
    while i < n
        invariant
            n == src@.len(),
            i <= n,
            out@ == old(out)@ + src@.subrange(0, i as int),
        decreases n - i,
    {
        out.push(src[i]);
        proof {
            assert(out@ =~= old(out)@ + src@.subrange(0, i + 1));
        }
        i = i + 1;
    }
    proof {
        assert(out@ =~= old(out)@ + src@);
    }
}

/// The points section of a tile, serialized.
fn points_section(pts: &Vec<PointUnits>, labels: &Option<Vec<u8>>) -> (r: Vec<u8>)
    requires
        (labels matches Some(ls) ==> ls@.len() == pts@.len()),
    ensures
        r@ == spec_points_bytes(
            pts@,
            match *labels {
                Some(ref ls) => Some(ls@),
                None => None,
            },
        ),
{
    let n_points: usize = pts.len();
    let ghost all_labels: Option<Seq<u8>> = match *labels {
        Some(ref ls) => Some(ls@),
        None => None,
    };
    let mut out: Vec<u8> = Vec::new();
    proof {
        assert(pts@.subrange(0, n_points as int) =~= pts@);
        match all_labels {
            Some(ls) => {
                assert(ls.subrange(0, n_points as int) =~= ls);
            },
            None => {},
        }
        assert(Seq::<u8>::empty() + spec_points_bytes(pts@, all_labels) =~= spec_points_bytes(
            pts@,
            all_labels,
        ));
    }
    let mut i: usize = 0;
    while i < n_points
        invariant
            n_points == pts@.len(),
            i <= n_points,
            all_labels == (match *labels {
                Some(ref ls) => Some(ls@),
                None => None::<Seq<u8>>,
            }),
            (all_labels matches Some(ls) ==> ls.len() == n_points),
            out@ + spec_points_bytes(
                pts@.subrange(i as int, n_points as int),
                match all_labels {
                    Some(ls) => Some(ls.subrange(i as int, n_points as int)),
                    None => None,
                },
            ) == spec_points_bytes(pts@, all_labels),
        decreases n_points - i,
    {
        let ghost pre: Seq<u8> = out@;
        let ghost sub_pts: Seq<PointUnits> = pts@.subrange(i as int, n_points as int);
        let ghost sub_ls: Option<Seq<u8>> = match all_labels {
            Some(ls) => Some(ls.subrange(i as int, n_points as int)),
            None => None,
        };
        let p: PointUnits = pts[i];
        write_i32(&mut out, p.x);
        write_i32(&mut out, p.y);
        write_i32(&mut out, p.z);
        let ghost lab: Option<u8> = match all_labels {
            Some(ls) => Some(ls[i as int]),
            None => None,
        };
        match labels {
            Some(ls) => {
                out.push(ls[i]);
            },
            None => {},
        }
        proof {
            assert(out@ =~= pre + spec_point_record(p, lab));
            assert(sub_pts[0] == p);
            assert(sub_pts.subrange(1, sub_pts.len() as int) =~= pts@.subrange(
                i + 1,
                n_points as int,
            ));
            match all_labels {
                Some(ls) => {
                    assert(ls.subrange(i as int, n_points as int)[0] == ls[i as int]);
                    assert(ls.subrange(i as int, n_points as int).subrange(
                        1,
                        ls.subrange(i as int, n_points as int).len() as int,
                    ) =~= ls.subrange(i + 1, n_points as int));
                },
                None => {},
            }
            assert(spec_points_bytes(sub_pts, sub_ls) == spec_point_record(p, lab)
                + spec_points_bytes(
                pts@.subrange(i + 1, n_points as int),
                match all_labels {
                    Some(ls) => Some(ls.subrange(i + 1, n_points as int)),
                    None => None,
                },
            ));
            assert(pre + (spec_point_record(p, lab) + spec_points_bytes(
                pts@.subrange(i + 1, n_points as int),
                match all_labels {
                    Some(ls) => Some(ls.subrange(i + 1, n_points as int)),
                    None => None,
                },
            )) =~= out@ + spec_points_bytes(
                pts@.subrange(i + 1, n_points as int),
                match all_labels {
                    Some(ls) => Some(ls.subrange(i + 1, n_points as int)),
                    None => None,
                },
            ));
        }
        i = i + 1;
    }
    proof {
        assert(pts@.subrange(n_points as int, n_points as int) =~= Seq::<PointUnits>::empty());
        match all_labels {
            Some(ls) => {
                assert(ls.subrange(n_points as int, n_points as int) =~= Seq::<u8>::empty());
            },
            None => {},
        }
        assert(out@ + Seq::<u8>::empty() =~= out@);
    }
    out
}

/// The geographic-extent chunk, serialized.
fn geot_section(g: &GeoExtentQ7) -> (r: Vec<u8>)
    ensures
        r@ == spec_geot_bytes(*g),
{
    let mut out: Vec<u8> = Vec::new();
    out.push(71);
    out.push(69);
    out.push(79);
    out.push(84);
    proof {
        assert(out@ =~= spec_geot_tag());
    }
    write_i32(&mut out, g.lon_min_q7);
    write_i32(&mut out, g.lon_max_q7);
    write_i32(&mut out, g.lat_min_q7);
    write_i32(&mut out, g.lat_max_q7);
    proof {
        assert(out@ =~= spec_geot_bytes(*g));
    }
    out
}

/// The semantic-mask chunk, serialized.
fn smc1_section(c: &Smc1Chunk) -> (r: Vec<u8>)
    requires
        c.palette@.len() <= u16::MAX,
        c.data@.len() <= u32::MAX,
    ensures
        r@ == spec_smc1_bytes(*c),
{
    let mut out: Vec<u8> = Vec::new();
    out.push(83);
    out.push(77);
    out.push(67);
    out.push(49);
    proof {
        assert(out@ =~= spec_smc1_tag());
    }
    write_u16(&mut out, c.width);
    write_u16(&mut out, c.height);
    out.push(c.coord_space.code());
    out.push(c.encoding.code());
    proof {
        assert(out@ =~= spec_smc1_tag() + spec_le16(c.width) + spec_le16(c.height) + seq![
            c.coord_space.spec_code(),
            c.encoding.spec_code(),
        ]);
    }
    let n_pal: usize = c.palette.len();
    write_u16(&mut out, n_pal as u16);
    let ghost pal_base: Seq<u8> = out@;
    proof {
        assert(c.palette@.subrange(0, n_pal as int) =~= c.palette@);
        assert(out@ + spec_palette_bytes(c.palette@) =~= pal_base + spec_palette_bytes(
            c.palette@,
        ));
    }
    let mut j: usize = 0;
    while j < n_pal
        invariant
            n_pal == c.palette@.len(),
            j <= n_pal,
            out@ + spec_palette_bytes(c.palette@.subrange(j as int, n_pal as int)) == pal_base
                + spec_palette_bytes(c.palette@),
        decreases n_pal - j,
    {
        let ghost prej: Seq<u8> = out@;
        let pair: (u8, u8) = c.palette[j];
        out.push(pair.0);
        out.push(pair.1);
        proof {
            let sub = c.palette@.subrange(j as int, n_pal as int);
            assert(sub[0] == pair);
            assert(sub.subrange(1, sub.len() as int) =~= c.palette@.subrange(j + 1, n_pal as int));
            assert(out@ =~= prej + seq![pair.0, pair.1]);
            assert(prej + (seq![pair.0, pair.1] + spec_palette_bytes(
                c.palette@.subrange(j + 1, n_pal as int),
            )) =~= out@ + spec_palette_bytes(c.palette@.subrange(j + 1, n_pal as int)));
        }
        j = j + 1;
    }
    proof {
        assert(c.palette@.subrange(n_pal as int, n_pal as int) =~= Seq::<(u8, u8)>::empty());
        assert(spec_palette_bytes(Seq::<(u8, u8)>::empty()) == Seq::<u8>::empty());
        assert(out@ + Seq::<u8>::empty() =~= out@);
        assert(out@ == pal_base + spec_palette_bytes(c.palette@));
    }
    write_u32(&mut out, c.data.len() as u32);
    write_bytes(&mut out, c.data.as_slice());
    proof {
        assert(out@ =~= spec_smc1_bytes(*c));
    }
    out
}

/// Serializes a tile to its canonical bytes; a tile the format cannot
/// carry is refused with the first applicable error.
pub fn serialize_tile(tile: &HypcTile) -> (r: Result<Vec<u8>, HypcError>)
    ensures
        match r {
            Ok(bytes) => spec_tile_wf(*tile) && bytes@ == spec_tile_bytes(*tile),
            Err(e) => !spec_tile_wf(*tile),
        },
{
    if tile.units_per_meter == 0 {
        return Err(HypcError::ZeroUnitsPerMeter);
    }
    let n_points: usize = tile.points_units.len();
    if n_points > 0xffff_ffff {
        return Err(HypcError::Oversize);
    }
    match &tile.labels {
        Some(ls) => {
            if ls.len() != n_points {
                return Err(HypcError::LabelsLengthMismatch);
            }
        },
        None => {},
    }
    match &tile.tile_key {
        Some(k) => {
            if k.len() != 32 {
                return Err(HypcError::BadKeyLength);
            }
        },
        None => {},
    }
    match &tile.smc1 {
        Some(c) => {
            if c.palette.len() > 0xffff {
                return Err(HypcError::Oversize);
            }
            if c.data.len() > 0xffff_ffff {
                return Err(HypcError::Oversize);
            }
        },
        None => {},
    }
    let mut flags: u32 = 0;
    if tile.tile_key.is_some() {
        flags = flags + 1;
    }
    if tile.labels.is_some() {
        flags = flags + 2;
    }
    if tile.geot.is_some() {
        flags = flags + 4;
    }
    if tile.smc1.is_some() {
        flags = flags + 8;
    }
    proof {
        assert(flags == spec_flags(*tile));
    }
    let mut out: Vec<u8> = Vec::new();
    out.push(72);
    out.push(89);
    out.push(80);
    out.push(67);
    proof {
        assert(out@ =~= spec_hypc_magic());
    }
    write_u32(&mut out, HYPC_VERSION);
    write_u32(&mut out, flags);
    write_u32(&mut out, n_points as u32);
    write_u32(&mut out, tile.units_per_meter);
    write_i64(&mut out, tile.anchor_ecef_units.x);
    write_i64(&mut out, tile.anchor_ecef_units.y);
    write_i64(&mut out, tile.anchor_ecef_units.z);
    match &tile.tile_key {
        Some(k) => {
            write_bytes(&mut out, k.as_slice());
        },
        None => {
            proof {
                assert(out@ + Seq::<u8>::empty() =~= out@);
            }
        },
    }
    let mut pts: Vec<u8> = points_section(&tile.points_units, &tile.labels);
    write_bytes(&mut out, pts.as_slice());
    match &tile.geot {
        Some(g) => {
            let mut gb: Vec<u8> = geot_section(g);
            write_bytes(&mut out, gb.as_slice());
        },
        None => {
            proof {
                assert(out@ + Seq::<u8>::empty() =~= out@);
            }
        },
    }
    match &tile.smc1 {
        Some(c) => {
            let mut cb: Vec<u8> = smc1_section(c);
            write_bytes(&mut out, cb.as_slice());
        },
        None => {
            proof {
                assert(out@ + Seq::<u8>::empty() =~= out@);
            }
        },
    }
    proof {
        assert(out@ =~= spec_tile_bytes(*tile));
    }
    Ok(out)
}


/// The mathematical reading of a parsed tile: the same content as
/// [`HypcTile`], with sequences for the variable-length parts.
pub struct TileModel {
    pub units_per_meter: u32,
    pub anchor_ecef_units: EcefUnits,
    pub tile_key: Option<Seq<u8>>,
    pub points_units: Seq<PointUnits>,
    pub labels: Option<Seq<u8>>,
    pub geot: Option<GeoExtentQ7>,
    pub smc1: Option<Smc1Model>,
}

/// The mathematical reading of a semantic-mask chunk.
pub struct Smc1Model {
    pub width: u16,
    pub height: u16,
    pub coord_space: Smc1CoordSpace,
    pub encoding: Smc1Encoding,
    pub palette: Seq<(u8, u8)>,
    pub data: Seq<u8>,
}

/// The model of an in-memory chunk.
pub open spec fn smc1_model(c: Smc1Chunk) -> Smc1Model {
    Smc1Model {
        width: c.width,
        height: c.height,
        coord_space: c.coord_space,
        encoding: c.encoding,
        palette: c.palette@,
        data: c.data@,
    }
}

/// The model of an in-memory tile.
pub open spec fn tile_model(t: HypcTile) -> TileModel {
    TileModel {
        units_per_meter: t.units_per_meter,
        anchor_ecef_units: t.anchor_ecef_units,
        tile_key: match t.tile_key {
            Some(k) => Some(k@),
            None => None,
        },
        points_units: t.points_units@,
        labels: match t.labels {
            Some(ls) => Some(ls@),
            None => None,
        },
        geot: t.geot,
        smc1: match t.smc1 {
            Some(c) => Some(smc1_model(c)),
            None => None,
        },
    }
}

/// The points the records starting at `pos` denote, with their labels.
pub open spec fn spec_parse_points(b: Seq<u8>, pos: int, n: int, has_labels: bool) -> (
    Seq<PointUnits>,
    Seq<u8>,
)
    decreases n,
{
    if n <= 0 {
        (Seq::empty(), Seq::empty())
    } else {
        let p = PointUnits {
            x: spec_le_i32_val(b.subrange(pos, pos + 4)),
            y: spec_le_i32_val(b.subrange(pos + 4, pos + 8)),
            z: spec_le_i32_val(b.subrange(pos + 8, pos + 12)),
        };
        let rl: int = if has_labels {
            13
        } else {
            12
        };
        let rest = spec_parse_points(b, pos + rl, n - 1, has_labels);
        let lab: Seq<u8> = if has_labels {
            seq![b[pos + 12]]
        } else {
            Seq::empty()
        };
        (seq![p] + rest.0, lab + rest.1)
    }
}

/// The palette pairs starting at `pos`.
pub open spec fn spec_parse_palette(b: Seq<u8>, pos: int, n: int) -> Seq<(u8, u8)>
    decreases n,
{
    if n <= 0 {
        Seq::empty()
    } else {
        seq![(b[pos], b[pos + 1])] + spec_parse_palette(b, pos + 2, n - 1)
    }
}

/// The geographic-extent chunk at `pos`: its value and the position after
/// it, or the reason it is rejected.
pub open spec fn spec_parse_geot(b: Seq<u8>, pos: int) -> Result<(GeoExtentQ7, int), HypcError> {
    if b.len() < pos + 4 {
        Err(HypcError::Truncated)
    } else if b.subrange(pos, pos + 4) != spec_geot_tag() {
        Err(HypcError::BadGeotTag)
    } else if b.len() < pos + 20 {
        Err(HypcError::Truncated)
    } else {
        Ok(
            (
                GeoExtentQ7 {
                    lon_min_q7: spec_le_i32_val(b.subrange(pos + 4, pos + 8)),
                    lon_max_q7: spec_le_i32_val(b.subrange(pos + 8, pos + 12)),
                    lat_min_q7: spec_le_i32_val(b.subrange(pos + 12, pos + 16)),
                    lat_max_q7: spec_le_i32_val(b.subrange(pos + 16, pos + 20)),
                },
                pos + 20,
            ),
        )
    }
}

/// The semantic-mask chunk at `pos`: its model and the position after it,
/// or the reason it is rejected.
pub open spec fn spec_parse_smc1(b: Seq<u8>, pos: int) -> Result<(Smc1Model, int), HypcError> {
    if b.len() < pos + 4 {
        Err(HypcError::Truncated)
    } else if b.subrange(pos, pos + 4) != spec_smc1_tag() {
        Err(HypcError::BadSmc1Tag)
    } else if b.len() < pos + 8 {
        Err(HypcError::Truncated)
    } else {
        let width = spec_le16_val(b.subrange(pos + 4, pos + 6));
        let height = spec_le16_val(b.subrange(pos + 6, pos + 8));
        if b.len() < pos + 9 {
            Err(HypcError::Truncated)
        } else if b[pos + 8] > 1 {
            Err(HypcError::UnknownCoordSpace)
        } else if b.len() < pos + 10 {
            Err(HypcError::Truncated)
        } else if b[pos + 9] > 1 {
            Err(HypcError::UnknownEncoding)
        } else if b.len() < pos + 12 {
            Err(HypcError::Truncated)
        } else {
            let coord_space = if b[pos + 8] == 0 {
                Smc1CoordSpace::DecodeXY
            } else {
                Smc1CoordSpace::Crs84BboxNorm
            };
            let encoding = if b[pos + 9] == 0 {
                Smc1Encoding::Raw
            } else {
                Smc1Encoding::Rle
            };
            let pal_len = spec_le16_val(b.subrange(pos + 10, pos + 12)) as int;
            if b.len() < pos + 12 + 2 * pal_len {
                Err(HypcError::Truncated)
            } else {
                let palette = spec_parse_palette(b, pos + 12, pal_len);
                let dpos = pos + 12 + 2 * pal_len;
                if b.len() < dpos + 4 {
                    Err(HypcError::Truncated)
                } else {
                    let dsize = spec_le32_val(b.subrange(dpos, dpos + 4)) as int;
                    if b.len() < dpos + 4 + dsize {
                        Err(HypcError::Truncated)
                    } else {
                        Ok(
                            (
                                Smc1Model {
                                    width,
                                    height,
                                    coord_space,
                                    encoding,
                                    palette,
                                    data: b.subrange(dpos + 4, dpos + 4 + dsize),
                                },
                                dpos + 4 + dsize,
                            ),
                        )
                    }
                }
            }
        }
    }
}

/// The fixed-position front of a tile: magic, version, flags, counts,
/// anchor and the optional key. Yields its reading and the position of
/// the points section.
pub struct HeaderModel {
    pub units_per_meter: u32,
    pub anchor_ecef_units: EcefUnits,
    pub tile_key: Option<Seq<u8>>,
    pub count: int,
    pub has_labels: bool,
    pub has_geot: bool,
    pub has_smc1: bool,
}

pub open spec fn spec_parse_header(b: Seq<u8>) -> Result<(HeaderModel, int), HypcError> {
    if b.len() < 4 {
        Err(HypcError::Truncated)
    } else if b.subrange(0, 4) != spec_hypc_magic() {
        Err(HypcError::BadMagic)
    } else if b.len() < 8 {
        Err(HypcError::Truncated)
    } else if spec_le32_val(b.subrange(4, 8)) != HYPC_VERSION {
        Err(HypcError::UnsupportedVersion)
    } else if b.len() < 12 {
        Err(HypcError::Truncated)
    } else {
        let flags = spec_le32_val(b.subrange(8, 12)) as int;
        if flags > 15 {
            Err(HypcError::UnknownFlags)
        } else if b.len() < 16 {
            Err(HypcError::Truncated)
        } else {
            let count = spec_le32_val(b.subrange(12, 16)) as int;
            if b.len() < 20 {
                Err(HypcError::Truncated)
            } else {
                let upm = spec_le32_val(b.subrange(16, 20));
                if upm == 0 {
                    Err(HypcError::ZeroUnitsPerMeter)
                } else if b.len() < 44 {
                    Err(HypcError::Truncated)
                } else {
                    let anchor = EcefUnits {
                        x: spec_le_i64_val(b.subrange(20, 28)),
                        y: spec_le_i64_val(b.subrange(28, 36)),
                        z: spec_le_i64_val(b.subrange(36, 44)),
                    };
                    let has_key = flags % 2 == 1;
                    let pos0 = 44 + (if has_key {
                        32int
                    } else {
                        0int
                    });
                    if b.len() < pos0 {
                        Err(HypcError::Truncated)
                    } else {
                        Ok(
                            (
                                HeaderModel {
                                    units_per_meter: upm,
                                    anchor_ecef_units: anchor,
                                    tile_key: if has_key {
                                        Some(b.subrange(44, 76))
                                    } else {
                                        None
                                    },
                                    count,
                                    has_labels: (flags / 2) % 2 == 1,
                                    has_geot: (flags / 4) % 2 == 1,
                                    has_smc1: (flags / 8) % 2 == 1,
                                },
                                pos0,
                            ),
                        )
                    }
                }
            }
        }
    }
}

/// The tile a byte sequence denotes, or the first reason it is rejected.
/// The format is read strictly: unknown flag bits and trailing bytes are
/// refused.
pub open spec fn spec_parse_tile(b: Seq<u8>) -> Result<TileModel, HypcError> {
    match spec_parse_header(b) {
        Err(e) => Err(e),
        Ok((h, pos0)) => {
            let rl: int = if h.has_labels {
                13
            } else {
                12
            };
            let pts_end = pos0 + h.count * rl;
            if b.len() < pts_end {
                Err(HypcError::Truncated)
            } else {
                let pr = spec_parse_points(b, pos0, h.count, h.has_labels);
                let geot_step: Result<(Option<GeoExtentQ7>, int), HypcError> = if h.has_geot {
                    match spec_parse_geot(b, pts_end) {
                        Ok(p) => Ok((Some(p.0), p.1)),
                        Err(e) => Err(e),
                    }
                } else {
                    Ok((None, pts_end))
                };
                match geot_step {
                    Err(e) => Err(e),
                    Ok((geot, pos2)) => {
                        let smc1_step: Result<(Option<Smc1Model>, int), HypcError> = if h.has_smc1 {
                            match spec_parse_smc1(b, pos2) {
                                Ok(p) => Ok((Some(p.0), p.1)),
                                Err(e) => Err(e),
                            }
                        } else {
                            Ok((None, pos2))
                        };
                        match smc1_step {
                            Err(e) => Err(e),
                            Ok((smc1, pos3)) => {
                                if pos3 != b.len() {
                                    Err(HypcError::TrailingBytes)
                                } else {
                                    Ok(
                                        TileModel {
                                            units_per_meter: h.units_per_meter,
                                            anchor_ecef_units: h.anchor_ecef_units,
                                            tile_key: h.tile_key,
                                            points_units: pr.0,
                                            labels: if h.has_labels {
                                                Some(pr.1)
                                            } else {
                                                None
                                            },
                                            geot,
                                            smc1,
                                        },
                                    )
                                }
                            },
                        }
                    },
                }
            }
        },
    }
}

/// A verified copy of a byte slice into a fresh vector.
fn bytes_vec(src: &[u8]) -> (r: Vec<u8>)
    ensures
        r@ == src@,
{
    let mut out: Vec<u8> = Vec::new();
    write_bytes(&mut out, src);
    proof {
        assert(Seq::<u8>::empty() + src@ =~= src@);
    }
    out
}

/// Reads the geographic-extent chunk at the cursor.
fn parse_geot(buf: &[u8], pos: &mut usize) -> (r: Result<GeoExtentQ7, HypcError>)
    ensures
        match r {
            Ok(g) => (spec_parse_geot(buf@, *old(pos) as int) matches Ok(p) && p.0 == g && p.1
                == *final(pos) as int),
            Err(e) => spec_parse_geot(buf@, *old(pos) as int) == Err::<
                (GeoExtentQ7, int),
                HypcError,
            >(e),
        },
{
    let ghost p0: int = *pos as int;
    let tag: &[u8] = match take(buf, pos, 4) {
        Some(t) => t,
        None => {
            return Err(HypcError::Truncated);
        },
    };
    if !(tag[0] == 71 && tag[1] == 69 && tag[2] == 79 && tag[3] == 84) {
        proof {
            if buf@.subrange(p0, p0 + 4) == spec_geot_tag() {
                assert(tag@[0] == 71 && tag@[1] == 69 && tag@[2] == 79 && tag@[3] == 84);
            }
        }
        return Err(HypcError::BadGeotTag);
    }
    proof {
        assert(buf@.subrange(p0, p0 + 4) =~= spec_geot_tag());
    }
    let lon_min_q7: i32 = match le_i32(buf, pos) {
        Some(v) => v,
        None => {
            return Err(HypcError::Truncated);
        },
    };
    let lon_max_q7: i32 = match le_i32(buf, pos) {
        Some(v) => v,
        None => {
            return Err(HypcError::Truncated);
        },
    };
    let lat_min_q7: i32 = match le_i32(buf, pos) {
        Some(v) => v,
        None => {
            return Err(HypcError::Truncated);
        },
    };
    let lat_max_q7: i32 = match le_i32(buf, pos) {
        Some(v) => v,
        None => {
            return Err(HypcError::Truncated);
        },
    };
    proof {
        lemma_le_i32_val(lon_min_q7);
        lemma_le_i32_val(lon_max_q7);
        lemma_le_i32_val(lat_min_q7);
        lemma_le_i32_val(lat_max_q7);
    }
    Ok(GeoExtentQ7 { lon_min_q7, lon_max_q7, lat_min_q7, lat_max_q7 })
}

/// Reads the semantic-mask chunk at the cursor.
#[verifier::rlimit(60)]
fn parse_smc1(buf: &[u8], pos: &mut usize) -> (r: Result<Smc1Chunk, HypcError>)
    ensures
        match r {
            Ok(c) => (spec_parse_smc1(buf@, *old(pos) as int) matches Ok(p) && p.0 == smc1_model(
                c,
            ) && p.1 == *final(pos) as int) && c.palette@.len() <= 65535,
            Err(e) => spec_parse_smc1(buf@, *old(pos) as int) == Err::<
                (Smc1Model, int),
                HypcError,
            >(e),
        },
{
    let ghost p0: int = *pos as int;
    let blen: usize = buf.len();
    let tag: &[u8] = match take(buf, pos, 4) {
        Some(t) => t,
        None => {
            return Err(HypcError::Truncated);
        },
    };
    if !(tag[0] == 83 && tag[1] == 77 && tag[2] == 67 && tag[3] == 49) {
        proof {
            if buf@.subrange(p0, p0 + 4) == spec_smc1_tag() {
                assert(tag@[0] == 83 && tag@[1] == 77 && tag@[2] == 67 && tag@[3] == 49);
            }
        }
        return Err(HypcError::BadSmc1Tag);
    }
    proof {
        assert(buf@.subrange(p0, p0 + 4) =~= spec_smc1_tag());
    }
    let width: u16 = match le_u16(buf, pos) {
        Some(v) => v,
        None => {
            return Err(HypcError::Truncated);
        },
    };
    let height: u16 = match le_u16(buf, pos) {
        Some(v) => v,
        None => {
            return Err(HypcError::Truncated);
        },
    };
    proof {
        lemma_le16_val(width);
        lemma_le16_val(height);
    }
    let cs_code: u8 = match le_u8(buf, pos) {
        Some(v) => v,
        None => {
            return Err(HypcError::Truncated);
        },
    };
    if cs_code > 1 {
        return Err(HypcError::UnknownCoordSpace);
    }
    let enc_code: u8 = match le_u8(buf, pos) {
        Some(v) => v,
        None => {
            return Err(HypcError::Truncated);
        },
    };
    if enc_code > 1 {
        return Err(HypcError::UnknownEncoding);
    }
    let coord_space: Smc1CoordSpace = if cs_code == 0 {
        Smc1CoordSpace::DecodeXY
    } else {
        Smc1CoordSpace::Crs84BboxNorm
    };
    let encoding: Smc1Encoding = if enc_code == 0 {
        Smc1Encoding::Raw
    } else {
        Smc1Encoding::Rle
    };
    let pal_len: u16 = match le_u16(buf, pos) {
        Some(v) => v,
        None => {
            return Err(HypcError::Truncated);
        },
    };
    proof {
        lemma_le16_val(pal_len);
    }
    let n_pal: usize = pal_len as usize;
    if !need(buf, *pos, 2 * n_pal) {
        return Err(HypcError::Truncated);
    }
    let ghost palp: int = *pos as int;
    let mut palette: Vec<(u8, u8)> = Vec::new();
    let mut j: usize = 0;
    proof {
        assert(Seq::<(u8, u8)>::empty() + spec_parse_palette(buf@, palp, n_pal as int)
            =~= spec_parse_palette(buf@, palp, n_pal as int));
    }
    while j < n_pal
        invariant
            blen == buf@.len(),
            j <= n_pal,
            *pos == palp + 2 * j,
            palp + 2 * n_pal <= blen,
            palette@.len() == j,
            spec_parse_palette(buf@, palp, n_pal as int) == palette@ + spec_parse_palette(
                buf@,
                palp + 2 * j,
                n_pal - j,
            ),
        decreases n_pal - j,
    {
        let ghost prepal: Seq<(u8, u8)> = palette@;
        let class: u8 = le_u8(buf, pos).unwrap();
        let precedence: u8 = le_u8(buf, pos).unwrap();
        palette.push((class, precedence));
        proof {
            assert(spec_parse_palette(buf@, palp + 2 * j, n_pal - j) == seq![
                (class, precedence),
            ] + spec_parse_palette(buf@, palp + 2 * (j + 1), n_pal - (j + 1)));
            assert(prepal + (seq![(class, precedence)] + spec_parse_palette(
                buf@,
                palp + 2 * (j + 1),
                n_pal - (j + 1),
            )) =~= palette@ + spec_parse_palette(buf@, palp + 2 * (j + 1), n_pal - (j + 1)));
        }
        j = j + 1;
    }
    proof {
        assert(spec_parse_palette(buf@, palp + 2 * n_pal, 0) == Seq::<(u8, u8)>::empty());
        assert(palette@ + Seq::<(u8, u8)>::empty() =~= palette@);
    }
    let dsize: u32 = match le_u32(buf, pos) {
        Some(v) => v,
        None => {
            return Err(HypcError::Truncated);
        },
    };
    proof {
        lemma_le32_val(dsize);
    }
    let data_slice: &[u8] = match take(buf, pos, dsize as usize) {
        Some(sl) => sl,
        None => {
            return Err(HypcError::Truncated);
        },
    };
    let data: Vec<u8> = bytes_vec(data_slice);
    Ok(Smc1Chunk { width, height, coord_space, encoding, palette, data })
}


/// The parsed fixed-position front of a tile.
struct ParsedHeader {
    units_per_meter: u32,
    anchor_ecef_units: EcefUnits,
    tile_key: Option<Vec<u8>>,
    count32: u32,
    has_labels: bool,
    has_geot: bool,
    has_smc1: bool,
}

/// The model of a parsed header.
spec fn header_model(h: ParsedHeader) -> HeaderModel {
    HeaderModel {
        units_per_meter: h.units_per_meter,
        anchor_ecef_units: h.anchor_ecef_units,
        tile_key: match h.tile_key {
            Some(k) => Some(k@),
            None => None,
        },
        count: h.count32 as int,
        has_labels: h.has_labels,
        has_geot: h.has_geot,
        has_smc1: h.has_smc1,
    }
}

/// Reads the tile front at the cursor, which must start at zero.
#[verifier::rlimit(60)]
fn parse_header(bytes: &[u8], pos: &mut usize) -> (r: Result<ParsedHeader, HypcError>)
    requires
        *old(pos) == 0,
    ensures
        match r {
            Ok(h) => (spec_parse_header(bytes@) matches Ok(p) && p.0 == header_model(h) && p.1
                == *final(pos) as int),
            Err(e) => spec_parse_header(bytes@) == Err::<(HeaderModel, int), HypcError>(e),
        },
{
    let magic: &[u8] = match take(bytes, pos, 4) {
        Some(t) => t,
        None => {
            return Err(HypcError::Truncated);
        },
    };
    if !(magic[0] == 72 && magic[1] == 89 && magic[2] == 80 && magic[3] == 67) {
        proof {
            if bytes@.subrange(0, 4) == spec_hypc_magic() {
                assert(magic@[0] == 72 && magic@[1] == 89 && magic@[2] == 80 && magic@[3] == 67);
            }
        }
        return Err(HypcError::BadMagic);
    }
    proof {
        assert(bytes@.subrange(0, 4) =~= spec_hypc_magic());
    }
    let version: u32 = match le_u32(bytes, pos) {
        Some(v) => v,
        None => {
            return Err(HypcError::Truncated);
        },
    };
    proof {
        lemma_le32_val(version);
    }
    if version != HYPC_VERSION {
        return Err(HypcError::UnsupportedVersion);
    }
    let flags: u32 = match le_u32(bytes, pos) {
        Some(v) => v,
        None => {
            return Err(HypcError::Truncated);
        },
    };
    proof {
        lemma_le32_val(flags);
    }
    if flags > 15 {
        return Err(HypcError::UnknownFlags);
    }
    let count32: u32 = match le_u32(bytes, pos) {
        Some(v) => v,
        None => {
            return Err(HypcError::Truncated);
        },
    };
    proof {
        lemma_le32_val(count32);
    }
    let units_per_meter: u32 = match le_u32(bytes, pos) {
        Some(v) => v,
        None => {
            return Err(HypcError::Truncated);
        },
    };
    proof {
        lemma_le32_val(units_per_meter);
    }
    if units_per_meter == 0 {
        return Err(HypcError::ZeroUnitsPerMeter);
    }
    let ax: i64 = match le_i64(bytes, pos) {
        Some(v) => v,
        None => {
            return Err(HypcError::Truncated);
        },
    };
    let ay: i64 = match le_i64(bytes, pos) {
        Some(v) => v,
        None => {
            return Err(HypcError::Truncated);
        },
    };
    let az: i64 = match le_i64(bytes, pos) {
        Some(v) => v,
        None => {
            return Err(HypcError::Truncated);
        },
    };
    proof {
        lemma_le_i64_val(ax);
        lemma_le_i64_val(ay);
        lemma_le_i64_val(az);
    }
    let has_key: bool = flags % 2 == 1;
    let tile_key: Option<Vec<u8>> = if has_key {
        match take(bytes, pos, 32) {
            Some(k) => Some(bytes_vec(k)),
            None => {
                return Err(HypcError::Truncated);
            },
        }
    } else {
        None
    };
    Ok(ParsedHeader {
        units_per_meter,
        anchor_ecef_units: EcefUnits { x: ax, y: ay, z: az },
        tile_key,
        count32,
        has_labels: (flags / 2) % 2 == 1,
        has_geot: (flags / 4) % 2 == 1,
        has_smc1: (flags / 8) % 2 == 1,
    })
}

/// Parses a HYPC tile from a contiguous byte slice: the single source of
/// truth for reading the format. Returns exactly what `spec_parse_tile`
/// assigns to the bytes; the format is read strictly, so unknown flag
/// bits and trailing bytes are refused.
#[verifier::rlimit(100)]
pub fn parse_hypc_bytes(bytes: &[u8]) -> (r: Result<HypcTile, HypcError>)
    ensures
        match r {
            Ok(t) => (spec_parse_tile(bytes@) matches Ok(m) && m == tile_model(t))
                && spec_tile_wf(t),
            Err(e) => spec_parse_tile(bytes@) == Err::<TileModel, HypcError>(e),
        },
{
    let blen: usize = bytes.len();
    let mut pos: usize = 0;
    let header: ParsedHeader = match parse_header(bytes, &mut pos) {
        Ok(h) => h,
        Err(e) => {
            return Err(e);
        },
    };
    let ghost pos0: int = pos as int;
    let has_labels: bool = header.has_labels;
    let rl: usize = if has_labels {
        13
    } else {
        12
    };
    let count: usize = header.count32 as usize;
    let needed: u64 = (count as u64) * (rl as u64);
    if ((blen - pos) as u64) < needed {
        proof {
            assert(bytes@.len() < pos0 + (header.count32 as int) * (rl as int));
        }
        return Err(HypcError::Truncated);
    }
    proof {
        assert(pos0 + (count as int) * (rl as int) <= blen);
    }
    let mut points_units: Vec<PointUnits> = Vec::new();
    let mut label_bytes: Vec<u8> = Vec::new();
    let ghost full_parse: (Seq<PointUnits>, Seq<u8>) = spec_parse_points(
        bytes@,
        pos0,
        count as int,
        has_labels,
    );
    proof {
        assert(Seq::<PointUnits>::empty() + full_parse.0 =~= full_parse.0);
        assert(Seq::<u8>::empty() + full_parse.1 =~= full_parse.1);
    }
    let mut i: usize = 0;
    while i < count
        invariant
            blen == bytes@.len(),
            i <= count,
            rl == (if has_labels {
                13int
            } else {
                12int
            }),
            pos == pos0 + i * rl,
            pos0 + count * rl <= blen,
            full_parse == spec_parse_points(bytes@, pos0, count as int, has_labels),
            points_units@.len() == i,
            label_bytes@.len() == (if has_labels {
                i as int
            } else {
                0int
            }),
            full_parse.0 == points_units@ + spec_parse_points(
                bytes@,
                pos as int,
                count - i,
                has_labels,
            ).0,
            full_parse.1 == label_bytes@ + spec_parse_points(
                bytes@,
                pos as int,
                count - i,
                has_labels,
            ).1,
        decreases count - i,
    {
        proof {
            assert((i + 1) * rl <= count * rl) by (nonlinear_arith)
                requires
                    i + 1 <= count,
                    rl >= 0,
            ;
            assert(i * rl + rl == (i + 1) * rl) by (nonlinear_arith);
        }
        let ghost cur: int = pos as int;
        let ghost pre_pts: Seq<PointUnits> = points_units@;
        let ghost pre_lbs: Seq<u8> = label_bytes@;
        let x: i32 = le_i32(bytes, &mut pos).unwrap();
        let y: i32 = le_i32(bytes, &mut pos).unwrap();
        let z: i32 = le_i32(bytes, &mut pos).unwrap();
        proof {
            lemma_le_i32_val(x);
            lemma_le_i32_val(y);
            lemma_le_i32_val(z);
        }
        let p = PointUnits { x, y, z };
        points_units.push(p);
        if has_labels {
            let l: u8 = le_u8(bytes, &mut pos).unwrap();
            label_bytes.push(l);
        }
        proof {
            let tail0 = spec_parse_points(bytes@, cur + rl, count - (i + 1), has_labels).0;
            let tail1 = spec_parse_points(bytes@, cur + rl, count - (i + 1), has_labels).1;
            let step = spec_parse_points(bytes@, cur, count - i, has_labels);
            assert(step.0 == seq![p] + tail0);
            assert(pre_pts + (seq![p] + tail0) =~= points_units@ + tail0);
            if has_labels {
                assert(step.1 == seq![bytes@[cur + 12]] + tail1);
                assert(label_bytes@.last() == bytes@[cur + 12]);
                assert(pre_lbs + (seq![bytes@[cur + 12]] + tail1) =~= label_bytes@ + tail1);
            } else {
                assert(step.1 == Seq::<u8>::empty() + tail1);
                assert(pre_lbs + (Seq::<u8>::empty() + tail1) =~= label_bytes@ + tail1);
            }
        }
        i = i + 1;
    }
    proof {
        assert(spec_parse_points(bytes@, pos as int, 0, has_labels).0
            == Seq::<PointUnits>::empty());
        assert(spec_parse_points(bytes@, pos as int, 0, has_labels).1 == Seq::<u8>::empty());
        assert(points_units@ + Seq::<PointUnits>::empty() =~= points_units@);
        assert(label_bytes@ + Seq::<u8>::empty() =~= label_bytes@);
        assert(full_parse.0 == points_units@);
        assert(full_parse.1 == label_bytes@);
    }
    let labels: Option<Vec<u8>> = if has_labels {
        Some(label_bytes)
    } else {
        None
    };
    let geot: Option<GeoExtentQ7> = if header.has_geot {
        match parse_geot(bytes, &mut pos) {
            Ok(g) => Some(g),
            Err(e) => {
                return Err(e);
            },
        }
    } else {
        None
    };
    let smc1: Option<Smc1Chunk> = if header.has_smc1 {
        match parse_smc1(bytes, &mut pos) {
            Ok(c) => Some(c),
            Err(e) => {
                return Err(e);
            },
        }
    } else {
        None
    };
    if pos != blen {
        return Err(HypcError::TrailingBytes);
    }
    let tile = HypcTile {
        units_per_meter: header.units_per_meter,
        anchor_ecef_units: header.anchor_ecef_units,
        tile_key: header.tile_key,
        points_units,
        labels,
        geot,
        smc1,
    };
    proof {
        assert(spec_parse_tile(bytes@) matches Ok(m) && m == tile_model(tile));
    }
    Ok(tile)
}


/// Slicing within a slice of `b` is slicing `b` at shifted bounds.
proof fn lemma_subrange_slice<T>(b: Seq<T>, pos: int, len: int, a: int, c: int)
    requires
        0 <= pos,
        pos + len <= b.len(),
        0 <= a <= c <= len,
    ensures
        b.subrange(pos, pos + len).subrange(a, c) == b.subrange(pos + a, pos + c),
{
    assert forall|j: int| 0 <= j < c - a implies #[trigger] b.subrange(pos, pos + len).subrange(
        a,
        c,
    )[j] == b.subrange(pos + a, pos + c)[j] by {
        assert(b.subrange(pos, pos + len).subrange(a, c)[j] == b.subrange(pos, pos + len)[a + j]);
        assert(b.subrange(pos, pos + len)[a + j] == b[pos + (a + j)]);
        assert(b.subrange(pos + a, pos + c)[j] == b[(pos + a) + j]);
    }
    assert(b.subrange(pos, pos + len).subrange(a, c) =~= b.subrange(pos + a, pos + c));
}

/// The points section is as long as its record count says.
proof fn lemma_points_bytes_len(pts: Seq<PointUnits>, labels: Option<Seq<u8>>)
    requires
        (labels matches Some(ls) ==> ls.len() == pts.len()),
    ensures
        spec_points_bytes(pts, labels).len() == pts.len() * (if labels is Some {
            13int
        } else {
            12int
        }),
    decreases pts.len(),
{
    let rl: int = if labels is Some {
        13
    } else {
        12
    };
    if pts.len() == 0 {
    } else {
        let tail_ls = match labels {
            Some(ls) => Some(ls.subrange(1, ls.len() as int)),
            None => None,
        };
        lemma_points_bytes_len(pts.subrange(1, pts.len() as int), tail_ls);
        assert(pts.len() * rl == (pts.len() - 1) * rl + rl) by (nonlinear_arith);
    }
}

/// The palette section is twice as long as its pair count.
proof fn lemma_palette_bytes_len(pal: Seq<(u8, u8)>)
    ensures
        spec_palette_bytes(pal).len() == 2 * pal.len(),
    decreases pal.len(),
{
    if pal.len() > 0 {
        lemma_palette_bytes_len(pal.subrange(1, pal.len() as int));
    }
}

/// Parsing a serialized points section yields back the points and labels.
#[verifier::rlimit(60)]
proof fn lemma_points_parse_inverse(b: Seq<u8>, pos: int, pts: Seq<PointUnits>, labels: Option<
    Seq<u8>,
>)
    requires
        (labels matches Some(ls) ==> ls.len() == pts.len()),
        0 <= pos,
        pos + spec_points_bytes(pts, labels).len() <= b.len(),
        b.subrange(pos, pos + spec_points_bytes(pts, labels).len()) == spec_points_bytes(
            pts,
            labels,
        ),
    ensures
        spec_parse_points(b, pos, pts.len() as int, labels is Some).0 == pts,
        spec_parse_points(b, pos, pts.len() as int, labels is Some).1 == (match labels {
            Some(ls) => ls,
            None => Seq::empty(),
        }),
    decreases pts.len(),
{
    let rl: int = if labels is Some {
        13
    } else {
        12
    };
    lemma_points_bytes_len(pts, labels);
    if pts.len() == 0 {
        assert(spec_parse_points(b, pos, 0, labels is Some).0 =~= pts);
        match labels {
            Some(ls) => {
                assert(spec_parse_points(b, pos, 0, true).1 =~= ls);
            },
            None => {},
        }
    } else {
        let l0: Option<u8> = match labels {
            Some(ls) => Some(ls[0]),
            None => None,
        };
        let tail_ls = match labels {
            Some(ls) => Some(ls.subrange(1, ls.len() as int)),
            None => None,
        };
        let tail = pts.subrange(1, pts.len() as int);
        let rec = spec_point_record(pts[0], l0);
        let sec = spec_points_bytes(pts, labels);
        lemma_points_bytes_len(tail, tail_ls);
        assert(rec.len() == rl);
        assert(sec == rec + spec_points_bytes(tail, tail_ls));
        lemma_subrange_slice(b, pos, sec.len() as int, 0, 4);
        lemma_subrange_slice(b, pos, sec.len() as int, 4, 8);
        lemma_subrange_slice(b, pos, sec.len() as int, 8, 12);
        lemma_subrange_slice(b, pos, sec.len() as int, rl, sec.len() as int);
        assert(sec.subrange(0, 4) =~= spec_le_i32(pts[0].x));
        assert(sec.subrange(4, 8) =~= spec_le_i32(pts[0].y));
        assert(sec.subrange(8, 12) =~= spec_le_i32(pts[0].z));
        assert(sec.subrange(rl, sec.len() as int) =~= spec_points_bytes(tail, tail_ls));
        assert(b.subrange(pos, pos + 4) == spec_le_i32(pts[0].x));
        assert(b.subrange(pos + 4, pos + 8) == spec_le_i32(pts[0].y));
        assert(b.subrange(pos + 8, pos + 12) == spec_le_i32(pts[0].z));
        lemma_le_i32_val(pts[0].x);
        lemma_le_i32_val(pts[0].y);
        lemma_le_i32_val(pts[0].z);
        lemma_points_parse_inverse(b, pos + rl, tail, tail_ls);
        match labels {
            Some(ls) => {
                lemma_subrange_slice(b, pos, sec.len() as int, 12, 13);
                assert(sec.subrange(12, 13) =~= seq![ls[0]]);
                assert(b.subrange(pos + 12, pos + 13)[0] == b[pos + 12]);
                assert(b[pos + 12] == ls[0]);
            },
            None => {},
        }
        let parsed = spec_parse_points(b, pos, pts.len() as int, labels is Some);
        assert(parsed.0 =~= pts);
        match labels {
            Some(ls) => {
                assert(b[pos + 12] == rec[12]);
                assert(rec[12] == ls[0]);
                assert(parsed.1 =~= ls);
            },
            None => {
                assert(parsed.1 =~= Seq::<u8>::empty());
            },
        }
    }
}

/// Parsing a serialized palette yields back the pairs.
proof fn lemma_palette_parse_inverse(b: Seq<u8>, pos: int, pal: Seq<(u8, u8)>)
    requires
        0 <= pos,
        pos + 2 * pal.len() <= b.len(),
        b.subrange(pos, pos + 2 * pal.len()) == spec_palette_bytes(pal),
    ensures
        spec_parse_palette(b, pos, pal.len() as int) == pal,
    decreases pal.len(),
{
    lemma_palette_bytes_len(pal);
    if pal.len() == 0 {
        assert(spec_parse_palette(b, pos, 0) =~= pal);
    } else {
        let tail = pal.subrange(1, pal.len() as int);
        lemma_palette_bytes_len(tail);
        let sec = spec_palette_bytes(pal);
        assert(sec == seq![pal[0].0, pal[0].1] + spec_palette_bytes(tail));
        lemma_subrange_slice(b, pos, sec.len() as int, 0, 2);
        lemma_subrange_slice(b, pos, sec.len() as int, 2, sec.len() as int);
        assert(sec.subrange(0, 2) =~= seq![pal[0].0, pal[0].1]);
        assert(sec.subrange(2, sec.len() as int) =~= spec_palette_bytes(tail));
        lemma_palette_parse_inverse(b, pos + 2, tail);
        assert(b.subrange(pos, pos + 2)[0] == b[pos]);
        assert(b.subrange(pos, pos + 2)[1] == b[pos + 1]);
        assert(b[pos] == pal[0].0);
        assert(b[pos + 1] == pal[0].1);
        assert(spec_parse_palette(b, pos, pal.len() as int) =~= pal);
    }
}


/// A serialized geographic-extent chunk parses back to its value.
proof fn lemma_geot_round_trip(b: Seq<u8>, pos: int, g: GeoExtentQ7)
    requires
        0 <= pos,
        pos + 20 <= b.len(),
        b.subrange(pos, pos + 20) == spec_geot_bytes(g),
    ensures
        spec_parse_geot(b, pos) == Ok::<(GeoExtentQ7, int), HypcError>((g, pos + 20)),
{
    let sec = spec_geot_bytes(g);
    lemma_subrange_slice(b, pos, 20, 0, 4);
    lemma_subrange_slice(b, pos, 20, 4, 8);
    lemma_subrange_slice(b, pos, 20, 8, 12);
    lemma_subrange_slice(b, pos, 20, 12, 16);
    lemma_subrange_slice(b, pos, 20, 16, 20);
    assert(sec.subrange(0, 4) =~= spec_geot_tag());
    assert(sec.subrange(4, 8) =~= spec_le_i32(g.lon_min_q7));
    assert(sec.subrange(8, 12) =~= spec_le_i32(g.lon_max_q7));
    assert(sec.subrange(12, 16) =~= spec_le_i32(g.lat_min_q7));
    assert(sec.subrange(16, 20) =~= spec_le_i32(g.lat_max_q7));
    lemma_le_i32_val(g.lon_min_q7);
    lemma_le_i32_val(g.lon_max_q7);
    lemma_le_i32_val(g.lat_min_q7);
    lemma_le_i32_val(g.lat_max_q7);
}

/// A serialized semantic-mask chunk parses back to its model.
#[verifier::rlimit(60)]
proof fn lemma_smc1_round_trip(b: Seq<u8>, pos: int, c: Smc1Chunk)
    requires
        0 <= pos,
        c.palette@.len() <= u16::MAX,
        c.data@.len() <= u32::MAX,
        pos + spec_smc1_bytes(c).len() <= b.len(),
        b.subrange(pos, pos + spec_smc1_bytes(c).len()) == spec_smc1_bytes(c),
    ensures
        spec_parse_smc1(b, pos) == Ok::<(Smc1Model, int), HypcError>(
            (smc1_model(c), pos + spec_smc1_bytes(c).len()),
        ),
{
    let sec = spec_smc1_bytes(c);
    let palw = spec_le16((c.palette@.len() as u16));
    let datw = spec_le32((c.data@.len() as u32));
    lemma_palette_bytes_len(c.palette@);
    let pl = c.palette@.len() as int;
    let dl = c.data@.len() as int;
    assert(sec.len() == 16 + 2 * pl + dl);
    let slen = sec.len() as int;
    lemma_subrange_slice(b, pos, slen, 0, 4);
    lemma_subrange_slice(b, pos, slen, 4, 6);
    lemma_subrange_slice(b, pos, slen, 6, 8);
    lemma_subrange_slice(b, pos, slen, 8, 9);
    lemma_subrange_slice(b, pos, slen, 9, 10);
    lemma_subrange_slice(b, pos, slen, 10, 12);
    lemma_subrange_slice(b, pos, slen, 12, 12 + 2 * pl);
    lemma_subrange_slice(b, pos, slen, 12 + 2 * pl, 16 + 2 * pl);
    lemma_subrange_slice(b, pos, slen, 16 + 2 * pl, slen);
    assert(sec.subrange(0, 4) =~= spec_smc1_tag());
    assert(sec.subrange(4, 6) =~= spec_le16(c.width));
    assert(sec.subrange(6, 8) =~= spec_le16(c.height));
    assert(sec.subrange(8, 9) =~= seq![c.coord_space.spec_code()]);
    assert(sec.subrange(9, 10) =~= seq![c.encoding.spec_code()]);
    assert(sec.subrange(10, 12) =~= palw);
    assert(sec.subrange(12, 12 + 2 * pl) =~= spec_palette_bytes(c.palette@));
    assert(sec.subrange(12 + 2 * pl, 16 + 2 * pl) =~= datw);
    assert(sec.subrange(16 + 2 * pl, slen) =~= c.data@);
    lemma_le16_val(c.width);
    lemma_le16_val(c.height);
    lemma_le16_val((c.palette@.len() as u16));
    lemma_le32_val((c.data@.len() as u32));
    assert(b.subrange(pos + 8, pos + 9)[0] == b[pos + 8]);
    assert(b[pos + 8] == c.coord_space.spec_code());
    assert(b.subrange(pos + 9, pos + 10)[0] == b[pos + 9]);
    assert(b[pos + 9] == c.encoding.spec_code());
    lemma_palette_parse_inverse(b, pos + 12, c.palette@);
    assert(spec_parse_smc1(b, pos) matches Ok(p) && p.0 == smc1_model(c) && p.1 == pos + slen);
}


/// A serialized tile's front parses back to its header reading.
#[verifier::rlimit(100)]
proof fn lemma_header_round_trip(t: HypcTile)
    requires
        spec_tile_wf(t),
    ensures
        ({
            let klen: int = if t.tile_key is Some {
                32
            } else {
                0
            };
            spec_parse_header(spec_tile_bytes(t)) == Ok::<(HeaderModel, int), HypcError>(
                (
                    HeaderModel {
                        units_per_meter: t.units_per_meter,
                        anchor_ecef_units: t.anchor_ecef_units,
                        tile_key: match t.tile_key {
                            Some(k) => Some(k@),
                            None => None,
                        },
                        count: t.points_units@.len() as int,
                        has_labels: t.labels is Some,
                        has_geot: t.geot is Some,
                        has_smc1: t.smc1 is Some,
                    },
                    44 + klen,
                ),
            )
        }),
{
    let b = spec_tile_bytes(t);
    let keypart: Seq<u8> = match t.tile_key {
        Some(k) => k@,
        None => Seq::empty(),
    };
    let hdr = spec_hypc_magic() + spec_le32(HYPC_VERSION) + spec_le32(spec_flags(t)) + spec_le32(
        t.points_units@.len() as u32,
    ) + spec_le32(t.units_per_meter) + spec_le_i64(t.anchor_ecef_units.x) + spec_le_i64(
        t.anchor_ecef_units.y,
    ) + spec_le_i64(t.anchor_ecef_units.z) + keypart;
    let klen: int = if t.tile_key is Some {
        32
    } else {
        0
    };
    let hlen: int = 44 + klen;
    assert(hdr.len() == hlen);
    assert(b.subrange(0, hlen) =~= hdr);
    lemma_subrange_slice(b, 0, hlen, 0, 4);
    lemma_subrange_slice(b, 0, hlen, 4, 8);
    lemma_subrange_slice(b, 0, hlen, 8, 12);
    lemma_subrange_slice(b, 0, hlen, 12, 16);
    lemma_subrange_slice(b, 0, hlen, 16, 20);
    lemma_subrange_slice(b, 0, hlen, 20, 28);
    lemma_subrange_slice(b, 0, hlen, 28, 36);
    lemma_subrange_slice(b, 0, hlen, 36, 44);
    assert(hdr.subrange(0, 4) =~= spec_hypc_magic());
    assert(hdr.subrange(4, 8) =~= spec_le32(HYPC_VERSION));
    assert(hdr.subrange(8, 12) =~= spec_le32(spec_flags(t)));
    assert(hdr.subrange(12, 16) =~= spec_le32(t.points_units@.len() as u32));
    assert(hdr.subrange(16, 20) =~= spec_le32(t.units_per_meter));
    assert(hdr.subrange(20, 28) =~= spec_le_i64(t.anchor_ecef_units.x));
    assert(hdr.subrange(28, 36) =~= spec_le_i64(t.anchor_ecef_units.y));
    assert(hdr.subrange(36, 44) =~= spec_le_i64(t.anchor_ecef_units.z));
    lemma_le32_val(HYPC_VERSION);
    lemma_le32_val(spec_flags(t));
    lemma_le32_val(t.points_units@.len() as u32);
    lemma_le32_val(t.units_per_meter);
    lemma_le_i64_val(t.anchor_ecef_units.x);
    lemma_le_i64_val(t.anchor_ecef_units.y);
    lemma_le_i64_val(t.anchor_ecef_units.z);
    let kbit: int = if t.tile_key is Some {
        1
    } else {
        0
    };
    let lbit: int = if t.labels is Some {
        1
    } else {
        0
    };
    let gbit: int = if t.geot is Some {
        1
    } else {
        0
    };
    let sbit: int = if t.smc1 is Some {
        1
    } else {
        0
    };
    let flags: int = spec_flags(t) as int;
    assert(flags == kbit + 2 * lbit + 4 * gbit + 8 * sbit);
    assert(flags % 2 == kbit && (flags / 2) % 2 == lbit && (flags / 4) % 2 == gbit && (flags / 8)
        % 2 == sbit) by (nonlinear_arith)
        requires
            0 <= kbit < 2,
            0 <= lbit < 2,
            0 <= gbit < 2,
            0 <= sbit < 2,
            flags == kbit + 2 * lbit + 4 * gbit + 8 * sbit,
    ;
    match t.tile_key {
        Some(k) => {
            lemma_subrange_slice(b, 0, hlen, 44, 76);
            assert(hdr.subrange(44, 76) =~= k@);
        },
        None => {},
    }
}

/// The three variable sections of a serialized tile sit at their computed
/// offsets.
#[verifier::rlimit(100)]
proof fn lemma_tile_sections(t: HypcTile)
    requires
        spec_tile_wf(t),
    ensures
        ({
            let b = spec_tile_bytes(t);
            let ls: Option<Seq<u8>> = match t.labels {
                Some(l) => Some(l@),
                None => None,
            };
            let pbytes = spec_points_bytes(t.points_units@, ls);
            let hlen: int = 44 + (if t.tile_key is Some {
                32int
            } else {
                0int
            });
            let plen = pbytes.len() as int;
            let gbytes: Seq<u8> = match t.geot {
                Some(g) => spec_geot_bytes(g),
                None => Seq::empty(),
            };
            let glen = gbytes.len() as int;
            let sbytes: Seq<u8> = match t.smc1 {
                Some(c) => spec_smc1_bytes(c),
                None => Seq::empty(),
            };
            let slen = sbytes.len() as int;
            &&& b.len() == hlen + plen + glen + slen
            &&& b.subrange(hlen, hlen + plen) == pbytes
            &&& b.subrange(hlen + plen, hlen + plen + glen) == gbytes
            &&& b.subrange(hlen + plen + glen, hlen + plen + glen + slen) == sbytes
        }),
{
    let b = spec_tile_bytes(t);
    let keypart: Seq<u8> = match t.tile_key {
        Some(k) => k@,
        None => Seq::empty(),
    };
    let hdr = spec_hypc_magic() + spec_le32(HYPC_VERSION) + spec_le32(spec_flags(t)) + spec_le32(
        t.points_units@.len() as u32,
    ) + spec_le32(t.units_per_meter) + spec_le_i64(t.anchor_ecef_units.x) + spec_le_i64(
        t.anchor_ecef_units.y,
    ) + spec_le_i64(t.anchor_ecef_units.z) + keypart;
    let ls: Option<Seq<u8>> = match t.labels {
        Some(l) => Some(l@),
        None => None,
    };
    let pbytes = spec_points_bytes(t.points_units@, ls);
    let gbytes: Seq<u8> = match t.geot {
        Some(g) => spec_geot_bytes(g),
        None => Seq::empty(),
    };
    let sbytes: Seq<u8> = match t.smc1 {
        Some(c) => spec_smc1_bytes(c),
        None => Seq::empty(),
    };
    let hlen: int = 44 + (if t.tile_key is Some {
        32int
    } else {
        0int
    });
    let plen = pbytes.len() as int;
    let glen = gbytes.len() as int;
    let slen = sbytes.len() as int;
    assert(hdr.len() == hlen);
    let bg = ((hdr + pbytes) + gbytes) + sbytes;
    assert(b =~= bg);
    assert(bg.subrange(hlen, hlen + plen) =~= pbytes);
    assert(bg.subrange(hlen + plen, hlen + plen + glen) =~= gbytes);
    assert(bg.subrange(hlen + plen + glen, hlen + plen + glen + slen) =~= sbytes);
}

/// Round trip of the tile format: the canonical bytes of any well-formed
/// tile parse back to exactly that tile.
#[verifier::rlimit(100)]
#[verifier::spinoff_prover]
pub proof fn lemma_tile_round_trip(t: HypcTile)
    requires
        spec_tile_wf(t),
    ensures
        spec_parse_tile(spec_tile_bytes(t)) == Ok::<TileModel, HypcError>(tile_model(t)),
{
    let b = spec_tile_bytes(t);
    lemma_header_round_trip(t);
    lemma_tile_sections(t);
    let ls: Option<Seq<u8>> = match t.labels {
        Some(l) => Some(l@),
        None => None,
    };
    let pbytes = spec_points_bytes(t.points_units@, ls);
    lemma_points_bytes_len(t.points_units@, ls);
    let hlen: int = 44 + (if t.tile_key is Some {
        32int
    } else {
        0int
    });
    let plen = pbytes.len() as int;
    let glen: int = if t.geot is Some {
        20
    } else {
        0
    };
    lemma_points_parse_inverse(b, hlen, t.points_units@, ls);
    match t.geot {
        Some(g) => {
            lemma_geot_round_trip(b, hlen + plen, g);
        },
        None => {},
    }
    let pos2 = hlen + plen + glen;
    match t.smc1 {
        Some(c) => {
            lemma_palette_bytes_len(c.palette@);
            lemma_smc1_round_trip(b, pos2, c);
        },
        None => {},
    }
    let rl: int = if t.labels is Some {
        13
    } else {
        12
    };
    let count = t.points_units@.len() as int;
    assert(plen == count * rl);
    assert(b.len() >= hlen + count * rl);
    let pr = spec_parse_points(b, hlen, count, t.labels is Some);
    assert(pr.0 == t.points_units@);
    let geot_step: Result<(Option<GeoExtentQ7>, int), HypcError> = if t.geot is Some {
        match spec_parse_geot(b, hlen + plen) {
            Ok(p) => Ok((Some(p.0), p.1)),
            Err(e) => Err(e),
        }
    } else {
        Ok((None, hlen + plen))
    };
    assert(geot_step == Ok::<(Option<GeoExtentQ7>, int), HypcError>((t.geot, pos2)));
    let smc1_step: Result<(Option<Smc1Model>, int), HypcError> = if t.smc1 is Some {
        match spec_parse_smc1(b, pos2) {
            Ok(p) => Ok((Some(p.0), p.1)),
            Err(e) => Err(e),
        }
    } else {
        Ok((None, pos2))
    };
    let smodel: Option<Smc1Model> = match t.smc1 {
        Some(c) => Some(smc1_model(c)),
        None => None,
    };
    assert(smc1_step == Ok::<(Option<Smc1Model>, int), HypcError>((smodel, b.len() as int)));
    assert(spec_parse_tile(b) matches Ok(m) && m == tile_model(t));
}

} // verus!
