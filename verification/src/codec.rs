//! Binary snapshot codec for the voxel world.
//!
//! Layout, little-endian throughout: a u64 palette entry count; for each
//! entry a u64 byte length and the UTF-8 name bytes; a signed 64-bit
//! chunk count; for each chunk its location (i32 x, i8 y, i32 z), a u64
//! body length that must equal 8192, and 4096 voxel ids, two bytes each,
//! covering the inner 16x16x16 volume x-fastest, then y, then z.

use vstd::prelude::*;
use vstd::slice::{slice_subrange, slice_to_vec};
use vstd::utf8::{valid_utf8, decode_utf8, encode_utf8};
use crate::strutil::bytes_to_string;
use crate::world::{
    ChunkLocation, TurtleChunk, TurtleVoxel, TurtleWorld, TurtleWorldData, TurtleWorldError,
    TurtleWorldPalette, palette_view,
};

verus! {

/// Ghost image of one chunk: its location and the dense inner volume,
/// 4096 ids, x-fastest.
pub struct ChunkV {
    pub loc: ChunkLocation,
    pub vox: Seq<u16>,
}

/// Ghost image of a world: palette names and chunk images in store order.
pub struct WorldV {
    pub palette: Seq<Seq<char>>,
    pub chunks: Seq<ChunkV>,
}

/// The dense inner volume of a chunk, read off the padded grid.
pub open spec fn dense_of_chunk(c: TurtleChunk) -> Seq<u16> {
    Seq::new(4096, |k: int| c.vox(k % 16, (k / 16) % 16, k / 256))
}

/// Ghost image of a chunk.
pub open spec fn chunk_v(c: TurtleChunk) -> ChunkV {
    ChunkV { loc: c.location, vox: dense_of_chunk(c) }
}

/// Ghost image of a world.
pub open spec fn world_v(w: TurtleWorld) -> WorldV {
    WorldV {
        palette: palette_view(w.pallete),
        chunks: w.data.chunks@.map_values(|c: TurtleChunk| chunk_v(c)),
    }
}

/// A dense index decomposes uniquely into local coordinates.
pub proof fn lemma_dense_index(x: int, y: int, z: int)
    by (nonlinear_arith)
    requires
        0 <= x < 16,
        0 <= y < 16,
        0 <= z < 16,
    ensures
        0 <= x + 16 * y + 256 * z < 4096,
        (x + 16 * y + 256 * z) % 16 == x,
        ((x + 16 * y + 256 * z) / 16) % 16 == y,
        (x + 16 * y + 256 * z) / 256 == z,
{
}

/// Little-endian bytes of a u64.
pub open spec fn le64(v: u64) -> Seq<u8> {
    seq![
        (v & 0xff) as u8,
        ((v >> 8) & 0xff) as u8,
        ((v >> 16) & 0xff) as u8,
        ((v >> 24) & 0xff) as u8,
        ((v >> 32) & 0xff) as u8,
        ((v >> 40) & 0xff) as u8,
        ((v >> 48) & 0xff) as u8,
        ((v >> 56) & 0xff) as u8,
    ]
}

/// Little-endian bytes of a u32.
pub open spec fn le32(v: u32) -> Seq<u8> {
    seq![(v & 0xff) as u8, ((v >> 8) & 0xff) as u8, ((v >> 16) & 0xff) as u8, ((v >> 24) & 0xff) as u8]
}

/// Little-endian bytes of a u16.
pub open spec fn le16(v: u16) -> Seq<u8> {
    seq![(v & 0xff) as u8, ((v >> 8) & 0xff) as u8]
}

/// One palette entry: byte length, then UTF-8 bytes.
pub open spec fn ser_name(n: Seq<char>) -> Seq<u8> {
    le64(encode_utf8(n).len() as u64) + encode_utf8(n)
}

/// All palette entries, in order.
pub open spec fn ser_palette(pv: Seq<Seq<char>>) -> Seq<u8>
    decreases pv.len(),
{
    if pv.len() == 0 {
        Seq::empty()
    } else {
        ser_name(pv[0]) + ser_palette(pv.drop_first())
    }
}

/// The dense voxel ids, two little-endian bytes each.
pub open spec fn ser_body(vox: Seq<u16>) -> Seq<u8>
    decreases vox.len(),
{
    if vox.len() == 0 {
        Seq::empty()
    } else {
        le16(vox[0]) + ser_body(vox.drop_first())
    }
}

/// One chunk record: location, body length, body.
pub open spec fn ser_chunk(c: ChunkV) -> Seq<u8> {
    le32(c.loc.x as u32) + seq![c.loc.y as u8] + le32(c.loc.z as u32) + le64(8192) + ser_body(c.vox)
}

/// All chunk records, in store order.
pub open spec fn ser_chunks(cs: Seq<ChunkV>) -> Seq<u8>
    decreases cs.len(),
{
    if cs.len() == 0 {
        Seq::empty()
    } else {
        ser_chunk(cs[0]) + ser_chunks(cs.drop_first())
    }
}

/// The whole snapshot.
pub open spec fn ser_world(v: WorldV) -> Seq<u8> {
    le64(v.palette.len() as u64) + ser_palette(v.palette) + le64(v.chunks.len() as u64)
        + ser_chunks(v.chunks)
}

/// Appending one name extends the palette serialization by its record.
pub proof fn lemma_ser_palette_snoc(pv: Seq<Seq<char>>, n: Seq<char>)
    ensures
        ser_palette(pv.push(n)) == ser_palette(pv) + ser_name(n),
    decreases pv.len(),
{
    if pv.len() == 0 {
        assert(pv.push(n).drop_first() =~= pv);
        assert(pv.push(n)[0] == n);
        assert(ser_palette(pv) =~= Seq::<u8>::empty());
        assert(ser_palette(pv.push(n)) =~= ser_name(n));
        assert(ser_palette(pv) + ser_name(n) =~= ser_name(n));
    } else {
        assert(pv.push(n).drop_first() =~= pv.drop_first().push(n));
        lemma_ser_palette_snoc(pv.drop_first(), n);
        assert(ser_palette(pv.push(n)) == ser_name(pv[0]) + (ser_palette(pv.drop_first())
            + ser_name(n)));
        assert(ser_name(pv[0]) + (ser_palette(pv.drop_first()) + ser_name(n)) =~= (ser_name(pv[0])
            + ser_palette(pv.drop_first())) + ser_name(n));
    }
}

/// Appending one id extends the body serialization by its two bytes.
pub proof fn lemma_ser_body_snoc(vox: Seq<u16>, v: u16)
    ensures
        ser_body(vox.push(v)) == ser_body(vox) + le16(v),
    decreases vox.len(),
{
    if vox.len() == 0 {
        assert(vox.push(v).drop_first() =~= vox);
        assert(vox.push(v)[0] == v);
        assert(ser_body(vox) =~= Seq::<u8>::empty());
        assert(ser_body(vox.push(v)) =~= le16(v));
        assert(ser_body(vox) + le16(v) =~= le16(v));
    } else {
        assert(vox.push(v).drop_first() =~= vox.drop_first().push(v));
        lemma_ser_body_snoc(vox.drop_first(), v);
        assert(ser_body(vox.push(v)) == le16(vox[0]) + (ser_body(vox.drop_first()) + le16(v)));
        assert(le16(vox[0]) + (ser_body(vox.drop_first()) + le16(v)) =~= (le16(vox[0]) + ser_body(
            vox.drop_first(),
        )) + le16(v));
    }
}

/// Appending one chunk extends the chunk serialization by its record.
pub proof fn lemma_ser_chunks_snoc(cs: Seq<ChunkV>, c: ChunkV)
    ensures
        ser_chunks(cs.push(c)) == ser_chunks(cs) + ser_chunk(c),
    decreases cs.len(),
{
    if cs.len() == 0 {
        assert(cs.push(c).drop_first() =~= cs);
        assert(cs.push(c)[0] == c);
        assert(ser_chunks(cs) =~= Seq::<u8>::empty());
        assert(ser_chunks(cs.push(c)) =~= ser_chunk(c));
        assert(ser_chunks(cs) + ser_chunk(c) =~= ser_chunk(c));
    } else {
        assert(cs.push(c).drop_first() =~= cs.drop_first().push(c));
        lemma_ser_chunks_snoc(cs.drop_first(), c);
        assert(ser_chunks(cs.push(c)) == ser_chunk(cs[0]) + (ser_chunks(cs.drop_first())
            + ser_chunk(c)));
        assert(ser_chunk(cs[0]) + (ser_chunks(cs.drop_first()) + ser_chunk(c)) =~= (ser_chunk(
            cs[0],
        ) + ser_chunks(cs.drop_first())) + ser_chunk(c));
    }
}


/// Value of the first two bytes, little-endian.
pub open spec fn rd_u16(b: Seq<u8>) -> u16 {
    (b[0] as u16) | ((b[1] as u16) << 8)
}

/// Value of the first four bytes, little-endian.
pub open spec fn rd_u32(b: Seq<u8>) -> u32 {
    (b[0] as u32) | ((b[1] as u32) << 8) | ((b[2] as u32) << 16) | ((b[3] as u32) << 24)
}

/// Value of the first eight bytes, little-endian.
pub open spec fn rd_u64(b: Seq<u8>) -> u64 {
    (b[0] as u64) | ((b[1] as u64) << 8) | ((b[2] as u64) << 16) | ((b[3] as u64) << 24) | ((
    b[4] as u64) << 32) | ((b[5] as u64) << 40) | ((b[6] as u64) << 48) | ((b[7] as u64) << 56)
}

/// The ids read off a byte sequence, two bytes at a time.
pub open spec fn rd_body(b: Seq<u8>) -> Seq<u16>
    decreases b.len(),
{
    if b.len() < 2 {
        Seq::empty()
    } else {
        seq![rd_u16(b)] + rd_body(b.skip(2))
    }
}

/// Parse `n` palette entries; `None` on truncation or invalid UTF-8.
pub open spec fn parse_palette(n: nat, b: Seq<u8>) -> Option<(Seq<Seq<char>>, Seq<u8>)>
    decreases n,
{
    if n == 0 {
        Some((Seq::empty(), b))
    } else if b.len() < 8 {
        None
    } else {
        let len = rd_u64(b) as int;
        let b1 = b.skip(8);
        if b1.len() < len {
            None
        } else {
            let nb = b1.take(len);
            if valid_utf8(nb) {
                match parse_palette((n - 1) as nat, b1.skip(len)) {
                    Some(res) => Some((seq![decode_utf8(nb)] + res.0, res.1)),
                    None => None,
                }
            } else {
                None
            }
        }
    }
}

/// Parse one chunk record; the body length must be exactly 8192.
pub open spec fn parse_chunk(b: Seq<u8>) -> Option<(ChunkV, Seq<u8>)> {
    if b.len() < 17 {
        None
    } else {
        let x = rd_u32(b) as i32;
        let y = b[4] as i8;
        let z = rd_u32(b.skip(5)) as i32;
        let dl = rd_u64(b.skip(9));
        let b1 = b.skip(17);
        if dl != 8192 || b1.len() < 8192 {
            None
        } else {
            Some(
                (
                    ChunkV { loc: ChunkLocation { x, y, z }, vox: rd_body(b1.take(8192)) },
                    b1.skip(8192),
                ),
            )
        }
    }
}

/// Replace the chunk image at `c`'s location, or append it.
pub open spec fn upsert_chunk(cs: Seq<ChunkV>, c: ChunkV) -> Seq<ChunkV> {
    if exists|i: int| 0 <= i < cs.len() && cs[i].loc == c.loc {
        cs.update(choose|i: int| 0 <= i < cs.len() && cs[i].loc == c.loc, c)
    } else {
        cs.push(c)
    }
}

/// Parse `n` chunk records, a later record for a location replacing an
/// earlier one.
pub open spec fn parse_chunks(n: nat, b: Seq<u8>, acc: Seq<ChunkV>) -> Option<(Seq<ChunkV>, Seq<u8>)>
    decreases n,
{
    if n == 0 {
        Some((acc, b))
    } else {
        match parse_chunk(b) {
            None => None,
            Some((c, b1)) => parse_chunks((n - 1) as nat, b1, upsert_chunk(acc, c)),
        }
    }
}

/// Parse a whole snapshot; trailing bytes are ignored.
pub open spec fn parse_world(b: Seq<u8>) -> Option<WorldV> {
    if b.len() < 8 {
        None
    } else {
        let pn = rd_u64(b);
        match parse_palette(pn as nat, b.skip(8)) {
            None => None,
            Some((pal, b2)) => if b2.len() < 8 {
                None
            } else {
                let cn = rd_u64(b2);
                if cn >= 0x8000000000000000 {
                    None
                } else {
                    match parse_chunks(cn as nat, b2.skip(8), Seq::empty()) {
                        None => None,
                        Some((cs, _)) => Some(WorldV { palette: pal, chunks: cs }),
                    }
                }
            },
        }
    }
}

/// Reading back the little-endian bytes of a u16 yields the value.
pub proof fn lemma_rd_le16(v: u16, b: Seq<u8>)
    requires
        b.len() >= 2,
        b[0] == le16(v)[0],
        b[1] == le16(v)[1],
    ensures
        rd_u16(b) == v,
{
    assert((((v & 0xff) as u8) as u16) | ((((v >> 8) & 0xff) as u8) as u16) << 8 == v)
        by (bit_vector);
}

/// Reading back the little-endian bytes of a u32 yields the value.
pub proof fn lemma_rd_le32(v: u32, b: Seq<u8>)
    requires
        b.len() >= 4,
        forall|i: int| 0 <= i < 4 ==> b[i] == le32(v)[i],
    ensures
        rd_u32(b) == v,
{
    assert(b[0] == le32(v)[0] && b[1] == le32(v)[1] && b[2] == le32(v)[2] && b[3] == le32(v)[3]);
    assert((((v & 0xff) as u8) as u32) | ((((v >> 8) & 0xff) as u8) as u32) << 8 | ((((v >> 16)
        & 0xff) as u8) as u32) << 16 | ((((v >> 24) & 0xff) as u8) as u32) << 24 == v)
        by (bit_vector);
}

/// Reading back the little-endian bytes of a u64 yields the value.
pub proof fn lemma_rd_le64(v: u64, b: Seq<u8>)
    requires
        b.len() >= 8,
        forall|i: int| 0 <= i < 8 ==> b[i] == le64(v)[i],
    ensures
        rd_u64(b) == v,
{
    assert(b[0] == le64(v)[0] && b[1] == le64(v)[1] && b[2] == le64(v)[2] && b[3] == le64(v)[3]
        && b[4] == le64(v)[4] && b[5] == le64(v)[5] && b[6] == le64(v)[6] && b[7] == le64(v)[7]);
    assert((((v & 0xff) as u8) as u64) | ((((v >> 8) & 0xff) as u8) as u64) << 8 | ((((v >> 16)
        & 0xff) as u8) as u64) << 16 | ((((v >> 24) & 0xff) as u8) as u64) << 24 | ((((v >> 32)
        & 0xff) as u8) as u64) << 32 | ((((v >> 40) & 0xff) as u8) as u64) << 40 | ((((v >> 48)
        & 0xff) as u8) as u64) << 48 | ((((v >> 56) & 0xff) as u8) as u64) << 56 == v)
        by (bit_vector);
}

/// A serialized body has two bytes per id.
pub proof fn lemma_ser_body_len(vox: Seq<u16>)
    ensures
        ser_body(vox).len() == 2 * vox.len(),
    decreases vox.len(),
{
    if vox.len() > 0 {
        lemma_ser_body_len(vox.drop_first());
    }
}

/// Reading back a serialized body yields the ids.
pub proof fn lemma_rd_body_roundtrip(vox: Seq<u16>)
    ensures
        rd_body(ser_body(vox)) == vox,
    decreases vox.len(),
{
    lemma_ser_body_len(vox);
    if vox.len() == 0 {
        assert(rd_body(ser_body(vox)) =~= vox);
    } else {
        let b = ser_body(vox);
        assert(b == le16(vox[0]) + ser_body(vox.drop_first()));
        lemma_rd_le16(vox[0], b);
        assert(b.skip(2) =~= ser_body(vox.drop_first()));
        lemma_rd_body_roundtrip(vox.drop_first());
        assert(rd_body(b) =~= vox);
    }
}

/// Parsing a serialized palette yields the names and the trailing bytes.
#[verifier::rlimit(60)]
pub proof fn lemma_parse_palette_roundtrip(pv: Seq<Seq<char>>, rest: Seq<u8>)
    requires
        forall|i: int|
            0 <= i < pv.len() ==> encode_utf8(#[trigger] pv[i]).len() < 0x10000000000000000,
    ensures
        parse_palette(pv.len(), ser_palette(pv) + rest) == Some((pv, rest)),
    decreases pv.len(),
{
    broadcast use vstd::utf8::encode_utf8_valid_utf8;
    broadcast use vstd::utf8::encode_utf8_decode_utf8;

    if pv.len() == 0 {
        assert(ser_palette(pv) + rest =~= rest);
    } else {
        let name = pv[0];
        let nb = encode_utf8(name);
        let tail = ser_palette(pv.drop_first()) + rest;
        let b = ser_palette(pv) + rest;
        assert(b =~= le64(nb.len() as u64) + (nb + tail));
        assert(b.len() >= 8);
        assert forall|i: int| 0 <= i < 8 implies b[i] == le64(nb.len() as u64)[i] by {}
        lemma_rd_le64(nb.len() as u64, b);
        let b1 = b.skip(8);
        assert(b1 =~= nb + tail);
        assert(b1.len() >= nb.len());
        assert(b1.take(nb.len() as int) =~= nb);
        assert(b1.skip(nb.len() as int) =~= tail);
        assert(valid_utf8(nb));
        assert(decode_utf8(nb) == name);
        assert forall|i: int|
            0 <= i < pv.drop_first().len() implies encode_utf8(
            #[trigger] pv.drop_first()[i],
        ).len() < 0x10000000000000000 by {
            assert(pv.drop_first()[i] == pv[i + 1]);
        }
        lemma_parse_palette_roundtrip(pv.drop_first(), rest);
        assert(seq![name] + pv.drop_first() =~= pv);
    }
}

/// Parsing a serialized chunk yields its image and the trailing bytes.
pub proof fn lemma_parse_chunk_roundtrip(c: ChunkV, rest: Seq<u8>)
    requires
        c.vox.len() == 4096,
    ensures
        parse_chunk(ser_chunk(c) + rest) == Some((c, rest)),
{
    let body = ser_body(c.vox);
    lemma_ser_body_len(c.vox);
    let b = ser_chunk(c) + rest;
    assert(b =~= le32(c.loc.x as u32) + (seq![c.loc.y as u8] + (le32(c.loc.z as u32) + (le64(8192)
        + (body + rest)))));
    assert(b.len() == 17 + 8192 + rest.len());
    assert forall|i: int| 0 <= i < 4 implies b[i] == le32(c.loc.x as u32)[i] by {}
    lemma_rd_le32(c.loc.x as u32, b);
    let vx = c.loc.x;
    assert(((vx as u32) as i32) == vx) by (bit_vector);
    assert(b[4] == (c.loc.y as u8));
    let vy = c.loc.y;
    assert(((vy as u8) as i8) == vy) by (bit_vector);
    let b5 = b.skip(5);
    assert(b5 =~= le32(c.loc.z as u32) + (le64(8192) + (body + rest)));
    assert forall|i: int| 0 <= i < 4 implies b5[i] == le32(c.loc.z as u32)[i] by {}
    lemma_rd_le32(c.loc.z as u32, b5);
    let vz = c.loc.z;
    assert(((vz as u32) as i32) == vz) by (bit_vector);
    let b9 = b.skip(9);
    assert(b9 =~= le64(8192) + (body + rest));
    assert forall|i: int| 0 <= i < 8 implies b9[i] == le64(8192)[i] by {}
    lemma_rd_le64(8192, b9);
    let b17 = b.skip(17);
    assert(b17 =~= body + rest);
    assert(b17.take(8192) =~= body);
    assert(b17.skip(8192) =~= rest);
    lemma_rd_body_roundtrip(c.vox);
    assert((parse_chunk(b)->0).0 == c);
}

/// Parsing serialized chunks with pairwise distinct locations appends
/// them, in order, to an accumulator with disjoint locations.
pub proof fn lemma_parse_chunks_roundtrip(cs: Seq<ChunkV>, acc: Seq<ChunkV>, rest: Seq<u8>)
    requires
        forall|i: int| 0 <= i < cs.len() ==> (#[trigger] cs[i]).vox.len() == 4096,
        forall|i: int, j: int|
            0 <= i < cs.len() && 0 <= j < cs.len() && i != j ==> (#[trigger] cs[i]).loc != (
            #[trigger] cs[j]).loc,
        forall|i: int, j: int|
            0 <= i < acc.len() && 0 <= j < cs.len() ==> (#[trigger] acc[i]).loc != (
            #[trigger] cs[j]).loc,
    ensures
        parse_chunks(cs.len(), ser_chunks(cs) + rest, acc) == Some((acc + cs, rest)),
    decreases cs.len(),
{
    if cs.len() == 0 {
        assert(ser_chunks(cs) + rest =~= rest);
        assert(acc + cs =~= acc);
    } else {
        let c = cs[0];
        let tail = ser_chunks(cs.drop_first()) + rest;
        let b = ser_chunks(cs) + rest;
        assert(b =~= ser_chunk(c) + tail);
        lemma_parse_chunk_roundtrip(c, tail);
        assert(forall|i: int| 0 <= i < acc.len() ==> (#[trigger] acc[i]).loc != c.loc);
        assert(!(exists|i: int| 0 <= i < acc.len() && (#[trigger] acc[i]).loc == c.loc));
        assert(upsert_chunk(acc, c) == acc.push(c));
        let acc1 = acc.push(c);
        assert forall|i: int, j: int|
            0 <= i < cs.drop_first().len() && 0 <= j < cs.drop_first().len() && i != j implies (
        #[trigger] cs.drop_first()[i]).loc != (#[trigger] cs.drop_first()[j]).loc by {
            assert(cs.drop_first()[i] == cs[i + 1]);
            assert(cs.drop_first()[j] == cs[j + 1]);
        }
        assert forall|i: int, j: int|
            0 <= i < acc1.len() && 0 <= j < cs.drop_first().len() implies (#[trigger] acc1[i]).loc
            != (#[trigger] cs.drop_first()[j]).loc by {
            assert(cs.drop_first()[j] == cs[j + 1]);
            if i < acc.len() {
                assert(acc1[i] == acc[i]);
            } else {
                assert(acc1[i] == c);
            }
        }
        lemma_parse_chunks_roundtrip(cs.drop_first(), acc1, rest);
        assert(acc.push(c) + cs.drop_first() =~= acc + cs);
    }
}

/// Well-formedness of a world image as the codec needs it: full dense
/// bodies, distinct chunk locations, and counts and name lengths that
/// fit the format's fields.
pub open spec fn wf_world_v(v: WorldV) -> bool {
    &&& forall|i: int| 0 <= i < v.chunks.len() ==> (#[trigger] v.chunks[i]).vox.len() == 4096
    &&& forall|i: int, j: int|
        0 <= i < v.chunks.len() && 0 <= j < v.chunks.len() && i != j ==> (#[trigger] v.chunks[i]).loc
            != (#[trigger] v.chunks[j]).loc
    &&& forall|i: int|
        0 <= i < v.palette.len() ==> encode_utf8(#[trigger] v.palette[i]).len()
            < 0x10000000000000000
    &&& v.palette.len() < 0x10000000000000000
    &&& v.chunks.len() < 0x8000000000000000
}

/// Voxel round trip: parsing a serialized world image yields it back.
pub proof fn lemma_snapshot_roundtrip(v: WorldV)
    requires
        wf_world_v(v),
    ensures
        parse_world(ser_world(v)) == Some(v),
{
    let b = ser_world(v);
    let chunk_part = le64(v.chunks.len() as u64) + ser_chunks(v.chunks);
    assert(b =~= le64(v.palette.len() as u64) + (ser_palette(v.palette) + chunk_part));
    assert(b.len() >= 8);
    assert forall|i: int| 0 <= i < 8 implies b[i] == le64(v.palette.len() as u64)[i] by {}
    lemma_rd_le64(v.palette.len() as u64, b);
    assert(b.skip(8) =~= ser_palette(v.palette) + chunk_part);
    lemma_parse_palette_roundtrip(v.palette, chunk_part);
    assert((v.palette.len() as u64) as nat == v.palette.len());
    assert(chunk_part.len() >= 8);
    assert forall|i: int| 0 <= i < 8 implies chunk_part[i] == le64(v.chunks.len() as u64)[i] by {}
    lemma_rd_le64(v.chunks.len() as u64, chunk_part);
    assert(chunk_part.skip(8) =~= ser_chunks(v.chunks) + Seq::<u8>::empty());
    assert(ser_chunks(v.chunks) + Seq::<u8>::empty() =~= ser_chunks(v.chunks));
    assert(ser_chunks(v.chunks) =~= ser_chunks(v.chunks) + Seq::<u8>::empty());
    lemma_parse_chunks_roundtrip(v.chunks, Seq::empty(), Seq::empty());
    assert(Seq::<ChunkV>::empty() + v.chunks =~= v.chunks);
}


/// Character views of a sequence of strings.
pub open spec fn views_of_strings(v: Seq<String>) -> Seq<Seq<char>> {
    v.map_values(|s: String| s@)
}

/// Ghost images of a sequence of chunks.
pub open spec fn views_of_chunks(v: Seq<TurtleChunk>) -> Seq<ChunkV> {
    v.map_values(|c: TurtleChunk| chunk_v(c))
}

/// A read body has one id per byte pair.
pub proof fn lemma_rd_body_len(b: Seq<u8>)
    ensures
        rd_body(b).len() == b.len() / 2,
    decreases b.len(),
{
    if b.len() >= 2 {
        lemma_rd_body_len(b.skip(2));
    }
}

/// Each id of a read body comes from its own byte pair.
pub proof fn lemma_rd_body_index(b: Seq<u8>, m: int)
    requires
        0 <= m,
        2 * m + 1 < b.len(),
    ensures
        rd_body(b)[m] == rd_u16(b.skip(2 * m)),
    decreases m,
{
    lemma_rd_body_len(b);
    if m == 0 {
        assert(b.skip(0) =~= b);
    } else {
        lemma_rd_body_index(b.skip(2), m - 1);
        assert(b.skip(2).skip(2 * (m - 1)) =~= b.skip(2 * m));
        assert(rd_body(b)[m] == rd_body(b.skip(2))[m - 1]);
    }
}

/// A dense index is recovered from its coordinate decomposition.
pub proof fn lemma_dense_decompose(m: int)
    by (nonlinear_arith)
    requires
        0 <= m < 4096,
    ensures
        m == (m % 16) + 16 * ((m / 16) % 16) + 256 * (m / 256),
        0 <= m % 16 < 16,
        0 <= (m / 16) % 16 < 16,
        0 <= m / 256 < 16,
{
}

/// Read the u32 at `pos`, little-endian.
fn read_u32_at(bytes: &[u8], pos: usize) -> (r: u32)
    requires
        pos + 4 <= bytes@.len(),
    ensures
        r == rd_u32(bytes@.skip(pos as int)),
{
    (bytes[pos] as u32) | ((bytes[pos + 1] as u32) << 8) | ((bytes[pos + 2] as u32) << 16) | ((
    bytes[pos + 3] as u32) << 24)
}

/// Read the u64 at `pos`, little-endian.
fn read_u64_at(bytes: &[u8], pos: usize) -> (r: u64)
    requires
        pos + 8 <= bytes@.len(),
    ensures
        r == rd_u64(bytes@.skip(pos as int)),
{
    (bytes[pos] as u64) | ((bytes[pos + 1] as u64) << 8) | ((bytes[pos + 2] as u64) << 16) | ((
    bytes[pos + 3] as u64) << 24) | ((bytes[pos + 4] as u64) << 32) | ((bytes[pos + 5] as u64)
        << 40) | ((bytes[pos + 6] as u64) << 48) | ((bytes[pos + 7] as u64) << 56)
}

/// Decode the chunk record at `pos`: its location, body and successor
/// position; `None` exactly where the specification parser fails.
fn parse_chunk_record(bytes: &[u8], pos: usize) -> (r: Option<(TurtleChunk, usize)>)
    requires
        pos <= bytes@.len(),
    ensures
        r is Some <==> parse_chunk(bytes@.skip(pos as int)) is Some,
        r is Some ==> {
            let (c, np) = r->0;
            &&& (parse_chunk(bytes@.skip(pos as int))->0).0 == chunk_v(c)
            &&& (parse_chunk(bytes@.skip(pos as int))->0).1 == bytes@.skip(np as int)
            &&& c.wf()
            &&& pos < np <= bytes@.len()
        },
{
    let ghost b = bytes@.skip(pos as int);
    let n = bytes.len();
    if n - pos < 17 {
        return None;
    }
    let x = read_u32_at(bytes, pos) as i32;
    let y = bytes[pos + 4] as i8;
    let z = read_u32_at(bytes, pos + 5) as i32;
    let dl = read_u64_at(bytes, pos + 9);
    proof {
        assert(b.skip(5) =~= bytes@.skip(pos as int + 5));
        assert(b.skip(9) =~= bytes@.skip(pos as int + 9));
        assert(b[4] == bytes@[pos as int + 4]);
    }
    if dl != 8192 {
        return None;
    }
    if n - (pos + 17) < 8192 {
        proof {
            assert(b.skip(17).len() < 8192);
        }
        return None;
    }
    let base = pos + 17;
    let ghost body = bytes@.subrange(base as int, base as int + 8192);
    proof {
        assert(b.skip(17) =~= bytes@.skip(base as int));
        assert(b.skip(17).take(8192) =~= body);
        lemma_rd_body_len(body);
    }
    let loc = ChunkLocation::xyz(x, y, z);
    let mut ch = TurtleChunk::new_by_xyz(loc);
    let mut k: usize = 0;
    let mut lx: u32 = 0;
    let mut ly: u32 = 0;
    let mut lz: u32 = 0;
    while k < 4096
        invariant
            n == bytes@.len(),
            base + 8192 <= n,
            body == bytes@.subrange(base as int, base as int + 8192),
            rd_body(body).len() == 4096,
            ch.wf(),
            ch.location == loc,
            k <= 4096,
            k < 4096 ==> (lx < 16 && ly < 16 && lz < 16),
            k == lx + 16 * ly + 256 * lz,
            forall|m: int| 0 <= m < k ==> dense_of_chunk(ch)[m] == rd_body(body)[m],
            forall|m: int| k <= m < 4096 ==> dense_of_chunk(ch)[m] == 0,
        decreases 4096 - k,
    {
        let lo = bytes[base + 2 * k];
        let hi = bytes[base + 2 * k + 1];
        let id: u16 = (lo as u16) | ((hi as u16) << 8);
        let ghost pre = ch;
        ch.set_block_by_local_xyz(lx, ly, lz, TurtleVoxel::id(id));
        proof {
            lemma_dense_index(lx as int, ly as int, lz as int);
            lemma_rd_body_index(body, k as int);
            assert(body.skip(2 * (k as int))[0] == bytes@[base as int + 2 * (k as int)]);
            assert(body.skip(2 * (k as int))[1] == bytes@[base as int + 2 * (k as int) + 1]);
            assert(rd_body(body)[k as int] == id);
            assert forall|m: int| 0 <= m < k + 1 implies dense_of_chunk(ch)[m] == rd_body(body)[m] by {
                lemma_dense_decompose(m);
                if m < k {
                    if (m % 16, (m / 16) % 16, m / 256) == (lx as int, ly as int, lz as int) {
                        assert(m == k);
                    }
                    assert(dense_of_chunk(ch)[m] == dense_of_chunk(pre)[m]);
                } else {
                    assert(dense_of_chunk(ch)[m] == ch.vox(lx as int, ly as int, lz as int));
                }
            }
            assert forall|m: int| k + 1 <= m < 4096 implies dense_of_chunk(ch)[m] == 0 by {
                lemma_dense_decompose(m);
                if (m % 16, (m / 16) % 16, m / 256) == (lx as int, ly as int, lz as int) {
                    assert(m == k);
                }
                assert(dense_of_chunk(ch)[m] == dense_of_chunk(pre)[m]);
            }
        }
        k = k + 1;
        lx = lx + 1;
        if lx == 16 {
            lx = 0;
            ly = ly + 1;
            if ly == 16 {
                ly = 0;
                lz = lz + 1;
            }
        }
    }
    proof {
        assert(dense_of_chunk(ch) =~= rd_body(body));
        assert((parse_chunk(b)->0).0 == chunk_v(ch));
        assert(b.skip(17).skip(8192) =~= bytes@.skip(base as int + 8192));
    }
    Some((ch, base + 8192))
}

impl TurtleWorld {
    /// Decode a snapshot. Succeeds exactly where the specification
    /// parser does, yielding a well-formed world with that image; every
    /// failure is `BadSnapshot`, never a panic.
    pub fn from_bytes(bytes: &[u8]) -> (r: Result<TurtleWorld, TurtleWorldError>)
        ensures
            r is Ok <==> parse_world(bytes@) is Some,
            r is Ok ==> Some(world_v(r->Ok_0)) == parse_world(bytes@),
            r is Ok ==> r->Ok_0.wf(),
            r is Err ==> r->Err_0 == TurtleWorldError::BadSnapshot,
    {
        let n = bytes.len();
        if n < 8 {
            return Err(TurtleWorldError::BadSnapshot);
        }
        let pn = read_u64_at(bytes, 0);
        proof {
            assert(bytes@.skip(0) =~= bytes@);
        }
        let ghost b_pal = bytes@.skip(8);
        let mut pos: usize = 8;
        let mut palette: Vec<String> = Vec::new();
        let mut i: u64 = 0;
        while i < pn
            invariant
                n == bytes@.len(),
                n >= 8,
                pn == rd_u64(bytes@),
                b_pal == bytes@.skip(8),
                8 <= pos <= n,
                i <= pn,
                ({
                    let now = parse_palette((pn - i) as nat, bytes@.skip(pos as int));
                    let whole = parse_palette(pn as nat, b_pal);
                    match now {
                        Some(res) => whole == Some((views_of_strings(palette@) + res.0, res.1)),
                        None => whole is None,
                    }
                }),
            decreases pn - i,
        {
            let ghost cur = bytes@.skip(pos as int);
            if n - pos < 8 {
                proof {
                    assert(cur.len() < 8);
                    assert(parse_palette((pn - i) as nat, cur) is None);
                }
                return Err(TurtleWorldError::BadSnapshot);
            }
            let len = read_u64_at(bytes, pos);
            let avail = n - (pos + 8);
            if (avail as u64) < len {
                proof {
                    assert(cur.skip(8).len() < rd_u64(cur) as int);
                    assert(parse_palette((pn - i) as nat, cur) is None);
                }
                return Err(TurtleWorldError::BadSnapshot);
            }
            let len_us = len as usize;
            let name_slice = slice_subrange(bytes, pos + 8, pos + 8 + len_us);
            let name_vec = slice_to_vec(name_slice);
            proof {
                assert(cur.skip(8) =~= bytes@.skip(pos as int + 8));
                assert(cur.skip(8).take(len as int) =~= name_vec@);
            }
            match bytes_to_string(name_vec) {
                None => {
                    proof {
                        assert(parse_palette((pn - i) as nat, cur) is None);
                    }
                    return Err(TurtleWorldError::BadSnapshot);
                },
                Some(sname) => {
                    proof {
                        let now = parse_palette((pn - i) as nat, cur);
                        let next = parse_palette(
                            (pn - i - 1) as nat,
                            cur.skip(8).skip(len as int),
                        );
                        assert(now is Some ==> next is Some);
                        assert(next is None ==> now is None);
                        if next is Some {
                            let res = next->0;
                            assert(now == Some(
                                (seq![decode_utf8(cur.skip(8).take(len as int))] + res.0, res.1),
                            ));
                            assert(decode_utf8(cur.skip(8).take(len as int)) == sname@);
                            assert(views_of_strings(palette@.push(sname)) =~= views_of_strings(
                                palette@,
                            ).push(sname@));
                            assert(views_of_strings(palette@) + (seq![sname@] + res.0)
                                =~= views_of_strings(palette@.push(sname)) + res.0);
                        }
                        assert(cur.skip(8).skip(len as int) =~= bytes@.skip(
                            pos as int + 8 + len as int,
                        ));
                    }
                    palette.push(sname);
                    pos = pos + 8 + len_us;
                    i = i + 1;
                },
            }
        }
        proof {
            let whole = parse_palette(pn as nat, b_pal);
            assert(parse_palette(0, bytes@.skip(pos as int)) == Some(
                (Seq::<Seq<char>>::empty(), bytes@.skip(pos as int)),
            ));
            assert(views_of_strings(palette@) + Seq::<Seq<char>>::empty() =~= views_of_strings(
                palette@,
            ));
            assert(whole == Some((views_of_strings(palette@), bytes@.skip(pos as int))));
        }
        if n - pos < 8 {
            return Err(TurtleWorldError::BadSnapshot);
        }
        let cn = read_u64_at(bytes, pos);
        if cn >= 0x8000000000000000 {
            return Err(TurtleWorldError::BadSnapshot);
        }
        let ghost pb = pos as int;
        pos = pos + 8;
        let ghost pal_views = views_of_strings(palette@);
        let mut chunks: Vec<TurtleChunk> = Vec::new();
        let mut j: u64 = 0;
        proof {
            assert(bytes@.skip(pb).skip(8) =~= bytes@.skip(pos as int));
            assert(views_of_chunks(chunks@) =~= Seq::<ChunkV>::empty());
            assert(parse_world(bytes@) == (match parse_chunks(
                cn as nat,
                bytes@.skip(pos as int),
                views_of_chunks(chunks@),
            ) {
                None => None,
                Some(res) => Some(WorldV { palette: pal_views, chunks: res.0 }),
            }));
        }
        while j < cn
            invariant
                n == bytes@.len(),
                pos <= n,
                j <= cn,
                forall|a: int| 0 <= a < chunks@.len() ==> (#[trigger] chunks@[a]).wf(),
                forall|a: int, b: int|
                    0 <= a < chunks@.len() && 0 <= b < chunks@.len() && a != b
                        ==> (#[trigger] chunks@[a]).location != (#[trigger] chunks@[b]).location,
                parse_world(bytes@) == (match parse_chunks(
                    (cn - j) as nat,
                    bytes@.skip(pos as int),
                    views_of_chunks(chunks@),
                ) {
                    None => None,
                    Some(res) => Some(WorldV { palette: pal_views, chunks: res.0 }),
                }),
            decreases cn - j,
        {
            match parse_chunk_record(bytes, pos) {
                None => {
                    proof {
                        assert(parse_chunks(
                            (cn - j) as nat,
                            bytes@.skip(pos as int),
                            views_of_chunks(chunks@),
                        ) is None);
                    }
                    return Err(TurtleWorldError::BadSnapshot);
                },
                Some((ch, npos)) => {
                    let ghost acc = views_of_chunks(chunks@);
                    proof {
                        assert(parse_chunks((cn - j) as nat, bytes@.skip(pos as int), acc)
                            == parse_chunks(
                            (cn - j - 1) as nat,
                            bytes@.skip(npos as int),
                            upsert_chunk(acc, chunk_v(ch)),
                        ));
                    }
                    let loc = ch.location;
                    let m = chunks.len();
                    let mut fi: usize = 0;
                    let mut found: bool = false;
                    while !found && fi < m
                        invariant
                            m == chunks@.len(),
                            fi <= m,
                            found ==> fi < m && chunks@[fi as int].location == loc,
                            forall|a: int|
                                0 <= a < fi ==> (#[trigger] chunks@[a]).location != loc,
                        decreases m - fi + (if found { 0int } else { 1int }),
                    {
                        if chunks[fi].location == loc {
                            found = true;
                        } else {
                            fi = fi + 1;
                        }
                    }
                    let ghost prechunks = chunks@;
                    if found {
                        chunks[fi] = ch;
                        proof {
                            assert(acc[fi as int].loc == loc);
                            let w = choose|a: int|
                                0 <= a < acc.len() && acc[a].loc == chunk_v(ch).loc;
                            assert(prechunks[w].location == loc);
                            assert(w == fi);
                            assert(upsert_chunk(acc, chunk_v(ch)) == acc.update(
                                fi as int,
                                chunk_v(ch),
                            ));
                            assert(views_of_chunks(chunks@) =~= acc.update(
                                fi as int,
                                chunk_v(ch),
                            ));
                        }
                    } else {
                        chunks.push(ch);
                        proof {
                            assert forall|a: int| 0 <= a < acc.len() implies (#[trigger] acc[a]).loc
                                != chunk_v(ch).loc by {
                                assert(prechunks[a].location != loc);
                            }
                            assert(upsert_chunk(acc, chunk_v(ch)) == acc.push(chunk_v(ch)));
                            assert(views_of_chunks(chunks@) =~= acc.push(chunk_v(ch)));
                        }
                    }
                    pos = npos;
                    j = j + 1;
                },
            }
        }
        proof {
            assert(parse_chunks(0, bytes@.skip(pos as int), views_of_chunks(chunks@)) == Some(
                (views_of_chunks(chunks@), bytes@.skip(pos as int)),
            ));
        }
        let world = TurtleWorld {
            pallete: TurtleWorldPalette { palette },
            data: TurtleWorldData { chunks },
        };
        proof {
            assert(world.wf());
            assert(palette_view(world.pallete) =~= pal_views);
            assert(world.data.chunks@.map_values(|c: TurtleChunk| chunk_v(c)) =~= views_of_chunks(
                world.data.chunks@,
            ));
            assert(world_v(world) == (WorldV {
                palette: pal_views,
                chunks: views_of_chunks(world.data.chunks@),
            }));
            assert(parse_world(bytes@) == Some(world_v(world)));
        }
        Ok(world)
    }

    /// The world a snapshot holds, or a fresh empty world where the
    /// bytes cannot be decoded. Total: a torn or missing file can only
    /// yield the empty world, never a panic.
    pub fn load_or_empty(bytes: &[u8]) -> (r: TurtleWorld)
        ensures
            r.wf(),
            parse_world(bytes@) is Some ==> Some(world_v(r)) == parse_world(bytes@),
            parse_world(bytes@) is None ==> palette_view(r.pallete) =~= seq!["minecraft:air"@]
                && r.data.chunks@.len() == 0,
    {
        match Self::from_bytes(bytes) {
            Ok(w) => w,
            Err(_) => Self::new(),
        }
    }
}

/// Voxel round trip for worlds: a well-formed world whose counts and
/// name lengths fit the format's fields decodes from its own snapshot
/// image. Together with the contracts of [`TurtleWorld::to_bytes`] and
/// [`TurtleWorld::from_bytes`], loading a snapshot yields a world with
/// the image of the one saved.
pub proof fn lemma_world_roundtrip(w: TurtleWorld)
    requires
        w.wf(),
        w.pallete.palette@.len() < 0x10000000000000000,
        w.data.chunks@.len() < 0x8000000000000000,
        forall|i: int|
            0 <= i < w.pallete.palette@.len() ==> encode_utf8(
                #[trigger] w.pallete.palette@[i]@,
            ).len() < 0x10000000000000000,
    ensures
        parse_world(ser_world(world_v(w))) == Some(world_v(w)),
{
    let v = world_v(w);
    assert forall|i: int, j: int|
        0 <= i < v.chunks.len() && 0 <= j < v.chunks.len() && i != j implies (
    #[trigger] v.chunks[i]).loc != (#[trigger] v.chunks[j]).loc by {
        assert(v.chunks[i].loc == w.data.chunks@[i].location);
        assert(v.chunks[j].loc == w.data.chunks@[j].location);
    }
    assert(wf_world_v(v));
    lemma_snapshot_roundtrip(v);
}

/// Append the little-endian bytes of a u64.
fn push_u64_le(buf: &mut Vec<u8>, v: u64)
    ensures
        final(buf)@ == old(buf)@ + le64(v),
{
    buf.push((v & 0xff) as u8);
    buf.push(((v >> 8) & 0xff) as u8);
    buf.push(((v >> 16) & 0xff) as u8);
    buf.push(((v >> 24) & 0xff) as u8);
    buf.push(((v >> 32) & 0xff) as u8);
    buf.push(((v >> 40) & 0xff) as u8);
    buf.push(((v >> 48) & 0xff) as u8);
    buf.push(((v >> 56) & 0xff) as u8);
    proof {
        assert(final(buf)@ =~= old(buf)@ + le64(v));
    }
}

/// Append the little-endian bytes of a u32.
fn push_u32_le(buf: &mut Vec<u8>, v: u32)
    ensures
        final(buf)@ == old(buf)@ + le32(v),
{
    buf.push((v & 0xff) as u8);
    buf.push(((v >> 8) & 0xff) as u8);
    buf.push(((v >> 16) & 0xff) as u8);
    buf.push(((v >> 24) & 0xff) as u8);
    proof {
        assert(final(buf)@ =~= old(buf)@ + le32(v));
    }
}

/// Append a byte slice.
fn push_bytes(buf: &mut Vec<u8>, other: &[u8])
    ensures
        final(buf)@ == old(buf)@ + other@,
{
    let n = other.len();
    let mut i: usize = 0;
    while i < n
        invariant
            n == other@.len(),
            i <= n,
            buf@ == old(buf)@ + other@.take(i as int),
        decreases n - i,
    {
        buf.push(other[i]);
        proof {
            assert(old(buf)@ + other@.take(i as int) + seq![other@[i as int]] =~= old(buf)@
                + other@.take(i as int + 1));
        }
        i = i + 1;
    }
    proof {
        assert(other@.take(n as int) =~= other@);
    }
}

impl TurtleWorld {
    /// Serialize this world to its snapshot bytes.
    pub fn to_bytes(&self) -> (r: Result<Vec<u8>, TurtleWorldError>)
        requires
            self.wf(),
        ensures
            r is Ok,
            r->Ok_0@ == ser_world(world_v(*self)),
    {
        let ghost pv = palette_view(self.pallete);
        let ghost cv = self.data.chunks@.map_values(|c: TurtleChunk| chunk_v(c));
        let mut buf: Vec<u8> = Vec::new();

        let pn = self.pallete.palette.len();
        push_u64_le(&mut buf, pn as u64);
        let mut i: usize = 0;
        while i < pn
            invariant
                pv == palette_view(self.pallete),
                pn == pv.len(),
                i <= pn,
                buf@ == le64(pn as u64) + ser_palette(pv.take(i as int)),
            decreases pn - i,
        {
            let name = &self.pallete.palette[i];
            let nb = name.as_str().as_bytes();
            push_u64_le(&mut buf, nb.len() as u64);
            push_bytes(&mut buf, nb);
            proof {
                assert(pv.take(i as int).push(pv[i as int]) =~= pv.take(i as int + 1));
                lemma_ser_palette_snoc(pv.take(i as int), pv[i as int]);
                assert(nb@ == encode_utf8(pv[i as int]));
                assert(buf@ =~= le64(pn as u64) + ser_palette(pv.take(i as int + 1)));
            }
            i = i + 1;
        }
        proof {
            assert(pv.take(pn as int) =~= pv);
        }

        let cn = self.data.chunks.len();
        push_u64_le(&mut buf, cn as u64);
        let ghost head = le64(pn as u64) + ser_palette(pv) + le64(cn as u64);
        proof {
            assert(buf@ =~= head + ser_chunks(cv.take(0)));
        }
        let mut ci: usize = 0;
        while ci < cn
            invariant
                self.wf(),
                pv == palette_view(self.pallete),
                cv == self.data.chunks@.map_values(|c: TurtleChunk| chunk_v(c)),
                cn == cv.len(),
                cn == self.data.chunks@.len(),
                ci <= cn,
                head == le64(pn as u64) + ser_palette(pv) + le64(cn as u64),
                buf@ == head + ser_chunks(cv.take(ci as int)),
            decreases cn - ci,
        {
            let chunk = &self.data.chunks[ci];
            let ghost chv = chunk_v(*chunk);
            let ghost rec_start = buf@;
            push_u32_le(&mut buf, chunk.location.x as u32);
            buf.push(chunk.location.y as u8);
            push_u32_le(&mut buf, chunk.location.z as u32);
            push_u64_le(&mut buf, 8192);
            proof {
                assert(buf@ =~= rec_start + (le32(chv.loc.x as u32) + seq![chv.loc.y as u8] + le32(
                    chv.loc.z as u32,
                ) + le64(8192)));
            }
            let ghost body_start = buf@;
            let mut z: u32 = 0;
            let mut y: u32 = 0;
            let mut x: u32 = 0;
            let mut k: usize = 0;
            while k < 4096
                invariant
                    self.wf(),
                    ci < self.data.chunks@.len(),
                    *chunk == self.data.chunks@[ci as int],
                    chunk.wf(),
                    chv == chunk_v(*chunk),
                    k < 4096 ==> (x < 16 && y < 16 && z < 16),
                    k == x + 16 * y + 256 * z,
                    k <= 4096,
                    buf@ == body_start + ser_body(chv.vox.take(k as int)),
                decreases 4096 - k,
            {
                let v = chunk.get_block_by_local_xyz(x, y, z);
                buf.push((v.id & 0xff) as u8);
                buf.push(((v.id >> 8) & 0xff) as u8);
                proof {
                    lemma_dense_index(x as int, y as int, z as int);
                    assert(chv.vox[k as int] == v.id);
                    assert(chv.vox.take(k as int).push(chv.vox[k as int]) =~= chv.vox.take(
                        k as int + 1,
                    ));
                    lemma_ser_body_snoc(chv.vox.take(k as int), chv.vox[k as int]);
                    assert(buf@ =~= body_start + ser_body(chv.vox.take(k as int + 1)));
                }
                k = k + 1;
                x = x + 1;
                if x == 16 {
                    x = 0;
                    y = y + 1;
                    if y == 16 {
                        y = 0;
                        z = z + 1;
                    }
                }
            }
            proof {
                assert(chv.vox.take(4096) =~= chv.vox);
                assert(cv.take(ci as int).push(cv[ci as int]) =~= cv.take(ci as int + 1));
                lemma_ser_chunks_snoc(cv.take(ci as int), cv[ci as int]);
                assert(buf@ =~= head + ser_chunks(cv.take(ci as int + 1)));
            }
            ci = ci + 1;
        }
        proof {
            assert(cv.take(cn as int) =~= cv);
            assert(buf@ =~= ser_world(world_v(*self)));
        }
        Ok(buf)
    }
}

} // verus!
