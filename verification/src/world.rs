//! In-memory voxel world: palette of block names plus a set of padded
//! chunks, addressed by chunk coordinates.
//!
//! A chunk owns an 18x18x18 grid of 16-bit palette indices. Only the
//! inner 16x16x16 volume is authoritative; the one-voxel border is
//! padding kept at zero so downstream meshers can work seam-free.
//! Linearization is x-fastest: cell (x, y, z) of the padded grid lives
//! at index `x + 18*y + 324*z`.

use vstd::prelude::*;
use crate::strutil::str_eq;

verus! {

/// One voxel: a 16-bit palette index, `0` meaning air.
#[derive(Debug, Eq, PartialEq, Clone, Copy, Structural)]
pub struct TurtleVoxel {
    pub id: u16,
}

/// Coordinates of a chunk. The y coordinate is narrowed to 8 bits by
/// the snapshot format, so worlds taller than that are rejected early.
#[derive(Clone, Eq, PartialEq, Debug, Structural, Copy)]
pub struct ChunkLocation {
    pub x: i32,
    pub y: i8,
    pub z: i32,
}

/// Errors of world addressing, mutation and snapshot decoding.
#[derive(Debug, Eq, PartialEq, Clone, Copy, Structural)]
pub enum TurtleWorldError {
    /// The global coordinates do not fall inside the addressed chunk.
    CoordOutOfChunk,
    /// The target voxel is already air.
    AlreadyAir,
    /// The y coordinate's chunk index does not fit in 8 bits.
    YRangeError,
    /// No chunk is present at the resolved location.
    NoSuchChunk,
    /// The snapshot bytes cannot be decoded.
    BadSnapshot,
}

/// A chunk: its location plus the padded voxel grid.
#[derive(Eq, PartialEq, Debug, Clone)]
pub struct TurtleChunk {
    pub location: ChunkLocation,
    pub data: Vec<TurtleVoxel>,
}

/// The ordered interning table of block names; index 0 is air.
#[derive(Eq, PartialEq, Debug, Clone)]
pub struct TurtleWorldPalette {
    pub palette: Vec<String>,
}

/// The chunk store of a world. Chunk locations are pairwise distinct.
#[derive(Eq, PartialEq, Debug, Clone)]
pub struct TurtleWorldData {
    pub chunks: Vec<TurtleChunk>,
}

/// A world: palette plus chunk store.
#[derive(Eq, PartialEq, Debug, Clone)]
pub struct TurtleWorld {
    pub pallete: TurtleWorldPalette,
    pub data: TurtleWorldData,
}

/// Index of padded cell (x, y, z) in the linearized grid.
pub open spec fn pad_lin(x: int, y: int, z: int) -> int {
    x + 18 * y + 324 * z
}

/// Cells on the one-voxel border of the padded grid.
pub open spec fn is_padding(x: int, y: int, z: int) -> bool {
    x == 0 || x == 17 || y == 0 || y == 17 || z == 0 || z == 17
}

/// Distinct padded coordinates linearize to distinct indices.
pub proof fn lemma_pad_lin_injective(x1: int, y1: int, z1: int, x2: int, y2: int, z2: int)
    requires
        0 <= x1 < 18,
        0 <= y1 < 18,
        0 <= z1 < 18,
        0 <= x2 < 18,
        0 <= y2 < 18,
        0 <= z2 < 18,
        pad_lin(x1, y1, z1) == pad_lin(x2, y2, z2),
    ensures
        x1 == x2 && y1 == y2 && z1 == z2,
{
    assert(x1 - x2 == 18 * ((y2 - y1) + 18 * (z2 - z1)));
    assert(x1 == x2) by (nonlinear_arith)
        requires
            x1 - x2 == 18 * ((y2 - y1) + 18 * (z2 - z1)),
            -18 < x1 - x2 < 18,
    ;
    assert(y1 - y2 == 18 * (z2 - z1));
    assert(y1 == y2) by (nonlinear_arith)
        requires
            y1 - y2 == 18 * (z2 - z1),
            -18 < y1 - y2 < 18,
    ;
}

impl TurtleVoxel {
    /// The empty voxel.
    pub fn air() -> (r: Self)
        ensures
            r.id == 0,
    {
        Self { id: 0 }
    }

    /// A voxel holding the given palette index.
    pub fn id(id: u16) -> (r: Self)
        ensures
            r.id == id,
    {
        Self { id }
    }
}

impl ChunkLocation {
    /// A location from its three coordinates.
    pub fn xyz(x: i32, y: i8, z: i32) -> (r: Self)
        ensures
            r == (ChunkLocation { x, y, z }),
    {
        ChunkLocation { x, y, z }
    }

    /// Offsets of the global cell (x, y, z) relative to this chunk's
    /// origin, with the x and z offsets taken absolute. The y offset
    /// must be non-negative; padding is left to the callers.
    pub fn global_xyz_to_local(&self, x: i32, y: i32, z: i32) -> (r: Result<
        (u32, u32, u32),
        TurtleWorldError,
    >)
        requires
            -134217728 <= self.x <= 134217727,
            -134217728 <= self.z <= 134217727,
        ensures
            r is Ok <==> y as int - (self.y as int) * 16 >= 0,
            r is Ok ==> {
                let lx = r->Ok_0.0;
                let ly = r->Ok_0.1;
                let lz = r->Ok_0.2;
                &&& lx as int == abs_int(x as int - (self.x as int) * 16)
                &&& ly as int == y as int - (self.y as int) * 16
                &&& lz as int == abs_int(z as int - (self.z as int) * 16)
            },
            r is Err ==> r->Err_0 == TurtleWorldError::CoordOutOfChunk,
    {
        let dx: i64 = (x as i64) - (self.x as i64) * 16;
        let dy: i64 = (y as i64) - (self.y as i64) * 16;
        let dz: i64 = (z as i64) - (self.z as i64) * 16;
        if dy < 0 {
            return Err(TurtleWorldError::CoordOutOfChunk);
        }
        let ax: i64 = if dx < 0 {
            -dx
        } else {
            dx
        };
        let az: i64 = if dz < 0 {
            -dz
        } else {
            dz
        };
        Ok((ax as u32, dy as u32, az as u32))
    }
}

/// Absolute value on mathematical integers.
pub open spec fn abs_int(v: int) -> int {
    if v < 0 {
        -v
    } else {
        v
    }
}

impl TurtleChunk {
    /// Grid well-formedness: full size and an all-zero padding border.
    pub open spec fn wf(self) -> bool {
        &&& self.data@.len() == 5832
        &&& forall|x: int, y: int, z: int|
            0 <= x < 18 && 0 <= y < 18 && 0 <= z < 18 && is_padding(x, y, z)
                ==> #[trigger] self.data@[pad_lin(x, y, z)].id == 0
    }

    /// The id stored at local cell (x, y, z) of the inner volume.
    pub open spec fn vox(self, x: int, y: int, z: int) -> u16 {
        self.data@[pad_lin(x + 1, y + 1, z + 1)].id
    }

    /// An all-air chunk at the given location.
    pub fn new_by_xyz(loc: ChunkLocation) -> (r: Self)
        ensures
            r.wf(),
            r.location == loc,
            forall|x: int, y: int, z: int|
                0 <= x < 16 && 0 <= y < 16 && 0 <= z < 16 ==> #[trigger] r.vox(x, y, z) == 0,
    {
        Self { location: loc, data: vec![TurtleVoxel { id: 0 }; 5832] }
    }

    /// Read the voxel at a local cell of the inner volume.
    pub fn get_block_by_local_xyz(&self, x: u32, y: u32, z: u32) -> (r: TurtleVoxel)
        requires
            self.wf(),
            x < 16,
            y < 16,
            z < 16,
        ensures
            r.id == self.vox(x as int, y as int, z as int),
    {
        let idx: usize = (x as usize + 1) + 18 * (y as usize + 1) + 324 * (z as usize + 1);
        self.data[idx]
    }

    /// Write the voxel at a local cell of the inner volume, leaving all
    /// other cells and the location unchanged.
    pub fn set_block_by_local_xyz(&mut self, x: u32, y: u32, z: u32, v: TurtleVoxel)
        requires
            old(self).wf(),
            x < 16,
            y < 16,
            z < 16,
        ensures
            final(self).wf(),
            final(self).location == old(self).location,
            final(self).vox(x as int, y as int, z as int) == v.id,
            forall|a: int, b: int, c: int|
                0 <= a < 16 && 0 <= b < 16 && 0 <= c < 16 && (a, b, c) != (
                    x as int,
                    y as int,
                    z as int,
                ) ==> #[trigger] final(self).vox(a, b, c) == old(self).vox(a, b, c),
    {
        let idx: usize = (x as usize + 1) + 18 * (y as usize + 1) + 324 * (z as usize + 1);
        self.data[idx] = v;
        proof {
            assert forall|a: int, b: int, c: int|
                0 <= a < 16 && 0 <= b < 16 && 0 <= c < 16 && (a, b, c) != (
                    x as int,
                    y as int,
                    z as int,
                ) implies #[trigger] final(self).vox(a, b, c) == old(self).vox(a, b, c) by {
                if pad_lin(a + 1, b + 1, c + 1) == pad_lin(x as int + 1, y as int + 1, z as int + 1) {
                    lemma_pad_lin_injective(
                        a + 1,
                        b + 1,
                        c + 1,
                        x as int + 1,
                        y as int + 1,
                        z as int + 1,
                    );
                }
            }
            assert forall|a: int, b: int, c: int|
                0 <= a < 18 && 0 <= b < 18 && 0 <= c < 18 && is_padding(a, b, c)
                implies #[trigger] final(self).data@[pad_lin(a, b, c)].id == 0 by {
                if pad_lin(a, b, c) == pad_lin(x as int + 1, y as int + 1, z as int + 1) {
                    lemma_pad_lin_injective(a, b, c, x as int + 1, y as int + 1, z as int + 1);
                }
            }
        }
    }

    /// Set the voxel addressed by global coordinates to `id`. Fails with
    /// `CoordOutOfChunk` when the coordinates do not fall in this chunk.
    pub fn set_voxel_by_global_xyz(&mut self, x: i32, y: i32, z: i32, id: u16) -> (r: Result<
        (),
        TurtleWorldError,
    >)
        requires
            old(self).wf(),
        ensures
            final(self).wf(),
            final(self).location == old(self).location,
            r is Ok <==> chunk_matches_global(old(self).location, x, y, z),
            r is Ok ==> {
                &&& final(self).vox(
                    local_x(x) as int,
                    local_y(y) as int,
                    local_z(z) as int,
                ) == id
                &&& forall|a: int, b: int, c: int|
                    0 <= a < 16 && 0 <= b < 16 && 0 <= c < 16 && (a, b, c) != (
                        local_x(x) as int,
                        local_y(y) as int,
                        local_z(z) as int,
                    ) ==> #[trigger] final(self).vox(a, b, c) == old(self).vox(a, b, c)
            },
            r is Err ==> *final(self) == *old(self) && r->Err_0 == TurtleWorldError::CoordOutOfChunk,
    {
        if !(self.location.x == x >> 4 && self.location.y as i32 == y >> 4 && self.location.z == z
            >> 4) {
            return Err(TurtleWorldError::CoordOutOfChunk);
        }
        proof {
            lemma_shift_mask_16(x);
            lemma_shift_mask_16(y);
            lemma_shift_mask_16(z);
        }
        let lx: u32 = (x & 15) as u32;
        let ly: u32 = (y & 15) as u32;
        let lz: u32 = (z & 15) as u32;
        self.set_block_by_local_xyz(lx, ly, lz, TurtleVoxel { id });
        Ok(())
    }

    /// Set the voxel addressed by global coordinates to air. Fails with
    /// `AlreadyAir` when it already is, with `CoordOutOfChunk` when the
    /// coordinates are not this chunk's.
    pub fn remove_by_global_xyz(&mut self, x: i32, y: i32, z: i32) -> (r: Result<
        (),
        TurtleWorldError,
    >)
        requires
            old(self).wf(),
        ensures
            final(self).wf(),
            final(self).location == old(self).location,
            r is Ok <==> chunk_matches_global(old(self).location, x, y, z) && old(self).vox(
                local_x(x) as int,
                local_y(y) as int,
                local_z(z) as int,
            ) != 0,
            r is Ok ==> {
                &&& final(self).vox(local_x(x) as int, local_y(y) as int, local_z(z) as int) == 0
                &&& forall|a: int, b: int, c: int|
                    0 <= a < 16 && 0 <= b < 16 && 0 <= c < 16 && (a, b, c) != (
                        local_x(x) as int,
                        local_y(y) as int,
                        local_z(z) as int,
                    ) ==> #[trigger] final(self).vox(a, b, c) == old(self).vox(a, b, c)
            },
            r is Err ==> *final(self) == *old(self),
            r is Err && chunk_matches_global(old(self).location, x, y, z) ==> r->Err_0
                == TurtleWorldError::AlreadyAir,
            r is Err && !chunk_matches_global(old(self).location, x, y, z) ==> r->Err_0
                == TurtleWorldError::CoordOutOfChunk,
    {
        if !(self.location.x == x >> 4 && self.location.y as i32 == y >> 4 && self.location.z == z
            >> 4) {
            return Err(TurtleWorldError::CoordOutOfChunk);
        }
        proof {
            lemma_shift_mask_16(x);
            lemma_shift_mask_16(y);
            lemma_shift_mask_16(z);
        }
        let lx: u32 = (x & 15) as u32;
        let ly: u32 = (y & 15) as u32;
        let lz: u32 = (z & 15) as u32;
        if self.get_block_by_local_xyz(lx, ly, lz).id == 0 {
            return Err(TurtleWorldError::AlreadyAir);
        }
        self.set_block_by_local_xyz(lx, ly, lz, TurtleVoxel { id: 0 });
        Ok(())
    }

    /// The padded voxel grid, linearized x-fastest.
    pub fn voxels(&self) -> (r: &Vec<TurtleVoxel>)
        ensures
            r@ == self.data@,
    {
        &self.data
    }
}

/// Location of the chunk holding global cell (x, y, z), ignoring the
/// narrowing of y.
pub open spec fn loc_of_global(x: i32, y: i32, z: i32) -> ChunkLocation {
    ChunkLocation { x: x >> 4, y: (y >> 4) as i8, z: z >> 4 }
}

/// Whether `loc` is the chunk of global cell (x, y, z). Written over the
/// fields so that a wrapped-around y coordinate never matches.
pub open spec fn chunk_matches_global(loc: ChunkLocation, x: i32, y: i32, z: i32) -> bool {
    loc.x == x >> 4 && loc.y as int == y >> 4 && loc.z == z >> 4
}

/// Whether the chunk y index of global height `y` fits in 8 bits.
pub open spec fn global_y_in_range(y: i32) -> bool {
    -128 <= y >> 4 <= 127
}

/// Local offsets of a global cell within its chunk.
pub open spec fn local_x(x: i32) -> u32 {
    (x & 15) as u32
}

pub open spec fn local_y(y: i32) -> u32 {
    (y & 15) as u32
}

pub open spec fn local_z(z: i32) -> u32 {
    (z & 15) as u32
}



/// Character views of the palette entries, oldest first.
pub open spec fn palette_view(p: TurtleWorldPalette) -> Seq<Seq<char>> {
    p.palette@.map_values(|s: String| s@)
}

/// Whether some palette entry spells `n`.
pub open spec fn palette_contains(pv: Seq<Seq<char>>, n: Seq<char>) -> bool {
    exists|i: int| 0 <= i < pv.len() && pv[i] == n
}

/// Index of the first entry spelling `n`; the length when none does.
pub open spec fn spec_intern_index(pv: Seq<Seq<char>>, n: Seq<char>) -> int
    decreases pv.len(),
{
    if pv.len() == 0 {
        0
    } else if pv[0] == n {
        0
    } else {
        1 + spec_intern_index(pv.drop_first(), n)
    }
}

/// The palette after interning `n`: unchanged when present, else with
/// `n` appended.
pub open spec fn spec_intern(pv: Seq<Seq<char>>, n: Seq<char>) -> Seq<Seq<char>> {
    if palette_contains(pv, n) {
        pv
    } else {
        pv.push(n)
    }
}

/// The name at a palette index, if any.
pub open spec fn spec_name_of(pv: Seq<Seq<char>>, i: int) -> Option<Seq<char>> {
    if 0 <= i < pv.len() {
        Some(pv[i])
    } else {
        None
    }
}

/// `spec_intern_index` returns the position of the first occurrence.
pub proof fn lemma_intern_index_found(pv: Seq<Seq<char>>, n: Seq<char>, i: int)
    requires
        0 <= i < pv.len(),
        pv[i] == n,
        forall|j: int| 0 <= j < i ==> pv[j] != n,
    ensures
        spec_intern_index(pv, n) == i,
    decreases i,
{
    if i > 0 {
        lemma_intern_index_found(pv.drop_first(), n, i - 1);
    }
}

/// `spec_intern_index` returns the length when the name is absent.
pub proof fn lemma_intern_index_absent(pv: Seq<Seq<char>>, n: Seq<char>)
    requires
        forall|j: int| 0 <= j < pv.len() ==> pv[j] != n,
    ensures
        spec_intern_index(pv, n) == pv.len(),
        !palette_contains(pv, n),
    decreases pv.len(),
{
    if pv.len() > 0 {
        assert forall|j: int| 0 <= j < pv.drop_first().len() implies pv.drop_first()[j] != n by {
            assert(pv.drop_first()[j] == pv[j + 1]);
        }
        lemma_intern_index_absent(pv.drop_first(), n);
    }
}

/// Palette round trip: the id handed out for a name reads back as that
/// name, interning is idempotent, ids are stable under later interning
/// of other names, and repeated interning yields the identical id.
pub proof fn lemma_palette_roundtrip(pv: Seq<Seq<char>>, n: Seq<char>, m: Seq<char>)
    ensures
        spec_name_of(spec_intern(pv, n), spec_intern_index(pv, n)) == Some(n),
        spec_intern(spec_intern(pv, n), n) == spec_intern(pv, n),
        spec_intern_index(spec_intern(pv, n), n) == spec_intern_index(pv, n),
        forall|i: int|
            0 <= i < pv.len() ==> spec_name_of(spec_intern(pv, m), i) == spec_name_of(pv, i),
{
    if palette_contains(pv, n) {
        let w = choose|i: int| 0 <= i < pv.len() && pv[i] == n;
        lemma_intern_first_occurrence(pv, n, w);
    } else {
        lemma_intern_index_absent(pv, n);
        let pw = pv.push(n);
        assert(pw[pv.len() as int] == n);
        assert forall|j: int| 0 <= j < pv.len() implies pw[j] != n by {
            assert(pw[j] == pv[j]);
        }
        lemma_intern_index_found(pw, n, pv.len() as int);
        assert(palette_contains(pw, n));
    }
}

/// Where a palette contains a name, the intern index is its first
/// occurrence: in range, spelling the name, with nothing equal before.
pub proof fn lemma_intern_first_occurrence(pv: Seq<Seq<char>>, n: Seq<char>, w: int)
    requires
        0 <= w < pv.len(),
        pv[w] == n,
    ensures
        0 <= spec_intern_index(pv, n) <= w,
        pv[spec_intern_index(pv, n)] == n,
        forall|j: int| 0 <= j < spec_intern_index(pv, n) ==> pv[j] != n,
    decreases w,
{
    if pv[0] == n {
    } else {
        lemma_intern_first_occurrence(pv.drop_first(), n, w - 1);
        assert forall|j: int| 0 <= j < spec_intern_index(pv, n) implies pv[j] != n by {
            if j > 0 {
                assert(pv.drop_first()[j - 1] == pv[j]);
            }
        }
    }
}

/// Two locations that both hold a global cell are the same location.
pub proof fn lemma_chunk_match_unique(l1: ChunkLocation, l2: ChunkLocation, x: i32, y: i32, z: i32)
    requires
        chunk_matches_global(l1, x, y, z),
        chunk_matches_global(l2, x, y, z),
    ensures
        l1 == l2,
{
}

impl TurtleWorldPalette {
    /// The name stored at a palette index, if any.
    pub fn get_pallete_from_id(&self, id: u16) -> (r: Option<String>)
        ensures
            r is Some <==> spec_name_of(palette_view(*self), id as int) is Some,
            r is Some ==> Some(r->0@) == spec_name_of(palette_view(*self), id as int),
    {
        if (id as usize) < self.palette.len() {
            Some(self.palette[id as usize].clone())
        } else {
            None
        }
    }

    /// Intern a block name: the index of its first occurrence, or the
    /// index it is appended at. Interning an existing name changes
    /// nothing; interning a new one appends exactly that name.
    pub fn get_pallete_index(&mut self, item: &str) -> (r: usize)
        ensures
            r as int == spec_intern_index(palette_view(*old(self)), item@),
            palette_view(*final(self)) == spec_intern(palette_view(*old(self)), item@),
    {
        let ghost pv = palette_view(*old(self));
        let n = self.palette.len();
        let mut i: usize = 0;
        while i < n
            invariant
                *self == *old(self),
                pv == palette_view(*old(self)),
                n == self.palette@.len(),
                pv.len() == n,
                i <= n,
                forall|j: int| 0 <= j < i ==> #[trigger] self.palette@[j]@ != item@,
            decreases n - i,
        {
            if str_eq(self.palette[i].as_str(), item) {
                proof {
                    assert(pv[i as int] == item@);
                    assert forall|j: int| 0 <= j < i implies pv[j] != item@ by {
                        assert(self.palette@[j]@ != item@);
                    }
                    lemma_intern_index_found(pv, item@, i as int);
                    assert(palette_contains(pv, item@));
                    assert(palette_view(*final(self)) =~= spec_intern(pv, item@));
                }
                return i;
            }
            i = i + 1;
        }
        proof {
            assert forall|j: int| 0 <= j < pv.len() implies pv[j] != item@ by {
                assert(self.palette@[j]@ != item@);
            }
            lemma_intern_index_absent(pv, item@);
        }
        self.palette.push(item.to_owned());
        proof {
            assert(palette_view(*final(self)) =~= spec_intern(pv, item@));
        }
        n
    }
}

impl Default for TurtleWorldPalette {
    /// A fresh palette: air alone, at index 0.
    fn default() -> (r: Self)
        ensures
            r.palette@.len() == 1,
            r.palette@[0]@ == "minecraft:air"@,
    {
        TurtleWorldPalette { palette: vec!["minecraft:air".to_owned()] }
    }
}

impl TurtleWorldData {
    /// All chunks well formed, locations pairwise distinct.
    pub open spec fn wf(self) -> bool {
        &&& forall|i: int| 0 <= i < self.chunks@.len() ==> (#[trigger] self.chunks@[i]).wf()
        &&& forall|i: int, j: int|
            0 <= i < self.chunks@.len() && 0 <= j < self.chunks@.len() && i != j
                ==> (#[trigger] self.chunks@[i]).location != (#[trigger] self.chunks@[j]).location
    }

    /// Some chunk holds global cell (x, y, z).
    pub open spec fn spec_has_chunk(self, x: i32, y: i32, z: i32) -> bool {
        exists|i: int|
            0 <= i < self.chunks@.len() && chunk_matches_global(
                (#[trigger] self.chunks@[i]).location,
                x,
                y,
                z,
            )
    }

    /// Index of the chunk holding global cell (x, y, z).
    pub open spec fn spec_chunk_idx(self, x: i32, y: i32, z: i32) -> int {
        choose|i: int|
            0 <= i < self.chunks@.len() && chunk_matches_global(
                (#[trigger] self.chunks@[i]).location,
                x,
                y,
                z,
            )
    }

    /// The id of the voxel at a global cell; 0 where no chunk exists.
    pub open spec fn global_voxel(self, x: i32, y: i32, z: i32) -> u16 {
        if self.spec_has_chunk(x, y, z) {
            self.chunks@[self.spec_chunk_idx(x, y, z)].vox(
                local_x(x) as int,
                local_y(y) as int,
                local_z(z) as int,
            )
        } else {
            0
        }
    }

    /// A well-formed store holds at most one chunk per location, so a
    /// found match is the chunk the specification speaks of.
    proof fn lemma_idx_unique(self, x: i32, y: i32, z: i32, i: int)
        requires
            self.wf(),
            0 <= i < self.chunks@.len(),
            chunk_matches_global(self.chunks@[i].location, x, y, z),
        ensures
            self.spec_has_chunk(x, y, z),
            self.spec_chunk_idx(x, y, z) == i,
    {
        let k = self.spec_chunk_idx(x, y, z);
        lemma_chunk_match_unique(self.chunks@[k].location, self.chunks@[i].location, x, y, z);
    }

    /// A shared view of the chunk at a location, if present.
    pub fn get_chunk_by_loc(&self, loc: &ChunkLocation) -> (r: Option<&TurtleChunk>)
        ensures
            r is Some ==> exists|i: int|
                0 <= i < self.chunks@.len() && (#[trigger] self.chunks@[i]).location == *loc
                    && *r->0 == self.chunks@[i],
            r is None ==> forall|i: int|
                0 <= i < self.chunks@.len() ==> (#[trigger] self.chunks@[i]).location != *loc,
    {
        let n = self.chunks.len();
        let mut i: usize = 0;
        while i < n
            invariant
                n == self.chunks@.len(),
                i <= n,
                forall|j: int| 0 <= j < i ==> (#[trigger] self.chunks@[j]).location != *loc,
            decreases n - i,
        {
            if self.chunks[i].location == *loc {
                return Some(&self.chunks[i]);
            }
            i = i + 1;
        }
        None
    }


    /// A key fact for frame reasoning: a global cell determines its
    /// chunk location and local offsets; conversely those determine the
    /// cell.
    proof fn lemma_cell_determined(a: i32, b: i32, c: i32, x: i32, y: i32, z: i32)
        requires
            a >> 4 == x >> 4,
            b >> 4 == y >> 4,
            c >> 4 == z >> 4,
            a & 15 == x & 15,
            b & 15 == y & 15,
            c & 15 == z & 15,
        ensures
            a == x && b == y && c == z,
    {
        lemma_shift_mask_16(a);
        lemma_shift_mask_16(b);
        lemma_shift_mask_16(c);
        lemma_shift_mask_16(x);
        lemma_shift_mask_16(y);
        lemma_shift_mask_16(z);
    }

    /// Set the voxel at a global cell, creating the chunk when absent.
    /// Rejects heights whose chunk index leaves 8 bits; every other
    /// global cell keeps its value.
    pub fn set_global_voxel(&mut self, x: i32, y: i32, z: i32, id: u16) -> (r: Result<
        (),
        TurtleWorldError,
    >)
        requires
            old(self).wf(),
        ensures
            final(self).wf(),
            r is Ok <==> global_y_in_range(y),
            r is Err ==> *final(self) == *old(self) && r->Err_0 == TurtleWorldError::YRangeError,
            r is Ok ==> final(self).global_voxel(x, y, z) == id,
            r is Ok ==> forall|a: i32, b: i32, c: i32|
                (a, b, c) != (x, y, z) ==> final(self).global_voxel(a, b, c) == old(
                    self,
                ).global_voxel(a, b, c),
    {
        let cx = x >> 4;
        let cy = y >> 4;
        let cz = z >> 4;
        if cy < -128 || cy > 127 {
            return Err(TurtleWorldError::YRangeError);
        }
        proof {
            lemma_shift_mask_16(x);
            lemma_shift_mask_16(y);
            lemma_shift_mask_16(z);
        }
        let loc = ChunkLocation::xyz(cx, cy as i8, cz);
        let n = self.chunks.len();
        let mut i: usize = 0;
        let mut found: bool = false;
        while !found && i < n
            invariant
                *self == *old(self),
                self.wf(),
                n == self.chunks@.len(),
                i <= n,
                loc == (ChunkLocation { x: x >> 4, y: ((y >> 4) as i8), z: z >> 4 }),
                chunk_matches_global(loc, x, y, z),
                found ==> i < n && self.chunks@[i as int].location == loc,
                forall|j: int|
                    0 <= j < i ==> !chunk_matches_global(
                        (#[trigger] self.chunks@[j]).location,
                        x,
                        y,
                        z,
                    ),
            decreases n - i + (if found { 0int } else { 1int }),
        {
            if self.chunks[i].location == loc {
                found = true;
            } else {
                i = i + 1;
            }
        }
        if !found {
            proof {
                assert forall|j: int| 0 <= j < self.chunks@.len() implies (#[trigger] self
                    .chunks@[j]).location != loc by {
                    assert(!chunk_matches_global(self.chunks@[j].location, x, y, z));
                }
            }
            let fresh = TurtleChunk::new_by_xyz(loc);
            self.chunks.push(fresh);
            i = self.chunks.len() - 1;
        }
        let ghost pre = *self;
        let ghost ii = i as int;
        proof {
            if !found {
                assert(pre.chunks@.take(old(self).chunks@.len() as int) =~= old(self).chunks@);
            }
            self.lemma_idx_unique(x, y, z, ii);
        }
        let res = self.chunks[i].set_voxel_by_global_xyz(x, y, z, id);
        proof {
            assert(res is Ok);
            assert(final(self).chunks@ == pre.chunks@.update(ii, final(self).chunks@[ii]));
            assert(final(self).wf());
            final(self).lemma_idx_unique(x, y, z, ii);
            assert(final(self).global_voxel(x, y, z) == id);
            assert forall|a: i32, b: i32, c: i32| (a, b, c) != (x, y, z)
                implies final(self).global_voxel(a, b, c) == old(self).global_voxel(a, b, c) by {
                Self::lemma_frame_one_chunk(*old(self), pre, *final(self), ii, x, y, z, a, b, c);
            }
        }
        Ok(())
    }

    /// The frame argument shared by the global mutators: `pre` extends
    /// `orig` by at most one fresh all-air chunk for cell (x, y, z),
    /// `post` changes `pre` only at that chunk's (x, y, z) voxel, so any
    /// other global cell reads the same in `post` and `orig`.
    proof fn lemma_frame_one_chunk(
        orig: TurtleWorldData,
        pre: TurtleWorldData,
        post: TurtleWorldData,
        ii: int,
        x: i32,
        y: i32,
        z: i32,
        a: i32,
        b: i32,
        c: i32,
    )
        requires
            orig.wf(),
            pre.wf(),
            post.wf(),
            0 <= ii < pre.chunks@.len(),
            chunk_matches_global(pre.chunks@[ii].location, x, y, z),
            // pre is orig, or orig plus one fresh all-air chunk at the end
            pre.chunks@ == orig.chunks@ || (pre.chunks@.len() == orig.chunks@.len() + 1
                && ii == orig.chunks@.len() && pre.chunks@.take(orig.chunks@.len() as int)
                == orig.chunks@ && forall|p: int, q: int, t: int|
                0 <= p < 16 && 0 <= q < 16 && 0 <= t < 16 ==> (#[trigger] pre.chunks@[ii].vox(
                    p,
                    q,
                    t,
                )) == 0),
            // post differs from pre only at chunk ii, voxel (x, y, z)
            post.chunks@.len() == pre.chunks@.len(),
            forall|j: int|
                0 <= j < pre.chunks@.len() && j != ii ==> #[trigger] post.chunks@[j]
                    == pre.chunks@[j],
            post.chunks@[ii].location == pre.chunks@[ii].location,
            forall|p: int, q: int, t: int|
                0 <= p < 16 && 0 <= q < 16 && 0 <= t < 16 && (p, q, t) != (
                    local_x(x) as int,
                    local_y(y) as int,
                    local_z(z) as int,
                ) ==> (#[trigger] post.chunks@[ii].vox(p, q, t)) == pre.chunks@[ii].vox(p, q, t),
            (a, b, c) != (x, y, z),
        ensures
            post.global_voxel(a, b, c) == orig.global_voxel(a, b, c),
    {
        lemma_shift_mask_16(a);
        lemma_shift_mask_16(b);
        lemma_shift_mask_16(c);
        lemma_shift_mask_16(x);
        lemma_shift_mask_16(y);
        lemma_shift_mask_16(z);
        if post.spec_has_chunk(a, b, c) {
            let k = post.spec_chunk_idx(a, b, c);
            assert(0 <= k < post.chunks@.len() && chunk_matches_global(
                post.chunks@[k].location,
                a,
                b,
                c,
            ));
            if k == ii {
                // same chunk as the mutated one
                if chunk_matches_global(pre.chunks@[ii].location, a, b, c) {
                }
                if (local_x(a), local_y(b), local_z(c)) == (local_x(x), local_y(y), local_z(z)) {
                    Self::lemma_cell_determined(a, b, c, x, y, z);
                }
                assert(post.chunks@[ii].vox(local_x(a) as int, local_y(b) as int, local_z(c) as int)
                    == pre.chunks@[ii].vox(
                    local_x(a) as int,
                    local_y(b) as int,
                    local_z(c) as int,
                ));
                if pre.chunks@ == orig.chunks@ {
                    orig.lemma_idx_unique(a, b, c, ii);
                } else {
                    // the chunk was fresh: orig has no chunk for (a, b, c)
                    assert forall|j: int| 0 <= j < orig.chunks@.len() implies !chunk_matches_global(
                        (#[trigger] orig.chunks@[j]).location,
                        a,
                        b,
                        c,
                    ) by {
                        assert(orig.chunks@[j] == pre.chunks@[j]);
                        if chunk_matches_global(orig.chunks@[j].location, a, b, c) {
                            lemma_chunk_match_unique(
                                orig.chunks@[j].location,
                                pre.chunks@[ii].location,
                                a,
                                b,
                                c,
                            );
                        }
                    }
                    assert(!orig.spec_has_chunk(a, b, c));
                    assert(orig.global_voxel(a, b, c) == 0);
                    assert(pre.chunks@[ii].vox(
                        local_x(a) as int,
                        local_y(b) as int,
                        local_z(c) as int,
                    ) == 0);
                }
            } else {
                // an untouched chunk
                assert(post.chunks@[k] == pre.chunks@[k]);
                if pre.chunks@ == orig.chunks@ {
                    orig.lemma_idx_unique(a, b, c, k);
                } else {
                    assert(k < orig.chunks@.len());
                    assert(orig.chunks@[k] == pre.chunks@[k]);
                    orig.lemma_idx_unique(a, b, c, k);
                }
            }
        } else {
            // no chunk holds (a, b, c) afterwards; none did before
            assert forall|j: int| 0 <= j < orig.chunks@.len() implies !chunk_matches_global(
                (#[trigger] orig.chunks@[j]).location,
                a,
                b,
                c,
            ) by {
                if pre.chunks@ == orig.chunks@ {
                    if chunk_matches_global(orig.chunks@[j].location, a, b, c) {
                        assert(post.chunks@[j].location == orig.chunks@[j].location);
                    }
                } else {
                    assert(orig.chunks@[j] == pre.chunks@[j]);
                    if chunk_matches_global(orig.chunks@[j].location, a, b, c) {
                        assert(post.chunks@[j].location == orig.chunks@[j].location);
                    }
                }
            }
            assert(!orig.spec_has_chunk(a, b, c));
        }
    }

    /// Set the voxel at a global cell to air. Fails with `YRangeError`
    /// for impossible heights, `NoSuchChunk` where no chunk is present,
    /// and `AlreadyAir` where the voxel already reads 0.
    pub fn remove_global_block_by_xyz(&mut self, x: i32, y: i32, z: i32) -> (r: Result<
        (),
        TurtleWorldError,
    >)
        requires
            old(self).wf(),
        ensures
            final(self).wf(),
            r is Ok <==> global_y_in_range(y) && old(self).spec_has_chunk(x, y, z) && old(
                self,
            ).global_voxel(x, y, z) != 0,
            r is Err ==> final(self).chunks@ == old(self).chunks@,
            r is Err && !global_y_in_range(y) ==> r->Err_0 == TurtleWorldError::YRangeError,
            r is Err && global_y_in_range(y) && !old(self).spec_has_chunk(x, y, z) ==> r->Err_0
                == TurtleWorldError::NoSuchChunk,
            r is Err && global_y_in_range(y) && old(self).spec_has_chunk(x, y, z) ==> r->Err_0
                == TurtleWorldError::AlreadyAir,
            r is Ok ==> final(self).global_voxel(x, y, z) == 0,
            r is Ok ==> forall|a: i32, b: i32, c: i32|
                (a, b, c) != (x, y, z) ==> final(self).global_voxel(a, b, c) == old(
                    self,
                ).global_voxel(a, b, c),
    {
        let cx = x >> 4;
        let cy = y >> 4;
        let cz = z >> 4;
        if cy < -128 || cy > 127 {
            return Err(TurtleWorldError::YRangeError);
        }
        proof {
            lemma_shift_mask_16(x);
            lemma_shift_mask_16(y);
            lemma_shift_mask_16(z);
        }
        let loc = ChunkLocation::xyz(cx, cy as i8, cz);
        let n = self.chunks.len();
        let mut i: usize = 0;
        while i < n
            invariant
                *self == *old(self),
                self.wf(),
                n == self.chunks@.len(),
                i <= n,
                loc == (ChunkLocation { x: x >> 4, y: ((y >> 4) as i8), z: z >> 4 }),
                chunk_matches_global(loc, x, y, z),
                forall|j: int|
                    0 <= j < i ==> !chunk_matches_global(
                        (#[trigger] self.chunks@[j]).location,
                        x,
                        y,
                        z,
                    ),
            decreases n - i,
        {
            if self.chunks[i].location == loc {
                let ghost pre = *self;
                let ghost ii = i as int;
                proof {
                    self.lemma_idx_unique(x, y, z, ii);
                }
                let res = self.chunks[i].remove_by_global_xyz(x, y, z);
                match res {
                    Ok(()) => {
                        proof {
                            assert(old(self).spec_has_chunk(x, y, z));
                            assert(old(self).global_voxel(x, y, z) == pre.chunks@[ii].vox(
                                local_x(x) as int,
                                local_y(y) as int,
                                local_z(z) as int,
                            ));
                            assert(final(self).chunks@ == pre.chunks@.update(
                                ii,
                                final(self).chunks@[ii],
                            ));
                            assert(final(self).wf());
                            final(self).lemma_idx_unique(x, y, z, ii);
                            assert forall|a: i32, b: i32, c: i32| (a, b, c) != (x, y, z)
                                implies final(self).global_voxel(a, b, c) == old(self).global_voxel(a, b, c) by {
                                Self::lemma_frame_one_chunk(
                                    *old(self),
                                    pre,
                                    *final(self),
                                    ii,
                                    x,
                                    y,
                                    z,
                                    a,
                                    b,
                                    c,
                                );
                            }
                        }
                        return Ok(());
                    },
                    Err(e) => {
                        proof {
                            assert(e == TurtleWorldError::AlreadyAir);
                            assert(final(self).chunks@ =~= old(self).chunks@);
                            assert(old(self).global_voxel(x, y, z) == pre.chunks@[ii].vox(
                                local_x(x) as int,
                                local_y(y) as int,
                                local_z(z) as int,
                            ));
                            assert(old(self).global_voxel(x, y, z) == 0);
                        }
                        return Err(TurtleWorldError::AlreadyAir);
                    },
                }
            }
            i = i + 1;
        }
        proof {
            assert(!old(self).spec_has_chunk(x, y, z));
        }
        Err(TurtleWorldError::NoSuchChunk)
    }

    /// Read the voxel id at a global cell; 0 where no chunk exists.
    pub fn get_global_voxel(&self, x: i32, y: i32, z: i32) -> (r: u16)
        requires
            self.wf(),
        ensures
            r == self.global_voxel(x, y, z),
    {
        let cx = x >> 4;
        let cy = y >> 4;
        let cz = z >> 4;
        proof {
            lemma_shift_mask_16(x);
            lemma_shift_mask_16(y);
            lemma_shift_mask_16(z);
        }
        let n = self.chunks.len();
        let mut i: usize = 0;
        while i < n
            invariant
                self.wf(),
                n == self.chunks@.len(),
                i <= n,
                cx == x >> 4,
                cy == y >> 4,
                cz == z >> 4,
                forall|j: int|
                    0 <= j < i ==> !chunk_matches_global(
                        (#[trigger] self.chunks@[j]).location,
                        x,
                        y,
                        z,
                    ),
            decreases n - i,
        {
            let c = &self.chunks[i];
            if c.location.x == cx && c.location.y as i32 == cy && c.location.z == cz {
                proof {
                    self.lemma_idx_unique(x, y, z, i as int);
                    lemma_shift_mask_16(x);
                    lemma_shift_mask_16(y);
                    lemma_shift_mask_16(z);
                }
                return c.get_block_by_local_xyz((x & 15) as u32, (y & 15) as u32, (z & 15) as u32).id;
            }
            i = i + 1;
        }
        return 0;
    }
}


impl TurtleWorld {
    /// World well-formedness: the chunk store's.
    pub open spec fn wf(self) -> bool {
        self.data.wf()
    }

    /// A fresh world: the air-only palette and no chunks.
    pub fn new() -> (r: Self)
        ensures
            r.wf(),
            palette_view(r.pallete) =~= seq!["minecraft:air"@],
            r.data.chunks@.len() == 0,
    {
        Self { pallete: TurtleWorldPalette::default(), data: TurtleWorldData { chunks: Vec::new() } }
    }

    /// Resolve a global cell to its chunk location and local offsets:
    /// the location is the coordinates shifted right by four, the
    /// offsets their low four bits. Heights whose chunk index leaves
    /// 8 bits are rejected.
    pub fn get_chunk_loc_from_global_xyz(x: i32, y: i32, z: i32) -> (r: Result<
        (ChunkLocation, u32, u32, u32),
        TurtleWorldError,
    >)
        ensures
            r is Ok <==> global_y_in_range(y),
            r is Err ==> r->Err_0 == TurtleWorldError::YRangeError,
            r is Ok ==> {
                let (loc, lx, ly, lz) = r->Ok_0;
                &&& loc.x == x >> 4
                &&& loc.y as int == y >> 4
                &&& loc.z == z >> 4
                &&& lx == local_x(x)
                &&& ly == local_y(y)
                &&& lz == local_z(z)
                &&& loc == loc_of_global(x, y, z)
                &&& chunk_matches_global(loc, x, y, z)
            },
    {
        let cy32 = y >> 4;
        if cy32 < -128 || cy32 > 127 {
            return Err(TurtleWorldError::YRangeError);
        }
        proof {
            lemma_shift_mask_16(x);
            lemma_shift_mask_16(y);
            lemma_shift_mask_16(z);
        }
        let chunk_loc = ChunkLocation::xyz(x >> 4, cy32 as i8, z >> 4);
        let r = chunk_loc.global_xyz_to_local(x, y, z);
        match r {
            Ok((lx, ly, lz)) => {
                proof {
                    assert(lx as int == abs_int(x as int - ((x >> 4) as int) * 16));
                    assert(x as int - ((x >> 4) as int) * 16 == (x & 15) as int);
                    assert(y as int - ((y >> 4) as int) * 16 == (y & 15) as int);
                    assert(z as int - ((z >> 4) as int) * 16 == (z & 15) as int);
                }
                Ok((chunk_loc, lx, ly, lz))
            },
            Err(_) => {
                proof {
                    assert(y as int - ((y >> 4) as int) * 16 == (y & 15) as int);
                    assert(false);
                }
                Err(TurtleWorldError::YRangeError)
            },
        }
    }
}

/// Splitting a coordinate at bit 4 is division with remainder by 16.
pub proof fn lemma_shift_mask_16(v: i32)
    by (bit_vector)
    ensures
        0 <= (v & 15) < 16,
        (v >> 4) * 16 + (v & 15) == v,
        -134217728 <= (v >> 4) <= 134217727,
{
}

} // verus!
