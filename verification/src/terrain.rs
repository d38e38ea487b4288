//! The land: square chunks of tiles, what grows on each tile, and what is built there.
use crate::exact;
use crate::single::Single;
use crate::tile_map::{Tile, TileMap};
use vstd::prelude::*;

verus! {

/// Tiles along the edge of a chunk.
pub const CHUNK_SIZE: i32 = 32;

/// Tiles in a chunk.
pub const CHUNK_TILES: usize = 1024;

/// The number 32, by its pattern.
pub const THIRTY_TWO: u32 = 0x4200_0000;

/// What a tile is made of.
#[derive(Clone, Copy, Debug, PartialEq, Eq, Structural)]
pub enum TileType {
    Grass,
    Water,
    Forest,
    Mountain,
    Gold,
}

/// A double-precision number, by its bit pattern. Only its place among others matters here.
#[derive(Clone, Copy, Debug, PartialEq, Eq, Structural)]
pub struct Double {
    pub bits: u64,
}

impl Double {
    /// The pattern without its sign bit.
    pub open spec fn mag(self) -> int {
        self.bits as int % 0x8000_0000_0000_0000
    }

    /// Whether this is no number at all.
    pub open spec fn nan(self) -> bool {
        self.mag() > 0x7ff0_0000_0000_0000
    }

    /// The place of a number in the order of all numbers: the two zeros share one.
    pub open spec fn place(self) -> int {
        if self.bits >= 0x8000_0000_0000_0000 {
            -self.mag()
        } else {
            self.mag()
        }
    }

    /// Whether both are numbers and this one is the smaller.
    pub open spec fn below(self, other: Double) -> bool {
        !self.nan() && !other.nan() && self.place() < other.place()
    }

    /// Whether this number is less than the other.
    pub fn lt(self, other: Double) -> (r: bool)
        ensures
            r == self.below(other),
    {
        let m1: u64 = self.bits % 0x8000_0000_0000_0000;
        let m2: u64 = other.bits % 0x8000_0000_0000_0000;
        if m1 > 0x7ff0_0000_0000_0000 || m2 > 0x7ff0_0000_0000_0000 {
            return false;
        }
        let p1: i64 = if self.bits >= 0x8000_0000_0000_0000 { -(m1 as i64) } else { m1 as i64 };
        let p2: i64 = if other.bits >= 0x8000_0000_0000_0000 { -(m2 as i64) } else { m2 as i64 };
        p1 < p2
    }
}

/// The numbers 0.25, 0.28 and 0.283, by their patterns: the shares of forest, of forest and
/// mountain, and of these and gold.
pub const FOREST_BELOW: u64 = 0x3fd0_0000_0000_0000;

pub const MOUNTAIN_BELOW: u64 = 0x3fd1_eb85_1eb8_51ec;

pub const GOLD_BELOW: u64 = 0x3fd2_1cac_0831_26e9;

/// Whether a tile of a chunk lies in the clearing around the town center.
pub open spec fn in_clearing(lx: int, ly: int) -> bool {
    13 <= lx <= 19 && 13 <= ly <= 19
}

/// What grows on a tile of a chunk, where the noise has the given value.
pub open spec fn grown(lx: int, ly: int, noise: Double) -> TileType {
    if in_clearing(lx, ly) {
        TileType::Grass
    } else if noise.below(Double { bits: FOREST_BELOW }) {
        TileType::Forest
    } else if noise.below(Double { bits: MOUNTAIN_BELOW }) {
        TileType::Mountain
    } else if noise.below(Double { bits: GOLD_BELOW }) {
        TileType::Gold
    } else {
        TileType::Grass
    }
}

/// What grows on a tile of a chunk, where the noise has the given value.
pub fn calculate_tile_type(lx: i32, ly: i32, noise: Double) -> (t: TileType)
    ensures
        t == grown(lx as int, ly as int, noise),
{
    let mid: i32 = CHUNK_SIZE / 2;
    if lx >= mid - 3 && lx <= mid + 3 && ly >= mid - 3 && ly <= mid + 3 {
        return TileType::Grass;
    }
    if noise.lt(Double { bits: FOREST_BELOW }) {
        TileType::Forest
    } else if noise.lt(Double { bits: MOUNTAIN_BELOW }) {
        TileType::Mountain
    } else if noise.lt(Double { bits: GOLD_BELOW }) {
        TileType::Gold
    } else {
        TileType::Grass
    }
}

/// The seed from which the noise of a tile is made.
pub open spec fn seed(cx: i32, cy: i32, lx: i32, ly: i32) -> i64 {
    (((cx * 73856093) as i64) ^ ((cy * 19349663) as i64)) ^ ((lx * 83492791) as i64) ^ ((ly
        * 23492871) as i64)
}

/// The seed from which the noise of a tile is made.
pub fn tile_seed(cx: i32, cy: i32, lx: i32, ly: i32) -> (s: i64)
    ensures
        s == seed(cx, cy, lx, ly),
{
    (cx as i64 * 73856093) ^ (cy as i64 * 19349663) ^ (lx as i64 * 83492791) ^ (ly as i64
        * 23492871)
}

/// The coordinate of the chunk in which a tile lies, by single-precision division.
pub open spec fn chunk_coordinate(g: i32) -> i32 {
    Single::of_int(g as int).quotient(Single { bits: THIRTY_TWO }).floor_int() as i32
}

/// The chunk in which a tile lies.
pub open spec fn chunk_of(t: Tile) -> Tile {
    (chunk_coordinate(t.0), chunk_coordinate(t.1))
}

/// The index of a tile within its chunk.
pub open spec fn index_in_chunk(t: Tile) -> int {
    (t.1 as int % 32) * 32 + t.0 as int % 32
}

/// The chunk coordinate of a tile coordinate.
pub fn chunk_coordinate_of(g: i32) -> (c: i32)
    ensures
        c == chunk_coordinate(g),
{
    Single::from_i32(g).over(Single { bits: THIRTY_TWO }).floor_i32()
}

/// The place of a coordinate within its chunk.
pub fn local_coordinate(g: i32) -> (l: i32)
    ensures
        l == g as int % 32,
        0 <= l < 32,
{
    ((g as i64 + 0x8000_0000) % 32) as i32
}

/// A square of tiles, row by row.
pub struct Chunk {
    pub tiles: Vec<TileType>,
}

/// A building, which fills one tile.
#[derive(Clone, Copy, Debug, PartialEq, Eq, Structural)]
pub struct Building {
    pub tile_x: i32,
    pub tile_y: i32,
    pub kind: u8,
    pub owner_id: i32,
}

/// The known chunks and the buildings.
pub struct Land {
    pub chunks: TileMap<Chunk>,
    pub buildings: Vec<Building>,
}

/// The known chunks and the buildings.
#[verifier::ext_equal]
pub struct LandView {
    pub chunks: Map<Tile, Seq<TileType>>,
    pub buildings: Seq<Building>,
}

impl View for Land {
    type V = LandView;

    open spec fn view(&self) -> LandView {
        LandView {
            chunks: self.chunks@.map_values(|c: Chunk| c.tiles@),
            buildings: self.buildings@,
        }
    }
}

/// Whether some building stands on the tile.
pub open spec fn built_on(buildings: Seq<Building>, t: Tile) -> bool {
    exists|i: int|
        0 <= i < buildings.len() && (#[trigger] buildings[i]).tile_x == t.0 && buildings[i].tile_y
            == t.1
}

impl LandView {
    /// Whether every known chunk has all its tiles.
    pub open spec fn wf(self) -> bool {
        forall|c: Tile| #[trigger]
            self.chunks.contains_key(c) ==> self.chunks[c].len() == CHUNK_TILES
    }

    /// Whether a unit can stand on the tile: it lies in a known chunk, it is grass, and nothing
    /// is built on it.
    pub open spec fn walkable(self, t: Tile) -> bool {
        &&& self.chunks.contains_key(chunk_of(t))
        &&& self.chunks[chunk_of(t)][index_in_chunk(t)] == TileType::Grass
        &&& !built_on(self.buildings, t)
    }

    /// What the tile is made of: as its chunk says, or as it would grow there.
    pub open spec fn tile_type(self, t: Tile, noise: Double) -> TileType {
        if self.chunks.contains_key(chunk_of(t)) {
            self.chunks[chunk_of(t)][index_in_chunk(t)]
        } else {
            grown(t.0 as int % 32, t.1 as int % 32, noise)
        }
    }

    /// The land with one more chunk, unless it is known already.
    pub open spec fn with_chunk(self, c: Tile, noise: Seq<Double>) -> LandView {
        if self.chunks.contains_key(c) {
            self
        } else {
            LandView { chunks: self.chunks.insert(c, grown_chunk(noise)), ..self }
        }
    }
}

/// The tiles of a chunk, row by row, where the noise has the given values.
pub open spec fn grown_chunk(noise: Seq<Double>) -> Seq<TileType> {
    Seq::new(CHUNK_TILES as nat, |i: int| grown(i % 32, i / 32, noise[i]))
}

impl Land {
    /// Land of which nothing is known.
    pub fn new() -> (land: Land)
        ensures
            land@.wf(),
            land@.chunks == Map::<Tile, Seq<TileType>>::empty(),
            land@.buildings == Seq::<Building>::empty(),
    {
        let land = Land { chunks: TileMap::new(), buildings: Vec::new() };
        assert(land@.chunks =~= Map::<Tile, Seq<TileType>>::empty());
        land
    }

    /// Whether some building stands on the tile.
    pub fn is_built_on(&self, t: Tile) -> (r: bool)
        ensures
            r == built_on(self@.buildings, t),
    {
        let mut i: usize = 0;
        while i < self.buildings.len()
            invariant
                i <= self.buildings@.len(),
                forall|j: int|
                    0 <= j < i ==> !((#[trigger] self.buildings@[j]).tile_x == t.0
                        && self.buildings@[j].tile_y == t.1),
            decreases self.buildings@.len() - i,
        {
            if self.buildings[i].tile_x == t.0 && self.buildings[i].tile_y == t.1 {
                return true;
            }
            i = i + 1;
        }
        false
    }

    /// Grows a chunk from the noise of its tiles, unless it is known already.
    pub fn generate_chunk(&mut self, cx: i32, cy: i32, noise: &Vec<Double>)
        requires
            !old(self)@.chunks.contains_key((cx, cy)) ==> noise@.len() == CHUNK_TILES,
        ensures
            final(self)@ == old(self)@.with_chunk((cx, cy), noise@),
            old(self)@.wf() ==> final(self)@.wf(),
            final(self).buildings == old(self).buildings,
    {
        if self.chunks.contains_key((cx, cy)) {
            return;
        }
        let ghost before = self@;
        let mut tiles: Vec<TileType> = Vec::new();
        let mut i: usize = 0;
        while i < CHUNK_TILES
            invariant
                noise@.len() == CHUNK_TILES,
                i <= CHUNK_TILES,
                tiles@.len() == i,
                forall|j: int| 0 <= j < i ==> tiles@[j] == grown(j % 32, j / 32, noise@[j]),
            decreases CHUNK_TILES - i,
        {
            tiles.push(calculate_tile_type((i % 32) as i32, (i / 32) as i32, noise[i]));
            i = i + 1;
        }
        assert(tiles@ =~= grown_chunk(noise@));
        self.chunks.insert((cx, cy), Chunk { tiles });
        assert(self@.chunks =~= before.chunks.insert((cx, cy), grown_chunk(noise@)));
    }

    /// What the tile is made of: as its chunk says, or as it would grow there.
    pub fn get_tile_type(&self, gx: i32, gy: i32, noise: Double) -> (r: Option<TileType>)
        requires
            self@.wf(),
        ensures
            r == Some(self@.tile_type((gx, gy), noise)),
    {
        let cx: i32 = chunk_coordinate_of(gx);
        let cy: i32 = chunk_coordinate_of(gy);
        let lx: i32 = local_coordinate(gx);
        let ly: i32 = local_coordinate(gy);
        match self.chunks.get((cx, cy)) {
            Some(chunk) => {
                assert(self@.chunks.contains_key((cx, cy)));
                Some(chunk.tiles[(ly * CHUNK_SIZE + lx) as usize])
            },
            None => Some(calculate_tile_type(lx, ly, noise)),
        }
    }

    /// Whether a unit can stand on the tile.
    pub fn is_tile_walkable(&self, gx: i32, gy: i32) -> (r: bool)
        requires
            self@.wf(),
        ensures
            r == self@.walkable((gx, gy)),
    {
        let cx: i32 = chunk_coordinate_of(gx);
        let cy: i32 = chunk_coordinate_of(gy);
        match self.chunks.get((cx, cy)) {
            Some(chunk) => {
                assert(self@.chunks.contains_key((cx, cy)));
                let lx: i32 = local_coordinate(gx);
                let ly: i32 = local_coordinate(gy);
                match chunk.tiles[(ly * CHUNK_SIZE + lx) as usize] {
                    TileType::Water | TileType::Forest | TileType::Mountain | TileType::Gold => false,
                    TileType::Grass => !self.is_built_on((gx, gy)),
                }
            },
            None => false,
        }
    }
}

/// The clearing around every town center is grass, whatever the noise.
pub proof fn the_clearing_is_grass(lx: int, ly: int, noise: Double)
    requires
        in_clearing(lx, ly),
    ensures
        grown(lx, ly, noise) == TileType::Grass,
{
}

/// Water does not grow anywhere.
pub proof fn no_water_grows(lx: int, ly: int, noise: Double)
    ensures
        grown(lx, ly, noise) != TileType::Water,
{
}

/// As far as tiles have exact coordinates, every 32 of them make a chunk, on both sides of zero.
pub proof fn chunks_have_32_tiles_a_side(g: i32)
    requires
        exact::small(g as int),
    ensures
        chunk_coordinate(g) == g as int / 32,
{
    vstd::arithmetic::power2::lemma2_to64();
    exact::lemma_power(5);
    exact::small_quotients_are_exact(g as int, 5);
}

/// A chunk that was grown once stays as it is.
pub proof fn chunks_grow_once(land: LandView, c: Tile, first: Seq<Double>, again: Seq<Double>)
    ensures
        land.with_chunk(c, first).with_chunk(c, again) == land.with_chunk(c, first),
{
}

/// To grow a chunk leaves every tile as it was foreseen: where the noise of the tile is the one from
/// which its chunk grows, it is made of the same before and after.
pub proof fn growing_keeps_what_was_foreseen(
    land: LandView,
    c: Tile,
    noise: Seq<Double>,
    t: Tile,
    n: Double,
)
    requires
        chunk_of(t) == c ==> noise[index_in_chunk(t)] == n,
    ensures
        land.with_chunk(c, noise).tile_type(t, n) == land.tile_type(t, n),
{
    let i = index_in_chunk(t);
    assert(i % 32 == t.0 as int % 32 && i / 32 == t.1 as int % 32);
}

/// The noise of a tile, where `f` makes noise from seeds.
pub open spec fn noise_at(f: spec_fn(i64) -> Double, t: Tile) -> Double {
    f(seed(chunk_of(t).0, chunk_of(t).1, (t.0 as int % 32) as i32, (t.1 as int % 32) as i32))
}

/// The noise of the tiles of a chunk, row by row, where `f` makes noise from seeds.
pub open spec fn noise_in(f: spec_fn(i64) -> Double, c: Tile) -> Seq<Double> {
    Seq::new(CHUNK_TILES as nat, |i: int| f(seed(c.0, c.1, (i % 32) as i32, (i / 32) as i32)))
}

/// Whatever makes the noise from the seeds of the tiles, to grow a chunk changes no tile.
pub proof fn growing_changes_no_tile(
    land: LandView,
    c: Tile,
    f: spec_fn(i64) -> Double,
    t: Tile,
)
    ensures
        land.with_chunk(c, noise_in(f, c)).tile_type(t, noise_at(f, t)) == land.tile_type(
            t,
            noise_at(f, t),
        ),
{
    let i = index_in_chunk(t);
    assert(i % 32 == t.0 as int % 32 && i / 32 == t.1 as int % 32);
    growing_keeps_what_was_foreseen(land, c, noise_in(f, c), t, noise_at(f, t));
}

/// No unit can stand where something is built, whatever it is and whoever owns it.
pub proof fn buildings_are_in_the_way(land: LandView, i: int)
    requires
        0 <= i < land.buildings.len(),
    ensures
        !land.walkable((land.buildings[i].tile_x, land.buildings[i].tile_y)),
        built_on(land.buildings, (land.buildings[i].tile_x, land.buildings[i].tile_y)),
{
}

/// Where nothing is built, the grass of the known chunks can be walked on, and nothing else can.
pub proof fn open_grass_can_be_walked_on(land: LandView, t: Tile, n: Double)
    requires
        forall|i: int|
            0 <= i < land.buildings.len() ==> (#[trigger] land.buildings[i]).tile_x != t.0
                || land.buildings[i].tile_y != t.1,
    ensures
        land.walkable(t) <==> land.chunks.contains_key(chunk_of(t)) && land.tile_type(t, n)
            == TileType::Grass,
{
}

/// What is built does not matter to those who walk, only where it is: two lands with the same
/// chunks and with buildings on the same tiles are walked on alike.
pub proof fn all_buildings_are_alike_to_walkers(a: LandView, b: LandView, t: Tile)
    requires
        a.chunks == b.chunks,
        a.buildings.len() == b.buildings.len(),
        forall|i: int|
            0 <= i < a.buildings.len() ==> (#[trigger] a.buildings[i]).tile_x
                == b.buildings[i].tile_x && a.buildings[i].tile_y == b.buildings[i].tile_y,
    ensures
        a.walkable(t) == b.walkable(t),
{
    assert forall|i: int| 0 <= i < a.buildings.len() implies (#[trigger] b.buildings[i]).tile_x
        == a.buildings[i].tile_x && b.buildings[i].tile_y == a.buildings[i].tile_y by {
        assert(a.buildings[i].tile_x == b.buildings[i].tile_x);
    }
    if built_on(a.buildings, t) {
        let i = choose|i: int|
            0 <= i < a.buildings.len() && (#[trigger] a.buildings[i]).tile_x == t.0
                && a.buildings[i].tile_y == t.1;
        assert(b.buildings[i].tile_x == t.0);
    }
    if built_on(b.buildings, t) {
        let i = choose|i: int|
            0 <= i < b.buildings.len() && (#[trigger] b.buildings[i]).tile_x == t.0
                && b.buildings[i].tile_y == t.1;
        assert(a.buildings[i].tile_x == t.0);
    }
}

/// A tile of a known chunk is what the chunk has in the row and the column of the tile.
pub proof fn known_tiles_are_what_their_chunks_say(land: LandView, t: Tile, n: Double)
    requires
        land.chunks.contains_key(chunk_of(t)),
    ensures
        land.tile_type(t, n) == land.chunks[chunk_of(t)][(t.1 as int % 32) * 32 + t.0 as int % 32],
{
}

/// The rank of what grows by the noise that it takes.
pub open spec fn rank(t: TileType) -> int {
    match t {
        TileType::Water => 0,
        TileType::Forest => 1,
        TileType::Mountain => 2,
        TileType::Gold => 3,
        TileType::Grass => 4,
    }
}

/// Outside the clearing only the noise decides what grows, and more noise never leads to what
/// takes less of it. In the clearing the noise decides nothing.
pub proof fn the_noise_alone_decides(a: Tile, b: Tile, m: Double, n: Double)
    requires
        m == n || m.below(n),
    ensures
        !(13 <= a.0 <= 19 && 13 <= a.1 <= 19) && !(13 <= b.0 <= 19 && 13 <= b.1 <= 19) ==> rank(
            grown(a.0 as int, a.1 as int, m),
        ) <= rank(grown(b.0 as int, b.1 as int, n)),
        13 <= a.0 <= 19 && 13 <= a.1 <= 19 ==> grown(a.0 as int, a.1 as int, m) == grown(
            a.0 as int,
            a.1 as int,
            n,
        ),
{
}

/// To grow a chunk makes it known, leaves the other chunks and all buildings as they are, and
/// makes no other chunk known.
pub proof fn only_that_chunk_grows(land: LandView, c: Tile, noise: Seq<Double>, d: Tile)
    ensures
        land.with_chunk(c, noise).chunks.contains_key(d) <==> d == c || land.chunks.contains_key(d),
        land.chunks.contains_key(d) ==> land.with_chunk(c, noise).chunks[d] == land.chunks[d],
        land.with_chunk(c, noise).buildings == land.buildings,
{
}

} // verus!
