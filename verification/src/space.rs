//! Points of the world, and the tiles and chunks in which they lie.
use crate::exact;
use crate::single::Single;
use crate::tile_map::Tile;
use vstd::prelude::*;

verus! {

/// A point of the world, in pixels at zoom one.
pub type Point = (Single, Single);

/// The patterns of 16, 8 and 512: the width of a tile, of half a tile, and of a chunk.
pub const TILE_WIDTH: u32 = 0x4180_0000;

pub const HALF_TILE: u32 = 0x4100_0000;

pub const CHUNK_WIDTH: u32 = 0x4400_0000;

/// Half the width of a chunk: 256.
pub const HALF_CHUNK: u32 = 0x4380_0000;

/// The coordinate of the tile in which a coordinate lies.
pub open spec fn tile_at(x: Single) -> i32 {
    x.quotient(Single { bits: TILE_WIDTH }).floor_int() as i32
}

/// The tile in which a point lies.
pub open spec fn tile_of(p: Point) -> Tile {
    (tile_at(p.0), tile_at(p.1))
}

/// The coordinate of the chunk in which a coordinate lies.
pub open spec fn chunk_at(x: Single) -> i32 {
    x.quotient(Single { bits: CHUNK_WIDTH }).floor_int() as i32
}

/// The chunk in which a point lies.
pub open spec fn chunk_around(p: Point) -> Tile {
    (chunk_at(p.0), chunk_at(p.1))
}

/// The left or upper edge of a tile.
pub open spec fn edge_at(t: i32) -> Single {
    Single::of_int(t as int).product(Single { bits: TILE_WIDTH })
}

/// The middle of a tile, along one axis.
pub open spec fn middle_at(t: i32) -> Single {
    edge_at(t).sum(Single { bits: HALF_TILE })
}

/// The middle of a tile.
pub open spec fn middle_of(t: Tile) -> Point {
    (middle_at(t.0), middle_at(t.1))
}

/// The middle of a chunk, along one axis.
pub open spec fn chunk_middle_at(c: i32) -> Single {
    Single::of_int(c as int).product(Single { bits: crate::terrain::THIRTY_TWO }).product(
        Single { bits: TILE_WIDTH },
    ).sum(Single { bits: HALF_CHUNK })
}

/// The distance that a shift along both axes covers.
pub open spec fn length_of(dx: Single, dy: Single) -> Single {
    dx.product(dx).sum(dy.product(dy)).root()
}

/// The tile coordinate of a position along one axis.
pub fn tile_coordinate(x: Single) -> (t: i32)
    ensures
        t == tile_at(x),
{
    x.over(Single { bits: TILE_WIDTH }).floor_i32()
}

/// The tile in which a point lies.
pub fn tile_containing(p: Point) -> (t: Tile)
    ensures
        t == tile_of(p),
{
    (tile_coordinate(p.0), tile_coordinate(p.1))
}

/// The chunk in which a point lies.
pub fn chunk_containing(p: Point) -> (c: Tile)
    ensures
        c == chunk_around(p),
{
    (
        p.0.over(Single { bits: CHUNK_WIDTH }).floor_i32(),
        p.1.over(Single { bits: CHUNK_WIDTH }).floor_i32(),
    )
}

/// Where a tile begins along one axis.
pub fn tile_edge(t: i32) -> (x: Single)
    ensures
        x == edge_at(t),
{
    Single::from_i32(t).times(Single { bits: TILE_WIDTH })
}

/// Where the middle of a tile lies along one axis.
pub fn tile_middle(t: i32) -> (x: Single)
    ensures
        x == middle_at(t),
{
    tile_edge(t).plus(Single { bits: HALF_TILE })
}

/// Where the middle of a chunk lies along one axis.
pub fn chunk_middle(c: i32) -> (x: Single)
    ensures
        x == chunk_middle_at(c),
{
    Single::from_i32(c).times(Single { bits: crate::terrain::THIRTY_TWO }).times(
        Single { bits: TILE_WIDTH },
    ).plus(Single { bits: HALF_CHUNK })
}

/// The distance that a shift along both axes covers.
pub fn length(dx: Single, dy: Single) -> (d: Single)
    ensures
        d == length_of(dx, dy),
{
    dx.times(dx).plus(dy.times(dy)).sqrt()
}

/// The pixel with the given coordinate lies in the tile that it should: every 16 of them make one.
pub proof fn tiles_have_16_pixels_a_side(x: int)
    requires
        exact::small(x),
    ensures
        tile_at(Single::of_int(x)) == x / 16,
{
    vstd::arithmetic::power2::lemma2_to64();
    exact::lemma_power(4);
    exact::small_quotients_are_exact(x, 4);
}

/// The left edge of a tile is where it should be.
pub proof fn edges_are_exact(t: i32)
    requires
        exact::small(t * 16),
    ensures
        edge_at(t) == Single::of_int(t * 16),
{
    vstd::arithmetic::power2::lemma2_to64();
    exact::lemma_power(4);
    exact::small_products_are_exact(t as int, 16);
}

/// The middle of a tile lies in it.
pub proof fn the_middle_of_a_tile_lies_in_it(t: Tile)
    requires
        -0x10_0000 < t.0 < 0x10_0000 - 1,
        -0x10_0000 < t.1 < 0x10_0000 - 1,
    ensures
        tile_of(middle_of(t)) == t,
{
    lemma_middle(t.0);
    lemma_middle(t.1);
}

proof fn lemma_middle(t: i32)
    requires
        -0x10_0000 < t < 0x10_0000 - 1,
    ensures
        tile_at(middle_at(t)) == t,
{
    edges_are_exact(t);
    vstd::arithmetic::power2::lemma2_to64();
    exact::lemma_power(3);
    exact::small_sums_are_exact(t * 16, 8);
    tiles_have_16_pixels_a_side(t * 16 + 8);
}

/// A distance is the same in every direction: across as along, and forth as back.
pub proof fn distances_have_no_direction(dx: Single, dy: Single)
    ensures
        length_of(dx, dy) == length_of(dy, dx),
        length_of(dx.opposite(), dy) == length_of(dx, dy),
        length_of(dx, dy.opposite()) == length_of(dx, dy),
{
    exact::sums_commute(dx.product(dx), dy.product(dy));
    lemma_square(dx);
    lemma_square(dy);
}

proof fn lemma_square(d: Single)
    ensures
        d.opposite().product(d.opposite()) == d.product(d),
{
    reveal(Single::product);
}

/// The middle of a chunk is 256 pixels from its edge, and chunks are 512 pixels wide.
pub proof fn chunks_have_512_pixels_a_side(c: i32)
    requires
        -0x4000 < c < 0x4000,
    ensures
        chunk_middle_at(c) == Single::of_int(c * 512 + 256),
        chunk_at(chunk_middle_at(c)) == c,
        chunk_at(Single::of_int(c * 512)) == c,
        chunk_at(Single::of_int(c * 512 + 511)) == c,
{
    vstd::arithmetic::power2::lemma2_to64();
    exact::lemma_power(4);
    exact::lemma_power(5);
    exact::lemma_power(8);
    exact::lemma_power(9);
    exact::small_products_are_exact(c as int, 32);
    exact::small_products_are_exact(c * 32, 16);
    exact::small_sums_are_exact(c * 512, 256);
    exact::small_quotients_are_exact(c * 512 + 256, 9);
    exact::small_quotients_are_exact(c * 512, 9);
    exact::small_quotients_are_exact(c * 512 + 511, 9);
}

} // verus!
