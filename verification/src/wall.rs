//! Marking out a wall: a line of tiles between two of them, as far as they can be built on.
use crate::game::{GameState, GameView, UnitView};
use crate::line;
use crate::line::Pen;
use crate::space;
use crate::space::tile_coordinate;
use crate::terrain;
use crate::terrain::{calculate_tile_type, local_coordinate, Double, TileType};
use crate::tile_map::Tile;
use vstd::prelude::*;

verus! {

/// Whether some unit stands on the tile.
pub open spec fn stood_on(units: Seq<UnitView>, t: Tile) -> bool {
    exists|i: int|
        0 <= i < units.len() && space::tile_of(
            ((#[trigger] units[i]).x, units[i].y),
        ) == t
}

/// The chunk in which a tile lies.
pub open spec fn chunk_holding(t: Tile) -> Tile {
    ((t.0 as int / 32) as i32, (t.1 as int / 32) as i32)
}

impl GameView {
    /// What the tile is made of, or would be: where its chunk is not known, it is made of what
    /// grows there.
    pub open spec fn ground(self, t: Tile, noise: Double) -> TileType {
        if self.land.chunks.contains_key(chunk_holding(t)) {
            self.land.chunks[chunk_holding(t)][terrain::index_in_chunk(t)]
        } else {
            terrain::grown(t.0 as int % 32, t.1 as int % 32, noise)
        }
    }

    /// Whether a wall can be built on the tile: it is grass, and nothing stands there.
    pub open spec fn buildable(self, t: Tile, noise: Double) -> bool {
        &&& !terrain::built_on(self.land.buildings, t)
        &&& !stood_on(self.units, t)
        &&& self.ground(t, noise) == TileType::Grass
    }

    /// The tiles of the line between the two ends of the wall; none while an end is missing.
    pub open spec fn wall_line(self) -> Seq<Tile> {
        match (self.wall_start, self.wall_end) {
            (Some(a), Some(b)) => Seq::new(
                (line::line_steps(whole(a), whole(b)) + 1) as nat,
                |k: int| tile_on(a, b, k),
            ),
            _ => Seq::empty(),
        }
    }

    /// Those of the first `n` tiles of a line that can be built on.
    pub open spec fn buildable_of(self, tiles: Seq<Tile>, noise: Seq<Double>, n: int) -> Seq<Tile>
        decreases n,
    {
        if n <= 0 {
            Seq::empty()
        } else if self.buildable(tiles[n - 1], noise[n - 1]) {
            self.buildable_of(tiles, noise, n - 1).push(tiles[n - 1])
        } else {
            self.buildable_of(tiles, noise, n - 1)
        }
    }
}

/// A tile as a pair of whole numbers.
pub open spec fn whole(t: Tile) -> (int, int) {
    (t.0 as int, t.1 as int)
}

/// The tile after `k` steps from one tile towards another.
pub open spec fn tile_on(a: Tile, b: Tile, k: int) -> Tile {
    let p = line::line_point(whole(a), whole(b), 0, k);
    (p.0 as i32, p.1 as i32)
}

fn chunk_holding_coordinate(g: i32) -> (c: i32)
    ensures
        c == g as int / 32,
{
    let s: i64 = (g as i64 + 0x8000_0000) / 32;
    (s - 0x400_0000) as i32
}

/// The tiles of the line between two tiles.
fn tiles_between(a: Tile, b: Tile) -> (r: Vec<Tile>)
    ensures
        r@ == Seq::new(
            (line::line_steps(whole(a), whole(b)) + 1) as nat,
            |k: int| tile_on(a, b, k),
        ),
{
    let mut out: Vec<Tile> = Vec::new();
    let mut pen = Pen::new(a, b, 0);
    loop
        invariant
            pen.wf(),
            pen.start() == whole(a),
            pen.end() == whole(b),
            pen.bias == 0,
            0 <= pen.steps <= line::line_steps(whole(a), whole(b)),
            pen.at() == line::line_point(whole(a), whole(b), 0, pen.steps as int),
            out@ == Seq::new(pen.steps as nat, |k: int| tile_on(a, b, k)),
        decreases line::line_steps(whole(a), whole(b)) - pen.steps,
    {
        proof {
            line::line_stays_between_its_ends(whole(a), whole(b), 0, pen.steps as int);
        }
        out.push((pen.x as i32, pen.y as i32));
        assert(out@ =~= Seq::new((pen.steps + 1) as nat, |k: int| tile_on(a, b, k)));
        if pen.done() {
            return out;
        }
        pen.advance();
    }
}

impl GameState {
    /// Whether a wall can be built on the tile.
    pub fn is_tile_buildable(&self, tx: i32, ty: i32, noise: Double) -> (r: bool)
        requires
            self@.wf(),
        ensures
            r == self@.buildable((tx, ty), noise),
    {
        if self.land.is_built_on((tx, ty)) {
            return false;
        }
        let mut i: usize = 0;
        while i < self.units.len()
            invariant
                i <= self.units@.len(),
                forall|j: int|
                    0 <= j < i ==> space::tile_of(
                        ((#[trigger] self@.units[j]).x, self@.units[j].y),
                    ) != (tx, ty),
            decreases self.units@.len() - i,
        {
            assert(self@.units[i as int] == self.units@[i as int]@);
            if tile_coordinate(self.units[i].x) == tx && tile_coordinate(self.units[i].y) == ty {
                return false;
            }
            i = i + 1;
        }
        let cx: i32 = chunk_holding_coordinate(tx);
        let cy: i32 = chunk_holding_coordinate(ty);
        let lx: i32 = local_coordinate(tx);
        let ly: i32 = local_coordinate(ty);
        match self.land.chunks.get((cx, cy)) {
            Some(chunk) => {
                assert(self@.land.chunks.contains_key((cx, cy)));
                matches!(chunk.tiles[(ly * 32 + lx) as usize], TileType::Grass)
            },
            None => matches!(calculate_tile_type(lx, ly, noise), TileType::Grass),
        }
    }

    /// The tiles of the line between the two ends of the wall.
    pub fn wall_line(&self) -> (r: Vec<Tile>)
        ensures
            r@ == self@.wall_line(),
    {
        match self.wall_start {
            Some(a) => match self.wall_end {
                Some(b) => tiles_between(a, b),
                None => Vec::new(),
            },
            None => Vec::new(),
        }
    }

    /// Marks out the tiles of the wall: those of the line between its ends that can be built on.
    pub fn generate_wall_preview(&mut self, noise: &Vec<Double>)
        requires
            old(self)@.wf(),
            noise@.len() == old(self)@.wall_line().len(),
        ensures
            final(self)@ == (GameView {
                wall_preview: old(self)@.buildable_of(
                    old(self)@.wall_line(),
                    noise@,
                    noise@.len() as int,
                ),
                ..old(self)@
            }),
            final(self)@.wf(),
            forall|i: int|
                0 <= i < final(self)@.wall_preview.len() ==> old(self)@.wall_line().contains(
                    #[trigger] final(self)@.wall_preview[i],
                ) && !terrain::built_on(
                    old(self)@.land.buildings,
                    final(self)@.wall_preview[i],
                ) && !stood_on(old(self)@.units, final(self)@.wall_preview[i]),
    {
        let tiles = self.wall_line();
        let mut out: Vec<Tile> = Vec::new();
        let mut i: usize = 0;
        while i < tiles.len()
            invariant
                self@ == old(self)@,
                self@.wf(),
                tiles@ == self@.wall_line(),
                noise@.len() == tiles@.len(),
                i <= tiles@.len(),
                out@ == self@.buildable_of(tiles@, noise@, i as int),
            decreases tiles@.len() - i,
        {
            let (tx, ty) = tiles[i];
            if self.is_tile_buildable(tx, ty, noise[i]) {
                out.push((tx, ty));
            }
            i = i + 1;
        }
        self.wall_preview = out;
        proof {
            let v = old(self)@;
            let n = noise@.len() as int;
            assert forall|i: int| 0 <= i < self@.wall_preview.len() implies v.wall_line().contains(
                #[trigger] self@.wall_preview[i],
            ) && !terrain::built_on(v.land.buildings, self@.wall_preview[i]) && !stood_on(
                v.units,
                self@.wall_preview[i],
            ) by {
                let k = walls_are_marked_where_they_can_be_built(v, v.wall_line(), noise@, n, i);
                assert(v.wall_line()[k] == self@.wall_preview[i]);
            }
        }
    }
}

/// A wall is only marked out on tiles of its line, and only where it can be built.
pub proof fn walls_are_marked_where_they_can_be_built(
    g: GameView,
    tiles: Seq<Tile>,
    noise: Seq<Double>,
    n: int,
    i: int,
) -> (k: int)
    requires
        0 <= n <= tiles.len(),
        0 <= i < g.buildable_of(tiles, noise, n).len(),
    ensures
        0 <= k < n,
        g.buildable_of(tiles, noise, n)[i] == tiles[k],
        g.buildable(tiles[k], noise[k]),
    decreases n,
{
    if g.buildable(tiles[n - 1], noise[n - 1]) && i == g.buildable_of(
        tiles,
        noise,
        n - 1,
    ).len() {
        n - 1
    } else {
        let k = walls_are_marked_where_they_can_be_built(g, tiles, noise, n - 1, i);
        k
    }
}

/// A wall can be built on grass where no building of any kind and no unit of anyone stands, and
/// nowhere else.
pub proof fn walls_need_free_grass(g: GameView, t: Tile, noise: Double, i: int, j: int)
    ensures
        0 <= i < g.land.buildings.len() && g.land.buildings[i].tile_x == t.0
            && g.land.buildings[i].tile_y == t.1 ==> !g.buildable(t, noise),
        0 <= j < g.units.len() && space::tile_of((g.units[j].x, g.units[j].y)) == t
            ==> !g.buildable(t, noise),
        (forall|k: int|
            0 <= k < g.land.buildings.len() ==> (#[trigger] g.land.buildings[k]).tile_x != t.0
                || g.land.buildings[k].tile_y != t.1) && (forall|k: int|
            0 <= k < g.units.len() ==> space::tile_of(
                ((#[trigger] g.units[k]).x, g.units[k].y),
            ) != t) ==> (g.buildable(t, noise) <==> g.ground(t, noise) == TileType::Grass),
{
}

/// The ground under a wall is the ground that everyone sees: where chunks are told apart exactly, it
/// is the type of the tile.
pub proof fn walls_see_the_same_ground(g: GameView, t: Tile, noise: Double)
    requires
        crate::exact::small(t.0 as int),
        crate::exact::small(t.1 as int),
    ensures
        g.ground(t, noise) == g.land.tile_type(t, noise),
{
    terrain::chunks_have_32_tiles_a_side(t.0);
    terrain::chunks_have_32_tiles_a_side(t.1);
}

/// The line of a wall leads from one of its ends to the other without a gap, and is no longer than
/// it has to be. While an end is missing there is none.
pub proof fn walls_join_their_ends(g: GameView, a: Tile, b: Tile, k: int)
    requires
        g.wall_start == Some(a),
        g.wall_end == Some(b),
    ensures
        ({
            let w = g.wall_line();
            let dx = if a.0 < b.0 {
                b.0 - a.0
            } else {
                a.0 - b.0
            };
            let dy = if a.1 < b.1 {
                b.1 - a.1
            } else {
                a.1 - b.1
            };
            &&& w.len() == (if dx < dy {
                dy
            } else {
                dx
            }) + 1
            &&& w[0] == a
            &&& w.last() == b
            &&& 0 <= k < w.len() - 1 ==> w[k] != w[k + 1] && -1 <= w[k + 1].0 - w[k].0 <= 1 && -1
                <= w[k + 1].1 - w[k].1 <= 1
            &&& (GameView { wall_end: None, ..g }).wall_line().len() == 0
        }),
{
    let w = g.wall_line();
    let n = line::line_steps(whole(a), whole(b));
    line::line_joins_its_ends(whole(a), whole(b), 0);
    line::line_stays_between_its_ends(whole(a), whole(b), 0, 0);
    line::line_stays_between_its_ends(whole(a), whole(b), 0, n);
    if 0 <= k < w.len() - 1 {
        line::line_stays_between_its_ends(whole(a), whole(b), 0, k);
        line::line_stays_between_its_ends(whole(a), whole(b), 0, k + 1);
        line::line_has_no_gaps(whole(a), whole(b), 0, k);
    }
}

/// Every tile of the line that can be built on is marked out, and no other, in the order of the
/// line.
pub proof fn all_of_the_wall_is_marked(g: GameView, tiles: Seq<Tile>, noise: Seq<Double>, n: int)
    requires
        0 < n <= tiles.len(),
    ensures
        ({
            let before = g.buildable_of(tiles, noise, n - 1);
            let after = g.buildable_of(tiles, noise, n);
            &&& g.buildable_of(tiles, noise, 0).len() == 0
            &&& g.buildable(tiles[n - 1], noise[n - 1]) ==> after.len() == before.len() + 1
                && after.last() == tiles[n - 1] && after.drop_last() == before
            &&& !g.buildable(tiles[n - 1], noise[n - 1]) ==> after == before
        }),
{
    let before = g.buildable_of(tiles, noise, n - 1);
    assert(before.push(tiles[n - 1]).drop_last() =~= before);
}

} // verus!
