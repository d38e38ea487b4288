//! How time passes for a client: land is revealed, the zoom settles and units walk.
use crate::game;
use crate::game::{GameState, GameView, Order, Unit, UnitView};
use crate::single::Single;
use crate::space;
use crate::space::{chunk_containing, length, tile_coordinate, Point};
use crate::terrain::{Double, Land, LandView};
use crate::tile_map::Tile;
use crate::exact;
use vstd::prelude::*;

verus! {

/// The patterns of 0.001, 10, 100, 0.0001, 0.06, 3 and 5.
pub const CLOSE_ENOUGH: u32 = 0x3a83_126f;

pub const TEN: u32 = 0x4120_0000;

pub const HUNDRED: u32 = 0x42c8_0000;

pub const TOO_CLOSE: u32 = 0x38d1_b717;

pub const SEPARATION: u32 = 0x3d75_c28f;

pub const THREE: u32 = 0x4040_0000;

pub const FIVE: u32 = 0x40a0_0000;

/// The pattern of 100: how many milliseconds lie between two reports of where units are.
pub const SYNC_AFTER: u64 = 0x4059_0000_0000_0000;

/// The coordinate that lies `d` further, or the last one on the way.
pub open spec fn beside(c: i32, d: int) -> i32 {
    if c + d > i32::MAX {
        i32::MAX
    } else if c + d < i32::MIN {
        i32::MIN
    } else {
        (c + d) as i32
    }
}

/// The chunk with the given number, row by row, among those around a chunk and itself.
pub open spec fn neighbour(c: Tile, k: int) -> Tile {
    (beside(c.0, k % 3 - 1), beside(c.1, k / 3 - 1))
}

/// Those of the first `k` chunks around a chunk that are not known.
pub open spec fn unknown_around(land: LandView, c: Tile, k: int) -> Seq<Tile>
    decreases k,
{
    if k <= 0 {
        Seq::empty()
    } else if land.chunks.contains_key(neighbour(c, k - 1)) {
        unknown_around(land, c, k - 1)
    } else {
        unknown_around(land, c, k - 1).push(neighbour(c, k - 1))
    }
}

/// The chunk to which a unit is on its way, if it is not known.
pub open spec fn unknown_ahead(land: LandView, u: UnitView) -> Seq<Tile> {
    if u.path.len() > 0 && !land.chunks.contains_key(space::chunk_around(u.path.last())) {
        seq![space::chunk_around(u.path.last())]
    } else {
        Seq::empty()
    }
}

impl GameView {
    /// The chunks that the first `n` units reveal: of those of the player, what lies around each
    /// unit and where it is going.
    pub open spec fn revealed(self, n: int) -> Seq<Tile>
        decreases n,
    {
        if n <= 0 {
            Seq::empty()
        } else if self.mine(self.units[n - 1]) {
            let u = self.units[n - 1];
            self.revealed(n - 1) + unknown_around(self.land, space::chunk_around((u.x, u.y)), 9)
                + unknown_ahead(self.land, u)
        } else {
            self.revealed(n - 1)
        }
    }

    /// The chunks that are to be grown before the units move on.
    pub open spec fn to_grow(self) -> Seq<Tile> {
        self.revealed(self.units.len() as int)
    }
}

/// The land after the first `n` of the listed chunks were grown.
pub open spec fn grown_over(land: LandView, list: Seq<Tile>, noise: Seq<Seq<Double>>, n: int) -> LandView
    decreases n,
{
    if n <= 0 {
        land
    } else {
        grown_over(land, list, noise, n - 1).with_chunk(list[n - 1], noise[n - 1])
    }
}

/// The noise of each of several chunks.
pub open spec fn noises(noise: Seq<Vec<Double>>) -> Seq<Seq<Double>> {
    noise.map_values(|v: Vec<Double>| v@)
}

/// Whether each of so many chunks has a noise for all its tiles.
pub open spec fn enough_noise(noise: Seq<Seq<Double>>, n: nat) -> bool {
    &&& noise.len() == n
    &&& forall|i: int| 0 <= i < n ==> game::full(#[trigger] noise[i])
}

/// The zoom after some time: nearer to what it should be, or there.
pub open spec fn settled_zoom(zoom: Single, target: Single, dt: Single) -> Single {
    let d = target.difference(zoom);
    if (Single { bits: CLOSE_ENOUGH }).below(d.absolute()) {
        zoom.sum(d.product(Single { bits: TEN }).product(dt))
    } else {
        target
    }
}

/// A shift along both axes.
pub type Shift = (Single, Single);

/// No shift.
pub open spec fn still() -> Shift {
    (Single { bits: 0 }, Single { bits: 0 })
}

/// How far the unit is from the next waypoint, along both axes.
pub open spec fn ahead(u: UnitView) -> Shift {
    (u.path.last().0.difference(u.x), u.path.last().1.difference(u.y))
}

/// Whether the unit has reached its next waypoint.
pub open spec fn arrived(u: UnitView) -> bool {
    u.path.len() > 0 && space::length_of(ahead(u).0, ahead(u).1).below(Single { bits: game::ONE })
}

/// The shift by which the unit walks towards its next waypoint.
pub open spec fn walked(u: UnitView, speed: Single) -> Shift {
    if u.path.len() == 0 || arrived(u) {
        still()
    } else {
        let (tx, ty) = ahead(u);
        let d = space::length_of(tx, ty);
        (
            still().0.sum(tx.quotient(d).product(speed)),
            still().1.sum(ty.quotient(d).product(speed)),
        )
    }
}

/// The square of how far the first point is from the second.
pub open spec fn square_of(dx: Single, dy: Single) -> Single {
    dx.product(dx).sum(dy.product(dy))
}

/// The shift `s` after one unit has kept off another: those that are close, but not in the same
/// place, push each other away.
pub open spec fn kept_off(s: Shift, a: Point, b: Point) -> Shift {
    let ox = a.0.difference(b.0);
    let oy = a.1.difference(b.1);
    let q = square_of(ox, oy);
    if q.below(Single { bits: HUNDRED }) && (Single { bits: TOO_CLOSE }).below(q) {
        let push = Single { bits: SEPARATION };
        (
            s.0.sum(ox.quotient(q.root()).product(push)),
            s.1.sum(oy.quotient(q.root()).product(push)),
        )
    } else {
        s
    }
}

/// The shift `s` after the unit with number `i` has kept off the first `n` others.
pub open spec fn crowded(units: Seq<UnitView>, i: int, s: Shift, n: int) -> Shift
    decreases n,
{
    if n <= 0 {
        s
    } else {
        let t = crowded(units, i, s, n - 1);
        if n - 1 == i {
            t
        } else {
            kept_off(t, (units[i].x, units[i].y), (units[n - 1].x, units[n - 1].y))
        }
    }
}

/// Whether the land lets a unit stand at a point: the tile below its feet is walkable.
pub open spec fn footing(land: LandView, x: Single, y: Single) -> bool {
    land.walkable(
        (
            space::tile_at(x.sum(Single { bits: THREE })),
            space::tile_at(y.sum(Single { bits: FIVE })),
        ),
    )
}

/// Where a unit gets by a shift: all the way if it can stand there; otherwise as far as it can
/// slide, first along one axis, then along the other.
pub open spec fn shifted(land: LandView, p: Point, s: Shift) -> Point {
    let x = p.0.sum(s.0);
    let y = p.1.sum(s.1);
    if footing(land, x, y) {
        (x, y)
    } else {
        let fx = if footing(land, x, p.1) {
            x
        } else {
            p.0
        };
        let fy = if footing(land, fx, y) {
            y
        } else {
            p.1
        };
        (fx, fy)
    }
}

impl GameView {
    /// The shift by which the unit with number `i` would move.
    pub open spec fn drift(self, i: int, speed: Single) -> Shift {
        let s = walked(self.units[i], speed);
        if self.mine(self.units[i]) {
            crowded(self.units, i, s, self.units.len() as int)
        } else {
            s
        }
    }

    /// The unit with number `i` after it moved. Units of others go where they were sent, whatever
    /// is in the way.
    pub open spec fn stepped(self, i: int, speed: Single) -> UnitView {
        let u = self.units[i];
        let s = self.drift(i, speed);
        let p = if self.mine(u) {
            shifted(self.land, (u.x, u.y), s)
        } else {
            (u.x.sum(s.0), u.y.sum(s.1))
        };
        UnitView {
            x: p.0,
            y: p.1,
            path: if arrived(u) {
                u.path.drop_last()
            } else {
                u.path
            },
            ..u
        }
    }

    /// The game after some time: `speed` is how far a unit walks in it, `noise` what the revealed
    /// chunks grow from.
    pub open spec fn updated(self, speed: Single, dt: Single, noise: Seq<Seq<Double>>) -> GameView {
        let g = GameView {
            zoom: settled_zoom(self.zoom, self.target_zoom, dt),
            land: grown_over(self.land, self.to_grow(), noise, self.to_grow().len() as int),
            ..self
        };
        GameView { units: Seq::new(self.units.len(), |i: int| g.stepped(i, speed)), ..g }
    }
}

/// The player's own units keep to walkable ground: a unit that moves ends where it can stand, and
/// one that cannot move there stays where it is.
pub proof fn own_units_keep_their_footing(g: GameView, i: int, speed: Single)
    requires
        0 <= i < g.units.len(),
        g.mine(g.units[i]),
    ensures
        ({
            let u = g.units[i];
            let w = g.stepped(i, speed);
            footing(g.land, w.x, w.y) || (w.x == u.x && w.y == u.y)
        }),
{
}

fn beside_of(c: i32, d: i32) -> (r: i32)
    requires
        -1 <= d <= 1,
    ensures
        r == beside(c, d as int),
{
    let s: i64 = c as i64 + d as i64;
    if s > 0x7fff_ffff {
        i32::MAX
    } else if s < -0x8000_0000 {
        i32::MIN
    } else {
        s as i32
    }
}

fn keep_off(s: Shift, a: Point, b: Point) -> (t: Shift)
    ensures
        t == kept_off(s, a, b),
{
    let ox = a.0.minus(b.0);
    let oy = a.1.minus(b.1);
    let q = ox.times(ox).plus(oy.times(oy));
    if q.lt(Single { bits: HUNDRED }) && (Single { bits: TOO_CLOSE }).lt(q) {
        let d = q.sqrt();
        let push = Single { bits: SEPARATION };
        (s.0.plus(ox.over(d).times(push)), s.1.plus(oy.over(d).times(push)))
    } else {
        s
    }
}

fn has_footing(land: &Land, x: Single, y: Single) -> (r: bool)
    requires
        land@.wf(),
    ensures
        r == footing(land@, x, y),
{
    land.is_tile_walkable(
        tile_coordinate(x.plus(Single { bits: THREE })),
        tile_coordinate(y.plus(Single { bits: FIVE })),
    )
}

fn shift_from(land: &Land, p: Point, s: Shift) -> (r: Point)
    requires
        land@.wf(),
    ensures
        r == shifted(land@, p, s),
{
    let x = p.0.plus(s.0);
    let y = p.1.plus(s.1);
    if has_footing(land, x, y) {
        (x, y)
    } else {
        let fx = if has_footing(land, x, p.1) {
            x
        } else {
            p.0
        };
        let fy = if has_footing(land, fx, y) {
            y
        } else {
            p.1
        };
        (fx, fy)
    }
}

/// The shift by which the unit walks towards its next waypoint, and whether it has reached it.
fn walk(u: &Unit, speed: Single) -> (r: (Shift, bool))
    ensures
        r.0 == walked(u@, speed),
        r.1 == arrived(u@),
{
    let zero = Single { bits: 0 };
    if u.path.len() == 0 {
        return ((zero, zero), false);
    }
    let t = u.path[u.path.len() - 1];
    let tx = t.0.minus(u.x);
    let ty = t.1.minus(u.y);
    let d = length(tx, ty);
    if d.lt(Single { bits: game::ONE }) {
        ((zero, zero), true)
    } else {
        ((zero.plus(tx.over(d).times(speed)), zero.plus(ty.over(d).times(speed))), false)
    }
}

/// Growing chunks keeps the land whole.
proof fn lemma_grown_over_wf(land: LandView, list: Seq<Tile>, noise: Seq<Seq<Double>>, n: int)
    requires
        land.wf(),
        enough_noise(noise, list.len()),
        0 <= n <= list.len(),
    ensures
        grown_over(land, list, noise, n).wf(),
        grown_over(land, list, noise, n).buildings == land.buildings,
    decreases n,
{
    if n > 0 {
        lemma_grown_over_wf(land, list, noise, n - 1);
    }
}

impl GameState {
    /// The chunks that are to be grown before the units move on.
    pub fn missing_chunks(&self) -> (r: Vec<Tile>)
        ensures
            r@ == self@.to_grow(),
    {
        let mut out: Vec<Tile> = Vec::new();
        let mut i: usize = 0;
        while i < self.units.len()
            invariant
                i <= self.units@.len(),
                out@ == self@.revealed(i as int),
            decreases self.units@.len() - i,
        {
            let u = &self.units[i];
            assert(self@.units[i as int] == u@);
            if self.is_mine(u.owner_id) {
                let c = chunk_containing((u.x, u.y));
                let ghost before = out@;
                let mut k: i32 = 0;
                while k < 9
                    invariant
                        0 <= k <= 9,
                        out@ == before + unknown_around(self@.land, c, k as int),
                    decreases 9 - k,
                {
                    let n = (beside_of(c.0, k % 3 - 1), beside_of(c.1, k / 3 - 1));
                    assert(n == neighbour(c, k as int));
                    if !self.land.chunks.contains_key(n) {
                        out.push(n);
                    }
                    k = k + 1;
                    assert(out@ =~= before + unknown_around(self@.land, c, k as int));
                }
                let n: usize = u.path.len();
                if n > 0 {
                    let t = chunk_containing(u.path[n - 1]);
                    if !self.land.chunks.contains_key(t) {
                        out.push(t);
                    }
                }
                assert(out@ =~= self@.revealed(i + 1));
            }
            i = i + 1;
        }
        out
    }

    /// Where the unit with number `i` gets, and whether it has reached its next waypoint.
    fn step(&self, i: usize, speed: Single) -> (r: (Point, bool))
        requires
            self@.wf(),
            i < self@.units.len(),
        ensures
            r.0 == (self@.stepped(i as int, speed).x, self@.stepped(i as int, speed).y),
            r.1 == arrived(self@.units[i as int]),
    {
        let u = &self.units[i];
        assert(self@.units[i as int] == u@);
        let (walked, pop) = walk(u, speed);
        let here = (u.x, u.y);
        if !self.is_mine(u.owner_id) {
            return ((u.x.plus(walked.0), u.y.plus(walked.1)), pop);
        }
        let mut s: Shift = walked;
        let mut j: usize = 0;
        while j < self.units.len()
            invariant
                i < self.units@.len(),
                j <= self.units@.len(),
                here == (self@.units[i as int].x, self@.units[i as int].y),
                s == crowded(self@.units, i as int, walked, j as int),
            decreases self.units@.len() - j,
        {
            assert(self@.units[j as int] == self.units@[j as int]@);
            if j != i {
                s = keep_off(s, here, (self.units[j].x, self.units[j].y));
            }
            j = j + 1;
        }
        (shift_from(&self.land, here, s), pop)
    }

    /// Lets time pass: the zoom settles, the revealed chunks grow, and every unit moves, all of
    /// them from where they stood before any moved.
    pub fn update(&mut self, speed: Single, dt: Single, noise: &Vec<Vec<Double>>)
        requires
            old(self)@.wf(),
            enough_noise(noises(noise@), old(self)@.to_grow().len()),
        ensures
            final(self)@ == old(self)@.updated(speed, dt, noises(noise@)),
            final(self)@.wf(),
    {
        let ghost v = self@;
        let ghost ns = noises(noise@);
        let d = self.target_zoom.minus(self.zoom);
        if (Single { bits: CLOSE_ENOUGH }).lt(d.abs()) {
            self.zoom = self.zoom.plus(d.times(Single { bits: TEN }).times(dt));
        } else {
            self.zoom = self.target_zoom;
        }
        let ghost z = self@;
        let list = self.missing_chunks();
        proof {
            lemma_same_revealed(v, z, v.units.len() as int);
        }
        let mut k: usize = 0;
        while k < list.len()
            invariant
                k <= list@.len(),
                list@ == v.to_grow(),
                ns == noises(noise@),
                v.wf(),
                enough_noise(ns, list@.len()),
                self@ == (GameView { land: grown_over(v.land, list@, ns, k as int), ..z }),
            decreases list@.len() - k,
        {
            proof {
                assert(ns[k as int] == noise@[k as int]@);
                assert(game::full(ns[k as int]));
            }
            let (cx, cy) = list[k];
            self.land.generate_chunk(cx, cy, &noise[k]);
            k = k + 1;
        }
        proof {
            lemma_grown_over_wf(v.land, list@, ns, list@.len() as int);
        }
        let ghost g = self@;
        let mut moves: Vec<(Point, bool)> = Vec::new();
        let mut i: usize = 0;
        while i < self.units.len()
            invariant
                self@ == g,
                g.wf(),
                i <= g.units.len(),
                g.units.len() == self.units@.len(),
                moves@.len() == i,
                forall|j: int|
                    0 <= j < i ==> (#[trigger] moves@[j]).0 == (
                        g.stepped(j, speed).x,
                        g.stepped(j, speed).y,
                    ) && moves@[j].1 == arrived(g.units[j]),
            decreases g.units.len() - i,
        {
            let m = self.step(i, speed);
            moves.push(m);
            i = i + 1;
        }
        let mut n: usize = 0;
        while n < self.units.len()
            invariant
                moves@.len() == g.units.len(),
                forall|j: int|
                    0 <= j < moves@.len() ==> (#[trigger] moves@[j]).0 == (
                        g.stepped(j, speed).x,
                        g.stepped(j, speed).y,
                    ) && moves@[j].1 == arrived(g.units[j]),
                n <= self.units@.len(),
                self@ == (GameView { units: self@.units, ..g }),
                self@.units.len() == g.units.len(),
                forall|j: int| 0 <= j < n ==> (#[trigger] self@.units[j]) == g.stepped(j, speed),
                forall|j: int|
                    n <= j < g.units.len() ==> (#[trigger] self@.units[j]) == g.units[j],
            decreases g.units.len() - n,
        {
            let ghost before = self@.units;
            let (p, pop) = moves[n];
            assert(self@.units[n as int] == self.units@[n as int]@);
            assert(before[n as int] == g.units[n as int]);
            self.units[n].x = p.0;
            self.units[n].y = p.1;
            if pop {
                self.units[n].path.pop();
            }
            proof {
                assert(self.units@[n as int]@ =~= g.stepped(n as int, speed));
                assert(self@.units =~= before.update(n as int, g.stepped(n as int, speed)));
            }
            n = n + 1;
        }
        assert(self@.units =~= v.updated(speed, dt, ns).units);
    }
}

/// What is revealed does not depend on the zoom.
proof fn lemma_same_revealed(a: GameView, b: GameView, n: int)
    requires
        a.units == b.units,
        a.land == b.land,
        a.my_id == b.my_id,
    ensures
        a.revealed(n) == b.revealed(n),
    decreases n,
{
    if n > 0 {
        lemma_same_revealed(a, b, n - 1);
    }
}

/// The number of units of the player among the first `n`.
pub open spec fn own_before(g: GameView, n: int) -> nat
    decreases n,
{
    if n <= 0 {
        0
    } else {
        own_before(g, n - 1) + (if g.mine(g.units[n - 1]) {
            1nat
        } else {
            0nat
        })
    }
}

impl GameView {
    /// The reports of where the player's units among the first `n` are.
    pub open spec fn whereabouts(self, n: int) -> Seq<Order>
        decreases n,
    {
        if n <= 0 {
            Seq::empty()
        } else if self.mine(self.units[n - 1]) {
            self.whereabouts(n - 1).push(
                Order::UnitSync {
                    player_id: self.units[n - 1].owner_id,
                    unit_idx: own_before(self, n - 1) as usize,
                    x: self.units[n - 1].x,
                    y: self.units[n - 1].y,
                },
            )
        } else {
            self.whereabouts(n - 1)
        }
    }
}

impl GameState {
    /// Reports where the player's units are, if the last report is old enough and the line is
    /// open: `since` is how long ago it was. While nobody is logged in on an open line, the last
    /// report keeps its time.
    pub fn sync(&mut self, now: Double, since: Double, open: bool) -> (r: Vec<Order>)
        ensures
            ({
                let v = old(self)@;
                let due = Double { bits: SYNC_AFTER }.below(since);
                &&& r@ == (if due && open {
                    v.whereabouts(v.units.len() as int)
                } else {
                    seq![]
                })
                &&& final(self)@ == (if due && !(open && v.my_id is None) {
                    GameView { last_sync_time: now, ..v }
                } else {
                    v
                })
            }),
            final(self)@.units == old(self)@.units,
            r@.len() > 0 ==> open && final(self)@.last_sync_time == now,
            !open ==> r@.len() == 0,
    {
        let mut out: Vec<Order> = Vec::new();
        if !(Double { bits: SYNC_AFTER }).lt(since) {
            return out;
        }
        if open {
            let ghost v = self@;
            if self.my_id.is_none() {
                proof {
                    lemma_nobody_reports(v, v.units.len() as int);
                }
                return out;
            }
            let mut own: usize = 0;
            let mut i: usize = 0;
            while i < self.units.len()
                invariant
                    self@ == v,
                    i <= self.units@.len(),
                    own <= i,
                    own == own_before(v, i as int),
                    out@ == v.whereabouts(i as int),
                decreases self.units@.len() - i,
            {
                let u = &self.units[i];
                assert(self@.units[i as int] == u@);
                if self.is_mine(u.owner_id) {
                    out.push(
                        Order::UnitSync {
                            player_id: u.owner_id,
                            unit_idx: own,
                            x: u.x,
                            y: u.y,
                        },
                    );
                    own = own + 1;
                }
                i = i + 1;
            }
        }
        self.last_sync_time = now;
        out
    }
}

proof fn lemma_nobody_reports(v: GameView, n: int)
    requires
        v.my_id is None,
    ensures
        v.whereabouts(n) == Seq::<Order>::empty(),
    decreases n,
{
    if n > 0 {
        lemma_nobody_reports(v, n - 1);
    }
}

/// The unit with number `i` after it moved, by its next waypoint: as long as it is at least one
/// pixel away, a unit of another player moves by the speed along the way to it and keeps its path;
/// once it is nearer, it stays and turns to the waypoint behind. Without a path it stays.
pub proof fn units_walk_to_their_waypoints(g: GameView, i: int, speed: Single)
    requires
        0 <= i < g.units.len(),
        g.my_id != Some(g.units[i].owner_id),
    ensures
        ({
            let u = g.units[i];
            let w = g.stepped(i, speed);
            let zero = Single { bits: 0 };
            let tx = u.path.last().0.difference(u.x);
            let ty = u.path.last().1.difference(u.y);
            let d = tx.product(tx).sum(ty.product(ty)).root();
            &&& u.path.len() > 0 && !d.below(Single::of_int(1)) ==> {
                &&& w.x == u.x.sum(zero.sum(tx.quotient(d).product(speed)))
                &&& w.y == u.y.sum(zero.sum(ty.quotient(d).product(speed)))
                &&& w.path == u.path
            }
            &&& u.path.len() > 0 && d.below(Single::of_int(1)) ==> {
                &&& w.x == u.x.sum(zero)
                &&& w.y == u.y.sum(zero)
                &&& w.path == u.path.drop_last()
            }
            &&& u.path.len() == 0 ==> w.x == u.x.sum(zero) && w.y == u.y.sum(zero) && w.path == u.path
        }),
{
    crate::economy::amounts_are_whole();
}

/// A unit of the player walks in the same way and is pushed by the others on top of it. As far as
/// these take it, it moves all the way if it can stand there, else along one axis, else not at all.
/// Its feet are three pixels to the right and five below. A unit with no other within ten pixels is
/// not pushed.
pub proof fn own_units_walk_and_slide(g: GameView, i: int, speed: Single)
    requires
        0 <= i < g.units.len(),
        g.my_id == Some(g.units[i].owner_id),
    ensures
        ({
            let u = g.units[i];
            let w = g.stepped(i, speed);
            let zero = Single { bits: 0 };
            let tx = u.path.last().0.difference(u.x);
            let ty = u.path.last().1.difference(u.y);
            let d = tx.product(tx).sum(ty.product(ty)).root();
            let walks = u.path.len() > 0 && !d.below(Single::of_int(1));
            let alone = if walks {
                (zero.sum(tx.quotient(d).product(speed)), zero.sum(ty.quotient(d).product(speed)))
            } else {
                (zero, zero)
            };
            let shift = crowded(g.units, i, alone, g.units.len() as int);
            let x = u.x.sum(shift.0);
            let y = u.y.sum(shift.1);
            let stand = |px: Single, py: Single|
                g.land.walkable(
                    space::tile_of((px.sum(Single::of_int(3)), py.sum(Single::of_int(5)))),
                );
            &&& w.path == (if u.path.len() > 0 && d.below(Single::of_int(1)) {
                u.path.drop_last()
            } else {
                u.path
            })
            &&& stand(x, y) ==> w.x == x && w.y == y
            &&& !stand(x, y) && stand(x, u.y) ==> w.x == x && w.y == u.y
            &&& !stand(x, y) && !stand(x, u.y) && stand(u.x, y) ==> w.x == u.x && w.y == y
            &&& !stand(x, y) && !stand(x, u.y) && !stand(u.x, y) ==> w.x == u.x && w.y == u.y
            &&& (forall|j: int|
                0 <= j < g.units.len() && j != i ==> !({
                    let ox = g.units[i].x.difference((#[trigger] g.units[j]).x);
                    let oy = g.units[i].y.difference(g.units[j].y);
                    ox.product(ox).sum(oy.product(oy)).below(Single::of_int(100))
                })) ==> shift == alone
        }),
{
    crate::economy::amounts_are_whole();
    vstd::arithmetic::power2::lemma2_to64();
    exact::lemma_small_pattern(3, 22, 127);
    exact::lemma_small_pattern(5, 21, 128);
    if forall|j: int|
        0 <= j < g.units.len() && j != i ==> !({
            let ox = g.units[i].x.difference((#[trigger] g.units[j]).x);
            let oy = g.units[i].y.difference(g.units[j].y);
            ox.product(ox).sum(oy.product(oy)).below(Single::of_int(100))
        }) {
        lemma_alone(g.units, i, walked(g.units[i], speed), g.units.len() as int);
    }
}

proof fn lemma_alone(units: Seq<UnitView>, i: int, s: Shift, n: int)
    requires
        0 <= i < units.len(),
        0 <= n <= units.len(),
        forall|j: int|
            0 <= j < units.len() && j != i ==> !({
                let ox = units[i].x.difference((#[trigger] units[j]).x);
                let oy = units[i].y.difference(units[j].y);
                ox.product(ox).sum(oy.product(oy)).below(Single::of_int(100))
            }),
    ensures
        crowded(units, i, s, n) == s,
    decreases n,
{
    crate::economy::amounts_are_whole();
    if n > 0 {
        lemma_alone(units, i, s, n - 1);
        if n - 1 != i {
            assert(units[n - 1].x == units[n - 1].x);
        }
    }
}

/// How a unit moves depends on the land, on where units are, on its own path and on whose it is,
/// and on nothing else: not on what is selected, on the kind or the color of any unit, nor on how
/// the player looks at the game. What a move does not concern stays as it was.
pub proof fn looks_do_not_move_units(g: GameView, h: GameView, i: int, speed: Single)
    requires
        0 <= i < g.units.len(),
        g.units.len() == h.units.len(),
        g.land == h.land,
        g.my_id == h.my_id,
        forall|j: int|
            0 <= j < g.units.len() ==> (#[trigger] g.units[j]).x == h.units[j].x && g.units[j].y
                == h.units[j].y,
        g.units[i].path == h.units[i].path,
        g.units[i].owner_id == h.units[i].owner_id,
    ensures
        ({
            let a = g.stepped(i, speed);
            let b = h.stepped(i, speed);
            &&& a.x == b.x && a.y == b.y && a.path == b.path
            &&& a.selected == g.units[i].selected && a.kind == g.units[i].kind && a.color
                == g.units[i].color && a.owner_id == g.units[i].owner_id
        }),
{
    assert(g.units[i].x == h.units[i].x);
    let s = walked(g.units[i], speed);
    lemma_same_crowd(g.units, h.units, i, s, g.units.len() as int);
}

proof fn lemma_same_crowd(a: Seq<UnitView>, b: Seq<UnitView>, i: int, s: Shift, n: int)
    requires
        0 <= i < a.len(),
        a.len() == b.len(),
        0 <= n <= a.len(),
        forall|j: int|
            0 <= j < a.len() ==> (#[trigger] a[j]).x == b[j].x && a[j].y == b[j].y,
    ensures
        crowded(a, i, s, n) == crowded(b, i, s, n),
    decreases n,
{
    if n > 0 {
        lemma_same_crowd(a, b, i, s, n - 1);
        assert(a[n - 1].x == b[n - 1].x && a[i].x == b[i].x);
    }
}

/// A unit is pushed straight away from another that is within ten pixels but not in the same place,
/// as strongly whatever it is and wherever it goes, and from no other.
pub proof fn those_who_are_close_push(s: Shift, a: Point, b: Point)
    ensures
        ({
            let ox = a.0.difference(b.0);
            let oy = a.1.difference(b.1);
            let q = ox.product(ox).sum(oy.product(oy));
            let close = q.below(Single::of_int(100)) && (Single { bits: TOO_CLOSE }).below(q);
            let push = Single { bits: SEPARATION };
            &&& close ==> kept_off(s, a, b) == (
                s.0.sum(ox.quotient(q.root()).product(push)),
                s.1.sum(oy.quotient(q.root()).product(push)),
            )
            &&& !close ==> kept_off(s, a, b) == s
        }),
{
    crate::economy::amounts_are_whole();
}

/// Every other unit, whoever owns it, pushes an own unit once, in the order of the list.
pub proof fn every_other_unit_pushes(units: Seq<UnitView>, i: int, s: Shift, n: int)
    requires
        0 < n <= units.len(),
        0 <= i < units.len(),
    ensures
        crowded(units, i, s, 0) == s,
        n - 1 != i ==> crowded(units, i, s, n) == kept_off(
            crowded(units, i, s, n - 1),
            (units[i].x, units[i].y),
            (units[n - 1].x, units[n - 1].y),
        ),
        n - 1 == i ==> crowded(units, i, s, n) == crowded(units, i, s, n - 1),
{
}

/// In a frame every unit moves, and all of them from where they stood before: the unit with number
/// `i` is afterwards what it becomes by itself. The number of units, what is built and all that the
/// player did stay as they are.
pub proof fn all_units_move_at_once(g: GameView, speed: Single, dt: Single, noise: Seq<Seq<Double>>, i: int)
    requires
        0 <= i < g.units.len(),
    ensures
        ({
            let h = g.updated(speed, dt, noise);
            let before = GameView { units: g.units, ..h };
            &&& h.units.len() == g.units.len()
            &&& h.units[i] == before.stepped(i, speed)
            &&& h == (GameView { units: h.units, land: h.land, zoom: h.zoom, ..g })
        }),
{
    let h = g.updated(speed, dt, noise);
    let z = GameView {
        zoom: settled_zoom(g.zoom, g.target_zoom, dt),
        land: grown_over(g.land, g.to_grow(), noise, g.to_grow().len() as int),
        ..g
    };
    assert((GameView { units: g.units, ..h }) == z);
}

/// The zoom goes a tenth of the way in a hundredth of a second: the way that is left times ten
/// times the time. Within a thousandth of where it should be, it is put there.
pub proof fn the_zoom_settles(g: GameView, speed: Single, dt: Single, noise: Seq<Seq<Double>>)
    ensures
        ({
            let left = g.target_zoom.difference(g.zoom);
            let z = g.updated(speed, dt, noise).zoom;
            &&& (Single { bits: CLOSE_ENOUGH }).below(left.absolute()) ==> z == g.zoom.sum(
                left.product(Single::of_int(10)).product(dt),
            )
            &&& !(Single { bits: CLOSE_ENOUGH }).below(left.absolute()) ==> z == g.target_zoom
        }),
{
    vstd::arithmetic::power2::lemma2_to64();
    exact::lemma_small_pattern(10, 20, 129);
}

/// After a frame the player knows the chunk in which each of their units stood, the eight chunks
/// around it, and the one where it goes next. What was known before is known and unchanged.
pub proof fn own_units_reveal_what_is_around(
    g: GameView,
    speed: Single,
    dt: Single,
    noise: Seq<Seq<Double>>,
    i: int,
    dx: int,
    dy: int,
    c: Tile,
)
    requires
        0 <= i < g.units.len(),
        g.my_id == Some(g.units[i].owner_id),
        -1 <= dx <= 1,
        -1 <= dy <= 1,
    ensures
        ({
            let u = g.units[i];
            let known = g.updated(speed, dt, noise).land.chunks;
            let here = space::chunk_around((u.x, u.y));
            &&& i32::MIN <= here.0 + dx <= i32::MAX && i32::MIN <= here.1 + dy <= i32::MAX
                ==> known.contains_key(((here.0 + dx) as i32, (here.1 + dy) as i32))
            &&& u.path.len() > 0 ==> known.contains_key(space::chunk_around(u.path.last()))
            &&& g.land.chunks.contains_key(c) ==> known.contains_key(c) && known[c]
                == g.land.chunks[c]
            &&& g.updated(speed, dt, noise).land.buildings == g.land.buildings
        }),
{
    let u = g.units[i];
    let here = space::chunk_around((u.x, u.y));
    let k = (dy + 1) * 3 + (dx + 1);
    let list = g.to_grow();
    let n = list.len() as int;
    let t = neighbour(here, k);
    lemma_grown_keeps(g.land, list, noise, n, c);
    if !g.land.chunks.contains_key(t) {
        lemma_around(g.land, here, 9, k);
        let near = unknown_around(g.land, here, 9);
        let j = choose|j: int| 0 <= j < near.len() && near[j] == t;
        lemma_revealed_parts(g, g.units.len() as int, i, j);
        lemma_grown_has(g.land, list, noise, n, t);
    } else {
        lemma_grown_keeps(g.land, list, noise, n, t);
    }
    if u.path.len() > 0 {
        let far = space::chunk_around(u.path.last());
        if !g.land.chunks.contains_key(far) {
            lemma_revealed_ahead(g, g.units.len() as int, i);
            lemma_grown_has(g.land, list, noise, n, far);
        } else {
            lemma_grown_keeps(g.land, list, noise, n, far);
        }
    }
}

proof fn lemma_around(land: LandView, c: Tile, n: int, k: int)
    requires
        0 <= k < n,
        !land.chunks.contains_key(neighbour(c, k)),
    ensures
        unknown_around(land, c, n).contains(neighbour(c, k)),
    decreases n,
{
    let before = unknown_around(land, c, n - 1);
    let all = unknown_around(land, c, n);
    if k == n - 1 {
        assert(all[before.len() as int] == neighbour(c, k));
    } else {
        lemma_around(land, c, n - 1, k);
        let j = choose|j: int| 0 <= j < before.len() && before[j] == neighbour(c, k);
        assert(all[j] == neighbour(c, k));
    }
}

proof fn lemma_revealed_parts(g: GameView, n: int, i: int, j: int)
    requires
        0 <= i < n <= g.units.len(),
        g.mine(g.units[i]),
        0 <= j < unknown_around(
            g.land,
            space::chunk_around((g.units[i].x, g.units[i].y)),
            9,
        ).len(),
    ensures
        g.revealed(n).contains(
            unknown_around(g.land, space::chunk_around((g.units[i].x, g.units[i].y)), 9)[j],
        ),
    decreases n,
{
    let t = unknown_around(g.land, space::chunk_around((g.units[i].x, g.units[i].y)), 9)[j];
    let before = g.revealed(n - 1);
    let all = g.revealed(n);
    if i == n - 1 {
        assert(all[before.len() + j] == t);
    } else {
        lemma_revealed_parts(g, n - 1, i, j);
        let k = choose|k: int| 0 <= k < before.len() && before[k] == t;
        assert(all[k] == t);
    }
}

proof fn lemma_revealed_ahead(g: GameView, n: int, i: int)
    requires
        0 <= i < n <= g.units.len(),
        g.mine(g.units[i]),
        g.units[i].path.len() > 0,
        !g.land.chunks.contains_key(space::chunk_around(g.units[i].path.last())),
    ensures
        g.revealed(n).contains(space::chunk_around(g.units[i].path.last())),
    decreases n,
{
    let t = space::chunk_around(g.units[i].path.last());
    let before = g.revealed(n - 1);
    let all = g.revealed(n);
    if i == n - 1 {
        assert(all[all.len() - 1] == t);
    } else {
        lemma_revealed_ahead(g, n - 1, i);
        let k = choose|k: int| 0 <= k < before.len() && before[k] == t;
        assert(all[k] == t);
    }
}

proof fn lemma_grown_keeps(land: LandView, list: Seq<Tile>, noise: Seq<Seq<Double>>, n: int, c: Tile)
    ensures
        land.chunks.contains_key(c) ==> grown_over(land, list, noise, n).chunks.contains_key(c)
            && grown_over(land, list, noise, n).chunks[c] == land.chunks[c],
        grown_over(land, list, noise, n).buildings == land.buildings,
    decreases n,
{
    if n > 0 {
        lemma_grown_keeps(land, list, noise, n - 1, c);
    }
}

proof fn lemma_grown_has(land: LandView, list: Seq<Tile>, noise: Seq<Seq<Double>>, n: int, c: Tile)
    requires
        0 <= n <= list.len(),
        list.take(n).contains(c) || (n == list.len() && list.contains(c)),
    ensures
        grown_over(land, list, noise, n).chunks.contains_key(c),
    decreases n,
{
    let front = list.take(n);
    if n == list.len() && list.contains(c) {
        assert(front =~= list);
    }
    let j = choose|j: int| 0 <= j < front.len() && front[j] == c;
    if j == n - 1 {
        assert(list[n - 1] == c);
    } else {
        assert(list.take(n - 1)[j] == c);
        assert(list.take(n - 1).contains(c));
        lemma_grown_has(land, list, noise, n - 1, c);
        lemma_grown_keeps(
            grown_over(land, list, noise, n - 1),
            seq![list[n - 1]],
            seq![noise[n - 1]],
            1,
            c,
        );
    }
}

/// No chunk becomes known in a frame but those that lie around an own unit or where one goes next.
pub proof fn nothing_else_is_revealed(
    g: GameView,
    speed: Single,
    dt: Single,
    noise: Seq<Seq<Double>>,
    c: Tile,
) -> (i: int)
    requires
        g.updated(speed, dt, noise).land.chunks.contains_key(c),
        !g.land.chunks.contains_key(c),
    ensures
        0 <= i < g.units.len(),
        g.my_id == Some(g.units[i].owner_id),
        ({
            let u = g.units[i];
            let here = space::chunk_around((u.x, u.y));
            ||| -1 <= c.0 - here.0 <= 1 && -1 <= c.1 - here.1 <= 1
            ||| u.path.len() > 0 && c == space::chunk_around(u.path.last())
        }),
{
    let list = g.to_grow();
    let j = lemma_grown_from(g.land, list, noise, list.len() as int, c);
    lemma_revealed_from(g, g.units.len() as int, j)
}

proof fn lemma_grown_from(land: LandView, list: Seq<Tile>, noise: Seq<Seq<Double>>, n: int, c: Tile) -> (
    j: int)
    requires
        0 <= n <= list.len(),
        grown_over(land, list, noise, n).chunks.contains_key(c),
        !land.chunks.contains_key(c),
    ensures
        0 <= j < n,
        list[j] == c,
    decreases n,
{
    if grown_over(land, list, noise, n - 1).chunks.contains_key(c) && n > 0 {
        lemma_grown_from(land, list, noise, n - 1, c)
    } else {
        n - 1
    }
}

proof fn lemma_revealed_from(g: GameView, n: int, j: int) -> (i: int)
    requires
        0 <= n <= g.units.len(),
        0 <= j < g.revealed(n).len(),
    ensures
        0 <= i < n,
        g.my_id == Some(g.units[i].owner_id),
        ({
            let u = g.units[i];
            let c = g.revealed(n)[j];
            let here = space::chunk_around((u.x, u.y));
            ||| -1 <= c.0 - here.0 <= 1 && -1 <= c.1 - here.1 <= 1
            ||| u.path.len() > 0 && c == space::chunk_around(u.path.last())
        }),
    decreases n,
{
    let before = g.revealed(n - 1);
    if j < before.len() {
        lemma_revealed_from(g, n - 1, j)
    } else {
        let u = g.units[n - 1];
        let here = space::chunk_around((u.x, u.y));
        let near = unknown_around(g.land, here, 9);
        if j < before.len() + near.len() {
            lemma_around_from(g.land, here, 9, j - before.len());
        }
        n - 1
    }
}

proof fn lemma_around_from(land: LandView, c: Tile, n: int, j: int)
    requires
        0 <= n <= 9,
        0 <= j < unknown_around(land, c, n).len(),
    ensures
        -1 <= unknown_around(land, c, n)[j].0 - c.0 <= 1,
        -1 <= unknown_around(land, c, n)[j].1 - c.1 <= 1,
    decreases n,
{
    if n > 0 && j < unknown_around(land, c, n - 1).len() {
        lemma_around_from(land, c, n - 1, j);
    }
}

/// Where each own unit is is reported once, under its number among the own units, and nothing else
/// is: one more unit in the list adds its report behind the others, if it is the player's own.
pub proof fn every_own_unit_is_reported(g: GameView, n: int)
    requires
        0 < n <= g.units.len(),
    ensures
        ({
            let u = g.units[n - 1];
            let before = g.whereabouts(n - 1);
            let after = g.whereabouts(n);
            let own = g.my_id == Some(u.owner_id);
            &&& g.whereabouts(0).len() == 0
            &&& own ==> after.len() == before.len() + 1 && after.drop_last() == before
                && after.last() == (Order::UnitSync {
                player_id: u.owner_id,
                unit_idx: before.len() as usize,
                x: u.x,
                y: u.y,
            })
            &&& !own ==> after == before
        }),
{
    lemma_reports_count(g, n - 1);
    let before = g.whereabouts(n - 1);
    if g.mine(g.units[n - 1]) {
        assert(g.whereabouts(n).drop_last() =~= before);
    }
}

proof fn lemma_reports_count(g: GameView, n: int)
    requires
        0 <= n <= g.units.len(),
    ensures
        g.whereabouts(n).len() == own_before(g, n),
    decreases n,
{
    if n > 0 {
        lemma_reports_count(g, n - 1);
    }
}

} // verus!
