//! What the server tells a client, and what the client makes of it.
use crate::game;
use crate::game::{new_unit, GameState, GameView, Unit, UnitView};
use crate::march;
use crate::path;
use crate::single::Single;
use crate::space;
use crate::space::{chunk_middle, length, Point};
use crate::terrain;
use crate::terrain::{Building, Double, LandView};
use crate::tile_map::Tile;
use crate::version;
use crate::version::is_outdated;
use crate::world;
use crate::world::PlayerInfo;
use vstd::prelude::*;

verus! {

/// The patterns of 50 and 0.2: how far a unit may be off before it is put right at once, and what
/// part of the way it is put right otherwise.
pub const FAR_OFF: u32 = 0x4248_0000;

pub const EASING: u32 = 0x3e4c_cccd;

/// A unit that the server tells of.
#[derive(Clone, Copy, Debug, PartialEq, Eq, Structural)]
pub struct Spotted {
    pub owner_id: i32,
    pub x: Single,
    pub y: Single,
}

/// The chunks of the players.
pub open spec fn homes(players: Seq<PlayerInfo>) -> Seq<Tile> {
    Seq::new(players.len(), |i: int| (players[i].chunk_x, players[i].chunk_y))
}

/// The town centers of the players.
pub open spec fn towns(players: Seq<PlayerInfo>) -> Seq<Building> {
    Seq::new(
        players.len(),
        |i: int| game::town_of(players[i].id, players[i].chunk_x, players[i].chunk_y),
    )
}

/// Whether there is room for the town center of each player.
pub open spec fn have_room(players: Seq<PlayerInfo>) -> bool {
    forall|i: int|
        0 <= i < players.len() ==> world::settled((#[trigger] players[i]).chunk_x as int)
            && world::settled(players[i].chunk_y as int)
}

/// The number of units of the owner among the first `n`.
pub open spec fn owned_before(units: Seq<UnitView>, owner: i32, n: int) -> nat
    decreases n,
{
    if n <= 0 {
        0
    } else {
        owned_before(units, owner, n - 1) + (if units[n - 1].owner_id == owner {
            1nat
        } else {
            0nat
        })
    }
}

/// Whether the unit with number `i` is the one that has number `k` among those of its owner.
pub open spec fn is_nth(units: Seq<UnitView>, owner: i32, k: usize, i: int) -> bool {
    0 <= i < units.len() && units[i].owner_id == owner && owned_before(units, owner, i) == k
}

/// Only one unit has a given number among those of its owner.
proof fn lemma_nth_unique(units: Seq<UnitView>, owner: i32, k: usize, i: int, j: int)
    requires
        is_nth(units, owner, k, i),
        is_nth(units, owner, k, j),
    ensures
        i == j,
{
    if i < j {
        lemma_owned_grows(units, owner, i + 1, j);
    } else if j < i {
        lemma_owned_grows(units, owner, j + 1, i);
    }
}

proof fn lemma_owned_grows(units: Seq<UnitView>, owner: i32, m: int, n: int)
    requires
        0 <= m <= n,
    ensures
        owned_before(units, owner, m) <= owned_before(units, owner, n),
    decreases n - m,
{
    if m < n {
        lemma_owned_grows(units, owner, m, n - 1);
    }
}

/// A coordinate that is put right by part of the way.
pub open spec fn eased(from: Single, to: Single) -> Single {
    from.sum(to.difference(from).product(Single { bits: EASING }))
}

/// A unit that is put right: at once if it is far off, otherwise by part of the way.
pub open spec fn put_right(u: UnitView, x: Single, y: Single) -> UnitView {
    let off = space::length_of(u.x.difference(x), u.y.difference(y));
    if (Single { bits: FAR_OFF }).below(off) {
        UnitView { x, y, ..u }
    } else {
        UnitView { x: eased(u.x, x), y: eased(u.y, y), ..u }
    }
}

/// A unit that is sent along a path. Without one it is put there at once.
pub open spec fn redirected(u: UnitView, p: Point, route: Seq<Point>) -> UnitView {
    if route.len() == 0 {
        UnitView { path: route, x: p.0, y: p.1, ..u }
    } else {
        UnitView { path: route, ..u }
    }
}

impl GameView {
    /// The game after the client was let in.
    pub open spec fn welcomed(
        self,
        player: i32,
        cx: i32,
        cy: i32,
        players: Seq<PlayerInfo>,
        units: Seq<Spotted>,
        buildings: Seq<Building>,
        noise: Seq<Seq<Double>>,
    ) -> GameView {
        GameView {
            my_id: Some(player),
            my_chunk_x: cx,
            my_chunk_y: cy,
            other_players: players,
            land: LandView {
                buildings: towns(players) + buildings,
                ..march::grown_over(self.land, homes(players), noise, players.len() as int)
            },
            camera_x: space::chunk_middle_at(cx),
            camera_y: space::chunk_middle_at(cy),
            units: Seq::new(
                units.len(),
                |i: int|
                    game::idle_unit(units[i].x, units[i].y, units[i].owner_id, Some(player)),
            ),
            ..self
        }
    }

    /// The game after a player came; the player's own coming changes nothing.
    pub open spec fn met(self, p: PlayerInfo, noise: Seq<Double>) -> GameView {
        if self.my_id == Some(p.id) {
            self
        } else {
            GameView {
                land: self.land.with_chunk((p.chunk_x, p.chunk_y), noise),
                other_players: self.other_players.push(p),
                ..self
            }.joined_by(p.id, p.chunk_x, p.chunk_y)
        }
    }

    /// Whether the unit is one that another player moved.
    pub open spec fn is_moved(self, owner: i32, k: usize, i: int) -> bool {
        self.my_id != Some(owner) && is_nth(self.units, owner, k, i)
    }

    /// The game with another unit in place of one.
    pub open spec fn with_unit(self, i: int, u: UnitView) -> GameView {
        GameView { units: self.units.update(i, u), ..self }
    }
}

/// Nobody moves units that are not theirs: what the server tells of another player's units leaves
/// the player's own where they are.
pub proof fn own_units_are_not_moved_by_others(g: GameView, owner: i32, k: usize, i: int, j: int, u: UnitView)
    requires
        g.is_moved(owner, k, i),
        0 <= j < g.units.len(),
        g.mine(g.units[j]),
    ensures
        g.with_unit(i, u).units[j] == g.units[j],
{
}

impl GameState {
    /// The unit that another player moved, if there is one.
    fn find_moved(&self, owner: i32, k: usize) -> (r: Option<usize>)
        ensures
            match r {
                Some(i) => self@.is_moved(owner, k, i as int),
                None => forall|i: int| !self@.is_moved(owner, k, i),
            },
    {
        if self.is_mine(owner) {
            return None;
        }
        let mut count: usize = 0;
        let mut i: usize = 0;
        while i < self.units.len()
            invariant
                self@.my_id != Some(owner),
                i <= self.units@.len(),
                count <= i,
                count == owned_before(self@.units, owner, i as int),
                forall|j: int| 0 <= j < i ==> !is_nth(self@.units, owner, k, j),
            decreases self.units@.len() - i,
        {
            assert(self@.units[i as int] == self.units@[i as int]@);
            if self.units[i].owner_id == owner {
                if count == k {
                    return Some(i);
                }
                count = count + 1;
            }
            i = i + 1;
        }
        None
    }

    /// Takes in what the server tells a client that it lets in. Each chunk in which a player
    /// settled grows from its noise.
    pub fn welcome(
        &mut self,
        player: i32,
        cx: i32,
        cy: i32,
        players: &Vec<PlayerInfo>,
        units: &Vec<Spotted>,
        buildings: &Vec<Building>,
        noise: &Vec<Vec<Double>>,
    )
        requires
            old(self)@.wf(),
            have_room(players@),
            march::enough_noise(march::noises(noise@), players@.len()),
        ensures
            final(self)@ == old(self)@.welcomed(
                player,
                cx,
                cy,
                players@,
                units@,
                buildings@,
                march::noises(noise@),
            ),
            final(self)@.wf(),
    {
        let ghost v = self@;
        let ghost ns = march::noises(noise@);
        let mut all: Vec<Building> = Vec::new();
        let mut others: Vec<PlayerInfo> = Vec::new();
        let mut i: usize = 0;
        while i < players.len()
            invariant
                v.wf(),
                ns == march::noises(noise@),
                march::enough_noise(ns, players@.len()),
                have_room(players@),
                i <= players@.len(),
                self@ == (GameView {
                    land: march::grown_over(v.land, homes(players@), ns, i as int),
                    ..v
                }),
                self@.wf(),
                all@ == towns(players@).take(i as int),
                others@ == players@.take(i as int),
            decreases players@.len() - i,
        {
            proof {
                assert(ns[i as int] == noise@[i as int]@);
                assert(game::full(ns[i as int]));
            }
            let p = players[i];
            self.land.generate_chunk(p.chunk_x, p.chunk_y, &noise[i]);
            all.push(
                Building {
                    tile_x: p.chunk_x * 32 + 16,
                    tile_y: p.chunk_y * 32 + 16,
                    kind: 0,
                    owner_id: p.id,
                },
            );
            others.push(p);
            i = i + 1;
            assert(all@ =~= towns(players@).take(i as int));
            assert(others@ =~= players@.take(i as int));
        }
        assert(all@ =~= towns(players@));
        assert(others@ =~= players@);
        let mut k: usize = 0;
        while k < buildings.len()
            invariant
                k <= buildings@.len(),
                all@ == towns(players@) + buildings@.take(k as int),
            decreases buildings@.len() - k,
        {
            all.push(buildings[k]);
            k = k + 1;
            assert(all@ =~= towns(players@) + buildings@.take(k as int));
        }
        assert(buildings@.take(k as int) =~= buildings@);
        let mut new_units: Vec<Unit> = Vec::new();
        let ghost shown = Seq::new(
            units@.len(),
            |i: int|
                game::idle_unit(units@[i].x, units@[i].y, units@[i].owner_id, Some(player)),
        );
        let mut n: usize = 0;
        while n < units.len()
            invariant
                n <= units@.len(),
                shown == Seq::new(
                    units@.len(),
                    |i: int|
                        game::idle_unit(units@[i].x, units@[i].y, units@[i].owner_id, Some(player)),
                ),
                game::units_of(new_units@) == shown.take(n as int),
            decreases units@.len() - n,
        {
            let u = units[n];
            let ghost before = new_units@;
            let one = new_unit(u.x, u.y, u.owner_id, Some(player));
            new_units.push(one);
            n = n + 1;
            assert(game::units_of(new_units@) =~= game::units_of(before).push(one@));
            assert(game::units_of(new_units@) =~= shown.take(n as int));
        }
        assert(shown.take(n as int) =~= shown);
        self.my_id = Some(player);
        self.my_chunk_x = cx;
        self.my_chunk_y = cy;
        self.other_players = others;
        self.land.buildings = all;
        self.camera_x = chunk_middle(cx);
        self.camera_y = chunk_middle(cy);
        self.units = new_units;
        assert(self@.land.chunks == march::grown_over(
            v.land,
            homes(players@),
            ns,
            players@.len() as int,
        ).chunks);
    }

    /// Takes in that a player came.
    pub fn new_player(&mut self, p: PlayerInfo, noise: &Vec<Double>)
        requires
            old(self)@.wf(),
            old(self)@.my_id != Some(p.id) ==> {
                &&& world::settled(p.chunk_x as int)
                &&& world::settled(p.chunk_y as int)
                &&& game::full(noise@)
            },
        ensures
            final(self)@ == old(self)@.met(p, noise@),
            final(self)@.wf(),
    {
        if self.is_mine(p.id) {
            return;
        }
        self.land.generate_chunk(p.chunk_x, p.chunk_y, noise);
        self.other_players.push(p);
        self.spawn_units_for_player(p.id, p.chunk_x, p.chunk_y);
    }

    /// Takes in that another player sent a unit off: it goes there on a shortest way, or at once
    /// if there is no way.
    pub fn unit_move(&mut self, owner: i32, k: usize, x: Single, y: Single)
        requires
            old(self)@.wf(),
        ensures
            forall|i: int| #[trigger]
                old(self)@.is_moved(owner, k, i) ==> exists|route: Seq<Point>|
                    #![trigger redirected(old(self)@.units[i], (x, y), route)]
                    {
                        let u = old(self)@.units[i];
                        &&& path::is_route(old(self)@.land, (u.x, u.y), (x, y), route)
                        &&& final(self)@ == old(self)@.with_unit(
                            i,
                            redirected(u, (x, y), route),
                        )
                    },
            (forall|i: int| !#[trigger] old(self)@.is_moved(owner, k, i)) ==> final(self)@ == old(
                self,
            )@,
            final(self)@.units.len() == old(self)@.units.len(),
            forall|j: int|
                0 <= j < old(self)@.units.len() && (#[trigger] old(self)@.units[j]).owner_id != owner
                    ==> final(self)@.units[j] == old(self)@.units[j],
            old(self)@.my_id == Some(owner) ==> final(self)@ == old(self)@,
            final(self)@.wf(),
    {
        let ghost v = self@;
        match self.find_moved(owner, k) {
            Some(i) => {
                assert(v.units[i as int] == self.units@[i as int]@);
                let start = (self.units[i].x, self.units[i].y);
                let route = self.land.find_path(start, (x, y));
                let ghost r = route@;
                if route.len() == 0 {
                    self.units[i].x = x;
                    self.units[i].y = y;
                }
                self.units[i].path = route;
                proof {
                    let u = redirected(v.units[i as int], (x, y), r);
                    assert(self.units@[i as int]@ =~= u);
                    assert(self@.units =~= v.units.update(i as int, u));
                    assert forall|j: int| #[trigger] v.is_moved(owner, k, j) implies j == i by {
                        lemma_nth_unique(v.units, owner, k, i as int, j);
                    }
                }
            },
            None => {},
        }
    }

    /// Takes in where a unit of another player is.
    pub fn unit_sync(&mut self, owner: i32, k: usize, x: Single, y: Single)
        ensures
            forall|i: int| #[trigger]
                old(self)@.is_moved(owner, k, i) ==> final(self)@ == old(self)@.with_unit(
                    i,
                    put_right(old(self)@.units[i], x, y),
                ),
            (forall|i: int| !#[trigger] old(self)@.is_moved(owner, k, i)) ==> final(self)@ == old(
                self,
            )@,
            final(self)@.units.len() == old(self)@.units.len(),
            forall|j: int|
                0 <= j < old(self)@.units.len() && (#[trigger] old(self)@.units[j]).owner_id != owner
                    ==> final(self)@.units[j] == old(self)@.units[j],
            old(self)@.my_id == Some(owner) ==> final(self)@ == old(self)@,
    {
        let ghost v = self@;
        match self.find_moved(owner, k) {
            Some(i) => {
                assert(v.units[i as int] == self.units@[i as int]@);
                let ux = self.units[i].x;
                let uy = self.units[i].y;
                if (Single { bits: FAR_OFF }).lt(length(ux.minus(x), uy.minus(y))) {
                    self.units[i].x = x;
                    self.units[i].y = y;
                } else {
                    let part = Single { bits: EASING };
                    self.units[i].x = ux.plus(x.minus(ux).times(part));
                    self.units[i].y = uy.plus(y.minus(uy).times(part));
                }
                proof {
                    let u = put_right(v.units[i as int], x, y);
                    assert(self.units@[i as int]@ =~= u);
                    assert(self@.units =~= v.units.update(i as int, u));
                    assert forall|j: int| #[trigger] v.is_moved(owner, k, j) implies j == i by {
                        lemma_nth_unique(v.units, owner, k, i as int, j);
                    }
                }
            },
            None => {},
        }
    }

    /// Takes in that a unit came.
    pub fn unit_spawned(&mut self, u: Spotted)
        ensures
            final(self)@ == (GameView {
                units: old(self)@.units.push(
                    game::idle_unit(u.x, u.y, u.owner_id, old(self)@.my_id),
                ),
                ..old(self)@
            }),
            final(self)@.units.len() == old(self)@.units.len() + 1,
            final(self)@.units.last().x == u.x,
            final(self)@.units.last().y == u.y,
            final(self)@.units.last().owner_id == u.owner_id,
            !final(self)@.units.last().selected,
            final(self)@.units.last().path.len() == 0,
    {
        let ghost v = self@;
        let one = new_unit(u.x, u.y, u.owner_id, self.my_id);
        self.units.push(one);
        assert(self@.units =~= v.units.push(one@));
    }

    /// Takes in that a building came.
    pub fn building_spawned(&mut self, b: Building)
        ensures
            final(self)@ == (GameView {
                land: LandView {
                    buildings: old(self)@.land.buildings.push(b),
                    ..old(self)@.land
                },
                ..old(self)@
            }),
            final(self)@.land.buildings.last() == b,
            final(self)@.land.buildings.len() == old(self)@.land.buildings.len() + 1,
            forall|t: Tile| #[trigger]
                final(self)@.land.walkable(t) ==> old(self)@.land.walkable(t) && t != (
                    b.tile_x,
                    b.tile_y,
                ),
    {
        let ghost v = self@;
        self.land.buildings.push(b);
        assert(self@.land =~= LandView { buildings: v.land.buildings.push(b), ..v.land });
        proof {
            let now = self@.land;
            let n = v.land.buildings.len() as int;
            assert forall|t: Tile| #[trigger] now.walkable(t) implies v.land.walkable(t) && t != (
                b.tile_x,
                b.tile_y,
            ) by {
                terrain::buildings_are_in_the_way(now, n);
                assert(now.buildings[n] == b);
                if terrain::built_on(v.land.buildings, t) {
                    let i = choose|i: int|
                        0 <= i < n && (#[trigger] v.land.buildings[i]).tile_x == t.0
                            && v.land.buildings[i].tile_y == t.1;
                    assert(now.buildings[i] == v.land.buildings[i]);
                    terrain::buildings_are_in_the_way(now, i);
                }
            }
        }
    }

    /// Takes in an error: if the client is too old, its player no longer takes part.
    pub fn server_error(&mut self, message: &str) -> (outdated: bool)
        ensures
            outdated == version::tells_outdated(message@),
            final(self)@ == (if outdated {
                GameView { my_id: None, ..old(self)@ }
            } else {
                old(self)@
            }),
    {
        let outdated: bool = is_outdated(message);
        if outdated {
            self.my_id = None;
        }
        outdated
    }
}

/// A client that is let in is the player whom the server names, looks at the chunk of that player,
/// and shows every unit that it was told of where it is, idle and not selected, its own ones blue
/// and all others red. It knows the buildings that it was told of and a town center for each player,
/// and the chunk of each player.
pub proof fn the_welcome_is_believed(
    g: GameView,
    player: i32,
    cx: i32,
    cy: i32,
    players: Seq<PlayerInfo>,
    units: Seq<Spotted>,
    buildings: Seq<Building>,
    noise: Seq<Seq<Double>>,
    i: int,
    j: int,
    k: int,
)
    requires
        have_room(players),
    ensures
        ({
            let h = g.welcomed(player, cx, cy, players, units, buildings, noise);
            let seen = h.land.buildings;
            &&& h.my_id == Some(player)
            &&& h.my_chunk_x == cx && h.my_chunk_y == cy
            &&& h.camera_x == space::chunk_middle_at(cx) && h.camera_y == space::chunk_middle_at(cy)
            &&& h.units.len() == units.len()
            &&& 0 <= i < units.len() ==> {
                let u = h.units[i];
                &&& u.x == units[i].x && u.y == units[i].y && u.owner_id == units[i].owner_id
                &&& u.path.len() == 0 && !u.selected
                &&& u.color == (if units[i].owner_id == player {
                    (0u8, 0u8, 255u8)
                } else {
                    (255u8, 0u8, 0u8)
                })
            }
            &&& seen.len() == players.len() + buildings.len()
            &&& 0 <= j < players.len() ==> {
                &&& seen[j].owner_id == players[j].id && seen[j].kind == 0
                &&& seen[j].tile_x == players[j].chunk_x * 32 + 16
                &&& seen[j].tile_y == players[j].chunk_y * 32 + 16
                &&& h.land.chunks.contains_key((players[j].chunk_x, players[j].chunk_y))
            }
            &&& 0 <= k < buildings.len() ==> seen[players.len() + k] == buildings[k]
            &&& h.other_players == players
            &&& h == (GameView {
                my_id: h.my_id,
                my_chunk_x: cx,
                my_chunk_y: cy,
                camera_x: h.camera_x,
                camera_y: h.camera_y,
                units: h.units,
                land: h.land,
                other_players: players,
                ..g
            })
        }),
{
    if 0 <= j < players.len() {
        assert(world::settled(players[j].chunk_x as int));
        lemma_homes_known(g.land, homes(players), noise, players.len() as int, j);
    }
}

proof fn lemma_homes_known(land: LandView, list: Seq<Tile>, noise: Seq<Seq<Double>>, n: int, j: int)
    requires
        0 <= j < n <= list.len(),
    ensures
        march::grown_over(land, list, noise, n).chunks.contains_key(list[j]),
    decreases n,
{
    if j < n - 1 {
        lemma_homes_known(land, list, noise, n - 1, j);
    }
}

/// A player who comes brings two idle units of their own and a town center, and their chunk is then
/// known. All who were there before stay as they were. One's own coming changes nothing.
pub proof fn newcomers_bring_two_units(g: GameView, p: PlayerInfo, noise: Seq<Double>, i: int)
    requires
        world::settled(p.chunk_x as int),
        world::settled(p.chunk_y as int),
    ensures
        ({
            let h = g.met(p, noise);
            let n = g.units.len() as int;
            let b = h.land.buildings.last();
            &&& g.my_id == Some(p.id) ==> h == g
            &&& g.my_id != Some(p.id) ==> {
                &&& h.units.len() == n + 2
                &&& 0 <= i < n ==> h.units[i] == g.units[i]
                &&& n <= i < n + 2 ==> h.units[i].owner_id == p.id && !h.units[i].selected
                    && h.units[i].path.len() == 0 && h.units[i].color == (255u8, 0u8, 0u8)
                &&& h.land.buildings.len() == g.land.buildings.len() + 1
                &&& h.land.buildings.drop_last() == g.land.buildings
                &&& b.owner_id == p.id && b.kind == 0 && b.tile_x == p.chunk_x * 32 + 16 && b.tile_y
                    == p.chunk_y * 32 + 16
                &&& h.land.chunks.contains_key((p.chunk_x, p.chunk_y))
                &&& h.other_players.len() == g.other_players.len() + 1 && h.other_players.last()
                    == p
                &&& h == (GameView {
                    units: h.units,
                    land: h.land,
                    other_players: h.other_players,
                    ..g
                })
                &&& h.other_players.drop_last() == g.other_players
            }
        }),
{
    assert(g.my_id != Some(p.id) ==> g.met(p, noise).land.buildings.drop_last()
        =~= g.land.buildings);
    assert(g.other_players.push(p).drop_last() =~= g.other_players);
}

/// The unit that another player means is the one that has as many of their units before it in the
/// list. One more unit of theirs in front is one more to be counted; units of others do not count.
pub proof fn units_are_counted_by_owner(units: Seq<UnitView>, owner: i32, n: int)
    requires
        0 < n <= units.len(),
    ensures
        owned_before(units, owner, 0) == 0,
        owned_before(units, owner, n) == owned_before(units, owner, n - 1) + (if units[n
            - 1].owner_id == owner {
            1nat
        } else {
            0nat
        }),
{
}

/// Only units of others can be moved from afar, and only the one that is meant.
pub proof fn only_the_unit_that_is_meant(g: GameView, owner: i32, k: usize, i: int)
    ensures
        g.is_moved(owner, k, i) <==> 0 <= i < g.units.len() && g.my_id != Some(owner)
            && g.units[i].owner_id == owner && owned_before(g.units, owner, i) == k,
{
}

/// A unit that is more than fifty pixels from where it should be is put there; any other goes a
/// fifth of the way, the same along both axes. Nothing else changes about it.
pub proof fn units_are_put_right(u: UnitView, x: Single, y: Single)
    ensures
        ({
            let w = put_right(u, x, y);
            let far = Single::of_int(50).below(
                space::length_of(u.x.difference(x), u.y.difference(y)),
            );
            let fifth = Single { bits: EASING };
            &&& far ==> w.x == x && w.y == y
            &&& !far ==> w.x == u.x.sum(x.difference(u.x).product(fifth)) && w.y == u.y.sum(
                y.difference(u.y).product(fifth),
            )
            &&& w.path == u.path && w.selected == u.selected && w.kind == u.kind && w.color
                == u.color && w.owner_id == u.owner_id
        }),
{
    crate::economy::amounts_are_whole();
}

/// A unit that is sent off from afar takes the route and stays where it is; without a route it is
/// put at the end at once and stands still. Nothing else changes about it.
pub proof fn units_take_the_route(u: UnitView, p: Point, route: Seq<Point>)
    ensures
        ({
            let w = redirected(u, p, route);
            &&& w.path == route
            &&& route.len() > 0 ==> w.x == u.x && w.y == u.y
            &&& route.len() == 0 ==> w.x == p.0 && w.y == p.1
            &&& w.selected == u.selected && w.kind == u.kind && w.color == u.color && w.owner_id
                == u.owner_id
        }),
{
}

} // verus!
