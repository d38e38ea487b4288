//! How warriors and towers choose whom to strike, and what their blows do.
use crate::economy;
use crate::single::Single;
use crate::space;
use crate::space::{length, tile_middle};
use crate::table;
use crate::tick;
use crate::tick::{Sighting, Tower};
use crate::world;
use crate::world::{BuildingDTO, GlobalState, GlobalView, Notice, UnitState, DEFAULT_POP_CAP};
use vstd::prelude::*;

verus! {

broadcast use vstd::std_specs::hash::group_hash_axioms;

/// How far a unit is from a point.
pub open spec fn unit_distance(u: Sighting, x: Single, y: Single) -> Single {
    space::length_of(u.x.difference(x), u.y.difference(y))
}

/// How far the middle of a building is from a point.
pub open spec fn building_distance(b: BuildingDTO, x: Single, y: Single) -> Single {
    space::length_of(
        space::middle_at(b.tile_x).difference(x),
        space::middle_at(b.tile_y).difference(y),
    )
}

/// Whether a unit belongs to someone else and is in reach.
pub open spec fn unit_in_reach(
    u: Sighting,
    owner: i32,
    x: Single,
    y: Single,
    reach: Single,
) -> bool {
    u.owner_id != owner && unit_distance(u, x, y).below(reach)
}

/// Whether a building belongs to someone else and is in reach.
pub open spec fn building_in_reach(
    b: BuildingDTO,
    owner: i32,
    x: Single,
    y: Single,
    reach: Single,
) -> bool {
    b.owner_id != owner && building_distance(b, x, y).below(reach)
}

/// Of the first `n` units, the nearest foe in reach; the first of them where several are as near.
pub open spec fn nearest_unit(
    s: Seq<Sighting>,
    n: int,
    owner: i32,
    x: Single,
    y: Single,
    reach: Single,
) -> Option<int>
    decreases n,
{
    if n <= 0 {
        None
    } else {
        let best = nearest_unit(s, n - 1, owner, x, y, reach);
        if unit_in_reach(s[n - 1], owner, x, y, reach) && (best is None || unit_distance(
            s[n - 1],
            x,
            y,
        ).below(unit_distance(s[best->0], x, y))) {
            Some(n - 1)
        } else {
            best
        }
    }
}

/// Of the first `n` buildings, the nearest of a foe in reach; the first of them where several are
/// as near.
pub open spec fn nearest_building(
    s: Seq<BuildingDTO>,
    n: int,
    owner: i32,
    x: Single,
    y: Single,
    reach: Single,
) -> Option<int>
    decreases n,
{
    if n <= 0 {
        None
    } else {
        let best = nearest_building(s, n - 1, owner, x, y, reach);
        if building_in_reach(s[n - 1], owner, x, y, reach) && (best is None || building_distance(
            s[n - 1],
            x,
            y,
        ).below(building_distance(s[best->0], x, y))) {
            Some(n - 1)
        } else {
            best
        }
    }
}

/// A unit is struck exactly when some foe is in reach. The one that is struck is a foe in reach,
/// and no foe is nearer.
pub proof fn the_nearest_unit_is_struck(
    s: Seq<Sighting>,
    n: int,
    owner: i32,
    x: Single,
    y: Single,
    reach: Single,
)
    requires
        0 <= n <= s.len(),
    ensures
        match nearest_unit(s, n, owner, x, y, reach) {
            Some(k) => {
                &&& 0 <= k < n
                &&& unit_in_reach(s[k], owner, x, y, reach)
                &&& forall|j: int|
                    0 <= j < n && unit_in_reach(#[trigger] s[j], owner, x, y, reach)
                        ==> !unit_distance(s[j], x, y).below(unit_distance(s[k], x, y))
            },
            None => forall|j: int|
                0 <= j < n ==> !unit_in_reach(#[trigger] s[j], owner, x, y, reach),
        },
    decreases n,
{
    if n > 0 {
        the_nearest_unit_is_struck(s, n - 1, owner, x, y, reach);
    }
}

/// A building is struck exactly when some building of a foe is in reach. The one that is struck
/// is such a building, and none is nearer.
pub proof fn the_nearest_building_is_struck(
    s: Seq<BuildingDTO>,
    n: int,
    owner: i32,
    x: Single,
    y: Single,
    reach: Single,
)
    requires
        0 <= n <= s.len(),
    ensures
        match nearest_building(s, n, owner, x, y, reach) {
            Some(k) => {
                &&& 0 <= k < n
                &&& building_in_reach(s[k], owner, x, y, reach)
                &&& forall|j: int|
                    0 <= j < n && building_in_reach(#[trigger] s[j], owner, x, y, reach)
                        ==> !building_distance(s[j], x, y).below(building_distance(s[k], x, y))
            },
            None => forall|j: int|
                0 <= j < n ==> !building_in_reach(#[trigger] s[j], owner, x, y, reach),
        },
    decreases n,
{
    if n > 0 {
        the_nearest_building_is_struck(s, n - 1, owner, x, y, reach);
    }
}

/// The nearest foe in reach of a point.
pub fn find_nearest_unit(
    s: &Vec<Sighting>,
    owner: i32,
    x: Single,
    y: Single,
    reach: Single,
) -> (r: Option<usize>)
    ensures
        match r {
            Some(k) => k < s@.len() && nearest_unit(
                s@,
                s@.len() as int,
                owner,
                x,
                y,
                reach,
            ) == Some(k as int),
            None => nearest_unit(s@, s@.len() as int, owner, x, y, reach) is None,
        },
{
    let mut best: Option<usize> = None;
    let mut best_distance = reach;
    let mut i: usize = 0;
    while i < s.len()
        invariant
            i <= s@.len(),
            match best {
                Some(k) => {
                    &&& k < i
                    &&& nearest_unit(s@, i as int, owner, x, y, reach) == Some(k as int)
                    &&& best_distance == unit_distance(s@[k as int], x, y)
                },
                None => nearest_unit(s@, i as int, owner, x, y, reach) is None,
            },
        decreases s@.len() - i,
    {
        if s[i].owner_id != owner {
            let d = length(s[i].x.minus(x), s[i].y.minus(y));
            if d.lt(reach) && (best.is_none() || d.lt(best_distance)) {
                best = Some(i);
                best_distance = d;
            }
        }
        i = i + 1;
    }
    best
}

/// The nearest building of a foe in reach of a point.
pub fn find_nearest_building(
    s: &Vec<BuildingDTO>,
    owner: i32,
    x: Single,
    y: Single,
    reach: Single,
) -> (r: Option<usize>)
    ensures
        match r {
            Some(k) => k < s@.len() && nearest_building(
                s@,
                s@.len() as int,
                owner,
                x,
                y,
                reach,
            ) == Some(k as int),
            None => nearest_building(s@, s@.len() as int, owner, x, y, reach) is None,
        },
{
    let mut best: Option<usize> = None;
    let mut best_distance = reach;
    let mut i: usize = 0;
    while i < s.len()
        invariant
            i <= s@.len(),
            match best {
                Some(k) => {
                    &&& k < i
                    &&& nearest_building(s@, i as int, owner, x, y, reach) == Some(k as int)
                    &&& best_distance == building_distance(s@[k as int], x, y)
                },
                None => nearest_building(s@, i as int, owner, x, y, reach) is None,
            },
        decreases s@.len() - i,
    {
        if s[i].owner_id != owner {
            let d = length(tile_middle(s[i].tile_x).minus(x), tile_middle(s[i].tile_y).minus(y));
            if d.lt(reach) && (best.is_none() || d.lt(best_distance)) {
                best = Some(i);
                best_distance = d;
            }
        }
        i = i + 1;
    }
    best
}

/// A blow at the unit or the building with the given number.
#[derive(Clone, Copy, Debug, PartialEq, Eq, Structural)]
pub struct Hit {
    pub owner_id: i32,
    pub idx: usize,
    pub damage: Single,
}

/// The harm that a warrior does in a tick.
pub open spec fn warrior_damage() -> Single {
    Single { bits: tick::WARRIOR_DPS }.product(Single { bits: economy::TICK })
}

/// Which unit the warrior strikes.
pub open spec fn unit_target(s: Seq<Sighting>, w: Sighting) -> Option<int> {
    nearest_unit(s, s.len() as int, w.owner_id, w.x, w.y, Single { bits: tick::WARRIOR_RANGE })
}

/// Which building the warrior strikes, where there is no unit to strike.
pub open spec fn building_target(b: Seq<BuildingDTO>, w: Sighting) -> Option<int> {
    nearest_building(b, b.len() as int, w.owner_id, w.x, w.y, Single { bits: tick::WARRIOR_RANGE })
}

/// The blows at units that the warriors among the first `n` units strike.
pub open spec fn unit_hits(s: Seq<Sighting>, n: int) -> Seq<Hit>
    decreases n,
{
    if n <= 0 {
        Seq::empty()
    } else {
        let before = unit_hits(s, n - 1);
        if s[n - 1].kind == 1 && unit_target(s, s[n - 1]) is Some {
            let t = s[unit_target(s, s[n - 1])->0];
            before.push(Hit { owner_id: t.owner_id, idx: t.unit_idx, damage: warrior_damage() })
        } else {
            before
        }
    }
}

/// The blows at buildings that the warriors among the first `n` units strike: those who have no
/// unit to strike.
pub open spec fn building_hits(s: Seq<Sighting>, b: Seq<BuildingDTO>, n: int) -> Seq<Hit>
    decreases n,
{
    if n <= 0 {
        Seq::empty()
    } else {
        let before = building_hits(s, b, n - 1);
        if s[n - 1].kind == 1 && unit_target(s, s[n - 1]) is None && building_target(
            b,
            s[n - 1],
        ) is Some {
            let k = building_target(b, s[n - 1])->0;
            before.push(
                Hit { owner_id: b[k].owner_id, idx: k as usize, damage: warrior_damage() },
            )
        } else {
            before
        }
    }
}

/// The blows that the warriors strike, at units and at buildings.
pub fn warrior_hits(s: &Vec<Sighting>, b: &Vec<BuildingDTO>) -> (r: (Vec<Hit>, Vec<Hit>))
    ensures
        r.0@ == unit_hits(s@, s@.len() as int),
        r.1@ == building_hits(s@, b@, s@.len() as int),
{
    let reach = Single { bits: tick::WARRIOR_RANGE };
    let damage = Single { bits: tick::WARRIOR_DPS }.times(Single { bits: economy::TICK });
    let mut at_units: Vec<Hit> = Vec::new();
    let mut at_buildings: Vec<Hit> = Vec::new();
    let mut i: usize = 0;
    while i < s.len()
        invariant
            i <= s@.len(),
            reach == (Single { bits: tick::WARRIOR_RANGE }),
            damage == warrior_damage(),
            at_units@ == unit_hits(s@, i as int),
            at_buildings@ == building_hits(s@, b@, i as int),
        decreases s@.len() - i,
    {
        let w = s[i];
        if w.kind == 1 {
            match find_nearest_unit(s, w.owner_id, w.x, w.y, reach) {
                Some(k) => {
                    at_units.push(Hit { owner_id: s[k].owner_id, idx: s[k].unit_idx, damage });
                },
                None => {
                    match find_nearest_building(b, w.owner_id, w.x, w.y, reach) {
                        Some(k) => {
                            at_buildings.push(Hit { owner_id: b[k].owner_id, idx: k, damage });
                        },
                        None => {},
                    }
                },
            }
        }
        i = i + 1;
    }
    (at_units, at_buildings)
}

/// The number of blows at the front that are not at a smaller index.
pub open spec fn rank(s: Seq<Hit>, idx: usize) -> int
    decreases s.len(),
{
    if s.len() == 0 || s[0].idx < idx {
        0
    } else {
        1 + rank(s.drop_first(), idx)
    }
}

/// The first `n` blows, those at larger indices first; blows at the same index keep their order.
pub open spec fn ranked(s: Seq<Hit>, n: int) -> Seq<Hit>
    decreases n,
{
    if n <= 0 {
        Seq::empty()
    } else {
        ranked(s, n - 1).insert(rank(ranked(s, n - 1), s[n - 1].idx), s[n - 1])
    }
}

/// Whether no blow comes before one at a larger index.
pub open spec fn falling(s: Seq<Hit>) -> bool {
    forall|i: int, j: int| 0 <= i < j < s.len() ==> (#[trigger] s[i]).idx >= (#[trigger] s[j]).idx
}

proof fn lemma_rank(s: Seq<Hit>, idx: usize)
    ensures
        0 <= rank(s, idx) <= s.len(),
        forall|i: int| 0 <= i < rank(s, idx) ==> (#[trigger] s[i]).idx >= idx,
        rank(s, idx) < s.len() ==> s[rank(s, idx)].idx < idx,
    decreases s.len(),
{
    if s.len() == 0 || s[0].idx < idx {
    } else {
        let t = s.drop_first();
        lemma_rank(t, idx);
        assert forall|i: int| 0 <= i < rank(s, idx) implies (#[trigger] s[i]).idx >= idx by {
            if i > 0 {
                assert(t[i - 1] == s[i]);
            }
        }
    }
}

proof fn lemma_rank_is(s: Seq<Hit>, idx: usize, r: int)
    requires
        0 <= r <= s.len(),
        forall|i: int| 0 <= i < r ==> (#[trigger] s[i]).idx >= idx,
        r < s.len() ==> s[r].idx < idx,
    ensures
        rank(s, idx) == r,
{
    lemma_rank(s, idx);
    if r < rank(s, idx) {
        assert(s[r].idx >= idx);
    }
    if rank(s, idx) < r {
        assert(s[rank(s, idx)].idx >= idx);
    }
}

/// Blows fall on the last units and buildings first, so that a death moves nobody who is still to
/// be struck, and no blow is lost.
pub proof fn later_ones_are_struck_first(s: Seq<Hit>, n: int)
    requires
        0 <= n <= s.len(),
    ensures
        falling(ranked(s, n)),
        ranked(s, n).len() == n,
        ranked(s, n).to_multiset() == s.take(n).to_multiset(),
    decreases n,
{
    broadcast use vstd::seq_lib::group_to_multiset_ensures;

    if n <= 0 {
        assert(s.take(n) =~= Seq::<Hit>::empty());
    } else {
        later_ones_are_struck_first(s, n - 1);
        let t = ranked(s, n - 1);
        let h = s[n - 1];
        let r = rank(t, h.idx);
        lemma_rank(t, h.idx);
        let u = ranked(s, n);
        assert forall|i: int, j: int| 0 <= i < j < u.len() implies (#[trigger] u[i]).idx >= (
        #[trigger] u[j]).idx by {
            let a = if i < r {
                i
            } else {
                i - 1
            };
            let b = if j < r {
                j
            } else {
                j - 1
            };
            if i != r && j != r {
                assert(u[i] == t[a] && u[j] == t[b]);
            } else if i == r {
                assert(u[j] == t[b]);
                assert(t[r].idx >= t[b].idx);
            } else {
                assert(u[i] == t[a]);
            }
        }
        vstd::seq_lib::to_multiset_insert(t, r, h);
        assert(s.take(n) =~= s.take(n - 1).push(h));
    }
}

/// Orders the blows: those at larger indices first.
fn in_order(s: &Vec<Hit>) -> (r: Vec<Hit>)
    ensures
        r@ == ranked(s@, s@.len() as int),
{
    let mut out: Vec<Hit> = Vec::new();
    let mut i: usize = 0;
    while i < s.len()
        invariant
            i <= s@.len(),
            out@ == ranked(s@, i as int),
        decreases s@.len() - i,
    {
        let h = s[i];
        let mut r: usize = 0;
        while r < out.len() && out[r].idx >= h.idx
            invariant
                r <= out@.len(),
                forall|k: int| 0 <= k < r ==> (#[trigger] out@[k]).idx >= h.idx,
            decreases out@.len() - r,
        {
            r = r + 1;
        }
        proof {
            lemma_rank_is(out@, h.idx, r as int);
        }
        out.insert(r, h);
        i = i + 1;
    }
    out
}

/// What a blow does.
#[derive(Clone, Copy, Debug, PartialEq, Eq, Structural)]
pub enum Blow {
    Missed,
    Hurt { hp: Single },
    Killed { hp: Single },
}

/// What harm does to someone with the given strength: without strength left, it kills.
pub open spec fn blow(hp: Single, damage: Single) -> Blow {
    let left = hp.difference(damage);
    if left.at_most(Single { bits: 0 }) {
        Blow::Killed { hp: left }
    } else {
        Blow::Hurt { hp: left }
    }
}

/// What a blow at a unit does.
pub open spec fn unit_blow(armies: Seq<(i32, Seq<UnitState>)>, h: Hit) -> Blow {
    if h.idx < world::army(armies, h.owner_id).len() {
        blow(world::army(armies, h.owner_id)[h.idx as int].hp, h.damage)
    } else {
        Blow::Missed
    }
}

/// The army after a blow at one of its units.
pub open spec fn army_after(units: Seq<UnitState>, idx: int, b: Blow) -> Seq<UnitState> {
    match b {
        Blow::Missed => units,
        Blow::Hurt { hp } => units.update(idx, UnitState { hp, ..units[idx] }),
        Blow::Killed { hp } => units.remove(idx),
    }
}

/// The armies after a blow at a unit.
pub open spec fn armies_after(armies: Seq<(i32, Seq<UnitState>)>, h: Hit) -> Seq<
    (i32, Seq<UnitState>),
> {
    match unit_blow(armies, h) {
        Blow::Missed => armies,
        b => table::with(
            armies,
            h.owner_id,
            army_after(world::army(armies, h.owner_id), h.idx as int, b),
        ),
    }
}

/// What a blow at the building with the given number does.
pub open spec fn building_blow(buildings: Seq<BuildingDTO>, idx: usize, damage: Single) -> Blow {
    if idx < buildings.len() {
        blow(buildings[idx as int].hp, damage)
    } else {
        Blow::Missed
    }
}

/// The population cap of a player who lost a house.
pub open spec fn lowered(cap: i32) -> i32 {
    if cap > DEFAULT_POP_CAP {
        (cap - 1) as i32
    } else {
        DEFAULT_POP_CAP
    }
}

impl GlobalView {
    /// The world after a blow at a unit.
    pub open spec fn unit_struck(self, h: Hit) -> GlobalView {
        GlobalView { units: armies_after(self.units, h), ..self }
    }

    /// The world after a blow at a building. With a house falls the population cap of its owner.
    pub open spec fn building_struck(self, idx: usize, damage: Single) -> GlobalView {
        let b = self.buildings[idx as int];
        match building_blow(self.buildings, idx, damage) {
            Blow::Missed => self,
            Blow::Hurt { hp } => GlobalView {
                buildings: self.buildings.update(idx as int, BuildingDTO { hp, ..b }),
                ..self
            },
            Blow::Killed { hp } => GlobalView {
                buildings: self.buildings.remove(idx as int),
                pop_cap: if b.kind == economy::HOUSE {
                    self.pop_cap.insert(b.owner_id, lowered(self.cap(b.owner_id)))
                } else {
                    self.pop_cap
                },
                ..self
            },
        }
    }

    /// The world after the first `n` blows at units.
    pub open spec fn units_struck(self, hits: Seq<Hit>, n: int) -> GlobalView
        decreases n,
    {
        if n <= 0 {
            self
        } else {
            self.units_struck(hits, n - 1).unit_struck(hits[n - 1])
        }
    }

    /// Which of the first `n` blows at units left their mark, as it is told.
    pub open spec fn unit_wounds(self, hits: Seq<Hit>, n: int) -> Seq<Notice>
        decreases n,
    {
        if n <= 0 {
            Seq::empty()
        } else {
            let before = self.unit_wounds(hits, n - 1);
            let h = hits[n - 1];
            match unit_blow(self.units_struck(hits, n - 1).units, h) {
                Blow::Hurt { hp } => before.push(
                    Notice::UnitHp { owner_id: h.owner_id, unit_idx: h.idx, hp },
                ),
                _ => before,
            }
        }
    }

    /// Which of the first `n` blows at units killed.
    pub open spec fn unit_deaths(self, hits: Seq<Hit>, n: int) -> Seq<Hit>
        decreases n,
    {
        if n <= 0 {
            Seq::empty()
        } else {
            let before = self.unit_deaths(hits, n - 1);
            match unit_blow(self.units_struck(hits, n - 1).units, hits[n - 1]) {
                Blow::Killed { hp } => before.push(hits[n - 1]),
                _ => before,
            }
        }
    }

    /// The world after the first `n` blows at buildings.
    pub open spec fn buildings_struck(self, hits: Seq<Hit>, n: int) -> GlobalView
        decreases n,
    {
        if n <= 0 {
            self
        } else {
            self.buildings_struck(hits, n - 1).building_struck(
                hits[n - 1].idx,
                hits[n - 1].damage,
            )
        }
    }

    /// Which of the first `n` blows at buildings left their mark, as it is told.
    pub open spec fn building_wounds(self, hits: Seq<Hit>, n: int) -> Seq<Notice>
        decreases n,
    {
        if n <= 0 {
            Seq::empty()
        } else {
            let before = self.building_wounds(hits, n - 1);
            let bs = self.buildings_struck(hits, n - 1).buildings;
            let h = hits[n - 1];
            match building_blow(bs, h.idx, h.damage) {
                Blow::Hurt { hp } => before.push(
                    Notice::BuildingHp {
                        tile_x: bs[h.idx as int].tile_x,
                        tile_y: bs[h.idx as int].tile_y,
                        hp,
                    },
                ),
                _ => before,
            }
        }
    }

    /// Which of the first `n` blows at buildings brought one down, as it is told.
    pub open spec fn building_deaths(self, hits: Seq<Hit>, n: int) -> Seq<Notice>
        decreases n,
    {
        if n <= 0 {
            Seq::empty()
        } else {
            let before = self.building_deaths(hits, n - 1);
            let bs = self.buildings_struck(hits, n - 1).buildings;
            let h = hits[n - 1];
            match building_blow(bs, h.idx, h.damage) {
                Blow::Killed { hp } => before.push(
                    Notice::BuildingDestroyed {
                        tile_x: bs[h.idx as int].tile_x,
                        tile_y: bs[h.idx as int].tile_y,
                    },
                ),
                _ => before,
            }
        }
    }
}

/// What harm does to someone with the given strength.
fn strike(hp: Single, damage: Single) -> (b: Blow)
    ensures
        b == blow(hp, damage),
{
    let left = hp.minus(damage);
    if left.le(Single { bits: 0 }) {
        Blow::Killed { hp: left }
    } else {
        Blow::Hurt { hp: left }
    }
}

impl GlobalState {
    /// Strikes a unit.
    pub fn hit_unit(&mut self, h: Hit) -> (b: Blow)
        ensures
            b == unit_blow(old(self)@.units, h),
            final(self)@ == old(self)@.unit_struck(h),
            old(self)@.wf() ==> final(self)@.wf(),
    {
        let i: usize = self.units.position(h.owner_id);
        proof {
            table::lemma_row(self@.units, h.owner_id);
            if self@.wf() {
                table::rows_stay_apart(
                    self@.units,
                    h.owner_id,
                    army_after(
                        world::army(self@.units, h.owner_id),
                        h.idx as int,
                        unit_blow(self@.units, h),
                    ),
                );
            }
        }
        if i >= self.units.list.len() {
            return Blow::Missed;
        }
        assert(self@.units[i as int].1 == self.units.list@[i as int].units@);
        if h.idx >= self.units.list[i].units.len() {
            return Blow::Missed;
        }
        let ghost v = self@;
        let u = self.units.list[i].units[h.idx];
        let b = strike(u.hp, h.damage);
        match b {
            Blow::Killed { hp } => {
                self.units.remove_unit(i, h.idx);
            },
            Blow::Hurt { hp } => {
                self.units.set_unit(i, h.idx, UnitState { hp, ..u });
            },
            Blow::Missed => {},
        }
        assert(self@.units == table::with(
            v.units,
            h.owner_id,
            army_after(world::army(v.units, h.owner_id), h.idx as int, b),
        ));
        assert(self@ == (GlobalView { units: self@.units, ..v }));
        b
    }

    /// Strikes the building with the given number.
    pub fn hit_building(&mut self, idx: usize, damage: Single) -> (b: Blow)
        ensures
            b == building_blow(old(self)@.buildings, idx, damage),
            final(self)@ == old(self)@.building_struck(idx, damage),
            old(self)@.wf() ==> final(self)@.wf(),
    {
        if idx >= self.buildings.len() {
            return Blow::Missed;
        }
        let old_one = self.buildings[idx];
        let b = strike(old_one.hp, damage);
        match b {
            Blow::Killed { hp } => {
                self.buildings.remove(idx);
                if old_one.kind == economy::HOUSE {
                    let cap: i32 = self.cap(old_one.owner_id);
                    let lower: i32 = if cap > DEFAULT_POP_CAP { cap - 1 } else { DEFAULT_POP_CAP };
                    self.pop_cap.insert(old_one.owner_id, lower);
                }
            },
            Blow::Hurt { hp } => {
                self.buildings.set(idx, BuildingDTO { hp, ..old_one });
            },
            Blow::Missed => {},
        }
        b
    }
}

/// What the blows of the warriors did.
pub struct Damage {
    pub unit_hp: Vec<Notice>,
    pub unit_deaths: Vec<Notice>,
    pub bereaved: Vec<i32>,
    pub building_hp: Vec<Notice>,
    pub building_deaths: Vec<Notice>,
}

/// What is told of those who were killed.
pub open spec fn obituaries(dead: Seq<Hit>) -> Seq<Notice> {
    Seq::new(
        dead.len(),
        |i: int| Notice::UnitDied { owner_id: dead[i].owner_id, unit_idx: dead[i].idx },
    )
}

/// The owners of those who were killed.
pub open spec fn owners(dead: Seq<Hit>) -> Seq<i32> {
    Seq::new(dead.len(), |i: int| dead[i].owner_id)
}

impl GlobalState {
    /// Lets all blows of the warriors fall, those at larger indices first. The owners of the dead
    /// are listed twice over: each hears of the loss and again of the death.
    pub fn apply_damage(&mut self, at_units: &Vec<Hit>, at_buildings: &Vec<Hit>) -> (d: Damage)
        ensures
            ({
                let v = old(self)@;
                let n = at_units@.len() as int;
                let m = at_buildings@.len() as int;
                let u = ranked(at_units@, n);
                let b = ranked(at_buildings@, m);
                let w = v.units_struck(u, n);
                &&& final(self)@ == w.buildings_struck(b, m)
                &&& d.unit_hp@ == v.unit_wounds(u, n)
                &&& d.unit_deaths@ == obituaries(v.unit_deaths(u, n))
                &&& d.bereaved@ == owners(v.unit_deaths(u, n)) + owners(v.unit_deaths(u, n))
                &&& d.building_hp@ == w.building_wounds(b, m)
                &&& d.building_deaths@ == w.building_deaths(b, m)
            }),
            old(self)@.wf() ==> final(self)@.wf(),
    {
        let ghost v = self@;
        let u = in_order(at_units);
        let b = in_order(at_buildings);
        proof {
            later_ones_are_struck_first(at_units@, at_units@.len() as int);
            later_ones_are_struck_first(at_buildings@, at_buildings@.len() as int);
        }
        let mut unit_hp: Vec<Notice> = Vec::new();
        let mut unit_deaths: Vec<Notice> = Vec::new();
        let mut bereaved: Vec<i32> = Vec::new();
        let mut i: usize = 0;
        while i < u.len()
            invariant
                i <= u@.len(),
                self@ == v.units_struck(u@, i as int),
                v.wf() ==> self@.wf(),
                unit_hp@ == v.unit_wounds(u@, i as int),
                unit_deaths@ == obituaries(v.unit_deaths(u@, i as int)),
                bereaved@ == owners(v.unit_deaths(u@, i as int)),
            decreases u@.len() - i,
        {
            let h = u[i];
            match self.hit_unit(h) {
                Blow::Killed { hp } => {
                    unit_deaths.push(Notice::UnitDied { owner_id: h.owner_id, unit_idx: h.idx });
                    bereaved.push(h.owner_id);
                },
                Blow::Hurt { hp } => {
                    unit_hp.push(Notice::UnitHp { owner_id: h.owner_id, unit_idx: h.idx, hp });
                },
                Blow::Missed => {},
            }
            i = i + 1;
            assert(unit_deaths@ =~= obituaries(v.unit_deaths(u@, i as int)));
            assert(bereaved@ =~= owners(v.unit_deaths(u@, i as int)));
        }
        let ghost first = bereaved@;
        let n: usize = bereaved.len();
        let mut k: usize = 0;
        while k < n
            invariant
                k <= n,
                n == first.len(),
                bereaved@ == first + first.take(k as int),
            decreases n - k,
        {
            let o: i32 = bereaved[k];
            bereaved.push(o);
            k = k + 1;
            assert(bereaved@ =~= first + first.take(k as int));
        }
        assert(bereaved@ =~= first + first);
        let ghost w = self@;
        let mut building_hp: Vec<Notice> = Vec::new();
        let mut building_deaths: Vec<Notice> = Vec::new();
        let mut j: usize = 0;
        while j < b.len()
            invariant
                j <= b@.len(),
                self@ == w.buildings_struck(b@, j as int),
                v.wf() ==> self@.wf(),
                building_hp@ == w.building_wounds(b@, j as int),
                building_deaths@ == w.building_deaths(b@, j as int),
            decreases b@.len() - j,
        {
            let h = b[j];
            if h.idx < self.buildings.len() {
                let struck = self.buildings[h.idx];
                match self.hit_building(h.idx, h.damage) {
                    Blow::Killed { hp } => {
                        building_deaths.push(
                            Notice::BuildingDestroyed {
                                tile_x: struck.tile_x,
                                tile_y: struck.tile_y,
                            },
                        );
                    },
                    Blow::Hurt { hp } => {
                        building_hp.push(
                            Notice::BuildingHp { tile_x: struck.tile_x, tile_y: struck.tile_y, hp },
                        );
                    },
                    Blow::Missed => {},
                }
            }
            j = j + 1;
        }
        Damage { unit_hp, unit_deaths, bereaved, building_hp, building_deaths }
    }

    /// What is told of the economies of the listed players.
    pub fn reports(&self, listed: &Vec<i32>) -> (r: Vec<Notice>)
        ensures
            r@ == Seq::new(listed@.len(), |i: int| self@.report(listed@[i])),
    {
        let mut out: Vec<Notice> = Vec::new();
        let mut i: usize = 0;
        while i < listed.len()
            invariant
                i <= listed@.len(),
                out@ == Seq::new(i as nat, |k: int| self@.report(listed@[k])),
            decreases listed@.len() - i,
        {
            out.push(self.report(listed[i]));
            i = i + 1;
            assert(out@ =~= Seq::new(i as nat, |k: int| self@.report(listed@[k])));
        }
        out
    }
}

/// A shot, from a tower to where its target was seen.
#[derive(Clone, Copy, Debug, PartialEq, Eq, Structural)]
pub struct Shot {
    pub x1: Single,
    pub y1: Single,
    pub x2: Single,
    pub y2: Single,
    pub owner_id: i32,
}

/// Which unit the tower shoots at.
pub open spec fn shot_target(s: Seq<Sighting>, t: Tower) -> Option<int> {
    nearest_unit(s, s.len() as int, t.owner_id, t.x, t.y, Single { bits: tick::TOWER_RANGE })
}

/// The shots of the first `n` towers.
pub open spec fn shots(t: Seq<Tower>, s: Seq<Sighting>, n: int) -> Seq<Shot>
    decreases n,
{
    if n <= 0 {
        Seq::empty()
    } else {
        match shot_target(s, t[n - 1]) {
            Some(k) => shots(t, s, n - 1).push(
                Shot {
                    x1: t[n - 1].x,
                    y1: t[n - 1].y,
                    x2: s[k].x,
                    y2: s[k].y,
                    owner_id: t[n - 1].owner_id,
                },
            ),
            None => shots(t, s, n - 1),
        }
    }
}

/// The shots of the towers: each shoots at the nearest foe in reach.
pub fn tower_shots(t: &Vec<Tower>, s: &Vec<Sighting>) -> (r: Vec<Shot>)
    ensures
        r@ == shots(t@, s@, t@.len() as int),
{
    let mut out: Vec<Shot> = Vec::new();
    let mut i: usize = 0;
    while i < t.len()
        invariant
            i <= t@.len(),
            out@ == shots(t@, s@, i as int),
        decreases t@.len() - i,
    {
        let w = t[i];
        match find_nearest_unit(s, w.owner_id, w.x, w.y, Single { bits: tick::TOWER_RANGE }) {
            Some(k) => {
                out.push(
                    Shot { x1: w.x, y1: w.y, x2: s[k].x, y2: s[k].y, owner_id: w.owner_id },
                );
            },
            None => {},
        }
        i = i + 1;
    }
    out
}

impl GlobalView {
    /// The foe that a shot hits: the nearest to where it was aimed.
    pub open spec fn shot_unit(self, t: Shot) -> Option<Hit> {
        let s = tick::sighted(self.units, self.units.len() as int);
        match nearest_unit(
            s,
            s.len() as int,
            t.owner_id,
            t.x2,
            t.y2,
            Single { bits: tick::SHOT_RANGE },
        ) {
            Some(k) => Some(
                Hit {
                    owner_id: s[k].owner_id,
                    idx: s[k].unit_idx,
                    damage: Single { bits: tick::TOWER_DAMAGE },
                },
            ),
            None => None,
        }
    }

    /// The building of a foe that a shot hits, where it hits no unit.
    pub open spec fn shot_building(self, t: Shot) -> Option<int> {
        nearest_building(
            self.buildings,
            self.buildings.len() as int,
            t.owner_id,
            t.x2,
            t.y2,
            Single { bits: tick::SHOT_RANGE },
        )
    }

    /// The world after a shot.
    pub open spec fn shot_at(self, t: Shot) -> GlobalView {
        match self.shot_unit(t) {
            Some(h) => self.unit_struck(h),
            None => match self.shot_building(t) {
                Some(k) => self.building_struck(k as usize, Single { bits: tick::TOWER_DAMAGE }),
                None => self,
            },
        }
    }

    /// What is told of a shot at a unit.
    pub open spec fn unit_shot_told(self, h: Hit) -> Seq<Notice> {
        match unit_blow(self.units, h) {
            Blow::Missed => seq![],
            Blow::Hurt { hp } => seq![
                Notice::UnitHp { owner_id: h.owner_id, unit_idx: h.idx, hp },
            ],
            Blow::Killed { hp } => seq![
                Notice::UnitHp { owner_id: h.owner_id, unit_idx: h.idx, hp },
                Notice::UnitDied { owner_id: h.owner_id, unit_idx: h.idx },
            ],
        }
    }

    /// What is told of a shot at a building.
    pub open spec fn building_shot_told(self, k: int) -> Seq<Notice> {
        let b = self.buildings[k];
        match blow(b.hp, Single { bits: tick::TOWER_DAMAGE }) {
            Blow::Missed => seq![],
            Blow::Hurt { hp } => seq![
                Notice::BuildingHp { tile_x: b.tile_x, tile_y: b.tile_y, hp },
            ],
            Blow::Killed { hp } => seq![
                Notice::BuildingHp { tile_x: b.tile_x, tile_y: b.tile_y, hp },
                Notice::BuildingDestroyed { tile_x: b.tile_x, tile_y: b.tile_y },
            ],
        }
    }

    /// What is told of a shot: first what it did, then that it was fired.
    pub open spec fn shot_told(self, t: Shot) -> Seq<Notice> {
        let done = match self.shot_unit(t) {
            Some(h) => self.unit_shot_told(h),
            None => match self.shot_building(t) {
                Some(k) => self.building_shot_told(k),
                None => seq![],
            },
        };
        done.push(Notice::TowerShot { x1: t.x1, y1: t.y1, x2: t.x2, y2: t.y2 })
    }
}

impl GlobalState {
    /// Lets a shot hit a unit.
    fn shoot_unit(&mut self, h: Hit) -> (out: Vec<Notice>)
        ensures
            final(self)@ == old(self)@.unit_struck(h),
            out@ == old(self)@.unit_shot_told(h),
            old(self)@.wf() ==> final(self)@.wf(),
    {
        let ghost v = self@;
        let mut out: Vec<Notice> = Vec::new();
        match self.hit_unit(h) {
            Blow::Killed { hp } => {
                out.push(Notice::UnitHp { owner_id: h.owner_id, unit_idx: h.idx, hp });
                out.push(Notice::UnitDied { owner_id: h.owner_id, unit_idx: h.idx });
            },
            Blow::Hurt { hp } => {
                out.push(Notice::UnitHp { owner_id: h.owner_id, unit_idx: h.idx, hp });
            },
            Blow::Missed => {},
        }
        assert(out@ =~= v.unit_shot_told(h));
        out
    }

    /// Lets a shot hit a building.
    fn shoot_building(&mut self, k: usize) -> (out: Vec<Notice>)
        requires
            k < old(self)@.buildings.len(),
        ensures
            final(self)@ == old(self)@.building_struck(k, Single { bits: tick::TOWER_DAMAGE }),
            out@ == old(self)@.building_shot_told(k as int),
            old(self)@.wf() ==> final(self)@.wf(),
    {
        let ghost v = self@;
        let mut out: Vec<Notice> = Vec::new();
        let tile_x: i32 = self.buildings[k].tile_x;
        let tile_y: i32 = self.buildings[k].tile_y;
        match self.hit_building(k, Single { bits: tick::TOWER_DAMAGE }) {
            Blow::Killed { hp } => {
                out.push(Notice::BuildingHp { tile_x, tile_y, hp });
                out.push(Notice::BuildingDestroyed { tile_x, tile_y });
            },
            Blow::Hurt { hp } => {
                out.push(Notice::BuildingHp { tile_x, tile_y, hp });
            },
            Blow::Missed => {},
        }
        assert(out@ =~= v.building_shot_told(k as int));
        out
    }

    /// Lets a shot hit what is nearest to where it was aimed, units before buildings.
    pub fn resolve_shot(&mut self, t: Shot) -> (r: Vec<Notice>)
        ensures
            final(self)@ == old(self)@.shot_at(t),
            r@ == old(self)@.shot_told(t),
            old(self)@.wf() ==> final(self)@.wf(),
    {
        let reach = Single { bits: tick::SHOT_RANGE };
        let s = self.sightings();
        let mut out = match find_nearest_unit(&s, t.owner_id, t.x2, t.y2, reach) {
            Some(k) => {
                let damage = Single { bits: tick::TOWER_DAMAGE };
                let h = Hit { owner_id: s[k].owner_id, idx: s[k].unit_idx, damage };
                self.shoot_unit(h)
            },
            None => match find_nearest_building(&self.buildings, t.owner_id, t.x2, t.y2, reach) {
                Some(k) => self.shoot_building(k),
                None => {
                    let none: Vec<Notice> = Vec::new();
                    none
                },
            },
        };
        out.push(Notice::TowerShot { x1: t.x1, y1: t.y1, x2: t.x2, y2: t.y2 });
        out
    }
}

/// A blow at a unit takes its damage from the strength of that unit and of no other. Whoever has
/// strength left stays where they are and what they are; whoever has none left is gone, and those
/// behind them move up. A blow at nobody changes nothing, and no blow touches anyone else's army or
/// anything else in the world.
pub proof fn blows_take_strength_and_nothing_else(v: GlobalView, h: Hit, owner: i32, k: int)
    ensures
        ({
            let w = v.unit_struck(h);
            let before = world::army(v.units, h.owner_id);
            let after = world::army(w.units, h.owner_id);
            let left = before[h.idx as int].hp.difference(h.damage);
            let there = h.idx < before.len();
            let dead = left.at_most(Single { bits: 0 });
            &&& there && !dead ==> {
                &&& after.len() == before.len()
                &&& after[h.idx as int].x == before[h.idx as int].x
                &&& after[h.idx as int].y == before[h.idx as int].y
                &&& after[h.idx as int].kind == before[h.idx as int].kind
                &&& after[h.idx as int].hp == left
                &&& 0 <= k < before.len() && k != h.idx ==> after[k] == before[k]
                &&& unit_blow(v.units, h) == (Blow::Hurt { hp: left })
            }
            &&& there && dead ==> {
                &&& after.len() == before.len() - 1
                &&& 0 <= k < h.idx ==> after[k] == before[k]
                &&& h.idx <= k < after.len() ==> after[k] == before[k + 1]
                &&& unit_blow(v.units, h) == (Blow::Killed { hp: left })
            }
            &&& !there ==> w == v && unit_blow(v.units, h) == Blow::Missed
            &&& owner != h.owner_id ==> world::army(w.units, owner) == world::army(v.units, owner)
            &&& w.buildings == v.buildings && w.resources == v.resources && w.pop_cap == v.pop_cap
                && w.players == v.players && w.tokens == v.tokens && w.building_progress
                == v.building_progress && w.gather_tasks == v.gather_tasks && w.next_id
                == v.next_id
        }),
{
    let before = world::army(v.units, h.owner_id);
    if h.idx < before.len() {
        let b = blow(before[h.idx as int].hp, h.damage);
        let after = army_after(before, h.idx as int, b);
        table::with_is_seen(v.units, h.owner_id, after, h.owner_id);
        table::with_is_seen(v.units, h.owner_id, after, owner);
    }
}

/// A blow at a building takes its damage from the strength of that building and of no other. What
/// has strength left stays where it is, what it is and whose it is; what has none left is gone.
/// Only with a house that falls goes room: one for its owner, down to the five that everyone has.
pub proof fn buildings_fall_when_their_strength_is_gone(
    v: GlobalView,
    idx: usize,
    damage: Single,
    k: int,
    q: i32,
)
    ensures
        ({
            let w = v.building_struck(idx, damage);
            let b = v.buildings[idx as int];
            let left = b.hp.difference(damage);
            let there = idx < v.buildings.len();
            let dead = left.at_most(Single { bits: 0 });
            &&& there && !dead ==> {
                &&& w.buildings.len() == v.buildings.len()
                &&& w.buildings[idx as int].hp == left
                &&& w.buildings[idx as int].id == b.id && w.buildings[idx as int].owner_id
                    == b.owner_id && w.buildings[idx as int].kind == b.kind
                    && w.buildings[idx as int].tile_x == b.tile_x && w.buildings[idx as int].tile_y
                    == b.tile_y
                &&& 0 <= k < v.buildings.len() && k != idx ==> w.buildings[k] == v.buildings[k]
                &&& w.cap(q) == v.cap(q)
                &&& building_blow(v.buildings, idx, damage) == (Blow::Hurt { hp: left })
            }
            &&& there && dead ==> {
                &&& w.buildings.len() == v.buildings.len() - 1
                &&& 0 <= k < idx ==> w.buildings[k] == v.buildings[k]
                &&& idx <= k < w.buildings.len() ==> w.buildings[k] == v.buildings[k + 1]
                &&& b.kind == 3 && q == b.owner_id && v.cap(q) > 5 ==> w.cap(q) == v.cap(q) - 1
                &&& b.kind == 3 && q == b.owner_id && v.cap(q) <= 5 ==> w.cap(q) == 5
                &&& b.kind != 3 || q != b.owner_id ==> w.cap(q) == v.cap(q)
                &&& building_blow(v.buildings, idx, damage) == (Blow::Killed { hp: left })
            }
            &&& !there ==> w == v && building_blow(v.buildings, idx, damage) == Blow::Missed
            &&& w.units == v.units && w.resources == v.resources && w.players == v.players
                && w.tokens == v.tokens && w.building_progress == v.building_progress
                && w.gather_tasks == v.gather_tasks && w.next_id == v.next_id
        }),
{
}

/// It does not matter in which order blows fall on the units of two players.
pub proof fn blows_at_two_players_commute(v: GlobalView, a: Hit, b: Hit, owner: i32)
    requires
        a.owner_id != b.owner_id,
    ensures
        world::army(v.unit_struck(a).unit_struck(b).units, owner) == world::army(
            v.unit_struck(b).unit_struck(a).units,
            owner,
        ),
{
    blows_take_strength_and_nothing_else(v, a, owner, 0);
    blows_take_strength_and_nothing_else(v, b, owner, 0);
    blows_take_strength_and_nothing_else(v, a, b.owner_id, 0);
    blows_take_strength_and_nothing_else(v, b, a.owner_id, 0);
    blows_take_strength_and_nothing_else(v.unit_struck(a), b, owner, 0);
    blows_take_strength_and_nothing_else(v.unit_struck(b), a, owner, 0);
    lemma_army_after(v, a);
    lemma_army_after(v, b);
    lemma_army_after(v.unit_struck(b), a);
    lemma_army_after(v.unit_struck(a), b);
}

proof fn lemma_army_after(v: GlobalView, h: Hit)
    ensures
        world::army(v.unit_struck(h).units, h.owner_id) == army_after(
            world::army(v.units, h.owner_id),
            h.idx as int,
            unit_blow(v.units, h),
        ),
{
    table::with_is_seen(
        v.units,
        h.owner_id,
        army_after(world::army(v.units, h.owner_id), h.idx as int, unit_blow(v.units, h)),
        h.owner_id,
    );
}

/// Whoever strikes, strikes a foe in reach, whatever it is; of several the nearest, and of equally
/// near ones the first. As long as there is a foe in reach, somebody is struck.
pub proof fn the_first_of_the_nearest_foes_is_struck(
    s: Seq<Sighting>,
    owner: i32,
    x: Single,
    y: Single,
    reach: Single,
    j: int,
)
    ensures
        ({
            let foe = 0 <= j < s.len() && s[j].owner_id != owner && space::length_of(
                s[j].x.difference(x),
                s[j].y.difference(y),
            ).below(reach);
            match nearest_unit(s, s.len() as int, owner, x, y, reach) {
                Some(k) => {
                    let d = space::length_of(s[k].x.difference(x), s[k].y.difference(y));
                    &&& 0 <= k < s.len()
                    &&& s[k].owner_id != owner
                    &&& d.below(reach)
                    &&& foe && j < k ==> d.below(
                        space::length_of(s[j].x.difference(x), s[j].y.difference(y)),
                    )
                    &&& foe && j > k ==> d.at_most(
                        space::length_of(s[j].x.difference(x), s[j].y.difference(y)),
                    )
                },
                None => !foe,
            }
        }),
{
    lemma_nearest_unit(s, s.len() as int, owner, x, y, reach, j);
}

proof fn lemma_nearest_unit(
    s: Seq<Sighting>,
    n: int,
    owner: i32,
    x: Single,
    y: Single,
    reach: Single,
    j: int,
)
    requires
        0 <= n <= s.len(),
    ensures
        ({
            let foe = 0 <= j < n && unit_in_reach(s[j], owner, x, y, reach);
            match nearest_unit(s, n, owner, x, y, reach) {
                Some(k) => {
                    &&& 0 <= k < n
                    &&& unit_in_reach(s[k], owner, x, y, reach)
                    &&& foe && j < k ==> unit_distance(s[k], x, y).below(unit_distance(s[j], x, y))
                    &&& foe && j > k ==> unit_distance(s[k], x, y).at_most(
                        unit_distance(s[j], x, y),
                    )
                },
                None => !foe,
            }
        }),
    decreases n,
{
    if n > 0 {
        lemma_nearest_unit(s, n - 1, owner, x, y, reach, j);
    }
}

/// The same of the buildings of foes, by their middles.
pub proof fn the_first_of_the_nearest_buildings_is_struck(
    s: Seq<BuildingDTO>,
    owner: i32,
    x: Single,
    y: Single,
    reach: Single,
    j: int,
)
    ensures
        ({
            let foe = 0 <= j < s.len() && s[j].owner_id != owner && space::length_of(
                space::middle_at(s[j].tile_x).difference(x),
                space::middle_at(s[j].tile_y).difference(y),
            ).below(reach);
            match nearest_building(s, s.len() as int, owner, x, y, reach) {
                Some(k) => {
                    let d = space::length_of(
                        space::middle_at(s[k].tile_x).difference(x),
                        space::middle_at(s[k].tile_y).difference(y),
                    );
                    let e = space::length_of(
                        space::middle_at(s[j].tile_x).difference(x),
                        space::middle_at(s[j].tile_y).difference(y),
                    );
                    &&& 0 <= k < s.len()
                    &&& s[k].owner_id != owner
                    &&& d.below(reach)
                    &&& foe && j < k ==> d.below(e)
                    &&& foe && j > k ==> d.at_most(e)
                },
                None => !foe,
            }
        }),
{
    lemma_nearest_building(s, s.len() as int, owner, x, y, reach, j);
}

proof fn lemma_nearest_building(
    s: Seq<BuildingDTO>,
    n: int,
    owner: i32,
    x: Single,
    y: Single,
    reach: Single,
    j: int,
)
    requires
        0 <= n <= s.len(),
    ensures
        ({
            let foe = 0 <= j < n && building_in_reach(s[j], owner, x, y, reach);
            match nearest_building(s, n, owner, x, y, reach) {
                Some(k) => {
                    &&& 0 <= k < n
                    &&& building_in_reach(s[k], owner, x, y, reach)
                    &&& foe && j < k ==> building_distance(s[k], x, y).below(
                        building_distance(s[j], x, y),
                    )
                    &&& foe && j > k ==> building_distance(s[k], x, y).at_most(
                        building_distance(s[j], x, y),
                    )
                },
                None => !foe,
            }
        }),
    decreases n,
{
    if n > 0 {
        lemma_nearest_building(s, n - 1, owner, x, y, reach, j);
    }
}

/// Every warrior who sees a foe within 48 pixels strikes one blow, at a unit; every warrior who
/// sees none, but a building of a foe, strikes one blow at a building; and nobody else strikes.
/// One more unit in the list adds the blow of that unit, if it strikes, behind those of the others.
pub proof fn every_warrior_strikes_who_can(s: Seq<Sighting>, b: Seq<BuildingDTO>, n: int)
    requires
        0 < n <= s.len(),
    ensures
        ({
            let w = s[n - 1];
            let reach = Single::of_int(48);
            let u = nearest_unit(s, s.len() as int, w.owner_id, w.x, w.y, reach);
            let t = nearest_building(b, b.len() as int, w.owner_id, w.x, w.y, reach);
            let at_unit = w.kind == 1 && u is Some;
            let at_building = w.kind == 1 && u is None && t is Some;
            let us = unit_hits(s, n);
            let bs = building_hits(s, b, n);
            &&& us.len() == unit_hits(s, n - 1).len() + (if at_unit {
                1nat
            } else {
                0
            })
            &&& us.take(unit_hits(s, n - 1).len() as int) == unit_hits(s, n - 1)
            &&& at_unit ==> us.last().owner_id == s[u->0].owner_id && us.last().idx
                == s[u->0].unit_idx
            &&& bs.len() == building_hits(s, b, n - 1).len() + (if at_building {
                1nat
            } else {
                0
            })
            &&& bs.take(building_hits(s, b, n - 1).len() as int) == building_hits(s, b, n - 1)
            &&& at_building ==> bs.last().owner_id == b[t->0].owner_id && bs.last().idx == t->0
                as usize
        }),
{
    vstd::arithmetic::power2::lemma2_to64();
    crate::exact::lemma_small_pattern(48, 18, 131);
    let us = unit_hits(s, n - 1);
    let bs = building_hits(s, b, n - 1);
    assert(us.take(us.len() as int) =~= us);
    assert(bs.take(bs.len() as int) =~= bs);
    assert(unit_hits(s, n).take(us.len() as int) =~= us);
    assert(building_hits(s, b, n).take(bs.len() as int) =~= bs);
}

/// All warriors strike equally hard.
pub proof fn all_blows_are_alike(s: Seq<Sighting>, b: Seq<BuildingDTO>, n: int, i: int)
    requires
        0 <= n <= s.len(),
    ensures
        0 <= i < unit_hits(s, n).len() ==> unit_hits(s, n)[i].damage == Single::of_int(30).product(
            Single { bits: economy::TICK },
        ),
        0 <= i < building_hits(s, b, n).len() ==> building_hits(s, b, n)[i].damage
            == Single::of_int(30).product(Single { bits: economy::TICK }),
    decreases n,
{
    economy::amounts_are_whole();
    if n > 0 {
        all_blows_are_alike(s, b, n - 1, i);
    }
}

/// Every tower that sees a foe within 120 pixels shoots once, from its middle at where the nearest
/// is seen, and no other tower shoots.
pub proof fn every_tower_shoots_that_can(t: Seq<Tower>, s: Seq<Sighting>, n: int)
    requires
        0 < n <= t.len(),
    ensures
        ({
            let w = t[n - 1];
            let k = nearest_unit(s, s.len() as int, w.owner_id, w.x, w.y, Single::of_int(120));
            let before = shots(t, s, n - 1);
            let after = shots(t, s, n);
            &&& k is None ==> after == before
            &&& k is Some ==> after.len() == before.len() + 1 && after.take(before.len() as int)
                == before && after.last() == (Shot {
                x1: w.x,
                y1: w.y,
                x2: s[k->0].x,
                y2: s[k->0].y,
                owner_id: w.owner_id,
            })
        }),
{
    vstd::arithmetic::power2::lemma2_to64();
    crate::exact::lemma_small_pattern(120, 17, 132);
    let before = shots(t, s, n - 1);
    assert(before.take(before.len() as int) =~= before);
    assert(shots(t, s, n).take(before.len() as int) =~= before);
}

/// A shot takes 25 from the foe that is nearest to where it was aimed, if one is within 16 pixels,
/// and then harms no building; otherwise it takes 25 from the nearest building of a foe there, and
/// then harms no unit; otherwise it harms nothing.
pub proof fn a_shot_harms_one_thing(v: GlobalView, t: Shot)
    ensures
        ({
            let s = tick::sighted(v.units, v.units.len() as int);
            let reach = Single::of_int(16);
            let damage = Single::of_int(25);
            let u = nearest_unit(s, s.len() as int, t.owner_id, t.x2, t.y2, reach);
            let b = nearest_building(
                v.buildings,
                v.buildings.len() as int,
                t.owner_id,
                t.x2,
                t.y2,
                reach,
            );
            let w = v.shot_at(t);
            &&& u matches Some(k) ==> w == v.unit_struck(
                Hit { owner_id: s[k].owner_id, idx: s[k].unit_idx, damage },
            ) && w.buildings == v.buildings
            &&& u is None && b is Some ==> w == v.building_struck(b->0 as usize, damage) && w.units
                == v.units
            &&& u is None && b is None ==> w == v
            &&& v.shot_told(t).last() == (Notice::TowerShot {
                x1: t.x1,
                y1: t.y1,
                x2: t.x2,
                y2: t.y2,
            })
        }),
{
    vstd::arithmetic::power2::lemma2_to64();
    crate::exact::lemma_small_pattern(16, 19, 130);
    economy::amounts_are_whole();
}

/// Every army that is struck in a row of blows loses in each blow no more than one unit, and the
/// buildings are as they were; blows at buildings leave all armies as they were.
pub proof fn blows_at_units_spare_buildings(v: GlobalView, hits: Seq<Hit>, n: int)
    requires
        0 <= n <= hits.len(),
    ensures
        v.units_struck(hits, n).buildings == v.buildings,
        v.units_struck(hits, n).pop_cap == v.pop_cap,
        v.units_struck(hits, n).resources == v.resources,
        v.buildings_struck(hits, n).units == v.units,
        v.buildings_struck(hits, n).resources == v.resources,
        v.unit_wounds(hits, n).len() + v.unit_deaths(hits, n).len() <= n,
        v.building_wounds(hits, n).len() + v.building_deaths(hits, n).len() <= n,
    decreases n,
{
    if n > 0 {
        blows_at_units_spare_buildings(v, hits, n - 1);
    }
}

/// What a blow in a row of them did is told exactly if it did something: of whoever was hurt how
/// much strength they have left, of whoever was killed that they died.
pub proof fn every_blow_that_lands_is_told(v: GlobalView, hits: Seq<Hit>, n: int)
    requires
        0 < n <= hits.len(),
    ensures
        ({
            let before = v.units_struck(hits, n - 1);
            let h = hits[n - 1];
            let us = world::army(before.units, h.owner_id);
            let left = us[h.idx as int].hp.difference(h.damage);
            let there = h.idx < us.len();
            let dead = left.at_most(Single { bits: 0 });
            &&& v.units_struck(hits, n) == before.unit_struck(h)
            &&& v.unit_wounds(hits, n) == (if there && !dead {
                v.unit_wounds(hits, n - 1).push(
                    Notice::UnitHp { owner_id: h.owner_id, unit_idx: h.idx, hp: left },
                )
            } else {
                v.unit_wounds(hits, n - 1)
            })
            &&& v.unit_deaths(hits, n) == (if there && dead {
                v.unit_deaths(hits, n - 1).push(h)
            } else {
                v.unit_deaths(hits, n - 1)
            })
        }),
        ({
            let before = v.buildings_struck(hits, n - 1);
            let h = hits[n - 1];
            let b = before.buildings[h.idx as int];
            let left = b.hp.difference(h.damage);
            let there = h.idx < before.buildings.len();
            let dead = left.at_most(Single { bits: 0 });
            &&& v.buildings_struck(hits, n) == before.building_struck(h.idx, h.damage)
            &&& v.building_wounds(hits, n) == (if there && !dead {
                v.building_wounds(hits, n - 1).push(
                    Notice::BuildingHp { tile_x: b.tile_x, tile_y: b.tile_y, hp: left },
                )
            } else {
                v.building_wounds(hits, n - 1)
            })
            &&& v.building_deaths(hits, n) == (if there && dead {
                v.building_deaths(hits, n - 1).push(
                    Notice::BuildingDestroyed { tile_x: b.tile_x, tile_y: b.tile_y },
                )
            } else {
                v.building_deaths(hits, n - 1)
            })
        }),
{
}

/// A warrior who was only hurt is seen as a warrior in the same place in the next tick.
pub proof fn the_wounded_fight_on(v: GlobalView, h: Hit, a: int)
    requires
        v.wf(),
        0 <= a < v.units.len(),
        v.units[a].0 == h.owner_id,
        h.idx < v.units[a].1.len(),
        !v.units[a].1[h.idx as int].hp.difference(h.damage).at_most(Single { bits: 0 }),
    ensures
        ({
            let u = v.units[a].1[h.idx as int];
            let s = Sighting {
                owner_id: h.owner_id,
                unit_idx: h.idx,
                x: u.x,
                y: u.y,
                kind: u.kind,
            };
            let w = v.unit_struck(h);
            &&& tick::sighted(v.units, v.units.len() as int).contains(s)
            &&& tick::sighted(w.units, w.units.len() as int).contains(s)
        }),
{
    let w = v.unit_struck(h);
    world::every_army_is_found(v.units, h.owner_id, a);
    table::lemma_row(v.units, h.owner_id);
    table::every_row_is_found(v.units, h.owner_id, a);
    let r = table::row(v.units, h.owner_id);
    if r < a {
        assert(v.units[r].0 != v.units[a].0);
    }
    assert(r == a);
    blows_take_strength_and_nothing_else(v, h, h.owner_id, 0);
    table::rows_stay_apart(
        v.units,
        h.owner_id,
        army_after(world::army(v.units, h.owner_id), h.idx as int, unit_blow(v.units, h)),
    );
    world::every_army_is_found(w.units, h.owner_id, a);
    tick::everyone_is_seen(v.units, v.units.len() as int, a, h.idx as int);
    tick::everyone_is_seen(w.units, w.units.len() as int, a, h.idx as int);
}

/// Blows at the same index fall in the order in which they were struck.
pub proof fn blows_at_one_index_keep_their_order(s: Seq<Hit>, n: int, k: usize)
    requires
        0 <= n <= s.len(),
    ensures
        ranked(s, n).filter(|h: Hit| h.idx == k) == s.take(n).filter(|h: Hit| h.idx == k),
    decreases n,
{
    let p = |h: Hit| h.idx == k;
    reveal(Seq::filter);
    if n <= 0 {
        assert(s.take(n) =~= Seq::<Hit>::empty());
    } else {
        blows_at_one_index_keep_their_order(s, n - 1, k);
        later_ones_are_struck_first(s, n - 1);
        let t = ranked(s, n - 1);
        let h = s[n - 1];
        let r = rank(t, h.idx);
        lemma_rank(t, h.idx);
        let front = t.take(r);
        let back = t.skip(r);
        assert(t =~= front + back);
        assert(t.insert(r, h) =~= front.push(h) + back);
        Seq::filter_distributes_over_add(front, back, p);
        Seq::filter_distributes_over_add(front.push(h), back, p);
        assert(front.push(h).drop_last() =~= front);
        assert(s.take(n).drop_last() =~= s.take(n - 1));
        assert(s.take(n).last() == h);
        if h.idx == k {
            assert forall|i: int| 0 <= i < back.len() implies !p(#[trigger] back[i]) by {
                assert(back[i] == t[r + i]);
                assert(t[r].idx >= t[r + i].idx);
            }
            lemma_none_left(back, p);
            assert(front.filter(p) + back.filter(p) =~= front.filter(p));
            assert(front.push(h).filter(p) + back.filter(p) =~= front.filter(p).push(h));
        }
    }
}

proof fn lemma_none_left(s: Seq<Hit>, p: spec_fn(Hit) -> bool)
    requires
        forall|i: int| 0 <= i < s.len() ==> !p(#[trigger] s[i]),
    ensures
        s.filter(p) == Seq::<Hit>::empty(),
    decreases s.len(),
{
    reveal(Seq::filter);
    if s.len() > 0 {
        assert(!p(s[s.len() - 1]));
        assert forall|i: int| 0 <= i < s.drop_last().len() implies !p(
            #[trigger] s.drop_last()[i],
        ) by {
            assert(!p(s[i]));
        }
        lemma_none_left(s.drop_last(), p);
    }
}

/// Of the dead it is told who they were, in the order in which they died, and each death is counted
/// for the one whose unit it was.
pub proof fn the_dead_are_named(dead: Seq<Hit>, i: int)
    requires
        0 <= i < dead.len(),
    ensures
        obituaries(dead).len() == dead.len(),
        obituaries(dead)[i] == (Notice::UnitDied {
            owner_id: dead[i].owner_id,
            unit_idx: dead[i].idx,
        }),
        owners(dead).len() == dead.len(),
        owners(dead)[i] == dead[i].owner_id,
{
}

/// Of a shot it is told how much strength is left to what it hit, then that this is gone if nothing
/// is left, and last that the shot was fired. If it hit nothing, only the last.
pub proof fn shots_are_told(v: GlobalView, t: Shot)
    ensures
        ({
            let told = v.shot_told(t);
            let s = tick::sighted(v.units, v.units.len() as int);
            let reach = Single::of_int(16);
            let damage = Single::of_int(25);
            let u = nearest_unit(s, s.len() as int, t.owner_id, t.x2, t.y2, reach);
            let b = nearest_building(
                v.buildings,
                v.buildings.len() as int,
                t.owner_id,
                t.x2,
                t.y2,
                reach,
            );
            &&& u matches Some(k) ==> {
                let us = world::army(v.units, s[k].owner_id);
                let left = us[s[k].unit_idx as int].hp.difference(damage);
                s[k].unit_idx < us.len() ==> {
                    &&& told[0] == (Notice::UnitHp {
                        owner_id: s[k].owner_id,
                        unit_idx: s[k].unit_idx,
                        hp: left,
                    })
                    &&& left.at_most(Single { bits: 0 }) ==> told.len() == 3 && told[1] == (
                    Notice::UnitDied { owner_id: s[k].owner_id, unit_idx: s[k].unit_idx })
                    &&& !left.at_most(Single { bits: 0 }) ==> told.len() == 2
                }
            }
            &&& u is None && b is Some ==> {
                let c = v.buildings[b->0];
                let left = c.hp.difference(damage);
                &&& told[0] == (Notice::BuildingHp { tile_x: c.tile_x, tile_y: c.tile_y, hp: left })
                &&& left.at_most(Single { bits: 0 }) ==> told.len() == 3 && told[1] == (
                Notice::BuildingDestroyed { tile_x: c.tile_x, tile_y: c.tile_y })
                &&& !left.at_most(Single { bits: 0 }) ==> told.len() == 2
            }
            &&& u is None && b is None ==> told.len() == 1
        }),
{
    vstd::arithmetic::power2::lemma2_to64();
    crate::exact::lemma_small_pattern(16, 19, 130);
    economy::amounts_are_whole();
}

} // verus!
