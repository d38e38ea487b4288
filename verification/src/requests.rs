//! What players ask for, and what comes of it.
use crate::battle;
use crate::economy;
use crate::economy::{cost_for_kind, cost_of_warrior, cost_of_worker, Resources};
use crate::single::Single;
use crate::space;
use crate::space::{tile_edge, tile_middle};
use crate::table;
use crate::world;
use crate::world::{
    BuildTask, BuildingDTO, GatherTask, GlobalState, GlobalView, Notice, UnitDTO, UnitState,
    POP_FROM_HOUSE,
};
use crate::exact;
use vstd::prelude::*;

verus! {

broadcast use vstd::std_specs::hash::group_hash_axioms;

/// The population cap with one house more; it never exceeds what its type can hold.
pub open spec fn raised_cap(cap: i32) -> i32 {
    if cap < i32::MAX {
        (cap + POP_FROM_HOUSE) as i32
    } else {
        i32::MAX
    }
}

/// A building that was just begun.
pub open spec fn begun(player: i32, kind: u8, tx: i32, ty: i32) -> BuildTask {
    BuildTask { owner_id: player, kind, tile_x: tx, tile_y: ty, progress: Single { bits: 0 } }
}

/// A unit that joins an army, as it is listed.
pub open spec fn enlisted(player: i32, idx: usize, u: UnitState) -> UnitDTO {
    UnitDTO { owner_id: player, unit_idx: idx, x: u.x, y: u.y, kind: u.kind, hp: u.hp }
}

/// Where a warrior leaves the building in which they were trained: at its right edge, halfway
/// down.
pub open spec fn trained_at(b: BuildingDTO) -> UnitState {
    world::warrior_at(
        space::edge_at(b.tile_x).sum(Single { bits: space::TILE_WIDTH }),
        space::middle_at(b.tile_y),
    )
}

/// Where the worker with the given number starts: in rows of three below the town center.
pub open spec fn hired_at(cx: i32, cy: i32, idx: int) -> UnitState {
    let tile = Single { bits: space::TILE_WIDTH };
    world::worker_at(
        world::town_edge(cx).sum(Single::of_int(idx % 3).product(tile)),
        world::town_edge(cy).sum(Single { bits: world::TWO_TILES }).sum(
            Single::of_int(idx / 3).product(tile),
        ),
    )
}

impl GlobalView {
    /// The world after the player tried to pay.
    pub open spec fn billed(self, player: i32, cost: Resources) -> GlobalView {
        GlobalView {
            resources: self.resources.insert(player, self.purse(player).charged(cost)),
            ..self
        }
    }

    /// Whether the player gets the building: nothing is on the tile, and the player can pay.
    pub open spec fn may_build(self, player: i32, kind: u8, tx: i32, ty: i32) -> bool {
        !self.blocked(tx, ty) && self.purse(player).covers(economy::price(kind))
    }

    /// The world after the player asked for a building.
    pub open spec fn asked_to_build(self, player: i32, kind: u8, tx: i32, ty: i32) -> GlobalView {
        let paid = self.billed(player, economy::price(kind));
        if self.blocked(tx, ty) {
            self
        } else if !self.may_build(player, kind, tx, ty) {
            paid
        } else {
            GlobalView {
                pop_cap: if kind == economy::HOUSE {
                    self.pop_cap.insert(player, raised_cap(self.cap(player)))
                } else {
                    self.pop_cap
                },
                building_progress: table::with(
                    self.building_progress,
                    (tx, ty),
                    begun(player, kind, tx, ty),
                ),
                ..paid
            }
        }
    }

    /// Whether the player gets a warrior: the building is theirs, there is room for one more, and
    /// the player can pay.
    pub open spec fn may_train(self, player: i32, building: i32, kind: u8) -> bool {
        &&& self.could_train(player, building, kind)
        &&& self.purse(player).covers(economy::warrior_price())
    }

    /// Whether nothing but the price stands against a warrior.
    pub open spec fn could_train(self, player: i32, building: i32, kind: u8) -> bool {
        &&& kind == 1
        &&& self.building(player, building) is Some
        &&& self.used(player) < self.cap(player)
    }

    /// The world after a unit joined the army of the player.
    pub open spec fn reinforced(self, player: i32, u: UnitState) -> GlobalView {
        GlobalView {
            units: table::with(self.units, player, world::army(self.units, player).push(u)),
            ..self
        }
    }

    /// The world after the player asked for a warrior.
    pub open spec fn asked_to_train(self, player: i32, building: i32, kind: u8) -> GlobalView {
        let paid = self.billed(player, economy::warrior_price());
        if !self.could_train(player, building, kind) {
            self
        } else if !self.may_train(player, building, kind) {
            paid
        } else {
            paid.reinforced(player, trained_at(self.building(player, building)->0))
        }
    }

    /// The world where a player who is in it has an army, if only an empty one.
    pub open spec fn mustered(self, player: i32) -> GlobalView {
        if table::holds(self.players, player) && !table::holds(self.units, player) {
            GlobalView { units: table::with(self.units, player, Seq::empty()), ..self }
        } else {
            self
        }
    }

    /// The number that the next worker of the player gets. Somebody who is not in the world is
    /// taken to have none.
    pub open spec fn next_worker(self, player: i32) -> nat {
        if table::holds(self.players, player) {
            world::army(self.units, player).len()
        } else {
            0
        }
    }

    /// The chunk in which the player settled. Somebody who is not in the world is taken to live
    /// in the middle.
    pub open spec fn home(self, player: i32) -> (i32, i32) {
        if table::holds(self.players, player) {
            let p = table::under(self.players, player);
            (p.chunk_x, p.chunk_y)
        } else {
            (0, 0)
        }
    }

    /// The next worker of the player.
    pub open spec fn next_hired(self, player: i32) -> UnitState {
        hired_at(self.home(player).0, self.home(player).1, self.next_worker(player) as int)
    }

    /// Whether the player gets a worker: there is room for one more, and the player can pay.
    pub open spec fn may_hire(self, player: i32) -> bool {
        &&& (self.next_worker(player) as i32) < self.cap(player)
        &&& self.purse(player).covers(economy::worker_price())
    }

    /// The world after the player asked for a worker.
    pub open spec fn asked_to_hire(self, player: i32) -> GlobalView {
        let here = self.mustered(player);
        let paid = here.billed(player, economy::worker_price());
        if (self.next_worker(player) as i32) >= self.cap(player) {
            here
        } else if !self.may_hire(player) {
            paid
        } else {
            paid.reinforced(player, self.next_hired(player))
        }
    }

    /// The world after the first `n` of the listed units were told to gather.
    pub open spec fn gathering(self, player: i32, ids: Seq<usize>, task: GatherTask, n: int) -> Seq<
        ((i32, usize), GatherTask),
    >
        decreases n,
    {
        if n <= 0 {
            self.gather_tasks
        } else {
            table::with(
                self.gathering(player, ids, task, n - 1),
                (player, ids[n - 1]),
                task,
            )
        }
    }

    /// The armies after the player moved a unit; where there is no such unit, nothing moves.
    pub open spec fn moved(self, player: i32, idx: usize, x: Single, y: Single) -> GlobalView {
        let us = world::army(self.units, player);
        if idx < us.len() {
            GlobalView {
                units: table::with(
                    self.units,
                    player,
                    us.update(idx as int, UnitState { x, y, ..us[idx as int] }),
                ),
                ..self
            }
        } else {
            self
        }
    }
}

/// Paying keeps the world sound.
proof fn lemma_billed_wf(v: GlobalView, player: i32, cost: Resources)
    requires
        v.wf(),
        cost.finite(),
    ensures
        v.billed(player, cost).wf(),
{
    economy::prices_are_finite(0);
    economy::paying_leaves_no_debt(v.purse(player), cost);
}

impl GlobalState {
    /// Lets the player pay, if they can.
    fn bill(&mut self, player: i32, cost: Resources) -> (paid: bool)
        requires
            cost.finite(),
        ensures
            final(self)@ == old(self)@.billed(player, cost),
            paid == old(self)@.purse(player).covers(cost),
            old(self)@.wf() ==> final(self)@.wf(),
    {
        proof {
            if self@.wf() {
                lemma_billed_wf(self@, player, cost);
            }
        }
        let mut purse = self.purse(player);
        let paid: bool = purse.spend(&cost);
        self.resources.insert(player, purse);
        paid
    }

    /// Adds a unit to the army of the player.
    fn enlist(&mut self, player: i32, unit: UnitState)
        ensures
            final(self)@ == old(self)@.reinforced(player, unit),
            old(self)@.wf() ==> final(self)@.wf(),
    {
        self.units.push_unit(player, unit);
    }

    /// Begins a building for the player: the tile must be free and the price paid. A house raises
    /// the population cap at once.
    pub fn build(&mut self, player: i32, kind: u8, tx: i32, ty: i32) -> (r: Vec<Notice>)
        ensures
            final(self)@ == old(self)@.asked_to_build(player, kind, tx, ty),
            r@ == (if old(self)@.may_build(player, kind, tx, ty) {
                seq![
                    Notice::BuildProgress {
                        tile_x: tx,
                        tile_y: ty,
                        kind,
                        progress: Single { bits: 0 },
                    },
                    final(self)@.report(player),
                ]
            } else {
                seq![]
            }),
            old(self)@.wf() ==> final(self)@.wf(),
    {
        let mut out: Vec<Notice> = Vec::new();
        if self.is_tile_blocked(tx, ty) {
            return out;
        }
        proof {
            economy::prices_are_finite(kind);
        }
        if !self.bill(player, cost_for_kind(kind)) {
            return out;
        }
        if kind == economy::HOUSE {
            let cap: i32 = self.cap(player);
            let raised: i32 = if cap < i32::MAX { cap + POP_FROM_HOUSE } else { i32::MAX };
            self.pop_cap.insert(player, raised);
        }
        let progress = Single { bits: 0 };
        let task = BuildTask { owner_id: player, kind, tile_x: tx, tile_y: ty, progress };
        let ghost v = self@;
        self.building_progress.insert((tx, ty), task);
        proof {
            table::lemma_row(v.building_progress, (tx, ty));
            if v.wf() {
                let t = self@.building_progress;
                assert forall|i: int| 0 <= i < t.len() implies (#[trigger] t[i]).0 == (
                    t[i].1.tile_x,
                    t[i].1.tile_y,
                ) by {
                    if i < v.building_progress.len() && i != table::row(
                        v.building_progress,
                        (tx, ty),
                    ) {
                        assert(t[i] == v.building_progress[i]);
                    }
                }
            }
        }
        out.push(Notice::BuildProgress { tile_x: tx, tile_y: ty, kind, progress });
        out.push(self.report(player));
        out
    }

    /// Tells units of the player to gather.
    pub fn assign_gather(&mut self, player: i32, ids: &Vec<usize>, tx: i32, ty: i32, kind: u8)
        ensures
            final(self)@ == (GlobalView {
                gather_tasks: old(self)@.gathering(
                    player,
                    ids@,
                    GatherTask { kind, target_x: tx, target_y: ty },
                    ids@.len() as int,
                ),
                ..old(self)@
            }),
            old(self)@.wf() ==> final(self)@.wf(),
    {
        let ghost v = self@;
        let task = GatherTask { kind, target_x: tx, target_y: ty };
        let mut i: usize = 0;
        while i < ids.len()
            invariant
                i <= ids@.len(),
                self@ == (GlobalView {
                    gather_tasks: v.gathering(player, ids@, task, i as int),
                    ..v
                }),
                v.wf() ==> self@.wf(),
            decreases ids@.len() - i,
        {
            self.gather_tasks.insert((player, ids[i]), task);
            i = i + 1;
        }
    }

    /// Trains a warrior for the player in one of their buildings.
    pub fn train_unit(&mut self, player: i32, building: i32, kind: u8) -> (r: Vec<Notice>)
        ensures
            final(self)@ == old(self)@.asked_to_train(player, building, kind),
            r@ == (if old(self)@.may_train(player, building, kind) {
                seq![
                    Notice::UnitSpawned {
                        unit: enlisted(
                            player,
                            world::army(old(self)@.units, player).len() as usize,
                            trained_at(old(self)@.building(player, building)->0),
                        ),
                    },
                    final(self)@.report(player),
                ]
            } else {
                seq![]
            }),
            old(self)@.wf() ==> final(self)@.wf(),
    {
        let mut out: Vec<Notice> = Vec::new();
        if kind != 1 {
            return out;
        }
        let b = match self.find_building(player, building) {
            Some(b) => b,
            None => {
                return out;
            },
        };
        if self.used(player) >= self.cap(player) {
            return out;
        }
        proof {
            economy::prices_are_finite(0);
        }
        if !self.bill(player, cost_of_warrior()) {
            return out;
        }
        let unit = UnitState {
            x: tile_edge(b.tile_x).plus(Single { bits: space::TILE_WIDTH }),
            y: tile_middle(b.tile_y),
            hp: Single { bits: economy::WARRIOR_HP },
            kind: 1,
        };
        let idx: usize = self.units.count(player);
        self.enlist(player, unit);
        out.push(
            Notice::UnitSpawned {
                unit: UnitDTO {
                    owner_id: player,
                    unit_idx: idx,
                    x: unit.x,
                    y: unit.y,
                    kind: 1,
                    hp: unit.hp,
                },
            },
        );
        out.push(self.report(player));
        out
    }

    /// Hires a worker for the player.
    pub fn spawn_unit(&mut self, player: i32) -> (r: Vec<Notice>)
        ensures
            final(self)@ == old(self)@.asked_to_hire(player),
            r@ == (if old(self)@.may_hire(player) {
                seq![
                    Notice::UnitSpawned {
                        unit: enlisted(
                            player,
                            old(self)@.next_worker(player) as usize,
                            old(self)@.next_hired(player),
                        ),
                    },
                    final(self)@.report(player),
                ]
            } else {
                seq![]
            }),
            old(self)@.wf() ==> final(self)@.wf(),
    {
        let ghost v = self@;
        let mut out: Vec<Notice> = Vec::new();
        let mut cx: i32 = 0;
        let mut cy: i32 = 0;
        let mut idx: usize = 0;
        match self.players.get(player) {
            Some(p) => {
                cx = p.chunk_x;
                cy = p.chunk_y;
                idx = self.units.count(player);
                if self.units.position(player) == self.units.list.len() {
                    let none: Vec<UnitState> = Vec::new();
                    self.units.insert(player, none);
                    proof {
                        table::with_is_seen(v.units, player, Seq::<UnitState>::empty(), player);
                        assert(self@.units == table::with(
                            v.units,
                            player,
                            Seq::<UnitState>::empty(),
                        ));
                    }
                }
            },
            None => {},
        }
        assert(self@ == v.mustered(player));
        assert(self@.purse(player) == v.purse(player));
        if idx as i32 >= self.cap(player) {
            return out;
        }
        proof {
            economy::prices_are_finite(0);
        }
        if !self.bill(player, cost_of_worker()) {
            return out;
        }
        let tile = Single { bits: space::TILE_WIDTH };
        let col = Single::from_count((idx % 3) as u64);
        let row = Single::from_count((idx / 3) as u64);
        let unit = UnitState {
            x: GlobalState::town_world(cx).plus(col.times(tile)),
            y: GlobalState::town_world(cy).plus(Single { bits: world::TWO_TILES }).plus(
                row.times(tile),
            ),
            hp: Single { bits: economy::WORKER_HP },
            kind: 0,
        };
        self.enlist(player, unit);
        out.push(
            Notice::UnitSpawned {
                unit: UnitDTO {
                    owner_id: player,
                    unit_idx: idx,
                    x: unit.x,
                    y: unit.y,
                    kind: 0,
                    hp: unit.hp,
                },
            },
        );
        out.push(self.report(player));
        out
    }

    /// Moves a unit of the player, if there is such a unit.
    pub fn move_unit(&mut self, player: i32, idx: usize, x: Single, y: Single)
        ensures
            final(self)@ == old(self)@.moved(player, idx, x, y),
            old(self)@.wf() ==> final(self)@.wf(),
    {
        let ghost v = self@;
        proof {
            table::lemma_row(v.units, player);
            if v.wf() {
                table::rows_stay_apart(
                    v.units,
                    player,
                    world::army(v.units, player).update(
                        idx as int,
                        UnitState { x, y, ..world::army(v.units, player)[idx as int] },
                    ),
                );
            }
        }
        let i: usize = self.units.position(player);
        if i < self.units.list.len() {
            assert(v.units[i as int].1 == self.units.list@[i as int].units@);
            if idx < self.units.list[i].units.len() {
                let u = self.units.list[i].units[idx];
                self.units.set_unit(i, idx, UnitState { x, y, ..u });
                assert(self@ == v.moved(player, idx, x, y));
            }
        }
    }
}

/// The most units that are counted.
pub open spec fn countable(n: nat) -> bool {
    n < i32::MAX
}

/// Nobody outgrows their population cap: a player who asks for a worker or a warrior has
/// afterwards as many units as before, or no more than the cap allows.
pub proof fn nobody_outgrows_their_cap(v: GlobalView, player: i32, building: i32, kind: u8)
    requires
        countable(world::army(v.units, player).len()),
        table::holds(v.players, player),
    ensures
        ({
            let before = world::army(v.units, player).len();
            let hired = world::army(v.asked_to_hire(player).units, player).len();
            let trained = world::army(v.asked_to_train(player, building, kind).units, player).len();
            &&& hired == before || hired <= v.cap(player)
            &&& trained == before || trained <= v.cap(player)
        }),
{
    let m = v.mustered(player);
    table::with_is_seen(v.units, player, Seq::<UnitState>::empty(), player);
    assert(world::army(m.units, player) == world::army(v.units, player));
    let u = v.next_hired(player);
    table::with_is_seen(m.units, player, world::army(m.units, player).push(u), player);
    let w = trained_at(v.building(player, building)->0);
    table::with_is_seen(v.units, player, world::army(v.units, player).push(w), player);
}

/// What a player is refused costs them nothing: without the means, neither a building nor a unit
/// comes, and the purse stays as it was.
pub proof fn refusals_cost_nothing(v: GlobalView, player: i32, building: i32, kind: u8, tx: i32, ty: i32)
    ensures
        !v.may_build(player, kind, tx, ty) ==> ({
            let w = v.asked_to_build(player, kind, tx, ty);
            w.purse(player) == v.purse(player) && w.building_progress == v.building_progress
                && w.pop_cap == v.pop_cap
        }),
        !v.may_train(player, building, kind) ==> ({
            let w = v.asked_to_train(player, building, kind);
            w.purse(player) == v.purse(player) && w.units == v.units
        }),
        !v.may_hire(player) ==> ({
            let w = v.asked_to_hire(player);
            w.purse(player) == v.purse(player) && world::army(w.units, player) == world::army(
                v.units,
                player,
            )
        }),
{
    table::with_is_seen(v.units, player, Seq::<UnitState>::empty(), player);
}

/// A house that falls takes away the room that it gave.
pub proof fn a_lost_house_takes_its_room(cap: i32)
    requires
        world::DEFAULT_POP_CAP <= cap < i32::MAX,
    ensures
        battle::lowered(raised_cap(cap)) == cap,
{
}

/// Whether two worlds differ in nothing but the units and the goods of one player.
pub open spec fn alike_but_for(v: GlobalView, w: GlobalView, player: i32) -> bool {
    &&& w.next_id == v.next_id
    &&& w.players == v.players
    &&& w.tokens == v.tokens
    &&& w.pop_cap == v.pop_cap
    &&& w.building_progress == v.building_progress
    &&& w.gather_tasks == v.gather_tasks
    &&& w.buildings == v.buildings
    &&& forall|q: i32| q != player ==> #[trigger] world::army(w.units, q) == world::army(v.units, q)
    &&& forall|q: i32|
        q != player ==> (#[trigger] w.resources.contains_key(q) <==> v.resources.contains_key(q))
            && (v.resources.contains_key(q) ==> w.resources[q] == v.resources[q])
}

/// Whoever has a building of their own under the number, fewer units than their own cap allows,
/// and 20 gold and 40 food, gets a warrior for that price, who comes out at the right edge of the
/// building, halfway down, and that is all that changes. Whoever
/// has no room, no such building or not enough of either good gets none and pays nothing.
pub proof fn warriors_come_for_their_price(v: GlobalView, player: i32, building: i32, i: int)
    requires
        v.wf(),
        world::army(v.units, player).len() < i32::MAX,
    ensures
        ({
            let w = v.asked_to_train(player, building, 1);
            let before = world::army(v.units, player);
            let after = world::army(w.units, player);
            let goods = v.purse(player);
            let cap = if v.pop_cap.contains_key(player) {
                v.pop_cap[player] as int
            } else {
                5
            };
            let theirs = 0 <= i < v.buildings.len() && v.buildings[i].owner_id == player
                && v.buildings[i].id == building;
            let rich = Single::of_int(20).at_most(goods.gold) && Single::of_int(40).at_most(
                goods.food,
            );
            &&& alike_but_for(v, w, player)
            &&& theirs && before.len() < cap && rich ==> {
                &&& after.len() == before.len() + 1
                &&& after.drop_last() == before
                &&& after.last().kind == 1
                &&& after.last().hp == Single::of_int(120)
                &&& (forall|j: int|
                    0 <= j < i ==> (#[trigger] v.buildings[j]).owner_id != player
                        || v.buildings[j].id != building) ==> after.last().x == space::edge_at(
                    v.buildings[i].tile_x,
                ).sum(Single::of_int(16)) && after.last().y == space::middle_at(
                    v.buildings[i].tile_y,
                )
                &&& w.purse(player).gold == goods.gold.difference(Single::of_int(20))
                &&& w.purse(player).food == goods.food.difference(Single::of_int(40))
                &&& w.purse(player).wood == goods.wood
                &&& w.purse(player).stone == goods.stone
            }
            &&& before.len() >= cap || !rich ==> after == before && w.purse(player) == goods
            &&& (forall|j: int|
                0 <= j < v.buildings.len() ==> (#[trigger] v.buildings[j]).owner_id != player
                    || v.buildings[j].id != building) ==> w == v
        }),
{
    let u = trained_at(v.building(player, building)->0);
    let before = world::army(v.units, player);
    world::buildings_are_found_by_number(v, player, building, i);
    economy::prices_are_as_listed(1);
    economy::amounts_are_whole();
    economy::endurance_is_as_listed(0);
    economy::prices_are_finite(0);
    vstd::arithmetic::power2::lemma2_to64();
    exact::lemma_power(4);
    lemma_known_purse(v, player);
    exact::nothing_makes_no_difference(v.purse(player).wood);
    exact::nothing_makes_no_difference(v.purse(player).stone);
    assert(before.push(u).drop_last() =~= before);
    assert forall|q: i32| q != player implies #[trigger] world::army(
        table::with(v.units, player, before.push(u)),
        q,
    ) == world::army(v.units, q) by {
        table::with_is_seen(v.units, player, before.push(u), q);
    }
    table::with_is_seen(v.units, player, before.push(u), player);
    if v.building(player, building) is Some {
        let b = v.building(player, building)->0;
        let k = choose|k: int| 0 <= k < v.buildings.len() && v.buildings[k] == b;
        assert(v.buildings[k].owner_id == player && v.buildings[k].id == building);
    }
}

/// The goods of a player in a sound world are numbers that are not negative.
proof fn lemma_known_purse(v: GlobalView, player: i32)
    requires
        v.wf(),
    ensures
        v.purse(player).valid(),
{
    economy::prices_are_finite(0);
}

/// A request for a unit of another kind changes nothing.
pub proof fn only_warriors_are_trained(v: GlobalView, player: i32, building: i32, kind: u8)
    requires
        kind != 1,
    ensures
        v.asked_to_train(player, building, kind) == v,
        !v.may_train(player, building, kind),
{
}

/// A house more makes room for a unit more: with two worlds that differ in one house of the player,
/// who is in need of nothing else, the one that has it trains a warrior where the other has just no
/// room.
pub proof fn a_house_makes_room_for_one(v: GlobalView, player: i32, building: i32, tx: i32, ty: i32, i: int)
    requires
        v.wf(),
        0 <= i < v.buildings.len(),
        v.buildings[i].owner_id == player,
        v.buildings[i].id == building,
        world::army(v.units, player).len() == v.cap(player),
        v.cap(player) < i32::MAX - 1,
        v.may_build(player, economy::HOUSE, tx, ty),
        Single::of_int(20).at_most(v.purse(player).gold),
        Single::of_int(40).at_most(v.purse(player).food),
    ensures
        ({
            let w = v.asked_to_build(player, economy::HOUSE, tx, ty);
            &&& world::army(v.asked_to_train(player, building, 1).units, player).len()
                == world::army(v.units, player).len()
            &&& world::army(w.asked_to_train(player, building, 1).units, player).len()
                == world::army(v.units, player).len() + 1
        }),
{
    let w = v.asked_to_build(player, economy::HOUSE, tx, ty);
    economy::prices_are_as_listed(economy::HOUSE);
    economy::amounts_are_whole();
    economy::prices_are_finite(economy::HOUSE);
    lemma_known_purse(v, player);
    exact::nothing_makes_no_difference(v.purse(player).gold);
    exact::nothing_makes_no_difference(v.purse(player).food);
    exact::nothing_makes_no_difference(v.purse(player).stone);
    economy::paying_leaves_no_debt(v.purse(player), economy::price(economy::HOUSE));
    warriors_come_for_their_price(v, player, building, i);
    lemma_built_wf(v, player, economy::HOUSE, tx, ty);
    warriors_come_for_their_price(w, player, building, i);
}

proof fn lemma_built_wf(v: GlobalView, player: i32, kind: u8, tx: i32, ty: i32)
    requires
        v.wf(),
    ensures
        v.asked_to_build(player, kind, tx, ty).wf(),
{
    economy::prices_are_finite(kind);
    lemma_billed_wf(v, player, economy::price(kind));
    let t = begun(player, kind, tx, ty);
    table::rows_stay_apart(v.building_progress, (tx, ty), t);
    table::lemma_row(v.building_progress, (tx, ty));
    let s = table::with(v.building_progress, (tx, ty), t);
    assert forall|i: int| 0 <= i < s.len() implies (#[trigger] s[i]).0 == (
        s[i].1.tile_x,
        s[i].1.tile_y,
    ) by {
        if i < v.building_progress.len() && i != table::row(v.building_progress, (tx, ty)) {
            assert(s[i] == v.building_progress[i]);
        }
    }
}

/// A player in the world who has fewer units than their own cap allows and 50 food gets a worker
/// for that price, and that is all that changes. Without room or food they get none and pay
/// nothing.
pub proof fn workers_come_for_their_price(v: GlobalView, player: i32, i: int)
    requires
        v.wf(),
        world::army(v.units, player).len() < i32::MAX,
        0 <= i < v.players.len(),
        v.players[i].0 == player,
    ensures
        ({
            let w = v.asked_to_hire(player);
            let before = world::army(v.units, player);
            let after = world::army(w.units, player);
            let goods = v.purse(player);
            let cap = if v.pop_cap.contains_key(player) {
                v.pop_cap[player] as int
            } else {
                5
            };
            let rich = Single::of_int(50).at_most(goods.food);
            &&& alike_but_for(v, w, player)
            &&& before.len() < cap && rich ==> {
                &&& after.len() == before.len() + 1
                &&& after.drop_last() == before
                &&& after.last().kind == 0
                &&& after.last().hp == Single::of_int(50)
                &&& after.last() == hired_at(
                    v.players[i].1.chunk_x,
                    v.players[i].1.chunk_y,
                    before.len() as int,
                )
                &&& w.purse(player).food == goods.food.difference(Single::of_int(50))
                &&& w.purse(player).wood == goods.wood
                &&& w.purse(player).stone == goods.stone
                &&& w.purse(player).gold == goods.gold
            }
            &&& before.len() >= cap || !rich ==> after == before && w.purse(player) == goods
        }),
{
    table::every_row_is_found(v.players, player, i);
    economy::endurance_is_as_listed(0);
    let before = world::army(v.units, player);
    let m = v.mustered(player);
    let u = v.next_hired(player);
    economy::prices_are_as_listed(1);
    economy::amounts_are_whole();
    lemma_known_purse(v, player);
    exact::nothing_makes_no_difference(v.purse(player).wood);
    exact::nothing_makes_no_difference(v.purse(player).stone);
    exact::nothing_makes_no_difference(v.purse(player).gold);
    assert(before.push(u).drop_last() =~= before);
    table::with_is_seen(v.units, player, Seq::<UnitState>::empty(), player);
    assert(world::army(m.units, player) == before);
    table::with_is_seen(m.units, player, before.push(u), player);
    assert forall|q: i32| q != player implies #[trigger] world::army(m.units, q) == world::army(
        v.units,
        q,
    ) by {
        table::with_is_seen(v.units, player, Seq::<UnitState>::empty(), q);
    }
    assert forall|q: i32| q != player implies #[trigger] world::army(
        table::with(m.units, player, before.push(u)),
        q,
    ) == world::army(v.units, q) by {
        assert(world::army(m.units, q) == world::army(v.units, q));
        table::with_is_seen(m.units, player, before.push(u), q);
    }
}

/// Where a player may build is a tile on which no building and no unit stands, if they can pay the
/// listed price. They then pay it, the building is begun there for them, and a house raises their
/// cap by one. Otherwise they pay nothing and nothing is begun. Nobody else is touched.
pub proof fn buildings_are_begun_for_their_price(
    v: GlobalView,
    player: i32,
    kind: u8,
    tx: i32,
    ty: i32,
)
    requires
        v.wf(),
    ensures
        ({
            let w = v.asked_to_build(player, kind, tx, ty);
            let goods = v.purse(player);
            let (wood, stone, gold, food) = economy::listed_price(kind);
            let free = (forall|j: int|
                0 <= j < v.buildings.len() ==> (#[trigger] v.buildings[j]).tile_x != tx
                    || v.buildings[j].tile_y != ty) && (forall|b: int, j: int|
                0 <= b < v.units.len() && 0 <= j < v.units[b].1.len() ==> space::tile_of(
                    ((#[trigger] v.units[b].1[j]).x, v.units[b].1[j].y),
                ) != (tx, ty));
            let rich = Single::of_int(wood).at_most(goods.wood) && Single::of_int(stone).at_most(
                goods.stone,
            );
            let under_way = table::under(w.building_progress, (tx, ty));
            &&& w.units == v.units && w.buildings == v.buildings && w.players == v.players
                && w.tokens == v.tokens && w.gather_tasks == v.gather_tasks && w.next_id
                == v.next_id
            &&& free && rich ==> {
                &&& w.purse(player).wood == goods.wood.difference(Single::of_int(wood))
                &&& w.purse(player).stone == goods.stone.difference(Single::of_int(stone))
                &&& w.purse(player).gold == goods.gold
                &&& w.purse(player).food == goods.food
                &&& table::holds(w.building_progress, (tx, ty))
                &&& under_way.owner_id == player && under_way.kind == kind && under_way.tile_x == tx
                    && under_way.tile_y == ty && under_way.progress.bits == 0
                &&& kind == 3 && v.cap(player) < i32::MAX ==> w.cap(player) == v.cap(player) + 1
                &&& kind != 3 ==> w.cap(player) == v.cap(player)
            }
            &&& !free || !rich ==> {
                &&& w.purse(player) == goods
                &&& w.building_progress == v.building_progress
                &&& w.cap(player) == v.cap(player)
            }
            &&& forall|q: i32| #![trigger w.purse(q)]
                q != player ==> w.purse(q) == v.purse(q) && w.cap(q) == v.cap(q)
            &&& forall|t: (i32, i32)| #![trigger table::holds(w.building_progress, t)]
                t != (tx, ty) ==> table::holds(w.building_progress, t) == table::holds(
                    v.building_progress,
                    t,
                ) && (table::holds(v.building_progress, t) ==> table::under(w.building_progress, t)
                    == table::under(v.building_progress, t))
        }),
{
    economy::prices_are_as_listed(kind);
    economy::amounts_are_whole();
    lemma_known_purse(v, player);
    exact::nothing_makes_no_difference(v.purse(player).gold);
    exact::nothing_makes_no_difference(v.purse(player).food);
    let t = begun(player, kind, tx, ty);
    assert forall|k: (i32, i32)| true implies (#[trigger] table::holds(
        table::with(v.building_progress, (tx, ty), t),
        k,
    ) == (k == (tx, ty) || table::holds(v.building_progress, k))) && (k != (tx, ty)
        && table::holds(v.building_progress, k) ==> table::under(
        table::with(v.building_progress, (tx, ty), t),
        k,
    ) == table::under(v.building_progress, k)) by {
        table::with_is_seen(v.building_progress, (tx, ty), t, k);
    }
    table::with_is_seen(v.building_progress, (tx, ty), t, (tx, ty));
    if v.blocked(tx, ty) {
        if exists|i: int|
            0 <= i < v.buildings.len() && (#[trigger] v.buildings[i]).tile_x == tx
                && v.buildings[i].tile_y == ty {
        } else {
            let (a, k) = choose|a: int, k: int|
                0 <= a < v.units.len() && 0 <= k < v.units[a].1.len() && world::stands_on(
                    #[trigger] v.units[a].1[k],
                    tx,
                    ty,
                );
            assert(space::tile_of((v.units[a].1[k].x, v.units[a].1[k].y)) == (tx, ty));
        }
    } else {
        assert forall|b: int, j: int|
            0 <= b < v.units.len() && 0 <= j < v.units[b].1.len() implies space::tile_of(
            ((#[trigger] v.units[b].1[j]).x, v.units[b].1[j].y),
        ) != (tx, ty) by {
            assert(!world::stands_on(v.units[b].1[j], tx, ty));
        }
    }
}

/// Every listed unit gathers what it was told to, and no other unit is told anything.
pub proof fn those_who_are_told_gather(
    v: GlobalView,
    player: i32,
    ids: Seq<usize>,
    task: GatherTask,
    n: int,
    owner: i32,
    k: usize,
)
    requires
        0 <= n <= ids.len(),
    ensures
        ({
            let tasks = v.gathering(player, ids, task, n);
            let told = owner == player && ids.take(n).contains(k);
            &&& told ==> table::holds(tasks, (owner, k)) && table::under(tasks, (owner, k)) == task
            &&& !told ==> table::holds(tasks, (owner, k)) == table::holds(
                v.gather_tasks,
                (owner, k),
            ) && (table::holds(v.gather_tasks, (owner, k)) ==> table::under(tasks, (owner, k))
                == table::under(v.gather_tasks, (owner, k)))
        }),
    decreases n,
{
    if n > 0 {
        those_who_are_told_gather(v, player, ids, task, n - 1, owner, k);
        let before = v.gathering(player, ids, task, n - 1);
        table::with_is_seen(before, (player, ids[n - 1]), task, (owner, k));
        assert(ids.take(n) =~= ids.take(n - 1).push(ids[n - 1]));
        let front = ids.take(n - 1);
        let all = ids.take(n);
        if front.contains(k) {
            let j = choose|j: int| 0 <= j < front.len() && front[j] == k;
            assert(all[j] == k);
        }
        if ids[n - 1] == k {
            assert(ids.take(n)[n - 1] == k);
        }
        if ids.take(n).contains(k) && ids[n - 1] != k {
            let j = choose|j: int| 0 <= j < all.len() && all[j] == k;
            assert(front[j] == k);
        }
    }
}

/// A unit that is moved is where it was sent and is otherwise what it was. Nobody else moves, and
/// a unit that is not there moves nobody.
pub proof fn only_that_unit_moves(
    v: GlobalView,
    player: i32,
    idx: usize,
    x: Single,
    y: Single,
    owner: i32,
    k: int,
)
    ensures
        ({
            let w = v.moved(player, idx, x, y);
            let before = world::army(v.units, owner);
            let after = world::army(w.units, owner);
            &&& after.len() == before.len()
            &&& 0 <= k < before.len() && (owner != player || k != idx) ==> after[k] == before[k]
            &&& owner == player && k == idx && k < before.len() ==> after[k].x == x && after[k].y
                == y && after[k].hp == before[k].hp && after[k].kind == before[k].kind
            &&& w.resources == v.resources && w.pop_cap == v.pop_cap && w.buildings == v.buildings
                && w.players == v.players && w.tokens == v.tokens && w.building_progress
                == v.building_progress && w.gather_tasks == v.gather_tasks && w.next_id
                == v.next_id
        }),
{
    let us = world::army(v.units, player);
    if idx < us.len() {
        table::with_is_seen(
            v.units,
            player,
            us.update(idx as int, UnitState { x, y, ..us[idx as int] }),
            owner,
        );
    }
}

/// A warrior comes out at the right edge of the building in which they were trained, halfway down,
/// and a new worker stands in one of three columns below the town center of their own chunk: next
/// to each other until a row is full, then a tile further down.
pub proof fn newcomers_stand_where_they_should(b: BuildingDTO, cx: i32, cy: i32, idx: int)
    requires
        -0x8000 < b.tile_x < 0x8000,
        -0x8000 < b.tile_y < 0x8000,
        -0x400 < cx < 0x400,
        -0x400 < cy < 0x400,
        0 <= idx < 0x8000,
    ensures
        trained_at(b).x == Single::of_int(b.tile_x * 16 + 16),
        trained_at(b).y == Single::of_int(b.tile_y * 16 + 8),
        hired_at(cx, cy, idx).x == Single::of_int((cx * 32 + 16) * 16 + (idx % 3) * 16),
        hired_at(cx, cy, idx).y == Single::of_int((cy * 32 + 16) * 16 + 32 + (idx / 3) * 16),
{
    vstd::arithmetic::power2::lemma2_to64();
    exact::lemma_power(3);
    exact::lemma_power(4);
    exact::lemma_power(5);
    space::edges_are_exact(b.tile_x);
    space::edges_are_exact(b.tile_y);
    exact::small_sums_are_exact(b.tile_x * 16, 16);
    exact::small_sums_are_exact(b.tile_y * 16, 8);
    lemma_town_edge(cx);
    lemma_town_edge(cy);
    exact::small_products_are_exact(idx % 3, 16);
    exact::small_products_are_exact(idx / 3, 16);
    exact::small_sums_are_exact((cx * 32 + 16) * 16, (idx % 3) * 16);
    exact::small_sums_are_exact((cy * 32 + 16) * 16, 32);
    exact::small_sums_are_exact((cy * 32 + 16) * 16 + 32, (idx / 3) * 16);
}

proof fn lemma_town_edge(c: i32)
    requires
        -0x400 < c < 0x400,
    ensures
        world::town_edge(c) == Single::of_int((c * 32 + 16) * 16),
{
    vstd::arithmetic::power2::lemma2_to64();
    exact::lemma_power(5);
    exact::lemma_power(4);
    exact::small_products_are_exact(c as int, 32);
    exact::small_sums_are_exact(c * 32, 16);
    exact::small_products_are_exact(c * 32 + 16, 16);
}

/// Whatever comes is told, and nothing else: a warrior, a worker or a building under way is told of
/// exactly if there is one more than before, and what is told of a unit is what it is.
pub proof fn what_comes_is_told(
    v: GlobalView,
    player: i32,
    building: i32,
    kind: u8,
    tx: i32,
    ty: i32,
    idx: usize,
    u: UnitState,
)
    requires
        table::holds(v.players, player),
    ensures
        v.may_train(player, building, kind) <==> world::army(
            v.asked_to_train(player, building, kind).units,
            player,
        ).len() == world::army(v.units, player).len() + 1,
        v.may_hire(player) <==> world::army(v.asked_to_hire(player).units, player).len()
            == world::army(v.units, player).len() + 1,
        v.may_build(player, kind, tx, ty) ==> table::holds(
            v.asked_to_build(player, kind, tx, ty).building_progress,
            (tx, ty),
        ),
        !v.may_build(player, kind, tx, ty) ==> v.asked_to_build(
            player,
            kind,
            tx,
            ty,
        ).building_progress == v.building_progress,
        enlisted(player, idx, u).owner_id == player && enlisted(player, idx, u).unit_idx == idx
            && enlisted(player, idx, u).x == u.x && enlisted(player, idx, u).y == u.y && enlisted(
            player,
            idx,
            u,
        ).kind == u.kind && enlisted(player, idx, u).hp == u.hp,
{
    let before = world::army(v.units, player);
    let m = v.mustered(player);
    table::with_is_seen(v.units, player, Seq::<UnitState>::empty(), player);
    assert(world::army(m.units, player) == before);
    table::with_is_seen(m.units, player, before.push(v.next_hired(player)), player);
    table::with_is_seen(
        v.units,
        player,
        before.push(trained_at(v.building(player, building)->0)),
        player,
    );
    table::with_is_seen(
        v.building_progress,
        (tx, ty),
        begun(player, kind, tx, ty),
        (tx, ty),
    );
}

/// Somebody who is not in the world is served as if they lived in the middle of it and had no units:
/// as long as their cap allows any and they have 50 food, a worker comes to their army for that
/// price, first in the first row; otherwise nothing comes and nothing is paid.
pub proof fn strangers_are_served_in_the_middle(v: GlobalView, player: i32)
    requires
        v.wf(),
        forall|i: int| 0 <= i < v.players.len() ==> (#[trigger] v.players[i]).0 != player,
    ensures
        ({
            let w = v.asked_to_hire(player);
            let before = world::army(v.units, player);
            let after = world::army(w.units, player);
            let goods = v.purse(player);
            let served = v.cap(player) > 0 && Single::of_int(50).at_most(goods.food);
            &&& served ==> after == before.push(hired_at(0, 0, 0)) && w.purse(player).food
                == goods.food.difference(Single::of_int(50))
            &&& !served ==> after == before && w.purse(player) == goods
            &&& v.may_hire(player) == served
        }),
{
    table::every_row_is_found(v.players, player, 0);
    let before = world::army(v.units, player);
    economy::prices_are_as_listed(1);
    economy::amounts_are_whole();
    lemma_known_purse(v, player);
    table::with_is_seen(v.units, player, before.push(hired_at(0, 0, 0)), player);
}

} // verus!
