//! What the server knows of the world: who plays, what they own, what they build and gather.
use crate::economy;
use crate::economy::{default_pop_cap, default_resources, hp_for_kind, Resources};
use crate::single::Single;
use crate::space;
use crate::spiral;
use crate::table;
use crate::table::Table;
use std::collections::HashMap;
use vstd::prelude::*;

verus! {

broadcast use vstd::std_specs::hash::group_hash_axioms;

/// A player and the chunk in which they settled.
#[derive(Clone, Copy, Debug, PartialEq, Eq, Structural)]
pub struct PlayerInfo {
    pub id: i32,
    pub chunk_x: i32,
    pub chunk_y: i32,
}

/// A unit: 0 is a worker, 1 a warrior.
#[derive(Clone, Copy, Debug, PartialEq, Eq, Structural)]
pub struct UnitState {
    pub x: Single,
    pub y: Single,
    pub hp: Single,
    pub kind: u8,
}

/// A unit, with its owner and its place in their army.
#[derive(Clone, Copy, Debug, PartialEq, Eq, Structural)]
pub struct UnitDTO {
    pub owner_id: i32,
    pub unit_idx: usize,
    pub x: Single,
    pub y: Single,
    pub kind: u8,
    pub hp: Single,
}

/// A building, which fills one tile.
#[derive(Clone, Copy, Debug, PartialEq, Eq, Structural)]
pub struct BuildingDTO {
    pub id: i32,
    pub owner_id: i32,
    pub kind: u8,
    pub tile_x: i32,
    pub tile_y: i32,
    pub hp: Single,
}

/// A building under way.
#[derive(Clone, Copy, Debug, PartialEq, Eq, Structural)]
pub struct BuildTask {
    pub owner_id: i32,
    pub kind: u8,
    pub tile_x: i32,
    pub tile_y: i32,
    pub progress: Single,
}

/// What a unit gathers, and where.
#[derive(Clone, Copy, Debug, PartialEq, Eq, Structural)]
pub struct GatherTask {
    pub kind: u8,
    pub target_x: i32,
    pub target_y: i32,
}

/// What everyone who is connected is told.
#[derive(Clone, Copy, Debug, PartialEq, Eq, Structural)]
pub enum Notice {
    BuildProgress { tile_x: i32, tile_y: i32, kind: u8, progress: Single },
    BuildingSpawned { building: BuildingDTO },
    UnitSpawned { unit: UnitDTO },
    TowerShot { x1: Single, y1: Single, x2: Single, y2: Single },
    UnitDied { owner_id: i32, unit_idx: usize },
    BuildingDestroyed { tile_x: i32, tile_y: i32 },
    UnitHp { owner_id: i32, unit_idx: usize, hp: Single },
    BuildingHp { tile_x: i32, tile_y: i32, hp: Single },
    ResourceUpdate { player_id: i32, resources: Resources, pop_cap: i32, pop_used: i32 },
}

/// The units of one player.
pub struct Army {
    pub owner: i32,
    pub units: Vec<UnitState>,
}

/// The armies, in the order in which their owners came.
pub struct Armies {
    pub list: Vec<Army>,
}

impl View for Armies {
    type V = Seq<(i32, Seq<UnitState>)>;

    open spec fn view(&self) -> Seq<(i32, Seq<UnitState>)> {
        self.list@.map_values(|a: Army| (a.owner, a.units@))
    }
}

/// The units of a player, none if the player has no army.
pub open spec fn army(armies: Seq<(i32, Seq<UnitState>)>, owner: i32) -> Seq<UnitState> {
    table::under_or(armies, owner, Seq::empty())
}

impl Armies {
    /// No armies.
    pub fn new() -> (a: Armies)
        ensures
            a@ == Seq::<(i32, Seq<UnitState>)>::empty(),
    {
        Armies { list: Vec::new() }
    }

    /// The index of the army of the player, or the number of armies if there is none.
    pub fn position(&self, owner: i32) -> (i: usize)
        ensures
            i == table::row(self@, owner),
            i <= self@.len(),
    {
        let mut i: usize = 0;
        while i < self.list.len()
            invariant
                i <= self.list@.len(),
                forall|j: int| 0 <= j < i ==> (#[trigger] self@[j]).0 != owner,
            decreases self.list@.len() - i,
        {
            assert(self@[i as int].0 == self.list@[i as int].owner);
            if self.list[i].owner == owner {
                proof {
                    table::lemma_row_is(self@, owner, i as int);
                }
                return i;
            }
            i = i + 1;
        }
        proof {
            table::lemma_row_is(self@, owner, i as int);
        }
        i
    }

    /// The number of units of the player.
    pub fn count(&self, owner: i32) -> (n: usize)
        ensures
            n == army(self@, owner).len(),
    {
        let i: usize = self.position(owner);
        if i < self.list.len() {
            self.list[i].units.len()
        } else {
            0
        }
    }

    /// Gives the player these units, in place of those that they had.
    pub fn insert(&mut self, owner: i32, units: Vec<UnitState>)
        ensures
            final(self)@ == table::with(old(self)@, owner, units@),
            table::apart(old(self)@) ==> table::apart(final(self)@),
    {
        let ghost before = self@;
        proof {
            table::lemma_row(before, owner);
            if table::apart(before) {
                table::rows_stay_apart(before, owner, units@);
            }
        }
        let i: usize = self.position(owner);
        if i < self.list.len() {
            self.list.set(i, Army { owner, units });
        } else {
            self.list.push(Army { owner, units });
        }
        assert(self@ =~= table::with(before, owner, units@));
    }

    /// Takes the army of the player away.
    pub fn remove(&mut self, owner: i32)
        ensures
            final(self)@ == table::without(old(self)@, owner),
            table::apart(old(self)@) ==> table::apart(final(self)@),
    {
        let ghost before = self@;
        proof {
            if table::apart(before) {
                table::rows_stay_apart(before, owner, Seq::empty());
            }
        }
        let i: usize = self.position(owner);
        if i < self.list.len() {
            self.list.remove(i);
        }
        assert(self@ =~= table::without(before, owner));
    }

    /// Adds a unit to the army of the player, who may have none yet.
    pub fn push_unit(&mut self, owner: i32, unit: UnitState)
        ensures
            final(self)@ == table::with(
                old(self)@,
                owner,
                army(old(self)@, owner).push(unit),
            ),
            table::apart(old(self)@) ==> table::apart(final(self)@),
    {
        let ghost before = self@;
        let ghost after = army(before, owner).push(unit);
        proof {
            table::lemma_row(before, owner);
            if table::apart(before) {
                table::rows_stay_apart(before, owner, after);
            }
        }
        let i: usize = self.position(owner);
        if i < self.list.len() {
            assert(before[i as int] == (owner, self.list@[i as int].units@));
            self.list[i].units.push(unit);
            assert(self@[i as int].1 =~= after);
        } else {
            let mut units: Vec<UnitState> = Vec::new();
            units.push(unit);
            assert(units@ =~= after);
            self.list.push(Army { owner, units });
        }
        assert(self@ =~= table::with(before, owner, after));
    }

    /// Puts a unit in the place of another.
    pub fn set_unit(&mut self, i: usize, j: usize, unit: UnitState)
        requires
            i < old(self)@.len(),
            j < old(self)@[i as int].1.len(),
        ensures
            final(self)@ == old(self)@.update(
                i as int,
                (old(self)@[i as int].0, old(self)@[i as int].1.update(j as int, unit)),
            ),
    {
        let ghost before = self@;
        self.list[i].units.set(j, unit);
        assert(self@[i as int].1 =~= before[i as int].1.update(j as int, unit));
        assert(self@ =~= before.update(
            i as int,
            (before[i as int].0, before[i as int].1.update(j as int, unit)),
        ));
    }

    /// Takes a unit away; those behind it move up.
    pub fn remove_unit(&mut self, i: usize, j: usize)
        requires
            i < old(self)@.len(),
            j < old(self)@[i as int].1.len(),
        ensures
            final(self)@ == old(self)@.update(
                i as int,
                (old(self)@[i as int].0, old(self)@[i as int].1.remove(j as int)),
            ),
    {
        let ghost before = self@;
        self.list[i].units.remove(j);
        assert(self@[i as int].1 =~= before[i as int].1.remove(j as int));
        assert(self@ =~= before.update(
            i as int,
            (before[i as int].0, before[i as int].1.remove(j as int)),
        ));
    }
}

/// A token and the player who was given it.
pub struct Pass {
    pub token: String,
    pub player: i32,
}

/// The tokens that were given out.
pub struct Passes {
    pub list: Vec<Pass>,
}

impl View for Passes {
    type V = Seq<(Seq<char>, i32)>;

    open spec fn view(&self) -> Seq<(Seq<char>, i32)> {
        self.list@.map_values(|p: Pass| (p.token@, p.player))
    }
}

impl Passes {
    /// No passes.
    pub fn new() -> (p: Passes)
        ensures
            p@ == Seq::<(Seq<char>, i32)>::empty(),
    {
        Passes { list: Vec::new() }
    }

    /// The index of the row of the token, or the number of rows if it has none.
    pub fn position(&self, token: &String) -> (i: usize)
        ensures
            i == table::row(self@, token@),
            i <= self@.len(),
    {
        let mut i: usize = 0;
        while i < self.list.len()
            invariant
                i <= self.list@.len(),
                forall|j: int| 0 <= j < i ==> (#[trigger] self@[j]).0 != token@,
            decreases self.list@.len() - i,
        {
            assert(self@[i as int].0 == self.list@[i as int].token@);
            if self.list[i].token == *token {
                proof {
                    table::lemma_row_is(self@, token@, i as int);
                }
                return i;
            }
            i = i + 1;
        }
        proof {
            table::lemma_row_is(self@, token@, i as int);
        }
        i
    }

    /// The player who was given the token.
    pub fn get(&self, token: &String) -> (r: Option<i32>)
        ensures
            r == (if table::holds(self@, token@) {
                Some(table::under(self@, token@))
            } else {
                None
            }),
    {
        let i: usize = self.position(token);
        if i < self.list.len() {
            Some(self.list[i].player)
        } else {
            None
        }
    }

    /// Gives the token to the player.
    pub fn insert(&mut self, token: String, player: i32)
        ensures
            final(self)@ == table::with(old(self)@, token@, player),
            table::apart(old(self)@) ==> table::apart(final(self)@),
    {
        let ghost before = self@;
        let ghost t = token@;
        proof {
            table::lemma_row(before, t);
            if table::apart(before) {
                table::rows_stay_apart(before, t, player);
            }
        }
        let i: usize = self.position(&token);
        if i < self.list.len() {
            self.list.set(i, Pass { token, player });
        } else {
            self.list.push(Pass { token, player });
        }
        assert(self@ =~= table::with(before, t, player));
    }
}

/// All that the server knows of the world.
pub struct GlobalState {
    pub next_id: i32,
    pub players: Table<i32, PlayerInfo>,
    pub units: Armies,
    pub tokens: Passes,
    pub resources: HashMap<i32, Resources>,
    pub pop_cap: HashMap<i32, i32>,
    pub building_progress: Table<(i32, i32), BuildTask>,
    pub gather_tasks: Table<(i32, usize), GatherTask>,
    pub buildings: Vec<BuildingDTO>,
}

/// All that the server knows of the world.
#[verifier::ext_equal]
pub struct GlobalView {
    pub next_id: i32,
    pub players: Seq<(i32, PlayerInfo)>,
    pub units: Seq<(i32, Seq<UnitState>)>,
    pub tokens: Seq<(Seq<char>, i32)>,
    pub resources: Map<i32, Resources>,
    pub pop_cap: Map<i32, i32>,
    pub building_progress: Seq<((i32, i32), BuildTask)>,
    pub gather_tasks: Seq<((i32, usize), GatherTask)>,
    pub buildings: Seq<BuildingDTO>,
}

impl View for GlobalState {
    type V = GlobalView;

    open spec fn view(&self) -> GlobalView {
        GlobalView {
            next_id: self.next_id,
            players: self.players@,
            units: self.units@,
            tokens: self.tokens@,
            resources: self.resources@,
            pop_cap: self.pop_cap@,
            building_progress: self.building_progress@,
            gather_tasks: self.gather_tasks@,
            buildings: self.buildings@,
        }
    }
}

/// The population cap that one house adds.
pub const POP_FROM_HOUSE: i32 = 1;

/// The population cap of a player without houses.
pub const DEFAULT_POP_CAP: i32 = 5;

/// The tile of the town center along one axis of a chunk: the one in the middle.
pub open spec fn town_tile(c: int) -> int {
    c * 32 + 16
}

/// Whether the tile of the town center has a coordinate.
pub open spec fn settled(c: int) -> bool {
    i32::MIN <= town_tile(c) <= i32::MAX
}

/// The left or upper edge of the town center of a chunk, along one axis.
pub open spec fn town_edge(c: i32) -> Single {
    Single::of_int(c as int).product(Single { bits: crate::terrain::THIRTY_TWO }).sum(
        Single { bits: space::TILE_WIDTH },
    ).product(Single { bits: space::TILE_WIDTH })
}

/// The patterns of 24 and 32: one and a half tiles, and two.
pub const ONE_AND_A_HALF_TILES: u32 = 0x41c0_0000;

pub const TWO_TILES: u32 = 0x4200_0000;

/// The two workers with whom a player starts, side by side below their town center.
pub open spec fn first_units(cx: i32, cy: i32) -> Seq<UnitState> {
    let y = town_edge(cy).sum(Single { bits: TWO_TILES });
    seq![
        worker_at(town_edge(cx).sum(Single { bits: space::HALF_TILE }), y),
        worker_at(town_edge(cx).sum(Single { bits: ONE_AND_A_HALF_TILES }), y),
    ]
}

/// A fresh worker.
pub open spec fn worker_at(x: Single, y: Single) -> UnitState {
    UnitState { x, y, hp: Single { bits: economy::WORKER_HP }, kind: 0 }
}

/// A fresh warrior.
pub open spec fn warrior_at(x: Single, y: Single) -> UnitState {
    UnitState { x, y, hp: Single { bits: economy::WARRIOR_HP }, kind: 1 }
}

/// Whether a building is the one with the given owner and number.
pub open spec fn is_building(b: BuildingDTO, owner: i32, id: i32) -> bool {
    b.owner_id == owner && b.id == id
}

impl GlobalView {
    /// Whether the tables have no double keys and agree with their keys, every player who was
    /// given a token has a number that was given out, nobody is in debt, and no population cap
    /// is below the least.
    pub open spec fn wf(self) -> bool {
        &&& self.next_id >= 1
        &&& table::apart(self.players)
        &&& table::apart(self.units)
        &&& table::apart(self.tokens)
        &&& table::apart(self.building_progress)
        &&& table::apart(self.gather_tasks)
        &&& filed_by_id(self.players)
        &&& given_out(self.tokens, self.next_id)
        &&& filed_by_tile(self.building_progress)
        &&& solvent(self.resources)
        &&& housed_enough(self.pop_cap)
    }

    /// What the player has, or what a new player would have.
    pub open spec fn purse(self, owner: i32) -> Resources {
        if self.resources.contains_key(owner) {
            self.resources[owner]
        } else {
            economy::starting_purse()
        }
    }

    /// The population that the player can support.
    pub open spec fn cap(self, owner: i32) -> i32 {
        if self.pop_cap.contains_key(owner) {
            self.pop_cap[owner]
        } else {
            DEFAULT_POP_CAP
        }
    }

    /// The population of the player.
    pub open spec fn used(self, owner: i32) -> i32 {
        army(self.units, owner).len() as i32
    }

    /// What is told of the economy of the player.
    pub open spec fn report(self, owner: i32) -> Notice {
        Notice::ResourceUpdate {
            player_id: owner,
            resources: self.purse(owner),
            pop_cap: self.cap(owner),
            pop_used: self.used(owner),
        }
    }

    /// Whether a building stands on the tile, or some unit.
    pub open spec fn blocked(self, tx: i32, ty: i32) -> bool {
        ||| exists|i: int|
            0 <= i < self.buildings.len() && (#[trigger] self.buildings[i]).tile_x == tx
                && self.buildings[i].tile_y == ty
        ||| exists|i: int, j: int|
            0 <= i < self.units.len() && 0 <= j < self.units[i].1.len() && stands_on(
                #[trigger] self.units[i].1[j],
                tx,
                ty,
            )
    }

    /// The first building with the owner and the number.
    pub open spec fn building(self, owner: i32, id: i32) -> Option<BuildingDTO> {
        if exists|i: int| #[trigger] self.first_building(owner, id, i) {
            Some(self.buildings[choose|i: int| #[trigger] self.first_building(owner, id, i)])
        } else {
            None
        }
    }

    /// Whether the building with this index is the first that the owner has under the number.
    pub open spec fn first_building(self, owner: i32, id: i32, i: int) -> bool {
        &&& 0 <= i < self.buildings.len()
        &&& is_building(self.buildings[i], owner, id)
        &&& forall|j: int| 0 <= j < i ==> !is_building(#[trigger] self.buildings[j], owner, id)
    }
}

/// Whether every player is filed under their number.
pub open spec fn filed_by_id(players: Seq<(i32, PlayerInfo)>) -> bool {
    forall|i: int| 0 <= i < players.len() ==> (#[trigger] players[i]).0 == players[i].1.id
}

/// Whether every player who has a token has a number below the next.
pub open spec fn given_out(tokens: Seq<(Seq<char>, i32)>, next_id: i32) -> bool {
    forall|i: int| 0 <= i < tokens.len() ==> 1 <= (#[trigger] tokens[i]).1 < next_id
}

/// Whether every building under way is filed under its tile.
pub open spec fn filed_by_tile(tasks: Seq<((i32, i32), BuildTask)>) -> bool {
    forall|i: int|
        0 <= i < tasks.len() ==> (#[trigger] tasks[i]).0 == (tasks[i].1.tile_x, tasks[i].1.tile_y)
}

/// Whether nobody is in debt.
pub open spec fn solvent(resources: Map<i32, Resources>) -> bool {
    forall|p: i32| resources.contains_key(p) ==> (#[trigger] resources[p]).valid()
}

/// Whether no population cap is below the least.
pub open spec fn housed_enough(pop_cap: Map<i32, i32>) -> bool {
    forall|p: i32| pop_cap.contains_key(p) ==> #[trigger] pop_cap[p] >= DEFAULT_POP_CAP
}

/// Whether the unit stands on the tile.
pub open spec fn stands_on(u: UnitState, tx: i32, ty: i32) -> bool {
    space::tile_at(u.x) == tx && space::tile_at(u.y) == ty
}

impl GlobalState {
    /// A world without players.
    pub fn new() -> (g: GlobalState)
        ensures
            g@.wf(),
            g@ == (GlobalView {
                next_id: 1,
                players: Seq::empty(),
                units: Seq::empty(),
                tokens: Seq::empty(),
                resources: Map::empty(),
                pop_cap: Map::empty(),
                building_progress: Seq::empty(),
                gather_tasks: Seq::empty(),
                buildings: Seq::empty(),
            }),
    {
        GlobalState {
            next_id: 1,
            players: Table::new(),
            units: Armies::new(),
            tokens: Passes::new(),
            resources: HashMap::new(),
            pop_cap: HashMap::new(),
            building_progress: Table::new(),
            gather_tasks: Table::new(),
            buildings: Vec::new(),
        }
    }

    /// Where the player with the given number settles.
    pub fn assign_next_position(n: i32) -> (r: (i32, i32))
        requires
            n >= 0,
        ensures
            (r.0 as int, r.1 as int) == spiral::spiral(n as int),
    {
        spiral::assign_next_position(n)
    }

    /// The two workers with whom a player starts.
    pub fn spawn_units(cx: i32, cy: i32) -> (units: Vec<UnitState>)
        ensures
            units@ == first_units(cx, cy),
    {
        let x = GlobalState::town_world(cx);
        let y = GlobalState::town_world(cy).plus(Single { bits: TWO_TILES });
        let hp = Single { bits: economy::WORKER_HP };
        let mut units: Vec<UnitState> = Vec::new();
        units.push(UnitState { x: x.plus(Single { bits: space::HALF_TILE }), y, hp, kind: 0 });
        units.push(UnitState { x: x.plus(Single { bits: ONE_AND_A_HALF_TILES }), y, hp, kind: 0 });
        assert(units@ =~= first_units(cx, cy));
        units
    }

    /// The left or upper edge of the town center of a chunk, along one axis.
    pub fn town_world(c: i32) -> (e: Single)
        ensures
            e == town_edge(c),
    {
        Single::from_i32(c).times(Single { bits: crate::terrain::THIRTY_TWO }).plus(
            Single { bits: space::TILE_WIDTH },
        ).times(Single { bits: space::TILE_WIDTH })
    }

    /// The first building with the owner and the number.
    pub fn find_building(&self, owner: i32, id: i32) -> (r: Option<BuildingDTO>)
        ensures
            r == self@.building(owner, id),
    {
        let mut i: usize = 0;
        while i < self.buildings.len()
            invariant
                i <= self.buildings@.len(),
                forall|j: int|
                    0 <= j < i ==> !is_building(#[trigger] self.buildings@[j], owner, id),
            decreases self.buildings@.len() - i,
        {
            if self.buildings[i].owner_id == owner && self.buildings[i].id == id {
                proof {
                    assert(self@.first_building(owner, id, i as int));
                    let k = choose|k: int| #[trigger] self@.first_building(owner, id, k);
                    assert(self@.first_building(owner, id, k));
                    assert(is_building(self.buildings@[k], owner, id));
                    assert(k == i);
                }
                return Some(self.buildings[i]);
            }
            i = i + 1;
        }
        None
    }

    /// Whether a building stands on the tile, or some unit.
    pub fn is_tile_blocked(&self, tx: i32, ty: i32) -> (r: bool)
        ensures
            r == self@.blocked(tx, ty),
    {
        let mut i: usize = 0;
        while i < self.buildings.len()
            invariant
                i <= self.buildings@.len(),
                forall|j: int|
                    0 <= j < i ==> !((#[trigger] self.buildings@[j]).tile_x == tx
                        && self.buildings@[j].tile_y == ty),
            decreases self.buildings@.len() - i,
        {
            if self.buildings[i].tile_x == tx && self.buildings[i].tile_y == ty {
                assert(self@.buildings[i as int].tile_x == tx);
                return true;
            }
            i = i + 1;
        }
        let mut a: usize = 0;
        while a < self.units.list.len()
            invariant
                a <= self.units.list@.len(),
                forall|i: int, j: int|
                    0 <= i < a && 0 <= j < self@.units[i].1.len() ==> !stands_on(
                        #[trigger] self@.units[i].1[j],
                        tx,
                        ty,
                    ),
            decreases self.units.list@.len() - a,
        {
            let us = &self.units.list[a].units;
            assert(us@ == self@.units[a as int].1);
            let mut k: usize = 0;
            while k < us.len()
                invariant
                    a < self.units.list@.len(),
                    k <= us@.len(),
                    us@ == self@.units[a as int].1,
                    forall|j: int| 0 <= j < k ==> !stands_on(#[trigger] us@[j], tx, ty),
                decreases us@.len() - k,
            {
                if space::tile_coordinate(us[k].x) == tx && space::tile_coordinate(us[k].y) == ty {
                    assert(stands_on(self@.units[a as int].1[k as int], tx, ty));
                    return true;
                }
                k = k + 1;
            }
            a = a + 1;
        }
        false
    }

    /// What the player has, or what a new player would have.
    pub fn purse(&self, owner: i32) -> (r: Resources)
        ensures
            r == self@.purse(owner),
    {
        match self.resources.get(&owner) {
            Some(r) => *r,
            None => default_resources(),
        }
    }

    /// The population that the player can support.
    pub fn cap(&self, owner: i32) -> (c: i32)
        ensures
            c == self@.cap(owner),
    {
        match self.pop_cap.get(&owner) {
            Some(c) => *c,
            None => default_pop_cap(),
        }
    }

    /// The population of the player.
    pub fn used(&self, owner: i32) -> (n: i32)
        ensures
            n == self@.used(owner),
    {
        self.units.count(owner) as i32
    }

    /// What is told of the economy of the player.
    pub fn report(&self, owner: i32) -> (n: Notice)
        ensures
            n == self@.report(owner),
    {
        Notice::ResourceUpdate {
            player_id: owner,
            resources: self.purse(owner),
            pop_cap: self.cap(owner),
            pop_used: self.used(owner),
        }
    }
}

/// A new building on a tile, unharmed.
pub open spec fn raised(id: i32, owner_id: i32, kind: u8, tile_x: i32, tile_y: i32) -> BuildingDTO {
    BuildingDTO { id, owner_id, kind, tile_x, tile_y, hp: economy::endurance(kind) }
}

/// A new building on a tile, unharmed.
pub fn raise(id: i32, owner_id: i32, kind: u8, tile_x: i32, tile_y: i32) -> (b: BuildingDTO)
    ensures
        b == raised(id, owner_id, kind, tile_x, tile_y),
{
    BuildingDTO { id, owner_id, kind, tile_x, tile_y, hp: hp_for_kind(kind) }
}

/// The army of a player is what stands in their row, wherever that is; whoever has no row has no
/// units.
pub proof fn every_army_is_found(armies: Seq<(i32, Seq<UnitState>)>, owner: i32, i: int)
    requires
        table::apart(armies),
    ensures
        0 <= i < armies.len() && armies[i].0 == owner ==> army(armies, owner) == armies[i].1,
        (forall|j: int| 0 <= j < armies.len() ==> (#[trigger] armies[j]).0 != owner) ==> army(
            armies,
            owner,
        ) == Seq::<UnitState>::empty(),
{
    table::every_row_is_found(armies, owner, i);
}

/// What is told of the economy of a player is what they have: their own goods, their own cap and
/// the number of their own units. Whoever is new has room for five and what new players get.
pub proof fn reports_are_true(v: GlobalView, owner: i32)
    requires
        army(v.units, owner).len() <= i32::MAX,
    ensures
        v.report(owner) matches Notice::ResourceUpdate {
            player_id,
            resources,
            pop_cap,
            pop_used,
        } && {
            &&& player_id == owner
            &&& pop_used == army(v.units, owner).len()
            &&& resources == (if v.resources.contains_key(owner) {
                v.resources[owner]
            } else {
                economy::starting_purse()
            })
            &&& pop_cap == (if v.pop_cap.contains_key(owner) {
                v.pop_cap[owner]
            } else {
                5i32
            })
        },
{
}

/// Nothing can be built where a building stands, whatever it is and whoever owns it, or where a
/// unit stands, whoever owns it. Everywhere else nothing is in the way.
pub proof fn what_stands_there_is_in_the_way(v: GlobalView, tx: i32, ty: i32, i: int, a: int, k: int)
    ensures
        0 <= i < v.buildings.len() && v.buildings[i].tile_x == tx && v.buildings[i].tile_y == ty
            ==> v.blocked(tx, ty),
        0 <= a < v.units.len() && 0 <= k < v.units[a].1.len() && space::tile_of(
            (v.units[a].1[k].x, v.units[a].1[k].y),
        ) == (tx, ty) ==> v.blocked(tx, ty),
        (forall|j: int|
            0 <= j < v.buildings.len() ==> (#[trigger] v.buildings[j]).tile_x != tx
                || v.buildings[j].tile_y != ty) && (forall|b: int, j: int|
            0 <= b < v.units.len() && 0 <= j < v.units[b].1.len() ==> space::tile_of(
                ((#[trigger] v.units[b].1[j]).x, v.units[b].1[j].y),
            ) != (tx, ty)) ==> !v.blocked(tx, ty),
{
    if 0 <= a < v.units.len() && 0 <= k < v.units[a].1.len() && space::tile_of(
        (v.units[a].1[k].x, v.units[a].1[k].y),
    ) == (tx, ty) {
        assert(stands_on(v.units[a].1[k], tx, ty));
    }
}

/// A building is found by its owner and its number, whatever it is and wherever it stands: there
/// is one exactly if some building has both, and the one that is found has both.
pub proof fn buildings_are_found_by_number(v: GlobalView, owner: i32, id: i32, i: int)
    ensures
        0 <= i < v.buildings.len() && v.buildings[i].owner_id == owner && v.buildings[i].id == id
            ==> v.building(owner, id) is Some,
        v.building(owner, id) matches Some(b) ==> b.owner_id == owner && b.id == id
            && v.buildings.contains(b),
        0 <= i < v.buildings.len() && v.buildings[i].owner_id == owner && v.buildings[i].id == id && (
        forall|j: int|
            0 <= j < i ==> (#[trigger] v.buildings[j]).owner_id != owner || v.buildings[j].id != id)
            ==> v.building(owner, id) == Some(v.buildings[i]),
    decreases i,
{
    if 0 <= i < v.buildings.len() && v.buildings[i].owner_id == owner && v.buildings[i].id == id {
        lemma_some_building(v, owner, id, i);
    }
    if exists|j: int| #[trigger] v.first_building(owner, id, j) {
        let j = choose|j: int| #[trigger] v.first_building(owner, id, j);
        assert(v.first_building(owner, id, j));
        assert(v.buildings.contains(v.buildings[j]));
        if 0 <= i < v.buildings.len() && v.buildings[i].owner_id == owner && v.buildings[i].id == id
            && (forall|k: int|
            0 <= k < i ==> (#[trigger] v.buildings[k]).owner_id != owner || v.buildings[k].id
                != id) {
            assert(is_building(v.buildings[j], owner, id));
            assert(is_building(v.buildings[i], owner, id));
            assert(i == j);
        }
    }
}

proof fn lemma_some_building(v: GlobalView, owner: i32, id: i32, i: int)
    requires
        0 <= i < v.buildings.len(),
        is_building(v.buildings[i], owner, id),
    ensures
        exists|j: int| #[trigger] v.first_building(owner, id, j),
    decreases i,
{
    if v.first_building(owner, id, i) {
    } else {
        let j = choose|j: int| 0 <= j < i && is_building(#[trigger] v.buildings[j], owner, id);
        lemma_some_building(v, owner, id, j);
    }
}

/// A new building stands where it was asked for, is what was asked for and belongs to who asked;
/// a new worker and a new warrior are where they should be.
pub proof fn new_ones_are_as_ordered(
    id: i32,
    owner: i32,
    kind: u8,
    tx: i32,
    ty: i32,
    x: Single,
    y: Single,
)
    ensures
        ({
            let b = raised(id, owner, kind, tx, ty);
            b.id == id && b.owner_id == owner && b.kind == kind && b.tile_x == tx && b.tile_y == ty
                && b.hp == economy::endurance(kind)
        }),
        worker_at(x, y).kind == 0 && worker_at(x, y).x == x && worker_at(x, y).y == y,
        warrior_at(x, y).kind == 1 && warrior_at(x, y).x == x && warrior_at(x, y).y == y,
        worker_at(x, y).hp.below(warrior_at(x, y).hp),
{
}

} // verus!
