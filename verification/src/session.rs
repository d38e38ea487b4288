//! How players come into the world, and how they leave it.
use crate::chance;
use crate::chance::{fresh_token, new_building_id};
use crate::economy;
use crate::economy::default_pop_cap;
use crate::exact;
use crate::single::Single;
use crate::space;
use crate::spiral;
use crate::table;
use crate::terrain;
use crate::world;
use crate::world::{
    raise, BuildingDTO, GlobalState, GlobalView, PlayerInfo, UnitDTO, UnitState, DEFAULT_POP_CAP,
    POP_FROM_HOUSE,
};
use vstd::prelude::*;

verus! {

broadcast use vstd::std_specs::hash::group_hash_axioms;

/// A player who was let in: who they are, where they settled, and the token by which they are
/// known again.
pub struct Joined {
    pub player_id: i32,
    pub chunk_x: i32,
    pub chunk_y: i32,
    pub token: String,
}

impl GlobalView {
    /// The player who was given the token.
    pub open spec fn known(self, token: Option<Seq<char>>) -> Option<i32> {
        match token {
            Some(t) => if table::holds(self.tokens, t) {
                Some(table::under(self.tokens, t))
            } else {
                None
            },
            None => None,
        }
    }

    /// The world after somebody who is not known was given a token.
    pub open spec fn registered(self, fresh: Seq<char>) -> GlobalView {
        GlobalView {
            next_id: (self.next_id + 1) as i32,
            tokens: table::with(self.tokens, fresh, self.next_id),
            ..self
        }
    }
}

/// The text of an optional token.
pub open spec fn text(token: Option<String>) -> Option<Seq<char>> {
    match token {
        Some(t) => Some(t@),
        None => None,
    }
}

/// Whoever comes back with the token that they were given is the same player in the same chunk,
/// as long as the token was not given out again.
pub proof fn a_token_brings_a_player_back(v: GlobalView, t: Seq<char>, u: Seq<char>)
    requires
        v.wf(),
        u != t,
    ensures
        v.registered(t).known(Some(t)) == Some(v.next_id),
        v.registered(t).registered(u).known(Some(t)) == Some(v.next_id),
{
    table::with_is_seen(v.tokens, t, v.next_id, t);
    table::with_is_seen(v.registered(t).tokens, u, v.registered(t).next_id, t);
}

/// Two players who were let in one after the other are different players, and they settle in
/// different chunks.
pub proof fn newcomers_are_new(v: GlobalView, t: Seq<char>)
    requires
        v.wf(),
        v.next_id < i32::MAX,
    ensures
        v.registered(t).wf(),
        v.registered(t).next_id != v.next_id,
        spiral::spiral(v.registered(t).next_id as int) != spiral::spiral(v.next_id as int),
        forall|u: Seq<char>| v.known(Some(u)) is Some ==> v.known(Some(u)) != Some(v.next_id),
{
    table::rows_stay_apart(v.tokens, t, v.next_id);
    table::lemma_row(v.tokens, t);
    let w = v.registered(t);
    assert forall|i: int| 0 <= i < w.tokens.len() implies 1 <= (#[trigger] w.tokens[i]).1
        < w.next_id by {
        if i < v.tokens.len() && i != table::row(v.tokens, t) {
            assert(w.tokens[i] == v.tokens[i]);
        }
    }
    assert forall|u: Seq<char>| v.known(Some(u)) is Some implies v.known(Some(u)) != Some(
        v.next_id,
    ) by {
        table::lemma_row(v.tokens, u);
        assert(v.tokens[table::row(v.tokens, u)].1 < v.next_id);
    }
    if spiral::spiral(w.next_id as int) == spiral::spiral(v.next_id as int) {
        spiral::spiral_keeps_players_apart(w.next_id as int, v.next_id as int);
    }
}

impl GlobalState {
    /// The player who was given the token.
    pub fn known(&self, token: &Option<String>) -> (r: Option<i32>)
        ensures
            r == self@.known(text(*token)),
    {
        match token {
            Some(t) => self.tokens.get(t),
            None => None,
        }
    }

    /// Lets somebody in: the player whom the token names, or else a new one, who is given the
    /// fresh token.
    pub fn join_with(&mut self, token: Option<String>, fresh: String) -> (j: Joined)
        requires
            old(self)@.wf(),
            old(self)@.known(text(token)) is None ==> old(self)@.next_id < i32::MAX,
        ensures
            final(self)@.wf(),
            match old(self)@.known(text(token)) {
                Some(id) => {
                    &&& final(self)@ == old(self)@
                    &&& j.player_id == id
                    &&& Some(j.token@) == text(token)
                },
                None => {
                    &&& final(self)@ == old(self)@.registered(fresh@)
                    &&& j.player_id == old(self)@.next_id
                    &&& j.token@ == fresh@
                },
            },
            (j.chunk_x as int, j.chunk_y as int) == spiral::spiral(j.player_id as int),
    {
        match self.known(&token) {
            Some(id) => {
                let t = match token {
                    Some(t) => t,
                    None => fresh,
                };
                proof {
                    table::lemma_row(self@.tokens, t@);
                    assert(self@.tokens[table::row(self@.tokens, t@)].1 == id);
                }
                let (chunk_x, chunk_y) = GlobalState::assign_next_position(id);
                Joined { player_id: id, chunk_x, chunk_y, token: t }
            },
            None => {
                proof {
                    newcomers_are_new(self@, fresh@);
                }
                let id: i32 = self.next_id;
                self.next_id = self.next_id + 1;
                let (chunk_x, chunk_y) = GlobalState::assign_next_position(id);
                self.tokens.insert(fresh.clone(), id);
                Joined { player_id: id, chunk_x, chunk_y, token: fresh }
            },
        }
    }

    /// Lets somebody in: the player whom the token names, or else a new one with a new token.
    pub fn join(&mut self, token: Option<String>) -> (j: Joined)
        requires
            old(self)@.wf(),
            old(self)@.known(text(token)) is None ==> old(self)@.next_id < i32::MAX,
        ensures
            final(self)@.wf(),
            match old(self)@.known(text(token)) {
                Some(id) => {
                    &&& final(self)@ == old(self)@
                    &&& j.player_id == id
                    &&& Some(j.token@) == text(token)
                },
                None => {
                    &&& final(self)@ == old(self)@.registered(j.token@)
                    &&& j.player_id == old(self)@.next_id
                    &&& chance::is_token(j.token@)
                },
            },
            (j.chunk_x as int, j.chunk_y as int) == spiral::spiral(j.player_id as int),
    {
        let fresh = match self.known(&token) {
            Some(_) => String::new(),
            None => fresh_token(),
        };
        self.join_with(token, fresh)
    }
}

/// Where the next player settles, where so many have settled before.
pub fn settle_after(count: i64) -> (r: (i32, i32))
    requires
        0 <= count < i32::MAX,
    ensures
        (r.0 as int, r.1 as int) == spiral::spiral(count + 1),
{
    GlobalState::assign_next_position(count as i32 + 1)
}

/// A new player who is kept in the store: where they settle, and their token.
pub fn new_stored_player(count: i64) -> (r: (i32, i32, String))
    requires
        0 <= count < i32::MAX,
    ensures
        (r.0 as int, r.1 as int) == spiral::spiral(count + 1),
        chance::is_token(r.2@),
{
    let token = fresh_token();
    let (cx, cy) = settle_after(count);
    (cx, cy, token)
}

/// The units of a player who is kept in the store: workers where the store has them, or the two
/// first ones where it has none.
pub open spec fn restored(rows: Seq<(Single, Single)>, cx: i32, cy: i32) -> Seq<UnitState> {
    if rows.len() == 0 {
        world::first_units(cx, cy)
    } else {
        Seq::new(rows.len(), |i: int| world::worker_at(rows[i].0, rows[i].1))
    }
}

/// The units of a player who is kept in the store.
pub fn restore_units(rows: &Vec<(Single, Single)>, cx: i32, cy: i32) -> (units: Vec<UnitState>)
    ensures
        units@ == restored(rows@, cx, cy),
{
    if rows.len() == 0 {
        return GlobalState::spawn_units(cx, cy);
    }
    let mut units: Vec<UnitState> = Vec::new();
    let mut i: usize = 0;
    while i < rows.len()
        invariant
            i <= rows@.len(),
            units@ == Seq::new(i as nat, |k: int| world::worker_at(rows@[k].0, rows@[k].1)),
        decreases rows@.len() - i,
    {
        let (x, y) = rows[i];
        units.push(UnitState { x, y, hp: Single { bits: economy::WORKER_HP }, kind: 0 });
        i = i + 1;
        assert(units@ =~= Seq::new(
            i as nat,
            |k: int| world::worker_at(rows@[k].0, rows@[k].1),
        ));
    }
    units
}

/// A unit that is kept in the store.
pub fn stored_unit(owner_id: i32, unit_idx: i32, x: Single, y: Single) -> (u: UnitDTO)
    ensures
        u == (UnitDTO {
            owner_id,
            unit_idx: unit_idx as usize,
            x,
            y,
            kind: 0,
            hp: Single { bits: economy::WORKER_HP },
        }),
{
    UnitDTO {
        owner_id,
        unit_idx: unit_idx as usize,
        x,
        y,
        kind: 0,
        hp: Single { bits: economy::WORKER_HP },
    }
}

/// A building that is kept in the store, unharmed.
pub fn stored_building(id: i32, owner_id: i32, kind: i32, tile_x: i32, tile_y: i32) -> (b:
    BuildingDTO)
    ensures
        b == world::raised(id, owner_id, kind as u8, tile_x, tile_y),
{
    raise(id, owner_id, kind as u8, tile_x, tile_y)
}

/// Whether the player has a town center.
pub open spec fn has_town(buildings: Seq<BuildingDTO>, player: i32) -> bool {
    exists|i: int|
        0 <= i < buildings.len() && (#[trigger] buildings[i]).owner_id == player
            && buildings[i].kind == economy::TOWN_CENTER
}

/// The town center of a player, in the middle of their chunk.
pub open spec fn town(id: i32, player: i32, cx: i32, cy: i32) -> BuildingDTO {
    world::raised(
        id,
        player,
        economy::TOWN_CENTER,
        world::town_tile(cx as int) as i32,
        world::town_tile(cy as int) as i32,
    )
}

/// Whether the player has a town center.
pub fn has_town_center(buildings: &Vec<BuildingDTO>, player: i32) -> (r: bool)
    ensures
        r == has_town(buildings@, player),
{
    let mut i: usize = 0;
    while i < buildings.len()
        invariant
            i <= buildings@.len(),
            forall|k: int|
                0 <= k < i ==> !((#[trigger] buildings@[k]).owner_id == player
                    && buildings@[k].kind == economy::TOWN_CENTER),
        decreases buildings@.len() - i,
    {
        if buildings[i].owner_id == player && buildings[i].kind == economy::TOWN_CENTER {
            return true;
        }
        i = i + 1;
    }
    false
}

/// The town center of a player, in the middle of their chunk.
pub fn town_center(id: i32, player: i32, cx: i32, cy: i32) -> (b: BuildingDTO)
    requires
        world::settled(cx as int),
        world::settled(cy as int),
    ensures
        b == town(id, player, cx, cy),
{
    raise(id, player, economy::TOWN_CENTER, cx * 32 + 16, cy * 32 + 16)
}

/// Every place on the spiral has room for a town center.
pub proof fn newcomers_have_room(n: i32)
    requires
        n >= 0,
    ensures
        world::settled(spiral::spiral(n as int).0),
        world::settled(spiral::spiral(n as int).1),
{
    spiral::spiral_stays_near(n as int);
}

/// Where the left or upper edge of a town center is.
proof fn lemma_town_edge(c: i32)
    requires
        -25000 < c < 25000,
    ensures
        world::town_edge(c) == Single::of_int(world::town_tile(c as int) * 16),
{
    vstd::arithmetic::power2::lemma2_to64();
    exact::lemma_power(5);
    exact::lemma_power(4);
    exact::small_products_are_exact(c as int, 32);
    exact::small_sums_are_exact(c * 32, 16);
    exact::small_products_are_exact(c * 32 + 16, 16);
}

/// The workers with whom a player starts stand in the clearing around their town center, side by
/// side two tiles below it.
pub proof fn first_workers_stand_in_the_clearing(n: i32, cx: i32, cy: i32)
    requires
        n >= 0,
        (cx as int, cy as int) == spiral::spiral(n as int),
    ensures
        ({
            let units = world::first_units(cx, cy);
            let a = space::tile_of((units[0].x, units[0].y));
            let b = space::tile_of((units[1].x, units[1].y));
            &&& a.0 == world::town_tile(cx as int) && a.1 == world::town_tile(cy as int) + 2
            &&& b.0 == a.0 + 1 && b.1 == a.1
            &&& terrain::in_clearing(a.0 as int % 32, a.1 as int % 32)
            &&& terrain::in_clearing(b.0 as int % 32, b.1 as int % 32)
        }),
{
    spiral::spiral_stays_near(n as int);
    lemma_town_edge(cx);
    lemma_town_edge(cy);
    vstd::arithmetic::power2::lemma2_to64();
    exact::lemma_power(3);
    exact::lemma_power(5);
    lemma_twenty_four();
    let x = world::town_tile(cx as int) * 16;
    let y = world::town_tile(cy as int) * 16;
    exact::small_sums_are_exact(x, 8);
    exact::small_sums_are_exact(x, 24);
    exact::small_sums_are_exact(y, 32);
    space::tiles_have_16_pixels_a_side(x + 8);
    space::tiles_have_16_pixels_a_side(x + 24);
    space::tiles_have_16_pixels_a_side(y + 32);
}

/// The pattern of 24.
proof fn lemma_twenty_four()
    ensures
        Single::of_int(24) == (Single { bits: world::ONE_AND_A_HALF_TILES }),
{
    vstd::arithmetic::power2::lemma2_to64();
    exact::lemma_small_pattern(24, 19, 130);
}

impl GlobalView {
    /// The world when the player has come in. In the store are the units given, if there is a
    /// store; without one, a player who has no units gets the first two. The town center gets the
    /// given number if the player has none yet.
    pub open spec fn entered(
        self,
        player: i32,
        cx: i32,
        cy: i32,
        stored: Option<Seq<UnitState>>,
        id: i32,
    ) -> GlobalView {
        GlobalView {
            players: table::with(
                self.players,
                player,
                PlayerInfo { id: player, chunk_x: cx, chunk_y: cy },
            ),
            resources: self.resources.insert(player, self.purse(player)),
            pop_cap: self.pop_cap.insert(player, self.cap(player)),
            units: match stored {
                Some(units) => table::with(self.units, player, units),
                None => if table::holds(self.units, player) {
                    self.units
                } else {
                    table::with(self.units, player, world::first_units(cx, cy))
                },
            },
            buildings: if has_town(self.buildings, player) {
                self.buildings
            } else {
                self.buildings.push(town(id, player, cx, cy))
            },
            ..self
        }
    }
}

impl GlobalView {
    /// The world with the buildings of the store, if there is a store and the world has none yet.
    /// Those of the world know what harm was done to them.
    pub open spec fn stocked(self, stored: Option<Seq<BuildingDTO>>) -> GlobalView {
        match stored {
            Some(buildings) => if self.buildings.len() == 0 {
                GlobalView { buildings, ..self }
            } else {
                self
            },
            None => self,
        }
    }

    /// The world with the population cap of the player set by their houses.
    pub open spec fn counted(self, player: i32) -> GlobalView {
        GlobalView {
            pop_cap: self.pop_cap.insert(
                player,
                housed(houses(self.buildings, player, self.buildings.len() as int)),
            ),
            ..self
        }
    }

    /// The world when the player has come in: first it takes over what the store has, then the
    /// player enters, then their houses are counted.
    pub open spec fn come_in(
        self,
        player: i32,
        cx: i32,
        cy: i32,
        units: Option<Seq<UnitState>>,
        stored: Option<Seq<BuildingDTO>>,
        id: i32,
    ) -> GlobalView {
        self.stocked(stored).entered(player, cx, cy, units, id).counted(player)
    }
}

impl GlobalView {
    /// The world without a player and their units. What else they have stays.
    pub open spec fn left_by(self, player: i32) -> GlobalView {
        GlobalView {
            players: table::without(self.players, player),
            units: table::without(self.units, player),
            ..self
        }
    }
}

/// Whoever is in the world has a town center.
pub proof fn everyone_has_a_town_center(
    v: GlobalView,
    player: i32,
    cx: i32,
    cy: i32,
    units: Option<Seq<UnitState>>,
    stored: Option<Seq<BuildingDTO>>,
    id: i32,
)
    ensures
        has_town(v.entered(player, cx, cy, units, id).buildings, player),
        has_town(v.come_in(player, cx, cy, units, stored, id).buildings, player),
{
    lemma_enters_with_town(v, player, cx, cy, units, id);
    lemma_enters_with_town(v.stocked(stored), player, cx, cy, units, id);
}

proof fn lemma_enters_with_town(
    v: GlobalView,
    player: i32,
    cx: i32,
    cy: i32,
    units: Option<Seq<UnitState>>,
    id: i32,
)
    ensures
        has_town(v.entered(player, cx, cy, units, id).buildings, player),
{
    if !has_town(v.buildings, player) {
        let b = v.buildings.push(town(id, player, cx, cy));
        assert(b[v.buildings.len() as int].owner_id == player);
    }
}

/// The first to come into a world with a store finds there every building of the store, as it was
/// kept. Their own houses among them count, and with a town center among them they get no other.
pub proof fn stored_buildings_are_found(
    v: GlobalView,
    player: i32,
    cx: i32,
    cy: i32,
    units: Option<Seq<UnitState>>,
    stored: Seq<BuildingDTO>,
    id: i32,
)
    requires
        v.buildings.len() == 0,
    ensures
        ({
            let w = v.come_in(player, cx, cy, units, Some(stored), id);
            &&& stored.is_prefix_of(w.buildings)
            &&& has_town(stored, player) ==> w.buildings == stored
            &&& w.cap(player) == housed(houses(stored, player, stored.len() as int))
        }),
{
    if !has_town(stored, player) {
        let all = stored.push(town(id, player, cx, cy));
        assert(stored =~= all.subrange(0, stored.len() as int));
        lemma_houses_same(stored, all, player, stored.len() as int);
    }
}

proof fn lemma_houses_same(a: Seq<BuildingDTO>, b: Seq<BuildingDTO>, player: i32, n: int)
    requires
        n <= a.len(),
        a.is_prefix_of(b),
    ensures
        houses(a, player, n) == houses(b, player, n),
    decreases n,
{
    if n > 0 {
        lemma_houses_same(a, b, player, n - 1);
        assert(a[n - 1] == b.subrange(0, a.len() as int)[n - 1]);
    }
}

/// Whoever leaves and comes back finds their goods and their buildings as they were, whatever the
/// store has, and a population cap that their houses account for.
pub proof fn returning_players_keep_their_goods(
    v: GlobalView,
    player: i32,
    cx: i32,
    cy: i32,
    units: Option<Seq<UnitState>>,
    stored: Option<Seq<BuildingDTO>>,
    id: i32,
)
    requires
        has_town(v.buildings, player),
    ensures
        ({
            let w = v.left_by(player).entered(player, cx, cy, units, id);
            &&& w.purse(player) == v.purse(player)
            &&& w.cap(player) == v.cap(player)
            &&& w.buildings == v.buildings
        }),
        ({
            let w = v.left_by(player).come_in(player, cx, cy, units, stored, id);
            &&& w.purse(player) == v.purse(player)
            &&& w.cap(player) == housed(houses(v.buildings, player, v.buildings.len() as int))
            &&& w.buildings == v.buildings
        }),
{
}

/// The units of an optional list.
pub open spec fn listed(units: Option<Vec<UnitState>>) -> Option<Seq<UnitState>> {
    match units {
        Some(u) => Some(u@),
        None => None,
    }
}

/// The buildings of an optional list.
pub open spec fn kept(buildings: Option<Vec<BuildingDTO>>) -> Option<Seq<BuildingDTO>> {
    match buildings {
        Some(b) => Some(b@),
        None => None,
    }
}

impl GlobalState {
    /// Brings a player into the world; a new town center gets the given number.
    pub fn enter_with(
        &mut self,
        player: i32,
        cx: i32,
        cy: i32,
        stored: Option<Vec<UnitState>>,
        id: i32,
    )
        requires
            !has_town(old(self)@.buildings, player) ==> world::settled(cx as int)
                && world::settled(cy as int),
        ensures
            final(self)@ == old(self)@.entered(player, cx, cy, listed(stored), id),
            old(self)@.wf() ==> final(self)@.wf(),
    {
        let ghost v = self@;
        proof {
            economy::prices_are_finite(0);
            table::lemma_row(v.players, player);
        }
        let info = PlayerInfo { id: player, chunk_x: cx, chunk_y: cy };
        self.players.insert(player, info);
        proof {
            if v.wf() {
                let t = self@.players;
                assert forall|i: int| 0 <= i < t.len() implies (#[trigger] t[i]).0 == t[i].1.id by {
                    if i < v.players.len() && i != table::row(v.players, player) {
                        assert(t[i] == v.players[i]);
                    }
                }
            }
        }
        let purse = self.purse(player);
        self.resources.insert(player, purse);
        let cap: i32 = self.cap(player);
        self.pop_cap.insert(player, cap);
        match stored {
            Some(units) => {
                self.units.insert(player, units);
            },
            None => {
                if self.units.position(player) == self.units.list.len() {
                    self.units.insert(player, GlobalState::spawn_units(cx, cy));
                }
            },
        }
        if !has_town_center(&self.buildings, player) {
            self.buildings.push(town_center(id, player, cx, cy));
        }
        assert(self@ =~= v.entered(player, cx, cy, listed(stored), id));
    }

    /// Takes over the buildings of the store, if there is a store and the world has none yet.
    fn stock(&mut self, stored: Option<Vec<BuildingDTO>>)
        ensures
            final(self)@ == old(self)@.stocked(kept(stored)),
            old(self)@.wf() ==> final(self)@.wf(),
    {
        match stored {
            Some(buildings) => {
                if self.buildings.len() == 0 {
                    self.buildings = buildings;
                }
            },
            None => {},
        }
    }

    /// Lets a player come in from whatever the store has of their units and of all buildings, and
    /// gives the buildings that they are shown. A new town center gets the given number.
    pub fn come_in_with(
        &mut self,
        player: i32,
        cx: i32,
        cy: i32,
        units: Option<Vec<UnitState>>,
        stored: Option<Vec<BuildingDTO>>,
        id: i32,
    ) -> (shown: Vec<BuildingDTO>)
        requires
            !has_town(old(self)@.stocked(kept(stored)).buildings, player) ==> world::settled(
                cx as int,
            ) && world::settled(cy as int),
        ensures
            final(self)@ == old(self)@.come_in(player, cx, cy, listed(units), kept(stored), id),
            shown@ == final(self)@.buildings,
            old(self)@.wf() ==> final(self)@.wf(),
    {
        self.stock(stored);
        self.enter_with(player, cx, cy, units, id);
        self.settle_pop_cap(player);
        self.all_buildings()
    }

    /// Lets a player come in from whatever the store has of their units and of all buildings, and
    /// gives the buildings that they are shown.
    pub fn come_in(
        &mut self,
        player: i32,
        cx: i32,
        cy: i32,
        units: Option<Vec<UnitState>>,
        stored: Option<Vec<BuildingDTO>>,
    ) -> (shown: Vec<BuildingDTO>)
        requires
            !has_town(old(self)@.stocked(kept(stored)).buildings, player) ==> world::settled(
                cx as int,
            ) && world::settled(cy as int),
        ensures
            exists|id: i32|
                (id >= 0 || id == i32::MIN) && final(self)@ == #[trigger] old(self)@.come_in(
                    player,
                    cx,
                    cy,
                    listed(units),
                    kept(stored),
                    id,
                ),
            shown@ == final(self)@.buildings,
            old(self)@.wf() ==> final(self)@.wf(),
    {
        self.stock(stored);
        let id: i32 = if has_town_center(&self.buildings, player) { 0 } else { new_building_id() };
        let shown = self.come_in_with(player, cx, cy, units, None, id);
        assert(self@ == old(self)@.come_in(player, cx, cy, listed(units), kept(stored), id));
        shown
    }

    /// Everyone who is in the world.
    pub fn all_players(&self) -> (r: Vec<PlayerInfo>)
        ensures
            r@ == Seq::new(self@.players.len(), |i: int| self@.players[i].1),
    {
        let mut out: Vec<PlayerInfo> = Vec::new();
        let mut i: usize = 0;
        while i < self.players.rows.len()
            invariant
                i <= self@.players.len(),
                out@ == Seq::new(i as nat, |k: int| self@.players[k].1),
            decreases self@.players.len() - i,
        {
            out.push(self.players.rows[i].1);
            i = i + 1;
            assert(out@ =~= Seq::new(i as nat, |k: int| self@.players[k].1));
        }
        out
    }

    /// All units, army after army.
    pub fn all_units(&self) -> (r: Vec<UnitDTO>)
        ensures
            r@ == all_of(self@.units, self@.units.len() as int),
    {
        let mut out: Vec<UnitDTO> = Vec::new();
        let mut a: usize = 0;
        while a < self.units.list.len()
            invariant
                a <= self.units.list@.len(),
                out@ == all_of(self@.units, a as int),
            decreases self.units.list@.len() - a,
        {
            let owner: i32 = self.units.list[a].owner;
            let us = &self.units.list[a].units;
            assert(self@.units[a as int] == (owner, us@));
            let ghost before = out@;
            let mut i: usize = 0;
            while i < us.len()
                invariant
                    i <= us@.len(),
                    out@ == before + Seq::new(i as nat, |k: int| listed_as(owner, k, us@[k])),
                decreases us@.len() - i,
            {
                let u = us[i];
                out.push(
                    UnitDTO { owner_id: owner, unit_idx: i, x: u.x, y: u.y, kind: u.kind, hp: u.hp },
                );
                i = i + 1;
                assert(out@ =~= before + Seq::new(
                    i as nat,
                    |k: int| listed_as(owner, k, us@[k]),
                ));
            }
            a = a + 1;
            assert(out@ =~= all_of(self@.units, a as int));
        }
        out
    }

    /// Sets the population cap of the player by their houses.
    pub fn settle_pop_cap(&mut self, player: i32)
        ensures
            final(self)@ == old(self)@.counted(player),
            old(self)@.wf() ==> final(self)@.wf(),
    {
        let mut n: usize = 0;
        let mut i: usize = 0;
        while i < self.buildings.len()
            invariant
                i <= self.buildings@.len(),
                n <= i,
                n == houses(self@.buildings, player, i as int),
                self@ == old(self)@,
            decreases self.buildings@.len() - i,
        {
            if self.buildings[i].owner_id == player && self.buildings[i].kind == economy::HOUSE {
                n = n + 1;
            }
            i = i + 1;
        }
        let cap: i32 = if n < 0x7fff_fffb {
            default_pop_cap() + n as i32 * POP_FROM_HOUSE
        } else {
            i32::MAX
        };
        self.pop_cap.insert(player, cap);
    }

    /// Takes a player who left, and their units, out of the world. Their buildings, their purse
    /// and their token stay.
    pub fn leave(&mut self, player: i32)
        ensures
            final(self)@ == old(self)@.left_by(player),
            old(self)@.wf() ==> final(self)@.wf(),
    {
        let ghost v = self@;
        self.players.remove(player);
        self.units.remove(player);
        proof {
            table::lemma_row(v.players, player);
            if v.wf() && table::holds(v.players, player) {
                let t = self@.players;
                let r = table::row(v.players, player);
                assert forall|i: int| 0 <= i < t.len() implies (#[trigger] t[i]).0 == t[i].1.id by {
                    assert(t[i] == v.players[if i >= r {
                        i + 1
                    } else {
                        i
                    }]);
                }
            }
        }
    }
}

/// How a unit is listed.
pub open spec fn listed_as(owner: i32, i: int, u: UnitState) -> UnitDTO {
    UnitDTO { owner_id: owner, unit_idx: i as usize, x: u.x, y: u.y, kind: u.kind, hp: u.hp }
}

/// The units of the first `n` armies, army after army.
pub open spec fn all_of(armies: Seq<(i32, Seq<UnitState>)>, n: int) -> Seq<UnitDTO>
    decreases n,
{
    if n <= 0 {
        Seq::empty()
    } else {
        all_of(armies, n - 1) + Seq::new(
            armies[n - 1].1.len(),
            |i: int| listed_as(armies[n - 1].0, i, armies[n - 1].1[i]),
        )
    }
}

/// The number of houses of the player among the first `n` buildings.
pub open spec fn houses(buildings: Seq<BuildingDTO>, player: i32, n: int) -> nat
    decreases n,
{
    if n <= 0 {
        0
    } else {
        houses(buildings, player, n - 1) + (if buildings[n - 1].owner_id == player
            && buildings[n - 1].kind == economy::HOUSE {
            1nat
        } else {
            0nat
        })
    }
}

/// The population cap with so many houses; it never exceeds what its type can hold.
pub open spec fn housed(n: nat) -> i32 {
    if DEFAULT_POP_CAP + n * POP_FROM_HOUSE < i32::MAX {
        (DEFAULT_POP_CAP + n * POP_FROM_HOUSE) as i32
    } else {
        i32::MAX
    }
}

/// A token belongs to the player to whom it was given, and to nobody else; a token that was given to
/// nobody, or none at all, belongs to nobody.
pub proof fn tokens_belong_to_their_players(v: GlobalView, t: Seq<char>, i: int)
    requires
        v.wf(),
    ensures
        0 <= i < v.tokens.len() && v.tokens[i].0 == t ==> v.known(Some(t)) == Some(v.tokens[i].1),
        (forall|j: int| 0 <= j < v.tokens.len() ==> (#[trigger] v.tokens[j]).0 != t) ==> v.known(
            Some(t),
        ) is None,
        v.known(None) is None,
{
    table::every_row_is_found(v.tokens, t, i);
}

/// To let somebody in for the first time gives out the next number and their token, and changes
/// nothing else; all other tokens stay with their players.
pub proof fn a_newcomer_gets_the_next_number(v: GlobalView, fresh: Seq<char>, t: Seq<char>)
    requires
        v.next_id < i32::MAX,
    ensures
        ({
            let w = v.registered(fresh);
            &&& w.next_id == v.next_id + 1
            &&& w.known(Some(fresh)) == Some(v.next_id)
            &&& t != fresh ==> w.known(Some(t)) == v.known(Some(t))
            &&& w == (GlobalView { next_id: w.next_id, tokens: w.tokens, ..v })
        }),
{
    table::with_is_seen(v.tokens, fresh, v.next_id, fresh);
    table::with_is_seen(v.tokens, fresh, v.next_id, t);
}

/// Whoever comes in is in the world with the chunk that is theirs. They have the goods that they had,
/// or what new players get, and the units that the store has, or those that they had, or two workers.
/// Nobody else gains or loses anything, and no known building is lost: those of the world, or
/// else those of the store.
pub proof fn who_comes_in_is_there(
    v: GlobalView,
    player: i32,
    cx: i32,
    cy: i32,
    units: Option<Seq<UnitState>>,
    stored: Option<Seq<BuildingDTO>>,
    known: Seq<BuildingDTO>,
    id: i32,
    q: i32,
    i: int,
)
    requires
        world::settled(cx as int),
        world::settled(cy as int),
        known == match stored {
            Some(b) => if v.buildings.len() == 0 {
                b
            } else {
                v.buildings
            },
            None => v.buildings,
        },
    ensures
        ({
            let w = v.come_in(player, cx, cy, units, stored, id);
            let owns = exists|k: int|
                0 <= k < known.len() && (#[trigger] known[k]).owner_id == player && known[k].kind
                    == 0;
            &&& table::holds(w.players, player)
            &&& table::under(w.players, player) == (PlayerInfo {
                id: player,
                chunk_x: cx,
                chunk_y: cy,
            })
            &&& q != player ==> table::holds(w.players, q) == table::holds(v.players, q) && (
            table::holds(v.players, q) ==> table::under(w.players, q) == table::under(v.players, q))
            &&& w.purse(player) == v.purse(player)
            &&& w.resources.contains_key(player)
            &&& q != player ==> w.purse(q) == v.purse(q) && w.cap(q) == v.cap(q) && world::army(
                w.units,
                q,
            ) == world::army(v.units, q)
            &&& units matches Some(u) ==> world::army(w.units, player) == u
            &&& units is None && table::holds(v.units, player) ==> w.units == v.units
            &&& units is None && !table::holds(v.units, player) ==> world::army(
                w.units,
                player,
            ).len() == 2
            &&& 0 <= i < known.len() ==> w.buildings[i] == known[i]
            &&& owns ==> w.buildings == known
            &&& !owns ==> w.buildings.len() == known.len() + 1 && w.buildings.last().owner_id
                == player && w.buildings.last().kind == 0 && w.buildings.last().tile_x == cx * 32
                + 16 && w.buildings.last().tile_y == cy * 32 + 16 && w.buildings.last().id == id
            &&& w.tokens == v.tokens && w.next_id == v.next_id && w.building_progress
                == v.building_progress && w.gather_tasks == v.gather_tasks
        }),
{
    let info = PlayerInfo { id: player, chunk_x: cx, chunk_y: cy };
    table::with_is_seen(v.players, player, info, player);
    table::with_is_seen(v.players, player, info, q);
    let given = match units {
        Some(u) => u,
        None => world::first_units(cx, cy),
    };
    table::with_is_seen(v.units, player, given, player);
    table::with_is_seen(v.units, player, given, q);
    let w = v.come_in(player, cx, cy, units, stored, id);
    assert(known == v.stocked(stored).buildings);
    assert(has_town(known, player) <==> exists|k: int|
        0 <= k < known.len() && (#[trigger] known[k]).owner_id == player && known[k].kind == 0);
}

/// Who leaves is gone with all their units, and nobody else is: the buildings, the goods, the caps
/// and the tokens of all stay, and so do all other players and their units.
pub proof fn who_leaves_is_gone(v: GlobalView, player: i32, q: i32)
    requires
        v.wf(),
    ensures
        ({
            let w = v.left_by(player);
            &&& !table::holds(w.players, player)
            &&& world::army(w.units, player).len() == 0
            &&& q != player ==> table::holds(w.players, q) == table::holds(v.players, q)
                && world::army(w.units, q) == world::army(v.units, q)
            &&& w.buildings == v.buildings && w.resources == v.resources && w.pop_cap == v.pop_cap
                && w.tokens == v.tokens && w.next_id == v.next_id && w.building_progress
                == v.building_progress && w.gather_tasks == v.gather_tasks
        }),
{
    table::without_is_seen(v.players, player, player);
    table::without_is_seen(v.players, player, q);
    table::without_is_seen(v.units, player, player);
    table::without_is_seen(v.units, player, q);
}

/// Every house of the player, and nothing else, makes room for one more than five.
pub proof fn every_house_counts(buildings: Seq<BuildingDTO>, player: i32, n: int, k: nat)
    requires
        0 < n <= buildings.len(),
        k < 0x1000_0000,
    ensures
        houses(buildings, player, 0) == 0,
        houses(buildings, player, n) == houses(buildings, player, n - 1) + (if buildings[n
            - 1].owner_id == player && buildings[n - 1].kind == 3 {
            1nat
        } else {
            0nat
        }),
        housed(k) == 5 + k,
{
}

/// What newcomers are shown of the units lists every one, with its owner and its place in their army,
/// as what it is and where it is, and nobody else.
pub proof fn everyone_is_listed(armies: Seq<(i32, Seq<UnitState>)>, n: int, a: int, k: int)
    requires
        0 <= a < n <= armies.len(),
        0 <= k < armies[a].1.len(),
    ensures
        all_of(armies, n).contains(
            UnitDTO {
                owner_id: armies[a].0,
                unit_idx: k as usize,
                x: armies[a].1[k].x,
                y: armies[a].1[k].y,
                kind: armies[a].1[k].kind,
                hp: armies[a].1[k].hp,
            },
        ),
        all_of(armies, n).len() == all_of(armies, n - 1).len() + armies[n - 1].1.len(),
    decreases n,
{
    let rest = all_of(armies, n - 1);
    let all = all_of(armies, n);
    let u = listed_as(armies[a].0, k, armies[a].1[k]);
    if a == n - 1 {
        assert(all[rest.len() + k] == u);
    } else {
        everyone_is_listed(armies, n - 1, a, k);
        let i = choose|i: int| 0 <= i < rest.len() && rest[i] == u;
        assert(all[i] == u);
    }
}

/// The units that the store has come back where they were, all of them as workers; a player of whom
/// it has none gets the two first ones.
pub proof fn stored_units_come_back(rows: Seq<(Single, Single)>, cx: i32, cy: i32, i: int)
    ensures
        rows.len() > 0 ==> restored(rows, cx, cy).len() == rows.len(),
        0 <= i < rows.len() ==> restored(rows, cx, cy)[i].x == rows[i].0 && restored(
            rows,
            cx,
            cy,
        )[i].y == rows[i].1 && restored(rows, cx, cy)[i].kind == 0,
        rows.len() == 0 ==> restored(rows, cx, cy) == world::first_units(cx, cy),
        world::first_units(cx, cy).len() == 2,
{
}

/// The two first workers stand side by side below the town center of their chunk, in the middle of
/// their tiles along the one axis and at the edge along the other.
pub proof fn first_workers_stand_side_by_side(cx: i32, cy: i32)
    requires
        -0x4000 < cx < 0x4000,
        -0x4000 < cy < 0x4000,
    ensures
        ({
            let u = world::first_units(cx, cy);
            &&& u.len() == 2
            &&& u[0].x == Single::of_int((cx * 32 + 16) * 16 + 8)
            &&& u[1].x == Single::of_int((cx * 32 + 16) * 16 + 24)
            &&& u[0].y == Single::of_int((cy * 32 + 16) * 16 + 32) && u[1].y == u[0].y
            &&& u[0].kind == 0 && u[1].kind == 0
            &&& u[0].hp == Single::of_int(50) && u[1].hp == Single::of_int(50)
        }),
{
    lemma_town_edge(cx);
    lemma_town_edge(cy);
    vstd::arithmetic::power2::lemma2_to64();
    exact::lemma_power(3);
    exact::lemma_power(5);
    lemma_twenty_four();
    economy::endurance_is_as_listed(0);
    exact::small_sums_are_exact((cx * 32 + 16) * 16, 8);
    exact::small_sums_are_exact((cx * 32 + 16) * 16, 24);
    exact::small_sums_are_exact((cy * 32 + 16) * 16, 32);
}

} // verus!
