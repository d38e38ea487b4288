//! What a click on the world does: it marks out a wall, selects units or a building, or sends the
//! selected units off.
use crate::click::{Button, DOUBLE_CLICK};
use crate::game::{GameState, GameView, Order, UnitView};
use crate::march;
use crate::path;
use crate::single::Single;
use crate::space;
use crate::space::{tile_containing, tile_edge, Point};
use crate::terrain::{Building, Double};
use vstd::prelude::*;

verus! {

/// Whether two coordinates differ by less than a whole number.
pub open spec fn near(a: Single, b: Single, by: int) -> bool {
    a.difference(b).absolute().below(Single::of_int(by))
}

/// Whether a point lies on the tile of a building or on its edge.
pub open spec fn on_building(b: Building, p: Point) -> bool {
    let left = space::edge_at(b.tile_x);
    let top = space::edge_at(b.tile_y);
    let tile = Single { bits: space::TILE_WIDTH };
    &&& left.at_most(p.0) && p.0.at_most(left.sum(tile))
    &&& top.at_most(p.1) && p.1.at_most(top.sum(tile))
}

impl GameView {
    /// Whether the player's own unit `u` is at a point.
    pub open spec fn own_unit_at(self, u: UnitView, p: Point) -> bool {
        self.mine(u) && near(u.x, p.0, 10) && near(u.y, p.1, 10)
    }

    /// Whether the unit is the first of the player's own at the point.
    pub open spec fn is_unit_at(self, i: int, p: Point) -> bool {
        &&& 0 <= i < self.units.len()
        &&& self.own_unit_at(self.units[i], p)
        &&& forall|j: int| 0 <= j < i ==> !self.own_unit_at(#[trigger] self.units[j], p)
    }

    /// Whether the building is one of the player's own and covers the point.
    pub open spec fn own_building_at(self, b: Building, p: Point) -> bool {
        self.my_id == Some(b.owner_id) && on_building(b, p)
    }

    /// Whether the building is the first of the player's own at the point.
    pub open spec fn is_building_at(self, i: int, p: Point) -> bool {
        &&& 0 <= i < self.land.buildings.len()
        &&& self.own_building_at(self.land.buildings[i], p)
        &&& forall|j: int|
            0 <= j < i ==> !self.own_building_at(#[trigger] self.land.buildings[j], p)
    }

    /// Whether a click is the second one of a double click: `since` is how long the last one is
    /// past.
    pub open spec fn doubles(self, sx: Single, sy: Single, since: Double) -> bool {
        &&& since.below(Double { bits: DOUBLE_CLICK })
        &&& near(sx, self.last_click_x, 20)
        &&& near(sy, self.last_click_y, 20)
    }

    /// The game that remembers a click.
    pub open spec fn click_noted(self, sx: Single, sy: Single, now: Double) -> GameView {
        GameView { last_click_time: now, last_click_x: sx, last_click_y: sy, ..self }
    }

    /// The game with all of the player's units of a kind selected.
    pub open spec fn kind_marked(self, kind: u8) -> GameView {
        GameView {
            units: Seq::new(
                self.units.len(),
                |i: int|
                    if self.mine(self.units[i]) && self.units[i].kind == kind {
                        UnitView { selected: true, ..self.units[i] }
                    } else {
                        self.units[i]
                    },
            ),
            ..self
        }
    }

    /// The game after a click on the unit: it changes sides of the selection, and a double click
    /// selects all units of its kind.
    pub open spec fn unit_clicked(self, i: int, double: bool) -> GameView {
        let g = GameView {
            selected_building: None,
            ..self.marked(i, !self.units[i].selected)
        };
        if double {
            g.kind_marked(self.units[i].kind)
        } else {
            g
        }
    }

    /// The game after a click on the building: nothing else is selected.
    pub open spec fn building_clicked(self, i: int) -> GameView {
        GameView { selected_building: Some(i as usize), ..self.unmarked() }
    }

    /// Whether the paths lead each selected unit to the point.
    pub open spec fn lead_to(self, routes: Seq<Seq<Point>>, p: Point) -> bool {
        &&& routes.len() == self.units.len()
        &&& forall|i: int|
            0 <= i < routes.len() && self.chosen(self.units[i]) ==> path::is_route(
                self.land,
                (self.units[i].x, self.units[i].y),
                p,
                #[trigger] routes[i],
            )
    }

    /// Whether the unit has somewhere to go.
    pub open spec fn sets_off(self, routes: Seq<Seq<Point>>, i: int) -> bool {
        self.chosen(self.units[i]) && routes[i].len() > 0
    }

    /// The unit with number `i` once it was sent on its way.
    pub open spec fn sent(self, routes: Seq<Seq<Point>>, i: int) -> UnitView {
        if self.sets_off(routes, i) {
            UnitView { path: routes[i], ..self.units[i] }
        } else {
            self.units[i]
        }
    }

    /// The game after the selected units were sent on their ways. A unit that has no way keeps
    /// to what it was doing.
    pub open spec fn all_sent(self, routes: Seq<Seq<Point>>) -> GameView {
        GameView { units: Seq::new(self.units.len(), |i: int| self.sent(routes, i)), ..self }
    }

    /// What the server is told of those of the first `n` units that were sent to a point.
    pub open spec fn move_orders(self, routes: Seq<Seq<Point>>, p: Point, n: int) -> Seq<Order>
        decreases n,
    {
        if n <= 0 {
            Seq::empty()
        } else if self.sets_off(routes, n - 1) {
            self.move_orders(routes, p, n - 1).push(
                Order::UnitMove {
                    player_id: self.units[n - 1].owner_id,
                    unit_idx: march::own_before(self, n - 1) as usize,
                    x: p.0,
                    y: p.1,
                },
            )
        } else {
            self.move_orders(routes, p, n - 1)
        }
    }

    /// The game after a click on the world while a wall is marked out: the first click is its
    /// start, the second its end, and any other does nothing.
    pub open spec fn wall_clicked(self, p: Point) -> GameView {
        if self.wall_start is None {
            GameView {
                wall_start: Some(space::tile_of(p)),
                wall_preview: Seq::empty(),
                ..self
            }
        } else if self.wall_end is None {
            GameView { wall_end: Some(space::tile_of(p)), ..self }
        } else {
            self
        }
    }
}

/// What a click comes to: what is asked of the server, and whether the tiles of a wall are now to
/// be marked out.
pub struct Clicked {
    pub orders: Vec<Order>,
    pub preview: bool,
}

/// Whether a click on the world at the point `p` turns the game `g`, which has noted it, into `h`
/// and asks for `orders`.
pub open spec fn world_clicked(
    g: GameView,
    p: Point,
    double: bool,
    h: GameView,
    orders: Seq<Order>,
) -> bool {
    if exists|i: int| #[trigger] g.is_unit_at(i, p) {
        &&& h == g.unit_clicked(choose|i: int| #[trigger] g.is_unit_at(i, p), double)
        &&& orders == Seq::<Order>::empty()
    } else if exists|i: int| #[trigger] g.is_building_at(i, p) {
        &&& h == g.building_clicked(choose|i: int| #[trigger] g.is_building_at(i, p))
        &&& orders == Seq::<Order>::empty()
    } else if !g.any_chosen() {
        &&& h == (GameView { selected_building: None, ..g })
        &&& orders == Seq::<Order>::empty()
    } else {
        exists|routes: Seq<Seq<Point>>|
            #![trigger g.lead_to(routes, p)]
            {
                &&& g.lead_to(routes, p)
                &&& h == g.all_sent(routes)
                &&& orders == g.move_orders(routes, p, g.units.len() as int)
            }
    }
}

/// Whether a click at a point of the picture turns the game `g` into `h` and comes to `orders`
/// and `preview`.
pub open spec fn is_click(
    g: GameView,
    sx: Single,
    sy: Single,
    now: Double,
    since: Double,
    h: GameView,
    orders: Seq<Order>,
    preview: bool,
) -> bool {
    let b = g.button_at(sx, sy);
    let p = g.world_at(sx, sy);
    if g.my_id is None {
        h == g && orders == Seq::<Order>::empty() && !preview
    } else if b != Button::World {
        h == g.pressed(b) && orders == g.press_orders(b) && !preview
    } else if g.build_mode {
        &&& h == g.wall_clicked(p)
        &&& orders == Seq::<Order>::empty()
        &&& preview == (g.wall_start is Some && g.wall_end is None)
    } else {
        &&& world_clicked(g.click_noted(sx, sy, now), p, g.doubles(sx, sy, since), h, orders)
        &&& !preview
    }
}

fn is_near(a: Single, b: Single, by: i32) -> (r: bool)
    ensures
        r == near(a, b, by as int),
{
    a.minus(b).abs().lt(Single::from_i32(by))
}

fn is_on_building(b: Building, p: Point) -> (r: bool)
    ensures
        r == on_building(b, p),
{
    let left = tile_edge(b.tile_x);
    let top = tile_edge(b.tile_y);
    let tile = Single { bits: space::TILE_WIDTH };
    left.le(p.0) && p.0.le(left.plus(tile)) && top.le(p.1) && p.1.le(top.plus(tile))
}

impl GameState {
    /// The first of the player's own units at a point.
    fn find_unit_at(&self, p: Point) -> (r: Option<usize>)
        ensures
            match r {
                Some(i) => self@.is_unit_at(i as int, p) && i == (choose|k: int| #[trigger]
                    self@.is_unit_at(k, p)),
                None => !exists|k: int| #[trigger] self@.is_unit_at(k, p),
            },
    {
        let mut i: usize = 0;
        while i < self.units.len()
            invariant
                i <= self.units@.len(),
                forall|j: int| 0 <= j < i ==> !self@.own_unit_at(#[trigger] self@.units[j], p),
            decreases self.units@.len() - i,
        {
            let u = &self.units[i];
            assert(self@.units[i as int] == u@);
            if self.is_mine(u.owner_id) && is_near(u.x, p.0, 10) && is_near(u.y, p.1, 10) {
                proof {
                    assert(self@.is_unit_at(i as int, p));
                    let k = choose|k: int| #[trigger] self@.is_unit_at(k, p);
                    assert(self@.is_unit_at(k, p));
                    assert(self@.own_unit_at(self@.units[k], p));
                }
                return Some(i);
            }
            i = i + 1;
        }
        None
    }

    /// The first of the player's own buildings at a point.
    fn find_building_at(&self, p: Point) -> (r: Option<usize>)
        ensures
            match r {
                Some(i) => self@.is_building_at(i as int, p) && i == (choose|k: int| #[trigger]
                    self@.is_building_at(k, p)),
                None => !exists|k: int| #[trigger] self@.is_building_at(k, p),
            },
    {
        let mut i: usize = 0;
        while i < self.land.buildings.len()
            invariant
                i <= self@.land.buildings.len(),
                forall|j: int|
                    0 <= j < i ==> !self@.own_building_at(#[trigger] self@.land.buildings[j], p),
            decreases self@.land.buildings.len() - i,
        {
            let b = self.land.buildings[i];
            if self.is_mine(b.owner_id) && is_on_building(b, p) {
                proof {
                    assert(self@.is_building_at(i as int, p));
                    let k = choose|k: int| #[trigger] self@.is_building_at(k, p);
                    assert(self@.is_building_at(k, p));
                    assert(self@.own_building_at(self@.land.buildings[k], p));
                }
                return Some(i);
            }
            i = i + 1;
        }
        None
    }

    /// Selects all of the player's units of a kind.
    fn mark_kind(&mut self, kind: u8)
        ensures
            final(self)@ == old(self)@.kind_marked(kind),
    {
        let ghost v = self@;
        let mut i: usize = 0;
        while i < self.units.len()
            invariant
                i <= self@.units.len(),
                self@.units.len() == v.units.len(),
                self@ == (GameView { units: self@.units, ..v }),
                forall|k: int|
                    0 <= k < i ==> #[trigger] self@.units[k] == v.kind_marked(kind).units[k],
                forall|k: int| i <= k < v.units.len() ==> #[trigger] self@.units[k] == v.units[k],
            decreases v.units.len() - i,
        {
            assert(self@.units[i as int] == self.units@[i as int]@);
            if self.is_mine(self.units[i].owner_id) && self.units[i].kind == kind {
                self.mark(i, true);
            }
            i = i + 1;
        }
        assert(self@.units =~= v.kind_marked(kind).units);
    }

    /// Sends the selected units to a point, each on a shortest way.
    fn send_selected(&mut self, p: Point) -> (r: Vec<Order>)
        requires
            old(self)@.wf(),
        ensures
            exists|routes: Seq<Seq<Point>>|
                #![trigger old(self)@.lead_to(routes, p)]
                {
                    &&& old(self)@.lead_to(routes, p)
                    &&& final(self)@ == old(self)@.all_sent(routes)
                    &&& r@ == old(self)@.move_orders(routes, p, old(self)@.units.len() as int)
                },
    {
        let ghost v = self@;
        let mut orders: Vec<Order> = Vec::new();
        let mut routes: Vec<Vec<Point>> = Vec::new();
        let ghost mut ways: Seq<Seq<Point>> = Seq::empty();
        let mut own: usize = 0;
        let mut i: usize = 0;
        while i < self.units.len()
            invariant
                self@ == v,
                v.wf(),
                i <= self.units@.len(),
                own <= i,
                own == march::own_before(v, i as int),
                routes@.len() == i,
                ways.len() == i,
                forall|k: int| 0 <= k < i ==> (#[trigger] routes@[k])@ == ways[k],
                forall|k: int|
                    0 <= k < i && v.chosen(v.units[k]) ==> path::is_route(
                        v.land,
                        (v.units[k].x, v.units[k].y),
                        p,
                        #[trigger] ways[k],
                    ),
                orders@ == v.move_orders(ways, p, i as int),
            decreases self.units@.len() - i,
        {
            let u = &self.units[i];
            assert(v.units[i as int] == u@);
            let mut way: Vec<Point> = Vec::new();
            let mine: bool = self.is_mine(u.owner_id);
            if u.selected && mine {
                way = self.land.find_path((u.x, u.y), p);
            }
            let ghost longer = ways.push(way@);
            proof {
                lemma_orders_prefix(v, ways, longer, p, i as int);
            }
            if u.selected && mine && way.len() > 0 {
                orders.push(
                    Order::UnitMove { player_id: u.owner_id, unit_idx: own, x: p.0, y: p.1 },
                );
            }
            if mine {
                own = own + 1;
            }
            routes.push(way);
            proof {
                ways = longer;
            }
            i = i + 1;
        }
        assert(v.lead_to(ways, p));
        let mut n: usize = self.units.len();
        while n > 0
            invariant
                n <= self.units@.len(),
                routes@.len() == n,
                ways.len() == v.units.len(),
                self@.units.len() == v.units.len(),
                forall|k: int| 0 <= k < n ==> (#[trigger] routes@[k])@ == ways[k],
                self@ == (GameView { units: self@.units, ..v }),
                forall|k: int| 0 <= k < n ==> #[trigger] self@.units[k] == v.units[k],
                forall|k: int|
                    n <= k < v.units.len() ==> #[trigger] self@.units[k] == v.sent(ways, k),
            decreases n,
        {
            n = n - 1;
            let ghost before = self@.units;
            assert(self@.units[n as int] == self.units@[n as int]@);
            assert(routes@[n as int]@ == ways[n as int]);
            match routes.pop() {
                Some(way) => {
                    let mine: bool = self.is_mine(self.units[n].owner_id);
                    if self.units[n].selected && mine && way.len() > 0 {
                        self.units[n].path = way;
                    }
                },
                None => {},
            }
            proof {
                assert(self.units@[n as int]@ =~= v.sent(ways, n as int));
                assert(self@.units =~= before.update(n as int, v.sent(ways, n as int)));
            }
        }
        assert(self@.units =~= v.all_sent(ways).units);
        orders
    }

    /// Clicks on the world.
    fn click_world(&mut self, p: Point, double: bool) -> (r: Vec<Order>)
        requires
            old(self)@.wf(),
        ensures
            world_clicked(old(self)@, p, double, final(self)@, r@),
            final(self)@.wf(),
    {
        let ghost v = self@;
        match self.find_unit_at(p) {
            Some(i) => {
                assert(v.units[i as int] == self.units@[i as int]@);
                let kind: u8 = self.units[i].kind;
                let selected: bool = !self.units[i].selected;
                self.mark(i, selected);
                self.selected_building = None;
                if double {
                    self.mark_kind(kind);
                }
                return Vec::new();
            },
            None => {},
        }
        match self.find_building_at(p) {
            Some(i) => {
                self.unmark_all();
                self.selected_building = Some(i);
                return Vec::new();
            },
            None => {},
        }
        let s = self.selected_units();
        if s.len() == 0 {
            self.selected_building = None;
            return Vec::new();
        }
        self.send_selected(p)
    }

    /// Clicks at a point of the picture: `now` is the time, `since` how long the last click that
    /// was noted is past. Where a wall is now to be marked out, `generate_wall_preview` does it.
    pub fn handle_click(&mut self, sx: Single, sy: Single, now: Double, since: Double) -> (r:
        Clicked)
        requires
            old(self)@.wf(),
        ensures
            is_click(old(self)@, sx, sy, now, since, final(self)@, r.orders@, r.preview),
            final(self)@.wf(),
    {
        if self.my_id.is_none() {
            return Clicked { orders: Vec::new(), preview: false };
        }
        let b = self.find_button(sx, sy);
        if b != Button::World {
            let orders = self.press(b);
            return Clicked { orders, preview: false };
        }
        let p = self.screen_to_world(sx, sy);
        if self.build_mode {
            let tile = tile_containing(p);
            if self.wall_start.is_none() {
                self.wall_start = Some(tile);
                self.wall_preview = Vec::new();
                return Clicked { orders: Vec::new(), preview: false };
            }
            if self.wall_end.is_none() {
                self.wall_end = Some(tile);
                return Clicked { orders: Vec::new(), preview: true };
            }
            return Clicked { orders: Vec::new(), preview: false };
        }
        let double: bool = since.lt(Double { bits: DOUBLE_CLICK })
            && is_near(sx, self.last_click_x, 20) && is_near(sy, self.last_click_y, 20);
        self.last_click_time = now;
        self.last_click_x = sx;
        self.last_click_y = sy;
        let orders = self.click_world(p, double);
        Clicked { orders, preview: false }
    }
}

/// What the server is told of the first units depends on their paths only.
proof fn lemma_orders_prefix(
    v: GameView,
    a: Seq<Seq<Point>>,
    b: Seq<Seq<Point>>,
    p: Point,
    n: int,
)
    requires
        n <= a.len(),
        n <= b.len(),
        forall|k: int| 0 <= k < n ==> #[trigger] a[k] == b[k],
    ensures
        v.move_orders(a, p, n) == v.move_orders(b, p, n),
    decreases n,
{
    if n > 0 {
        lemma_orders_prefix(v, a, b, p, n - 1);
        assert(a[n - 1] == b[n - 1]);
    }
}

/// Whether the click is one on the world that is no part of building: somebody plays, no button is
/// there, and no wall is being marked out.
pub open spec fn plain_click(g: GameView, sx: Single, sy: Single) -> bool {
    g.my_id is Some && g.button_at(sx, sy) == Button::World && !g.build_mode
}

/// Whether an own unit is less than ten pixels from the point along both axes.
pub open spec fn within_ten(g: GameView, u: UnitView, p: Point) -> bool {
    &&& g.my_id == Some(u.owner_id)
    &&& u.x.difference(p.0).absolute().below(Single::of_int(10))
    &&& u.y.difference(p.1).absolute().below(Single::of_int(10))
}

/// Whether an own building of any kind has the point on its tile or on the edge of it.
pub open spec fn under_point(g: GameView, b: Building, p: Point) -> bool {
    let tile = Single::of_int(16);
    &&& g.my_id == Some(b.owner_id)
    &&& space::edge_at(b.tile_x).at_most(p.0) && p.0.at_most(space::edge_at(b.tile_x).sum(tile))
    &&& space::edge_at(b.tile_y).at_most(p.1) && p.1.at_most(space::edge_at(b.tile_y).sum(tile))
}

/// A click on an own unit, the first of several, turns its selection around and no other's, and
/// deselects the building. The second click of a double click, less than 300 milliseconds after the
/// first and less than twenty pixels from it, selects all own units of that kind, and no other.
/// Nobody moves and nothing is asked for.
pub proof fn a_click_selects_a_unit(
    g: GameView,
    sx: Single,
    sy: Single,
    now: Double,
    since: Double,
    h: GameView,
    orders: Seq<Order>,
    preview: bool,
    i: int,
    j: int,
)
    requires
        is_click(g, sx, sy, now, since, h, orders, preview),
        plain_click(g, sx, sy),
        0 <= i < g.units.len(),
        within_ten(g, g.units[i], g.world_at(sx, sy)),
        forall|k: int| 0 <= k < i ==> !within_ten(g, #[trigger] g.units[k], g.world_at(sx, sy)),
        0 <= j < g.units.len(),
    ensures
        ({
            let u = g.units[j];
            let double = since.below(Double { bits: DOUBLE_CLICK }) && sx.difference(
                g.last_click_x,
            ).absolute().below(Single::of_int(20)) && sy.difference(
                g.last_click_y,
            ).absolute().below(Single::of_int(20));
            let alike = g.my_id == Some(u.owner_id) && u.kind == g.units[i].kind;
            &&& h.units.len() == g.units.len()
            &&& h.units[j] == (UnitView {
                selected: if double && alike {
                    true
                } else if j == i {
                    !u.selected
                } else {
                    u.selected
                },
                ..u
            })
            &&& h == (GameView {
                units: h.units,
                selected_building: None,
                last_click_x: sx,
                last_click_y: sy,
                last_click_time: now,
                ..g
            })
            &&& orders.len() == 0 && !preview
        }),
{
    let n = g.click_noted(sx, sy, now);
    let p = g.world_at(sx, sy);
    assert(n.own_unit_at(n.units[i], p));
    assert forall|k: int| 0 <= k < i implies !n.own_unit_at(#[trigger] n.units[k], p) by {
        assert(!within_ten(g, g.units[k], p));
    }
    assert(n.is_unit_at(i, p));
    let k = choose|k: int| #[trigger] n.is_unit_at(k, p);
    assert(n.is_unit_at(k, p));
    assert(n.own_unit_at(n.units[k], p));
    assert(k == i);
}

/// A click on an own building, where no own unit is, selects it, the first of several, and nothing
/// else: all units are deselected. Nobody moves and nothing is asked for.
pub proof fn a_click_selects_a_building(
    g: GameView,
    sx: Single,
    sy: Single,
    now: Double,
    since: Double,
    h: GameView,
    orders: Seq<Order>,
    preview: bool,
    i: int,
    j: int,
)
    requires
        is_click(g, sx, sy, now, since, h, orders, preview),
        plain_click(g, sx, sy),
        forall|k: int|
            0 <= k < g.units.len() ==> !within_ten(g, #[trigger] g.units[k], g.world_at(sx, sy)),
        0 <= i < g.land.buildings.len(),
        under_point(g, g.land.buildings[i], g.world_at(sx, sy)),
        forall|k: int|
            0 <= k < i ==> !under_point(g, #[trigger] g.land.buildings[k], g.world_at(sx, sy)),
    ensures
        h.selected_building == Some(i as usize),
        h.units.len() == g.units.len(),
        0 <= j < g.units.len() ==> h.units[j] == (UnitView { selected: false, ..g.units[j] }),
        h == (GameView {
            units: h.units,
            selected_building: Some(i as usize),
            last_click_x: sx,
            last_click_y: sy,
            last_click_time: now,
            ..g
        }),
        orders.len() == 0,
        !preview,
{
    let n = g.click_noted(sx, sy, now);
    let p = g.world_at(sx, sy);
    lemma_sixteen();
    assert forall|k: int| !n.is_unit_at(k, p) by {
        if n.is_unit_at(k, p) {
            assert(!within_ten(g, g.units[k], p));
        }
    }
    assert forall|k: int| 0 <= k < i implies !n.own_building_at(
        #[trigger] n.land.buildings[k],
        p,
    ) by {
        assert(!under_point(g, g.land.buildings[k], p));
    }
    assert(n.own_building_at(n.land.buildings[i], p));
    assert(n.is_building_at(i, p));
    let k = choose|k: int| #[trigger] n.is_building_at(k, p);
    assert(n.is_building_at(k, p));
    assert(n.own_building_at(n.land.buildings[k], p));
    assert(k == i);
}

proof fn lemma_sixteen()
    ensures
        Single::of_int(16) == (Single { bits: space::TILE_WIDTH }),
{
    vstd::arithmetic::power2::lemma2_to64();
    crate::exact::lemma_small_pattern(16, 19, 130);
}

/// A click on open land sends every own unit that is selected, whatever its kind, on a route to the
/// point, if there is one, and tells the server where it goes; a unit without a route keeps to what
/// it was doing. No other unit is sent, and nobody is moved or deselected.
pub proof fn a_click_sends_the_selected_off(
    g: GameView,
    sx: Single,
    sy: Single,
    now: Double,
    since: Double,
    h: GameView,
    orders: Seq<Order>,
    preview: bool,
    j: int,
)
    requires
        is_click(g, sx, sy, now, since, h, orders, preview),
        plain_click(g, sx, sy),
        forall|k: int|
            0 <= k < g.units.len() ==> !within_ten(g, #[trigger] g.units[k], g.world_at(sx, sy)),
        forall|k: int|
            0 <= k < g.land.buildings.len() ==> !under_point(
                g,
                #[trigger] g.land.buildings[k],
                g.world_at(sx, sy),
            ),
        0 <= j < g.units.len(),
    ensures
        ({
            let u = g.units[j];
            let p = g.world_at(sx, sy);
            let chosen = u.selected && g.my_id == Some(u.owner_id);
            &&& h.units.len() == g.units.len()
            &&& !chosen ==> h.units[j] == u
            &&& chosen ==> exists|r: Seq<Point>| #[trigger]
                path::is_route(g.land, (u.x, u.y), p, r) && h.units[j] == (UnitView {
                    path: if r.len() > 0 {
                        r
                    } else {
                        u.path
                    },
                    ..u
                }) && (r.len() > 0 ==> orders.contains(
                    Order::UnitMove {
                        player_id: u.owner_id,
                        unit_idx: march::own_before(g, j) as usize,
                        x: p.0,
                        y: p.1,
                    },
                ))
            &&& h == (GameView {
                units: h.units,
                selected_building: h.selected_building,
                last_click_x: sx,
                last_click_y: sy,
                last_click_time: now,
                ..g
            })
            &&& chosen ==> h.selected_building == g.selected_building
            &&& !preview
        }),
{
    let n = g.click_noted(sx, sy, now);
    let p = g.world_at(sx, sy);
    lemma_sixteen();
    assert forall|k: int| !n.is_unit_at(k, p) by {
        if n.is_unit_at(k, p) {
            assert(!within_ten(g, g.units[k], p));
        }
    }
    assert forall|k: int| !n.is_building_at(k, p) by {
        if n.is_building_at(k, p) {
            assert(!under_point(g, g.land.buildings[k], p));
        }
    }
    if n.any_chosen() {
        let routes = choose|routes: Seq<Seq<Point>>|
            #![trigger n.lead_to(routes, p)]
            {
                &&& n.lead_to(routes, p)
                &&& h == n.all_sent(routes)
                &&& orders == n.move_orders(routes, p, n.units.len() as int)
            };
        assert(n.lead_to(routes, p));
        assert(h.units[j] == n.sent(routes, j));
        if n.chosen(n.units[j]) {
            let u = n.units[j];
            assert(path::is_route(n.land, (u.x, u.y), p, routes[j]));
            if routes[j].len() > 0 {
                lemma_order_given(n, routes, p, n.units.len() as int, j);
                lemma_same_number(g, n, j);
            }
        }
    } else {
        if n.chosen(n.units[j]) {
            assert(n.any_chosen());
        }
    }
}

proof fn lemma_same_number(g: GameView, n: GameView, i: int)
    requires
        g.units == n.units,
        g.my_id == n.my_id,
    ensures
        march::own_before(g, i) == march::own_before(n, i),
    decreases i,
{
    if i > 0 {
        lemma_same_number(g, n, i - 1);
    }
}

proof fn lemma_order_given(g: GameView, routes: Seq<Seq<Point>>, p: Point, n: int, j: int)
    requires
        0 <= j < n,
        g.sets_off(routes, j),
    ensures
        g.move_orders(routes, p, n).contains(
            Order::UnitMove {
                player_id: g.units[j].owner_id,
                unit_idx: march::own_before(g, j) as usize,
                x: p.0,
                y: p.1,
            },
        ),
    decreases n,
{
    let before = g.move_orders(routes, p, n - 1);
    let all = g.move_orders(routes, p, n);
    let o = Order::UnitMove {
        player_id: g.units[j].owner_id,
        unit_idx: march::own_before(g, j) as usize,
        x: p.0,
        y: p.1,
    };
    if j == n - 1 {
        assert(all[before.len() as int] == o);
    } else {
        lemma_order_given(g, routes, p, n - 1, j);
        let k = choose|k: int| 0 <= k < before.len() && before[k] == o;
        assert(all[k] == o);
    }
}

/// Whatever is asked for by a click on the world is asked for the player's own units that are
/// selected, to the point of the click, under their number among the own units.
pub proof fn orders_are_for_own_units(
    g: GameView,
    sx: Single,
    sy: Single,
    now: Double,
    since: Double,
    h: GameView,
    orders: Seq<Order>,
    preview: bool,
    k: int,
) -> (j: int)
    requires
        is_click(g, sx, sy, now, since, h, orders, preview),
        plain_click(g, sx, sy),
        0 <= k < orders.len(),
    ensures
        0 <= j < g.units.len(),
        g.units[j].selected,
        g.my_id == Some(g.units[j].owner_id),
        orders[k] == (Order::UnitMove {
            player_id: g.units[j].owner_id,
            unit_idx: march::own_before(g, j) as usize,
            x: g.world_at(sx, sy).0,
            y: g.world_at(sx, sy).1,
        }),
{
    let n = g.click_noted(sx, sy, now);
    let p = g.world_at(sx, sy);
    let routes = choose|routes: Seq<Seq<Point>>|
        #![trigger n.lead_to(routes, p)]
        {
            &&& n.lead_to(routes, p)
            &&& h == n.all_sent(routes)
            &&& orders == n.move_orders(routes, p, n.units.len() as int)
        };
    let j = lemma_order_from(n, routes, p, n.units.len() as int, k);
    lemma_same_number(g, n, j);
    j
}

proof fn lemma_order_from(g: GameView, routes: Seq<Seq<Point>>, p: Point, n: int, k: int) -> (j: int)
    requires
        0 <= n <= g.units.len(),
        0 <= k < g.move_orders(routes, p, n).len(),
    ensures
        0 <= j < n,
        g.sets_off(routes, j),
        g.move_orders(routes, p, n)[k] == (Order::UnitMove {
            player_id: g.units[j].owner_id,
            unit_idx: march::own_before(g, j) as usize,
            x: p.0,
            y: p.1,
        }),
    decreases n,
{
    if k < g.move_orders(routes, p, n - 1).len() {
        lemma_order_from(g, routes, p, n - 1, k)
    } else {
        n - 1
    }
}

/// A click on open land while nothing of the player's own is selected only deselects the building.
pub proof fn a_click_on_open_land_deselects(
    g: GameView,
    sx: Single,
    sy: Single,
    now: Double,
    since: Double,
    h: GameView,
    orders: Seq<Order>,
    preview: bool,
)
    requires
        is_click(g, sx, sy, now, since, h, orders, preview),
        plain_click(g, sx, sy),
        forall|k: int|
            0 <= k < g.units.len() ==> !within_ten(g, #[trigger] g.units[k], g.world_at(sx, sy)),
        forall|k: int|
            0 <= k < g.land.buildings.len() ==> !under_point(
                g,
                #[trigger] g.land.buildings[k],
                g.world_at(sx, sy),
            ),
        forall|k: int|
            0 <= k < g.units.len() ==> !(#[trigger] g.units[k]).selected || g.my_id != Some(
                g.units[k].owner_id,
            ),
    ensures
        h == (GameView {
            selected_building: None,
            last_click_x: sx,
            last_click_y: sy,
            last_click_time: now,
            ..g
        }),
        orders.len() == 0,
        !preview,
{
    let n = g.click_noted(sx, sy, now);
    let p = g.world_at(sx, sy);
    lemma_sixteen();
    assert forall|k: int| !n.is_unit_at(k, p) by {
        if n.is_unit_at(k, p) {
            assert(!within_ten(g, g.units[k], p));
        }
    }
    assert forall|k: int| !n.is_building_at(k, p) by {
        if n.is_building_at(k, p) {
            assert(!under_point(g, g.land.buildings[k], p));
        }
    }
    assert(!n.any_chosen());
}

/// Who does not play yet clicks in vain. A click on a button does what the button does. While a wall
/// is being marked out, the first click on the world sets its start and the second its end, on the
/// tile of the point, and only the second asks for its tiles.
pub proof fn other_clicks_press_and_mark(
    g: GameView,
    sx: Single,
    sy: Single,
    now: Double,
    since: Double,
    h: GameView,
    orders: Seq<Order>,
    preview: bool,
)
    requires
        is_click(g, sx, sy, now, since, h, orders, preview),
    ensures
        ({
            let b = g.button_at(sx, sy);
            let t = space::tile_of(g.world_at(sx, sy));
            let marks = g.my_id is Some && b == Button::World && g.build_mode;
            &&& g.my_id is None ==> h == g && orders.len() == 0 && !preview
            &&& g.my_id is Some && b != Button::World ==> h == g.pressed(b) && orders
                == g.press_orders(b) && !preview
            &&& marks ==> orders.len() == 0 && h == (GameView {
                wall_start: h.wall_start,
                wall_end: h.wall_end,
                wall_preview: h.wall_preview,
                ..g
            })
            &&& marks && g.wall_start is None ==> h.wall_start == Some(t) && h.wall_end
                == g.wall_end && h.wall_preview.len() == 0 && !preview
            &&& marks && g.wall_start is Some && g.wall_end is None ==> h.wall_end == Some(t)
                && h.wall_start == g.wall_start && h.wall_preview == g.wall_preview && preview
            &&& marks && g.wall_start is Some && g.wall_end is Some ==> h == g && !preview
        }),
{
}

} // verus!
