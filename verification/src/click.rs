//! What a click does: it presses a button, selects, sends units off, or marks out a wall.
use crate::game;
use crate::game::{GameState, GameView, Order, UnitView};
use crate::single::Single;
use crate::space;
use crate::space::tile_edge;
use crate::terrain::Building;
use crate::exact;
use crate::single;
use vstd::prelude::*;

verus! {

/// The pattern of 300: how many milliseconds may lie between the two clicks of a double click.
pub const DOUBLE_CLICK: u64 = 0x4072_c000_0000_0000;

/// The most units whose icons are shown.
pub const MAX_ICONS: usize = 10;

/// What can be pressed, besides the world itself.
#[derive(Clone, Copy, Debug, PartialEq, Eq, Structural)]
pub enum Button {
    /// The icon of the selected unit with the given number in the list of units.
    Icon(usize),
    Home,
    Group,
    Spawn,
    Wall,
    Confirm,
    Cancel,
    /// A place of the footer without a button.
    Footer,
    World,
}

/// Whether a coordinate lies between two whole numbers or on one of them.
pub open spec fn between(x: Single, lo: int, hi: int) -> bool {
    Single::of_int(lo).at_most(x) && x.at_most(Single::of_int(hi))
}

/// Whether a point lies on a button of the footer that begins at the given column. A button is 40
/// pixels wide and high.
pub open spec fn on_button(sx: Single, sy: Single, left: int) -> bool {
    between(sx, left, left + 40) && between(sy, 590, 630)
}

/// The icon at a column, counted from the `i`-th on, where there are `n`.
pub open spec fn icon_from(sx: Single, i: int, n: int) -> Option<int>
    decreases n - i,
{
    if i >= n {
        None
    } else if between(sx, 10 + 24 * i, 30 + 24 * i) {
        Some(i)
    } else {
        icon_from(sx, i + 1, n)
    }
}

/// The smaller of two numbers.
pub open spec fn least(a: int, b: int) -> int {
    if a < b {
        a
    } else {
        b
    }
}

impl GameView {
    /// Whether the unit is selected and the player's own.
    pub open spec fn chosen(self, u: UnitView) -> bool {
        u.selected && self.mine(u)
    }

    /// The numbers of those of the first `n` units that are selected and the player's own.
    pub open spec fn selection(self, n: int) -> Seq<usize>
        decreases n,
    {
        if n <= 0 {
            Seq::empty()
        } else if self.chosen(self.units[n - 1]) {
            self.selection(n - 1).push((n - 1) as usize)
        } else {
            self.selection(n - 1)
        }
    }

    /// Whether a unit of the player is selected.
    pub open spec fn any_chosen(self) -> bool {
        exists|i: int| 0 <= i < self.units.len() && self.chosen(#[trigger] self.units[i])
    }

    /// The unit whose icon is at a point.
    pub open spec fn icon_at(self, sx: Single, sy: Single) -> Option<usize> {
        let s = self.selection(self.units.len() as int);
        if between(sy, 555, 575) {
            match icon_from(sx, 0, least(s.len() as int, MAX_ICONS as int)) {
                Some(i) => Some(s[i]),
                None => None,
            }
        } else {
            None
        }
    }

    /// Whether the selected building is a town center.
    pub open spec fn town_selected(self) -> bool {
        match self.selected_building {
            Some(b) => b < self.land.buildings.len() && self.land.buildings[b as int].kind == 0,
            None => false,
        }
    }

    /// What is at a point of the picture. The icons come first; then, in the footer, the button
    /// for the town center, the one for groups, and those that are there for the time being.
    pub open spec fn button_at(self, sx: Single, sy: Single) -> Button {
        if self.icon_at(sx, sy) is Some {
            Button::Icon(self.icon_at(sx, sy)->0)
        } else if !Single::of_int(580).below(sy) {
            Button::World
        } else if on_button(sx, sy, 160) {
            Button::Home
        } else if on_button(sx, sy, 210) {
            Button::Group
        } else if self.town_selected() && on_button(sx, sy, 10) {
            Button::Spawn
        } else if self.selected_building is None && self.any_chosen() && on_button(sx, sy, 10) {
            Button::Wall
        } else if self.build_mode && self.wall_end is Some && on_button(sx, sy, 260) {
            Button::Confirm
        } else if self.build_mode && self.wall_end is Some && on_button(sx, sy, 310) {
            Button::Cancel
        } else {
            Button::Footer
        }
    }

    /// The game with the unit selected or not.
    pub open spec fn marked(self, i: int, selected: bool) -> GameView {
        GameView {
            units: self.units.update(i, UnitView { selected, ..self.units[i] }),
            ..self
        }
    }

    /// The game with no unit selected.
    pub open spec fn unmarked(self) -> GameView {
        GameView {
            units: Seq::new(
                self.units.len(),
                |i: int| UnitView { selected: false, ..self.units[i] },
            ),
            ..self
        }
    }

    /// Whether the building is the player's first town center.
    pub open spec fn is_home(self, i: int) -> bool {
        &&& 0 <= i < self.land.buildings.len()
        &&& self.own_town(self.land.buildings[i])
        &&& forall|j: int| 0 <= j < i ==> !self.own_town(#[trigger] self.land.buildings[j])
    }

    /// Whether the building is a town center of the player.
    pub open spec fn own_town(self, b: Building) -> bool {
        self.my_id == Some(b.owner_id) && b.kind == 0
    }

    /// The game with the player's first town center selected and in view; without one it stays
    /// as it is.
    pub open spec fn gone_home(self) -> GameView {
        if exists|i: int| #[trigger] self.is_home(i) {
            let i = choose|i: int| #[trigger] self.is_home(i);
            let b = self.land.buildings[i];
            GameView {
                selected_building: Some(i as usize),
                target_zoom: Single { bits: game::ONE },
                camera_x: space::edge_at(b.tile_x),
                camera_y: space::edge_at(b.tile_y),
                ..self.unmarked()
            }
        } else {
            self
        }
    }

    /// The game without a wall marked out.
    pub open spec fn wall_dropped(self) -> GameView {
        GameView { wall_start: None, wall_end: None, wall_preview: Seq::empty(), ..self }
    }

    /// The game after the button for walls: it turns building on, or off and drops the wall.
    pub open spec fn wall_toggled(self) -> GameView {
        if self.build_mode {
            GameView { build_mode: false, ..self.wall_dropped() }
        } else {
            GameView { build_mode: true, ..self }
        }
    }

    /// The game after the wall was confirmed. With nothing to build, building stays on.
    pub open spec fn wall_confirmed(self) -> GameView {
        if self.wall_preview.len() == 0 {
            self.wall_dropped()
        } else {
            GameView { build_mode: false, ..self.wall_dropped() }
        }
    }

    /// What is asked of the server when the wall is confirmed: a piece of wall on each tile.
    pub open spec fn wall_orders(self) -> Seq<Order> {
        Seq::new(
            self.wall_preview.len(),
            |i: int|
                Order::Build {
                    kind: 1,
                    tile_x: self.wall_preview[i].0,
                    tile_y: self.wall_preview[i].1,
                },
        )
    }

    /// The game after a button was pressed.
    pub open spec fn pressed(self, b: Button) -> GameView {
        match b {
            Button::Icon(i) => self.marked(i as int, false),
            Button::Home => self.gone_home(),
            Button::Group => GameView { group_select_mode: !self.group_select_mode, ..self },
            Button::Wall => self.wall_toggled(),
            Button::Confirm => self.wall_confirmed(),
            Button::Cancel => self.wall_dropped(),
            _ => self,
        }
    }

    /// What a button asks of the server.
    pub open spec fn press_orders(self, b: Button) -> Seq<Order> {
        match b {
            Button::Spawn => seq![Order::SpawnUnit],
            Button::Confirm => self.wall_orders(),
            _ => Seq::empty(),
        }
    }
}

fn is_between(x: Single, lo: i32, hi: i32) -> (r: bool)
    ensures
        r == between(x, lo as int, hi as int),
{
    Single::from_i32(lo).le(x) && x.le(Single::from_i32(hi))
}

fn is_on_button(sx: Single, sy: Single, left: i32) -> (r: bool)
    requires
        0 <= left < 1000,
    ensures
        r == on_button(sx, sy, left as int),
{
    is_between(sx, left, left + 40) && is_between(sy, 590, 630)
}

impl GameState {
    /// The numbers of the units that are selected and the player's own.
    pub fn selected_units(&self) -> (s: Vec<usize>)
        ensures
            s@ == self@.selection(self@.units.len() as int),
            forall|i: int| 0 <= i < s@.len() ==> #[trigger] s@[i] < self@.units.len(),
            (s@.len() > 0) == self@.any_chosen(),
    {
        let mut out: Vec<usize> = Vec::new();
        let mut i: usize = 0;
        while i < self.units.len()
            invariant
                i <= self.units@.len(),
                out@ == self@.selection(i as int),
                forall|k: int| 0 <= k < out@.len() ==> #[trigger] out@[k] < i,
                (out@.len() > 0) == (exists|k: int|
                    0 <= k < i && self@.chosen(#[trigger] self@.units[k])),
            decreases self.units@.len() - i,
        {
            assert(self@.units[i as int] == self.units@[i as int]@);
            if self.units[i].selected && self.is_mine(self.units[i].owner_id) {
                assert(self@.chosen(self@.units[i as int]));
                out.push(i);
            }
            i = i + 1;
        }
        out
    }

    /// The unit whose icon is at a point.
    fn find_icon(&self, sx: Single, sy: Single) -> (r: Option<usize>)
        ensures
            r == self@.icon_at(sx, sy),
            r matches Some(i) ==> i < self@.units.len(),
    {
        if !is_between(sy, 555, 575) {
            return None;
        }
        let s = self.selected_units();
        let n: usize = if s.len() < MAX_ICONS { s.len() } else { MAX_ICONS };
        let mut i: usize = 0;
        while i < n
            invariant
                i <= n,
                n <= MAX_ICONS,
                n <= s@.len(),
                n == least(s@.len() as int, MAX_ICONS as int),
                s@ == self@.selection(self@.units.len() as int),
                forall|k: int| 0 <= k < s@.len() ==> #[trigger] s@[k] < self@.units.len(),
                between(sy, 555, 575),
                icon_from(sx, 0, n as int) == icon_from(sx, i as int, n as int),
            decreases n - i,
        {
            if is_between(sx, 10 + 24 * (i as i32), 30 + 24 * (i as i32)) {
                return Some(s[i]);
            }
            i = i + 1;
        }
        None
    }

    /// What is at a point of the picture.
    pub fn find_button(&self, sx: Single, sy: Single) -> (b: Button)
        ensures
            b == self@.button_at(sx, sy),
            b matches Button::Icon(i) ==> i < self@.units.len(),
    {
        match self.find_icon(sx, sy) {
            Some(i) => {
                return Button::Icon(i);
            },
            None => {},
        }
        if !Single::from_i32(580).lt(sy) {
            return Button::World;
        }
        if is_on_button(sx, sy, 160) {
            return Button::Home;
        }
        if is_on_button(sx, sy, 210) {
            return Button::Group;
        }
        match self.selected_building {
            Some(b) => {
                if b < self.land.buildings.len() && self.land.buildings[b].kind == 0
                    && is_on_button(sx, sy, 10) {
                    return Button::Spawn;
                }
            },
            None => {
                let s = self.selected_units();
                if s.len() > 0 && is_on_button(sx, sy, 10) {
                    return Button::Wall;
                }
            },
        }
        if self.build_mode && self.wall_end.is_some() {
            if is_on_button(sx, sy, 260) {
                return Button::Confirm;
            }
            if is_on_button(sx, sy, 310) {
                return Button::Cancel;
            }
        }
        Button::Footer
    }

    /// Selects a unit, or takes it out of the selection.
    pub(crate) fn mark(&mut self, i: usize, selected: bool)
        requires
            i < old(self)@.units.len(),
        ensures
            final(self)@ == old(self)@.marked(i as int, selected),
    {
        let ghost v = self@;
        assert(v.units[i as int] == self.units@[i as int]@);
        self.units[i].selected = selected;
        assert(self@.units =~= v.marked(i as int, selected).units);
    }

    /// Takes every unit out of the selection.
    pub(crate) fn unmark_all(&mut self)
        ensures
            final(self)@ == old(self)@.unmarked(),
    {
        let ghost v = self@;
        let mut i: usize = 0;
        while i < self.units.len()
            invariant
                i <= self@.units.len(),
                self@.units.len() == v.units.len(),
                self@ == (GameView { units: self@.units, ..v }),
                forall|k: int|
                    0 <= k < i ==> #[trigger] self@.units[k] == (UnitView {
                        selected: false,
                        ..v.units[k]
                    }),
                forall|k: int| i <= k < v.units.len() ==> #[trigger] self@.units[k] == v.units[k],
            decreases v.units.len() - i,
        {
            self.mark(i, false);
            i = i + 1;
        }
        assert(self@.units =~= v.unmarked().units);
    }

    /// Selects the player's first town center and looks at it.
    fn go_home(&mut self)
        ensures
            final(self)@ == old(self)@.gone_home(),
    {
        let ghost v = self@;
        let mut i: usize = 0;
        while i < self.land.buildings.len()
            invariant
                v == old(self)@,
                self@ == v,
                i <= v.land.buildings.len(),
                forall|j: int| 0 <= j < i ==> !v.own_town(#[trigger] v.land.buildings[j]),
            decreases v.land.buildings.len() - i,
        {
            let b = self.land.buildings[i];
            if self.is_mine(b.owner_id) && b.kind == 0 {
                proof {
                    assert(v.is_home(i as int));
                    let k = choose|k: int| #[trigger] v.is_home(k);
                    assert(v.is_home(k));
                    assert(v.own_town(v.land.buildings[k]));
                    assert(k == i);
                    assert(b == v.land.buildings[k]);
                }
                self.unmark_all();
                self.selected_building = Some(i);
                self.target_zoom = Single { bits: game::ONE };
                self.camera_x = tile_edge(b.tile_x);
                self.camera_y = tile_edge(b.tile_y);
                return;
            }
            i = i + 1;
        }
    }

    /// Drops the wall that was marked out; building stays on.
    pub fn cancel_wall_build(&mut self)
        ensures
            final(self)@ == old(self)@.wall_dropped(),
    {
        self.wall_start = None;
        self.wall_end = None;
        self.wall_preview = Vec::new();
    }

    /// Asks for a piece of wall on each tile that was marked out.
    pub fn confirm_wall_build(&mut self) -> (r: Vec<Order>)
        ensures
            final(self)@ == old(self)@.wall_confirmed(),
            r@ == old(self)@.wall_orders(),
    {
        let ghost v = self@;
        let mut out: Vec<Order> = Vec::new();
        if self.wall_preview.len() == 0 {
            self.cancel_wall_build();
            assert(out@ =~= v.wall_orders());
            return out;
        }
        let mut i: usize = 0;
        while i < self.wall_preview.len()
            invariant
                self@ == v,
                i <= v.wall_preview.len(),
                out@ == v.wall_orders().take(i as int),
            decreases v.wall_preview.len() - i,
        {
            let (tile_x, tile_y) = self.wall_preview[i];
            out.push(Order::Build { kind: 1, tile_x, tile_y });
            i = i + 1;
            assert(out@ =~= v.wall_orders().take(i as int));
        }
        assert(out@ =~= v.wall_orders());
        self.cancel_wall_build();
        self.build_mode = false;
        out
    }

    /// Presses a button.
    pub fn press(&mut self, b: Button) -> (r: Vec<Order>)
        requires
            b matches Button::Icon(i) ==> i < old(self)@.units.len(),
        ensures
            final(self)@ == old(self)@.pressed(b),
            r@ == old(self)@.press_orders(b),
    {
        let mut out: Vec<Order> = Vec::new();
        match b {
            Button::Icon(i) => {
                self.mark(i, false);
            },
            Button::Home => {
                self.go_home();
            },
            Button::Group => {
                self.group_select_mode = !self.group_select_mode;
            },
            Button::Spawn => {
                out.push(Order::SpawnUnit);
            },
            Button::Wall => {
                if self.build_mode {
                    self.cancel_wall_build();
                    self.build_mode = false;
                } else {
                    self.build_mode = true;
                }
            },
            Button::Confirm => {
                return self.confirm_wall_build();
            },
            Button::Cancel => {
                self.cancel_wall_build();
            },
            Button::Footer => {},
            Button::World => {},
        }
        out
    }
}

/// The selection lists every own unit that is selected, whatever its kind, and no other, each once
/// and in the order of the list.
pub proof fn the_selection_is_what_is_selected(g: GameView, n: int, i: int)
    requires
        0 <= n <= g.units.len() <= usize::MAX,
    ensures
        ({
            let s = g.selection(n);
            &&& 0 <= i < n ==> (s.contains(i as usize) <==> g.units[i].selected && g.my_id == Some(
                g.units[i].owner_id,
            ))
            &&& forall|j: int| 0 <= j < s.len() ==> (#[trigger] s[j]) < n
            &&& forall|j: int, k: int| 0 <= j < k < s.len() ==> (#[trigger] s[j]) < (#[trigger] s[k])
        }),
    decreases n,
{
    if n > 0 {
        the_selection_is_what_is_selected(g, n - 1, i);
        let before = g.selection(n - 1);
        let s = g.selection(n);
        if g.chosen(g.units[n - 1]) {
            assert(s[before.len() as int] == (n - 1) as usize);
            if 0 <= i < n - 1 && before.contains(i as usize) {
                let j = choose|j: int| 0 <= j < before.len() && before[j] == i as usize;
                assert(s[j] == i as usize);
            }
            if 0 <= i < n - 1 && s.contains(i as usize) {
                let j = choose|j: int| 0 <= j < s.len() && s[j] == i as usize;
                assert(before[j] == i as usize);
            }
        } else if 0 <= i == n - 1 && before.contains(i as usize) {
            let j = choose|j: int| 0 <= j < before.len() && before[j] == i as usize;
            assert(before[j] < n - 1);
        }
    }
}

/// To press the icon of a unit takes it out of the selection, and no other unit.
pub proof fn icons_deselect(g: GameView, i: usize, j: int)
    requires
        i < g.units.len(),
        0 <= j < g.units.len(),
    ensures
        ({
            let h = g.pressed(Button::Icon(i));
            let u = g.units[j];
            &&& j == i ==> h.units[j] == (UnitView { selected: false, ..u })
            &&& j != i ==> h.units[j] == u
            &&& h == (GameView { units: h.units, ..g })
            &&& g.press_orders(Button::Icon(i)).len() == 0
        }),
{
}

/// The button for the town center selects the first town center of the player, whoever else has
/// one, deselects all units and looks at it. Without one it does nothing.
pub proof fn the_home_button_leads_home(g: GameView, i: int, j: int)
    requires
        0 <= j < g.units.len() || g.units.len() == 0,
    ensures
        ({
            let h = g.pressed(Button::Home);
            let home = 0 <= i < g.land.buildings.len() && g.my_id == Some(
                g.land.buildings[i].owner_id,
            ) && g.land.buildings[i].kind == 0 && (forall|k: int|
                0 <= k < i ==> g.my_id != Some((#[trigger] g.land.buildings[k]).owner_id)
                    || g.land.buildings[k].kind != 0);
            &&& home ==> {
                &&& h.selected_building == Some(i as usize)
                &&& h.camera_x == space::edge_at(g.land.buildings[i].tile_x)
                &&& h.camera_y == space::edge_at(g.land.buildings[i].tile_y)
                &&& h.target_zoom == Single::of_int(1)
                &&& g.units.len() > 0 ==> h.units[j] == (UnitView { selected: false, ..g.units[j] })
            }
            &&& (forall|k: int|
                0 <= k < g.land.buildings.len() ==> g.my_id != Some(
                    (#[trigger] g.land.buildings[k]).owner_id,
                ) || g.land.buildings[k].kind != 0) ==> h == g
            &&& h.units.len() == g.units.len() && h == (GameView {
                units: h.units,
                selected_building: h.selected_building,
                target_zoom: h.target_zoom,
                camera_x: h.camera_x,
                camera_y: h.camera_y,
                ..g
            })
            &&& g.press_orders(Button::Home).len() == 0
        }),
{
    crate::economy::amounts_are_whole();
    if exists|k: int| #[trigger] g.is_home(k) {
        let k = choose|k: int| #[trigger] g.is_home(k);
        assert(g.is_home(k));
        assert(g.own_town(g.land.buildings[k]));
        if 0 <= i < g.land.buildings.len() && g.own_town(g.land.buildings[i]) && (forall|m: int|
            0 <= m < i ==> g.my_id != Some((#[trigger] g.land.buildings[m]).owner_id)
                || g.land.buildings[m].kind != 0) {
            assert(i == k);
        }
    } else if 0 <= i < g.land.buildings.len() && g.own_town(g.land.buildings[i]) && (forall|m: int|
        0 <= m < i ==> g.my_id != Some((#[trigger] g.land.buildings[m]).owner_id)
            || g.land.buildings[m].kind != 0) {
        assert(g.is_home(i));
    }
}

/// The button for groups turns the mode on and off again and does nothing else; so does the one for
/// walls, which drops the wall that was marked out when it turns building off.
pub proof fn buttons_turn_on_and_off(g: GameView)
    ensures
        g.pressed(Button::Group) == (GameView { group_select_mode: !g.group_select_mode, ..g }),
        g.pressed(Button::Group).pressed(Button::Group) == g,
        !g.build_mode ==> g.pressed(Button::Wall) == (GameView { build_mode: true, ..g }),
        g.build_mode ==> g.pressed(Button::Wall) == (GameView {
            build_mode: false,
            wall_start: None,
            wall_end: None,
            wall_preview: Seq::empty(),
            ..g
        }),
        g.press_orders(Button::Group).len() == 0 && g.press_orders(Button::Wall).len() == 0,
        g.pressed(Button::Footer) == g && g.press_orders(Button::Footer).len() == 0,
        g.pressed(Button::Spawn) == g && g.press_orders(Button::Spawn) == seq![Order::SpawnUnit],
{
}

/// A confirmed wall is asked for piece by piece: one on each tile that was marked out and in that
/// order, and nothing else. Then nothing is marked out; building is over if there was something to
/// build. A dropped wall is asked for nowhere.
pub proof fn walls_are_asked_for_tile_by_tile(g: GameView, i: int)
    ensures
        ({
            let orders = g.press_orders(Button::Confirm);
            let h = g.pressed(Button::Confirm);
            let k = g.pressed(Button::Cancel);
            &&& orders.len() == g.wall_preview.len()
            &&& 0 <= i < orders.len() ==> orders[i] == (Order::Build {
                kind: 1,
                tile_x: g.wall_preview[i].0,
                tile_y: g.wall_preview[i].1,
            })
            &&& h.wall_preview.len() == 0 && h.wall_start is None && h.wall_end is None
            &&& h.build_mode == (g.build_mode && g.wall_preview.len() == 0)
            &&& h == (GameView {
                wall_preview: h.wall_preview,
                wall_start: None,
                wall_end: None,
                build_mode: h.build_mode,
                ..g
            })
            &&& k.wall_preview.len() == 0 && k.wall_start is None && k.wall_end is None
            &&& k == (GameView {
                wall_preview: k.wall_preview,
                wall_start: None,
                wall_end: None,
                ..g
            })
            &&& g.press_orders(Button::Cancel).len() == 0
        }),
{
}

/// Each button is where its square is: 40 pixels wide and high, 590 pixels down. The squares of the
/// town center and of groups are always there; the first one belongs to the worker while any town
/// center is selected, else to walls while no building and some own unit is; the last two are there
/// while a wall has both its ends. Below 580 pixels all else is the footer, above it the world.
pub proof fn buttons_are_where_their_squares_are(g: GameView, x: int, y: int)
    requires
        -0x10000 < x < 0x10000,
        -0x10000 < y < 0x10000,
        !(555 <= y <= 575),
    ensures
        ({
            let b = g.button_at(Single::of_int(x), Single::of_int(y));
            let row = 590 <= y <= 630;
            let town = g.selected_building matches Some(k) && k < g.land.buildings.len()
                && g.land.buildings[k as int].kind == 0;
            let some = exists|i: int|
                0 <= i < g.units.len() && (#[trigger] g.units[i]).selected && g.my_id == Some(
                    g.units[i].owner_id,
                );
            let both = g.build_mode && g.wall_end is Some;
            &&& y <= 580 ==> b == Button::World
            &&& y > 580 && !row ==> b == Button::Footer
            &&& row && 160 <= x <= 200 ==> b == Button::Home
            &&& row && 210 <= x <= 250 ==> b == Button::Group
            &&& row && 10 <= x <= 50 && town ==> b == Button::Spawn
            &&& row && 10 <= x <= 50 && g.selected_building is None && some ==> b == Button::Wall
            &&& row && 10 <= x <= 50 && !town && !(g.selected_building is None && some) ==> b
                == Button::Footer
            &&& row && 260 <= x <= 300 ==> b == (if both {
                Button::Confirm
            } else {
                Button::Footer
            })
            &&& row && 310 <= x <= 350 ==> b == (if both {
                Button::Cancel
            } else {
                Button::Footer
            })
            &&& row && (x < 10 || 50 < x < 160 || 200 < x < 210 || 250 < x < 260 || 300 < x < 310
                || x > 350) ==> b == Button::Footer
        }),
{
    lemma_order(y, 555);
    lemma_order(y, 575);
    lemma_order(y, 580);
    lemma_order(y, 590);
    lemma_order(y, 630);
    lemma_order(x, 10);
    lemma_order(x, 50);
    lemma_order(x, 160);
    lemma_order(x, 200);
    lemma_order(x, 210);
    lemma_order(x, 250);
    lemma_order(x, 260);
    lemma_order(x, 300);
    lemma_order(x, 310);
    lemma_order(x, 350);
    if g.any_chosen() {
        let i = choose|i: int| 0 <= i < g.units.len() && g.chosen(#[trigger] g.units[i]);
        assert(g.units[i].selected);
    }
    if exists|i: int|
        0 <= i < g.units.len() && (#[trigger] g.units[i]).selected && g.my_id == Some(
            g.units[i].owner_id,
        ) {
        let i = choose|i: int|
            0 <= i < g.units.len() && (#[trigger] g.units[i]).selected && g.my_id == Some(
                g.units[i].owner_id,
            );
        assert(g.chosen(g.units[i]));
    }
}

/// Whole numbers are ordered as they should be.
proof fn lemma_order(a: int, b: int)
    requires
        exact::small(a),
        exact::small(b),
    ensures
        Single::of_int(a).at_most(Single::of_int(b)) <==> a <= b,
        Single::of_int(b).at_most(Single::of_int(a)) <==> b <= a,
        Single::of_int(b).below(Single::of_int(a)) <==> b < a,
        Single::of_int(a).below(Single::of_int(b)) <==> a < b,
{
    exact::small_numbers_are_exact(a);
    exact::small_numbers_are_exact(b);
    single::order_is_by_value(Single::of_int(a), Single::of_int(b));
    single::order_is_by_value(Single::of_int(b), Single::of_int(a));
    let p = vstd::arithmetic::power2::pow2(single::places());
    vstd::arithmetic::power2::lemma_pow2_pos(single::places());
    assert(a * p < b * p <==> a < b) by (nonlinear_arith)
        requires
            p > 0,
    ;
    assert(b * p < a * p <==> b < a) by (nonlinear_arith)
        requires
            p > 0,
    ;
}

/// The icon of the unit with number `k` in the selection is where its square is: 20 pixels wide and
/// high, 24 pixels from one to the next, for the first ten.
pub proof fn icons_are_where_their_squares_are(g: GameView, x: int, y: int, k: int)
    requires
        0 <= k < 10,
        k < g.selection(g.units.len() as int).len(),
        10 + 24 * k <= x <= 30 + 24 * k,
        555 <= y <= 575,
    ensures
        g.button_at(Single::of_int(x), Single::of_int(y)) == Button::Icon(
            g.selection(g.units.len() as int)[k],
        ),
{
    let s = g.selection(g.units.len() as int);
    lemma_order(y, 555);
    lemma_order(y, 575);
    lemma_icon(x, 0, least(s.len() as int, MAX_ICONS as int), k);
}

proof fn lemma_icon(x: int, i: int, n: int, k: int)
    requires
        0 <= i <= k < n <= 10,
        10 + 24 * k <= x <= 30 + 24 * k,
    ensures
        icon_from(Single::of_int(x), i, n) == Some(k),
    decreases k - i,
{
    lemma_order(x, 10 + 24 * i);
    lemma_order(x, 30 + 24 * i);
    if i < k {
        lemma_icon(x, i + 1, n, k);
    }
}

/// Between the icons, and where there is none, the world is clicked.
pub proof fn between_the_icons_is_the_world(g: GameView, x: int, y: int)
    requires
        -0x10000 < x < 0x10000,
        555 <= y <= 575,
        forall|k: int|
            0 <= k < 10 && k < g.selection(g.units.len() as int).len() ==> x < #[trigger] (10 + 24
                * k) || 30 + 24 * k < x,
    ensures
        g.button_at(Single::of_int(x), Single::of_int(y)) == Button::World,
{
    let s = g.selection(g.units.len() as int);
    lemma_order(y, 555);
    lemma_order(y, 575);
    lemma_order(y, 580);
    let n = least(s.len() as int, MAX_ICONS as int);
    lemma_no_icon(x, 0, n);
}

proof fn lemma_no_icon(x: int, i: int, n: int)
    requires
        -0x10000 < x < 0x10000,
        0 <= i <= n <= 10,
        forall|k: int| 0 <= k < n ==> x < #[trigger] (10 + 24 * k) || 30 + 24 * k < x,
    ensures
        icon_from(Single::of_int(x), i, n) is None,
    decreases n - i,
{
    if i < n {
        lemma_order(x, 10 + 24 * i);
        lemma_order(x, 30 + 24 * i);
        assert(x < 10 + 24 * i || 30 + 24 * i < x);
        lemma_no_icon(x, i + 1, n);
    }
}

} // verus!
