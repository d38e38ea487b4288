//! What the mouse and fingers do: they pan, zoom, drag a box around units, and click.
use crate::command;
use crate::command::Clicked;
use crate::game::{GameState, GameView, UnitView};
use crate::single::Single;
use crate::space;
use crate::space::{length, Point};
use crate::terrain::Double;
use vstd::prelude::*;

verus! {

/// The patterns of 0.001, 0.05 and 5: how much a step of the wheel zooms, and the least and the
/// most zoom.
pub const WHEEL_STEP: u32 = 0x3a83_126f;

pub const LEAST_ZOOM: u32 = 0x3d4c_cccd;

pub const MOST_ZOOM: u32 = 0x40a0_0000;

/// A number that is kept between two others.
pub open spec fn kept_between(x: Single, lo: Single, hi: Single) -> Single {
    if x.below(lo) {
        lo
    } else if hi.below(x) {
        hi
    } else {
        x
    }
}

/// Whether two points are less than 15 pixels apart: the finger or the mouse did not move.
pub open spec fn held_still(a: Point, b: Point) -> bool {
    moved_by(a, b).below(Single::of_int(15))
}

/// How far apart two points are.
pub open spec fn moved_by(a: Point, b: Point) -> Single {
    space::length_of(b.0.difference(a.0), b.1.difference(a.1))
}

/// Whether a unit is in the box that has two opposite corners.
pub open spec fn in_box(u: UnitView, a: Point, b: Point) -> bool {
    &&& a.0.smaller(b.0).at_most(u.x) && u.x.at_most(a.0.larger(b.0))
    &&& a.1.smaller(b.1).at_most(u.y) && u.y.at_most(a.1.larger(b.1))
}

impl GameView {
    /// The game with the zoom it is heading for changed by a turn of the wheel.
    pub open spec fn zoomed(self, delta: Single) -> GameView {
        GameView {
            target_zoom: kept_between(
                self.target_zoom.difference(delta.product(Single { bits: WHEEL_STEP })),
                Single { bits: LEAST_ZOOM },
                Single { bits: MOST_ZOOM },
            ),
            ..self
        }
    }

    /// The game after two fingers are so far apart.
    pub open spec fn pinched(self, dist: Single) -> GameView {
        let g = match self.last_touch_dist {
            Some(last) => self.zoomed(
                last.difference(dist).product(Single { bits: crate::march::FIVE }),
            ),
            None => self,
        };
        GameView { last_touch_dist: Some(dist), ..g }
    }

    /// The game after the picture was dragged to a point.
    pub open spec fn panned(self, x: Single, y: Single) -> GameView {
        let g = match (self.last_pan_x, self.last_pan_y) {
            (Some(lx), Some(ly)) => GameView {
                camera_x: self.camera_x.difference(x.difference(lx).quotient(self.zoom)),
                camera_y: self.camera_y.difference(y.difference(ly).quotient(self.zoom)),
                ..self
            },
            _ => self,
        };
        g.pan_noted(x, y)
    }

    /// The game that remembers from where the picture is dragged.
    pub open spec fn pan_noted(self, x: Single, y: Single) -> GameView {
        GameView { last_pan_x: Some(x), last_pan_y: Some(y), ..self }
    }

    /// The game when no finger is down.
    pub open spec fn released(self) -> GameView {
        GameView { last_touch_dist: None, last_pan_x: None, last_pan_y: None, ..self }
    }

    /// The game after a box was begun, which is possible only while groups are selected.
    pub open spec fn drag_begun(self, x: Single, y: Single) -> GameView {
        if self.group_select_mode {
            GameView { drag_start: Some((x, y)), drag_current: Some((x, y)), ..self }
        } else {
            self
        }
    }

    /// Whether a box is being dragged.
    pub open spec fn dragging(self) -> bool {
        self.group_select_mode && self.drag_start is Some
    }

    /// The game after the box was dragged to a point.
    pub open spec fn dragged(self, x: Single, y: Single) -> GameView {
        if self.dragging() {
            GameView { drag_current: Some((x, y)), ..self }
        } else {
            self
        }
    }

    /// The game after every unit of the player in a box has changed sides of the selection.
    pub open spec fn boxed(self, a: Point, b: Point) -> GameView {
        GameView {
            units: Seq::new(
                self.units.len(),
                |i: int|
                    if self.mine(self.units[i]) && in_box(self.units[i], a, b) {
                        UnitView { selected: !self.units[i].selected, ..self.units[i] }
                    } else {
                        self.units[i]
                    },
            ),
            ..self
        }
    }

    /// The game after the box was let go: the units in it are selected, and groups are no longer
    /// selected.
    pub open spec fn drag_ended(self) -> GameView {
        let g = match (self.drag_start, self.drag_current) {
            (Some(s), Some(e)) => if self.my_id is Some {
                GameView {
                    selected_building: None,
                    group_select_mode: false,
                    ..self.boxed(self.world_at(s.0, s.1), self.world_at(e.0, e.1))
                }
            } else {
                self
            },
            _ => self,
        };
        GameView { drag_start: None, drag_current: None, ..g }
    }

    /// The game after the mouse moved.
    pub open spec fn mouse_moved(self, x: Single, y: Single, pressed: bool) -> GameView {
        if self.dragging() {
            self.dragged(x, y)
        } else if pressed {
            self.panned(x, y)
        } else {
            self.pan_noted(x, y)
        }
    }

    /// The game after the mouse button went down: outside the footer it begins a box.
    pub open spec fn mouse_downed(self, x: Single, y: Single) -> GameView {
        let g = GameView { mouse_down_pos: Some((x, y)), ..self.released() };
        if y.at_most(Single::of_int(580)) {
            g.drag_begun(x, y)
        } else {
            g
        }
    }

    /// Whether the mouse went up where it went down.
    pub open spec fn was_click(self, x: Single, y: Single) -> bool {
        match self.mouse_down_pos {
            Some(p) => held_still(p, (x, y)),
            None => false,
        }
    }

    /// The game when the mouse button is up.
    pub open spec fn mouse_free(self) -> GameView {
        GameView { mouse_down_pos: None, ..self.released() }
    }

    /// The game after one finger came down.
    pub open spec fn touched(self, x: Single, y: Single) -> GameView {
        let g = GameView { mouse_down_pos: Some((x, y)), touch_is_pan_or_zoom: false, ..self };
        let h = if y.at_most(Single::of_int(580)) {
            g.drag_begun(x, y)
        } else {
            g
        };
        h.pan_noted(x, y)
    }

    /// The game after one finger moved: if it moved far, this is no tap.
    pub open spec fn finger_moved(self, x: Single, y: Single) -> GameView {
        let far = match self.mouse_down_pos {
            Some(p) => Single::of_int(15).below(moved_by(p, (x, y))),
            None => false,
        };
        let g = if far {
            GameView { touch_is_pan_or_zoom: true, ..self }
        } else {
            self
        };
        if g.dragging() {
            g.dragged(x, y)
        } else {
            g.panned(x, y)
        }
    }

    /// Whether the finger only tapped.
    pub open spec fn was_tap(self) -> bool {
        !self.touch_is_pan_or_zoom
    }

    /// The game after a box, if one was being dragged, was let go.
    pub open spec fn box_let_go(self) -> GameView {
        if self.dragging() {
            self.drag_ended()
        } else {
            self
        }
    }

    /// The game when all fingers are up.
    pub open spec fn fingers_free(self) -> GameView {
        GameView { mouse_down_pos: None, touch_is_pan_or_zoom: false, ..self.released() }
    }
}

/// The zoom that is aimed at stays between its bounds, whatever the wheel does, unless it is no
/// number.
pub proof fn zoom_stays_in_bounds(g: GameView, delta: Single)
    ensures
        ({
            let z = g.zoomed(delta).target_zoom;
            z.nan() || ((Single { bits: LEAST_ZOOM }).at_most(z) && z.at_most(
                Single { bits: MOST_ZOOM },
            ))
        }),
{
}

/// Dragging the same box twice leaves the selection as it was.
pub proof fn boxing_twice_changes_nothing(g: GameView, a: Point, b: Point)
    ensures
        g.boxed(a, b).boxed(a, b) == g,
{
    assert(g.boxed(a, b).boxed(a, b).units =~= g.units);
}

/// Whether a click at the place where the mouse or the finger went down, if `clicks`, turns the
/// game `g` into `h` and comes to `c`; without a click nothing happens.
pub open spec fn clicks_where_down(
    g: GameView,
    clicks: bool,
    now: Double,
    since: Double,
    h: GameView,
    c: Clicked,
) -> bool {
    match g.mouse_down_pos {
        Some(p) => if clicks {
            command::is_click(g, p.0, p.1, now, since, h, c.orders@, c.preview)
        } else {
            h == g && c.orders@.len() == 0 && !c.preview
        },
        None => h == g && c.orders@.len() == 0 && !c.preview,
    }
}

impl GameState {
    /// Begins a box, in the mode that selects by boxes.
    pub fn handle_drag_start(&mut self, screen_x: Single, screen_y: Single)
        ensures
            final(self)@ == old(self)@.drag_begun(screen_x, screen_y),
    {
        if self.group_select_mode {
            self.drag_start = Some((screen_x, screen_y));
            self.drag_current = Some((screen_x, screen_y));
        }
    }

    /// Draws the box that was begun to another corner.
    pub fn handle_drag_move(&mut self, screen_x: Single, screen_y: Single)
        ensures
            final(self)@ == old(self)@.dragged(screen_x, screen_y),
    {
        if self.group_select_mode && self.drag_start.is_some() {
            self.drag_current = Some((screen_x, screen_y));
        }
    }

    /// Lets every unit of the player in a box change sides of the selection.
    fn toggle_in_box(&mut self, a: Point, b: Point)
        ensures
            final(self)@ == old(self)@.boxed(a, b),
    {
        let ghost v = self@;
        let min_x = a.0.min(b.0);
        let max_x = a.0.max(b.0);
        let min_y = a.1.min(b.1);
        let max_y = a.1.max(b.1);
        let mut i: usize = 0;
        while i < self.units.len()
            invariant
                min_x == a.0.smaller(b.0),
                max_x == a.0.larger(b.0),
                min_y == a.1.smaller(b.1),
                max_y == a.1.larger(b.1),
                i <= self@.units.len(),
                self@.units.len() == v.units.len(),
                self@ == (GameView { units: self@.units, ..v }),
                forall|k: int| 0 <= k < i ==> #[trigger] self@.units[k] == v.boxed(a, b).units[k],
                forall|k: int| i <= k < v.units.len() ==> #[trigger] self@.units[k] == v.units[k],
            decreases v.units.len() - i,
        {
            assert(self@.units[i as int] == self.units@[i as int]@);
            let x = self.units[i].x;
            let y = self.units[i].y;
            if self.is_mine(self.units[i].owner_id) && min_x.le(x) && x.le(max_x) && min_y.le(y)
                && y.le(max_y) {
                let selected: bool = !self.units[i].selected;
                self.mark(i, selected);
            }
            i = i + 1;
        }
        assert(self@.units =~= v.boxed(a, b).units);
    }

    /// Lets go of the box: the player's units in it change sides of the selection.
    pub fn handle_drag_end(&mut self)
        ensures
            final(self)@ == old(self)@.drag_ended(),
    {
        match self.drag_start {
            Some(s) => match self.drag_current {
                Some(e) => {
                    if self.my_id.is_some() {
                        let a = self.screen_to_world(s.0, s.1);
                        let b = self.screen_to_world(e.0, e.1);
                        self.toggle_in_box(a, b);
                        self.selected_building = None;
                        self.group_select_mode = false;
                    }
                },
                None => {},
            },
            None => {},
        }
        self.drag_start = None;
        self.drag_current = None;
    }

    /// Turns the wheel.
    pub fn handle_zoom(&mut self, delta_y: Single)
        ensures
            final(self)@ == old(self)@.zoomed(delta_y),
    {
        let z = self.target_zoom.minus(delta_y.times(Single { bits: WHEEL_STEP }));
        let lo = Single { bits: LEAST_ZOOM };
        let hi = Single { bits: MOST_ZOOM };
        self.target_zoom = if z.lt(lo) {
            lo
        } else if hi.lt(z) {
            hi
        } else {
            z
        };
    }

    /// Moves two fingers, which are then so far apart.
    pub fn handle_touch_zoom(&mut self, dist: Single)
        ensures
            final(self)@ == old(self)@.pinched(dist),
    {
        match self.last_touch_dist {
            Some(last) => {
                self.handle_zoom(last.minus(dist).times(Single { bits: crate::march::FIVE }));
            },
            None => {},
        }
        self.last_touch_dist = Some(dist);
    }

    /// Drags the picture to a point.
    pub fn handle_pan(&mut self, screen_x: Single, screen_y: Single)
        ensures
            final(self)@ == old(self)@.panned(screen_x, screen_y),
    {
        match self.last_pan_x {
            Some(lx) => match self.last_pan_y {
                Some(ly) => {
                    self.camera_x = self.camera_x.minus(screen_x.minus(lx).over(self.zoom));
                    self.camera_y = self.camera_y.minus(screen_y.minus(ly).over(self.zoom));
                },
                None => {},
            },
            None => {},
        }
        self.last_pan_x = Some(screen_x);
        self.last_pan_y = Some(screen_y);
    }

    /// Forgets where the fingers were.
    pub fn end_touch(&mut self)
        ensures
            final(self)@ == old(self)@.released(),
    {
        self.last_touch_dist = None;
        self.last_pan_x = None;
        self.last_pan_y = None;
    }

    /// Moves the mouse; `pressed` is whether its first button alone is down.
    pub fn mouse_move(&mut self, x: Single, y: Single, pressed: bool)
        ensures
            final(self)@ == old(self)@.mouse_moved(x, y, pressed),
    {
        if self.group_select_mode && self.drag_start.is_some() {
            self.handle_drag_move(x, y);
        } else if pressed {
            self.handle_pan(x, y);
        } else {
            self.last_pan_x = Some(x);
            self.last_pan_y = Some(y);
        }
    }

    /// Presses the mouse button.
    pub fn mouse_down(&mut self, x: Single, y: Single)
        ensures
            final(self)@ == old(self)@.mouse_downed(x, y),
    {
        self.end_touch();
        self.mouse_down_pos = Some((x, y));
        if self.group_select_mode {
            if y.le(Single::from_i32(580)) {
                self.handle_drag_start(x, y);
            }
        }
    }

    /// Clicks where the mouse or the finger went down.
    fn click_where_down(&mut self, clicks: bool, now: Double, since: Double) -> (c: Clicked)
        requires
            old(self)@.wf(),
        ensures
            clicks_where_down(old(self)@, clicks, now, since, final(self)@, c),
            final(self)@.wf(),
    {
        if clicks {
            match self.mouse_down_pos {
                Some(p) => {
                    return self.handle_click(p.0, p.1, now, since);
                },
                None => {},
            }
        }
        Clicked { orders: Vec::new(), preview: false }
    }

    /// Lets the mouse button go: first the box, then the click, if the mouse held still.
    pub fn mouse_up(&mut self, x: Single, y: Single, now: Double, since: Double) -> (c: Clicked)
        requires
            old(self)@.wf(),
        ensures
            exists|h: GameView|
                #[trigger] clicks_where_down(
                    old(self)@.drag_ended(),
                    old(self)@.was_click(x, y),
                    now,
                    since,
                    h,
                    c,
                ) && final(self)@ == h.mouse_free(),
            final(self)@.wf(),
    {
        let clicks: bool = match self.mouse_down_pos {
            Some(p) => length(x.minus(p.0), y.minus(p.1)).lt(Single::from_i32(15)),
            None => false,
        };
        self.handle_drag_end();
        let c = self.click_where_down(clicks, now, since);
        proof {
            let v = old(self)@;
            assert(clicks_where_down(v.drag_ended(), v.was_click(x, y), now, since, self@, c));
        }
        self.mouse_down_pos = None;
        self.end_touch();
        c
    }

    /// Takes the mouse off the picture.
    pub fn mouse_leave(&mut self)
        ensures
            final(self)@ == old(self)@.drag_ended().mouse_free(),
    {
        self.mouse_down_pos = None;
        self.handle_drag_end();
        self.end_touch();
    }

    /// Puts one finger down.
    pub fn touch_start(&mut self, x: Single, y: Single)
        ensures
            final(self)@ == old(self)@.touched(x, y),
    {
        self.mouse_down_pos = Some((x, y));
        self.touch_is_pan_or_zoom = false;
        if self.group_select_mode && y.le(Single::from_i32(580)) {
            self.handle_drag_start(x, y);
        }
        self.last_pan_x = Some(x);
        self.last_pan_y = Some(y);
    }

    /// Puts several fingers down: this is no tap.
    pub fn touch_start_many(&mut self)
        ensures
            final(self)@ == (GameView { touch_is_pan_or_zoom: true, ..old(self)@ }),
    {
        self.touch_is_pan_or_zoom = true;
    }

    /// Moves one finger.
    pub fn touch_move(&mut self, x: Single, y: Single)
        ensures
            final(self)@ == old(self)@.finger_moved(x, y),
    {
        match self.mouse_down_pos {
            Some(p) => {
                if Single::from_i32(15).lt(length(x.minus(p.0), y.minus(p.1))) {
                    self.touch_is_pan_or_zoom = true;
                }
            },
            None => {},
        }
        if self.group_select_mode && self.drag_start.is_some() {
            self.handle_drag_move(x, y);
        } else {
            self.handle_pan(x, y);
        }
    }

    /// Moves two fingers, which are then at the given points.
    pub fn touch_move_two(&mut self, a: (i32, i32), b: (i32, i32))
        ensures
            final(self)@ == (GameView { touch_is_pan_or_zoom: true, ..old(self)@ }).pinched(
                space::length_of(
                    Single::of_int(crate::line::span(a.0 as int, b.0 as int)),
                    Single::of_int(crate::line::span(a.1 as int, b.1 as int)),
                ),
            ),
    {
        self.touch_is_pan_or_zoom = true;
        self.handle_touch_zoom(length(apart(a.0, b.0), apart(a.1, b.1)));
    }

    /// Takes the last finger off: first the box, then the click, if this was a tap.
    pub fn touch_end(&mut self, now: Double, since: Double) -> (c: Clicked)
        requires
            old(self)@.wf(),
        ensures
            exists|h: GameView|
                #[trigger] clicks_where_down(
                    old(self)@.box_let_go(),
                    old(self)@.was_tap(),
                    now,
                    since,
                    h,
                    c,
                ) && final(self)@ == h.fingers_free(),
            final(self)@.wf(),
    {
        if self.group_select_mode && self.drag_start.is_some() {
            self.handle_drag_end();
        }
        let clicks: bool = !self.touch_is_pan_or_zoom;
        let c = self.click_where_down(clicks, now, since);
        proof {
            let v = old(self)@;
            assert(clicks_where_down(v.box_let_go(), v.was_tap(), now, since, self@, c));
        }
        self.mouse_down_pos = None;
        self.touch_is_pan_or_zoom = false;
        self.end_touch();
        c
    }
}

/// How far two columns or rows are apart.
fn apart(a: i32, b: i32) -> (d: Single)
    ensures
        d == Single::of_int(crate::line::span(a as int, b as int)),
{
    let d: i64 = if a < b { b as i64 - a as i64 } else { a as i64 - b as i64 };
    Single::from_count(d as u64)
}

/// A box is the same whichever two opposite corners it was dragged between, and in whichever
/// direction. In it is whatever lies between its corners along both axes or on an edge, and
/// nothing else.
pub proof fn a_box_has_no_direction(u: UnitView, x1: Single, y1: Single, x2: Single, y2: Single)
    ensures
        in_box(u, (x1, y1), (x2, y2)) == in_box(u, (x2, y1), (x1, y2)),
        in_box(u, (x1, y1), (x2, y2)) == in_box(u, (x2, y2), (x1, y1)),
        !x1.nan() && !x2.nan() && !y1.nan() && !y2.nan() ==> (in_box(u, (x1, y1), (x2, y2)) <==> (
        x1.at_most(u.x) && u.x.at_most(x2) || x2.at_most(u.x) && u.x.at_most(x1)) && (y1.at_most(
            u.y,
        ) && u.y.at_most(y2) || y2.at_most(u.y) && u.y.at_most(y1))),
{
}

/// A box that is let go turns the selection of each own unit between its corners around, whatever
/// its kind, and of no other unit. It moves nobody, and afterwards there is no box, no building is
/// selected and single units are selected again.
pub proof fn boxes_select_own_units(g: GameView, a: Point, b: Point, i: int)
    requires
        0 <= i < g.units.len(),
        g.drag_start == Some(a),
        g.drag_current == Some(b),
        g.my_id is Some,
    ensures
        ({
            let h = g.drag_ended();
            let u = g.units[i];
            let w = h.units[i];
            let p = g.world_at(a.0, a.1);
            let q = g.world_at(b.0, b.1);
            let inside = (p.0.at_most(u.x) && u.x.at_most(q.0) || q.0.at_most(u.x) && u.x.at_most(
                p.0,
            )) && (p.1.at_most(u.y) && u.y.at_most(q.1) || q.1.at_most(u.y) && u.y.at_most(p.1));
            let own = g.my_id == Some(u.owner_id);
            &&& !p.0.nan() && !p.1.nan() && !q.0.nan() && !q.1.nan() ==> w.selected == (if own
                && inside {
                !u.selected
            } else {
                u.selected
            })
            &&& w.x == u.x && w.y == u.y && w.path == u.path && w.kind == u.kind && w.color
                == u.color && w.owner_id == u.owner_id
            &&& h.units.len() == g.units.len()
            &&& h.drag_start is None && h.drag_current is None
            &&& h.selected_building is None && !h.group_select_mode
            &&& h == (GameView {
                units: h.units,
                drag_start: None,
                drag_current: None,
                selected_building: None,
                group_select_mode: false,
                ..g
            })
        }),
{
    a_box_has_no_direction(
        g.units[i],
        g.world_at(a.0, a.1).0,
        g.world_at(a.0, a.1).1,
        g.world_at(b.0, b.1).0,
        g.world_at(b.0, b.1).1,
    );
}

/// It makes no difference between which two opposite corners of the picture a box was dragged.
pub proof fn boxes_are_dragged_any_way(g: GameView, a: Point, b: Point)
    requires
        g.drag_start == Some(a),
        g.drag_current == Some(b),
    ensures
        (GameView {
            drag_start: Some((b.0, a.1)),
            drag_current: Some((a.0, b.1)),
            ..g
        }).drag_ended() == g.drag_ended(),
        (GameView { drag_start: Some(b), drag_current: Some(a), ..g }).drag_ended()
            == g.drag_ended(),
{
    let h = GameView { drag_start: Some((b.0, a.1)), drag_current: Some((a.0, b.1)), ..g };
    let k = GameView { drag_start: Some(b), drag_current: Some(a), ..g };
    let p = g.world_at(a.0, a.1);
    let q = g.world_at(b.0, b.1);
    assert forall|i: int| 0 <= i < g.units.len() implies in_box(g.units[i], p, q) == in_box(
        g.units[i],
        (q.0, p.1),
        (p.0, q.1),
    ) && in_box(g.units[i], p, q) == in_box(#[trigger] g.units[i], q, p) by {
        a_box_has_no_direction(g.units[i], p.0, p.1, q.0, q.1);
    }
    assert(h.world_at(b.0, a.1) == (q.0, p.1) && h.world_at(a.0, b.1) == (p.0, q.1));
    assert(k.world_at(b.0, b.1) == q && k.world_at(a.0, a.1) == p);
    assert(h.drag_ended().units =~= g.drag_ended().units);
    assert(k.drag_ended().units =~= g.drag_ended().units);
    assert(h.drag_ended() =~= g.drag_ended());
    assert(k.drag_ended() =~= g.drag_ended());
}

/// Without a box, or without a player, there is nothing to let go: no unit changes.
pub proof fn without_a_box_nothing_is_selected(g: GameView)
    requires
        g.drag_start is None || g.drag_current is None || g.my_id is None,
    ensures
        g.drag_ended() == (GameView { drag_start: None, drag_current: None, ..g }),
{
}

/// A box is begun only in the mode for groups, at one point; dragging moves its second corner only.
/// In the other mode nothing happens.
pub proof fn boxes_are_for_groups(g: GameView, x: Single, y: Single, px: Single, py: Single)
    ensures
        g.group_select_mode ==> g.drag_begun(x, y) == (GameView {
            drag_start: Some((x, y)),
            drag_current: Some((x, y)),
            ..g
        }),
        !g.group_select_mode ==> g.drag_begun(x, y) == g && g.dragged(x, y) == g,
        g.group_select_mode ==> g.drag_begun(x, y).dragged(px, py) == (GameView {
            drag_start: Some((x, y)),
            drag_current: Some((px, py)),
            ..g
        }),
{
}

/// A turn of the wheel takes a thousandth of itself from the zoom that is aimed at, as long as this
/// stays between its bounds, and else leads to the bound. It changes nothing else.
pub proof fn the_wheel_zooms(g: GameView, delta: Single)
    ensures
        ({
            let z = g.target_zoom.difference(delta.product(Single { bits: WHEEL_STEP }));
            let lo = Single { bits: LEAST_ZOOM };
            let hi = Single::of_int(5);
            let h = g.zoomed(delta);
            &&& lo.at_most(z) && z.at_most(hi) ==> h.target_zoom == z
            &&& z.below(lo) ==> h.target_zoom == lo
            &&& hi.below(z) ==> h.target_zoom == hi
            &&& h == (GameView { target_zoom: h.target_zoom, ..g })
        }),
{
    vstd::arithmetic::power2::lemma2_to64();
    crate::exact::lemma_small_pattern(5, 21, 128);
}

/// The picture follows the hand: to drag it moves the camera back by the way of the hand over the
/// zoom, the same along both axes, and changes nothing else. The first point only is remembered.
pub proof fn the_picture_follows_the_hand(g: GameView, x: Single, y: Single)
    ensures
        ({
            let h = g.panned(x, y);
            &&& h.last_pan_x == Some(x) && h.last_pan_y == Some(y)
            &&& g.last_pan_x is Some && g.last_pan_y is Some ==> {
                &&& h.camera_x == g.camera_x.difference(
                    x.difference(g.last_pan_x->0).quotient(g.zoom),
                )
                &&& h.camera_y == g.camera_y.difference(
                    y.difference(g.last_pan_y->0).quotient(g.zoom),
                )
            }
            &&& g.last_pan_x is None || g.last_pan_y is None ==> h.camera_x == g.camera_x
                && h.camera_y == g.camera_y
            &&& h == (GameView {
                camera_x: h.camera_x,
                camera_y: h.camera_y,
                last_pan_x: h.last_pan_x,
                last_pan_y: h.last_pan_y,
                ..g
            })
        }),
{
}

/// Fingers that part zoom in as the wheel does, by five times their way; the first distance only is
/// remembered.
pub proof fn parting_fingers_zoom(g: GameView, dist: Single)
    ensures
        g.pinched(dist).last_touch_dist == Some(dist),
        g.last_touch_dist is None ==> g.pinched(dist) == (GameView {
            last_touch_dist: Some(dist),
            ..g
        }),
        g.last_touch_dist matches Some(last) ==> g.pinched(dist) == (GameView {
            last_touch_dist: Some(dist),
            ..g.zoomed(last.difference(dist).product(Single::of_int(5)))
        }),
{
    vstd::arithmetic::power2::lemma2_to64();
    crate::exact::lemma_small_pattern(5, 21, 128);
}

/// The mouse draws the box if one was begun, else drags the picture if its button is down, and else
/// is only remembered.
pub proof fn the_mouse_does_one_thing(g: GameView, x: Single, y: Single, pressed: bool)
    ensures
        ({
            let drawing = g.group_select_mode && g.drag_start is Some;
            let h = g.mouse_moved(x, y, pressed);
            &&& drawing ==> h == (GameView { drag_current: Some((x, y)), ..g })
            &&& !drawing && pressed ==> h == g.panned(x, y)
            &&& !drawing && !pressed ==> h == (GameView {
                last_pan_x: Some(x),
                last_pan_y: Some(y),
                ..g
            })
        }),
{
}

/// A press of the mouse or of a finger is remembered, and begins a box above the footer while groups
/// are selected, and only then.
pub proof fn presses_begin_boxes(g: GameView, x: Single, y: Single)
    ensures
        ({
            let begins = g.group_select_mode && y.at_most(Single::of_int(580));
            let h = g.mouse_downed(x, y);
            let k = g.touched(x, y);
            &&& h.mouse_down_pos == Some((x, y)) && k.mouse_down_pos == Some((x, y))
            &&& begins ==> h.drag_start == Some((x, y)) && h.drag_current == Some((x, y))
                && k.drag_start == Some((x, y)) && k.drag_current == Some((x, y))
            &&& !begins ==> h.drag_start == g.drag_start && h.drag_current == g.drag_current
                && k.drag_start == g.drag_start && k.drag_current == g.drag_current
            &&& h == (GameView {
                mouse_down_pos: h.mouse_down_pos,
                drag_start: h.drag_start,
                drag_current: h.drag_current,
                last_touch_dist: None,
                last_pan_x: None,
                last_pan_y: None,
                ..g
            })
            &&& k == (GameView {
                mouse_down_pos: k.mouse_down_pos,
                drag_start: k.drag_start,
                drag_current: k.drag_current,
                touch_is_pan_or_zoom: false,
                last_pan_x: k.last_pan_x,
                last_pan_y: k.last_pan_y,
                ..g
            })
            &&& h.last_pan_x is None && h.last_pan_y is None && k.last_pan_x == Some(x)
                && k.last_pan_y == Some(y) && !k.touch_is_pan_or_zoom
        }),
{
}

/// What went down and up less than fifteen pixels apart was a click, as far as it went in any
/// direction, and nothing else was.
pub proof fn clicks_hold_still(g: GameView, x: Single, y: Single)
    ensures
        g.was_click(x, y) <==> (g.mouse_down_pos matches Some(p) && space::length_of(
            x.difference(p.0),
            y.difference(p.1),
        ).below(Single::of_int(15))),
        ({
            let far = g.mouse_down_pos matches Some(p) && Single::of_int(15).below(
                space::length_of(x.difference(p.0), y.difference(p.1)),
            );
            &&& g.finger_moved(x, y).was_tap() <==> g.was_tap() && !far
            &&& g.finger_moved(x, y) == (GameView {
                touch_is_pan_or_zoom: g.touch_is_pan_or_zoom || far,
                ..(if g.group_select_mode && g.drag_start is Some {
                    GameView { drag_current: Some((x, y)), ..g }
                } else {
                    g.panned(x, y)
                })
            })
        }),
        g.was_tap() <==> !g.touch_is_pan_or_zoom,
{
}

/// Hands that are off leave no trace but what they did: where they were is forgotten, and nothing
/// else changes.
pub proof fn hands_off_is_forgotten(g: GameView)
    ensures
        g.released() == (GameView {
            last_touch_dist: None,
            last_pan_x: None,
            last_pan_y: None,
            ..g
        }),
        g.mouse_free() == (GameView {
            mouse_down_pos: None,
            last_touch_dist: None,
            last_pan_x: None,
            last_pan_y: None,
            ..g
        }),
        g.fingers_free() == (GameView {
            mouse_down_pos: None,
            touch_is_pan_or_zoom: false,
            last_touch_dist: None,
            last_pan_x: None,
            last_pan_y: None,
            ..g
        }),
        g.group_select_mode && g.drag_start is Some ==> g.box_let_go() == g.drag_ended(),
        !(g.group_select_mode && g.drag_start is Some) ==> g.box_let_go() == g,
{
}

/// What was a click is one where the hand went down, and what was none changes nothing and asks for
/// nothing.
pub proof fn clicks_are_where_the_hand_went_down(
    g: GameView,
    clicks: bool,
    now: Double,
    since: Double,
    h: GameView,
    c: Clicked,
)
    requires
        clicks_where_down(g, clicks, now, since, h, c),
    ensures
        !clicks || g.mouse_down_pos is None ==> h == g && c.orders@.len() == 0 && !c.preview,
        clicks ==> (g.mouse_down_pos matches Some((x, y)) ==> command::is_click(
            g,
            x,
            y,
            now,
            since,
            h,
            c.orders@,
            c.preview,
        )),
{
}

} // verus!
