//! What a client knows of the game, and how its player looks at it.
use crate::single::Single;
use crate::space;
use crate::space::{chunk_middle, Point};
use crate::terrain;
use crate::terrain::{Building, Double, Land, LandView, TileType, CHUNK_TILES};
use crate::tile_map::Tile;
use crate::world;
use crate::world::PlayerInfo;
use vstd::prelude::*;

verus! {

/// The size of the picture, in pixels.
pub const WIDTH: u32 = 360;

pub const HEIGHT: u32 = 640;

/// A unit on the map. The waypoints that it still has to reach stand in reverse order.
pub struct Unit {
    pub x: Single,
    pub y: Single,
    pub path: Vec<Point>,
    pub selected: bool,
    pub kind: u8,
    pub color: (u8, u8, u8),
    pub owner_id: i32,
}

/// A unit on the map.
#[verifier::ext_equal]
pub struct UnitView {
    pub x: Single,
    pub y: Single,
    pub path: Seq<Point>,
    pub selected: bool,
    pub kind: u8,
    pub color: (u8, u8, u8),
    pub owner_id: i32,
}

impl View for Unit {
    type V = UnitView;

    open spec fn view(&self) -> UnitView {
        UnitView {
            x: self.x,
            y: self.y,
            path: self.path@,
            selected: self.selected,
            kind: self.kind,
            color: self.color,
            owner_id: self.owner_id,
        }
    }
}

/// What the client asks of the server.
#[derive(Clone, Copy, Debug, PartialEq, Eq, Structural)]
pub enum Order {
    SpawnUnit,
    UnitMove { player_id: i32, unit_idx: usize, x: Single, y: Single },
    UnitSync { player_id: i32, unit_idx: usize, x: Single, y: Single },
    Build { kind: u8, tile_x: i32, tile_y: i32 },
}

/// The state of a client.
pub struct GameState {
    pub land: Land,
    pub units: Vec<Unit>,
    pub camera_x: Single,
    pub camera_y: Single,
    pub zoom: Single,
    pub my_id: Option<i32>,
    pub my_chunk_x: i32,
    pub my_chunk_y: i32,
    pub other_players: Vec<PlayerInfo>,
    pub last_touch_dist: Option<Single>,
    pub last_pan_x: Option<Single>,
    pub last_pan_y: Option<Single>,
    pub selected_building: Option<usize>,
    pub last_click_time: Double,
    pub last_click_x: Single,
    pub last_click_y: Single,
    pub group_select_mode: bool,
    pub drag_start: Option<Point>,
    pub drag_current: Option<Point>,
    pub mouse_down_pos: Option<Point>,
    pub touch_is_pan_or_zoom: bool,
    pub build_mode: bool,
    pub wall_start: Option<Tile>,
    pub wall_end: Option<Tile>,
    pub wall_preview: Vec<Tile>,
    pub last_sync_time: Double,
    pub target_zoom: Single,
}

/// The state of a client.
#[verifier::ext_equal]
pub struct GameView {
    pub land: LandView,
    pub units: Seq<UnitView>,
    pub camera_x: Single,
    pub camera_y: Single,
    pub zoom: Single,
    pub my_id: Option<i32>,
    pub my_chunk_x: i32,
    pub my_chunk_y: i32,
    pub other_players: Seq<PlayerInfo>,
    pub last_touch_dist: Option<Single>,
    pub last_pan_x: Option<Single>,
    pub last_pan_y: Option<Single>,
    pub selected_building: Option<usize>,
    pub last_click_time: Double,
    pub last_click_x: Single,
    pub last_click_y: Single,
    pub group_select_mode: bool,
    pub drag_start: Option<Point>,
    pub drag_current: Option<Point>,
    pub mouse_down_pos: Option<Point>,
    pub touch_is_pan_or_zoom: bool,
    pub build_mode: bool,
    pub wall_start: Option<Tile>,
    pub wall_end: Option<Tile>,
    pub wall_preview: Seq<Tile>,
    pub last_sync_time: Double,
    pub target_zoom: Single,
}

/// The units of a list.
pub open spec fn units_of(units: Seq<Unit>) -> Seq<UnitView> {
    units.map_values(|u: Unit| u@)
}

impl View for GameState {
    type V = GameView;

    open spec fn view(&self) -> GameView {
        GameView {
            land: self.land@,
            units: units_of(self.units@),
            camera_x: self.camera_x,
            camera_y: self.camera_y,
            zoom: self.zoom,
            my_id: self.my_id,
            my_chunk_x: self.my_chunk_x,
            my_chunk_y: self.my_chunk_y,
            other_players: self.other_players@,
            last_touch_dist: self.last_touch_dist,
            last_pan_x: self.last_pan_x,
            last_pan_y: self.last_pan_y,
            selected_building: self.selected_building,
            last_click_time: self.last_click_time,
            last_click_x: self.last_click_x,
            last_click_y: self.last_click_y,
            group_select_mode: self.group_select_mode,
            drag_start: self.drag_start,
            drag_current: self.drag_current,
            mouse_down_pos: self.mouse_down_pos,
            touch_is_pan_or_zoom: self.touch_is_pan_or_zoom,
            build_mode: self.build_mode,
            wall_start: self.wall_start,
            wall_end: self.wall_end,
            wall_preview: self.wall_preview@,
            last_sync_time: self.last_sync_time,
            target_zoom: self.target_zoom,
        }
    }
}

/// The patterns of 30, 40, 20 and 1.
pub const THIRTY: u32 = 0x41f0_0000;

pub const FORTY: u32 = 0x4220_0000;

pub const TWENTY: u32 = 0x41a0_0000;

pub const ONE: u32 = 0x3f80_0000;

/// The color of a unit: blue for the player's own, red for all others.
pub open spec fn livery(owner: i32, my_id: Option<i32>) -> (u8, u8, u8) {
    if my_id == Some(owner) {
        (0, 0, 255)
    } else {
        (255, 0, 0)
    }
}

/// An idle unit that is not selected.
pub open spec fn idle_unit(x: Single, y: Single, owner: i32, my_id: Option<i32>) -> UnitView {
    UnitView {
        x,
        y,
        path: Seq::empty(),
        selected: false,
        kind: 0,
        color: livery(owner, my_id),
        owner_id: owner,
    }
}

/// The town center of a player, as the client shows it.
pub open spec fn town_of(player: i32, cx: i32, cy: i32) -> Building {
    Building {
        tile_x: world::town_tile(cx as int) as i32,
        tile_y: world::town_tile(cy as int) as i32,
        kind: 0,
        owner_id: player,
    }
}

/// Whether a noise has a value for each tile of a chunk.
pub open spec fn full(noise: Seq<Double>) -> bool {
    noise.len() == CHUNK_TILES
}

impl GameView {
    /// Whether every known chunk has all its tiles.
    pub open spec fn wf(self) -> bool {
        self.land.wf()
    }

    /// Whether the unit is one of the player's own.
    pub open spec fn mine(self, u: UnitView) -> bool {
        self.my_id == Some(u.owner_id)
    }

    /// The game after another player came: two units near the middle of their chunk, and a town
    /// center.
    pub open spec fn joined_by(self, pid: i32, cx: i32, cy: i32) -> GameView {
        let x = space::chunk_middle_at(cx);
        let y = space::chunk_middle_at(cy);
        GameView {
            units: self.units.push(
                idle_unit(
                    x.sum(Single { bits: THIRTY }),
                    y.sum(Single { bits: THIRTY }),
                    pid,
                    self.my_id,
                ),
            ).push(
                idle_unit(
                    x.difference(Single { bits: TWENTY }),
                    y.sum(Single { bits: FORTY }),
                    pid,
                    self.my_id,
                ),
            ),
            land: LandView { buildings: self.land.buildings.push(town_of(pid, cx, cy)), ..self.land },
            ..self
        }
    }

    /// The point of the world that a point of the picture shows.
    pub open spec fn world_at(self, sx: Single, sy: Single) -> Point {
        (
            sx.difference(Single::of_int(180)).quotient(self.zoom).sum(self.camera_x),
            sy.difference(Single::of_int(320)).quotient(self.zoom).sum(self.camera_y),
        )
    }
}

/// An idle unit that is not selected.
pub fn new_unit(x: Single, y: Single, owner: i32, my_id: Option<i32>) -> (u: Unit)
    ensures
        u@ == idle_unit(x, y, owner, my_id),
{
    let color: (u8, u8, u8) = match my_id {
        Some(id) => if id == owner {
            (0, 0, 255)
        } else {
            (255, 0, 0)
        },
        None => (255, 0, 0),
    };
    let path: Vec<Point> = Vec::new();
    Unit { x, y, path, selected: false, kind: 0, color, owner_id: owner }
}

impl GameState {
    /// A client that knows no chunk but the one in the middle of the world, and looks there.
    pub fn new(noise: &Vec<Double>) -> (g: GameState)
        requires
            full(noise@),
        ensures
            g@.wf(),
            g@ == (GameView {
                land: LandView {
                    chunks: Map::<Tile, Seq<TileType>>::empty().insert(
                        (0, 0),
                        terrain::grown_chunk(noise@),
                    ),
                    buildings: Seq::empty(),
                },
                units: Seq::empty(),
                camera_x: Single { bits: space::HALF_CHUNK },
                camera_y: Single { bits: space::HALF_CHUNK },
                zoom: Single { bits: ONE },
                my_id: None,
                my_chunk_x: 0,
                my_chunk_y: 0,
                other_players: Seq::empty(),
                last_touch_dist: None,
                last_pan_x: None,
                last_pan_y: None,
                selected_building: None,
                last_click_time: Double { bits: 0 },
                last_click_x: Single { bits: 0 },
                last_click_y: Single { bits: 0 },
                group_select_mode: false,
                drag_start: None,
                drag_current: None,
                mouse_down_pos: None,
                touch_is_pan_or_zoom: false,
                build_mode: false,
                wall_start: None,
                wall_end: None,
                wall_preview: Seq::empty(),
                last_sync_time: Double { bits: 0 },
                target_zoom: Single { bits: ONE },
            }),
    {
        let mut land = Land::new();
        land.generate_chunk(0, 0, noise);
        let middle = Single { bits: space::HALF_CHUNK };
        let one = Single { bits: ONE };
        let zero = Single { bits: 0 };
        let g = GameState {
            land,
            units: Vec::new(),
            camera_x: middle,
            camera_y: middle,
            zoom: one,
            my_id: None,
            my_chunk_x: 0,
            my_chunk_y: 0,
            other_players: Vec::new(),
            last_touch_dist: None,
            last_pan_x: None,
            last_pan_y: None,
            selected_building: None,
            last_click_time: Double { bits: 0 },
            last_click_x: zero,
            last_click_y: zero,
            group_select_mode: false,
            drag_start: None,
            drag_current: None,
            mouse_down_pos: None,
            touch_is_pan_or_zoom: false,
            build_mode: false,
            wall_start: None,
            wall_end: None,
            wall_preview: Vec::new(),
            last_sync_time: Double { bits: 0 },
            target_zoom: one,
        };
        assert(g@.units =~= Seq::<UnitView>::empty());
        g
    }

    /// Whether the unit is the player's own.
    pub fn is_mine(&self, owner: i32) -> (r: bool)
        ensures
            r == (self.my_id == Some(owner)),
    {
        match self.my_id {
            Some(id) => id == owner,
            None => false,
        }
    }

    /// Shows the two units and the town center of a player who came.
    pub fn spawn_units_for_player(&mut self, pid: i32, cx: i32, cy: i32)
        requires
            world::settled(cx as int),
            world::settled(cy as int),
        ensures
            final(self)@ == old(self)@.joined_by(pid, cx, cy),
    {
        let ghost v = self@;
        let x = chunk_middle(cx);
        let y = chunk_middle(cy);
        let first = new_unit(
            x.plus(Single { bits: THIRTY }),
            y.plus(Single { bits: THIRTY }),
            pid,
            self.my_id,
        );
        let second = new_unit(
            x.minus(Single { bits: TWENTY }),
            y.plus(Single { bits: FORTY }),
            pid,
            self.my_id,
        );
        self.units.push(first);
        self.units.push(second);
        self.land.buildings.push(
            Building { tile_x: cx * 32 + 16, tile_y: cy * 32 + 16, kind: 0, owner_id: pid },
        );
        assert(self@.units =~= v.joined_by(pid, cx, cy).units);
        assert(self@.land =~= v.joined_by(pid, cx, cy).land);
    }

    /// The point of the world that a point of the picture shows.
    pub fn screen_to_world(&self, screen_x: Single, screen_y: Single) -> (p: Point)
        ensures
            p == self@.world_at(screen_x, screen_y),
    {
        (
            screen_x.minus(Single::from_i32(180)).over(self.zoom).plus(self.camera_x),
            screen_y.minus(Single::from_i32(320)).over(self.zoom).plus(self.camera_y),
        )
    }
}

/// The player's own units are blue and all others red. A unit that comes is idle and not selected.
pub proof fn own_units_are_blue(x: Single, y: Single, owner: i32, my_id: Option<i32>)
    ensures
        ({
            let u = idle_unit(x, y, owner, my_id);
            &&& u.x == x && u.y == y && u.owner_id == owner
            &&& u.path.len() == 0 && !u.selected && u.kind == 0
            &&& my_id == Some(owner) ==> u.color == (0u8, 0u8, 255u8)
            &&& my_id != Some(owner) ==> u.color == (255u8, 0u8, 0u8)
        }),
{
}

/// The point of the world under a point of the picture lies as far from the camera as the point lies
/// from the middle of the picture, over the zoom; the middle shows where the camera is.
pub proof fn the_camera_is_in_the_middle(g: GameView, sx: Single, sy: Single)
    ensures
        g.world_at(sx, sy).0 == sx.difference(Single::of_int(180)).quotient(g.zoom).sum(g.camera_x),
        g.world_at(sx, sy).1 == sy.difference(Single::of_int(320)).quotient(g.zoom).sum(g.camera_y),
{
}

/// The two units of a player who comes stand near the middle of their chunk: 30 pixels to the right
/// and below, and 20 to the left and 40 below; their town center stands in the middle tile.
pub proof fn newcomers_stand_near_the_middle(g: GameView, pid: i32, cx: i32, cy: i32)
    requires
        -0x4000 < cx < 0x4000,
        -0x4000 < cy < 0x4000,
    ensures
        ({
            let h = g.joined_by(pid, cx, cy);
            let n = g.units.len() as int;
            let b = h.land.buildings.last();
            &&& h.units.len() == n + 2
            &&& h.units[n].x == Single::of_int(cx * 512 + 286)
            &&& h.units[n].y == Single::of_int(cy * 512 + 286)
            &&& h.units[n + 1].x == Single::of_int(cx * 512 + 236)
            &&& h.units[n + 1].y == Single::of_int(cy * 512 + 296)
            &&& h.units[n].owner_id == pid && h.units[n + 1].owner_id == pid
            &&& b == (Building {
                tile_x: (cx * 32 + 16) as i32,
                tile_y: (cy * 32 + 16) as i32,
                kind: 0,
                owner_id: pid,
            })
        }),
{
    space::chunks_have_512_pixels_a_side(cx);
    space::chunks_have_512_pixels_a_side(cy);
    crate::economy::amounts_are_whole();
    crate::exact::small_sums_are_exact(cx * 512 + 256, 30);
    crate::exact::small_sums_are_exact(cy * 512 + 256, 30);
    crate::exact::small_differences_are_exact(cx * 512 + 256, 20);
    crate::exact::small_sums_are_exact(cy * 512 + 256, 40);
}

} // verus!
