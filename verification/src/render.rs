//! The picture of the game: what is drawn, in which order, and what that makes of each pixel.
use crate::click;
use crate::game;
use crate::game::{GameView, UnitView};
use crate::line;
use crate::pixel;
use crate::pixel::{Color, PixelBuffer};
use crate::single;
use crate::single::Single;
use crate::space;
use crate::space::Point;
use crate::terrain;
use crate::terrain::{Building, TileType};
use crate::tile_map::Tile;
use crate::exact;
use vstd::prelude::*;

verus! {

/// Something that is drawn.
#[derive(Clone, Copy, Debug)]
pub enum Shape {
    Rect { x: i32, y: i32, w: i32, h: i32, color: Color },
    Outline { x: i32, y: i32, w: i32, h: i32, color: Color },
    /// A dashed line.
    Dashes { x0: i32, y0: i32, x1: i32, y1: i32, color: Color },
}

/// The patterns of 0.4, 0.3, 0.6, 1.2, 0.05, 0.5 and 2.
pub const TWO_FIFTHS: u32 = 0x3ecc_cccd;

pub const THREE_TENTHS: u32 = 0x3e99_999a;

pub const THREE_FIFTHS: u32 = 0x3f19_999a;

pub const SIX_FIFTHS: u32 = 0x3f99_999a;

pub const TWENTIETH: u32 = 0x3d4c_cccd;

pub const TWO: u32 = 0x4000_0000;

/// A sum of two coordinates, or the nearest coordinate to it.
pub open spec fn added(a: int, b: int) -> i32 {
    single::clamped(a + b) as i32
}

/// A filled rectangle.
pub open spec fn rect(x: int, y: int, w: int, h: int, color: Color) -> Shape {
    Shape::Rect { x: x as i32, y: y as i32, w: w as i32, h: h as i32, color }
}

/// The border of a rectangle.
pub open spec fn outline(x: int, y: int, w: int, h: int, color: Color) -> Shape {
    Shape::Outline { x: x as i32, y: y as i32, w: w as i32, h: h as i32, color }
}

impl GameView {
    /// The column of the picture, before rounding, where a point of the world is shown.
    pub open spec fn column(self, x: Single) -> Single {
        x.difference(self.camera_x).product(self.zoom).sum(Single::of_int(180))
    }

    /// The row of the picture, before rounding, where a point of the world is shown.
    pub open spec fn row(self, y: Single) -> Single {
        y.difference(self.camera_y).product(self.zoom).sum(Single::of_int(320))
    }

    /// How large a tile is shown.
    pub open spec fn tile_size(self) -> Single {
        Single { bits: space::TILE_WIDTH }.product(self.zoom)
    }
}

/// The color of the ground.
pub open spec fn ground_color(t: TileType) -> Color {
    match t {
        TileType::Grass => (75, 105, 47),
        TileType::Water => (50, 89, 165),
        TileType::Forest => (34, 139, 34),
        TileType::Mountain => (128, 128, 128),
        TileType::Gold => (255, 215, 0),
    }
}

/// The left or upper edge of a tile of a chunk.
pub open spec fn tile_in_chunk(c: int, i: int) -> Single {
    Single::of_int(c).product(Single { bits: terrain::THIRTY_TWO }).product(
        Single { bits: space::TILE_WIDTH },
    ).sum(Single::of_int(i).product(Single { bits: space::TILE_WIDTH }))
}

impl GameView {
    /// Whether a tile that is shown at the given column and row is out of the picture.
    pub open spec fn out_of_sight(self, sx: Single, sy: Single) -> bool {
        let edge = self.tile_size().opposite();
        ||| sx.below(edge)
        ||| sy.below(edge)
        ||| Single::of_int(360).below(sx)
        ||| Single::of_int(640).below(sy)
    }

    /// What is drawn of the tile with the given number, row by row, of a chunk: a square, and in
    /// a forest a smaller one in its middle.
    pub open spec fn ground_tile(self, cx: int, cy: int, i: int, t: TileType) -> Seq<Shape> {
        let sx = self.column(tile_in_chunk(cx, i % 32));
        let sy = self.row(tile_in_chunk(cy, i / 32));
        let size = self.tile_size();
        let side = size.ceiling_int();
        let small = size.product(Single { bits: TWO_FIFTHS }).truncated_int();
        let inset = size.product(Single { bits: THREE_TENTHS });
        let square = rect(sx.truncated_int(), sy.truncated_int(), side, side, ground_color(t));
        if self.out_of_sight(sx, sy) {
            seq![]
        } else if t == TileType::Forest {
            seq![
                square,
                rect(
                    sx.sum(inset).truncated_int(),
                    sy.sum(inset).truncated_int(),
                    small,
                    small,
                    (20, 80, 20),
                ),
            ]
        } else {
            seq![square]
        }
    }

    /// What is drawn of the first `n` tiles of a chunk.
    pub open spec fn ground_tiles(self, cx: int, cy: int, tiles: Seq<TileType>, n: int) -> Seq<Shape>
        decreases n,
    {
        if n <= 0 {
            seq![]
        } else {
            self.ground_tiles(cx, cy, tiles, n - 1) + self.ground_tile(cx, cy, n - 1, tiles[n - 1])
        }
    }

    /// What is drawn of a chunk; nothing if it is not known.
    pub open spec fn ground_chunk(self, cx: int, cy: int) -> Seq<Shape> {
        let c = (cx as i32, cy as i32);
        if self.land.chunks.contains_key(c) {
            self.ground_tiles(cx, cy, self.land.chunks[c], terrain::CHUNK_TILES as int)
        } else {
            seq![]
        }
    }

    /// What is drawn of the chunks of a row, from `lo` up to but not `hi`.
    pub open spec fn ground_row(self, cy: int, lo: int, hi: int) -> Seq<Shape>
        decreases hi - lo,
    {
        if hi <= lo {
            seq![]
        } else {
            self.ground_row(cy, lo, hi - 1) + self.ground_chunk(hi - 1, cy)
        }
    }

    /// What is drawn of the rows of chunks, from `lo` up to but not `hi`.
    pub open spec fn ground_rows(self, lo: int, hi: int, left: int, right: int) -> Seq<Shape>
        decreases hi - lo,
    {
        if hi <= lo {
            seq![]
        } else {
            self.ground_rows(lo, hi - 1, left, right) + self.ground_row(hi - 1, left, right)
        }
    }

    /// How much of the world the picture shows on either side of its middle.
    pub open spec fn half_view(self, size: int) -> Single {
        Single::of_int(size).quotient(self.zoom).quotient(Single { bits: TWO })
    }

    /// The ground: every chunk that is in view.
    pub open spec fn ground_layer(self) -> Seq<Shape> {
        let w = self.half_view(360);
        let h = self.half_view(640);
        self.ground_rows(
            space::chunk_at(self.camera_y.difference(h)) as int,
            space::chunk_at(self.camera_y.sum(h)) + 1,
            space::chunk_at(self.camera_x.difference(w)) as int,
            space::chunk_at(self.camera_x.sum(w)) + 1,
        )
    }

    /// Two by two bricks on a tile, of two colors in turn.
    pub open spec fn bricks(self, t: Tile, c1: Color, c2: Color) -> Seq<Shape> {
        let size = self.tile_size();
        let gap = Single { bits: game::ONE }.larger(size.product(Single { bits: TWENTIETH }));
        let sq = size.difference(gap).quotient(Single { bits: TWO }).floor_int();
        let x = self.column(space::edge_at(t.0)).truncated_int();
        let y = self.row(space::edge_at(t.1)).truncated_int();
        let x2 = added(added(x, sq) as int, gap.ceiling_int());
        let y2 = added(added(y, sq) as int, gap.ceiling_int());
        seq![
            rect(x, y, sq, sq, c1),
            rect(x2 as int, y, sq, sq, c2),
            rect(x, y2 as int, sq, sq, c2),
            rect(x2 as int, y2 as int, sq, sq, c1),
        ]
    }

    /// A town center: a square with a white one in its middle.
    pub open spec fn town(self, t: Tile, color: Color) -> Seq<Shape> {
        let size = self.tile_size();
        let sx = self.column(space::edge_at(t.0));
        let sy = self.row(space::edge_at(t.1));
        let side = size.ceiling_int();
        let inner = size.product(Single { bits: TWO_FIFTHS }).ceiling_int();
        let inset = size.product(Single { bits: THREE_TENTHS });
        seq![
            rect(sx.truncated_int(), sy.truncated_int(), side, side, color),
            rect(
                sx.sum(inset).truncated_int(),
                sy.sum(inset).truncated_int(),
                inner,
                inner,
                (255, 255, 255),
            ),
        ]
    }

    /// What is drawn of a building: the player's own are blue, all others red.
    pub open spec fn building_shapes(self, b: Building) -> Seq<Shape> {
        let own = self.my_id == Some(b.owner_id);
        let t = (b.tile_x, b.tile_y);
        if b.kind == 0 {
            self.town(
                t,
                if own {
                    (0, 0, 150)
                } else {
                    (255, 0, 0)
                },
            )
        } else if b.kind == 1 {
            if own {
                self.bricks(t, (80, 80, 180), (50, 50, 140))
            } else {
                self.bricks(t, (180, 80, 80), (140, 50, 50))
            }
        } else {
            seq![]
        }
    }

    /// What is drawn of the first `n` buildings.
    pub open spec fn building_layer(self, n: int) -> Seq<Shape>
        decreases n,
    {
        if n <= 0 {
            seq![]
        } else {
            self.building_layer(n - 1) + self.building_shapes(self.land.buildings[n - 1])
        }
    }

    /// A piece of wall that is marked out.
    pub open spec fn planned(self, t: Tile) -> Seq<Shape> {
        self.bricks(t, (50, 100, 200), (40, 80, 180))
    }

    /// What is drawn of the first `n` tiles that are marked out.
    pub open spec fn planned_all(self, n: int) -> Seq<Shape>
        decreases n,
    {
        if n <= 0 {
            seq![]
        } else {
            self.planned_all(n - 1) + self.planned(self.wall_preview[n - 1])
        }
    }

    /// The outline of a tile.
    pub open spec fn tile_outline(self, t: Tile) -> Shape {
        let side = self.tile_size().ceiling_int();
        outline(
            self.column(space::edge_at(t.0)).truncated_int(),
            self.row(space::edge_at(t.1)).truncated_int(),
            side,
            side,
            (0, 255, 0),
        )
    }

    /// The wall that is marked out. As long as only its start is known, that is shown.
    pub open spec fn wall_layer(self) -> Seq<Shape> {
        let start = if self.wall_start is Some && self.wall_end is None {
            self.planned(self.wall_start->0).push(self.tile_outline(self.wall_start->0))
        } else {
            seq![]
        };
        if self.build_mode {
            start + self.planned_all(self.wall_preview.len() as int)
        } else {
            seq![]
        }
    }

    /// Where a point of the world is shown.
    pub open spec fn spot(self, p: Point) -> (i32, i32) {
        (self.column(p.0).truncated_int() as i32, self.row(p.1).truncated_int() as i32)
    }

    /// The way of a unit, waypoint after waypoint, down to the one with number `k`.
    pub open spec fn way(self, u: UnitView, k: int) -> Seq<Shape>
        decreases u.path.len() - k,
    {
        if k >= u.path.len() {
            seq![]
        } else {
            let from = if k + 1 < u.path.len() {
                self.spot(u.path[k + 1])
            } else {
                self.spot((u.x, u.y))
            };
            let to = self.spot(u.path[k]);
            self.way(u, k + 1).push(
                Shape::Dashes {
                    x0: from.0,
                    y0: from.1,
                    x1: to.0,
                    y1: to.1,
                    color: (255, 255, 255),
                },
            )
        }
    }

    /// Whether a unit at the given column and row is drawn.
    pub open spec fn in_sight(self, sx: Single, sy: Single) -> bool {
        &&& Single::of_int(-50).below(sx) && sx.below(Single::of_int(410))
        &&& Single::of_int(-50).below(sy) && sy.below(Single::of_int(690))
    }

    /// A square with its middle at the given column or row: where it begins.
    pub open spec fn centered(self, s: Single, size: Single) -> int {
        s.difference(size.quotient(Single { bits: TWO })).truncated_int()
    }

    /// What is drawn of a unit: its way and a frame, if it is selected, and itself.
    pub open spec fn unit_shapes(self, u: UnitView) -> Seq<Shape> {
        let sx = self.column(u.x);
        let sy = self.row(u.y);
        let w = self.tile_size().product(Single { bits: THREE_FIFTHS });
        let b = self.tile_size().product(Single { bits: SIX_FIFTHS });
        let body = rect(
            self.centered(sx, w),
            self.centered(sy, w),
            w.truncated_int(),
            w.truncated_int(),
            u.color,
        );
        let frame = outline(
            self.centered(sx, b),
            self.centered(sy, b),
            b.truncated_int(),
            b.truncated_int(),
            (0, 255, 0),
        );
        let way = if u.selected {
            self.way(u, 0)
        } else {
            seq![]
        };
        if !self.in_sight(sx, sy) {
            way
        } else if u.selected {
            way.push(frame).push(body)
        } else {
            way.push(body)
        }
    }

    /// What is drawn of the first `n` units.
    pub open spec fn unit_layer(self, n: int) -> Seq<Shape>
        decreases n,
    {
        if n <= 0 {
            seq![]
        } else {
            self.unit_layer(n - 1) + self.unit_shapes(self.units[n - 1])
        }
    }

    /// The bar at the top, with a light that is green while the player takes part.
    pub open spec fn header_layer(self) -> Seq<Shape> {
        seq![
            rect(0, 0, 360, 30, (50, 50, 50)),
            rect(
                10,
                10,
                10,
                10,
                if self.my_id is Some {
                    (0, 255, 0)
                } else {
                    (100, 100, 100)
                },
            ),
        ]
    }

    /// The box that is being dragged.
    pub open spec fn drag_layer(self) -> Seq<Shape> {
        match (self.drag_start, self.drag_current) {
            (Some(a), Some(b)) => {
                let x1 = a.0.smaller(b.0).truncated_int();
                let y1 = a.1.smaller(b.1).truncated_int();
                let x2 = a.0.larger(b.0).truncated_int();
                let y2 = a.1.larger(b.1).truncated_int();
                seq![
                    outline(x1, y1, added(x2, -x1) as int, added(y2, -y1) as int, (0, 255, 0)),
                ]
            },
            _ => seq![],
        }
    }

    /// The bar at the bottom, with the buttons that are always there.
    pub open spec fn footer_layer(self) -> Seq<Shape> {
        seq![
            rect(0, 580, 360, 60, (40, 40, 40)),
            rect(160, 590, 40, 40, (0, 0, 150)),
            rect(173, 603, 14, 14, (255, 255, 255)),
            rect(
                210,
                590,
                40,
                40,
                if self.group_select_mode {
                    (0, 200, 0)
                } else {
                    (80, 80, 80)
                },
            ),
            outline(218, 598, 24, 24, (255, 255, 255)),
        ]
    }

    /// The button at the left: for a worker while the player's town center is selected, for walls
    /// while no building and some unit is.
    pub open spec fn action_layer(self) -> Seq<Shape> {
        match self.selected_building {
            Some(b) => if b < self.land.buildings.len() && self.my_id == Some(
                self.land.buildings[b as int].owner_id,
            ) && self.land.buildings[b as int].kind == 0 {
                seq![
                    rect(10, 590, 40, 40, (0, 0, 150)),
                    rect(18, 607, 24, 6, (0, 255, 0)),
                    rect(27, 598, 6, 24, (0, 255, 0)),
                ]
            } else {
                seq![]
            },
            None => if self.any_chosen() {
                seq![
                    rect(
                        10,
                        590,
                        40,
                        40,
                        if self.build_mode {
                            (0, 200, 0)
                        } else {
                            (0, 0, 150)
                        },
                    ),
                    rect(18, 598, 10, 10, (150, 150, 150)),
                    rect(32, 598, 10, 10, (130, 130, 130)),
                    rect(18, 612, 10, 10, (130, 130, 130)),
                    rect(32, 612, 10, 10, (150, 150, 150)),
                ]
            } else {
                seq![]
            },
        }
    }

    /// The buttons with which a wall is confirmed or dropped.
    pub open spec fn confirm_layer(self) -> Seq<Shape> {
        if self.build_mode && self.wall_end is Some {
            seq![
                rect(260, 590, 40, 40, (0, 150, 0)),
                rect(270, 610, 8, 4, (255, 255, 255)),
                rect(276, 600, 4, 18, (255, 255, 255)),
                rect(310, 590, 40, 40, (150, 0, 0)),
                rect(322, 600, 16, 4, (255, 255, 255)),
                rect(322, 616, 16, 4, (255, 255, 255)),
                rect(322, 600, 4, 20, (255, 255, 255)),
                rect(334, 600, 4, 20, (255, 255, 255)),
            ]
        } else {
            seq![]
        }
    }

    /// The light that shows what a wall still lacks: its start, its end, or to be confirmed.
    pub open spec fn progress_layer(self) -> Seq<Shape> {
        if self.build_mode {
            seq![
                rect(
                    10,
                    555,
                    8,
                    8,
                    if self.wall_start is None {
                        (0, 255, 0)
                    } else if self.wall_end is None {
                        (255, 255, 0)
                    } else {
                        (50, 150, 255)
                    },
                ),
            ]
        } else {
            seq![]
        }
    }

    /// The icons of the first `n` units in a selection.
    pub open spec fn icons(self, s: Seq<usize>, n: int) -> Seq<Shape>
        decreases n,
    {
        if n <= 0 {
            seq![]
        } else {
            self.icons(s, n - 1).push(
                rect(10 + 24 * (n - 1), 555, 20, 20, self.units[s[n - 1] as int].color),
            ).push(outline(10 + 24 * (n - 1), 555, 20, 20, (255, 255, 255)))
        }
    }

    /// The icons of the selected units, and a sign if there are more of them.
    pub open spec fn icon_layer(self) -> Seq<Shape> {
        let s = self.selection(self.units.len() as int);
        let shown = self.icons(s, click::least(s.len() as int, click::MAX_ICONS as int));
        if s.len() > click::MAX_ICONS {
            shown + seq![
                rect(250, 555, 20, 20, (100, 100, 100)),
                rect(257, 564, 6, 2, (255, 255, 255)),
                rect(259, 562, 2, 6, (255, 255, 255)),
            ]
        } else {
            shown
        }
    }

    /// The frame around the selected building.
    pub open spec fn selected_layer(self) -> Seq<Shape> {
        match self.selected_building {
            Some(i) => if i < self.land.buildings.len() {
                let b = self.land.buildings[i as int];
                let side = added(self.tile_size().ceiling_int(), 4) as int;
                seq![
                    outline(
                        added(self.column(space::edge_at(b.tile_x)).truncated_int(), -2) as int,
                        added(self.row(space::edge_at(b.tile_y)).truncated_int(), -2) as int,
                        side,
                        side,
                        (0, 255, 0),
                    ),
                ]
            } else {
                seq![]
            },
            None => seq![],
        }
    }

    /// All that is drawn, from the bottom up.
    pub open spec fn picture(self) -> Seq<Shape> {
        self.ground_layer() + self.building_layer(self.land.buildings.len() as int)
            + self.wall_layer() + self.unit_layer(self.units.len() as int) + self.header_layer()
            + self.drag_layer() + self.footer_layer() + self.action_layer() + self.confirm_layer()
            + self.progress_layer() + self.icon_layer() + self.selected_layer()
    }
}

/// The color of a shape.
pub open spec fn color_of(s: Shape) -> Color {
    match s {
        Shape::Rect { color, .. } => color,
        Shape::Outline { color, .. } => color,
        Shape::Dashes { color, .. } => color,
    }
}

/// Whether a shape covers a pixel.
pub open spec fn covers(s: Shape, u: int, v: int) -> bool {
    match s {
        Shape::Rect { x, y, w, h, color } => pixel::in_rect(
            x as int,
            y as int,
            w as int,
            h as int,
            u,
            v,
        ),
        Shape::Outline { x, y, w, h, color } => pixel::in_outline(
            x as int,
            y as int,
            w as int,
            h as int,
            u,
            v,
        ),
        Shape::Dashes { x0, y0, x1, y1, color } => {
            let a = (x0 as int, y0 as int);
            let b = (x1 as int, y1 as int);
            pixel::in_line(a, b, true, line::line_steps(a, b), u, v)
        },
    }
}

/// The color of a pixel once the first `n` shapes are drawn on a ground: that of the last shape
/// that covers it.
pub open spec fn shade(shapes: Seq<Shape>, n: int, u: int, v: int, ground: Color) -> Color
    decreases n,
{
    if n <= 0 {
        ground
    } else if covers(shapes[n - 1], u, v) {
        color_of(shapes[n - 1])
    } else {
        shade(shapes, n - 1, u, v, ground)
    }
}

/// Draws the shapes on a ground of one color.
pub fn paint(buffer: &mut PixelBuffer, shapes: &Vec<Shape>, ground: Color)
    requires
        old(buffer).wf(),
    ensures
        final(buffer).wf(),
        final(buffer).width == old(buffer).width,
        final(buffer).height == old(buffer).height,
        forall|u: int, v: int|
            final(buffer).inside(u, v) ==> #[trigger] final(buffer).at(u, v) == pixel::opaque(
                shade(shapes@, shapes@.len() as int, u, v, ground),
            ),
{
    let ghost width = buffer.width;
    let ghost height = buffer.height;
    buffer.clear(ground.0, ground.1, ground.2);
    let mut i: usize = 0;
    while i < shapes.len()
        invariant
            i <= shapes@.len(),
            buffer.wf(),
            buffer.width == width,
            buffer.height == height,
            forall|u: int, v: int|
                buffer.inside(u, v) ==> #[trigger] buffer.at(u, v) == pixel::opaque(
                    shade(shapes@, i as int, u, v, ground),
                ),
        decreases shapes@.len() - i,
    {
        let ghost before = *buffer;
        match shapes[i] {
            Shape::Rect { x, y, w, h, color } => {
                buffer.rect(x, y, w, h, color.0, color.1, color.2);
            },
            Shape::Outline { x, y, w, h, color } => {
                buffer.rect_outline(x, y, w, h, color.0, color.1, color.2);
            },
            Shape::Dashes { x0, y0, x1, y1, color } => {
                buffer.line(x0, y0, x1, y1, color.0, color.1, color.2, true);
            },
        }
        proof {
            let s = shapes@[i as int];
            assert forall|u: int, v: int| buffer.inside(u, v) implies #[trigger] buffer.at(u, v)
                == pixel::opaque(shade(shapes@, i + 1, u, v, ground)) by {
                assert(before.inside(u, v));
                assert(before.at(u, v) == pixel::opaque(shade(shapes@, i as int, u, v, ground)));
                assert(buffer.at(u, v) == (if covers(s, u, v) {
                    pixel::opaque(color_of(s))
                } else {
                    before.at(u, v)
                }));
            }
        }
        i = i + 1;
    }
}

/// What was drawn last shows: a pixel has the color of the last shape that covers it, or of the
/// ground if none does.
pub proof fn the_last_shape_shows(shapes: Seq<Shape>, n: int, u: int, v: int, ground: Color, k: int)
    requires
        0 <= n <= shapes.len(),
        -1 <= k < n,
        k >= 0 ==> covers(shapes[k], u, v),
        forall|j: int| k < j < n ==> !covers(#[trigger] shapes[j], u, v),
    ensures
        shade(shapes, n, u, v, ground) == (if k >= 0 {
            match shapes[k] {
                Shape::Rect { color, .. } => color,
                Shape::Outline { color, .. } => color,
                Shape::Dashes { color, .. } => color,
            }
        } else {
            ground
        }),
    decreases n,
{
    if n - 1 > k {
        the_last_shape_shows(shapes, n - 1, u, v, ground, k);
    }
}

/// Every unit in sight is drawn in its own color, over its frame and its way. Frame and way, a stroke
/// for each waypoint, are drawn exactly if it is selected. Whose it is and what it is does not
/// matter.
pub proof fn units_are_drawn_in_their_color(g: GameView, u: UnitView)
    ensures
        ({
            let s = g.unit_shapes(u);
            let shown = g.in_sight(g.column(u.x), g.row(u.y));
            let strokes = if u.selected {
                u.path.len()
            } else {
                0
            };
            &&& s.len() == strokes + (if shown {
                if u.selected {
                    2nat
                } else {
                    1nat
                }
            } else {
                0nat
            })
            &&& shown ==> (s.last() matches Shape::Rect { color, .. } && color == u.color)
            &&& shown && u.selected ==> s[s.len() - 2] is Outline
        }),
{
    lemma_way_len(g, u, 0);
}

proof fn lemma_way_len(g: GameView, u: UnitView, k: int)
    requires
        0 <= k <= u.path.len(),
    ensures
        g.way(u, k).len() == u.path.len() - k,
    decreases u.path.len() - k,
{
    if k < u.path.len() {
        lemma_way_len(g, u, k + 1);
    }
}

/// Every town center and every wall is drawn, the player's own blue and all others red.
pub proof fn buildings_are_drawn_by_owner(g: GameView, b: Building)
    ensures
        ({
            let s = g.building_shapes(b);
            let own = g.my_id == Some(b.owner_id);
            &&& b.kind == 0 ==> s.len() == 2 && color_of(s[0]) == (if own {
                (0u8, 0u8, 150u8)
            } else {
                (255u8, 0u8, 0u8)
            })
            &&& b.kind == 1 ==> s.len() == 4 && color_of(s[0]) == (if own {
                (80u8, 80u8, 180u8)
            } else {
                (180u8, 80u8, 80u8)
            })
            &&& b.kind > 1 ==> s.len() == 0
        }),
{
}

/// Every building and every unit adds what is drawn of it over those before it in the list.
pub proof fn all_is_drawn_in_order(g: GameView, n: int, m: int)
    requires
        0 < n <= g.land.buildings.len(),
        0 < m <= g.units.len(),
    ensures
        g.building_layer(n) == g.building_layer(n - 1) + g.building_shapes(
            g.land.buildings[n - 1],
        ),
        g.unit_layer(m) == g.unit_layer(m - 1) + g.unit_shapes(g.units[m - 1]),
{
}

/// The ground does not depend on what stands on it or what is selected, and the units are drawn over
/// the buildings and these over the ground.
pub proof fn the_ground_is_the_ground(g: GameView, h: GameView)
    requires
        g.land.chunks == h.land.chunks,
        g.camera_x == h.camera_x,
        g.camera_y == h.camera_y,
        g.zoom == h.zoom,
    ensures
        g.ground_layer() == h.ground_layer(),
        ({
            let a = g.ground_layer();
            let b = g.building_layer(g.land.buildings.len() as int);
            let c = g.wall_layer();
            let d = g.unit_layer(g.units.len() as int);
            (a + b + c + d).is_prefix_of(g.picture())
        }),
{
    let w = g.half_view(360);
    let t = g.half_view(640);
    lemma_same_rows(
        g,
        h,
        space::chunk_at(g.camera_y.difference(t)) as int,
        space::chunk_at(g.camera_y.sum(t)) + 1,
        space::chunk_at(g.camera_x.difference(w)) as int,
        space::chunk_at(g.camera_x.sum(w)) + 1,
    );
    let front = g.ground_layer() + g.building_layer(g.land.buildings.len() as int) + g.wall_layer()
        + g.unit_layer(g.units.len() as int);
    assert(front =~= g.picture().subrange(0, front.len() as int));
}

proof fn lemma_same_tiles(g: GameView, h: GameView, cx: int, cy: int, tiles: Seq<TileType>, n: int)
    requires
        g.camera_x == h.camera_x,
        g.camera_y == h.camera_y,
        g.zoom == h.zoom,
    ensures
        g.ground_tiles(cx, cy, tiles, n) == h.ground_tiles(cx, cy, tiles, n),
    decreases n,
{
    if n > 0 {
        lemma_same_tiles(g, h, cx, cy, tiles, n - 1);
    }
}

proof fn lemma_same_row(g: GameView, h: GameView, cy: int, lo: int, hi: int)
    requires
        g.land.chunks == h.land.chunks,
        g.camera_x == h.camera_x,
        g.camera_y == h.camera_y,
        g.zoom == h.zoom,
    ensures
        g.ground_row(cy, lo, hi) == h.ground_row(cy, lo, hi),
    decreases hi - lo,
{
    if lo < hi {
        lemma_same_row(g, h, cy, lo, hi - 1);
        lemma_same_tiles(
            g,
            h,
            hi - 1,
            cy,
            g.land.chunks[((hi - 1) as i32, cy as i32)],
            terrain::CHUNK_TILES as int,
        );
    }
}

proof fn lemma_same_rows(g: GameView, h: GameView, lo: int, hi: int, left: int, right: int)
    requires
        g.land.chunks == h.land.chunks,
        g.camera_x == h.camera_x,
        g.camera_y == h.camera_y,
        g.zoom == h.zoom,
    ensures
        g.ground_rows(lo, hi, left, right) == h.ground_rows(lo, hi, left, right),
    decreases hi - lo,
{
    if lo < hi {
        lemma_same_rows(g, h, lo, hi - 1, left, right);
        lemma_same_row(g, h, hi - 1, left, right);
    }
}

/// A tile in sight is drawn as one square in the color of what it is made of, a forest with a second
/// one; the colors of any two grounds differ.
pub proof fn tiles_are_drawn_as_what_they_are(g: GameView, cx: int, cy: int, i: int, t: TileType, s: TileType)
    ensures
        ({
            let shapes = g.ground_tile(cx, cy, i, t);
            let hidden = g.out_of_sight(
                g.column(tile_in_chunk(cx, i % 32)),
                g.row(tile_in_chunk(cy, i / 32)),
            );
            &&& hidden ==> shapes.len() == 0
            &&& !hidden ==> shapes.len() == (if t == TileType::Forest {
                2nat
            } else {
                1nat
            }) && color_of(shapes[0]) == ground_color(t)
            &&& t != s ==> ground_color(t) != ground_color(s)
        }),
{
}

/// What is clicked is what is seen: at the zoom of one, and as long as all is in whole pixels, the
/// point of the world under a point of the picture is drawn at that point.
pub proof fn what_is_clicked_is_what_is_seen(g: GameView, sx: int, sy: int, cx: int, cy: int)
    requires
        g.zoom == Single::of_int(1),
        g.camera_x == Single::of_int(cx),
        g.camera_y == Single::of_int(cy),
        -0x40_0000 < cx < 0x40_0000,
        -0x40_0000 < cy < 0x40_0000,
        -0x10000 < sx < 0x10000,
        -0x10000 < sy < 0x10000,
    ensures
        ({
            let p = g.world_at(Single::of_int(sx), Single::of_int(sy));
            &&& p == (Single::of_int(sx - 180 + cx), Single::of_int(sy - 320 + cy))
            &&& g.column(p.0) == Single::of_int(sx)
            &&& g.row(p.1) == Single::of_int(sy)
        }),
{
    lemma_seen(sx, 180, cx);
    lemma_seen(sy, 320, cy);
}

proof fn lemma_seen(s: int, mid: int, c: int)
    requires
        -0x40_0000 < c < 0x40_0000,
        -0x10000 < s < 0x10000,
        0 <= mid < 1000,
    ensures
        Single::of_int(s).difference(Single::of_int(mid)).quotient(Single::of_int(1)).sum(
            Single::of_int(c),
        ) == Single::of_int(s - mid + c),
        Single::of_int(s - mid + c).difference(Single::of_int(c)).product(Single::of_int(1)).sum(
            Single::of_int(mid),
        ) == Single::of_int(s),
{
    exact::small_differences_are_exact(s, mid);
    exact::small_numbers_are_exact(s - mid);
    exact::one_makes_no_difference(Single::of_int(s - mid));
    exact::small_sums_are_exact(s - mid, c);
    exact::small_differences_are_exact(s - mid + c, c);
    exact::small_sums_are_exact(s - mid, mid);
}

/// The squares of the buttons are drawn where the buttons are pressed.
pub proof fn buttons_are_drawn_where_they_are(g: GameView, x: int, y: int)
    requires
        590 <= y < 630,
    ensures
        ({
            let b = g.button_at(Single::of_int(x), Single::of_int(y));
            &&& covers(g.footer_layer()[1], x, y) ==> b == click::Button::Home
            &&& covers(g.footer_layer()[3], x, y) ==> b == click::Button::Group
            &&& g.confirm_layer().len() > 0 && covers(g.confirm_layer()[0], x, y) ==> b
                == click::Button::Confirm
            &&& g.confirm_layer().len() > 0 && covers(g.confirm_layer()[3], x, y) ==> b
                == click::Button::Cancel
            &&& g.confirm_layer().len() > 0 <==> g.build_mode && g.wall_end is Some
            &&& g.action_layer().len() > 0 && covers(g.action_layer()[0], x, y) ==> b
                == click::Button::Spawn || b == click::Button::Wall
        }),
{
    if 0 <= x < 1000 {
        click::buttons_are_where_their_squares_are(g, x, y);
        if g.any_chosen() {
            let i = choose|i: int| 0 <= i < g.units.len() && g.chosen(#[trigger] g.units[i]);
            assert(g.units[i].selected);
        }
    }
}

/// A shape covers what it should, whatever its color: a filled one all of its columns and rows, a
/// border only the pixels at its edge, a dashed line only points of the line.
pub proof fn shapes_cover_their_pixels(s: Shape, u: int, v: int)
    ensures
        match s {
            Shape::Rect { x, y, w, h, .. } => covers(s, u, v) <==> x <= u < x + w && y <= v < y + h,
            Shape::Outline { x, y, w, h, .. } => w > 0 && h > 0 ==> (covers(s, u, v) <==> x <= u < x
                + w && y <= v < y + h && (u == x || u == x + w - 1 || v == y || v == y + h - 1)),
            Shape::Dashes { x0, y0, x1, y1, .. } => covers(s, u, v) ==> line::amid(
                x0 as int,
                x1 as int,
                u,
            ) && line::amid(y0 as int, y1 as int, v),
        },
{
    if let Shape::Dashes { x0, y0, x1, y1, color } = s {
        let a = (x0 as int, y0 as int);
        let b = (x1 as int, y1 as int);
        let n = line::line_steps(a, b);
        if covers(s, u, v) {
            let k = choose|k: int|
                0 <= k <= n && k % 8 < 4 && #[trigger] line::line_point(a, b, 1, k) == (
                    u,
                    v,
                );
            line::line_stays_between_its_ends(a, b, 1, k);
        }
    }
}

} // verus!
