//! Drawing the game: the list of shapes that make up its picture.
use crate::click;
use crate::game;
use crate::game::{GameState, Unit};
use crate::pixel::{Color, PixelBuffer};
use crate::render;
use crate::render::{
    paint, Shape, SIX_FIFTHS, THREE_FIFTHS, THREE_TENTHS, TWENTIETH, TWO, TWO_FIFTHS,
};
use crate::single::Single;
use crate::space;
use crate::space::{tile_edge, Point};
use crate::terrain;
use crate::terrain::{Building, TileType, CHUNK_TILES};
use crate::tile_map::Tile;
use vstd::prelude::*;

verus! {

/// The color of the ground where no chunk is known.
pub const VOID: u8 = 20;

fn sum_of(a: i32, b: i32) -> (r: i32)
    ensures
        r == render::added(a as int, b as int),
{
    let s: i64 = a as i64 + b as i64;
    if s > 0x7fff_ffff {
        i32::MAX
    } else if s < -0x8000_0000 {
        i32::MIN
    } else {
        s as i32
    }
}

fn difference_of(a: i32, b: i32) -> (r: i32)
    ensures
        r == render::added(a as int, -b),
{
    let s: i64 = a as i64 - b as i64;
    if s > 0x7fff_ffff {
        i32::MAX
    } else if s < -0x8000_0000 {
        i32::MIN
    } else {
        s as i32
    }
}

fn rect(x: i32, y: i32, w: i32, h: i32, color: Color) -> (s: Shape)
    ensures
        s == render::rect(x as int, y as int, w as int, h as int, color),
{
    Shape::Rect { x, y, w, h, color }
}

fn outline(x: i32, y: i32, w: i32, h: i32, color: Color) -> (s: Shape)
    ensures
        s == render::outline(x as int, y as int, w as int, h as int, color),
{
    Shape::Outline { x, y, w, h, color }
}

fn color_of_ground(t: TileType) -> (c: Color)
    ensures
        c == render::ground_color(t),
{
    match t {
        TileType::Grass => (75, 105, 47),
        TileType::Water => (50, 89, 165),
        TileType::Forest => (34, 139, 34),
        TileType::Mountain => (128, 128, 128),
        TileType::Gold => (255, 215, 0),
    }
}

fn tile_in_chunk_edge(c: i32, i: i32) -> (e: Single)
    ensures
        e == render::tile_in_chunk(c as int, i as int),
{
    let tile = Single { bits: space::TILE_WIDTH };
    Single::from_i32(c).times(Single { bits: terrain::THIRTY_TWO }).times(tile).plus(
        Single::from_i32(i).times(tile),
    )
}

impl GameState {
    fn column(&self, x: Single) -> (s: Single)
        ensures
            s == self@.column(x),
    {
        x.minus(self.camera_x).times(self.zoom).plus(Single::from_i32(180))
    }

    fn row(&self, y: Single) -> (s: Single)
        ensures
            s == self@.row(y),
    {
        y.minus(self.camera_y).times(self.zoom).plus(Single::from_i32(320))
    }

    fn tile_size(&self) -> (s: Single)
        ensures
            s == self@.tile_size(),
    {
        Single { bits: space::TILE_WIDTH }.times(self.zoom)
    }

    fn is_out_of_sight(&self, sx: Single, sy: Single) -> (r: bool)
        ensures
            r == self@.out_of_sight(sx, sy),
    {
        let edge = self.tile_size().negate();
        sx.lt(edge) || sy.lt(edge) || Single::from_i32(360).lt(sx) || Single::from_i32(640).lt(sy)
    }

    fn draw_tile(&self, out: &mut Vec<Shape>, cx: i32, cy: i32, i: i32, t: TileType)
        requires
            0 <= i < CHUNK_TILES,
        ensures
            final(out)@ == old(out)@ + self@.ground_tile(cx as int, cy as int, i as int, t),
    {
        let ghost before = out@;
        let sx = self.column(tile_in_chunk_edge(cx, i % 32));
        let sy = self.row(tile_in_chunk_edge(cy, i / 32));
        if !self.is_out_of_sight(sx, sy) {
            let size = self.tile_size();
            let side: i32 = size.ceil_i32();
            out.push(rect(sx.to_i32(), sy.to_i32(), side, side, color_of_ground(t)));
            if matches!(t, TileType::Forest) {
                let small: i32 = size.times(Single { bits: TWO_FIFTHS }).to_i32();
                let inset = size.times(Single { bits: THREE_TENTHS });
                out.push(
                    rect(sx.plus(inset).to_i32(), sy.plus(inset).to_i32(), small, small, (20, 80, 20)),
                );
            }
        }
        assert(out@ =~= before + self@.ground_tile(cx as int, cy as int, i as int, t));
    }

    fn draw_chunk(&self, out: &mut Vec<Shape>, cx: i32, cy: i32)
        requires
            self@.wf(),
        ensures
            final(out)@ == old(out)@ + self@.ground_chunk(cx as int, cy as int),
    {
        let ghost before = out@;
        match self.land.chunks.get((cx, cy)) {
            Some(chunk) => {
                let ghost tiles = self@.land.chunks[(cx, cy)];
                assert(self@.land.chunks.contains_key((cx, cy)));
                let mut i: usize = 0;
                assert(out@ =~= before + self@.ground_tiles(cx as int, cy as int, tiles, 0));
                while i < CHUNK_TILES
                    invariant
                        i <= CHUNK_TILES,
                        tiles == chunk.tiles@,
                        tiles.len() == CHUNK_TILES,
                        out@ == before + self@.ground_tiles(
                            cx as int,
                            cy as int,
                            tiles,
                            i as int,
                        ),
                    decreases CHUNK_TILES - i,
                {
                    self.draw_tile(out, cx, cy, i as i32, chunk.tiles[i]);
                    i = i + 1;
                    assert(out@ =~= before + self@.ground_tiles(
                        cx as int,
                        cy as int,
                        tiles,
                        i as int,
                    ));
                }
            },
            None => {
                assert(out@ =~= before + self@.ground_chunk(cx as int, cy as int));
            },
        }
    }

    fn draw_row(&self, out: &mut Vec<Shape>, cy: i32, left: i32, right: i32)
        requires
            self@.wf(),
        ensures
            final(out)@ == old(out)@ + self@.ground_row(cy as int, left as int, right + 1),
    {
        let ghost before = out@;
        assert(out@ =~= before + self@.ground_row(cy as int, left as int, left as int));
        let mut cx: i64 = left as i64;
        while cx <= right as i64
            invariant
                self@.wf(),
                left <= cx,
                cx <= right + 1 || cx == left,
                out@ == before + self@.ground_row(cy as int, left as int, cx as int),
            decreases right + 1 - cx,
        {
            self.draw_chunk(out, cx as i32, cy);
            cx = cx + 1;
            assert(out@ =~= before + self@.ground_row(cy as int, left as int, cx as int));
        }
        assert(out@ =~= before + self@.ground_row(cy as int, left as int, right + 1));
    }

    fn draw_ground(&self, out: &mut Vec<Shape>)
        requires
            self@.wf(),
        ensures
            final(out)@ == old(out)@ + self@.ground_layer(),
    {
        let ghost before = out@;
        let two = Single { bits: TWO };
        let chunk = Single { bits: space::CHUNK_WIDTH };
        let w = Single::from_i32(360).over(self.zoom).over(two);
        let h = Single::from_i32(640).over(self.zoom).over(two);
        let left: i32 = self.camera_x.minus(w).over(chunk).floor_i32();
        let right: i32 = self.camera_x.plus(w).over(chunk).floor_i32();
        let top: i32 = self.camera_y.minus(h).over(chunk).floor_i32();
        let bottom: i32 = self.camera_y.plus(h).over(chunk).floor_i32();
        assert(out@ =~= before + self@.ground_rows(
            top as int,
            top as int,
            left as int,
            right + 1,
        ));
        let mut cy: i64 = top as i64;
        while cy <= bottom as i64
            invariant
                self@.wf(),
                top <= cy,
                cy <= bottom + 1 || cy == top,
                out@ == before + self@.ground_rows(top as int, cy as int, left as int, right + 1),
            decreases bottom + 1 - cy,
        {
            self.draw_row(out, cy as i32, left, right);
            cy = cy + 1;
            assert(out@ =~= before + self@.ground_rows(
                top as int,
                cy as int,
                left as int,
                right + 1,
            ));
        }
        assert(out@ =~= before + self@.ground_rows(
            top as int,
            bottom + 1,
            left as int,
            right + 1,
        ));
    }

    fn draw_bricks(&self, out: &mut Vec<Shape>, t: Tile, c1: Color, c2: Color)
        ensures
            final(out)@ == old(out)@ + self@.bricks(t, c1, c2),
    {
        let ghost before = out@;
        let size = self.tile_size();
        let gap = Single { bits: game::ONE }.max(size.times(Single { bits: TWENTIETH }));
        let sq: i32 = size.minus(gap).over(Single { bits: TWO }).floor_i32();
        let g: i32 = gap.ceil_i32();
        let x: i32 = self.column(tile_edge(t.0)).to_i32();
        let y: i32 = self.row(tile_edge(t.1)).to_i32();
        let x2: i32 = sum_of(sum_of(x, sq), g);
        let y2: i32 = sum_of(sum_of(y, sq), g);
        out.push(rect(x, y, sq, sq, c1));
        out.push(rect(x2, y, sq, sq, c2));
        out.push(rect(x, y2, sq, sq, c2));
        out.push(rect(x2, y2, sq, sq, c1));
        assert(out@ =~= before + self@.bricks(t, c1, c2));
    }

    fn draw_town(&self, out: &mut Vec<Shape>, t: Tile, color: Color)
        ensures
            final(out)@ == old(out)@ + self@.town(t, color),
    {
        let ghost before = out@;
        let size = self.tile_size();
        let sx = self.column(tile_edge(t.0));
        let sy = self.row(tile_edge(t.1));
        let side: i32 = size.ceil_i32();
        let inner: i32 = size.times(Single { bits: TWO_FIFTHS }).ceil_i32();
        let inset = size.times(Single { bits: THREE_TENTHS });
        out.push(rect(sx.to_i32(), sy.to_i32(), side, side, color));
        out.push(
            rect(
                sx.plus(inset).to_i32(),
                sy.plus(inset).to_i32(),
                inner,
                inner,
                (255, 255, 255),
            ),
        );
        assert(out@ =~= before + self@.town(t, color));
    }

    fn draw_building(&self, out: &mut Vec<Shape>, b: Building)
        ensures
            final(out)@ == old(out)@ + self@.building_shapes(b),
    {
        let ghost before = out@;
        let own: bool = self.is_mine(b.owner_id);
        let t: Tile = (b.tile_x, b.tile_y);
        if b.kind == 0 {
            let color: Color = if own {
                (0, 0, 150)
            } else {
                (255, 0, 0)
            };
            self.draw_town(out, t, color);
        } else if b.kind == 1 {
            if own {
                self.draw_bricks(out, t, (80, 80, 180), (50, 50, 140));
            } else {
                self.draw_bricks(out, t, (180, 80, 80), (140, 50, 50));
            }
        } else {
            assert(out@ =~= before + self@.building_shapes(b));
        }
    }

    fn draw_buildings(&self, out: &mut Vec<Shape>)
        ensures
            final(out)@ == old(out)@ + self@.building_layer(self@.land.buildings.len() as int),
    {
        let ghost before = out@;
        assert(out@ =~= before + self@.building_layer(0));
        let mut i: usize = 0;
        while i < self.land.buildings.len()
            invariant
                i <= self@.land.buildings.len(),
                out@ == before + self@.building_layer(i as int),
            decreases self@.land.buildings.len() - i,
        {
            self.draw_building(out, self.land.buildings[i]);
            i = i + 1;
            assert(out@ =~= before + self@.building_layer(i as int));
        }
    }

    fn draw_wall(&self, out: &mut Vec<Shape>)
        ensures
            final(out)@ == old(out)@ + self@.wall_layer(),
    {
        let ghost before = out@;
        if !self.build_mode {
            assert(out@ =~= before + self@.wall_layer());
            return;
        }
        match self.wall_start {
            Some(t) => {
                if self.wall_end.is_none() {
                    self.draw_bricks(out, t, (50, 100, 200), (40, 80, 180));
                    let side: i32 = self.tile_size().ceil_i32();
                    let x: i32 = self.column(tile_edge(t.0)).to_i32();
                    let y: i32 = self.row(tile_edge(t.1)).to_i32();
                    out.push(outline(x, y, side, side, (0, 255, 0)));
                }
            },
            None => {},
        }
        let ghost start = if self@.wall_start is Some && self@.wall_end is None {
            self@.planned(self@.wall_start->0).push(self@.tile_outline(self@.wall_start->0))
        } else {
            seq![]
        };
        assert(out@ =~= before + (start + self@.planned_all(0)));
        let mut i: usize = 0;
        while i < self.wall_preview.len()
            invariant
                i <= self@.wall_preview.len(),
                out@ == before + (start + self@.planned_all(i as int)),
            decreases self@.wall_preview.len() - i,
        {
            self.draw_bricks(out, self.wall_preview[i], (50, 100, 200), (40, 80, 180));
            i = i + 1;
            assert(out@ =~= before + (start + self@.planned_all(i as int)));
        }
    }

    fn spot(&self, p: Point) -> (s: (i32, i32))
        ensures
            s == self@.spot(p),
    {
        (self.column(p.0).to_i32(), self.row(p.1).to_i32())
    }

    fn draw_way(&self, out: &mut Vec<Shape>, u: &Unit)
        ensures
            final(out)@ == old(out)@ + self@.way(u@, 0),
    {
        let ghost before = out@;
        let mut from = self.spot((u.x, u.y));
        let mut k: usize = u.path.len();
        assert(out@ =~= before + self@.way(u@, k as int));
        while k > 0
            invariant
                k <= u@.path.len(),
                from == (if k < u@.path.len() {
                    self@.spot(u@.path[k as int])
                } else {
                    self@.spot((u@.x, u@.y))
                }),
                out@ == before + self@.way(u@, k as int),
            decreases k,
        {
            k = k - 1;
            let to = self.spot(u.path[k]);
            out.push(
                Shape::Dashes {
                    x0: from.0,
                    y0: from.1,
                    x1: to.0,
                    y1: to.1,
                    color: (255, 255, 255),
                },
            );
            from = to;
            assert(out@ =~= before + self@.way(u@, k as int));
        }
    }

    fn center(&self, s: Single, size: Single) -> (r: i32)
        ensures
            r == self@.centered(s, size),
    {
        s.minus(size.over(Single { bits: TWO })).to_i32()
    }

    fn draw_unit(&self, out: &mut Vec<Shape>, u: &Unit)
        ensures
            final(out)@ == old(out)@ + self@.unit_shapes(u@),
    {
        let ghost before = out@;
        let sx = self.column(u.x);
        let sy = self.row(u.y);
        if u.selected {
            self.draw_way(out, u);
        }
        let lo = Single::from_i32(-50);
        if lo.lt(sx) && sx.lt(Single::from_i32(410)) && lo.lt(sy) && sy.lt(Single::from_i32(690)) {
            if u.selected {
                let b = self.tile_size().times(Single { bits: SIX_FIFTHS });
                let side: i32 = b.to_i32();
                out.push(outline(self.center(sx, b), self.center(sy, b), side, side, (0, 255, 0)));
            }
            let w = self.tile_size().times(Single { bits: THREE_FIFTHS });
            let side: i32 = w.to_i32();
            out.push(rect(self.center(sx, w), self.center(sy, w), side, side, u.color));
        }
        assert(out@ =~= before + self@.unit_shapes(u@));
    }

    fn draw_units(&self, out: &mut Vec<Shape>)
        ensures
            final(out)@ == old(out)@ + self@.unit_layer(self@.units.len() as int),
    {
        let ghost before = out@;
        assert(out@ =~= before + self@.unit_layer(0));
        let mut i: usize = 0;
        while i < self.units.len()
            invariant
                i <= self@.units.len(),
                out@ == before + self@.unit_layer(i as int),
            decreases self@.units.len() - i,
        {
            assert(self@.units[i as int] == self.units@[i as int]@);
            self.draw_unit(out, &self.units[i]);
            i = i + 1;
            assert(out@ =~= before + self@.unit_layer(i as int));
        }
    }

    fn draw_header(&self, out: &mut Vec<Shape>)
        ensures
            final(out)@ == old(out)@ + self@.header_layer(),
    {
        let ghost before = out@;
        out.push(rect(0, 0, 360, 30, (50, 50, 50)));
        let light: Color = if self.my_id.is_some() {
            (0, 255, 0)
        } else {
            (100, 100, 100)
        };
        out.push(rect(10, 10, 10, 10, light));
        assert(out@ =~= before + self@.header_layer());
    }

    fn draw_drag(&self, out: &mut Vec<Shape>)
        ensures
            final(out)@ == old(out)@ + self@.drag_layer(),
    {
        let ghost before = out@;
        match self.drag_start {
            Some(a) => match self.drag_current {
                Some(b) => {
                    let x1: i32 = a.0.min(b.0).to_i32();
                    let y1: i32 = a.1.min(b.1).to_i32();
                    let x2: i32 = a.0.max(b.0).to_i32();
                    let y2: i32 = a.1.max(b.1).to_i32();
                    out.push(
                        outline(x1, y1, difference_of(x2, x1), difference_of(y2, y1), (0, 255, 0)),
                    );
                },
                None => {},
            },
            None => {},
        }
        assert(out@ =~= before + self@.drag_layer());
    }

    fn draw_footer(&self, out: &mut Vec<Shape>)
        ensures
            final(out)@ == old(out)@ + self@.footer_layer(),
    {
        let ghost before = out@;
        out.push(rect(0, 580, 360, 60, (40, 40, 40)));
        out.push(rect(160, 590, 40, 40, (0, 0, 150)));
        out.push(rect(173, 603, 14, 14, (255, 255, 255)));
        let group: Color = if self.group_select_mode {
            (0, 200, 0)
        } else {
            (80, 80, 80)
        };
        out.push(rect(210, 590, 40, 40, group));
        out.push(outline(218, 598, 24, 24, (255, 255, 255)));
        assert(out@ =~= before + self@.footer_layer());
    }

    fn draw_action(&self, out: &mut Vec<Shape>)
        ensures
            final(out)@ == old(out)@ + self@.action_layer(),
    {
        let ghost before = out@;
        match self.selected_building {
            Some(b) => {
                if b < self.land.buildings.len() && self.is_mine(self.land.buildings[b].owner_id)
                    && self.land.buildings[b].kind == 0 {
                    out.push(rect(10, 590, 40, 40, (0, 0, 150)));
                    out.push(rect(18, 607, 24, 6, (0, 255, 0)));
                    out.push(rect(27, 598, 6, 24, (0, 255, 0)));
                }
            },
            None => {
                let s = self.selected_units();
                if s.len() > 0 {
                    let lit: Color = if self.build_mode {
                        (0, 200, 0)
                    } else {
                        (0, 0, 150)
                    };
                    out.push(rect(10, 590, 40, 40, lit));
                    out.push(rect(18, 598, 10, 10, (150, 150, 150)));
                    out.push(rect(32, 598, 10, 10, (130, 130, 130)));
                    out.push(rect(18, 612, 10, 10, (130, 130, 130)));
                    out.push(rect(32, 612, 10, 10, (150, 150, 150)));
                }
            },
        }
        assert(out@ =~= before + self@.action_layer());
    }

    fn draw_confirm(&self, out: &mut Vec<Shape>)
        ensures
            final(out)@ == old(out)@ + self@.confirm_layer(),
    {
        let ghost before = out@;
        if self.build_mode && self.wall_end.is_some() {
            let white: Color = (255, 255, 255);
            out.push(rect(260, 590, 40, 40, (0, 150, 0)));
            out.push(rect(270, 610, 8, 4, white));
            out.push(rect(276, 600, 4, 18, white));
            out.push(rect(310, 590, 40, 40, (150, 0, 0)));
            out.push(rect(322, 600, 16, 4, white));
            out.push(rect(322, 616, 16, 4, white));
            out.push(rect(322, 600, 4, 20, white));
            out.push(rect(334, 600, 4, 20, white));
        }
        assert(out@ =~= before + self@.confirm_layer());
    }

    fn draw_progress(&self, out: &mut Vec<Shape>)
        ensures
            final(out)@ == old(out)@ + self@.progress_layer(),
    {
        let ghost before = out@;
        if self.build_mode {
            let light: Color = if self.wall_start.is_none() {
                (0, 255, 0)
            } else if self.wall_end.is_none() {
                (255, 255, 0)
            } else {
                (50, 150, 255)
            };
            out.push(rect(10, 555, 8, 8, light));
        }
        assert(out@ =~= before + self@.progress_layer());
    }

    fn draw_icons(&self, out: &mut Vec<Shape>)
        ensures
            final(out)@ == old(out)@ + self@.icon_layer(),
    {
        let ghost before = out@;
        let s = self.selected_units();
        let n: usize = if s.len() < click::MAX_ICONS { s.len() } else { click::MAX_ICONS };
        assert(out@ =~= before + self@.icons(s@, 0));
        let mut i: usize = 0;
        while i < n
            invariant
                i <= n,
                n <= s@.len(),
                n <= click::MAX_ICONS,
                forall|k: int| 0 <= k < s@.len() ==> #[trigger] s@[k] < self@.units.len(),
                out@ == before + self@.icons(s@, i as int),
            decreases n - i,
        {
            let x: i32 = 10 + 24 * (i as i32);
            let j: usize = s[i];
            assert(self@.units[j as int] == self.units@[j as int]@);
            out.push(rect(x, 555, 20, 20, self.units[j].color));
            out.push(outline(x, 555, 20, 20, (255, 255, 255)));
            i = i + 1;
            assert(out@ =~= before + self@.icons(s@, i as int));
        }
        if s.len() > click::MAX_ICONS {
            out.push(rect(250, 555, 20, 20, (100, 100, 100)));
            out.push(rect(257, 564, 6, 2, (255, 255, 255)));
            out.push(rect(259, 562, 2, 6, (255, 255, 255)));
        }
        assert(out@ =~= before + self@.icon_layer());
    }

    fn draw_selected(&self, out: &mut Vec<Shape>)
        ensures
            final(out)@ == old(out)@ + self@.selected_layer(),
    {
        let ghost before = out@;
        match self.selected_building {
            Some(i) => {
                if i < self.land.buildings.len() {
                    let b = self.land.buildings[i];
                    let x: i32 = difference_of(self.column(tile_edge(b.tile_x)).to_i32(), 2);
                    let y: i32 = difference_of(self.row(tile_edge(b.tile_y)).to_i32(), 2);
                    let side: i32 = sum_of(self.tile_size().ceil_i32(), 4);
                    out.push(outline(x, y, side, side, (0, 255, 0)));
                }
            },
            None => {},
        }
        assert(out@ =~= before + self@.selected_layer());
    }

    /// All that is drawn, from the bottom up.
    pub fn draw(&self) -> (r: Vec<Shape>)
        requires
            self@.wf(),
        ensures
            r@ == self@.picture(),
    {
        let mut out: Vec<Shape> = Vec::new();
        self.draw_ground(&mut out);
        assert(out@ =~= self@.ground_layer());
        self.draw_buildings(&mut out);
        self.draw_wall(&mut out);
        self.draw_units(&mut out);
        self.draw_header(&mut out);
        self.draw_drag(&mut out);
        self.draw_footer(&mut out);
        self.draw_action(&mut out);
        self.draw_confirm(&mut out);
        self.draw_progress(&mut out);
        self.draw_icons(&mut out);
        self.draw_selected(&mut out);
        out
    }

    /// Paints the picture of the game: each pixel has the color of the last shape that covers it.
    pub fn render(&self, buffer: &mut PixelBuffer)
        requires
            self@.wf(),
            old(buffer).wf(),
        ensures
            final(buffer).wf(),
            final(buffer).width == old(buffer).width,
            final(buffer).height == old(buffer).height,
            forall|u: int, v: int|
                final(buffer).inside(u, v) ==> #[trigger] final(buffer).at(u, v)
                    == crate::pixel::opaque(
                    render::shade(
                        self@.picture(),
                        self@.picture().len() as int,
                        u,
                        v,
                        (VOID, VOID, VOID),
                    ),
                ),
    {
        let shapes = self.draw();
        paint(buffer, &shapes, (VOID, VOID, VOID));
    }
}

} // verus!
