use temty::game::{GameState, Unit};
use temty::pixel::PixelBuffer;
use temty::single::Single;
use temty::terrain::{Building, Double, TileType};

fn held(x: f32) -> Single {
    Single::from_bits(x.to_bits())
}

fn native(s: Single) -> f32 {
    f32::from_bits(s.to_bits())
}

fn double(x: f64) -> Double {
    Double { bits: x.to_bits() }
}

fn at(b: &PixelBuffer, x: u32, y: u32) -> (u8, u8, u8) {
    let i = ((y * b.width + x) * 4) as usize;
    assert_eq!(b.pixels[i + 3], 255);
    (b.pixels[i], b.pixels[i + 1], b.pixels[i + 2])
}

fn picture(g: &GameState) -> PixelBuffer {
    let mut b = PixelBuffer::new(360, 640);
    g.render(&mut b);
    b
}

fn unit(x: f32, y: f32, owner_id: i32, selected: bool) -> Unit {
    Unit {
        x: held(x),
        y: held(y),
        path: vec![],
        selected,
        kind: 0,
        color: if owner_id == 1 { (0, 0, 255) } else { (255, 0, 0) },
        owner_id,
    }
}

#[test]
fn the_ground_lies_under_the_bars() {
    let mut g = GameState::new(&vec![double(0.9); 1024]);
    let b = picture(&g);
    assert_eq!(at(&b, 180, 320), (75, 105, 47));
    assert_eq!(at(&b, 0, 0), (50, 50, 50));
    assert_eq!(at(&b, 15, 15), (100, 100, 100));
    assert_eq!(at(&b, 0, 600), (40, 40, 40));
    assert_eq!(at(&b, 0, 40), (20, 20, 20));
    g.my_id = Some(1);
    g.camera_x = held(10000.0);
    let b = picture(&g);
    assert_eq!(at(&b, 180, 320), (20, 20, 20));
    assert_eq!(at(&b, 15, 15), (0, 255, 0));
}

#[test]
fn buttons_are_drawn_where_they_are_pressed() {
    let mut g = GameState::new(&vec![double(0.9); 1024]);
    g.my_id = Some(1);
    let b = picture(&g);
    assert_eq!(at(&b, 160, 590), (0, 0, 150));
    assert_eq!(at(&b, 180, 610), (255, 255, 255));
    assert_eq!(at(&b, 210, 590), (80, 80, 80));
    assert_eq!(at(&b, 10, 590), (40, 40, 40));
    g.group_select_mode = true;
    g.units.push(unit(0.0, 0.0, 1, true));
    g.build_mode = true;
    g.wall_start = Some((0, 0));
    g.wall_end = Some((0, 0));
    let b = picture(&g);
    assert_eq!(at(&b, 210, 590), (0, 200, 0));
    assert_eq!(at(&b, 10, 590), (0, 200, 0));
    assert_eq!(at(&b, 260, 590), (0, 150, 0));
    assert_eq!(at(&b, 310, 590), (150, 0, 0));
    assert_eq!(at(&b, 15, 560), (0, 0, 255));
}

#[test]
fn more_than_ten_icons_are_hinted_at() {
    let mut g = GameState::new(&vec![double(0.9); 1024]);
    g.my_id = Some(1);
    for _ in 0..10 {
        g.units.push(unit(9000.0, 0.0, 1, true));
    }
    let b = picture(&g);
    assert_eq!(at(&b, 10 + 24 * 9 + 5, 560), (0, 0, 255));
    assert_ne!(at(&b, 252, 557), (100, 100, 100));
    g.units.push(unit(9000.0, 0.0, 1, true));
    let b = picture(&g);
    assert_eq!(at(&b, 252, 557), (100, 100, 100));
    assert_eq!(at(&b, 260, 565), (255, 255, 255));
}

/// The picture, drawn step by step in plain arithmetic.
fn plain_picture(g: &GameState) -> PixelBuffer {
    let mut b = PixelBuffer::new(360, 640);
    b.clear(20, 20, 20);
    let zoom = native(g.zoom);
    let (cam_x, cam_y) = (native(g.camera_x), native(g.camera_y));
    let size = 16.0 * zoom;
    let col = |x: f32| (x - cam_x) * zoom + 180.0;
    let row = |y: f32| (y - cam_y) * zoom + 320.0;
    let (vw, vh) = (360.0 / zoom, 640.0 / zoom);
    let lo_x = ((cam_x - vw / 2.0) / 512.0).floor() as i32;
    let hi_x = ((cam_x + vw / 2.0) / 512.0).floor() as i32;
    let lo_y = ((cam_y - vh / 2.0) / 512.0).floor() as i32;
    let hi_y = ((cam_y + vh / 2.0) / 512.0).floor() as i32;
    for cy in lo_y..=hi_y {
        for cx in lo_x..=hi_x {
            if let Some(chunk) = g.land.chunks.get((cx, cy)) {
                for y in 0..32 {
                    for x in 0..32 {
                        let sx = col(cx as f32 * 32.0 * 16.0 + x as f32 * 16.0);
                        let sy = row(cy as f32 * 32.0 * 16.0 + y as f32 * 16.0);
                        if sx < -size || sy < -size || sx > 360.0 || sy > 640.0 {
                            continue;
                        }
                        let t = chunk.tiles[(y * 32 + x) as usize];
                        let c = match t {
                            TileType::Grass => (75, 105, 47),
                            TileType::Water => (50, 89, 165),
                            TileType::Forest => (34, 139, 34),
                            TileType::Mountain => (128, 128, 128),
                            TileType::Gold => (255, 215, 0),
                        };
                        let side = size.ceil() as i32;
                        b.rect(sx as i32, sy as i32, side, side, c.0, c.1, c.2);
                        if t == TileType::Forest {
                            let small = (size * 0.4) as i32;
                            b.rect((sx + size * 0.3) as i32, (sy + size * 0.3) as i32, small, small, 20, 80, 20);
                        }
                    }
                }
            }
        }
    }
    let bricks = |b: &mut PixelBuffer, tx: i32, ty: i32, c1: (u8, u8, u8), c2: (u8, u8, u8)| {
        let gap = 1.0f32.max(size * 0.05);
        let sq = ((size - gap) / 2.0).floor() as i32;
        let x = col(tx as f32 * 16.0) as i32;
        let y = row(ty as f32 * 16.0) as i32;
        let step = sq + gap.ceil() as i32;
        b.rect(x, y, sq, sq, c1.0, c1.1, c1.2);
        b.rect(x + step, y, sq, sq, c2.0, c2.1, c2.2);
        b.rect(x, y + step, sq, sq, c2.0, c2.1, c2.2);
        b.rect(x + step, y + step, sq, sq, c1.0, c1.1, c1.2);
    };
    for h in &g.land.buildings {
        let sx = col(h.tile_x as f32 * 16.0);
        let sy = row(h.tile_y as f32 * 16.0);
        let own = Some(h.owner_id) == g.my_id;
        if h.kind == 0 {
            let c = if own { (0, 0, 150) } else { (255, 0, 0) };
            let side = size.ceil() as i32;
            b.rect(sx as i32, sy as i32, side, side, c.0, c.1, c.2);
            let inner = (size * 0.4).ceil() as i32;
            b.rect((sx + size * 0.3) as i32, (sy + size * 0.3) as i32, inner, inner, 255, 255, 255);
        } else if h.kind == 1 {
            if own {
                bricks(&mut b, h.tile_x, h.tile_y, (80, 80, 180), (50, 50, 140));
            } else {
                bricks(&mut b, h.tile_x, h.tile_y, (180, 80, 80), (140, 50, 50));
            }
        }
    }
    if g.build_mode {
        if let (Some((tx, ty)), None) = (g.wall_start, g.wall_end) {
            bricks(&mut b, tx, ty, (50, 100, 200), (40, 80, 180));
            let side = size.ceil() as i32;
            b.rect_outline(col(tx as f32 * 16.0) as i32, row(ty as f32 * 16.0) as i32, side, side, 0, 255, 0);
        }
        for (tx, ty) in &g.wall_preview {
            bricks(&mut b, *tx, *ty, (50, 100, 200), (40, 80, 180));
        }
    }
    for u in &g.units {
        let (sx, sy) = (col(native(u.x)), row(native(u.y)));
        if u.selected && !u.path.is_empty() {
            let (mut px, mut py) = (sx as i32, sy as i32);
            for p in u.path.iter().rev() {
                let (qx, qy) = (col(native(p.0)) as i32, row(native(p.1)) as i32);
                b.line(px, py, qx, qy, 255, 255, 255, true);
                px = qx;
                py = qy;
            }
        }
        if sx > -50.0 && sx < 410.0 && sy > -50.0 && sy < 690.0 {
            let w = size * 0.6;
            if u.selected {
                let f = size * 1.2;
                b.rect_outline((sx - f / 2.0) as i32, (sy - f / 2.0) as i32, f as i32, f as i32, 0, 255, 0);
            }
            b.rect((sx - w / 2.0) as i32, (sy - w / 2.0) as i32, w as i32, w as i32, u.color.0, u.color.1, u.color.2);
        }
    }
    b.rect(0, 0, 360, 30, 50, 50, 50);
    let light = if g.my_id.is_some() { (0, 255, 0) } else { (100, 100, 100) };
    b.rect(10, 10, 10, 10, light.0, light.1, light.2);
    if let (Some(s), Some(e)) = (g.drag_start, g.drag_current) {
        let x1 = native(s.0).min(native(e.0)) as i32;
        let y1 = native(s.1).min(native(e.1)) as i32;
        let x2 = native(s.0).max(native(e.0)) as i32;
        let y2 = native(s.1).max(native(e.1)) as i32;
        b.rect_outline(x1, y1, x2 - x1, y2 - y1, 0, 255, 0);
    }
    let (footer, btn) = (60.0f32, 40.0f32);
    b.rect(0, (640.0 - footer) as i32, 360, footer as i32, 40, 40, 40);
    let home_x = (360.0 - btn) / 2.0;
    let home_y = 640.0 - footer + (footer - btn) / 2.0;
    b.rect(home_x as i32, home_y as i32, 40, 40, 0, 0, 150);
    b.rect((home_x + 13.0) as i32, (home_y + 13.0) as i32, 14, 14, 255, 255, 255);
    let group_x = home_x + btn + 10.0;
    let c = if g.group_select_mode { (0, 200, 0) } else { (80, 80, 80) };
    b.rect(group_x as i32, home_y as i32, 40, 40, c.0, c.1, c.2);
    b.rect_outline((group_x + 8.0) as i32, (home_y + 8.0) as i32, 24, 24, 255, 255, 255);
    let chosen: Vec<&Unit> =
        g.units.iter().filter(|u| u.selected && Some(u.owner_id) == g.my_id).collect();
    if let Some(i) = g.selected_building {
        if i < g.land.buildings.len()
            && Some(g.land.buildings[i].owner_id) == g.my_id
            && g.land.buildings[i].kind == 0
        {
            b.rect(10, home_y as i32, 40, 40, 0, 0, 150);
            b.rect(18, (home_y + 17.0) as i32, 24, 6, 0, 255, 0);
            b.rect(27, (home_y + 8.0) as i32, 6, 24, 0, 255, 0);
        }
    } else if !chosen.is_empty() {
        let c = if g.build_mode { (0, 200, 0) } else { (0, 0, 150) };
        b.rect(10, home_y as i32, 40, 40, c.0, c.1, c.2);
        let (ox, oy) = (10 + (40 - 24) / 2, home_y as i32 + (40 - 24) / 2);
        b.rect(ox, oy, 10, 10, 150, 150, 150);
        b.rect(ox + 14, oy, 10, 10, 130, 130, 130);
        b.rect(ox, oy + 14, 10, 10, 130, 130, 130);
        b.rect(ox + 14, oy + 14, 10, 10, 150, 150, 150);
    }
    if g.build_mode && g.wall_end.is_some() {
        let cx = 360.0 - btn - 60.0;
        b.rect(cx as i32, home_y as i32, 40, 40, 0, 150, 0);
        b.rect((cx + 10.0) as i32, (home_y + 20.0) as i32, 8, 4, 255, 255, 255);
        b.rect((cx + 16.0) as i32, (home_y + 10.0) as i32, 4, 18, 255, 255, 255);
        let dx = 360.0 - btn - 10.0;
        b.rect(dx as i32, home_y as i32, 40, 40, 150, 0, 0);
        b.rect((dx + 12.0) as i32, (home_y + 10.0) as i32, 16, 4, 255, 255, 255);
        b.rect((dx + 12.0) as i32, (home_y + 26.0) as i32, 16, 4, 255, 255, 255);
        b.rect((dx + 12.0) as i32, (home_y + 10.0) as i32, 4, 20, 255, 255, 255);
        b.rect((dx + 24.0) as i32, (home_y + 10.0) as i32, 4, 20, 255, 255, 255);
    }
    if g.build_mode {
        let y = (640.0 - footer - 25.0) as i32;
        let c = if g.wall_start.is_none() {
            (0, 255, 0)
        } else if g.wall_end.is_none() {
            (255, 255, 0)
        } else {
            (50, 150, 255)
        };
        b.rect(10, y, 8, 8, c.0, c.1, c.2);
    }
    let icons_y = 640.0 - footer - 20.0 - 5.0;
    for (i, u) in chosen.iter().take(10).enumerate() {
        let x = 10.0 + (i as f32 * 24.0);
        b.rect(x as i32, icons_y as i32, 20, 20, u.color.0, u.color.1, u.color.2);
        b.rect_outline(x as i32, icons_y as i32, 20, 20, 255, 255, 255);
    }
    if chosen.len() > 10 {
        let x = 10.0 + 10.0 * 24.0;
        b.rect(x as i32, icons_y as i32, 20, 20, 100, 100, 100);
        b.rect((x + 7.0) as i32, (icons_y + 9.0) as i32, 6, 2, 255, 255, 255);
        b.rect((x + 9.0) as i32, (icons_y + 7.0) as i32, 2, 6, 255, 255, 255);
    }
    if let Some(i) = g.selected_building {
        if i < g.land.buildings.len() {
            let h = g.land.buildings[i];
            let side = size.ceil() as i32 + 4;
            b.rect_outline(
                col(h.tile_x as f32 * 16.0) as i32 - 2,
                row(h.tile_y as f32 * 16.0) as i32 - 2,
                side,
                side,
                0,
                255,
                0,
            );
        }
    }
    b
}

#[test]
fn pictures_agree_with_plain_arithmetic() {
    let mut state: u64 = 11;
    let mut roll = |n: u32| {
        state = state.wrapping_mul(6364136223846793005).wrapping_add(1442695040888963407);
        ((state >> 33) as u32) % n
    };
    for _ in 0..12 {
        let mut g = GameState::new(&(0..1024).map(|_| double(roll(400) as f64 / 1000.0)).collect());
        for c in [(-1, 0), (0, -1), (1, 1)] {
            let noise = (0..1024).map(|_| double(roll(400) as f64 / 1000.0)).collect();
            g.land.generate_chunk(c.0, c.1, &noise);
        }
        g.my_id = if roll(4) == 0 { None } else { Some(1) };
        g.zoom = held(0.05 + roll(300) as f32 / 77.0);
        g.camera_x = held(roll(1200) as f32 / 1.7 - 200.0);
        g.camera_y = held(roll(1200) as f32 / 1.7 - 200.0);
        for _ in 0..20 {
            g.land.buildings.push(Building {
                tile_x: roll(60) as i32 - 10,
                tile_y: roll(60) as i32 - 10,
                kind: roll(3) as u8,
                owner_id: roll(2) as i32 + 1,
            });
        }
        for _ in 0..roll(30) {
            let mut u = unit(
                roll(9000) as f32 / 13.0 - 50.0,
                roll(9000) as f32 / 13.0 - 50.0,
                roll(2) as i32 + 1,
                roll(2) == 0,
            );
            for _ in 0..roll(4) {
                u.path.push((held(roll(9000) as f32 / 13.0), held(roll(9000) as f32 / 13.0)));
            }
            g.units.push(u);
        }
        g.group_select_mode = roll(2) == 0;
        g.build_mode = roll(2) == 0;
        if roll(3) > 0 {
            g.wall_start = Some((roll(30) as i32, roll(30) as i32));
            if roll(2) == 0 {
                g.wall_end = Some((roll(30) as i32, roll(30) as i32));
                g.wall_preview = vec![(5, 5), (6, 5), (7, 6)];
            }
        }
        if roll(2) == 0 {
            g.drag_start = Some((held(roll(300) as f32), held(roll(500) as f32)));
            g.drag_current = Some((held(roll(300) as f32), held(roll(500) as f32)));
        }
        if roll(2) == 0 {
            g.selected_building = Some(roll(24) as usize);
        }
        assert!(picture(&g).pixels == plain_picture(&g).pixels);
    }
}
