use temty::game::{GameState, Order, Unit};
use temty::single::Single;
use temty::terrain::{Building, Double};

fn held(x: f32) -> Single {
    Single::from_bits(x.to_bits())
}

fn native(s: Single) -> f32 {
    f32::from_bits(s.to_bits())
}

fn double(x: f64) -> Double {
    Double { bits: x.to_bits() }
}

fn meadow() -> Vec<Double> {
    vec![double(0.9); 1024]
}

fn unit(x: f32, y: f32, owner_id: i32, path: &[(f32, f32)]) -> Unit {
    Unit {
        x: held(x),
        y: held(y),
        path: path.iter().map(|p| (held(p.0), held(p.1))).collect(),
        selected: false,
        kind: 0,
        color: (0, 0, 255),
        owner_id,
    }
}

fn game() -> GameState {
    let mut g = GameState::new(&meadow());
    g.my_id = Some(1);
    g
}

fn pass(g: &mut GameState, speed: f32, dt: f32) {
    let noise: Vec<Vec<Double>> = g.missing_chunks().iter().map(|_| meadow()).collect();
    g.update(held(speed), held(dt), &noise);
}

#[test]
fn a_unit_walks_to_its_waypoint() {
    let mut g = game();
    g.units.push(unit(100.0, 100.0, 1, &[(200.0, 100.0), (103.0, 104.0)]));
    pass(&mut g, 2.5, 0.01);
    assert_eq!(native(g.units[0].x), 100.0 + (3.0f32 / 5.0) * 2.5);
    assert_eq!(native(g.units[0].y), 100.0 + (4.0f32 / 5.0) * 2.5);
    assert_eq!(g.units[0].path.len(), 2);
    pass(&mut g, 2.5, 0.01);
    pass(&mut g, 2.5, 0.01);
    assert_eq!(g.units[0].path, vec![(held(200.0), held(100.0))]);
}

#[test]
fn the_zoom_settles() {
    let mut g = game();
    g.target_zoom = held(2.0);
    let mut z = 1.0f32;
    for _ in 0..200 {
        pass(&mut g, 0.0, 0.016);
        if (2.0 - z).abs() > 0.001 {
            z += (2.0 - z) * 10.0 * 0.016;
        } else {
            z = 2.0;
        }
        assert_eq!(native(g.zoom), z);
    }
    assert_eq!(native(g.zoom), 2.0);
}

#[test]
fn land_is_revealed_around_own_units() {
    let mut g = game();
    g.units.push(unit(100.0, 100.0, 1, &[(2000.0, 100.0)]));
    g.units.push(unit(9000.0, 100.0, 2, &[]));
    assert_eq!(
        g.missing_chunks(),
        vec![(-1, -1), (0, -1), (1, -1), (-1, 0), (1, 0), (-1, 1), (0, 1), (1, 1), (3, 0)]
    );
    pass(&mut g, 1.0, 0.01);
    assert!(g.missing_chunks().is_empty());
    assert!(g.land.is_tile_walkable(40, 40));
    assert!(g.land.is_tile_walkable(100, 5));
    assert!(!g.land.is_tile_walkable(65, 5));
    g.my_id = None;
    g.units[0].x = held(5000.0);
    assert!(g.missing_chunks().is_empty());
}

#[test]
fn close_units_keep_apart() {
    let mut g = game();
    g.units.push(unit(100.0, 100.0, 1, &[]));
    g.units.push(unit(104.0, 103.0, 2, &[]));
    g.units.push(unit(100.0, 100.0, 1, &[]));
    pass(&mut g, 1.0, 0.01);
    let push = |o: f32| (o / (4.0f32 * 4.0 + 3.0 * 3.0).sqrt()) * 0.06;
    assert_eq!(native(g.units[0].x), 100.0 + (0.0 + push(-4.0)));
    assert_eq!(native(g.units[0].y), 100.0 + (0.0 + push(-3.0)));
    assert_eq!(g.units[0].x, g.units[2].x);
    assert_eq!(native(g.units[1].x), 104.0);
}

#[test]
fn own_units_do_not_walk_through_walls() {
    let mut g = game();
    g.land.buildings.push(Building { tile_x: 10, tile_y: 10, kind: 1, owner_id: 2 });
    g.units.push(unit(156.0, 160.0, 1, &[(400.0, 160.0)]));
    g.units.push(unit(156.0, 162.0, 2, &[(400.0, 162.0)]));
    pass(&mut g, 1.0, 0.01);
    pass(&mut g, 1.0, 0.01);
    assert!(native(g.units[0].x) < 157.0);
    assert_eq!(native(g.units[1].x), 158.0);
}

#[test]
fn units_slide_along_walls() {
    let mut g = game();
    g.land.buildings.push(Building { tile_x: 10, tile_y: 10, kind: 1, owner_id: 2 });
    g.units.push(unit(156.5, 161.0, 1, &[(256.5, 261.0)]));
    let step = (100.0f32 / (100.0f32 * 100.0 + 100.0 * 100.0).sqrt()) * 1.0;
    pass(&mut g, 1.0, 0.01);
    assert_eq!(native(g.units[0].x), 156.5);
    assert_eq!(native(g.units[0].y), 161.0 + step);
}

/// One step of every unit, in plain arithmetic.
fn plain_step(g: &GameState, speed: f32) -> Vec<(f32, f32, usize)> {
    let spots: Vec<(f32, f32)> = g.units.iter().map(|u| (native(u.x), native(u.y))).collect();
    let walkable = |x: f32, y: f32| {
        g.land.is_tile_walkable(
            ((x + 3.0) / 16.0).floor() as i32,
            ((y + 5.0) / 16.0).floor() as i32,
        )
    };
    let mut out = Vec::new();
    for (i, u) in g.units.iter().enumerate() {
        let (ux, uy) = spots[i];
        let (mut dx, mut dy) = (0.0f32, 0.0f32);
        let mut left = u.path.len();
        if let Some(t) = u.path.last() {
            let tx = native(t.0) - ux;
            let ty = native(t.1) - uy;
            let dist = (tx * tx + ty * ty).sqrt();
            if dist < 1.0 {
                left -= 1;
            } else {
                dx += (tx / dist) * speed;
                dy += (ty / dist) * speed;
            }
        }
        let mine = Some(u.owner_id) == g.my_id;
        if mine {
            for (j, o) in spots.iter().enumerate() {
                if i == j {
                    continue;
                }
                let ox = ux - o.0;
                let oy = uy - o.1;
                let sq = ox * ox + oy * oy;
                if sq < 100.0 && sq > 0.0001 {
                    let dist = sq.sqrt();
                    dx += (ox / dist) * 0.06;
                    dy += (oy / dist) * 0.06;
                }
            }
        }
        let (nx, ny) = (ux + dx, uy + dy);
        if !mine || walkable(nx, ny) {
            out.push((nx, ny, left));
        } else {
            let mut fx = ux;
            let mut fy = uy;
            if walkable(nx, uy) {
                fx += dx;
            }
            if walkable(fx, ny) {
                fy += dy;
            }
            out.push((fx, fy, left));
        }
    }
    out
}

#[test]
fn steps_agree_with_plain_arithmetic() {
    let mut state: u64 = 3;
    let mut roll = |n: u32| {
        state = state.wrapping_mul(6364136223846793005).wrapping_add(1442695040888963407);
        ((state >> 33) as u32) % n
    };
    let mut g = game();
    for _ in 0..120 {
        g.land.buildings.push(Building {
            tile_x: roll(12) as i32,
            tile_y: roll(12) as i32,
            kind: 1,
            owner_id: 0,
        });
    }
    g.land.buildings.truncate(60);
    for _ in 0..25 {
        let path: Vec<(f32, f32)> =
            (0..roll(4)).map(|_| (roll(6000) as f32 / 31.0, roll(6000) as f32 / 31.0)).collect();
        g.units.push(unit(
            roll(6000) as f32 / 31.0,
            roll(6000) as f32 / 31.0,
            roll(2) as i32 + 1,
            &path,
        ));
    }
    for n in 0..60 {
        let speed = 0.1 + (n % 7) as f32 * 0.37;
        let noise: Vec<Vec<Double>> = g.missing_chunks().iter().map(|_| meadow()).collect();
        let list = g.missing_chunks();
        for (c, v) in list.iter().zip(noise.iter()) {
            g.land.generate_chunk(c.0, c.1, v);
        }
        let expected = plain_step(&g, speed);
        assert!(g.missing_chunks().is_empty());
        g.update(held(speed), held(0.016), &vec![]);
        for (u, e) in g.units.iter().zip(expected.iter()) {
            assert_eq!((native(u.x), native(u.y), u.path.len()), *e);
        }
    }
}

#[test]
fn own_units_are_reported() {
    let mut g = game();
    g.units.push(unit(1.0, 2.0, 2, &[]));
    g.units.push(unit(3.0, 4.0, 1, &[]));
    g.units.push(unit(5.0, 6.0, 1, &[]));
    let told = g.sync(double(1000.0), double(100.5), true);
    let sync = |unit_idx: usize, x: f32, y: f32| Order::UnitSync {
        player_id: 1,
        unit_idx,
        x: held(x),
        y: held(y),
    };
    assert_eq!(told, vec![sync(0, 3.0, 4.0), sync(1, 5.0, 6.0)]);
    assert_eq!(g.last_sync_time, double(1000.0));
}

#[test]
fn reports_wait_their_turn() {
    let mut g = game();
    g.units.push(unit(3.0, 4.0, 1, &[]));
    assert!(g.sync(double(50.0), double(100.0), true).is_empty());
    assert_eq!(g.last_sync_time, double(0.0));
    assert!(g.sync(double(150.0), double(150.0), false).is_empty());
    assert_eq!(g.last_sync_time, double(150.0));
    g.my_id = None;
    assert!(g.sync(double(300.0), double(150.0), true).is_empty());
    assert_eq!(g.last_sync_time, double(150.0));
}
