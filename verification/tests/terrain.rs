use temty::game::GameState;
use temty::single::Single;
use temty::space::{chunk_containing, length, tile_containing, tile_edge, tile_middle};
use temty::terrain::{
    calculate_tile_type, chunk_coordinate_of, local_coordinate, tile_seed, Building, Double, Land,
    TileType,
};

fn held(x: f32) -> Single {
    Single::from_bits(x.to_bits())
}

fn double(x: f64) -> Double {
    Double { bits: x.to_bits() }
}

fn noise(cx: i32, cy: i32, lx: i32, ly: i32) -> f64 {
    let seed = tile_seed(cx, cy, lx, ly) as f64;
    (seed.sin() * 10000.0).fract().abs()
}

fn chunk_noise(cx: i32, cy: i32) -> Vec<Double> {
    (0..1024).map(|i| double(noise(cx, cy, i % 32, i / 32))).collect()
}

#[test]
fn the_noise_decides_what_grows() {
    assert_eq!(calculate_tile_type(0, 0, double(0.0)), TileType::Forest);
    assert_eq!(calculate_tile_type(0, 0, double(0.2499999)), TileType::Forest);
    assert_eq!(calculate_tile_type(0, 0, double(0.25)), TileType::Mountain);
    assert_eq!(calculate_tile_type(0, 0, double(0.2799999)), TileType::Mountain);
    assert_eq!(calculate_tile_type(0, 0, double(0.28)), TileType::Gold);
    assert_eq!(calculate_tile_type(0, 0, double(0.2829999)), TileType::Gold);
    assert_eq!(calculate_tile_type(0, 0, double(0.283)), TileType::Grass);
    assert_eq!(calculate_tile_type(0, 0, double(0.99)), TileType::Grass);
    assert_eq!(calculate_tile_type(0, 0, double(f64::NAN)), TileType::Grass);
}

#[test]
fn the_clearing_stays_clear() {
    for ly in 0..32 {
        for lx in 0..32 {
            let clear = (13..=19).contains(&lx) && (13..=19).contains(&ly);
            let expected = if clear { TileType::Grass } else { TileType::Forest };
            assert_eq!(calculate_tile_type(lx, ly, double(0.1)), expected);
        }
    }
}

#[test]
fn doubles_are_ordered() {
    let values = [f64::NEG_INFINITY, -2.0, -1.0e-300, -0.0, 0.0, 1.0e-300, 0.25, 300.0, f64::INFINITY, f64::NAN];
    for a in values {
        for b in values {
            assert_eq!(double(a).lt(double(b)), a < b, "{} {}", a, b);
        }
    }
}

#[test]
fn seeds_mix_all_coordinates() {
    for (cx, cy, lx, ly) in [(0, 0, 1, 2), (-5, 7, 31, 0), (i32::MAX, i32::MIN, 3, 30)] {
        let expected = (cx as i64 * 73856093)
            ^ (cy as i64 * 19349663)
            ^ (lx as i64 * 83492791)
            ^ (ly as i64 * 23492871);
        assert_eq!(tile_seed(cx, cy, lx, ly), expected);
    }
}

#[test]
fn tiles_lie_in_their_chunks() {
    for g in [-65, -64, -33, -32, -31, -1, 0, 1, 31, 32, 33, 16_777_215, -16_777_215] {
        assert_eq!(chunk_coordinate_of(g), g.div_euclid(32), "{}", g);
        assert_eq!(local_coordinate(g), g.rem_euclid(32));
    }
    for g in [i32::MAX, i32::MIN, 123_456_789, -987_654_321] {
        assert_eq!(chunk_coordinate_of(g), (g as f32 / 32.0).floor() as i32);
    }
    assert_ne!(chunk_coordinate_of(i32::MAX), i32::MAX.div_euclid(32));
}

#[test]
fn points_lie_in_their_tiles() {
    for x in [-513.0f32, -16.0, -15.9, -0.1, 0.0, 15.99, 16.0, 511.9, 512.0, 1.0e9] {
        let p = (held(x), held(-x));
        assert_eq!(
            tile_containing(p),
            ((x / 16.0).floor() as i32, (-x / 16.0).floor() as i32)
        );
        assert_eq!(
            chunk_containing(p),
            ((x / 512.0).floor() as i32, (-x / 512.0).floor() as i32)
        );
    }
    for t in [-1000, -1, 0, 1, 77] {
        assert_eq!(tile_edge(t), held(t as f32 * 16.0));
        assert_eq!(tile_middle(t), held(t as f32 * 16.0 + 8.0));
        assert_eq!(tile_containing((tile_middle(t), tile_middle(t))), (t, t));
    }
    assert_eq!(length(held(3.0), held(-4.0)), held(5.0));
}

#[test]
fn grown_chunks_are_walkable_on_grass() {
    let mut land = Land::new();
    assert!(!land.is_tile_walkable(16, 16));
    land.generate_chunk(0, 0, &chunk_noise(0, 0));
    land.generate_chunk(-1, 0, &chunk_noise(-1, 0));
    for gy in 0..32 {
        for gx in -32..32 {
            let cx = if gx < 0 { -1 } else { 0 };
            let lx = gx - cx * 32;
            let r = noise(cx, 0, lx, gy);
            let grass = (13..=19).contains(&lx) && (13..=19).contains(&gy) || r >= 0.283;
            assert_eq!(land.is_tile_walkable(gx, gy), grass);
            let t = land.get_tile_type(gx, gy, double(0.5)).unwrap();
            assert_eq!(t == TileType::Grass, grass);
        }
    }
    assert_eq!(land.get_tile_type(40, 0, double(0.1)), Some(TileType::Forest));
    assert!(!land.is_tile_walkable(40, 16));
}

#[test]
fn chunks_grow_once() {
    let mut land = Land::new();
    land.generate_chunk(0, 0, &vec![double(0.9); 1024]);
    land.generate_chunk(0, 0, &vec![double(0.1); 1024]);
    assert!(land.is_tile_walkable(0, 0));
}

#[test]
fn buildings_are_in_the_way() {
    let mut land = Land::new();
    land.generate_chunk(0, 0, &vec![double(0.9); 1024]);
    assert!(land.is_tile_walkable(5, 6));
    land.buildings.push(Building { tile_x: 5, tile_y: 6, kind: 1, owner_id: 3 });
    assert!(!land.is_tile_walkable(5, 6));
    assert!(land.is_built_on((5, 6)));
    assert!(!land.is_built_on((6, 5)));
}

#[test]
fn growing_a_chunk_changes_no_tile() {
    let foreseen = |g: &GameState, x: i32, y: i32| {
        let n = noise(x.div_euclid(32), y.div_euclid(32), x.rem_euclid(32), y.rem_euclid(32));
        g.land.get_tile_type(x, y, double(n)).unwrap()
    };
    let mut g = GameState::new(&chunk_noise(0, 0));
    assert_eq!(foreseen(&g, 0, 0), TileType::Forest);
    assert_eq!(foreseen(&g, -16, -16), TileType::Grass);
    let mut before = Vec::new();
    for y in -40..40 {
        for x in -40..40 {
            before.push(foreseen(&g, x, y));
        }
    }
    for (cx, cy) in [(-1, -1), (0, -1), (-1, 0), (0, 0), (1, 1), (5, 5)] {
        g.land.generate_chunk(cx, cy, &chunk_noise(cx, cy));
        let mut after = Vec::new();
        for y in -40..40 {
            for x in -40..40 {
                after.push(foreseen(&g, x, y));
            }
        }
        assert_eq!(before, after);
    }
    assert!(before.contains(&TileType::Mountain));
    assert!(!before.contains(&TileType::Water));
}
