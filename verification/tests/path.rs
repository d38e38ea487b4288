use std::collections::{HashSet, VecDeque};
use temty::path::Search;
use temty::single::Single;
use temty::terrain::{Building, Double, Land};

fn held(x: f32) -> Single {
    Single::from_bits(x.to_bits())
}

fn double(x: f64) -> Double {
    Double { bits: x.to_bits() }
}

fn meadow(chunks: i32) -> Land {
    let mut land = Land::new();
    for cy in 0..chunks {
        for cx in 0..chunks {
            land.generate_chunk(cx, cy, &vec![double(0.9); 1024]);
        }
    }
    land
}

fn wall(land: &mut Land, x: i32, y: i32) {
    land.buildings.push(Building { tile_x: x, tile_y: y, kind: 1, owner_id: 0 });
}

fn point(x: i32, y: i32) -> (Single, Single) {
    (held(x as f32 * 16.0 + 8.0), held(y as f32 * 16.0 + 8.0))
}

/// The number of steps of a shortest way, found by trying everything.
fn breadth_first(land: &Land, a: (i32, i32), b: (i32, i32)) -> Option<usize> {
    let mut seen = HashSet::new();
    let mut queue = VecDeque::new();
    seen.insert(a);
    queue.push_back((a, 0));
    while let Some((t, n)) = queue.pop_front() {
        if t == b {
            return Some(n);
        }
        for dx in -1..=1 {
            for dy in -1..=1 {
                let u = (t.0 + dx, t.1 + dy);
                if u == t || seen.contains(&u) || !land.is_tile_walkable(u.0, u.1) {
                    continue;
                }
                if dx != 0 && dy != 0 {
                    if !land.is_tile_walkable(t.0 + dx, t.1) || !land.is_tile_walkable(t.0, t.1 + dy) {
                        continue;
                    }
                }
                seen.insert(u);
                queue.push_back((u, n + 1));
            }
        }
    }
    None
}

#[test]
fn a_way_within_one_tile_is_its_end() {
    let land = Land::new();
    let end = (held(3.0), held(4.0));
    assert_eq!(land.find_path((held(1.0), held(1.0)), end), vec![end]);
}

#[test]
fn there_is_no_way_into_the_dark() {
    let land = meadow(1);
    assert!(land.find_path(point(5, 5), point(40, 5)).is_empty());
}

#[test]
fn there_is_no_way_too_far() {
    let mut land = meadow(1);
    land.generate_chunk(200, 0, &vec![double(0.9); 1024]);
    assert!(land.find_path(point(5, 5), point(6405, 5)).is_empty());
}

#[test]
fn a_straight_way_goes_through_the_middles() {
    let mut land = meadow(1);
    for x in 2..9 {
        wall(&mut land, x, 4);
        wall(&mut land, x, 6);
    }
    let end = (held(103.0), held(81.0));
    let way = land.find_path(point(3, 5), end);
    assert_eq!(way, vec![end, point(6, 5), point(5, 5), point(4, 5)]);
}

#[test]
fn corners_are_not_cut() {
    let mut land = meadow(1);
    wall(&mut land, 5, 4);
    let way = land.find_path(point(4, 4), point(5, 5));
    assert_eq!(way, vec![point(5, 5), point(5, 5), point(4, 5)]);
}

#[test]
fn a_walled_place_is_not_reached() {
    let mut land = meadow(1);
    for i in -1..=1 {
        for j in -1..=1 {
            if (i, j) != (0, 0) {
                wall(&mut land, 10 + i, 10 + j);
            }
        }
    }
    assert!(land.find_path(point(2, 2), point(10, 10)).is_empty());
    assert!(matches!(land.search((2, 2), (10, 10)), Search::NoWay));
    assert!(land.find_path(point(10, 10), point(2, 2)).is_empty());
}

#[test]
fn ways_are_shortest() {
    let mut state: u64 = 5;
    let mut roll = |n: u32| {
        state = state.wrapping_mul(6364136223846793005).wrapping_add(1442695040888963407);
        (((state >> 33) as u32) % n) as i32
    };
    for _ in 0..20 {
        let mut land = meadow(1);
        for _ in 0..300 {
            wall(&mut land, roll(32), roll(32));
        }
        let a = (roll(32), roll(32));
        let b = (roll(32), roll(32));
        let way = land.find_path(point(a.0, a.1), point(b.0, b.1));
        let expected = if !land.is_tile_walkable(b.0, b.1) { None } else { breadth_first(&land, a, b) };
        if a == b {
            assert_eq!(way.len(), 1);
        } else {
            match expected {
                Some(n) => assert_eq!(way.len(), n + 1, "{:?} {:?}", a, b),
                None => assert!(way.is_empty()),
            }
        }
    }
}

#[test]
fn a_walk_of_forty_nine_steps_is_found_in_open_land() {
    let land = meadow(4);
    let way = land.find_path(point(30, 60), point(79, 60));
    assert_eq!(way.len(), 50);
    assert_eq!(way[0], point(79, 60));
    let across = land.find_path(point(30, 30), point(79, 50));
    assert_eq!(across.len(), 50);
}

#[test]
fn a_long_search_is_given_up() {
    let mut land = meadow(5);
    for i in -1..=1 {
        for j in -1..=1 {
            if (i, j) != (0, 0) {
                wall(&mut land, 80 + i, 80 + j);
            }
        }
    }
    assert!(matches!(land.search((10, 10), (80, 80)), Search::GaveUp));
    assert!(land.find_path(point(10, 10), point(80, 80)).is_empty());
}

#[test]
fn a_way_round_a_long_wall_is_not_found() {
    let mut land = meadow(5);
    for y in 0..159 {
        wall(&mut land, 150, y);
    }
    let a = (10, 80);
    let b = (155, 80);
    let far = |p: (i32, i32), q: (i32, i32)| std::cmp::max((p.0 - q.0).abs(), (p.1 - q.1).abs());
    let steps = breadth_first(&land, a, b).unwrap() as i32;
    let mut nearer = 0;
    for x in 0..150 {
        for y in 0..160 {
            if far(a, (x, y)) + far((x, y), b) < steps {
                nearer += 1;
            }
        }
    }
    assert!(nearer >= 15000);
    assert!(matches!(land.search(a, b), Search::GaveUp));
    assert!(land.find_path(point(10, 80), point(155, 80)).is_empty());
}
