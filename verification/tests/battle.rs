use temty::battle::{
    find_nearest_building, find_nearest_unit, tower_shots, warrior_hits, Blow, Hit, Shot,
};
use temty::single::Single;
use temty::tick::{Sighting, Tower};
use temty::world::{raise, BuildingDTO, GlobalState, Notice, UnitState};

fn held(x: f32) -> Single {
    Single::from_bits(x.to_bits())
}

fn seen(owner_id: i32, unit_idx: usize, x: f32, y: f32, kind: u8) -> Sighting {
    Sighting { owner_id, unit_idx, x: held(x), y: held(y), kind }
}

fn unit(x: f32, y: f32, hp: f32) -> UnitState {
    UnitState { x: held(x), y: held(y), hp: held(hp), kind: 0 }
}

#[test]
fn the_nearest_foe_is_found() {
    let s = vec![
        seen(1, 0, 0.0, 0.0, 1),
        seen(2, 0, 30.0, 40.0, 0),
        seen(2, 1, 0.0, 20.0, 0),
        seen(3, 0, 20.0, 0.0, 0),
        seen(1, 1, 1.0, 1.0, 0),
    ];
    let zero = held(0.0);
    assert_eq!(find_nearest_unit(&s, 1, zero, zero, held(48.0)), Some(2));
    assert_eq!(find_nearest_unit(&s, 2, zero, zero, held(48.0)), Some(0));
    assert_eq!(find_nearest_unit(&s, 1, zero, zero, held(20.0)), None);
    assert_eq!(find_nearest_unit(&s, 1, held(30.0), held(40.0), held(48.0)), Some(1));
}

#[test]
fn the_nearest_building_of_a_foe_is_found() {
    let b = vec![raise(1, 1, 0, 0, 0), raise(2, 2, 1, 1, 0), raise(3, 2, 1, 0, 1)];
    assert_eq!(find_nearest_building(&b, 1, held(8.0), held(8.0), held(48.0)), Some(1));
    assert_eq!(find_nearest_building(&b, 1, held(8.0), held(9.0), held(48.0)), Some(2));
    assert_eq!(find_nearest_building(&b, 1, held(8.0), held(8.0), held(16.0)), None);
    assert_eq!(find_nearest_building(&b, 2, held(8.0), held(8.0), held(16.0)), Some(0));
}

#[test]
fn warriors_strike_units_before_buildings() {
    let s = vec![
        seen(1, 0, 0.0, 0.0, 1),
        seen(1, 1, 500.0, 500.0, 1),
        seen(1, 2, 0.0, 0.0, 0),
        seen(2, 4, 30.0, 0.0, 0),
    ];
    let b = vec![raise(1, 2, 0, 0, 0), raise(2, 2, 1, 31, 31)];
    let (units, buildings) = warrior_hits(&s, &b);
    let damage = held(30.0 * 0.2);
    assert_eq!(units, vec![Hit { owner_id: 2, idx: 4, damage }]);
    assert_eq!(buildings, vec![Hit { owner_id: 2, idx: 1, damage }]);
}

#[test]
fn warriors_agree_with_plain_arithmetic() {
    let mut state: u64 = 99;
    let mut roll = |n: u32| {
        state = state.wrapping_mul(6364136223846793005).wrapping_add(1442695040888963407);
        ((state >> 33) as u32) % n
    };
    for _ in 0..60 {
        let mut s = Vec::new();
        for i in 0..12usize {
            let x = roll(2000) as f32 / 7.0;
            let y = roll(2000) as f32 / 7.0;
            s.push(seen(roll(3) as i32, i, x, y, roll(2) as u8));
        }
        let mut b = Vec::new();
        for i in 0..5 {
            b.push(raise(i, roll(3) as i32, 1, roll(18) as i32, roll(18) as i32));
        }
        let native = |v: Single| f32::from_bits(v.to_bits());
        let mut units = Vec::new();
        let mut buildings = Vec::new();
        for w in &s {
            if w.kind != 1 {
                continue;
            }
            let mut best: Option<(usize, f32)> = None;
            for (k, o) in s.iter().enumerate() {
                if o.owner_id == w.owner_id {
                    continue;
                }
                let dx = native(o.x) - native(w.x);
                let dy = native(o.y) - native(w.y);
                let dist = (dx * dx + dy * dy).sqrt();
                if dist < 48.0 && (best.is_none() || dist < best.unwrap().1) {
                    best = Some((k, dist));
                }
            }
            if let Some((k, _)) = best {
                units.push((s[k].owner_id, s[k].unit_idx));
                continue;
            }
            let mut best: Option<(usize, f32)> = None;
            for (k, o) in b.iter().enumerate() {
                if o.owner_id == w.owner_id {
                    continue;
                }
                let dx = o.tile_x as f32 * 16.0 + 8.0 - native(w.x);
                let dy = o.tile_y as f32 * 16.0 + 8.0 - native(w.y);
                let dist = (dx * dx + dy * dy).sqrt();
                if dist < 48.0 && (best.is_none() || dist < best.unwrap().1) {
                    best = Some((k, dist));
                }
            }
            if let Some((k, _)) = best {
                buildings.push(k);
            }
        }
        let (hu, hb) = warrior_hits(&s, &b);
        assert_eq!(hu.iter().map(|h| (h.owner_id, h.idx)).collect::<Vec<_>>(), units);
        assert_eq!(hb.iter().map(|h| h.idx).collect::<Vec<_>>(), buildings);
    }
}

#[test]
fn a_blow_hurts_or_kills() {
    let mut g = GlobalState::new();
    g.units.insert(1, vec![unit(0.0, 0.0, 50.0), unit(1.0, 1.0, 6.0)]);
    let damage = held(6.0);
    assert_eq!(g.hit_unit(Hit { owner_id: 1, idx: 0, damage }), Blow::Hurt { hp: held(44.0) });
    assert_eq!(g.hit_unit(Hit { owner_id: 1, idx: 1, damage }), Blow::Killed { hp: held(0.0) });
    assert_eq!(g.hit_unit(Hit { owner_id: 1, idx: 1, damage }), Blow::Missed);
    assert_eq!(g.hit_unit(Hit { owner_id: 2, idx: 0, damage }), Blow::Missed);
    assert_eq!(g.units.list[0].units, vec![unit(0.0, 0.0, 44.0)]);
}

#[test]
fn later_ones_are_struck_first() {
    let mut g = GlobalState::new();
    g.units.insert(1, vec![unit(0.0, 0.0, 5.0), unit(1.0, 0.0, 5.0), unit(2.0, 0.0, 50.0)]);
    let damage = held(6.0);
    let hits = vec![
        Hit { owner_id: 1, idx: 0, damage },
        Hit { owner_id: 1, idx: 2, damage },
        Hit { owner_id: 1, idx: 1, damage },
    ];
    let d = g.apply_damage(&hits, &vec![]);
    assert_eq!(d.unit_hp, vec![Notice::UnitHp { owner_id: 1, unit_idx: 2, hp: held(44.0) }]);
    assert_eq!(
        d.unit_deaths,
        vec![
            Notice::UnitDied { owner_id: 1, unit_idx: 1 },
            Notice::UnitDied { owner_id: 1, unit_idx: 0 }
        ]
    );
    assert_eq!(d.bereaved, vec![1, 1, 1, 1]);
    assert_eq!(g.units.list[0].units, vec![unit(2.0, 0.0, 44.0)]);
    assert_eq!(g.reports(&d.bereaved), vec![g.report(1); 4]);
}

#[test]
fn a_fallen_house_lowers_the_cap() {
    let mut g = GlobalState::new();
    let weak = |kind: u8, id: i32| BuildingDTO { hp: held(3.0), ..raise(id, 4, kind, id, id) };
    g.buildings = vec![weak(3, 0), weak(1, 1), weak(3, 2), weak(3, 3)];
    g.pop_cap.insert(4, 7);
    let damage = held(6.0);
    let hit = |idx: usize| Hit { owner_id: 4, idx, damage };
    let d = g.apply_damage(&vec![], &vec![hit(0), hit(2), hit(1), hit(3), hit(9)]);
    assert_eq!(d.building_deaths.len(), 4);
    assert_eq!(d.building_deaths[0], Notice::BuildingDestroyed { tile_x: 3, tile_y: 3 });
    assert!(g.buildings.is_empty());
    assert_eq!(g.cap(4), 5);
}

#[test]
fn a_building_stands_many_blows() {
    let mut g = GlobalState::new();
    g.buildings = vec![raise(1, 2, 1, 5, 6)];
    let hit = Hit { owner_id: 2, idx: 0, damage: held(30.0 * 0.2) };
    let d = g.apply_damage(&vec![], &vec![hit, hit]);
    let once = 200.0f32 - 30.0 * 0.2;
    let twice = once - 30.0 * 0.2;
    assert_eq!(
        d.building_hp,
        vec![
            Notice::BuildingHp { tile_x: 5, tile_y: 6, hp: held(once) },
            Notice::BuildingHp { tile_x: 5, tile_y: 6, hp: held(twice) }
        ]
    );
    assert!(d.building_deaths.is_empty());
}

#[test]
fn towers_shoot_at_the_nearest_foe() {
    let towers = vec![
        Tower { owner_id: 1, x: held(8.0), y: held(8.0) },
        Tower { owner_id: 2, x: held(1000.0), y: held(0.0) },
    ];
    let s = vec![seen(1, 0, 9.0, 9.0, 0), seen(2, 0, 100.0, 8.0, 0), seen(3, 0, 60.0, 8.0, 0)];
    assert_eq!(
        tower_shots(&towers, &s),
        vec![Shot { x1: held(8.0), y1: held(8.0), x2: held(60.0), y2: held(8.0), owner_id: 1 }]
    );
}

fn shot(x2: f32, y2: f32) -> Shot {
    Shot { x1: held(0.0), y1: held(0.0), x2: held(x2), y2: held(y2), owner_id: 1 }
}

fn fired(x2: f32, y2: f32) -> Notice {
    Notice::TowerShot { x1: held(0.0), y1: held(0.0), x2: held(x2), y2: held(y2) }
}

#[test]
fn a_shot_hits_units_before_buildings() {
    let mut g = GlobalState::new();
    g.units.insert(2, vec![unit(200.0, 200.0, 50.0), unit(20.0, 8.0, 30.0)]);
    g.units.insert(1, vec![unit(8.0, 8.0, 50.0)]);
    g.buildings = vec![raise(1, 2, 1, 0, 0)];
    assert_eq!(
        g.resolve_shot(shot(8.0, 8.0)),
        vec![Notice::UnitHp { owner_id: 2, unit_idx: 1, hp: held(5.0) }, fired(8.0, 8.0)]
    );
    assert_eq!(
        g.resolve_shot(shot(8.0, 8.0)),
        vec![
            Notice::UnitHp { owner_id: 2, unit_idx: 1, hp: held(-20.0) },
            Notice::UnitDied { owner_id: 2, unit_idx: 1 },
            fired(8.0, 8.0)
        ]
    );
    assert_eq!(
        g.resolve_shot(shot(8.0, 8.0)),
        vec![Notice::BuildingHp { tile_x: 0, tile_y: 0, hp: held(175.0) }, fired(8.0, 8.0)]
    );
    assert_eq!(g.resolve_shot(shot(500.0, 8.0)), vec![fired(500.0, 8.0)]);
    assert_eq!(g.units.count(1), 1);
    assert_eq!(g.units.count(2), 1);
}

#[test]
fn a_shot_brings_a_house_down() {
    let mut g = GlobalState::new();
    g.buildings = vec![BuildingDTO { hp: held(25.0), ..raise(1, 2, 3, 0, 0) }];
    g.pop_cap.insert(2, 6);
    assert_eq!(
        g.resolve_shot(shot(8.0, 8.0)),
        vec![
            Notice::BuildingHp { tile_x: 0, tile_y: 0, hp: held(0.0) },
            Notice::BuildingDestroyed { tile_x: 0, tile_y: 0 },
            fired(8.0, 8.0)
        ]
    );
    assert_eq!(g.cap(2), 5);
    assert!(g.buildings.is_empty());
}
