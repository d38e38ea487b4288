use temty::single::Single;
use temty::world::{raise, GatherTask, GlobalState, Notice, UnitDTO, UnitState};

fn held(x: f32) -> Single {
    Single::from_bits(x.to_bits())
}

fn entered() -> GlobalState {
    let mut g = GlobalState::new();
    g.enter_with(1, 1, 0, None, 42);
    g
}

#[test]
fn a_house_is_begun() {
    let mut g = entered();
    let told = g.build(1, 3, 60, 60);
    assert_eq!(
        told,
        vec![
            Notice::BuildProgress { tile_x: 60, tile_y: 60, kind: 3, progress: held(0.0) },
            g.report(1)
        ]
    );
    assert_eq!(g.purse(1).wood, held(125.0));
    assert_eq!(g.cap(1), 6);
    let task = g.building_progress.get((60, 60)).unwrap();
    assert_eq!((task.owner_id, task.kind, task.progress), (1, 3, held(0.0)));
}

#[test]
fn nothing_is_built_where_something_stands() {
    let mut g = entered();
    assert!(g.build(1, 1, 48, 16).is_empty());
    let u = g.units.list[0].units[0];
    let (tx, ty) = (u.x.floor_i32() / 16, u.y.floor_i32() / 16);
    assert!(g.build(1, 1, tx, ty).is_empty());
    assert_eq!(g.purse(1).wood, held(150.0));
    assert!(g.building_progress.rows.is_empty());
}

#[test]
fn nothing_is_built_on_credit() {
    let mut g = entered();
    assert_eq!(g.build(1, 4, 0, 0).len(), 2);
    assert!(g.build(1, 4, 0, 1).is_empty());
    assert_eq!(g.purse(1).stone, held(20.0));
    assert_eq!(g.building_progress.rows.len(), 1);
    assert_eq!(g.cap(1), 5);
}

#[test]
fn a_tile_begun_twice_is_begun_anew() {
    let mut g = entered();
    g.build(1, 1, 0, 0);
    g.begin_tick();
    g.build(1, 2, 0, 0);
    assert_eq!(g.building_progress.rows.len(), 1);
    let task = g.building_progress.get((0, 0)).unwrap();
    assert_eq!((task.kind, task.progress), (2, held(0.0)));
}

#[test]
fn units_are_told_to_gather() {
    let mut g = entered();
    g.assign_gather(1, &vec![0, 1, 0], 5, 6, 2);
    g.assign_gather(1, &vec![1], 7, 8, 3);
    assert_eq!(g.gather_tasks.rows.len(), 2);
    assert_eq!(
        g.gather_tasks.get((1, 0)),
        Some(GatherTask { kind: 2, target_x: 5, target_y: 6 })
    );
    assert_eq!(
        g.gather_tasks.get((1, 1)),
        Some(GatherTask { kind: 3, target_x: 7, target_y: 8 })
    );
    assert_eq!(g.gather_tasks.get((2, 1)), None);
}

#[test]
fn a_warrior_is_trained() {
    let mut g = entered();
    g.buildings.push(raise(9, 1, 5, -3, 7));
    let told = g.train_unit(1, 9, 1);
    let unit = UnitDTO {
        owner_id: 1,
        unit_idx: 2,
        x: held(-32.0),
        y: held(120.0),
        kind: 1,
        hp: held(120.0),
    };
    assert_eq!(told, vec![Notice::UnitSpawned { unit }, g.report(1)]);
    assert_eq!(g.purse(1).gold, held(40.0));
    assert_eq!(g.purse(1).food, held(60.0));
    assert_eq!(
        g.units.list[0].units[2],
        UnitState { x: held(-32.0), y: held(120.0), hp: held(120.0), kind: 1 }
    );
}

#[test]
fn only_warriors_are_trained_in_own_buildings() {
    let mut g = entered();
    assert!(g.train_unit(1, 42, 0).is_empty());
    assert!(g.train_unit(1, 41, 1).is_empty());
    assert!(g.train_unit(2, 42, 1).is_empty());
    assert_eq!(g.purse(1).food, held(100.0));
    assert_eq!(g.units.count(1), 2);
}

#[test]
fn the_cap_limits_the_army() {
    let mut g = entered();
    g.resources.insert(
        1,
        temty::economy::Resources::new(held(0.0), held(0.0), held(1000.0), held(1000.0)),
    );
    for n in 3..=5 {
        assert_eq!(g.spawn_unit(1).len(), 2);
        assert_eq!(g.units.count(1), n);
    }
    assert!(g.spawn_unit(1).is_empty());
    assert!(g.train_unit(1, 42, 1).is_empty());
    assert_eq!(g.units.count(1), 5);
    assert_eq!(g.purse(1).food, held(850.0));
}

#[test]
fn workers_line_up_below_the_town_center() {
    let mut g = entered();
    g.resources.insert(
        1,
        temty::economy::Resources::new(held(0.0), held(0.0), held(0.0), held(1000.0)),
    );
    g.pop_cap.insert(1, 50);
    let tx = (1.0f32 * 32.0 + 16.0) * 16.0;
    let ty = (0.0f32 * 32.0 + 16.0) * 16.0;
    for idx in 2..12usize {
        let told = g.spawn_unit(1);
        let x = tx + (idx % 3) as f32 * 16.0;
        let y = ty + 16.0 * 2.0 + (idx / 3) as f32 * 16.0;
        let unit = UnitDTO {
            owner_id: 1,
            unit_idx: idx,
            x: held(x),
            y: held(y),
            kind: 0,
            hp: held(50.0),
        };
        assert_eq!(told[0], Notice::UnitSpawned { unit });
    }
}

#[test]
fn a_worker_is_not_hired_on_credit() {
    let mut g = entered();
    assert_eq!(g.spawn_unit(1).len(), 2);
    assert_eq!(g.spawn_unit(1).len(), 2);
    assert!(g.spawn_unit(1).is_empty());
    assert_eq!(g.purse(1).food, held(0.0));
    assert_eq!(g.units.count(1), 4);
}

#[test]
fn somebody_unknown_is_served_in_the_middle() {
    let mut g = GlobalState::new();
    let told = g.spawn_unit(8);
    let unit = UnitDTO {
        owner_id: 8,
        unit_idx: 0,
        x: held(256.0),
        y: held(288.0),
        kind: 0,
        hp: held(50.0),
    };
    assert_eq!(told[0], Notice::UnitSpawned { unit });
    assert_eq!(g.units.count(8), 1);
    assert_eq!(g.purse(8).food, held(50.0));
}

#[test]
fn units_are_moved() {
    let mut g = entered();
    g.move_unit(1, 1, held(7.5), held(-3.0));
    assert_eq!(g.units.list[0].units[1].x, held(7.5));
    assert_eq!(g.units.list[0].units[1].y, held(-3.0));
    let before = g.all_units();
    g.move_unit(1, 2, held(0.0), held(0.0));
    g.move_unit(9, 0, held(0.0), held(0.0));
    assert_eq!(g.all_units(), before);
}

#[test]
fn a_house_makes_room_until_it_falls() {
    let mut g = entered();
    g.build(1, 3, 0, 0);
    assert_eq!(g.cap(1), 6);
    let mut finished = Vec::new();
    while finished.is_empty() {
        finished = g.begin_tick().finished;
    }
    g.finish_building(finished[0], 5);
    let at = g.buildings.iter().position(|b| b.kind == 3).unwrap();
    g.hit_building(at, held(1000.0));
    assert_eq!(g.cap(1), 5);
}
