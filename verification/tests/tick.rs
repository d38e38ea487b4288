use temty::single::Single;
use temty::tick::{Sighting, Tower};
use temty::world::{raise, BuildTask, GatherTask, GlobalState, Notice, UnitState};

fn held(x: f32) -> Single {
    Single::from_bits(x.to_bits())
}

#[test]
fn a_building_rises_in_nine_ticks() {
    let mut g = GlobalState::new();
    g.building_progress.insert(
        (3, 4),
        BuildTask { owner_id: 1, kind: 3, tile_x: 3, tile_y: 4, progress: held(0.0) },
    );
    let mut p = 0.0f32;
    for n in 1..=9 {
        let t = g.begin_tick();
        p += 0.12;
        assert_eq!(
            t.notices,
            vec![Notice::BuildProgress { tile_x: 3, tile_y: 4, kind: 3, progress: held(p.min(1.0)) }]
        );
        assert_eq!(t.finished.len(), if n == 9 { 1 } else { 0 });
        if n == 9 {
            assert_eq!(t.finished[0].progress, held(p));
            let told = g.finish_building(t.finished[0], 77);
            assert_eq!(told, Notice::BuildingSpawned { building: raise(77, 1, 3, 3, 4) });
        }
    }
    assert_eq!(g.building_progress.rows.len(), 0);
    assert_eq!(g.buildings, vec![raise(77, 1, 3, 3, 4)]);
    assert!(g.begin_tick().notices.is_empty());
}

#[test]
fn only_complete_buildings_leave_the_list() {
    let mut g = GlobalState::new();
    for i in 0..4 {
        let progress = held(if i % 2 == 0 { 0.95 } else { 0.2 });
        g.building_progress.insert(
            (i, i),
            BuildTask { owner_id: i, kind: 1, tile_x: i, tile_y: i, progress },
        );
    }
    let t = g.begin_tick();
    assert_eq!(t.notices.len(), 4);
    assert_eq!(t.finished.iter().map(|f| f.tile_x).collect::<Vec<_>>(), vec![0, 2]);
    assert_eq!(g.building_progress.rows.iter().map(|r| r.0).collect::<Vec<_>>(), vec![(1, 1), (3, 3)]);
}

#[test]
fn the_tick_takes_down_what_it_goes_by() {
    let mut g = GlobalState::new();
    let u = |x: f32, kind: u8| UnitState { x: held(x), y: held(-x), hp: held(9.0), kind };
    g.units.insert(7, vec![u(1.0, 0), u(2.0, 1)]);
    g.units.insert(3, vec![u(5.0, 1)]);
    g.buildings.push(raise(1, 7, 0, 10, 20));
    g.buildings.push(raise(2, 7, 4, 10, -20));
    g.gather_tasks.insert((7, 0), GatherTask { kind: 2, target_x: 1, target_y: 1 });
    let t = g.begin_tick();
    let s = |owner_id: i32, unit_idx: usize, x: f32, kind: u8| Sighting {
        owner_id,
        unit_idx,
        x: held(x),
        y: held(-x),
        kind,
    };
    assert_eq!(t.sightings, vec![s(7, 0, 1.0, 0), s(7, 1, 2.0, 1), s(3, 0, 5.0, 1)]);
    assert_eq!(t.buildings, g.buildings);
    assert_eq!(t.towers, vec![Tower { owner_id: 7, x: held(168.0), y: held(-312.0) }]);
    assert_eq!(t.gathering, vec![(7, GatherTask { kind: 2, target_x: 1, target_y: 1 })]);
}

#[test]
fn gathering_fills_the_purse() {
    let mut g = GlobalState::new();
    let told = g.gather(6, 4);
    match told {
        Notice::ResourceUpdate { player_id, resources, pop_cap, pop_used } => {
            assert_eq!((player_id, pop_cap, pop_used), (6, 5, 0));
            assert_eq!(resources.gold, held(60.0 + (6.0f32 / 60.0) * 0.2));
            assert_eq!(resources.wood, held(150.0));
        }
        _ => panic!(),
    }
    g.gather(6, 4);
    assert_eq!(
        g.purse(6).gold,
        held(60.0 + (6.0f32 / 60.0) * 0.2 + (6.0f32 / 60.0) * 0.2)
    );
}
