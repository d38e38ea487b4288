use temty::single::Single;
use temty::world::{raise, BuildingDTO, GlobalState, Notice, UnitState};

fn held(x: f32) -> Single {
    Single::from_bits(x.to_bits())
}

fn unit(x: f32, y: f32) -> UnitState {
    UnitState { x: held(x), y: held(y), hp: held(50.0), kind: 0 }
}

#[test]
fn first_units_stand_below_the_town_center() {
    for (cx, cy) in [(0, 0), (1, 0), (-3, 7), (-1, -1), (23000, -23000)] {
        let units = GlobalState::spawn_units(cx, cy);
        let tx = (cx as f32 * 32.0 + 16.0) * 16.0;
        let ty = (cy as f32 * 32.0 + 16.0) * 16.0;
        assert_eq!(units.len(), 2);
        assert_eq!(units[0], unit(tx + 8.0, ty + 32.0));
        assert_eq!(units[1], unit(tx + 24.0, ty + 32.0));
        assert_eq!((tx + 8.0).div_euclid(16.0) as i32, cx * 32 + 16);
    }
}

#[test]
fn a_building_is_found_by_owner_and_number() {
    let mut g = GlobalState::new();
    g.buildings.push(raise(7, 1, 0, 3, 4));
    g.buildings.push(raise(7, 2, 5, 5, 6));
    g.buildings.push(raise(7, 2, 1, 9, 9));
    assert_eq!(g.find_building(2, 7), Some(raise(7, 2, 5, 5, 6)));
    assert_eq!(g.find_building(1, 7), Some(raise(7, 1, 0, 3, 4)));
    assert_eq!(g.find_building(3, 7), None);
    assert_eq!(g.find_building(1, 8), None);
}

#[test]
fn buildings_and_units_block_tiles() {
    let mut g = GlobalState::new();
    g.buildings.push(raise(1, 1, 1, 3, 4));
    g.units.insert(1, vec![unit(8.0, 24.0), unit(-0.5, -16.0)]);
    assert!(g.is_tile_blocked(3, 4));
    assert!(!g.is_tile_blocked(4, 3));
    assert!(g.is_tile_blocked(0, 1));
    assert!(g.is_tile_blocked(-1, -1));
    assert!(!g.is_tile_blocked(0, 0));
}

#[test]
fn raised_buildings_are_unharmed() {
    assert_eq!(
        raise(1, 2, 4, 5, 6),
        BuildingDTO { id: 1, owner_id: 2, kind: 4, tile_x: 5, tile_y: 6, hp: held(300.0) }
    );
}

#[test]
fn armies_are_kept_by_owner() {
    let mut g = GlobalState::new();
    g.units.insert(5, vec![unit(1.0, 1.0)]);
    g.units.insert(2, vec![unit(2.0, 2.0), unit(3.0, 3.0)]);
    g.units.insert(5, vec![unit(4.0, 4.0), unit(5.0, 5.0), unit(6.0, 6.0)]);
    assert_eq!(g.units.count(5), 3);
    assert_eq!(g.units.count(2), 2);
    assert_eq!(g.units.count(9), 0);
    assert_eq!(g.units.list.len(), 2);
    g.units.push_unit(9, unit(7.0, 7.0));
    assert_eq!(g.units.count(9), 1);
    g.units.remove(5);
    assert_eq!(g.units.count(5), 0);
    assert_eq!(g.units.list.len(), 2);
    g.units.remove(5);
    assert_eq!(g.units.list.len(), 2);
}

#[test]
fn a_report_tells_of_the_economy() {
    let mut g = GlobalState::new();
    g.units.insert(4, vec![unit(0.0, 0.0)]);
    match g.report(4) {
        Notice::ResourceUpdate { player_id, resources, pop_cap, pop_used } => {
            assert_eq!(player_id, 4);
            assert_eq!(resources, temty::economy::default_resources());
            assert_eq!(pop_cap, 5);
            assert_eq!(pop_used, 1);
        }
        _ => panic!(),
    }
}
