use temty::game::{GameState, Unit};
use temty::single::Single;
use temty::terrain::{Building, Double};

fn held(x: f32) -> Single {
    Single::from_bits(x.to_bits())
}

fn double(x: f64) -> Double {
    Double { bits: x.to_bits() }
}

fn game() -> GameState {
    GameState::new(&vec![double(0.9); 1024])
}

#[test]
fn walls_stand_on_free_grass() {
    let mut g = game();
    assert!(g.is_tile_buildable(3, 4, double(0.0)));
    g.land.buildings.push(Building { tile_x: 3, tile_y: 4, kind: 0, owner_id: 1 });
    assert!(!g.is_tile_buildable(3, 4, double(0.9)));
    g.units.push(Unit {
        x: held(31.0),
        y: held(16.0),
        path: vec![],
        selected: false,
        kind: 0,
        color: (0, 0, 0),
        owner_id: 9,
    });
    assert!(!g.is_tile_buildable(1, 1, double(0.9)));
    assert!(g.is_tile_buildable(2, 1, double(0.9)));
}

#[test]
fn unknown_ground_is_taken_as_it_would_grow() {
    let g = game();
    assert!(g.is_tile_buildable(-1, 0, double(0.9)));
    assert!(!g.is_tile_buildable(-1, 0, double(0.1)));
    assert!(g.is_tile_buildable(-16, -16, double(0.1)));
}

#[test]
fn known_forest_is_not_built_on() {
    let mut g = game();
    g.land.generate_chunk(-1, -1, &vec![double(0.1); 1024]);
    assert!(!g.is_tile_buildable(-1, -1, double(0.9)));
    assert!(g.is_tile_buildable(-16, -16, double(0.9)));
}

#[test]
fn a_wall_without_ends_has_no_line() {
    let mut g = game();
    assert!(g.wall_line().is_empty());
    g.wall_start = Some((0, 0));
    assert!(g.wall_line().is_empty());
    g.wall_preview = vec![(9, 9)];
    g.generate_wall_preview(&vec![]);
    assert!(g.wall_preview.is_empty());
}

#[test]
fn the_wall_skips_what_is_in_its_way() {
    let mut g = game();
    g.wall_start = Some((10, 5));
    g.wall_end = Some((6, 5));
    g.land.buildings.push(Building { tile_x: 8, tile_y: 5, kind: 1, owner_id: 1 });
    assert_eq!(g.wall_line(), vec![(10, 5), (9, 5), (8, 5), (7, 5), (6, 5)]);
    g.generate_wall_preview(&vec![double(0.0); 5]);
    assert_eq!(g.wall_preview, vec![(10, 5), (9, 5), (7, 5), (6, 5)]);
}
