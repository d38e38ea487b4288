use temty::game::{GameState, Unit};
use temty::news::Spotted;
use temty::session::restore_units;
use temty::single::Single;
use temty::terrain::{Building, Double};
use temty::world::{GlobalState, PlayerInfo};

fn held(x: f32) -> Single {
    Single::from_bits(x.to_bits())
}

fn native(s: Single) -> f32 {
    f32::from_bits(s.to_bits())
}

fn double(x: f64) -> Double {
    Double { bits: x.to_bits() }
}

fn meadow() -> Vec<Double> {
    vec![double(0.9); 1024]
}

fn game() -> GameState {
    let mut g = GameState::new(&meadow());
    g.my_id = Some(1);
    g
}

fn unit(x: f32, y: f32, owner_id: i32) -> Unit {
    Unit {
        x: held(x),
        y: held(y),
        path: vec![],
        selected: false,
        kind: 0,
        color: (255, 0, 0),
        owner_id,
    }
}

#[test]
fn a_new_game_looks_at_the_middle() {
    let g = GameState::new(&meadow());
    assert_eq!((native(g.camera_x), native(g.camera_y), native(g.zoom)), (256.0, 256.0, 1.0));
    assert_eq!(g.my_id, None);
    assert!(g.units.is_empty());
    assert!(g.land.is_tile_walkable(0, 0));
    assert!(!g.land.is_tile_walkable(32, 0));
}

#[test]
fn a_welcome_sets_the_game_up() {
    let mut g = GameState::new(&meadow());
    g.units.push(unit(0.0, 0.0, 5));
    g.land.buildings.push(Building { tile_x: 0, tile_y: 0, kind: 1, owner_id: 5 });
    let players = vec![
        PlayerInfo { id: 7, chunk_x: -1, chunk_y: 2 },
        PlayerInfo { id: 3, chunk_x: 0, chunk_y: 0 },
    ];
    let units = vec![
        Spotted { owner_id: 3, x: held(1.0), y: held(2.0) },
        Spotted { owner_id: 7, x: held(3.0), y: held(4.0) },
    ];
    let wall = Building { tile_x: 4, tile_y: 4, kind: 1, owner_id: 3 };
    let forest = vec![double(0.1); 1024];
    g.welcome(7, -1, 2, &players, &units, &vec![wall], &vec![meadow(), forest]);
    assert_eq!(g.my_id, Some(7));
    assert_eq!((g.my_chunk_x, g.my_chunk_y), (-1, 2));
    assert_eq!(g.other_players, players);
    assert_eq!(
        g.land.buildings,
        vec![
            Building { tile_x: -16, tile_y: 80, kind: 0, owner_id: 7 },
            Building { tile_x: 16, tile_y: 16, kind: 0, owner_id: 3 },
            wall
        ]
    );
    assert_eq!(
        (native(g.camera_x), native(g.camera_y)),
        (-1.0 * 32.0 * 16.0 + 256.0, 2.0 * 32.0 * 16.0 + 256.0)
    );
    assert_eq!(g.units.len(), 2);
    assert_eq!((g.units[0].color, g.units[1].color), ((255, 0, 0), (0, 0, 255)));
    assert!(g.land.is_tile_walkable(-32, 64));
    assert!(g.land.is_tile_walkable(0, 0));
}

#[test]
fn a_newcomer_is_shown() {
    let mut g = game();
    g.new_player(PlayerInfo { id: 2, chunk_x: 1, chunk_y: 0 }, &meadow());
    assert_eq!(g.other_players.len(), 1);
    assert_eq!(g.units.len(), 2);
    assert_eq!((native(g.units[0].x), native(g.units[0].y)), (768.0 + 30.0, 256.0 + 30.0));
    assert_eq!((native(g.units[1].x), native(g.units[1].y)), (768.0 - 20.0, 256.0 + 40.0));
    assert_eq!(g.land.buildings, vec![Building { tile_x: 48, tile_y: 16, kind: 0, owner_id: 2 }]);
    assert!(g.land.is_tile_walkable(40, 0));
    g.new_player(PlayerInfo { id: 1, chunk_x: 5, chunk_y: 5 }, &meadow());
    assert_eq!(g.other_players.len(), 1);
    assert!(!g.land.is_tile_walkable(165, 165));
}

#[test]
fn others_send_their_units_off() {
    let mut g = game();
    g.units.push(unit(24.0, 24.0, 1));
    g.units.push(unit(40.0, 24.0, 2));
    g.units.push(unit(24.0, 40.0, 2));
    g.unit_move(2, 1, held(24.0), held(72.0));
    assert!(g.units[1].path.is_empty());
    assert_eq!(g.units[2].path.len(), 3);
    assert_eq!(native(g.units[2].x), 24.0);
    g.unit_move(2, 1, held(9000.0), held(0.0));
    assert!(g.units[2].path.is_empty());
    assert_eq!((native(g.units[2].x), native(g.units[2].y)), (9000.0, 0.0));
}

#[test]
fn own_units_are_not_moved_by_news() {
    let mut g = game();
    g.units.push(unit(24.0, 24.0, 1));
    g.unit_move(1, 0, held(72.0), held(72.0));
    g.unit_sync(1, 0, held(72.0), held(72.0));
    g.unit_move(2, 0, held(72.0), held(72.0));
    g.unit_sync(2, 5, held(72.0), held(72.0));
    assert!(g.units[0].path.is_empty());
    assert_eq!((native(g.units[0].x), native(g.units[0].y)), (24.0, 24.0));
}

#[test]
fn units_are_put_right() {
    let mut g = game();
    g.units.push(unit(10.0, 10.0, 2));
    g.unit_sync(2, 0, held(40.0), held(50.0));
    assert_eq!(native(g.units[0].x), 10.0 + (40.0 - 10.0) * 0.2);
    assert_eq!(native(g.units[0].y), 10.0 + (50.0 - 10.0) * 0.2);
    g.unit_sync(2, 0, held(100.0), held(100.0));
    assert_eq!((native(g.units[0].x), native(g.units[0].y)), (100.0, 100.0));
}

#[test]
fn units_and_buildings_come() {
    let mut g = game();
    g.unit_spawned(Spotted { owner_id: 1, x: held(5.0), y: held(6.0) });
    g.unit_spawned(Spotted { owner_id: 4, x: held(7.0), y: held(8.0) });
    assert_eq!((g.units[0].color, g.units[1].color), ((0, 0, 255), (255, 0, 0)));
    assert!(!g.units[0].selected && g.units[0].path.is_empty());
    let b = Building { tile_x: 3, tile_y: 3, kind: 1, owner_id: 4 };
    g.building_spawned(b);
    assert_eq!(g.land.buildings, vec![b]);
}

#[test]
fn an_outdated_client_drops_out() {
    let mut g = game();
    assert!(!g.server_error("Invalid handshake: expected Join message"));
    assert_eq!(g.my_id, Some(1));
    assert!(g.server_error("Client version 20 is too old. Minimum required: 22"));
    assert_eq!(g.my_id, None);
}

#[test]
fn server_and_client_mean_the_same_unit() {
    let mut s = GlobalState::new();
    for p in 1..4 {
        let rows: Vec<(Single, Single)> =
            (0..p + 2).map(|k| (held((100 * p + k) as f32), held(0.0))).collect();
        s.enter_with(p, p, 0, Some(restore_units(&rows, 0, 0)), p);
    }
    let units: Vec<Spotted> = s
        .all_units()
        .iter()
        .map(|u| Spotted { owner_id: u.owner_id, x: u.x, y: u.y })
        .collect();
    let players = s.all_players();
    let noise = vec![meadow(); 3];
    let mut g = GameState::new(&meadow());
    g.welcome(1, 1, 0, &players, &units, &vec![], &noise);
    g.unit_sync(3, 2, held(5000.0), held(5000.0));
    s.move_unit(3, 2, held(5000.0), held(5000.0));
    let after = s.all_units();
    for (a, b) in g.units.iter().zip(after.iter()) {
        assert_eq!((a.owner_id, a.x, a.y), (b.owner_id, b.x, b.y));
    }
}
