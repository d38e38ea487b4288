use temty::click::Button;
use temty::game::{GameState, Order, Unit};
use temty::single::Single;
use temty::terrain::{Building, Double};

fn held(x: f32) -> Single {
    Single::from_bits(x.to_bits())
}

fn native(s: Single) -> f32 {
    f32::from_bits(s.to_bits())
}

fn double(x: f64) -> Double {
    Double { bits: x.to_bits() }
}

fn unit(x: f32, y: f32, owner_id: i32, kind: u8, selected: bool) -> Unit {
    Unit { x: held(x), y: held(y), path: vec![], selected, kind, color: (0, 0, 255), owner_id }
}

fn game() -> GameState {
    let mut g = GameState::new(&vec![double(0.9); 1024]);
    g.my_id = Some(1);
    g
}

/// A click long after any other.
fn click(g: &mut GameState, x: f32, y: f32) -> (Vec<Order>, bool) {
    let c = g.handle_click(held(x), held(y), double(9000.0), double(9000.0));
    (c.orders, c.preview)
}

fn selected(g: &GameState) -> Vec<bool> {
    g.units.iter().map(|u| u.selected).collect()
}

#[test]
fn the_picture_shows_the_world() {
    let mut g = game();
    g.zoom = held(2.0);
    g.camera_x = held(-50.0);
    let p = g.screen_to_world(held(200.0), held(20.0));
    assert_eq!((native(p.0), native(p.1)), ((200.0 - 180.0) / 2.0 - 50.0, (20.0 - 320.0) / 2.0 + 256.0));
}

#[test]
fn buttons_are_where_they_should_be() {
    let mut g = game();
    let at = |g: &GameState, x: f32, y: f32| g.find_button(held(x), held(y));
    assert_eq!(at(&g, 100.0, 580.0), Button::World);
    assert_eq!(at(&g, 100.0, 581.0), Button::Footer);
    assert_eq!(at(&g, 160.0, 590.0), Button::Home);
    assert_eq!(at(&g, 200.0, 630.0), Button::Home);
    assert_eq!(at(&g, 159.9, 600.0), Button::Footer);
    assert_eq!(at(&g, 210.0, 600.0), Button::Group);
    assert_eq!(at(&g, 250.0, 600.0), Button::Group);
    assert_eq!(at(&g, 20.0, 600.0), Button::Footer);
    g.units.push(unit(0.0, 0.0, 1, 0, true));
    assert_eq!(at(&g, 20.0, 600.0), Button::Wall);
    assert_eq!(at(&g, 20.0, 560.0), Button::Icon(0));
    assert_eq!(at(&g, 34.0, 560.0), Button::World);
    g.land.buildings.push(Building { tile_x: 0, tile_y: 0, kind: 0, owner_id: 1 });
    g.selected_building = Some(0);
    assert_eq!(at(&g, 50.0, 600.0), Button::Spawn);
    g.land.buildings[0].kind = 1;
    assert_eq!(at(&g, 50.0, 600.0), Button::Footer);
    g.build_mode = true;
    assert_eq!(at(&g, 270.0, 600.0), Button::Footer);
    g.wall_end = Some((1, 1));
    assert_eq!(at(&g, 260.0, 600.0), Button::Confirm);
    assert_eq!(at(&g, 305.0, 600.0), Button::Footer);
    assert_eq!(at(&g, 350.0, 600.0), Button::Cancel);
}

#[test]
fn icons_are_counted_among_the_selected() {
    let mut g = game();
    for i in 0..14 {
        g.units.push(unit(0.0, 0.0, if i == 1 { 2 } else { 1 }, 0, i != 2));
    }
    assert_eq!(g.find_button(held(10.0), held(555.0)), Button::Icon(0));
    assert_eq!(g.find_button(held(35.0), held(575.0)), Button::Icon(3));
    assert_eq!(g.find_button(held(10.0 + 24.0 * 9.0), held(560.0)), Button::Icon(11));
    assert_eq!(g.find_button(held(10.0 + 24.0 * 10.0), held(560.0)), Button::World);
    click(&mut g, 40.0, 560.0);
    assert!(!g.units[3].selected);
}

#[test]
fn without_a_player_nothing_happens() {
    let mut g = game();
    g.my_id = None;
    assert_eq!(click(&mut g, 220.0, 600.0), (vec![], false));
    assert!(!g.group_select_mode);
}

#[test]
fn home_selects_and_shows_the_town_center() {
    let mut g = game();
    g.units.push(unit(0.0, 0.0, 1, 0, true));
    g.land.buildings.push(Building { tile_x: 9, tile_y: 9, kind: 0, owner_id: 2 });
    g.land.buildings.push(Building { tile_x: 8, tile_y: 9, kind: 1, owner_id: 1 });
    g.land.buildings.push(Building { tile_x: -4, tile_y: 7, kind: 0, owner_id: 1 });
    g.target_zoom = held(3.0);
    click(&mut g, 180.0, 600.0);
    assert_eq!(g.selected_building, Some(2));
    assert_eq!((native(g.camera_x), native(g.camera_y)), (-64.0, 112.0));
    assert_eq!(native(g.target_zoom), 1.0);
    assert_eq!(selected(&g), vec![false]);
}

#[test]
fn the_group_button_toggles() {
    let mut g = game();
    click(&mut g, 220.0, 600.0);
    assert!(g.group_select_mode);
    click(&mut g, 220.0, 600.0);
    assert!(!g.group_select_mode);
}

#[test]
fn the_spawn_button_asks_for_a_worker() {
    let mut g = game();
    g.land.buildings.push(Building { tile_x: 0, tile_y: 0, kind: 0, owner_id: 1 });
    g.selected_building = Some(0);
    assert_eq!(click(&mut g, 20.0, 600.0), (vec![Order::SpawnUnit], false));
}

#[test]
fn the_wall_button_drops_the_wall_when_it_ends() {
    let mut g = game();
    g.units.push(unit(0.0, 0.0, 1, 0, true));
    click(&mut g, 20.0, 600.0);
    assert!(g.build_mode);
    g.wall_start = Some((1, 1));
    g.wall_end = Some((2, 2));
    g.wall_preview = vec![(1, 1), (2, 2)];
    click(&mut g, 20.0, 600.0);
    assert!(!g.build_mode);
    assert_eq!((g.wall_start, g.wall_end), (None, None));
    assert!(g.wall_preview.is_empty());
}

#[test]
fn a_wall_is_marked_out_and_confirmed() {
    let mut g = game();
    g.build_mode = true;
    assert_eq!(click(&mut g, 180.0, 320.0), (vec![], false));
    assert_eq!(g.wall_start, Some((16, 16)));
    assert_eq!(click(&mut g, 180.0 + 32.0, 320.0 + 16.0), (vec![], true));
    assert_eq!(g.wall_end, Some((18, 17)));
    let line = g.wall_line();
    assert_eq!(line, vec![(16, 16), (17, 17), (18, 17)]);
    g.units.push(unit(280.0, 280.0, 2, 0, false));
    g.generate_wall_preview(&vec![double(0.0); 3]);
    assert_eq!(g.wall_preview, vec![(16, 16), (18, 17)]);
    assert_eq!(click(&mut g, 100.0, 100.0), (vec![], false));
    let build = |tile_x: i32, tile_y: i32| Order::Build { kind: 1, tile_x, tile_y };
    assert_eq!(click(&mut g, 280.0, 600.0), (vec![build(16, 16), build(18, 17)], false));
    assert!(!g.build_mode);
    assert!(g.wall_preview.is_empty());
    assert_eq!((g.wall_start, g.wall_end), (None, None));
}

#[test]
fn an_empty_wall_is_not_built() {
    let mut g = game();
    g.build_mode = true;
    g.wall_start = Some((1, 1));
    g.wall_end = Some((1, 1));
    assert_eq!(click(&mut g, 280.0, 600.0), (vec![], false));
    assert!(g.build_mode);
    assert_eq!(g.wall_start, None);
}

#[test]
fn a_cancelled_wall_can_be_tried_again() {
    let mut g = game();
    g.build_mode = true;
    g.wall_start = Some((1, 1));
    g.wall_end = Some((1, 1));
    g.wall_preview = vec![(1, 1)];
    assert_eq!(click(&mut g, 330.0, 600.0), (vec![], false));
    assert!(g.build_mode);
    assert!(g.wall_preview.is_empty());
}

#[test]
fn a_click_selects_a_unit() {
    let mut g = game();
    g.units.push(unit(256.0, 256.0, 2, 0, false));
    g.units.push(unit(265.0, 250.0, 1, 0, false));
    g.units.push(unit(256.0, 256.0, 1, 0, false));
    g.selected_building = Some(3);
    click(&mut g, 180.0, 320.0);
    assert_eq!(selected(&g), vec![false, true, false]);
    assert_eq!(g.selected_building, None);
    click(&mut g, 180.0, 320.0);
    assert_eq!(selected(&g), vec![false, false, false]);
}

#[test]
fn a_double_click_selects_the_kind() {
    let mut g = game();
    g.units.push(unit(256.0, 256.0, 1, 0, false));
    g.units.push(unit(0.0, 0.0, 1, 0, false));
    g.units.push(unit(0.0, 0.0, 1, 1, false));
    g.units.push(unit(0.0, 0.0, 2, 0, false));
    g.handle_click(held(180.0), held(320.0), double(1000.0), double(1000.0));
    assert_eq!(selected(&g), vec![true, false, false, false]);
    assert_eq!(g.last_click_time, double(1000.0));
    g.handle_click(held(185.0), held(320.0), double(1299.0), double(299.0));
    assert_eq!(selected(&g), vec![true, true, false, false]);
}

#[test]
fn slow_or_distant_clicks_are_single() {
    let mut g = game();
    g.units.push(unit(256.0, 256.0, 1, 0, false));
    g.units.push(unit(0.0, 0.0, 1, 0, false));
    g.handle_click(held(180.0), held(320.0), double(1000.0), double(1000.0));
    g.handle_click(held(180.0), held(320.0), double(1300.0), double(300.0));
    assert_eq!(selected(&g), vec![false, false]);
    g.last_click_x = held(160.0);
    g.handle_click(held(180.0), held(320.0), double(1301.0), double(1.0));
    assert_eq!(selected(&g), vec![true, false]);
}

#[test]
fn a_click_selects_a_building() {
    let mut g = game();
    g.land.buildings.push(Building { tile_x: 16, tile_y: 16, kind: 1, owner_id: 2 });
    g.land.buildings.push(Building { tile_x: 16, tile_y: 16, kind: 1, owner_id: 1 });
    g.units.push(unit(0.0, 0.0, 1, 0, true));
    click(&mut g, 180.0, 320.0);
    assert_eq!(g.selected_building, Some(1));
    assert_eq!(selected(&g), vec![false]);
    click(&mut g, 180.0 + 40.0, 320.0);
    assert_eq!(g.selected_building, None);
}

#[test]
fn selected_units_are_sent_off() {
    let mut g = game();
    g.units.push(unit(0.0, 0.0, 2, 0, true));
    g.units.push(unit(40.0, 40.0, 1, 0, false));
    g.units.push(unit(72.0, 72.0, 1, 0, true));
    g.units.push(unit(104.0, 72.0, 1, 0, true));
    let (orders, preview) = click(&mut g, 180.0, 320.0);
    let go = |unit_idx: usize| Order::UnitMove {
        player_id: 1,
        unit_idx,
        x: held(256.0),
        y: held(256.0),
    };
    assert_eq!(orders, vec![go(1), go(2)]);
    assert!(!preview);
    assert!(g.units[0].path.is_empty());
    assert!(g.units[1].path.is_empty());
    assert_eq!(g.units[2].path.len(), 13);
    assert_eq!(g.units[2].path[0], (held(256.0), held(256.0)));
    assert_eq!(g.units[3].path.len(), 13);
}

#[test]
fn nobody_is_sent_where_there_is_no_way() {
    let mut g = game();
    g.units.push(unit(72.0, 72.0, 1, 0, true));
    g.units[0].path = vec![(held(1.0), held(1.0))];
    g.camera_x = held(5000.0);
    let (orders, _) = click(&mut g, 180.0, 320.0);
    assert!(orders.is_empty());
    assert_eq!(g.units[0].path, vec![(held(1.0), held(1.0))]);
}
