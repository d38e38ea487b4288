use temty::game::{GameState, Order, Unit};
use temty::single::Single;
use temty::terrain::{Building, Double};

fn held(x: f32) -> Single {
    Single::from_bits(x.to_bits())
}

fn native(s: Single) -> f32 {
    f32::from_bits(s.to_bits())
}

fn double(x: f64) -> Double {
    Double { bits: x.to_bits() }
}

fn unit(x: f32, y: f32, owner_id: i32) -> Unit {
    Unit {
        x: held(x),
        y: held(y),
        path: vec![],
        selected: false,
        kind: 0,
        color: (0, 0, 255),
        owner_id,
    }
}

fn game() -> GameState {
    let mut g = GameState::new(&vec![double(0.9); 1024]);
    g.my_id = Some(1);
    g
}

fn up(g: &mut GameState, x: f32, y: f32) -> Vec<Order> {
    g.mouse_up(held(x), held(y), double(9000.0), double(9000.0)).orders
}

#[test]
fn the_wheel_zooms_within_bounds() {
    let mut g = game();
    g.handle_zoom(held(100.0));
    assert_eq!(native(g.target_zoom), 1.0 - 100.0 * 0.001);
    g.handle_zoom(held(1.0e6));
    assert_eq!(native(g.target_zoom), 0.05);
    g.handle_zoom(held(-1.0e6));
    assert_eq!(native(g.target_zoom), 5.0);
    assert_eq!(native(g.zoom), 1.0);
}

#[test]
fn two_fingers_zoom() {
    let mut g = game();
    g.touch_move_two((0, 0), (30, 40));
    assert_eq!(g.last_touch_dist, Some(held(50.0)));
    assert_eq!(native(g.target_zoom), 1.0);
    g.touch_move_two((60, 80), (0, 0));
    assert_eq!(native(g.target_zoom), 1.0 - ((50.0 - 100.0) * 5.0) * 0.001);
    assert!(g.touch_is_pan_or_zoom);
}

#[test]
fn dragging_the_picture_moves_the_camera() {
    let mut g = game();
    g.zoom = held(2.0);
    g.handle_pan(held(10.0), held(20.0));
    assert_eq!(native(g.camera_x), 256.0);
    g.handle_pan(held(16.0), held(10.0));
    assert_eq!((native(g.camera_x), native(g.camera_y)), (256.0 - 3.0, 256.0 + 5.0));
    g.end_touch();
    g.handle_pan(held(100.0), held(100.0));
    assert_eq!(native(g.camera_x), 253.0);
}

#[test]
fn the_mouse_pans_only_while_it_is_down() {
    let mut g = game();
    g.mouse_move(held(10.0), held(10.0), false);
    g.mouse_move(held(20.0), held(10.0), true);
    assert_eq!(native(g.camera_x), 246.0);
    g.mouse_move(held(90.0), held(10.0), false);
    assert_eq!(native(g.camera_x), 246.0);
    assert_eq!(g.last_pan_x, Some(held(90.0)));
}

#[test]
fn a_still_mouse_clicks() {
    let mut g = game();
    g.land.buildings.push(Building { tile_x: 0, tile_y: 0, kind: 0, owner_id: 1 });
    g.selected_building = Some(0);
    g.mouse_down(held(20.0), held(600.0));
    assert_eq!(up(&mut g, 29.0, 609.0), vec![Order::SpawnUnit]);
    assert_eq!(g.mouse_down_pos, None);
    g.mouse_down(held(20.0), held(600.0));
    assert!(up(&mut g, 29.0, 612.0).is_empty());
    assert!(up(&mut g, 20.0, 600.0).is_empty());
}

#[test]
fn a_box_toggles_the_units_in_it() {
    let mut g = game();
    g.units.push(unit(250.0, 250.0, 1));
    g.units.push(unit(260.0, 262.0, 1));
    g.units.push(unit(255.0, 255.0, 2));
    g.units.push(unit(300.0, 255.0, 1));
    g.units[1].selected = true;
    g.group_select_mode = true;
    g.selected_building = Some(0);
    g.mouse_down(held(190.0), held(330.0));
    assert_eq!(g.drag_start, Some((held(190.0), held(330.0))));
    g.mouse_move(held(170.0), held(310.0), true);
    assert_eq!(g.drag_current, Some((held(170.0), held(310.0))));
    assert_eq!(native(g.camera_x), 256.0);
    up(&mut g, 170.0, 310.0);
    let marks: Vec<bool> = g.units.iter().map(|u| u.selected).collect();
    assert_eq!(marks, vec![true, false, false, false]);
    assert!(!g.group_select_mode);
    assert_eq!((g.drag_start, g.drag_current, g.selected_building), (None, None, None));
}

#[test]
fn a_box_dragged_twice_changes_nothing() {
    let mut g = game();
    g.units.push(unit(250.0, 250.0, 1));
    for _ in 0..2 {
        g.group_select_mode = true;
        g.handle_drag_start(held(0.0), held(0.0));
        g.handle_drag_move(held(360.0), held(500.0));
        g.handle_drag_end();
    }
    assert!(!g.units[0].selected);
}

#[test]
fn no_box_without_group_mode_or_player() {
    let mut g = game();
    g.handle_drag_start(held(0.0), held(0.0));
    assert_eq!(g.drag_start, None);
    g.group_select_mode = true;
    g.mouse_down(held(10.0), held(581.0));
    assert_eq!(g.drag_start, None);
    g.mouse_down(held(10.0), held(580.0));
    assert_eq!(g.drag_start, Some((held(10.0), held(580.0))));
    g.units.push(unit(250.0, 250.0, 1));
    g.my_id = None;
    g.handle_drag_move(held(300.0), held(0.0));
    g.handle_drag_end();
    assert!(g.group_select_mode);
    assert_eq!(g.drag_start, None);
    assert!(!g.units[0].selected);
}

#[test]
fn leaving_the_picture_ends_everything() {
    let mut g = game();
    g.group_select_mode = true;
    g.mouse_down(held(10.0), held(10.0));
    g.mouse_leave();
    assert_eq!((g.mouse_down_pos, g.drag_start, g.last_pan_x), (None, None, None));
    assert!(!g.group_select_mode);
}

#[test]
fn a_tap_clicks() {
    let mut g = game();
    g.touch_start(held(220.0), held(600.0));
    g.touch_move(held(225.0), held(600.0));
    g.touch_end(double(9000.0), double(9000.0));
    assert!(g.group_select_mode);
    assert_eq!(g.mouse_down_pos, None);
}

#[test]
fn a_swipe_pans_and_does_not_click() {
    let mut g = game();
    g.touch_start(held(220.0), held(600.0));
    g.touch_move(held(240.0), held(600.0));
    assert!(g.touch_is_pan_or_zoom);
    assert_eq!(native(g.camera_x), 236.0);
    g.touch_end(double(9000.0), double(9000.0));
    assert!(!g.group_select_mode);
    assert!(!g.touch_is_pan_or_zoom);
}

#[test]
fn a_pinch_does_not_click() {
    let mut g = game();
    g.touch_start(held(220.0), held(600.0));
    g.touch_start_many();
    g.touch_end(double(9000.0), double(9000.0));
    assert!(!g.group_select_mode);
}

#[test]
fn a_finger_drags_a_box() {
    let mut g = game();
    g.units.push(unit(250.0, 250.0, 1));
    g.group_select_mode = true;
    g.touch_start(held(100.0), held(200.0));
    g.touch_move(held(300.0), held(500.0));
    assert_eq!(g.drag_current, Some((held(300.0), held(500.0))));
    assert_eq!(native(g.camera_x), 256.0);
    g.touch_end(double(9000.0), double(9000.0));
    assert!(g.units[0].selected);
}
