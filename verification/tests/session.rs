use temty::chance::{building_id, new_building_id};
use temty::session::{
    has_town_center, new_stored_player, restore_units, stored_building, stored_unit, town_center,
};
use temty::single::Single;
use temty::world::{raise, GlobalState, PlayerInfo, UnitDTO};

fn held(x: f32) -> Single {
    Single::from_bits(x.to_bits())
}

fn looks_like_a_token(t: &str) -> bool {
    let c: Vec<char> = t.chars().collect();
    c.len() == 36
        && [8, 13, 18, 23].iter().all(|i| c[*i] == '-')
        && c[14] == '4'
        && "89ab".contains(c[19])
        && c.iter().enumerate().all(|(i, x)| {
            [8, 13, 18, 23].contains(&i) || x.is_ascii_digit() || ('a'..='f').contains(x)
        })
}

#[test]
fn a_newcomer_gets_a_token_and_a_chunk() {
    let mut g = GlobalState::new();
    let a = g.join(None);
    assert_eq!((a.player_id, a.chunk_x, a.chunk_y), (1, 1, 0));
    assert!(looks_like_a_token(&a.token), "{}", a.token);
    let b = g.join(Some("nobody knows this".to_string()));
    assert_eq!((b.player_id, b.chunk_x, b.chunk_y), (2, 1, 1));
    assert!(looks_like_a_token(&b.token));
    assert_ne!(a.token, b.token);
    assert_eq!(g.next_id, 3);
}

#[test]
fn a_token_brings_a_player_back() {
    let mut g = GlobalState::new();
    let a = g.join(None);
    g.join(None);
    let again = g.join(Some(a.token.clone()));
    assert_eq!((again.player_id, again.chunk_x, again.chunk_y), (1, 1, 0));
    assert_eq!(again.token, a.token);
    assert_eq!(g.next_id, 3);
}

#[test]
fn a_given_token_is_kept() {
    let mut g = GlobalState::new();
    let j = g.join_with(Some("old".to_string()), "new".to_string());
    assert_eq!((j.player_id, j.token.as_str()), (1, "new"));
    let j = g.join_with(Some("new".to_string()), "newer".to_string());
    assert_eq!((j.player_id, j.token.as_str()), (1, "new"));
    assert_eq!(g.known(&Some("old".to_string())), None);
    assert_eq!(g.known(&None), None);
}

#[test]
fn stored_players_get_tokens() {
    let (cx, cy, token) = new_stored_player(1);
    assert_eq!((cx, cy), (1, 1));
    assert!(looks_like_a_token(&token));
}

#[test]
fn entering_sets_a_player_up() {
    let mut g = GlobalState::new();
    g.enter_with(1, 1, 0, None, 42);
    assert_eq!(g.all_players(), vec![PlayerInfo { id: 1, chunk_x: 1, chunk_y: 0 }]);
    assert_eq!(g.buildings, vec![raise(42, 1, 0, 48, 16)]);
    let units = GlobalState::spawn_units(1, 0);
    assert_eq!(g.units.list[0].units, units);
    assert_eq!(g.cap(1), 5);
    let listed = g.all_units();
    assert_eq!(listed.len(), 2);
    assert_eq!(
        listed[1],
        UnitDTO {
            owner_id: 1,
            unit_idx: 1,
            x: units[1].x,
            y: units[1].y,
            kind: 0,
            hp: held(50.0)
        }
    );
    g.enter_with(1, 1, 0, None, 43);
    assert_eq!(g.buildings.len(), 1);
    assert_eq!(g.all_units().len(), 2);
}

#[test]
fn entering_numbers_the_town_center() {
    let mut g = GlobalState::new();
    let shown = g.come_in(1, 0, 0, None, None);
    assert_eq!(g.buildings.len(), 1);
    assert_eq!(shown, g.buildings);
    let id = g.buildings[0].id;
    assert_eq!(g.buildings[0], raise(id, 1, 0, 16, 16));
}

#[test]
fn stored_units_take_the_place_of_others() {
    let mut g = GlobalState::new();
    g.enter_with(1, 0, 0, None, 1);
    let rows = vec![(held(1.0), held(2.0)), (held(3.0), held(4.0)), (held(5.0), held(6.0))];
    g.enter_with(1, 0, 0, Some(restore_units(&rows, 0, 0)), 2);
    assert_eq!(g.units.count(1), 3);
    assert_eq!(g.units.list[0].units[2].x, held(5.0));
    assert_eq!(restore_units(&vec![], 4, 5), GlobalState::spawn_units(4, 5));
}

#[test]
fn stored_rows_are_read() {
    assert_eq!(
        stored_unit(3, 2, held(1.0), held(2.0)),
        UnitDTO { owner_id: 3, unit_idx: 2, x: held(1.0), y: held(2.0), kind: 0, hp: held(50.0) }
    );
    assert_eq!(stored_building(9, 3, 4, 1, 2), raise(9, 3, 4, 1, 2));
    assert_eq!(stored_building(9, 3, 257, 1, 2), raise(9, 3, 1, 1, 2));
}

#[test]
fn towns_are_looked_for() {
    let b = vec![raise(1, 1, 1, 0, 0), raise(2, 2, 0, 0, 0)];
    assert!(!has_town_center(&b, 1));
    assert!(has_town_center(&b, 2));
    assert_eq!(town_center(5, 1, -1, 2), raise(5, 1, 0, -16, 80));
}

#[test]
fn houses_make_room() {
    let mut g = GlobalState::new();
    let b = vec![raise(1, 1, 3, 0, 0), raise(2, 2, 3, 0, 1), raise(3, 1, 3, 0, 2)];
    g.buildings = b.clone();
    g.settle_pop_cap(1);
    assert_eq!(g.cap(1), 7);
    g.settle_pop_cap(2);
    assert_eq!(g.cap(2), 6);
    g.settle_pop_cap(3);
    assert_eq!(g.cap(3), 5);
    assert_eq!(g.buildings, b);
}

#[test]
fn the_store_is_shown_to_the_first_who_comes() {
    let stored = vec![
        raise(1, 1, 0, 48, 16),
        raise(2, 1, 3, 50, 16),
        raise(3, 1, 3, 51, 16),
        raise(4, 2, 0, 48, 48),
        raise(5, 2, 3, 50, 48),
    ];
    let mut g = GlobalState::new();
    let shown = g.come_in(1, 1, 0, None, Some(stored.clone()));
    assert_eq!(shown, stored);
    assert_eq!(g.buildings, stored);
    assert_eq!(g.cap(1), 7);
    let shown = g.come_in(2, 1, 1, None, Some(vec![]));
    assert_eq!(shown, stored);
    assert_eq!(g.cap(2), 6);
}

#[test]
fn a_town_center_is_added_to_the_store() {
    let stored = vec![raise(4, 2, 0, 48, 48), raise(5, 2, 3, 50, 48)];
    let mut g = GlobalState::new();
    let shown = g.come_in_with(1, 1, 0, None, Some(stored.clone()), 42);
    assert_eq!(shown, vec![stored[0], stored[1], raise(42, 1, 0, 48, 16)]);
    assert_eq!(g.buildings, shown);
    assert_eq!(g.cap(1), 5);
}

#[test]
fn the_world_is_shown_before_the_store() {
    let mut g = GlobalState::new();
    g.buildings.push(raise(2, 2, 0, 5, 5));
    let stored = vec![raise(1, 1, 0, 48, 16), raise(3, 1, 3, 0, 0)];
    let shown = g.come_in_with(1, 1, 0, None, Some(stored), 42);
    assert_eq!(shown, vec![raise(2, 2, 0, 5, 5), raise(42, 1, 0, 48, 16)]);
    assert_eq!(g.cap(1), 5);
}

#[test]
fn those_who_leave_keep_their_goods() {
    let mut g = GlobalState::new();
    let a = g.join(None);
    g.come_in(a.player_id, a.chunk_x, a.chunk_y, None, None);
    g.build(a.player_id, 3, 0, 0);
    g.leave(a.player_id);
    assert!(g.all_players().is_empty());
    assert!(g.all_units().is_empty());
    assert_eq!(g.purse(a.player_id).wood, held(125.0));
    assert_eq!(g.cap(a.player_id), 6);
    assert_eq!(g.buildings.len(), 1);
    let b = g.join(Some(a.token));
    g.come_in(b.player_id, b.chunk_x, b.chunk_y, None, None);
    assert_eq!(b.player_id, a.player_id);
    assert_eq!(g.purse(a.player_id).wood, held(125.0));
    assert_eq!(g.buildings.len(), 1);
    assert_eq!(g.units.count(a.player_id), 2);
}

#[test]
fn building_numbers_have_no_sign() {
    assert_eq!(building_id(-5), 5);
    assert_eq!(building_id(5), 5);
    assert_eq!(building_id(0), 0);
    assert_eq!(building_id(i32::MIN), i32::MIN);
    let first = new_building_id();
    let mut differs = false;
    for _ in 0..20 {
        let id = new_building_id();
        assert!(id >= 0 || id == i32::MIN);
        differs = differs || id != first;
    }
    assert!(differs);
}
