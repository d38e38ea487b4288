use std::collections::HashSet;
use temty::session::settle_after;
use temty::spiral::assign_next_position;
use temty::world::GlobalState;

#[test]
fn the_spiral_winds_outwards() {
    let expected = [
        (0, 0),
        (1, 0),
        (1, 1),
        (0, 1),
        (-1, 1),
        (-1, 0),
        (-1, -1),
        (0, -1),
        (1, -1),
        (2, -1),
        (2, 0),
        (2, 1),
        (2, 2),
    ];
    for (n, at) in expected.iter().enumerate() {
        assert_eq!(assign_next_position(n as i32), *at);
        assert_eq!(GlobalState::assign_next_position(n as i32), *at);
    }
}

#[test]
fn nobody_shares_a_chunk() {
    let mut seen = HashSet::new();
    for n in 0..961 {
        assert!(seen.insert(assign_next_position(n)));
    }
    for x in -15..=15 {
        for y in -15..=15 {
            assert!(seen.contains(&(x, y)), "{} {}", x, y);
        }
    }
}

#[test]
fn neighbours_touch() {
    for n in 0..2000 {
        let (x, y) = assign_next_position(n);
        let (u, v) = assign_next_position(n + 1);
        assert_eq!((x - u).abs() + (y - v).abs(), 1);
    }
}

#[test]
fn the_spiral_stays_near() {
    let (x, y) = assign_next_position(i32::MAX);
    assert!(x.abs() < 25000 && y.abs() < 25000);
}

#[test]
fn stored_players_settle_in_turn() {
    assert_eq!(settle_after(0), (1, 0));
    assert_eq!(settle_after(3), (-1, 1));
}
