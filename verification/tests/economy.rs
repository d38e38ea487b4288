use temty::economy::{
    cost_for_kind, cost_of_warrior, cost_of_worker, default_pop_cap, default_resources,
    gather_into, hp_for_kind, Resources,
};
use temty::single::Single;

fn held(x: f32) -> Single {
    Single::from_bits(x.to_bits())
}

fn goods(wood: f32, stone: f32, gold: f32, food: f32) -> Resources {
    Resources::new(held(wood), held(stone), held(gold), held(food))
}

#[test]
fn buildings_have_their_prices() {
    assert_eq!(cost_for_kind(0), goods(0.0, 0.0, 0.0, 0.0));
    assert_eq!(cost_for_kind(1), goods(1.0, 0.0, 0.0, 0.0));
    assert_eq!(cost_for_kind(2), goods(30.0, 0.0, 0.0, 0.0));
    assert_eq!(cost_for_kind(3), goods(25.0, 0.0, 0.0, 0.0));
    assert_eq!(cost_for_kind(4), goods(0.0, 40.0, 0.0, 0.0));
    assert_eq!(cost_for_kind(5), goods(60.0, 0.0, 0.0, 0.0));
    assert_eq!(cost_for_kind(6), goods(0.0, 0.0, 0.0, 0.0));
    assert_eq!(cost_for_kind(255), goods(0.0, 0.0, 0.0, 0.0));
}

#[test]
fn units_have_their_prices() {
    assert_eq!(cost_of_worker(), goods(0.0, 0.0, 0.0, 50.0));
    assert_eq!(cost_of_warrior(), goods(0.0, 0.0, 20.0, 40.0));
}

#[test]
fn buildings_endure() {
    let expected = [800.0f32, 200.0, 220.0, 220.0, 300.0, 260.0, 200.0, 200.0];
    for (kind, hp) in expected.iter().enumerate() {
        assert_eq!(hp_for_kind(kind as u8), held(*hp));
    }
}

#[test]
fn a_new_player_has_something() {
    assert_eq!(default_resources(), goods(150.0, 60.0, 60.0, 100.0));
    assert_eq!(default_pop_cap(), 5);
}

#[test]
fn what_can_be_paid_is_paid() {
    let mut r = default_resources();
    assert!(r.has(&cost_of_warrior()));
    assert!(r.spend(&cost_of_warrior()));
    assert_eq!(r, goods(150.0, 60.0, 40.0, 60.0));
    assert!(r.spend(&cost_of_warrior()));
    assert_eq!(r, goods(150.0, 60.0, 20.0, 20.0));
}

#[test]
fn what_cannot_be_paid_costs_nothing() {
    let mut r = goods(150.0, 60.0, 60.0, 39.999);
    assert!(!r.has(&cost_of_warrior()));
    assert!(!r.spend(&cost_of_warrior()));
    assert_eq!(r, goods(150.0, 60.0, 60.0, 39.999));
}

#[test]
fn the_last_coin_can_be_spent() {
    let mut r = goods(1.0, 0.0, 0.0, 0.0);
    assert!(r.spend(&cost_for_kind(1)));
    assert_eq!(r, goods(0.0, 0.0, 0.0, 0.0));
    assert!(!r.spend(&cost_for_kind(1)));
}

#[test]
fn gathering_goes_by_kind() {
    let r = default_resources();
    let wood = gather_into(r, 2);
    assert_eq!(wood, goods(150.0 + (8.0f32 / 60.0) * 0.2, 60.0, 60.0, 100.0));
    let stone = gather_into(r, 3);
    assert_eq!(stone, goods(150.0, 60.0 + (6.0f32 / 60.0) * 0.2, 60.0, 100.0));
    let gold = gather_into(r, 4);
    assert_eq!(gold, goods(150.0, 60.0, 60.0 + (6.0f32 / 60.0) * 0.2, 100.0));
    for kind in [0u8, 1, 5, 77] {
        let food = gather_into(r, kind);
        assert_eq!(food, goods(150.0, 60.0, 60.0, 100.0 + (10.0f32 / 60.0) * 0.2));
    }
}

#[test]
fn gathering_for_a_minute_brings_what_it_should() {
    let mut r = goods(0.0, 0.0, 0.0, 0.0);
    let mut wood = 0.0f32;
    for _ in 0..300 {
        let next = gather_into(r, 2);
        assert!(r.wood.le(next.wood));
        r = next;
        wood += (8.0f32 / 60.0) * 0.2;
    }
    assert_eq!(r.wood, held(wood));
    assert!((wood - 8.0).abs() < 0.001);
}
