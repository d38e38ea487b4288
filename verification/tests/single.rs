use temty::single::Single;

fn next(state: &mut u64) -> u32 {
    *state = state.wrapping_mul(6364136223846793005).wrapping_add(1442695040888963407);
    (*state >> 32) as u32
}

fn native(s: Single) -> f32 {
    f32::from_bits(s.to_bits())
}

fn held(x: f32) -> Single {
    Single::from_bits(x.to_bits())
}

fn same(a: Single, b: f32) -> bool {
    if b.is_nan() {
        native(a).is_nan()
    } else {
        a.to_bits() == b.to_bits()
    }
}

/// Patterns that lie near each other often, so that sums cancel and quotients are close to one.
fn pattern(state: &mut u64) -> u32 {
    let raw = next(state);
    match next(state) % 6 {
        0 => raw,
        1 => 0x3f80_0000 ^ (raw & 0x80ff_ffff),
        2 => raw & 0x80ff_ffff,
        3 => 0x7f00_0000 | (raw & 0x80ff_ffff),
        4 => ((raw % 2000) as f32 / 16.0).to_bits(),
        _ => (raw as i32 as f32 / 1024.0).to_bits(),
    }
}

#[test]
fn arithmetic_agrees_with_the_machine() {
    let mut state = 7;
    for _ in 0..200_000 {
        let a = Single::from_bits(pattern(&mut state));
        let b = Single::from_bits(pattern(&mut state));
        let (x, y) = (native(a), native(b));
        assert!(same(a.plus(b), x + y), "{:?} + {:?}", x, y);
        assert!(same(a.minus(b), x - y), "{:?} - {:?}", x, y);
        assert!(same(a.times(b), x * y), "{:?} * {:?}", x, y);
        assert!(same(a.over(b), x / y), "{:?} / {:?}", x, y);
        assert!(same(a.sqrt(), x.sqrt()), "sqrt {:?}", x);
        assert_eq!(a.lt(b), x < y);
        assert_eq!(a.le(b), x <= y);
        assert_eq!(a.floor_i32(), x.floor() as i32);
        assert_eq!(a.ceil_i32(), x.ceil() as i32);
        assert_eq!(a.to_i32(), x as i32);
        let i = next(&mut state) as i32;
        assert!(same(Single::from_i32(i), i as f32));
        if !(x == 0.0 && y == 0.0) {
            assert!(same(a.min(b), x.min(y)));
            assert!(same(a.max(b), x.max(y)));
        }
        assert!(x.is_nan() || same(a.abs(), x.abs()));
        assert!(x.is_nan() || same(a.negate(), -x));
    }
}

#[test]
fn rounding_goes_to_the_even_neighbour() {
    let one = held(1.0);
    let half_step = held(f32::EPSILON / 2.0);
    assert_eq!(one.plus(half_step).to_bits(), 0x3f80_0000);
    let next_up = Single::from_bits(0x3f80_0001);
    assert_eq!(next_up.plus(half_step).to_bits(), 0x3f80_0002);
}

#[test]
fn results_that_are_no_number() {
    let zero = held(0.0);
    let infinite = held(f32::INFINITY);
    assert_eq!(zero.over(zero).to_bits(), 0x7fc0_0000);
    assert_eq!(infinite.minus(infinite).to_bits(), 0x7fc0_0000);
    assert_eq!(held(-1.0).sqrt().to_bits(), 0x7fc0_0000);
    assert_eq!(held(1.0).over(zero).to_bits(), 0x7f80_0000);
    assert_eq!(held(f32::MAX).plus(held(f32::MAX)).to_bits(), 0x7f80_0000);
}
