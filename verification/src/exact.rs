//! Whole numbers of up to 24 bits are exact, and so are their sums, differences and products as
//! long as these are.
use crate::rounding;
use crate::rounding::{HIDDEN, INFINITE, LIMIT};
use crate::single;
use crate::single::Single;
use vstd::arithmetic::div_mod::*;
use vstd::arithmetic::power2::*;
use vstd::prelude::*;

verus! {

/// Whether a whole number has no more than 24 bits.
pub open spec fn small(i: int) -> bool {
    -LIMIT < i < LIMIT
}

/// The pattern of a magnitude with a full significand.
proof fn lemma_full_pattern(m: nat, s: nat)
    requires
        HIDDEN <= m < LIMIT,
        s <= 253,
    ensures
        rounding::round(m * pow2(s), 1) == s * HIDDEN + m,
        rounding::units((s * HIDDEN + m) as int) == m * pow2(s),
        s * HIDDEN + m < INFINITE,
{
    let v = m * pow2(s);
    lemma_pow2_pos(s);
    lemma2_to64();
    if s > 0 {
        lemma_pow2_unfold(s);
        let half = pow2((s - 1) as nat);
        assert(v >= LIMIT * (1 * half)) by (nonlinear_arith)
            requires
                v == m * pow2(s),
                pow2(s) == 2 * half,
                m >= 0x80_0000,
                half >= 0,
        ;
    }
    rounding::lemma_round_unrolled(v, 1, s);
    let d = 1 * pow2(s);
    assert(v < LIMIT * d) by (nonlinear_arith)
        requires
            v == m * pow2(s),
            d == pow2(s),
            m < 0x100_0000,
            pow2(s) > 0,
    ;
    lemma_fundamental_div_mod_converse(v as int, d as int, m as int, 0);
    let p = (s * HIDDEN + m) as int;
    assert(p == (s + 1) * HIDDEN + (m - HIDDEN));
    lemma_fundamental_div_mod_converse(p, HIDDEN as int, (s + 1) as int, m - HIDDEN);
}

/// A magnitude of up to 24 bits times a power of two is its own rounding.
pub proof fn lemma_exact(m: nat, s: nat)
    requires
        m < LIMIT,
        s <= 253,
    ensures
        rounding::round(m * pow2(s), 1) < INFINITE,
        rounding::units(rounding::round(m * pow2(s), 1) as int) == m * pow2(s),
    decreases s,
{
    lemma2_to64();
    if m >= HIDDEN {
        lemma_full_pattern(m, s);
    } else if s == 0 {
        let v = m * pow2(s);
        assert(v == m);
        lemma_fundamental_div_mod_converse(v as int, 1, m as int, 0);
    } else {
        lemma_pow2_unfold(s);
        let half = pow2((s - 1) as nat);
        assert((2 * m) * half == m * pow2(s)) by (nonlinear_arith)
            requires
                pow2(s) == 2 * half,
        ;
        lemma_exact(2 * m, (s - 1) as nat);
    }
}

/// A small whole number is exact.
pub proof fn small_numbers_are_exact(i: int)
    requires
        small(i),
    ensures
        Single::of_int(i).finite(),
        Single::of_int(i).value() == i * pow2(single::places()),
        Single::of_int(i).negative() == (i < 0),
{
    reveal(Single::of_int);
    let a = if i < 0 {
        -i
    } else {
        i
    };
    let p = pow2(single::places());
    lemma_pow2_pos(single::places());
    lemma_exact(a as nat, single::places());
    assert((-i) * p == -(i * p)) by (nonlinear_arith);
    let m = rounding::round(a as nat * p, 1);
    let x = Single::of_int(i);
    assert(a as nat * p == a * p);
    assert(x == Single::signed(i < 0, m));
    assert(x.mag() == m);
}

/// Small whole numbers add up exactly.
pub proof fn small_sums_are_exact(a: int, b: int)
    requires
        small(a),
        small(b),
        small(a + b),
    ensures
        Single::of_int(a).sum(Single::of_int(b)) == Single::of_int(a + b),
{
    reveal(Single::sum);
    reveal(Single::of_int);
    small_numbers_are_exact(a);
    small_numbers_are_exact(b);
    let p = pow2(single::places());
    lemma_pow2_pos(single::places());
    assert(a * p + b * p == (a + b) * p) by (nonlinear_arith);
    assert(-((a + b) * p) == (-(a + b)) * p) by (nonlinear_arith);
    let c = a + b;
    assert(c < 0 ==> c * p < 0) by (nonlinear_arith)
        requires
            p > 0,
    ;
    assert(c > 0 ==> c * p > 0) by (nonlinear_arith)
        requires
            p > 0,
    ;
    if c == 0 {
        assert(c * p == 0) by (nonlinear_arith)
            requires
                c == 0,
        ;
        lemma_exact(0, single::places());
        assert(0 * p == 0);
        lemma_fundamental_div_mod_converse(0, 1, 0, 0);
    }
}

/// The opposite of a small whole number is exact.
proof fn lemma_opposite(a: int)
    requires
        small(a),
        a != 0,
    ensures
        Single::of_int(a).opposite() == Single::of_int(-a),
{
    reveal(Single::of_int);
    small_numbers_are_exact(a);
    let p = pow2(single::places());
    lemma_exact(
        (if a < 0 {
            -a
        } else {
            a
        }) as nat,
        single::places(),
    );
    assert((-(-a)) * p == a * p);
}

/// Small whole numbers are taken from one another exactly.
pub proof fn small_differences_are_exact(a: int, b: int)
    requires
        small(a),
        small(b),
        small(a - b),
    ensures
        Single::of_int(a).difference(Single::of_int(b)) == Single::of_int(a - b),
{
    if b != 0 {
        lemma_opposite(b);
        small_sums_are_exact(a, -b);
    } else {
        reveal(Single::sum);
        small_numbers_are_exact(0);
        small_sums_are_exact(a, 0);
    }
}

/// Small whole numbers multiply exactly; nothing times a negative number is left out, for it
/// keeps the sign.
pub proof fn small_products_are_exact(a: int, b: int)
    requires
        small(a),
        small(b),
        small(a * b),
        a * b != 0 || (a >= 0 && b >= 0),
    ensures
        Single::of_int(a).product(Single::of_int(b)) == Single::of_int(a * b),
{
    reveal(Single::product);
    reveal(Single::of_int);
    small_numbers_are_exact(a);
    small_numbers_are_exact(b);
    let p = pow2(single::places());
    lemma_pow2_pos(single::places());
    let x = if a < 0 {
        -a
    } else {
        a
    };
    let y = if b < 0 {
        -b
    } else {
        b
    };
    let z = if a * b < 0 {
        -(a * b)
    } else {
        a * b
    };
    assert(x * y == z) by (nonlinear_arith)
        requires
            x == (if a < 0 {
                -a
            } else {
                a
            }),
            y == (if b < 0 {
                -b
            } else {
                b
            }),
            z == (if a * b < 0 {
                -(a * b)
            } else {
                a * b
            }),
    ;
    assert((a < 0) != (b < 0) && a * b != 0 ==> a * b < 0) by (nonlinear_arith);
    assert((a < 0) == (b < 0) ==> a * b >= 0) by (nonlinear_arith);
    assert((-a) * p == -(a * p)) by (nonlinear_arith);
    assert((-b) * p == -(b * p)) by (nonlinear_arith);
    let n1 = (x as nat * p) * (y as nat * p);
    let n2 = z as nat * p;
    assert(n1 * 1 == n2 * p) by (nonlinear_arith)
        requires
            n1 == (x as nat * p) * (y as nat * p),
            n2 == z as nat * p,
            x * y == z,
            x >= 0,
            y >= 0,
            z >= 0,
    ;
    rounding::lemma_round_same_ratio(n1, p, n2, 1);
    assert(Single::of_int(a).size() == x as nat * p);
    assert(Single::of_int(b).size() == y as nat * p);
    assert((-(a * b)) * p == -((a * b) * p)) by (nonlinear_arith);
}

/// The pattern of a positive whole number that has a full significand after `k` doublings.
pub proof fn lemma_small_pattern(i: nat, k: nat, s: nat)
    requires
        HIDDEN <= i * pow2(k) < LIMIT,
        k + s == single::places(),
    ensures
        Single::of_int(i as int).bits == s * HIDDEN + i * pow2(k),
{
    reveal(Single::of_int);
    lemma_pow2_adds(k, s);
    assert((i * pow2(k)) * pow2(s) == i * (pow2(k) * pow2(s))) by (nonlinear_arith);
    lemma_full_pattern(i * pow2(k), s);
}

/// The pattern of a power of two.
pub proof fn lemma_power(j: nat)
    requires
        j < 24,
    ensures
        Single::of_int(pow2(j) as int).bits == (j + 127) * HIDDEN,
        small(pow2(j) as int),
{
    reveal(Single::of_int);
    lemma2_to64();
    lemma_pow2_pos(j);
    lemma_pow2_strictly_increases(j, 24);
    lemma_pow2_adds(j, single::places());
    lemma_pow2_adds(23, j + 126);
    lemma_full_pattern(HIDDEN as nat, j + 126);
}

/// Dividing a small whole number by a power of two and rounding down is exact.
pub proof fn small_quotients_are_exact(a: int, j: nat)
    requires
        small(a),
        0 < j < 24,
    ensures
        Single::of_int(a).quotient(Single::of_int(pow2(j) as int)).floor_int() == a / (pow2(
            j,
        ) as int),
{
    reveal(Single::quotient);
    reveal(Single::floor_int);
    small_numbers_are_exact(a);
    lemma_power(j);
    small_numbers_are_exact(pow2(j) as int);
    let p = pow2(single::places());
    let d = pow2(j);
    let k = (single::places() - j) as nat;
    let e = pow2(k);
    lemma2_to64();
    lemma_pow2_pos(single::places());
    lemma_pow2_pos(j);
    lemma_pow2_pos(k);
    lemma_pow2_adds(j, k);
    let x = if a < 0 {
        -a
    } else {
        a
    };
    lemma_exact(x as nat, k);
    let top = Single::of_int(a);
    let bottom = Single::of_int(d as int);
    assert((-a) * p == -(a * p)) by (nonlinear_arith);
    assert(top.size() == x as nat * p);
    assert(bottom.size() == d * p);
    assert(d * p > 0) by (nonlinear_arith)
        requires
            d > 0,
            p > 0,
    ;
    let n1 = (x as nat * p) * p;
    let d1 = d * p;
    let n2 = x as nat * e;
    assert(n1 * 1 == n2 * d1) by (nonlinear_arith)
        requires
            n1 == (x as nat * p) * p,
            d1 == d * p,
            n2 == x as nat * e,
            p == d * e,
    ;
    rounding::lemma_round_same_ratio(n1, d1, n2, 1);
    let q = top.quotient(bottom);
    let m = rounding::round(n2, 1);
    assert(bottom.mag() != 0) by {
        if bottom.mag() == 0 {
            assert(bottom.size() == 0);
        }
    }
    assert(q == Single::signed(a < 0, m));
    assert(q.mag() == m);
    assert(q.size() == n2);
    assert((-a) * e == -(a * e)) by (nonlinear_arith);
    assert(q.value() == a * e);
    // a * e / (d * e) is a / d.
    let f = a / (d as int);
    let r = a % (d as int);
    lemma_fundamental_div_mod(a, d as int);
    lemma_mod_bound(a, d as int);
    assert(a * e == (p as int) * f + r * e) by (nonlinear_arith)
        requires
            a == d * f + r,
            p == d * e,
    ;
    assert(0 <= r * e < p) by (nonlinear_arith)
        requires
            0 <= r < d,
            p == d * e,
            e > 0,
    ;
    assert(f * p == (p as int) * f) by (nonlinear_arith);
    lemma_fundamental_div_mod_converse(a * e, p as int, f, r * e);
    assert(-LIMIT < f < LIMIT) by (nonlinear_arith)
        requires
            a == d * f + r,
            0 <= r < d,
            d >= 2,
            -0x100_0000 < a < 0x100_0000,
    ;
}

proof fn lemma_nearest_grows(a: nat, b: nat, d: nat)
    requires
        a <= b,
        d > 0,
    ensures
        rounding::nearest(a, d) <= rounding::nearest(b, d),
{
    let q = a / d;
    let r = b / d;
    lemma_fundamental_div_mod(a as int, d as int);
    lemma_fundamental_div_mod(b as int, d as int);
    lemma_mod_bound(a as int, d as int);
    lemma_mod_bound(b as int, d as int);
    if q > r {
        assert(d * q >= d * r + d) by (nonlinear_arith)
            requires
                q >= r + 1,
                d > 0,
        ;
    } else if q == r {
        assert(d * q == d * r);
    }
}

proof fn lemma_nearest_between(a: nat, d: nat, lo: nat, hi: nat)
    requires
        d > 0,
        lo * d <= a < hi * d,
    ensures
        lo <= rounding::nearest(a, d) <= hi,
{
    let q = a / d;
    lemma_fundamental_div_mod(a as int, d as int);
    lemma_mod_bound(a as int, d as int);
    assert(lo <= q < hi) by (nonlinear_arith)
        requires
            a == d * q + a % d,
            0 <= a % d < d,
            lo * d <= a < hi * d,
    ;
}

proof fn lemma_round_at_least(a: nat, d: nat)
    requires
        d > 0,
        a >= HIDDEN * d,
    ensures
        rounding::round_unbounded(a, d) >= HIDDEN,
{
    if a < LIMIT * d {
        lemma_nearest_between(a, d, HIDDEN as nat, LIMIT as nat);
    }
}

proof fn lemma_round_grows(a: nat, b: nat, d: nat)
    requires
        a <= b,
        d > 0,
    ensures
        rounding::round_unbounded(a, d) <= rounding::round_unbounded(b, d),
    decreases b - d,
{
    if b < LIMIT * d {
        lemma_nearest_grows(a, b, d);
    } else if a >= LIMIT * d {
        assert(d < b) by (nonlinear_arith)
            requires
                b >= 0x100_0000 * d,
                d > 0,
        ;
        lemma_round_grows(a, b, 2 * d);
    } else {
        lemma_nearest_between(a, d, 0, LIMIT as nat);
        lemma_round_at_least(b, 2 * d);
    }
}

/// Every finite number is its own rounding.
pub proof fn numbers_round_to_themselves(x: Single)
    requires
        x.finite(),
    ensures
        rounding::round(x.size(), 1) == x.mag(),
{
    let m = x.mag();
    let h = HIDDEN as int;
    lemma2_to64();
    if m < h {
        lemma_exact(m as nat, 0);
        assert(m as nat * pow2(0) == m);
        lemma_fundamental_div_mod_converse(m, 1, m, 0);
    } else {
        let f = h + m % h;
        let e = (m / h - 1) as nat;
        lemma_fundamental_div_mod(m, h);
        lemma_mod_bound(m, h);
        lemma_full_pattern(f as nat, e);
    }
}

/// Adding what is not negative does not make a number smaller.
pub proof fn sums_do_not_shrink(a: Single, b: Single)
    requires
        !a.nan(),
        !b.nan(),
        !a.negative(),
        !b.negative(),
    ensures
        a.at_most(a.sum(b)),
{
    reveal(Single::sum);
    if a.finite() && b.finite() {
        numbers_round_to_themselves(a);
        lemma_round_grows(a.size(), a.size() + b.size(), 1);
        let v = a.value() + b.value();
        if v > 0 {
            let r = rounding::round(v as nat, 1);
            assert(r <= INFINITE);
            assert(a.sum(b) == Single::signed(false, r));
            assert(a.sum(b).mag() == r);
        }
    }
}

/// To take nothing away changes nothing, and neither does adding nothing.
pub proof fn nothing_makes_no_difference(x: Single)
    requires
        !x.nan(),
    ensures
        x.difference(Single { bits: 0 }) == x,
        x.mag() != 0 || !x.negative() ==> x.sum(Single { bits: 0 }) == x,
        x.mag() != 0 || !x.negative() ==> (Single { bits: 0 }).sum(x) == x,
{
    reveal(Single::sum);
    let zero = Single { bits: 0 };
    lemma2_to64();
    if x.finite() {
        numbers_round_to_themselves(x);
        if x.mag() > 0 {
            rounding::units_grow(0, x.mag());
        }
        assert(zero.value() == 0 && zero.opposite().value() == 0);
        assert(x == Single::signed(x.negative(), x.mag() as nat));
    }
}

/// To multiply or divide by one changes nothing.
pub proof fn one_makes_no_difference(x: Single)
    requires
        !x.nan(),
    ensures
        x.product(Single::of_int(1)) == x,
        x.quotient(Single::of_int(1)) == x,
{
    reveal(Single::product);
    reveal(Single::quotient);
    let one = Single::of_int(1);
    let p = pow2(single::places());
    small_numbers_are_exact(1);
    lemma_pow2_pos(single::places());
    assert(1 * p == p);
    assert(one.value() == p && one.size() == p && !one.negative());
    if one.mag() == 0 {
        assert(one.size() == 0);
    }
    assert(x == Single::signed(x.negative(), x.mag() as nat));
    if x.finite() {
        numbers_round_to_themselves(x);
        assert(1 * p == p);
        assert(x.size() * 1 == x.size());
        rounding::lemma_round_scaled(x.size(), 1, p);
    }
}

/// Sums do not depend on the order.
pub proof fn sums_commute(a: Single, b: Single)
    ensures
        a.sum(b) == b.sum(a),
{
    reveal(Single::sum);
    if a.infinite() && b.infinite() && a.negative() == b.negative() {
        assert(a == Single::signed(a.negative(), a.mag() as nat));
        assert(b == Single::signed(b.negative(), b.mag() as nat));
    }
}

/// Products do not depend on the order.
pub proof fn products_commute(a: Single, b: Single)
    ensures
        a.product(b) == b.product(a),
{
    reveal(Single::product);
    assert(a.size() * b.size() == b.size() * a.size()) by (nonlinear_arith);
}

} // verus!
