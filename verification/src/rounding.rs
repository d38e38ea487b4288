//! Rounding of exact rational numbers to the grid of single-precision magnitudes.
//!
//! A magnitude is held by the 31 low bits of its pattern. Every finite magnitude is a whole number
//! of *units*, a unit being the smallest positive magnitude, two to the power of minus 149. Up to
//! two to the 24 units the pattern is the number of units; from there on each doubling of the
//! value adds `HIDDEN` to the pattern. Rounding is to the nearest magnitude, and to the one with
//! the even pattern when two are equally near.
use vstd::arithmetic::div_mod::*;
use vstd::arithmetic::mul::*;
use vstd::arithmetic::power2::*;
use vstd::prelude::*;

verus! {

/// Two to the 23: the weight of the leading bit of a normal significand.
pub const HIDDEN: u32 = 0x80_0000;

/// Two to the 24: the first significand that does not fit.
pub const LIMIT: u32 = 0x100_0000;

/// The pattern of the infinite magnitude.
pub const INFINITE: u32 = 0x7f80_0000;

/// The exponent by which core computations are scaled, so that none of their powers is negative.
pub open spec fn scale() -> nat {
    1024
}

/// The number of units in the finite magnitude `m`.
pub open spec fn units(m: int) -> nat
    recommends
        0 <= m < INFINITE,
{
    if m < HIDDEN {
        m as nat
    } else {
        ((HIDDEN + m % (HIDDEN as int)) * pow2((m / (HIDDEN as int) - 1) as nat)) as nat
    }
}

/// The whole number nearest to `num / den`, the even one if two are equally near.
pub open spec fn nearest(num: nat, den: nat) -> nat {
    let q = num / den;
    let r = num % den;
    if 2 * r > den || (2 * r == den && q % 2 == 1) {
        q + 1
    } else {
        q
    }
}

/// The pattern of the magnitude nearest to `num / den` units, were there no largest one.
pub open spec fn round_unbounded(num: nat, den: nat) -> nat
    decreases num - den,
{
    if den > 0 && num >= LIMIT * den {
        HIDDEN as nat + round_unbounded(num, 2 * den)
    } else {
        nearest(num, den)
    }
}

/// The pattern of the magnitude nearest to `num / den` units; too large a number is infinite.
pub open spec fn round(num: nat, den: nat) -> nat {
    let m = round_unbounded(num, den);
    if m < INFINITE {
        m
    } else {
        INFINITE as nat
    }
}

/// A common factor makes no difference to where a fraction is rounded.
pub proof fn lemma_nearest_scaled(num: nat, den: nat, c: nat)
    requires
        den > 0,
        c > 0,
    ensures
        nearest(num * c, den * c) == nearest(num, den),
{
    let q = num / den;
    let r = num % den;
    assert(num == q * den + r && 0 <= r < den) by {
        lemma_fundamental_div_mod(num as int, den as int);
        lemma_mul_is_commutative(q as int, den as int);
        lemma_mod_bound(num as int, den as int);
    }
    assert(num * c == q * (den * c) + r * c && 0 <= r * c < den * c) by (nonlinear_arith)
        requires
            num == q * den + r,
            0 <= r < den,
            c > 0,
    ;
    lemma_fundamental_div_mod_converse((num * c) as int, (den * c) as int, q as int, (r * c) as int);
    assert((2 * (r * c) > den * c) == (2 * r > den)) by (nonlinear_arith)
        requires
            c > 0,
    ;
    assert((2 * (r * c) == den * c) == (2 * r == den)) by (nonlinear_arith)
        requires
            c > 0,
    ;
}

/// Rounding depends on the ratio alone.
pub proof fn lemma_round_scaled(num: nat, den: nat, c: nat)
    requires
        den > 0,
        c > 0,
    ensures
        round_unbounded(num * c, den * c) == round_unbounded(num, den),
        round(num * c, den * c) == round(num, den),
    decreases num - den,
{
    assert(den * c > 0) by (nonlinear_arith)
        requires
            den > 0,
            c > 0,
    ;
    assert((num * c >= LIMIT * (den * c)) == (num >= LIMIT * den)) by (nonlinear_arith)
        requires
            c > 0,
    ;
    if num >= LIMIT * den {
        lemma_round_scaled(num, 2 * den, c);
        assert((2 * den) * c == 2 * (den * c)) by (nonlinear_arith);
    } else {
        lemma_nearest_scaled(num, den, c);
    }
}

/// Two equal ratios round to the same magnitude.
pub proof fn lemma_round_same_ratio(n1: nat, d1: nat, n2: nat, d2: nat)
    requires
        d1 > 0,
        d2 > 0,
        n1 * d2 == n2 * d1,
    ensures
        round(n1, d1) == round(n2, d2),
        round_unbounded(n1, d1) == round_unbounded(n2, d2),
{
    lemma_round_scaled(n1, d1, d2);
    lemma_round_scaled(n2, d2, d1);
    assert(d1 * d2 == d2 * d1) by (nonlinear_arith);
}

/// A number of at least half the limit, after `s` halvings, has `s` steps of `HIDDEN` in its pattern.
pub proof fn lemma_round_unrolled(num: nat, den: nat, s: nat)
    requires
        den > 0,
        s > 0 ==> num >= LIMIT * (den * pow2((s - 1) as nat)),
    ensures
        round_unbounded(num, den) == s * HIDDEN + round_unbounded(num, den * pow2(s)),
    decreases s,
{
    lemma2_to64();
    if s > 0 {
        let t = (s - 1) as nat;
        lemma_pow2_unfold(s);
        lemma_pow2_pos(t);
        assert(num >= LIMIT * den) by (nonlinear_arith)
            requires
                num >= LIMIT * (den * pow2(t)),
                pow2(t) >= 1,
        ;
        if t > 0 {
            lemma_pow2_unfold(t);
            assert((2 * den) * pow2((t - 1) as nat) == den * pow2(t)) by (nonlinear_arith)
                requires
                    pow2(t) == 2 * pow2((t - 1) as nat),
            ;
        }
        lemma_round_unrolled(num, 2 * den, t);
        assert((2 * den) * pow2(t) == den * pow2(s)) by (nonlinear_arith)
            requires
                pow2(s) == 2 * pow2(t),
        ;
    } else {
        assert(den * pow2(0) == den) by (nonlinear_arith)
            requires
                pow2(0) == 1,
        ;
    }
}

/// The ratio that `round_ratio` rounds, `n / d` times two to the `k`, with both sides scaled up.
pub open spec fn scaled_round(n: nat, d: nat, k: int) -> nat {
    round(n * pow2((k + scale()) as nat), d * pow2(scale()))
}

proof fn lemma_shifted(n: nat, k: nat, j: nat)
    ensures
        n * pow2(k + j) == (n * pow2(k)) * pow2(j),
{
    lemma_pow2_adds(k, j);
    assert(n * (pow2(k) * pow2(j)) == (n * pow2(k)) * pow2(j)) by (nonlinear_arith);
}

/// The rounded pattern of `n / d` times two to the `k` units, from the numerator and denominator
/// at which the quotient has 24 bits.
proof fn lemma_round_ratio(n: nat, d: nat, k: int, t: int, num: nat, den: nat)
    requires
        d > 0,
        -900 < k < 900,
        -48 < t < 2000,
        num == n * pow2(48),
        den == d * pow2((t + 48) as nat),
        num < LIMIT * den,
        t + k >= 0,
        t + k > 0 ==> 2 * num >= LIMIT * den,
    ensures
        scaled_round(n, d, k) == (if (t + k) * HIDDEN + nearest(num, den) < INFINITE {
            ((t + k) * HIDDEN + nearest(num, den)) as nat
        } else {
            INFINITE as nat
        }),
{
    let s = (t + k) as nat;
    let big_n = n * pow2((k + scale()) as nat);
    let big_d = d * pow2(scale());
    let j = (k + scale() - 48) as nat;
    let c = pow2(j);
    lemma_pow2_pos(j);
    lemma_pow2_pos(scale());
    assert(big_d > 0) by (nonlinear_arith)
        requires
            d > 0,
            pow2(scale()) > 0,
            big_d == d * pow2(scale()),
    ;
    lemma_shifted(n, 48, j);
    assert(big_n == num * c);
    lemma_shifted(d, scale(), s);
    lemma_shifted(d, (t + 48) as nat, j);
    assert(scale() + s == (t + 48) as nat + j);
    assert(big_d * pow2(s) == den * c);
    if s > 0 {
        lemma_pow2_unfold(s);
        let half = pow2((s - 1) as nat);
        assert(2 * (num * c) >= LIMIT * (den * c)) by (nonlinear_arith)
            requires
                2 * num >= LIMIT * den,
                c > 0,
        ;
        assert(big_d * pow2(s) == 2 * (big_d * half)) by (nonlinear_arith)
            requires
                pow2(s) == 2 * half,
        ;
        assert(2 * big_n >= LIMIT * (2 * (big_d * half)));
        assert(big_n >= LIMIT * (big_d * half));
    }
    lemma_round_unrolled(big_n, big_d, s);
    assert(num * c < LIMIT * (den * c)) by (nonlinear_arith)
        requires
            num < LIMIT * den,
            c > 0,
    ;
    lemma_pow2_pos((t + 48) as nat);
    assert(den > 0) by (nonlinear_arith)
        requires
            d > 0,
            pow2((t + 48) as nat) > 0,
            den == d * pow2((t + 48) as nat),
    ;
    lemma_nearest_scaled(num, den, c);
}

/// A ratio below half a unit rounds to nothing.
proof fn lemma_round_ratio_tiny(n: nat, d: nat, k: int, t: int, num: nat, den: nat)
    requires
        d > 0,
        -900 < k < 900,
        -48 < t < 900,
        num == n * pow2(48),
        den == d * pow2((t + 48) as nat),
        den > 2 * num,
        t + k < 0,
    ensures
        scaled_round(n, d, k) == 0,
{
    let big_n = n * pow2((k + scale()) as nat);
    let big_d = d * pow2(scale());
    let j = (k + scale() - 48) as nat;
    let i = (scale() - 48 - t) as nat;
    lemma_shifted(n, 48, j);
    lemma_shifted(d, (t + 48) as nat, i);
    lemma_pow2_pos(j);
    lemma_pow2_strictly_increases(j, i);
    assert(big_n == num * pow2(j));
    assert(big_d == den * pow2(i));
    assert(big_d > 2 * big_n) by (nonlinear_arith)
        requires
            big_n == num * pow2(j),
            big_d == den * pow2(i),
            den > 2 * num,
            pow2(i) > pow2(j) > 0,
    ;
    lemma_small_mod(big_n, big_d);
    lemma_basic_div(big_n as int, big_d as int);
}

proof fn lemma_doubled(d: nat, e: nat)
    ensures
        d * pow2(e + 1) == 2 * (d * pow2(e)),
{
    lemma_pow2_unfold(e + 1);
    assert(d * (2 * pow2(e)) == 2 * (d * pow2(e))) by (nonlinear_arith);
}

proof fn lemma_exponent_bounded(d: nat, e: nat, x: nat)
    requires
        d > 0,
        d * pow2(e) == x,
        x <= 0x8000_0000_0000_0000_0000_0000_0000_0000,
    ensures
        e < 128,
{
    if e >= 128 {
        lemma2_to64();
        lemma_pow2_adds(64, 64);
        if e > 128 {
            lemma_pow2_strictly_increases(128, e);
        }
        assert(x >= pow2(e)) by (nonlinear_arith)
            requires
                d >= 1,
                d * pow2(e) == x,
        ;
    }
}

/// The pattern of the magnitude nearest to `n / d` times two to the `k` units.
pub fn round_ratio(n: u64, d: u64, k: i32) -> (m: u32)
    requires
        0 < d < LIMIT,
        n < 0x8000_0000_0000_0000,
        -500 < k < 500,
    ensures
        m == scaled_round(n as nat, d as nat, k as int),
        m <= INFINITE,
{
    proof {
        lemma2_to64();
        lemma_pow2_pos(scale());
    }
    if n == 0 {
        proof {
            let big_d = d as nat * pow2(scale());
            assert(big_d > 0) by (nonlinear_arith)
                requires
                    d > 0,
                    pow2(scale()) > 0,
                    big_d == d as nat * pow2(scale()),
            ;
            assert(0 * pow2((k + scale()) as nat) == 0);
            lemma_small_mod(0, big_d);
            lemma_basic_div(0, big_d as int);
        }
        return 0;
    }
    let num: u128 = n as u128 * 0x1_0000_0000_0000;
    let mut den: u128 = d as u128;
    let mut t: i32 = -48;
    proof {
        assert(d as nat * pow2(0) == d);
    }
    while den <= num / 0x100_0000
        invariant
            0 < d < LIMIT,
            0 < n < 0x8000_0000_0000_0000,
            num == n * 0x1_0000_0000_0000,
            -48 <= t < 100,
            den == d as nat * pow2((t + 48) as nat),
            0 < den <= 2 * num,
            t > -48 ==> 2 * num >= LIMIT * den,
        decreases 2 * num - den,
    {
        proof {
            lemma_doubled(d as nat, (t + 48) as nat);
            lemma_exponent_bounded(d as nat, (t + 49) as nat, (2 * den) as nat);
        }
        den = den * 2;
        t = t + 1;
    }
    assert(t > -48) by {
        if t == -48 {
            assert(den == d);
        }
    }
    while t + k < 0 && den <= 2 * num
        invariant
            0 < d < LIMIT,
            0 < n < 0x8000_0000_0000_0000,
            -500 < k < 500,
            num == n * 0x1_0000_0000_0000,
            -48 < t < 100,
            den == d as nat * pow2((t + 48) as nat),
            0 < den <= 4 * num,
            num < LIMIT * den,
            t + k > 0 ==> 2 * num >= LIMIT * den,
        decreases 4 * num - den,
    {
        proof {
            lemma_doubled(d as nat, (t + 48) as nat);
            lemma_exponent_bounded(d as nat, (t + 49) as nat, (2 * den) as nat);
        }
        den = den * 2;
        t = t + 1;
    }
    assert(pow2(48) == 0x1_0000_0000_0000) by {
        lemma2_to64();
        lemma2_to64_rest();
    }
    if t + k < 0 {
        proof {
            lemma_round_ratio_tiny(n as nat, d as nat, k as int, t as int, num as nat, den as nat);
        }
        return 0;
    }
    let q: u128 = num / den;
    let r: u128 = num % den;
    proof {
        lemma_round_ratio(n as nat, d as nat, k as int, t as int, num as nat, den as nat);
        assert(q < LIMIT) by {
            lemma_multiply_divide_lt(num as int, den as int, LIMIT as int);
        }
    }
    let mut whole: u64 = q as u64;
    if 2 * r > den || (2 * r == den && q % 2 == 1) {
        whole = whole + 1;
    }
    assert(whole == nearest(num as nat, den as nat));
    let m: u64 = (t + k) as u64 * 0x80_0000 + whole;
    if m < 0x7f80_0000 {
        m as u32
    } else {
        INFINITE
    }
}

/// A whole number within a quarter of the grid's spacing of the magnitude with significand `m`
/// and exponent `s` rounds to that magnitude.
pub proof fn lemma_round_near(num: nat, m: nat, s: nat)
    requires
        HIDDEN <= m < LIMIT,
        s >= 2,
        -pow2(s) < 4 * (num - m * pow2(s)) < pow2(s),
    ensures
        round_unbounded(num, 1) == s * HIDDEN + m,
{
    let p = pow2(s);
    let h = pow2((s - 1) as nat);
    let g = pow2((s - 2) as nat);
    lemma_pow2_unfold(s);
    lemma_pow2_unfold((s - 1) as nat);
    lemma_pow2_pos((s - 2) as nat);
    assert(p == 2 * h && h == 2 * g && g > 0);
    if num >= m * p || m > HIDDEN {
        assert(num >= LIMIT * h && num < LIMIT * p) by (nonlinear_arith)
            requires
                p == 2 * h,
                HIDDEN <= m < LIMIT,
                -p < 4 * (num - m * p) < p,
                num >= m * p || m > HIDDEN,
        ;
        lemma_round_unrolled(num, 1, s);
        assert(1 * h == h && 1 * p == p);
        if num >= m * p {
            lemma_fundamental_div_mod_converse(num as int, p as int, m as int, num - m * p);
        } else {
            assert((m - 1) * p == m * p - p) by (nonlinear_arith);
            lemma_fundamental_div_mod_converse(num as int, p as int, m - 1, num - (m - 1) * p);
        }
    } else {
        assert(num >= LIMIT * g && num < LIMIT * h) by (nonlinear_arith)
            requires
                p == 2 * h,
                h == 2 * g,
                m == HIDDEN,
                -p < 4 * (num - m * p),
                num < m * p,
        ;
        lemma_round_unrolled(num, 1, (s - 1) as nat);
        assert(1 * h == h && 1 * g == g);
        assert(m * p == LIMIT * h) by (nonlinear_arith)
            requires
                p == 2 * h,
                m == HIDDEN,
        ;
        lemma_fundamental_div_mod_converse(
            num as int,
            h as int,
            LIMIT - 1,
            num - (LIMIT - 1) * h,
        );
    }
}

/// The whole number `q` for which `q` steps of size `p` reach the root of `w` and `q + 1` pass it.
pub open spec fn floor_root(w: nat, p: nat) -> nat {
    choose|q: nat| is_floor_root(w, p, q)
}

/// Whether `q` steps of size `p` do not pass the root of `w` and `q + 1` do.
pub open spec fn is_floor_root(w: nat, p: nat, q: nat) -> bool {
    (q * p) * (q * p) <= w < ((q + 1) * p) * ((q + 1) * p)
}

/// The whole number of steps of size `p` nearest to the root of `w`.
pub open spec fn nearest_root(w: nat, p: nat) -> nat {
    let q = floor_root(w, p);
    let middle = (2 * q + 1) * p;
    if 4 * w > middle * middle || (4 * w == middle * middle && q % 2 == 1) {
        q + 1
    } else {
        q
    }
}

/// The pattern of the magnitude nearest to the root of `w`, reached in steps of size `p`.
pub open spec fn round_root(w: nat, p: nat) -> nat
    decreases w - p,
{
    if p > 0 && w >= (LIMIT * p) * (LIMIT * p) && w >= 2 * p {
        HIDDEN as nat + round_root(w, 2 * p)
    } else {
        nearest_root(w, p)
    }
}

proof fn lemma_floor_root(w: nat, p: nat, q: nat)
    requires
        p > 0,
        (q * p) * (q * p) <= w < ((q + 1) * p) * ((q + 1) * p),
    ensures
        floor_root(w, p) == q,
{
    let f = floor_root(w, p);
    assert(is_floor_root(w, p, q));
    assert(is_floor_root(w, p, f));
    if f < q {
        assert(((f + 1) * p) * ((f + 1) * p) <= (q * p) * (q * p)) by (nonlinear_arith)
            requires
                f + 1 <= q,
                p > 0,
        {
            assert(0 <= (f + 1) * p <= q * p);
        }
    } else if f > q {
        assert(((q + 1) * p) * ((q + 1) * p) <= (f * p) * (f * p)) by (nonlinear_arith)
            requires
                q + 1 <= f,
                p > 0,
        {
            assert(0 <= (q + 1) * p <= f * p);
        }
    }
}

/// With `m` between two to the 46 and two to the 48, the root of `m` steps squared has 24 bits.
proof fn lemma_round_root(w: nat, p: nat, m: nat, e: nat)
    requires
        p > 0,
        w == m * (p * pow2(e)) * (p * pow2(e)),
        HIDDEN * HIDDEN <= m < LIMIT * LIMIT,
    ensures
        round_root(w, p) == e * HIDDEN + nearest_root(w, p * pow2(e)),
    decreases e,
{
    lemma2_to64();
    lemma_pow2_pos(e);
    let s = p * pow2(e);
    if e == 0 {
        assert(s == p) by (nonlinear_arith)
            requires
                s == p * pow2(0),
                pow2(0) == 1,
        ;
        assert(w < (LIMIT * p) * (LIMIT * p)) by (nonlinear_arith)
            requires
                w == m * p * p,
                m < LIMIT * LIMIT,
                p > 0,
        ;
    } else {
        lemma_pow2_unfold(e);
        lemma_pow2_pos((e - 1) as nat);
        let half = pow2((e - 1) as nat);
        assert((2 * p) * half == s) by (nonlinear_arith)
            requires
                s == p * pow2(e),
                pow2(e) == 2 * half,
        ;
        assert(s >= 2 * p) by (nonlinear_arith)
            requires
                s == (2 * p) * half,
                half >= 1,
        ;
        assert(m * s * s >= (HIDDEN * s) * (HIDDEN * s)) by (nonlinear_arith)
            requires
                m >= HIDDEN * HIDDEN,
                s > 0,
        ;
        assert((HIDDEN * s) * (HIDDEN * s) >= (LIMIT * p) * (LIMIT * p)) by (nonlinear_arith)
            requires
                s >= 2 * p,
                p > 0,
        {
            assert(HIDDEN * s >= LIMIT * p > 0);
        }
        assert((LIMIT * p) * (LIMIT * p) >= 2 * p) by (nonlinear_arith)
            requires
                p > 0,
        ;
        lemma_round_root(w, 2 * p, m, (e - 1) as nat);
    }
}

proof fn lemma_round_root_found(m: nat, e: nat, q: nat, w: nat)
    requires
        w == m * pow2(2 * e),
        HIDDEN * HIDDEN <= m < LIMIT * LIMIT,
        q * q <= m < (q + 1) * (q + 1),
    ensures
        round_root(w, 1) == e * HIDDEN + (if m > q * q + q {
            q + 1
        } else {
            q
        }),
{
    let s = pow2(e);
    lemma_pow2_pos(e);
    lemma_pow2_adds(e, e);
    assert(1 * s == s);
    assert(w == m * (1 * s) * (1 * s)) by (nonlinear_arith)
        requires
            w == m * (s * s),
    ;
    lemma_round_root(w, 1, m, e);
    assert((q * s) * (q * s) <= w < ((q + 1) * s) * ((q + 1) * s)) by (nonlinear_arith)
        requires
            w == m * s * s,
            q * q <= m < (q + 1) * (q + 1),
            s > 0,
    {
        assert((q * s) * (q * s) == (q * q) * (s * s));
        assert(((q + 1) * s) * ((q + 1) * s) == ((q + 1) * (q + 1)) * (s * s));
        assert(s * s > 0);
    }
    lemma_floor_root(w, s, q);
    let middle = (2 * q + 1) * s;
    assert(middle * middle == (4 * (q * q + q) + 1) * (s * s)) by (nonlinear_arith)
        requires
            middle == (2 * q + 1) * s,
    ;
    assert(4 * w == (4 * m) * (s * s)) by (nonlinear_arith)
        requires
            w == m * s * s,
    ;
    assert(s * s > 0) by (nonlinear_arith)
        requires
            s > 0,
    ;
    let x = 4 * (q * q + q) + 1;
    assert((4 * w > middle * middle) == (4 * m > x)) by (nonlinear_arith)
        requires
            4 * w == (4 * m) * (s * s),
            middle * middle == x * (s * s),
            s * s > 0,
    ;
    assert(4 * w == middle * middle ==> 4 * m == x) by (nonlinear_arith)
        requires
            4 * w == (4 * m) * (s * s),
            middle * middle == x * (s * s),
            s * s > 0,
    ;
}

proof fn lemma_exponent_large(a: nat, e: nat, w: nat)
    requires
        a < 0x1_0000_0000_0000,
        w == a * pow2(e),
        w >= pow2(100),
    ensures
        e >= 52,
{
    if e < 52 {
        lemma2_to64();
        lemma2_to64_rest();
        lemma_pow2_strictly_increases(e, 52);
        lemma_pow2_adds(48, 52);
        assert(w < pow2(48) * pow2(52)) by (nonlinear_arith)
            requires
                w == a * pow2(e),
                a < pow2(48),
                pow2(e) < pow2(52),
        ;
    }
}

/// The pattern of the magnitude nearest to the root of `m` times two to the `k`.
pub fn round_root_of(m: u64, k: u32) -> (r: u32)
    requires
        0 < m < LIMIT,
        100 < k < 500,
    ensures
        r == round_root(m as nat * pow2(k as nat), 1),
        r < INFINITE,
{
    let ghost w = m as nat * pow2(k as nat);
    let mut a: u64 = m;
    let mut e: u32 = k;
    if e % 2 == 1 {
        proof {
            lemma_doubled(m as nat, (k - 1) as nat);
            assert((2 * m as nat) * pow2((k - 1) as nat) == 2 * (m as nat * pow2((k - 1) as nat)))
                by (nonlinear_arith);
        }
        a = 2 * a;
        e = e - 1;
    }
    proof {
        assert(w >= pow2(k as nat)) by (nonlinear_arith)
            requires
                m >= 1,
                w == m as nat * pow2(k as nat),
        ;
        lemma_pow2_strictly_increases(100, k as nat);
    }
    while a < 0x4000_0000_0000
        invariant
            0 < a < 0x1_0000_0000_0000,
            w == a as nat * pow2(e as nat),
            w >= pow2(100),
            e % 2 == 0,
            e < 500,
        decreases 0x1_0000_0000_0000 - a,
    {
        proof {
            lemma_exponent_large(a as nat, e as nat, w);
            lemma_doubled(a as nat, (e - 1) as nat);
            lemma_doubled(a as nat, (e - 2) as nat);
            assert((4 * a as nat) * pow2((e - 2) as nat) == 4 * (a as nat * pow2((e - 2) as nat)))
                by (nonlinear_arith);
        }
        a = 4 * a;
        e = e - 2;
    }
    let mut lo: u64 = 0x80_0000;
    let mut hi: u64 = 0x100_0000;
    while hi - lo > 1
        invariant
            0x80_0000 <= lo < hi <= 0x100_0000,
            lo * lo <= a < hi * hi,
        decreases hi - lo,
    {
        let mid: u64 = lo + (hi - lo) / 2;
        assert(mid * mid <= 0x1_0000_0000_0000) by (nonlinear_arith)
            requires
                0 <= mid <= 0x100_0000,
        ;
        if mid * mid <= a {
            lo = mid;
        } else {
            hi = mid;
        }
    }
    assert(hi == lo + 1);
    assert(lo * lo <= 0x1_0000_0000_0000) by (nonlinear_arith)
        requires
            0 <= lo <= 0x100_0000,
    ;
    let half: u32 = e / 2;
    proof {
        lemma_round_root_found(a as nat, half as nat, lo as nat, w);
    }
    let mut q: u32 = lo as u32;
    if a > lo * lo + lo {
        q = q + 1;
    }
    half * 0x80_0000 + q
}

/// A larger pattern has more units.
pub proof fn units_grow(m: int, n: int)
    requires
        0 <= m < n,
    ensures
        units(m) < units(n),
{
    let h = HIDDEN as int;
    if n >= h {
        let e = (n / h - 1) as nat;
        let g = h + n % h;
        lemma_pow2_pos(e);
        if m < h {
            assert(g * pow2(e) >= h) by (nonlinear_arith)
                requires
                    g >= h,
                    h > 0,
                    pow2(e) >= 1,
            ;
        } else {
            let d = (m / h - 1) as nat;
            let f = h + m % h;
            lemma_pow2_pos(d);
            if d == e {
                assert(f * pow2(d) < g * pow2(e)) by (nonlinear_arith)
                    requires
                        f < g,
                        pow2(d) == pow2(e),
                        pow2(e) > 0,
                ;
            } else {
                assert(d < e);
                lemma_pow2_unfold(d + 1);
                if d + 1 < e {
                    lemma_pow2_strictly_increases(d + 1, e);
                }
                assert(f * pow2(d) < g * pow2(e)) by (nonlinear_arith)
                    requires
                        0 < f < 2 * h,
                        g >= h,
                        h > 0,
                        pow2(e) >= 2 * pow2(d),
                        pow2(d) > 0,
                {
                    assert(g * pow2(e) >= h * (2 * pow2(d)));
                    assert(f * pow2(d) < (2 * h) * pow2(d));
                }
            }
        }
    }
}

} // verus!
