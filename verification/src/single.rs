//! Single-precision numbers with arithmetic that is the same on every machine.
//!
//! World positions, amounts of resources and the camera are single-precision numbers on the wire
//! and on both ends of it. They are held here by their bit patterns, and each operation returns
//! the pattern of the exact result rounded to nearest, ties to even. Every operation that has no
//! numeric result returns the one pattern `NAN`.
use crate::rounding;
use crate::rounding::{round_ratio, round_root_of, HIDDEN, INFINITE, LIMIT};
use vstd::arithmetic::div_mod::*;
use vstd::arithmetic::power2::*;
use vstd::prelude::*;

verus! {

/// A single-precision number, by its bit pattern.
#[derive(Clone, Copy, Debug, PartialEq, Eq, Structural)]
pub struct Single {
    pub bits: u32,
}

/// The weight of the sign bit.
pub const SIGN: u32 = 0x8000_0000;

/// The pattern that stands for no number.
pub const NAN: u32 = 0x7fc0_0000;

/// The number of binary places of a unit: one is two to the 149 units.
pub open spec fn places() -> nat {
    149
}

/// The whole number nearest to `x` that fits in 32 bits with a sign.
pub open spec fn clamped(x: int) -> int {
    if x < i32::MIN {
        i32::MIN as int
    } else if x > i32::MAX {
        i32::MAX as int
    } else {
        x
    }
}

impl Single {
    /// The pattern without its sign.
    pub open spec fn mag(self) -> int {
        self.bits as int % SIGN as int
    }

    /// Whether the sign bit is set.
    pub open spec fn negative(self) -> bool {
        self.bits >= SIGN
    }

    /// Whether this is no number at all.
    pub open spec fn nan(self) -> bool {
        self.mag() > INFINITE
    }

    /// Whether this is one of the two infinities.
    pub open spec fn infinite(self) -> bool {
        self.mag() == INFINITE
    }

    /// Whether this stands for a number.
    pub open spec fn finite(self) -> bool {
        self.mag() < INFINITE
    }

    /// The size of a finite number, in units.
    pub open spec fn size(self) -> nat {
        rounding::units(self.mag())
    }

    /// A finite number, in units.
    pub open spec fn value(self) -> int {
        if self.negative() {
            -(self.size() as int)
        } else {
            self.size() as int
        }
    }

    /// The number with the given sign and magnitude pattern.
    pub open spec fn signed(negative: bool, m: nat) -> Single {
        Single {
            bits: (if negative {
                SIGN + m
            } else {
                m as int
            }) as u32,
        }
    }

    /// The result of an operation that has none.
    pub open spec fn no_number() -> Single {
        Single { bits: NAN }
    }

    /// The same size with the other sign.
    pub open spec fn opposite(self) -> Single {
        Single::signed(!self.negative(), self.mag() as nat)
    }

    /// The same size without a sign.
    pub open spec fn absolute(self) -> Single {
        Single::signed(false, self.mag() as nat)
    }

    /// The exact sum, rounded.
    #[verifier::opaque]
    pub open spec fn sum(self, other: Single) -> Single {
        if self.nan() || other.nan() {
            Single::no_number()
        } else if self.infinite() && other.infinite() {
            if self.negative() == other.negative() {
                self
            } else {
                Single::no_number()
            }
        } else if self.infinite() {
            self
        } else if other.infinite() {
            other
        } else {
            let v = self.value() + other.value();
            if v == 0 {
                Single::signed(self.negative() && other.negative(), 0)
            } else if v < 0 {
                Single::signed(true, rounding::round((-v) as nat, 1))
            } else {
                Single::signed(false, rounding::round(v as nat, 1))
            }
        }
    }

    /// The exact difference, rounded.
    pub open spec fn difference(self, other: Single) -> Single {
        self.sum(other.opposite())
    }

    /// The exact product, rounded.
    #[verifier::opaque]
    pub open spec fn product(self, other: Single) -> Single {
        let sign = self.negative() != other.negative();
        if self.nan() || other.nan() {
            Single::no_number()
        } else if self.infinite() || other.infinite() {
            if self.mag() == 0 || other.mag() == 0 {
                Single::no_number()
            } else {
                Single::signed(sign, INFINITE as nat)
            }
        } else {
            Single::signed(sign, rounding::round(self.size() * other.size(), pow2(places())))
        }
    }

    /// The exact quotient, rounded.
    #[verifier::opaque]
    pub open spec fn quotient(self, other: Single) -> Single {
        let sign = self.negative() != other.negative();
        if self.nan() || other.nan() || (self.infinite() && other.infinite()) || (self.mag() == 0
            && other.mag() == 0) {
            Single::no_number()
        } else if self.infinite() || other.mag() == 0 {
            Single::signed(sign, INFINITE as nat)
        } else if other.infinite() {
            Single::signed(sign, 0)
        } else {
            Single::signed(sign, rounding::round(self.size() * pow2(places()), other.size()))
        }
    }

    /// The exact root, rounded.
    #[verifier::opaque]
    pub open spec fn root(self) -> Single {
        if self.mag() == 0 {
            self
        } else if self.nan() || self.negative() {
            Single::no_number()
        } else if self.infinite() {
            self
        } else {
            Single::signed(false, rounding::round_root(self.size() * pow2(places()), 1))
        }
    }

    /// The place of a number in the order of all numbers: the two zeros share one.
    pub open spec fn place(self) -> int {
        if self.negative() {
            -self.mag()
        } else {
            self.mag()
        }
    }

    /// Whether both are numbers and this one is the smaller.
    pub open spec fn below(self, other: Single) -> bool {
        !self.nan() && !other.nan() && self.place() < other.place()
    }

    /// Whether both are numbers and this one is not the larger.
    pub open spec fn at_most(self, other: Single) -> bool {
        !self.nan() && !other.nan() && self.place() <= other.place()
    }

    /// The smaller of two numbers; if one of them is no number, the other.
    pub open spec fn smaller(self, other: Single) -> Single {
        if self.nan() || other.below(self) {
            other
        } else {
            self
        }
    }

    /// The larger of two numbers; if one of them is no number, the other.
    pub open spec fn larger(self, other: Single) -> Single {
        if self.nan() || self.below(other) {
            other
        } else {
            self
        }
    }

    /// The largest whole number not above this one, as far as 32 bits go.
    #[verifier::opaque]
    pub open spec fn floor_int(self) -> int {
        if self.nan() {
            0
        } else if self.infinite() {
            if self.negative() {
                i32::MIN as int
            } else {
                i32::MAX as int
            }
        } else {
            clamped(self.value() / pow2(places()) as int)
        }
    }

    /// This number without its fraction, as far as 32 bits go.
    #[verifier::opaque]
    pub open spec fn truncated_int(self) -> int {
        if self.negative() {
            self.ceiling_int()
        } else {
            self.floor_int()
        }
    }

    /// The smallest whole number not below this one, as far as 32 bits go.
    #[verifier::opaque]
    pub open spec fn ceiling_int(self) -> int {
        if self.nan() {
            0
        } else if self.infinite() {
            if self.negative() {
                i32::MIN as int
            } else {
                i32::MAX as int
            }
        } else {
            clamped(-((-self.value()) / pow2(places()) as int))
        }
    }

    /// A whole number, rounded.
    #[verifier::opaque]
    pub open spec fn of_int(i: int) -> Single {
        if i < 0 {
            Single::signed(true, rounding::round(((-i) * pow2(places())) as nat, 1))
        } else {
            Single::signed(false, rounding::round((i * pow2(places())) as nat, 1))
        }
    }

    /// The number with the given pattern.
    pub fn from_bits(bits: u32) -> (r: Single)
        ensures
            r.bits == bits,
    {
        Single { bits }
    }

    /// The pattern of this number.
    pub fn to_bits(self) -> (bits: u32)
        ensures
            bits == self.bits,
    {
        self.bits
    }

    fn pattern(self) -> (m: u32)
        ensures
            m == self.mag(),
    {
        self.bits % SIGN
    }

    fn with_sign(negative: bool, m: u32) -> (r: Single)
        requires
            m < SIGN,
        ensures
            r == Single::signed(negative, m as nat),
    {
        if negative {
            Single { bits: SIGN + m }
        } else {
            Single { bits: m }
        }
    }

    /// The significand and the exponent of a finite number.
    fn parts(self) -> (r: (u64, i32))
        requires
            self.finite(),
        ensures
            r.0 < LIMIT,
            0 <= r.1 <= 253,
            self.size() == r.0 as nat * pow2(r.1 as nat),
            r.1 > 0 ==> r.0 >= HIDDEN,
            r.0 == 0 <==> self.mag() == 0,
            self.mag() == r.1 * HIDDEN + r.0,
    {
        let m: u32 = self.pattern();
        if m < HIDDEN {
            proof {
                lemma2_to64();
                assert(m as nat * 1 == m);
            }
            (m as u64, 0)
        } else {
            (HIDDEN as u64 + (m % HIDDEN) as u64, (m / HIDDEN) as i32 - 1)
        }
    }

    /// The negation.
    pub fn negate(self) -> (r: Single)
        ensures
            r == self.opposite(),
    {
        Single::with_sign(self.bits < SIGN, self.pattern())
    }

    /// The absolute value.
    pub fn abs(self) -> (r: Single)
        ensures
            r == self.absolute(),
    {
        Single::with_sign(false, self.pattern())
    }

    /// The sum of two finite numbers, the first of which has the larger exponent.
    fn plus_ordered(self, other: Single, m1: u64, s1: i32, m2: u64, s2: i32) -> (r: Single)
        requires
            self.finite(),
            other.finite(),
            m1 < LIMIT,
            m2 < LIMIT,
            0 <= s2 <= s1 <= 253,
            self.size() == m1 as nat * pow2(s1 as nat),
            other.size() == m2 as nat * pow2(s2 as nat),
            s1 > 0 ==> m1 >= HIDDEN,
            self.mag() == s1 * HIDDEN + m1,
            self.mag() != 0 || other.mag() != 0,
            other.mag() != 0 ==> m2 != 0,
            self.mag() != 0 ==> m1 != 0,
        ensures
            r == self.sum(other),
    {
        proof {
            reveal(Single::sum);
        }
        let gap: i32 = s1 - s2;
        if gap > 38 {
            proof {
                lemma_far_sum(self, other, m1 as nat, s1 as nat, m2 as nat, s2 as nat);
            }
            return self;
        }
        let ghost p = pow2(s2 as nat);
        let x: u64 = shifted_left(m1, gap as u32);
        let n1: bool = self.bits >= SIGN;
        let n2: bool = other.bits >= SIGN;
        proof {
            lemma_pow2_pos(s2 as nat);
            lemma_pow2_pos(s1 as nat);
            lemma_pow2_adds(gap as nat, s2 as nat);
            assert(x as nat * p == self.size()) by (nonlinear_arith)
                requires
                    x == m1 as nat * pow2(gap as nat),
                    self.size() == m1 as nat * pow2(s1 as nat),
                    pow2(s1 as nat) == pow2(gap as nat) * p,
            ;
        }
        if n1 == n2 {
            let n: u64 = x + m2;
            proof {
                lemma_pow2_pos(gap as nat);
                if m1 > 0 {
                    lemma_product_positive(m1 as nat, pow2(gap as nat));
                }
                assert(n as nat * p == self.size() + other.size()) by (nonlinear_arith)
                    requires
                        n == x + m2,
                        x as nat * p == self.size(),
                        m2 as nat * p == other.size(),
                ;
                lemma_sum_ratio(n as nat, s2 as nat);
                lemma_product_positive(n as nat, p);
            }
            Single::with_sign(n1, round_ratio(n, 1, s2))
        } else if x > m2 {
            let n: u64 = x - m2;
            proof {
                assert(n as nat * p == self.size() - other.size()) by (nonlinear_arith)
                    requires
                        n == x - m2,
                        x as nat * p == self.size(),
                        m2 as nat * p == other.size(),
                ;
                lemma_sum_ratio(n as nat, s2 as nat);
                lemma_product_positive(n as nat, p);
            }
            Single::with_sign(n1, round_ratio(n, 1, s2))
        } else if x < m2 {
            let n: u64 = m2 - x;
            proof {
                assert(n as nat * p == other.size() - self.size()) by (nonlinear_arith)
                    requires
                        n == m2 - x,
                        x as nat * p == self.size(),
                        m2 as nat * p == other.size(),
                ;
                lemma_sum_ratio(n as nat, s2 as nat);
                lemma_product_positive(n as nat, p);
            }
            Single::with_sign(n2, round_ratio(n, 1, s2))
        } else {
            Single { bits: 0 }
        }
    }

    /// The sum.
    pub fn plus(self, other: Single) -> (r: Single)
        ensures
            r == self.sum(other),
    {
        proof {
            reveal(Single::sum);
        }
        let m1: u32 = self.pattern();
        let m2: u32 = other.pattern();
        if m1 > INFINITE || m2 > INFINITE {
            return Single { bits: NAN };
        }
        if m1 == INFINITE {
            if m2 == INFINITE && (self.bits >= SIGN) != (other.bits >= SIGN) {
                return Single { bits: NAN };
            }
            return self;
        }
        if m2 == INFINITE {
            return other;
        }
        if m1 == 0 && m2 == 0 {
            return Single::with_sign(self.bits >= SIGN && other.bits >= SIGN, 0);
        }
        let (a1, s1) = self.parts();
        let (a2, s2) = other.parts();
        if s1 >= s2 {
            self.plus_ordered(other, a1, s1, a2, s2)
        } else {
            other.plus_ordered(self, a2, s2, a1, s1)
        }
    }

    /// The difference.
    pub fn minus(self, other: Single) -> (r: Single)
        ensures
            r == self.difference(other),
    {
        self.plus(other.negate())
    }

    /// The product.
    pub fn times(self, other: Single) -> (r: Single)
        ensures
            r == self.product(other),
    {
        proof {
            reveal(Single::product);
        }
        let m1: u32 = self.pattern();
        let m2: u32 = other.pattern();
        let sign: bool = (self.bits >= SIGN) != (other.bits >= SIGN);
        if m1 > INFINITE || m2 > INFINITE {
            return Single { bits: NAN };
        }
        if m1 == INFINITE || m2 == INFINITE {
            if m1 == 0 || m2 == 0 {
                return Single { bits: NAN };
            }
            return Single::with_sign(sign, INFINITE);
        }
        let (a1, s1) = self.parts();
        let (a2, s2) = other.parts();
        assert(a1 * a2 < 0x1_0000_0000_0000) by (nonlinear_arith)
            requires
                0 <= a1 < 0x100_0000,
                0 <= a2 < 0x100_0000,
        ;
        let n: u64 = a1 * a2;
        proof {
            lemma_product_ratio(a1 as nat, s1 as nat, a2 as nat, s2 as nat);
        }
        Single::with_sign(sign, round_ratio(n, 1, s1 + s2 - 149))
    }

    /// The quotient.
    pub fn over(self, other: Single) -> (r: Single)
        ensures
            r == self.quotient(other),
    {
        proof {
            reveal(Single::quotient);
        }
        let m1: u32 = self.pattern();
        let m2: u32 = other.pattern();
        let sign: bool = (self.bits >= SIGN) != (other.bits >= SIGN);
        if m1 > INFINITE || m2 > INFINITE || (m1 == INFINITE && m2 == INFINITE) || (m1 == 0 && m2
            == 0) {
            return Single { bits: NAN };
        }
        if m1 == INFINITE || m2 == 0 {
            return Single::with_sign(sign, INFINITE);
        }
        if m2 == INFINITE {
            return Single::with_sign(sign, 0);
        }
        let (a1, s1) = self.parts();
        let (a2, s2) = other.parts();
        proof {
            lemma_quotient_ratio(a1 as nat, s1 as nat, a2 as nat, s2 as nat);
        }
        Single::with_sign(sign, round_ratio(a1, a2, s1 - s2 + 149))
    }

    /// The square root.
    pub fn sqrt(self) -> (r: Single)
        ensures
            r == self.root(),
    {
        proof {
            reveal(Single::root);
        }
        let m: u32 = self.pattern();
        if m == 0 {
            return self;
        }
        if m > INFINITE || self.bits >= SIGN {
            return Single { bits: NAN };
        }
        if m == INFINITE {
            return self;
        }
        let (a, s) = self.parts();
        proof {
            lemma_pow2_adds(s as nat, places());
            assert((a as nat * pow2(s as nat)) * pow2(places()) == a as nat * (pow2(s as nat) * pow2(
                places(),
            ))) by (nonlinear_arith);
        }
        Single::with_sign(false, round_root_of(a, (s + 149) as u32))
    }

    /// Whether this number is less than the other.
    pub fn lt(self, other: Single) -> (r: bool)
        ensures
            r == self.below(other),
    {
        let m1: u32 = self.pattern();
        let m2: u32 = other.pattern();
        if m1 > INFINITE || m2 > INFINITE {
            return false;
        }
        let p1: i64 = if self.bits >= SIGN { -(m1 as i64) } else { m1 as i64 };
        let p2: i64 = if other.bits >= SIGN { -(m2 as i64) } else { m2 as i64 };
        p1 < p2
    }

    /// Whether this number is less than the other or equal to it.
    pub fn le(self, other: Single) -> (r: bool)
        ensures
            r == self.at_most(other),
    {
        let m1: u32 = self.pattern();
        let m2: u32 = other.pattern();
        if m1 > INFINITE || m2 > INFINITE {
            return false;
        }
        let p1: i64 = if self.bits >= SIGN { -(m1 as i64) } else { m1 as i64 };
        let p2: i64 = if other.bits >= SIGN { -(m2 as i64) } else { m2 as i64 };
        p1 <= p2
    }

    /// The smaller of two numbers; if one of them is no number, the other.
    pub fn min(self, other: Single) -> (r: Single)
        ensures
            r == self.smaller(other),
    {
        if self.pattern() > INFINITE || other.lt(self) {
            other
        } else {
            self
        }
    }

    /// The larger of two numbers; if one of them is no number, the other.
    pub fn max(self, other: Single) -> (r: Single)
        ensures
            r == self.larger(other),
    {
        if self.pattern() > INFINITE || self.lt(other) {
            other
        } else {
            self
        }
    }

    /// The whole part of a finite size, up to two to the 32, and whether there is a fraction.
    fn whole(self) -> (r: (u64, bool))
        requires
            self.finite(),
        ensures
            r.0 <= 0x1_0000_0000,
            r.0 < 0x1_0000_0000 ==> r.0 == self.size() / pow2(places()),
            r.0 == 0x1_0000_0000 ==> self.size() / pow2(places()) >= r.0,
            r.1 == (self.size() % pow2(places()) != 0),
    {
        let (a, s) = self.parts();
        proof {
            lemma_pow2_pos(places());
            lemma2_to64();
        }
        if s >= 149 {
            let k: u32 = (s - 149) as u32;
            proof {
                lemma_whole_large(a as nat, s as nat);
            }
            if k >= 9 {
                proof {
                    lemma_pow2_adds(9, (k - 9) as nat);
                    lemma_pow2_pos((k - 9) as nat);
                    assert(a as nat * pow2(k as nat) >= 0x1_0000_0000) by (nonlinear_arith)
                        requires
                            a >= 0x80_0000,
                            pow2(k as nat) == 512 * pow2((k - 9) as nat),
                            pow2((k - 9) as nat) >= 1,
                    ;
                }
                return (0x1_0000_0000, false);
            }
            let q: u64 = shifted_left(a, k);
            if q >= 0x1_0000_0000 {
                return (0x1_0000_0000, false);
            }
            (q, false)
        } else {
            let k: u32 = (149 - s) as u32;
            proof {
                lemma_whole_small(a as nat, s as nat);
            }
            if k >= 24 {
                proof {
                    if k > 24 {
                        lemma_pow2_strictly_increases(24, k as nat);
                    }
                    lemma_small_mod(a as nat, pow2(k as nat));
                    lemma_basic_div(a as int, pow2(k as nat) as int);
                }
                return (0, a != 0);
            }
            let p: u64 = shifted_left(1, k);
            assert(1 * pow2(k as nat) == pow2(k as nat));
            assert(a / p <= a) by {
                lemma_div_nonincreasing(a as int, p as int);
            }
            (a / p, a % p != 0)
        }
    }

    /// The largest whole number not above this one.
    pub fn floor_i32(self) -> (r: i32)
        ensures
            r == self.floor_int(),
    {
        proof {
            reveal(Single::floor_int);
        }
        let m: u32 = self.pattern();
        if m > INFINITE {
            return 0;
        }
        if m == INFINITE {
            return if self.bits >= SIGN { i32::MIN } else { i32::MAX };
        }
        let (q, fraction) = self.whole();
        proof {
            lemma_pow2_pos(places());
            lemma_floor_of_negative(self.size(), pow2(places()));
        }
        if self.bits >= SIGN {
            let f: i64 = -(q as i64) - (if fraction { 1 } else { 0 });
            if f < i32::MIN as i64 {
                i32::MIN
            } else {
                f as i32
            }
        } else if q > i32::MAX as u64 {
            i32::MAX
        } else {
            q as i32
        }
    }

    /// The smallest whole number not below this one.
    pub fn ceil_i32(self) -> (r: i32)
        ensures
            r == self.ceiling_int(),
    {
        proof {
            reveal(Single::ceiling_int);
        }
        let m: u32 = self.pattern();
        if m > INFINITE {
            return 0;
        }
        if m == INFINITE {
            return if self.bits >= SIGN { i32::MIN } else { i32::MAX };
        }
        let (q, fraction) = self.whole();
        proof {
            lemma_pow2_pos(places());
            lemma_floor_of_negative(self.size(), pow2(places()));
        }
        if self.bits >= SIGN {
            let f: i64 = -(q as i64);
            if f < i32::MIN as i64 {
                i32::MIN
            } else {
                f as i32
            }
        } else {
            let f: u64 = q + (if fraction { 1 } else { 0 });
            if f > i32::MAX as u64 {
                i32::MAX
            } else {
                f as i32
            }
        }
    }

    /// This number without its fraction.
    pub fn to_i32(self) -> (r: i32)
        ensures
            r == self.truncated_int(),
    {
        proof {
            reveal(Single::truncated_int);
        }
        if self.bits >= SIGN {
            self.ceil_i32()
        } else {
            self.floor_i32()
        }
    }

    /// The number nearest to a count.
    pub fn from_count(n: u64) -> (r: Single)
        requires
            n < 0x8000_0000_0000_0000,
        ensures
            r == Single::of_int(n as int),
    {
        proof {
            reveal(Single::of_int);
            lemma_sum_ratio(n as nat, places());
        }
        Single::with_sign(false, round_ratio(n, 1, 149))
    }

    /// The number nearest to a whole number.
    pub fn from_i32(i: i32) -> (r: Single)
        ensures
            r == Single::of_int(i as int),
    {
        proof {
            reveal(Single::of_int);
        }
        let negative: bool = i < 0;
        let n: u64 = if negative { (-(i as i64)) as u64 } else { i as u64 };
        proof {
            lemma_sum_ratio(n as nat, places());
        }
        Single::with_sign(negative, round_ratio(n, 1, 149))
    }
}

fn shifted_left(m: u64, k: u32) -> (r: u64)
    requires
        m < LIMIT,
        k <= 38,
    ensures
        r == m as nat * pow2(k as nat),
        r < 0x4000_0000_0000_0000,
{
    let mut r: u64 = m;
    let mut i: u32 = 0;
    proof {
        lemma2_to64();
    }
    while i < k
        invariant
            m < LIMIT,
            i <= k <= 38,
            r == m as nat * pow2(i as nat),
            pow2(i as nat) <= 0x40_0000_0000,
            r < 0x4000_0000_0000_0000,
        decreases k - i,
    {
        proof {
            lemma2_to64();
            lemma2_to64_rest();
            lemma_pow2_unfold((i + 1) as nat);
            if i + 1 < 38 {
                lemma_pow2_strictly_increases((i + 1) as nat, 38);
            }
            assert(m as nat * (2 * pow2(i as nat)) == 2 * (m as nat * pow2(i as nat)))
                by (nonlinear_arith);
            assert(m as nat * pow2((i + 1) as nat) < 0x4000_0000_0000_0000) by (nonlinear_arith)
                requires
                    m < 0x100_0000,
                    pow2((i + 1) as nat) <= 0x40_0000_0000,
            ;
        }
        r = r * 2;
        i = i + 1;
    }
    r
}

proof fn lemma_product_positive(n: nat, p: nat)
    requires
        n > 0,
        p > 0,
    ensures
        n * p > 0,
{
    assert(n * p > 0) by (nonlinear_arith)
        requires
            n > 0,
            p > 0,
    ;
}

/// What the core rounds for a sum is the exact sum.
proof fn lemma_sum_ratio(n: nat, s: nat)
    requires
        s <= 253,
    ensures
        rounding::scaled_round(n, 1, s as int) == rounding::round(n * pow2(s), 1),
{
    let c = pow2(rounding::scale());
    lemma_pow2_pos(rounding::scale());
    lemma_pow2_adds(s, rounding::scale());
    assert(n * pow2(s + rounding::scale()) == (n * pow2(s)) * c) by (nonlinear_arith)
        requires
            pow2(s + rounding::scale()) == pow2(s) * c,
    ;
    rounding::lemma_round_scaled(n * pow2(s), 1, c);
}

proof fn lemma_product_ratio(m1: nat, s1: nat, m2: nat, s2: nat)
    requires
        s1 <= 253,
        s2 <= 253,
    ensures
        rounding::scaled_round(m1 * m2, 1, s1 + s2 - 149) == rounding::round(
            (m1 * pow2(s1)) * (m2 * pow2(s2)),
            pow2(places()),
        ),
{
    let e = (s1 + s2 - 149 + rounding::scale()) as nat;
    let num = (m1 * pow2(s1)) * (m2 * pow2(s2));
    let c = pow2((rounding::scale() - 149) as nat);
    lemma_pow2_pos((rounding::scale() - 149) as nat);
    lemma_pow2_pos(places());
    lemma_pow2_adds(s1, s2);
    lemma_pow2_adds(s1 + s2, (rounding::scale() - 149) as nat);
    lemma_pow2_adds(places(), (rounding::scale() - 149) as nat);
    assert((m1 * m2) * pow2(e) == num * c) by (nonlinear_arith)
        requires
            pow2(e) == (pow2(s1) * pow2(s2)) * c,
            num == (m1 * pow2(s1)) * (m2 * pow2(s2)),
    ;
    rounding::lemma_round_scaled(num, pow2(places()), c);
}

proof fn lemma_quotient_ratio(m1: nat, s1: nat, m2: nat, s2: nat)
    requires
        s1 <= 253,
        s2 <= 253,
        m2 > 0,
    ensures
        rounding::scaled_round(m1, m2, s1 - s2 + 149) == rounding::round(
            (m1 * pow2(s1)) * pow2(places()),
            m2 * pow2(s2),
        ),
{
    let e = (s1 - s2 + 149 + rounding::scale()) as nat;
    let num = (m1 * pow2(s1)) * pow2(places());
    let den = m2 * pow2(s2);
    let c = pow2((rounding::scale() - s2) as nat);
    lemma_pow2_pos((rounding::scale() - s2) as nat);
    lemma_pow2_pos(s2);
    lemma_product_positive(m2, pow2(s2));
    lemma_pow2_adds(s1, places());
    lemma_pow2_adds(s1 + places(), (rounding::scale() - s2) as nat);
    lemma_pow2_adds(s2, (rounding::scale() - s2) as nat);
    assert(m1 * pow2(e) == num * c) by (nonlinear_arith)
        requires
            pow2(e) == (pow2(s1) * pow2(places())) * c,
            num == (m1 * pow2(s1)) * pow2(places()),
    ;
    assert(m2 * pow2(rounding::scale()) == den * c) by (nonlinear_arith)
        requires
            pow2(rounding::scale()) == pow2(s2) * c,
            den == m2 * pow2(s2),
    ;
    rounding::lemma_round_scaled(num, den, c);
}

/// A number that is tiny beside another is lost in their sum.
proof fn lemma_far_sum(a: Single, b: Single, m1: nat, s1: nat, m2: nat, s2: nat)
    requires
        a.finite(),
        b.finite(),
        m2 < LIMIT,
        HIDDEN <= m1 < LIMIT,
        s2 + 38 < s1 <= 253,
        a.size() == m1 * pow2(s1),
        b.size() == m2 * pow2(s2),
        a.mag() == s1 * HIDDEN + m1,
    ensures
        a.sum(b) == a,
{
    reveal(Single::sum);
    let p = pow2(s2);
    lemma2_to64();
    lemma2_to64_rest();
    lemma_pow2_pos(s2);
    lemma_pow2_adds(26, s2);
    lemma_pow2_strictly_increases(26 + s2, s1);
    assert(4 * b.size() < pow2(s1)) by (nonlinear_arith)
        requires
            b.size() == m2 * p,
            m2 < 0x100_0000,
            pow2(s1) > 0x400_0000 * p,
    ;
    assert(a.size() > b.size()) by (nonlinear_arith)
        requires
            a.size() == m1 * pow2(s1),
            m1 >= 1,
            4 * b.size() < pow2(s1),
    ;
    if a.negative() == b.negative() {
        rounding::lemma_round_near(a.size() + b.size(), m1, s1);
    } else {
        rounding::lemma_round_near((a.size() - b.size()) as nat, m1, s1);
    }
}

proof fn lemma_whole_large(m: nat, s: nat)
    requires
        s >= places(),
    ensures
        (m * pow2(s)) / pow2(places()) == m * pow2((s - places()) as nat),
        (m * pow2(s)) % pow2(places()) == 0,
{
    let k = (s - places()) as nat;
    let q = m * pow2(k);
    let d = pow2(places());
    lemma_pow2_pos(places());
    lemma_pow2_adds(k, places());
    assert(m * pow2(s) == q * d) by (nonlinear_arith)
        requires
            pow2(s) == pow2(k) * d,
            q == m * pow2(k),
    ;
    lemma_fundamental_div_mod_converse((m * pow2(s)) as int, d as int, q as int, 0);
}

proof fn lemma_whole_small(m: nat, s: nat)
    requires
        s < places(),
    ensures
        (m * pow2(s)) / pow2(places()) == m / pow2((places() - s) as nat),
        ((m * pow2(s)) % pow2(places()) == 0) == (m % pow2((places() - s) as nat) == 0),
{
    let k = (places() - s) as nat;
    let d = pow2(k);
    let c = pow2(s);
    lemma_pow2_pos(k);
    lemma_pow2_pos(s);
    lemma_pow2_adds(k, s);
    lemma_fundamental_div_mod(m as int, d as int);
    lemma_mod_bound(m as int, d as int);
    let q = m / d;
    let r = m % d;
    assert(m * c == q * (d * c) + r * c && 0 <= r * c < d * c) by (nonlinear_arith)
        requires
            m == d * q + r,
            0 <= r < d,
            c > 0,
    ;
    assert((r * c == 0) == (r == 0)) by (nonlinear_arith)
        requires
            c > 0,
            r >= 0,
    ;
    lemma_fundamental_div_mod_converse((m * c) as int, (d * c) as int, q as int, (r * c) as int);
}

proof fn lemma_floor_of_negative(n: nat, d: nat)
    requires
        d > 0,
    ensures
        (-(n as int)) / (d as int) == -((n / d) as int) - (if n % d == 0 {
            0int
        } else {
            1
        }),
{
    lemma_fundamental_div_mod(n as int, d as int);
    lemma_mod_bound(n as int, d as int);
    let q = (n / d) as int;
    let r = (n % d) as int;
    if r == 0 {
        assert(-(n as int) == (-q) * (d as int)) by (nonlinear_arith)
            requires
                n == d * q + r,
                r == 0,
        ;
        lemma_fundamental_div_mod_converse(-(n as int), d as int, -q, 0);
    } else {
        assert(-(n as int) == (-q - 1) * (d as int) + (d - r)) by (nonlinear_arith)
            requires
                n == d * q + r,
        ;
        lemma_fundamental_div_mod_converse(-(n as int), d as int, -q - 1, d - r);
    }
}

/// Numbers are ordered by value: the order of the patterns is that of what they stand for.
pub proof fn order_is_by_value(a: Single, b: Single)
    requires
        a.finite(),
        b.finite(),
    ensures
        a.below(b) <==> a.value() < b.value(),
        a.at_most(b) <==> a.value() <= b.value(),
{
    if a.mag() < b.mag() {
        rounding::units_grow(a.mag(), b.mag());
    } else if b.mag() < a.mag() {
        rounding::units_grow(b.mag(), a.mag());
    }
    if a.mag() > 0 {
        rounding::units_grow(0, a.mag());
    }
    if b.mag() > 0 {
        rounding::units_grow(0, b.mag());
    }
}

/// A number that is not negative stays so when no more than itself is taken from it.
pub proof fn difference_stays_positive(a: Single, b: Single)
    requires
        !a.negative(),
        b.finite(),
        b.at_most(a),
    ensures
        !a.difference(b).nan(),
        !a.difference(b).negative(),
{
    reveal(Single::sum);
    let c = b.opposite();
    assert(c.finite());
    if a.finite() {
        order_is_by_value(b, a);
        assert(c.value() == -b.value());
        let v = a.value() - b.value();
        assert(v >= 0);
        assert(rounding::round(v as nat, 1) <= INFINITE);
        if v == 0 && a.mag() == 0 && c.negative() {
        }
    }
}

/// The sum of two numbers that are not negative is not negative either.
pub proof fn sum_stays_positive(a: Single, b: Single)
    requires
        !a.negative(),
        !b.negative(),
        !a.nan(),
        !b.nan(),
    ensures
        !a.sum(b).nan(),
        !a.sum(b).negative(),
{
    reveal(Single::sum);
    if a.finite() && b.finite() {
        assert(rounding::round((a.value() + b.value()) as nat, 1) <= INFINITE);
    }
}

} // verus!
