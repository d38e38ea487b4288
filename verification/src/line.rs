//! Straight lines on a grid, drawn with whole numbers alone.
use vstd::arithmetic::div_mod::*;
use vstd::prelude::*;

verus! {

/// The distance between two coordinates.
pub open spec fn span(a: int, b: int) -> int {
    if a < b {
        b - a
    } else {
        a - b
    }
}

/// The coordinate that lies `i` steps from `a` towards `b`.
pub open spec fn toward(a: int, b: int, i: int) -> int {
    if a < b {
        a + i
    } else {
        a - i
    }
}

/// How many steps the shorter side has made once the longer one has made `k`: its share, rounded
/// to the nearest whole number. A share of one half counts in full if `bias` is 0 and not at all
/// if it is 1.
pub open spec fn share(k: int, long: int, short: int, bias: int) -> int {
    if long == 0 {
        0
    } else {
        (2 * (k * short) + long - bias) / (2 * long)
    }
}

/// The number of steps from one end of a line to the other.
pub open spec fn line_steps(a: (int, int), b: (int, int)) -> int {
    let d = span(a.0, b.0);
    let e = span(a.1, b.1);
    if d < e {
        e
    } else {
        d
    }
}

/// The point of a line after `k` steps.
pub open spec fn line_point(a: (int, int), b: (int, int), bias: int, k: int) -> (int, int) {
    let d = span(a.0, b.0);
    let e = span(a.1, b.1);
    if d >= e {
        (toward(a.0, b.0, k), toward(a.1, b.1, share(k, d, e, bias)))
    } else {
        (toward(a.0, b.0, share(k, e, d, bias)), toward(a.1, b.1, k))
    }
}

/// A pen on its way along a line.
pub struct Pen {
    pub from: (i32, i32),
    pub to: (i32, i32),
    pub bias: i64,
    pub x: i64,
    pub y: i64,
    pub err: i64,
    pub steps: i64,
}

/// What the error term of a line holds: by how much the point lies off the line.
spec fn off(d: int, e: int, i: int, j: int) -> int {
    j * d - i * e
}

spec fn near_line(long: int, bias: int, c: int) -> bool {
    -long + 1 - bias <= 2 * c <= long - bias
}

proof fn lemma_share(k: int, long: int, short: int, bias: int, j: int)
    requires
        long > 0,
        near_line(long, bias, j * long - k * short),
    ensures
        share(k, long, short, bias) == j,
{
    let n = 2 * (k * short) + long - bias;
    let r = n - j * (2 * long);
    assert(j * (2 * long) == 2 * (j * long)) by (nonlinear_arith);
    lemma_fundamental_div_mod_converse(n, 2 * long, j, r);
}

proof fn lemma_share_bounded(k: int, long: int, short: int, bias: int)
    requires
        0 <= k <= long,
        0 <= short <= long,
        0 <= bias <= 1,
        0 < long,
    ensures
        0 <= share(k, long, short, bias) <= short,
        k == long ==> share(k, long, short, bias) == short,
        near_line(long, bias, share(k, long, short, bias) * long - k * short),
        k == 0 ==> share(k, long, short, bias) == 0,
{
    let n = 2 * (k * short) + long - bias;
    let j = n / (2 * long);
    lemma_fundamental_div_mod(n, 2 * long);
    lemma_mod_bound(n, 2 * long);
    assert((2 * long) * j == 2 * (j * long)) by (nonlinear_arith);
    assert(0 <= k * short <= long * short) by (nonlinear_arith)
        requires
            0 <= k <= long,
            0 <= short,
    ;
    if j < 0 {
        assert(2 * (j * long) <= -2 * long) by (nonlinear_arith)
            requires
                j <= -1,
                long > 0,
        ;
    }
    if j > short {
        assert(2 * (j * long) >= 2 * (long * short) + 2 * long) by (nonlinear_arith)
            requires
                j >= short + 1,
                long > 0,
        ;
    }
    if k == long {
        if j < short {
            assert(2 * (j * long) <= 2 * (long * short) - 2 * long) by (nonlinear_arith)
                requires
                    j <= short - 1,
                    long > 0,
            ;
        }
    }
    if k == 0 {
        assert(0 * short == 0);
        if j > 0 {
            assert(2 * (j * long) >= 2 * long) by (nonlinear_arith)
                requires
                    j >= 1,
                    long > 0,
            ;
        }
    }
}

impl Pen {
    /// The tile where the line starts.
    pub open spec fn start(self) -> (int, int) {
        (self.from.0 as int, self.from.1 as int)
    }

    /// The tile where the line ends.
    pub open spec fn end(self) -> (int, int) {
        (self.to.0 as int, self.to.1 as int)
    }

    spec fn dx(self) -> int {
        span(self.start().0, self.end().0)
    }

    spec fn dy(self) -> int {
        span(self.start().1, self.end().1)
    }

    /// Whether the pen is on its line, after as many steps as it has counted.
    pub closed spec fn wf(self) -> bool {
        let d = self.dx();
        let e = self.dy();
        let i = span(self.start().0, self.x as int);
        let j = span(self.start().1, self.y as int);
        &&& self.bias == 0 || self.bias == 1
        &&& 0 <= self.steps <= line_steps(self.start(), self.end())
        &&& (self.x as int, self.y as int) == line_point(
            self.start(),
            self.end(),
            self.bias as int,
            self.steps as int,
        )
        &&& 0 <= i <= d
        &&& 0 <= j <= e
        &&& (self.x as int, self.y as int) == (
            toward(self.start().0, self.end().0, i),
            toward(self.start().1, self.end().1, j),
        )
        &&& self.err == off(d, e, i, j) + d - e
    }

    /// Where the pen is.
    pub open spec fn at(self) -> (int, int) {
        (self.x as int, self.y as int)
    }

    /// A pen at the start of a line.
    pub fn new(from: (i32, i32), to: (i32, i32), bias: i64) -> (pen: Pen)
        requires
            bias == 0 || bias == 1,
        ensures
            pen.wf(),
            pen.start() == (from.0 as int, from.1 as int),
            pen.end() == (to.0 as int, to.1 as int),
            pen.bias == bias,
            pen.steps == 0,
            pen.at() == line_point(pen.start(), pen.end(), bias as int, 0),
    {
        let dx: i64 = if from.0 < to.0 { to.0 as i64 - from.0 as i64 } else {
            from.0 as i64 - to.0 as i64
        };
        let dy: i64 = if from.1 < to.1 { to.1 as i64 - from.1 as i64 } else {
            from.1 as i64 - to.1 as i64
        };
        let pen = Pen {
            from,
            to,
            bias,
            x: from.0 as i64,
            y: from.1 as i64,
            err: dx - dy,
            steps: 0,
        };
        proof {
            assert(0 * dx == 0 && 0 * dy == 0);
            if dx >= dy && dx > 0 {
                lemma_share_bounded(0, dx as int, dy as int, bias as int);
            } else if dx < dy {
                lemma_share_bounded(0, dy as int, dx as int, bias as int);
            }
        }
        pen
    }

    /// Whether the pen has reached the end of its line.
    pub fn done(&self) -> (r: bool)
        requires
            self.wf(),
        ensures
            r == (self.steps == line_steps(self.start(), self.end())),
            r == (self.at() == self.end()),
    {
        proof {
            let d = self.dx();
            let e = self.dy();
            if d >= e && d > 0 {
                lemma_share_bounded(self.steps as int, d, e, self.bias as int);
            } else if d < e {
                lemma_share_bounded(self.steps as int, e, d, self.bias as int);
            }
        }
        self.x == self.to.0 as i64 && self.y == self.to.1 as i64
    }

    /// Moves the pen on by one step.
    pub fn advance(&mut self)
        requires
            old(self).wf(),
            old(self).steps < line_steps(old(self).start(), old(self).end()),
        ensures
            final(self).wf(),
            final(self).start() == old(self).start(),
            final(self).end() == old(self).end(),
            final(self).bias == old(self).bias,
            final(self).steps == old(self).steps + 1,
            final(self).at() == line_point(
                old(self).start(),
                old(self).end(),
                old(self).bias as int,
                old(self).steps + 1,
            ),
    {
        let ghost d = self.dx();
        let ghost e = self.dy();
        let ghost i = span(self.start().0, self.x as int);
        let ghost j = span(self.start().1, self.y as int);
        let ghost b = self.bias as int;
        let ghost k = self.steps as int;
        let ghost c = off(d, e, i, j);
        let dx: i64 = if self.from.0 < self.to.0 { self.to.0 as i64 - self.from.0 as i64 } else {
            self.from.0 as i64 - self.to.0 as i64
        };
        let dy: i64 = if self.from.1 < self.to.1 { self.to.1 as i64 - self.from.1 as i64 } else {
            self.from.1 as i64 - self.to.1 as i64
        };
        proof {
            if d >= e {
                lemma_share_bounded(k, d, e, b);
                assert(i == k);
                assert(j == share(k, d, e, b));
                assert(near_line(d, b, c));
                if d == e {
                    assert(c == (j - i) * d) by (nonlinear_arith)
                        requires
                            c == j * d - i * e,
                            d == e,
                    ;
                    assert(j == i) by (nonlinear_arith)
                        requires
                            c == (j - i) * d,
                            -d <= 2 * c <= d,
                            d > 0,
                    ;
                    assert(0 * d == 0);
                }
            } else {
                lemma_share_bounded(k, e, d, b);
                assert(j == k);
                assert(i == share(k, e, d, b));
                assert(near_line(e, b, -c));
            }
        }
        let e2: i64 = 2 * self.err;
        let sideways: bool = e2 + dy >= self.bias;
        let upright: bool = e2 - dx <= -self.bias;
        if sideways {
            self.err = self.err - dy;
            self.x = if self.from.0 < self.to.0 { self.x + 1 } else { self.x - 1 };
        }
        if upright {
            self.err = self.err + dx;
            self.y = if self.from.1 < self.to.1 { self.y + 1 } else { self.y - 1 };
        }
        self.steps = self.steps + 1;
        proof {
            let i2 = if sideways {
                i + 1
            } else {
                i
            };
            let j2 = if upright {
                j + 1
            } else {
                j
            };
            let c2 = off(d, e, i2, j2);
            assert((j + 1) * d == j * d + d) by (nonlinear_arith);
            assert((i + 1) * e == i * e + e) by (nonlinear_arith);
            if d >= e {
                assert(sideways);
                assert(near_line(d, b, c2));
                lemma_share(k + 1, d, e, b, j2);
                lemma_share_bounded(k + 1, d, e, b);
            } else {
                assert(upright);
                assert(near_line(e, b, -c2));
                lemma_share(k + 1, e, d, b, i2);
                lemma_share_bounded(k + 1, e, d, b);
            }
        }
    }
}

/// A line begins at its first end and stops at the other.
pub proof fn line_joins_its_ends(a: (int, int), b: (int, int), bias: int)
    requires
        bias == 0 || bias == 1,
    ensures
        line_point(a, b, bias, 0) == a,
        line_point(a, b, bias, line_steps(a, b)) == b,
{
    let d = span(a.0, b.0);
    let e = span(a.1, b.1);
    if d >= e {
        if d > 0 {
            lemma_share_bounded(0, d, e, bias);
            lemma_share_bounded(d, d, e, bias);
        }
    } else {
        lemma_share_bounded(0, e, d, bias);
        lemma_share_bounded(e, e, d, bias);
    }
}

proof fn lemma_share_grows(k: int, long: int, short: int, bias: int)
    requires
        0 <= k < long,
        0 <= short <= long,
        0 <= bias <= 1,
    ensures
        share(k, long, short, bias) <= share(k + 1, long, short, bias) <= share(
            k,
            long,
            short,
            bias,
        ) + 1,
{
    lemma_share_bounded(k, long, short, bias);
    lemma_share_bounded(k + 1, long, short, bias);
    let j = share(k, long, short, bias);
    let l = share(k + 1, long, short, bias);
    assert((k + 1) * short == k * short + short) by (nonlinear_arith);
    if l > j + 1 {
        assert(l * long >= j * long + 2 * long) by (nonlinear_arith)
            requires
                l >= j + 2,
                long > 0,
        ;
    }
    if l < j {
        assert(l * long <= j * long - long) by (nonlinear_arith)
            requires
                l <= j - 1,
                long > 0,
        ;
    }
}

/// A line has no gaps: each point of it touches the next, if only at a corner.
pub proof fn line_has_no_gaps(a: (int, int), b: (int, int), bias: int, k: int)
    requires
        bias == 0 || bias == 1,
        0 <= k < line_steps(a, b),
    ensures
        span(line_point(a, b, bias, k).0, line_point(a, b, bias, k + 1).0) <= 1,
        span(line_point(a, b, bias, k).1, line_point(a, b, bias, k + 1).1) <= 1,
        line_point(a, b, bias, k) != line_point(a, b, bias, k + 1),
{
    let d = span(a.0, b.0);
    let e = span(a.1, b.1);
    if d >= e {
        lemma_share_grows(k, d, e, bias);
    } else {
        lemma_share_grows(k, e, d, bias);
    }
}

/// Whether a number lies between two others or on one of them.
pub open spec fn amid(a: int, b: int, x: int) -> bool {
    a <= x <= b || b <= x <= a
}

/// A line stays between its ends.
pub proof fn line_stays_between_its_ends(a: (int, int), b: (int, int), bias: int, k: int)
    requires
        bias == 0 || bias == 1,
        0 <= k <= line_steps(a, b),
    ensures
        amid(a.0, b.0, line_point(a, b, bias, k).0),
        amid(a.1, b.1, line_point(a, b, bias, k).1),
{
    let d = span(a.0, b.0);
    let e = span(a.1, b.1);
    if d >= e {
        if d > 0 {
            lemma_share_bounded(k, d, e, bias);
        }
    } else {
        lemma_share_bounded(k, e, d, bias);
    }
}

/// A line stays as near to the straight one as points can: the longer side is walked step by step,
/// and along the other no point is further off than half a step.
pub proof fn line_stays_straight(a: (int, int), b: (int, int), bias: int, k: int)
    requires
        bias == 0 || bias == 1,
        0 <= k <= line_steps(a, b),
    ensures
        ({
            let p = line_point(a, b, bias, k);
            let d = b.0 - a.0;
            let e = b.1 - a.1;
            let i = p.0 - a.0;
            let j = p.1 - a.1;
            let long = line_steps(a, b);
            &&& -long <= 2 * (j * d - i * e) <= long
            &&& d >= e && d >= -e || -d >= e && -d >= -e ==> i == k || i == -k
            &&& !(d >= e && d >= -e || -d >= e && -d >= -e) ==> j == k || j == -k
        }),
{
    let d = span(a.0, b.0);
    let e = span(a.1, b.1);
    let p = line_point(a, b, bias, k);
    if d >= e {
        if d > 0 {
            lemma_share_bounded(k, d, e, bias);
            let s = share(k, d, e, bias);
            lemma_signs(b.0 - a.0, b.1 - a.1, p.0 - a.0, p.1 - a.1, d, e, k, s);
        }
    } else {
        lemma_share_bounded(k, e, d, bias);
        let s = share(k, e, d, bias);
        lemma_signs(b.0 - a.0, b.1 - a.1, p.0 - a.0, p.1 - a.1, d, e, s, k);
    }
}

proof fn lemma_signs(x: int, y: int, i: int, j: int, d: int, e: int, m: int, n: int)
    requires
        x == d && i == m || x == -d && i == -m,
        y == e && j == n || y == -e && j == -n,
    ensures
        j * x - i * y == n * d - m * e || j * x - i * y == -(n * d - m * e),
{
    assert((-n) * d == -(n * d) && n * (-d) == -(n * d) && (-n) * (-d) == n * d) by (nonlinear_arith);
    assert((-m) * e == -(m * e) && m * (-e) == -(m * e) && (-m) * (-e) == m * e) by (nonlinear_arith);
}

} // verus!
