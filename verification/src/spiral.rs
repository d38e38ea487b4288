//! Where players settle: chunk after chunk along a square spiral.
//!
//! The spiral turns by a quarter after every leg. Its legs come in pairs of equal length, and each
//! pair is one chunk longer than the pair before.
use vstd::prelude::*;

verus! {

/// The coordinate, the same along both axes, at which the first `k` pairs of legs end.
pub open spec fn corner(k: int) -> int {
    if k % 2 == 1 {
        (k + 1) / 2
    } else {
        -(k / 2)
    }
}

/// The shift after `k` steps along a leg of length `m`: every other pair leads back.
pub open spec fn along(m: int, k: int) -> int {
    if m % 2 == 1 {
        k
    } else {
        -k
    }
}

/// The chunk that is reached `r` steps into the pair of legs of length `m`.
pub open spec fn on_pair(m: int, r: int) -> (int, int) {
    let c = corner(m - 1);
    if r <= m {
        (c + along(m, r), c)
    } else {
        (c + along(m, m), c + along(m, r - m))
    }
}

/// Whether the step with number `n` lies on the pair of legs of length `m`.
pub open spec fn pair_has(m: int, n: int) -> bool {
    &&& m > 0
    &&& (m - 1) * m < n <= m * (m + 1)
}

/// The length of the pair of legs on which the step with number `n` lies.
pub open spec fn pair_of(n: int) -> int {
    choose|m: int| pair_has(m, n)
}

/// The chunk at which the spiral is after `n` steps.
pub open spec fn spiral(n: int) -> (int, int) {
    if n == 0 {
        (0, 0)
    } else {
        on_pair(pair_of(n), n - (pair_of(n) - 1) * pair_of(n))
    }
}

proof fn lemma_pair_unique(m: int, n: int)
    requires
        pair_has(m, n),
    ensures
        pair_of(n) == m,
{
    let k = pair_of(n);
    assert(pair_has(k, n));
    if k < m {
        assert(k * (k + 1) <= (m - 1) * m) by (nonlinear_arith)
            requires
                0 < k < m,
        ;
    } else if m < k {
        assert(m * (m + 1) <= (k - 1) * k) by (nonlinear_arith)
            requires
                0 < m < k,
        ;
    }
}

proof fn lemma_pair_exists(n: int, m: int)
    requires
        0 < n,
        0 < m,
        (m - 1) * m < n,
    ensures
        pair_has(pair_of(n), n),
    decreases n - m,
{
    if n <= m * (m + 1) {
        assert(pair_has(m, n));
    } else {
        assert(m * (m + 1) >= m + 1) by (nonlinear_arith)
            requires
                m > 0,
        ;
        assert((m + 1 - 1) * (m + 1) == m * (m + 1));
        lemma_pair_exists(n, m + 1);
    }
}

/// The number of the step that reaches a chunk.
pub open spec fn slot(x: int, y: int) -> int {
    if x == 0 && y == 0 {
        0
    } else if y <= 0 && 1 + y <= x <= 1 - y {
        (-2 * y) * (1 - 2 * y) + (x - y)
    } else if x >= 1 && 2 - x <= y <= x {
        (2 * x - 2) * (2 * x - 1) + (2 * x - 1) + (y + x - 1)
    } else if y >= 1 && -y <= x <= y - 1 {
        (2 * y - 1) * (2 * y) + (y - x)
    } else {
        (-2 * x - 1) * (-2 * x) + (-2 * x) + (-x - y)
    }
}

/// Every chunk is reached: the step with the number `slot` leads to it. So the spiral leaves no
/// chunk out.
pub proof fn spiral_fills_every_chunk(x: int, y: int)
    ensures
        slot(x, y) >= 0,
        spiral(slot(x, y)) == (x, y),
{
    if x == 0 && y == 0 {
    } else {
        let m = if y <= 0 && 1 + y <= x <= 1 - y {
            1 - 2 * y
        } else if x >= 1 && 2 - x <= y <= x {
            2 * x - 1
        } else if y >= 1 && -y <= x <= y - 1 {
            2 * y
        } else {
            -2 * x
        };
        let n = slot(x, y);
        let r = n - (m - 1) * m;
        assert(m > 0);
        assert(0 < r <= 2 * m);
        assert(m * (m + 1) == (m - 1) * m + 2 * m) by (nonlinear_arith);
        assert((m - 1) * m >= 0) by (nonlinear_arith)
            requires
                m > 0,
        ;
        assert(pair_has(m, n));
        lemma_pair_unique(m, n);
        assert(on_pair(m, r) == (x, y));
    }
}

/// No chunk is reached twice: two players never settle in the same one.
pub proof fn spiral_keeps_players_apart(n: int, k: int)
    requires
        n >= 0,
        k >= 0,
        spiral(n) == spiral(k),
    ensures
        n == k,
{
    lemma_slot_of_spiral(n);
    lemma_slot_of_spiral(k);
}

proof fn lemma_slot_of_spiral(n: int)
    requires
        n >= 0,
    ensures
        slot(spiral(n).0, spiral(n).1) == n,
{
    if n > 0 {
        lemma_pair_exists(n, 1);
        let m = pair_of(n);
        let r = n - (m - 1) * m;
        assert(m * (m + 1) == (m - 1) * m + 2 * m) by (nonlinear_arith);
        assert(0 < r <= 2 * m);
        let (x, y) = on_pair(m, r);
        if m % 2 == 1 {
            let a = (m - 1) / 2;
            assert(m == 2 * a + 1);
            if r <= m {
                assert(x == -a + r && y == -a);
                assert((-2 * y) * (1 - 2 * y) == (m - 1) * m);
            } else {
                assert(x == a + 1 && y == -a + r - m);
                assert((2 * x - 2) * (2 * x - 1) == (m - 1) * m);
            }
        } else {
            let a = m / 2;
            assert(m == 2 * a);
            if r <= m {
                assert(x == a - r && y == a);
                assert((2 * y - 1) * (2 * y) == (m - 1) * m);
            } else {
                assert(x == -a && y == a - (r - m));
                assert((-2 * x - 1) * (-2 * x) == (m - 1) * m);
            }
        }
    }
}

/// Players who settle one after the other are neighbours.
pub proof fn spiral_steps_to_a_neighbour(n: int)
    requires
        n >= 0,
    ensures
        ({
            let (x, y) = spiral(n);
            let (u, v) = spiral(n + 1);
            (x == u && (y == v + 1 || v == y + 1)) || (y == v && (x == u + 1 || u == x + 1))
        }),
{
    lemma_pair_exists(n + 1, 1);
    let k = pair_of(n + 1);
    assert(k * (k + 1) == (k - 1) * k + 2 * k) by (nonlinear_arith);
    if n == 0 {
        assert(pair_has(1, 1));
        lemma_pair_unique(1, 1);
    } else {
        lemma_pair_exists(n, 1);
        let m = pair_of(n);
        assert(m * (m + 1) == (m - 1) * m + 2 * m) by (nonlinear_arith);
        if n + 1 <= m * (m + 1) {
            assert(pair_has(m, n + 1));
            lemma_pair_unique(m, n + 1);
        } else {
            assert((m + 1) * (m + 2) > m * (m + 1)) by (nonlinear_arith)
                requires
                    m > 0,
            ;
            assert((m + 1 - 1) * (m + 1) == m * (m + 1));
            assert(pair_has(m + 1, n + 1));
            lemma_pair_unique(m + 1, n + 1);
            assert(n - (m - 1) * m == 2 * m);
            assert(n + 1 - (m + 1 - 1) * (m + 1) == 1);
            assert(on_pair(m, 2 * m) == (corner(m), corner(m)));
        }
    }
}

/// The spiral stays near its middle: `n` steps lead no further than a pair of legs is long, and
/// the pairs grow with the square root of `n` only.
pub proof fn spiral_stays_near(n: int)
    requires
        0 <= n <= i32::MAX,
    ensures
        -25000 < spiral(n).0 < 25000,
        -25000 < spiral(n).1 < 25000,
{
    if n > 0 {
        lemma_pair_exists(n, 1);
        let m = pair_of(n);
        assert(m * (m + 1) == (m - 1) * m + 2 * m) by (nonlinear_arith);
        if m >= 49999 {
            assert((m - 1) * m >= 49998 * 49999) by (nonlinear_arith)
                requires
                    m >= 49999,
            ;
        }
    }
}

/// The chunk at which the spiral is after `n` steps.
pub fn assign_next_position(n: i32) -> (r: (i32, i32))
    requires
        n >= 0,
    ensures
        (r.0 as int, r.1 as int) == spiral(n as int),
{
    if n == 0 {
        return (0, 0);
    }
    let mut x: i32 = 0;
    let mut y: i32 = 0;
    let mut d: i32 = 1;
    let mut m: i32 = 1;
    let mut count: i32 = 0;
    loop
        invariant
            0 < m < 50000,
            count == (m - 1) * m,
            count < n,
            x == corner(m - 1),
            y == corner(m - 1),
            d == along(m as int, 1),
        decreases n - count,
    {
        assert(m * (m + 1) == (m - 1) * m + 2 * m) by (nonlinear_arith);
        let mut i: i32 = 0;
        while i < m
            invariant
                0 <= i <= m,
                0 < m < 50000,
                m * (m + 1) == (m - 1) * m + 2 * m,
                count == (m - 1) * m + i,
                count < n,
                x == corner(m - 1) + along(m as int, i as int),
                y == corner(m - 1),
                d == along(m as int, 1),
            decreases m - i,
        {
            x = x + d;
            count = count + 1;
            i = i + 1;
            if count == n {
                proof {
                    assert(pair_has(m as int, n as int));
                    lemma_pair_unique(m as int, n as int);
                }
                return (x, y);
            }
        }
        i = 0;
        while i < m
            invariant
                0 <= i <= m,
                0 < m < 50000,
                m * (m + 1) == (m - 1) * m + 2 * m,
                count == (m - 1) * m + m + i,
                count < n,
                x == corner(m - 1) + along(m as int, m as int),
                y == corner(m - 1) + along(m as int, i as int),
                d == along(m as int, 1),
            decreases m - i,
        {
            y = y + d;
            count = count + 1;
            i = i + 1;
            if count == n {
                proof {
                    assert(pair_has(m as int, n as int));
                    lemma_pair_unique(m as int, n as int);
                }
                return (x, y);
            }
        }
        assert(m < 49999) by {
            if m >= 49999 {
                assert(m * (m + 1) >= 49999 * 50000) by (nonlinear_arith)
                    requires
                        m >= 49999,
                ;
            }
        }
        d = -d;
        m = m + 1;
    }
}

} // verus!
