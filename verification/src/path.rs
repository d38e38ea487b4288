//! Ways across the land: a search for a shortest walk from tile to tile.
use crate::frontier::{Frontier, Node};
use crate::space;
use crate::space::{tile_containing, tile_middle, Point};
use crate::terrain::{Land, LandView};
use crate::tile_map::{Tile, TileMap};
use vstd::multiset::Multiset;
use crate::terrain;
use crate::terrain::TileType;
use vstd::prelude::*;

verus! {

/// After this many nodes the search gives up.
pub const MAX_STEPS: u32 = 15000;

/// Whether two coordinates differ by one at most.
pub open spec fn close(a: i32, b: i32) -> bool {
    -1 <= b - a <= 1
}

/// Whether a unit can step from `a` to `b`: `b` is one of the eight tiles around `a`, it is
/// walkable, and a diagonal step cuts no corner.
pub open spec fn step_ok(land: LandView, a: Tile, b: Tile) -> bool {
    &&& close(a.0, b.0)
    &&& close(a.1, b.1)
    &&& a != b
    &&& land.walkable(b)
    &&& a.0 != b.0 && a.1 != b.1 ==> land.walkable((b.0, a.1)) && land.walkable((a.0, b.1))
}

/// Whether each tile of `w` but the first can be stepped to from the one before it.
pub open spec fn is_walk(land: LandView, w: Seq<Tile>) -> bool {
    &&& w.len() > 0
    &&& forall|i: int| 0 <= i < w.len() - 1 ==> step_ok(land, #[trigger] w[i], w[i + 1])
}

/// Whether `w` is a walk from `a` to `b`.
pub open spec fn walk_between(land: LandView, w: Seq<Tile>, a: Tile, b: Tile) -> bool {
    is_walk(land, w) && w[0] == a && w.last() == b
}

/// Whether there is a walk from `a` to `b`.
pub open spec fn reachable(land: LandView, a: Tile, b: Tile) -> bool {
    exists|w: Seq<Tile>| walk_between(land, w, a, b)
}

/// Whether `w` is a walk from `a` to `b` than which none is shorter.
pub open spec fn shortest_walk(land: LandView, w: Seq<Tile>, a: Tile, b: Tile) -> bool {
    &&& walk_between(land, w, a, b)
    &&& forall|other: Seq<Tile>| #[trigger]
        walk_between(land, other, a, b) ==> w.len() <= other.len()
}

/// Whether more than `n` tiles can be reached from `a`.
pub open spec fn wide_open(land: LandView, a: Tile, n: int) -> bool {
    exists|seen: Set<Tile>|
        {
            &&& #[trigger] seen.finite()
            &&& seen.len() > n
            &&& forall|t: Tile| #[trigger] seen.contains(t) ==> reachable(land, a, t)
        }
}

/// Whether the tile can be walked to in so few steps that a walk of `len` steps from `a` to `b`
/// might lead over it.
pub open spec fn on_the_way(land: LandView, a: Tile, b: Tile, len: int, t: Tile) -> bool {
    exists|v: Seq<Tile>| #[trigger]
        walk_between(land, v, a, t) && v.len() - 1 + distance(t, b) <= len
}

/// Whether a walk of `len` steps from `a` to `b` might lead over more than `n` tiles.
pub open spec fn crowded(land: LandView, a: Tile, b: Tile, len: int, n: int) -> bool {
    exists|seen: Set<Tile>|
        {
            &&& #[trigger] seen.finite()
            &&& seen.len() > n
            &&& forall|t: Tile| #[trigger] seen.contains(t) ==> on_the_way(land, a, b, len, t)
        }
}

/// Whether even the shortest walk from `a` to `b` might lead over more than five thousand tiles.
/// Only then may a search give up: it takes no tile more than three times.
pub open spec fn far_off(land: LandView, a: Tile, b: Tile) -> bool {
    forall|w: Seq<Tile>| #[trigger]
        walk_between(land, w, a, b) ==> crowded(land, a, b, w.len() - 1, 5000)
}

/// Whether the search for a shortest walk of `len` steps from `a` to `b` must give up. It takes every
/// tile over which a shorter walk might lead before it takes `b`, and it takes fifteen thousand nodes
/// at most.
pub open spec fn too_crowded(land: LandView, a: Tile, b: Tile, len: int) -> bool {
    crowded(land, a, b, len - 1, 14999)
}

/// What a search comes to.
pub enum Search {
    /// The steps of the walk that was found, the last one first.
    Found(Vec<Tile>),
    /// There is no walk.
    NoWay,
    /// The search gave up.
    GaveUp,
}

/// The steps that are needed at least: the larger of the two distances.
pub open spec fn distance(a: Tile, b: Tile) -> int {
    let dx = if a.0 < b.0 {
        b.0 - a.0
    } else {
        a.0 - b.0
    };
    let dy = if a.1 < b.1 {
        b.1 - a.1
    } else {
        a.1 - b.1
    };
    if dx < dy {
        dy
    } else {
        dx
    }
}

fn distance_between(a: Tile, b: Tile) -> (d: u64)
    ensures
        d == distance(a, b),
        d < 0x1_0000_0000,
{
    let dx: i64 = if a.0 < b.0 { b.0 as i64 - a.0 as i64 } else { a.0 as i64 - b.0 as i64 };
    let dy: i64 = if a.1 < b.1 { b.1 as i64 - a.1 as i64 } else { a.1 as i64 - b.1 as i64 };
    if dx < dy {
        dy as u64
    } else {
        dx as u64
    }
}

/// The cost by which a tile is put in the frontier, once it is known to be `c` steps away.
spec fn priority(start: Tile, goal: Tile, t: Tile, c: u64) -> int {
    if t == start {
        0
    } else {
        c + distance(t, goal)
    }
}

/// What is known in the midst of a search.
#[verifier::ext_equal]
struct Known {
    cost: Map<Tile, u64>,
    from: Map<Tile, Tile>,
    frontier: Multiset<Node>,
    /// No tile in the frontier costs less.
    level: int,
    /// A lower bound of the cost that each tile can ever get.
    base: Map<Tile, int>,
    /// The nodes that were taken out of the frontier.
    seen: Set<Node>,
    /// Whether the start has been taken out of the frontier.
    begun: bool,
}

impl Known {
    /// Whether every step from `t` leads to a tile that is known to be one step further at most.
    spec fn settled(self, land: LandView, t: Tile) -> bool {
        forall|b: Tile| #[trigger]
            step_ok(land, t, b) ==> self.cost.contains_key(b) && self.cost[b] <= self.cost[t] + 1
    }

    /// Whether `t` waits in the frontier at its present cost.
    spec fn waiting(self, start: Tile, goal: Tile, t: Tile) -> bool {
        exists|n: Node| #[trigger]
            self.frontier.contains(n) && n.pos == t && n.cost == priority(
                start,
                goal,
                t,
                self.cost[t],
            )
    }

    spec fn came_from_ok(self, land: LandView, start: Tile, t: Tile) -> bool {
        &&& self.from.contains_key(t)
        &&& t != start ==> {
            &&& self.cost.contains_key(self.from[t])
            &&& self.cost[self.from[t]] < self.cost[t]
            &&& step_ok(land, self.from[t], t)
        }
    }

    spec fn bounded(self, goal: Tile, t: Tile) -> bool {
        &&& self.base.contains_key(t)
        &&& self.base[t] <= self.cost[t] <= self.base[t] + 2
        &&& self.base[t] + distance(t, goal) <= self.level
    }

    /// The least cost of a node that stands for the tile.
    spec fn low(self, start: Tile, goal: Tile, t: Tile) -> int {
        if t == start {
            0
        } else {
            self.base[t] + distance(t, goal)
        }
    }

    /// Whether the node stands for a known tile, at one of the few costs that the tile can have.
    spec fn node_ok(self, start: Tile, goal: Tile, n: Node) -> bool {
        &&& self.cost.contains_key(n.pos)
        &&& n.cost >= priority(start, goal, n.pos, self.cost[n.pos])
        &&& n.cost <= self.low(start, goal, n.pos) + 2
        &&& n.pos == start ==> n.cost == 0
    }

    spec fn in_frontier_ok(self, start: Tile, goal: Tile, n: Node) -> bool {
        &&& self.node_ok(start, goal, n)
        &&& n.pos == start ==> !self.begun
        &&& n.pos != start ==> n.cost >= self.level
    }

    spec fn seen_ok(self, start: Tile, goal: Tile, n: Node) -> bool {
        &&& self.node_ok(start, goal, n)
        &&& n.cost <= self.level
        &&& !self.frontier.contains(n)
    }

    /// What holds of the tiles and of the frontier at every moment.
    spec fn tiles_ok(self, land: LandView, start: Tile, goal: Tile) -> bool {
        &&& self.cost.contains_key(start)
        &&& self.cost[start] == 0
        &&& forall|t: Tile| #[trigger]
            self.cost.contains_key(t) ==> self.came_from_ok(land, start, t) && self.bounded(goal, t)
        &&& forall|n: Node| #[trigger]
            self.frontier.contains(n) ==> self.in_frontier_ok(start, goal, n)
    }

    /// What holds of the nodes at every moment: none is ever put in the frontier twice.
    spec fn nodes_ok(self, start: Tile, goal: Tile) -> bool {
        &&& self.seen.finite()
        &&& self.level >= 0
        &&& forall|n: Node| #[trigger] self.frontier.count(n) <= 1
        &&& forall|n: Node| #[trigger] self.seen.contains(n) ==> self.seen_ok(start, goal, n)
    }

    /// What holds between two nodes, with `busy` the tile whose neighbours are being looked at.
    spec fn settled_or_waiting(self, land: LandView, start: Tile, goal: Tile, busy: Option<Tile>) -> bool {
        forall|t: Tile| #[trigger]
            self.cost.contains_key(t) && Some(t) != busy ==> self.settled(land, t) || self.waiting(
                start,
                goal,
                t,
            )
    }

    /// Whether the tile has been taken out of the frontier.
    spec fn taken(self, t: Tile) -> bool {
        exists|n: Node| #[trigger] self.seen.contains(n) && n.pos == t
    }

    /// Whether every known tile was taken out of the frontier or waits in it.
    spec fn taken_or_waiting(self, start: Tile, goal: Tile) -> bool {
        forall|t: Tile| #[trigger]
            self.cost.contains_key(t) ==> self.taken(t) || self.waiting(start, goal, t)
    }

    #[verifier::opaque]
    spec fn ok(self, land: LandView, start: Tile, goal: Tile) -> bool {
        &&& self.tiles_ok(land, start, goal)
        &&& self.nodes_ok(start, goal)
        &&& self.settled_or_waiting(land, start, goal, None)
        &&& self.taken_or_waiting(start, goal)
        &&& self.cost.contains_key(goal) ==> self.waiting(start, goal, goal)
        &&& !self.begun ==> {
            &&& self.frontier == Multiset::singleton(Node { cost: 0, pos: start })
            &&& self.level == distance(start, goal)
        }
    }

    /// The search before its first step.
    spec fn initial(start: Tile, goal: Tile) -> Known {
        Known {
            cost: Map::empty().insert(start, 0),
            from: Map::empty().insert(start, start),
            frontier: Multiset::singleton(Node { cost: 0, pos: start }),
            level: distance(start, goal),
            base: Map::empty().insert(start, 0),
            seen: Set::empty(),
            begun: false,
        }
    }

    /// The search once the node `n` is taken out of the frontier.
    spec fn popped(self, start: Tile, n: Node) -> Known {
        Known {
            frontier: self.frontier.remove(n),
            level: if n.pos == start {
                self.level
            } else {
                n.cost as int
            },
            seen: self.seen.insert(n),
            begun: true,
            ..self
        }
    }

    /// The search once the tile `t` is found to be `c` steps away, by way of `cur`.
    spec fn improved(self, goal: Tile, cur: Tile, t: Tile, c: u64) -> Known {
        Known {
            cost: self.cost.insert(t, c),
            from: self.from.insert(t, cur),
            frontier: self.frontier.insert(Node { cost: (c + distance(t, goal)) as u64, pos: t }),
            base: if self.cost.contains_key(t) {
                self.base
            } else {
                self.base.insert(t, self.level - distance(t, goal))
            },
            ..self
        }
    }

    spec fn costs_at_most(self, c: int) -> bool {
        forall|t: Tile| #[trigger] self.cost.contains_key(t) ==> self.cost[t] <= c
    }

    /// What holds while the neighbours of `cur` are being looked at: as far as `seen` goes, each is
    /// known to be one step further at most. Either `cur` costs what it was taken out for, or its
    /// neighbours were all looked at before.
    #[verifier::opaque]
    spec fn expanding(self, land: LandView, start: Tile, goal: Tile, cur: Tile) -> bool {
        &&& self.tiles_ok(land, start, goal)
        &&& self.nodes_ok(start, goal)
        &&& self.settled_or_waiting(land, start, goal, Some(cur))
        &&& self.taken_or_waiting(start, goal)
        &&& self.cost.contains_key(goal) ==> self.waiting(start, goal, goal)
        &&& self.begun
        &&& cur != goal
        &&& self.cost.contains_key(cur)
        &&& self.settled(land, cur) || self.level == self.cost[cur] + distance(cur, goal)
    }
}

proof fn lemma_initial(land: LandView, start: Tile, goal: Tile)
    requires
        start != goal,
    ensures
        Known::initial(start, goal).ok(land, start, goal),
        Known::initial(start, goal).costs_at_most(0),
{
    reveal(Known::ok);
    let k = Known::initial(start, goal);
    let n = Node { cost: 0, pos: start };
    assert(k.frontier.contains(n));
    assert(k.waiting(start, goal, start));
    assert(k.level >= 0);
}

proof fn lemma_popped(k: Known, land: LandView, start: Tile, goal: Tile, n: Node)
    requires
        k.ok(land, start, goal),
        k.frontier.contains(n),
        forall|m: Node| #[trigger] k.frontier.contains(m) ==> n.cost <= m.cost,
        n.pos != goal,
    ensures
        k.popped(start, n).expanding(land, start, goal, n.pos),
        k.popped(start, n).seen.len() == k.seen.len() + 1,
        k.cost.contains_key(n.pos),
{
    reveal(Known::ok);
    reveal(Known::expanding);
    let r = k.popped(start, n);
    assert(k.in_frontier_ok(start, goal, n));
    assert(k.bounded(goal, n.pos));
    assert forall|t: Tile| k.waiting(start, goal, t) && t != n.pos implies r.waiting(
        start,
        goal,
        t,
    ) by {
        let m = choose|m: Node| #[trigger]
            k.frontier.contains(m) && m.pos == t && m.cost == priority(start, goal, t, k.cost[t]);
        assert(r.frontier.contains(m));
    }
    assert forall|m: Node| #[trigger] r.frontier.contains(m) implies r.in_frontier_ok(
        start,
        goal,
        m,
    ) by {
        assert(k.frontier.contains(m));
        assert(k.in_frontier_ok(start, goal, m));
        if !k.begun {
            assert(m == n);
        }
    }
    assert forall|t: Tile| #[trigger] r.cost.contains_key(t) implies r.came_from_ok(land, start, t)
        && r.bounded(goal, t) by {
        assert(k.came_from_ok(land, start, t) && k.bounded(goal, t));
    }
    assert forall|m: Node| #[trigger] r.frontier.count(m) <= 1 by {
        assert(k.frontier.count(m) <= 1);
    }
    assert(k.frontier.count(n) == 1);
    assert forall|m: Node| #[trigger] r.seen.contains(m) implies r.seen_ok(start, goal, m) by {
        if m != n {
            assert(k.seen.contains(m));
            assert(k.seen_ok(start, goal, m));
            assert(!k.frontier.contains(m));
        }
    }
    assert forall|t: Tile| #[trigger]
        r.cost.contains_key(t) && Some(t) != Some(n.pos) implies r.settled(land, t) || r.waiting(
        start,
        goal,
        t,
    ) by {
        if k.settled(land, t) {
            assert(r.settled(land, t));
        }
    }
    assert(r.seen.contains(n));
    assert forall|t: Tile| #[trigger] r.cost.contains_key(t) implies r.taken(t) || r.waiting(
        start,
        goal,
        t,
    ) by {
        if k.taken(t) {
            let m = choose|m: Node| #[trigger] k.seen.contains(m) && m.pos == t;
            assert(r.seen.contains(m));
        }
    }
    if k.settled(land, n.pos) {
        assert(r.settled(land, n.pos));
    } else {
        assert(k.waiting(start, goal, n.pos));
        let m = choose|m: Node| #[trigger]
            k.frontier.contains(m) && m.pos == n.pos && m.cost == priority(
                start,
                goal,
                n.pos,
                k.cost[n.pos],
            );
        assert(n.cost <= m.cost);
        if n.pos == start {
            assert(!k.begun);
        }
    }
}

proof fn lemma_improved_nodes(k: Known, start: Tile, goal: Tile, cur: Tile, t: Tile, c: u64)
    requires
        k.nodes_ok(start, goal),
        forall|n: Node| #[trigger] k.frontier.contains(n) ==> k.node_ok(start, goal, n),
        k.cost.contains_key(t) ==> c < k.cost[t],
        t != start,
        c + distance(t, goal) <= u64::MAX,
    ensures
        k.improved(goal, cur, t, c).nodes_ok(start, goal),
{
    let r = k.improved(goal, cur, t, c);
    let n = Node { cost: (c + distance(t, goal)) as u64, pos: t };
    if k.frontier.contains(n) {
        assert(k.node_ok(start, goal, n));
    }
    if k.seen.contains(n) {
        assert(k.seen_ok(start, goal, n));
    }
    assert forall|m: Node| #[trigger] r.frontier.count(m) <= 1 by {
        assert(k.frontier.count(m) <= 1);
    }
    assert forall|m: Node| #[trigger] r.seen.contains(m) implies r.seen_ok(start, goal, m) by {
        assert(k.seen_ok(start, goal, m));
    }
}

proof fn lemma_improved(k: Known, land: LandView, start: Tile, goal: Tile, cur: Tile, t: Tile, c: u64)
    requires
        k.expanding(land, start, goal, cur),
        step_ok(land, cur, t),
        c == k.cost[cur] + 1,
        c < 0x1_0000_0000,
        k.cost.contains_key(t) ==> c < k.cost[t],
    ensures
        k.improved(goal, cur, t, c).expanding(land, start, goal, cur),
        k.improved(goal, cur, t, c).frontier.contains(
            Node { cost: (c + distance(t, goal)) as u64, pos: t },
        ),
{
    reveal(Known::expanding);
    let r = k.improved(goal, cur, t, c);
    let n = Node { cost: (c + distance(t, goal)) as u64, pos: t };
    assert(!k.settled(land, cur));
    assert(k.bounded(goal, cur));
    assert(r.frontier.contains(n));
    assert(t != start);
    assert forall|m: Node| #[trigger] k.frontier.contains(m) implies k.node_ok(start, goal, m) by {
        assert(k.in_frontier_ok(start, goal, m));
    }
    lemma_improved_nodes(k, start, goal, cur, t, c);
    assert forall|b: Tile| #[trigger] r.cost.contains_key(b) implies r.came_from_ok(land, start, b)
        && r.bounded(goal, b) by {
        if b != t {
            assert(k.came_from_ok(land, start, b) && k.bounded(goal, b));
        }
    }
    assert forall|m: Node| #[trigger] r.frontier.contains(m) implies r.in_frontier_ok(
        start,
        goal,
        m,
    ) by {
        if m != n {
            assert(k.frontier.contains(m));
            assert(k.in_frontier_ok(start, goal, m));
        }
    }
    assert forall|b: Tile| b != t && k.waiting(start, goal, b) implies r.waiting(
        start,
        goal,
        b,
    ) by {
        let m = choose|m: Node| #[trigger]
            k.frontier.contains(m) && m.pos == b && m.cost == priority(start, goal, b, k.cost[b]);
        assert(r.frontier.contains(m));
    }
    assert(r.waiting(start, goal, t));
    assert forall|b: Tile| #[trigger] r.cost.contains_key(b) implies r.taken(b) || r.waiting(
        start,
        goal,
        b,
    ) by {
        if b != t {
            assert(k.cost.contains_key(b));
            if k.taken(b) {
                let m = choose|m: Node| #[trigger] k.seen.contains(m) && m.pos == b;
                assert(r.seen.contains(m));
            }
        }
    }
    assert forall|b: Tile| #[trigger]
        r.cost.contains_key(b) && Some(b) != Some(cur) implies r.settled(land, b) || r.waiting(
        start,
        goal,
        b,
    ) by {
        if b != t && k.settled(land, b) {
            assert(k.cost.contains_key(b));
            assert forall|d: Tile| #[trigger] step_ok(land, b, d) implies r.cost.contains_key(d)
                && r.cost[d] <= r.cost[b] + 1 by {
                assert(k.cost.contains_key(d) && k.cost[d] <= k.cost[b] + 1);
            }
        }
    }
}

/// On every walk from the start some tile waits that is known to be as near as the walk has it, or
/// else the last tile is known to be, and was taken.
proof fn lemma_on_walk(k: Known, land: LandView, start: Tile, goal: Tile, w: Seq<Tile>, i: int) -> (
    j: int)
    requires
        k.ok(land, start, goal),
        is_walk(land, w),
        0 <= i < w.len(),
        k.cost.contains_key(w[i]),
        k.cost[w[i]] <= i,
    ensures
        i <= j < w.len(),
        k.cost.contains_key(w[j]),
        k.cost[w[j]] <= j,
        k.waiting(start, goal, w[j]) || (j == w.len() - 1 && k.taken(w[j])),
        w.last() == goal ==> k.waiting(start, goal, w[j]),
    decreases w.len() - i,
{
    reveal(Known::ok);
    if k.waiting(start, goal, w[i]) || i == w.len() - 1 {
        i
    } else {
        assert(k.settled(land, w[i]));
        assert(step_ok(land, w[i], w[i + 1]));
        lemma_on_walk(k, land, start, goal, w, i + 1)
    }
}

proof fn lemma_distance_left(land: LandView, w: Seq<Tile>, i: int)
    requires
        is_walk(land, w),
        0 <= i < w.len(),
    ensures
        distance(w[i], w.last()) <= w.len() - 1 - i,
    decreases w.len() - i,
{
    if i < w.len() - 1 {
        assert(step_ok(land, w[i], w[i + 1]));
        lemma_distance_left(land, w, i + 1);
    }
}

/// The cheapest node costs no more than any walk to the goal has steps.
proof fn lemma_cheapest(k: Known, land: LandView, start: Tile, goal: Tile, n: Node, w: Seq<Tile>)
    requires
        k.ok(land, start, goal),
        start != goal,
        k.frontier.contains(n),
        forall|m: Node| #[trigger] k.frontier.contains(m) ==> n.cost <= m.cost,
        walk_between(land, w, start, goal),
    ensures
        n.cost <= w.len() - 1,
        distance(start, goal) <= w.len() - 1,
{
    reveal(Known::ok);
    lemma_distance_left(land, w, 0);
    let j = lemma_on_walk(k, land, start, goal, w, 0);
    lemma_distance_left(land, w, j);
    let m = choose|m: Node| #[trigger]
        k.frontier.contains(m) && m.pos == w[j] && m.cost == priority(
            start,
            goal,
            w[j],
            k.cost[w[j]],
        );
    assert(n.cost <= m.cost);
}

/// When the goal is the cheapest node, it is known how to walk to it, by a shortest walk.
proof fn lemma_goal_taken(k: Known, land: LandView, start: Tile, goal: Tile, n: Node)
    requires
        k.ok(land, start, goal),
        start != goal,
        k.frontier.contains(n),
        forall|m: Node| #[trigger] k.frontier.contains(m) ==> n.cost <= m.cost,
        n.pos == goal,
    ensures
        k.tiles_ok(land, start, goal),
        k.cost.contains_key(goal),
        forall|w: Seq<Tile>| #[trigger]
            walk_between(land, w, start, goal) ==> k.cost[goal] <= w.len() - 1,
{
    reveal(Known::ok);
    assert(k.in_frontier_ok(start, goal, n));
    assert forall|w: Seq<Tile>| #[trigger]
        walk_between(land, w, start, goal) implies k.cost[goal] <= w.len() - 1 by {
        lemma_cheapest(k, land, start, goal, n, w);
    }
}

/// Once all neighbours have been looked at, the next node can be taken.
proof fn lemma_expanded(k: Known, land: LandView, start: Tile, goal: Tile, cur: Tile)
    requires
        k.expanding(land, start, goal, cur),
        looked_at(k, land, cur, 8),
    ensures
        k.ok(land, start, goal),
{
    reveal(Known::ok);
    reveal(Known::expanding);
    assert(k.settled(land, cur));
    assert forall|t: Tile| #[trigger]
        k.cost.contains_key(t) && Some(t) != None::<Tile> implies k.settled(land, t) || k.waiting(
        start,
        goal,
        t,
    ) by {
        if t != cur {
            assert(Some(t) != Some(cur));
        }
    }
}

/// Every known tile can be walked to, in as many steps as are known or fewer.
proof fn lemma_known_is_reachable(k: Known, land: LandView, start: Tile, goal: Tile, t: Tile)
    requires
        k.tiles_ok(land, start, goal),
        k.cost.contains_key(t),
    ensures
        exists|v: Seq<Tile>| #[trigger]
            walk_between(land, v, start, t) && v.len() - 1 <= k.cost[t],
    decreases k.cost[t],
{
    if t == start {
        assert(walk_between(land, seq![start], start, start));
        assert(seq![start].len() == 1);
    } else {
        assert(k.came_from_ok(land, start, t));
        let u = k.from[t];
        lemma_known_is_reachable(k, land, start, goal, u);
        let w = choose|w: Seq<Tile>| #[trigger]
            walk_between(land, w, start, u) && w.len() - 1 <= k.cost[u];
        let v = w.push(t);
        assert forall|i: int| 0 <= i < v.len() - 1 implies step_ok(
            land,
            #[trigger] v[i],
            v[i + 1],
        ) by {
            if i < w.len() - 1 {
                assert(step_ok(land, w[i], w[i + 1]));
            }
        }
        assert(walk_between(land, v, start, t));
    }
}

/// The tiles that the nodes stand for.
spec fn tiles_of(nodes: Set<Node>) -> Set<Tile> {
    nodes.map(|n: Node| n.pos)
}

/// The nodes whose cost is as much more than the least of their tile.
spec fn above_low(k: Known, start: Tile, goal: Tile, nodes: Set<Node>, more: int) -> Set<Node> {
    nodes.filter(|n: Node| n.cost == k.low(start, goal, n.pos) + more)
}

/// Nodes with the same distance from the least cost of their tile stand for different tiles.
proof fn lemma_one_each(k: Known, start: Tile, goal: Tile, nodes: Set<Node>, more: int)
    requires
        nodes.finite(),
    ensures
        above_low(k, start, goal, nodes, more).finite(),
        above_low(k, start, goal, nodes, more).len() <= tiles_of(nodes).len(),
{
    let part = above_low(k, start, goal, nodes, more);
    let f = |n: Node| n.pos;
    nodes.lemma_map_finite(f);
    assert(part.subset_of(nodes));
    vstd::set_lib::lemma_len_subset(part, nodes);
    assert forall|a: Node, b: Node| part.contains(a) && part.contains(b) && f(a) == f(b) implies a
        == b by {}
    vstd::set_lib::lemma_map_size(part, part.map(f), f);
    assert(part.map(f).subset_of(tiles_of(nodes)));
    vstd::set_lib::lemma_len_subset(part.map(f), tiles_of(nodes));
}

/// At most three nodes stand for each tile.
proof fn lemma_three_each(k: Known, start: Tile, goal: Tile, nodes: Set<Node>)
    requires
        nodes.finite(),
        forall|n: Node| #[trigger]
            nodes.contains(n) ==> k.low(start, goal, n.pos) <= n.cost <= k.low(start, goal, n.pos)
                + 2,
    ensures
        tiles_of(nodes).finite(),
        nodes.len() <= 3 * tiles_of(nodes).len(),
{
    lemma_one_each(k, start, goal, nodes, 0);
    lemma_one_each(k, start, goal, nodes, 1);
    lemma_one_each(k, start, goal, nodes, 2);
    let a = above_low(k, start, goal, nodes, 0);
    let b = above_low(k, start, goal, nodes, 1);
    let c = above_low(k, start, goal, nodes, 2);
    nodes.lemma_map_finite(|n: Node| n.pos);
    assert(nodes =~= a.union(b).union(c));
    vstd::set_lib::lemma_len_union(a, b);
    vstd::set_lib::lemma_len_union(a.union(b), c);
}

/// A search that has gone on for long has looked at many tiles, and all of them are on the way.
proof fn lemma_long_search(k: Known, land: LandView, start: Tile, goal: Tile, n: Node)
    requires
        k.ok(land, start, goal),
        start != goal,
        k.frontier.contains(n),
        forall|m: Node| #[trigger] k.frontier.contains(m) ==> n.cost <= m.cost,
        k.seen.len() >= MAX_STEPS,
    ensures
        wide_open(land, start, 5000),
        far_off(land, start, goal),
{
    reveal(Known::ok);
    let nodes = k.seen.insert(n);
    let tiles = tiles_of(nodes);
    assert(k.in_frontier_ok(start, goal, n));
    assert(!k.seen.contains(n)) by {
        if k.seen.contains(n) {
            assert(k.seen_ok(start, goal, n));
        }
    }
    assert forall|m: Node| #[trigger] nodes.contains(m) implies k.node_ok(start, goal, m) && k.low(
        start,
        goal,
        m.pos,
    ) <= m.cost <= k.low(start, goal, m.pos) + 2 by {
        if m != n {
            assert(k.seen_ok(start, goal, m));
        }
        assert(k.bounded(goal, m.pos));
    }
    lemma_three_each(k, start, goal, nodes);
    assert forall|t: Tile| #[trigger] tiles.contains(t) implies reachable(land, start, t) by {
        let m = choose|m: Node| nodes.contains(m) && m.pos == t;
        assert(nodes.contains(m) && k.node_ok(start, goal, m));
        lemma_known_is_reachable(k, land, start, goal, t);
    }
    assert(tiles.finite());
    assert forall|w: Seq<Tile>| #[trigger] walk_between(land, w, start, goal) implies crowded(
        land,
        start,
        goal,
        w.len() - 1,
        5000,
    ) by {
        lemma_cheapest(k, land, start, goal, n, w);
        assert forall|t: Tile| #[trigger] tiles.contains(t) implies on_the_way(
            land,
            start,
            goal,
            w.len() - 1,
            t,
        ) by {
            let m = choose|m: Node| nodes.contains(m) && m.pos == t;
            assert(nodes.contains(m) && k.node_ok(start, goal, m));
            lemma_known_is_reachable(k, land, start, goal, t);
            if m != n {
                assert(k.seen_ok(start, goal, m));
                assert(n.pos != start ==> k.level <= n.cost);
            }
        }
        assert(tiles.finite());
    }
}

/// It is no further from one tile to another than by way of a third.
proof fn lemma_way_round(a: Tile, b: Tile, c: Tile)
    ensures
        distance(a, c) <= distance(a, b) + distance(b, c),
{
}

/// No more tiles were taken than nodes.
proof fn lemma_taken_once(k: Known, tiles: Set<Tile>)
    requires
        k.seen.finite(),
        tiles.finite(),
        forall|t: Tile| #[trigger] tiles.contains(t) ==> k.taken(t),
    ensures
        tiles.len() <= k.seen.len(),
{
    let f = |n: Node| n.pos;
    let all = tiles_of(k.seen);
    vstd::set_lib::lemma_map_size_bound(k.seen, all, f);
    assert forall|t: Tile| tiles.contains(t) implies all.contains(t) by {
        let n = choose|n: Node| #[trigger] k.seen.contains(n) && n.pos == t;
        assert(f(n) == t);
    }
    vstd::set_lib::lemma_len_subset(tiles, all);
}

/// When the frontier is empty, there is no walk to the goal, and every tile that can be reached was
/// taken.
proof fn lemma_no_way(k: Known, land: LandView, start: Tile, goal: Tile)
    requires
        k.ok(land, start, goal),
        k.frontier == Multiset::<Node>::empty(),
        k.seen.len() <= MAX_STEPS,
    ensures
        !reachable(land, start, goal),
        !wide_open(land, start, 15000),
{
    reveal(Known::ok);
    if reachable(land, start, goal) {
        let w = choose|w: Seq<Tile>| walk_between(land, w, start, goal);
        let j = lemma_on_walk(k, land, start, goal, w, 0);
        let m = choose|m: Node| #[trigger]
            k.frontier.contains(m) && m.pos == w[j] && m.cost == priority(
                start,
                goal,
                w[j],
                k.cost[w[j]],
            );
        assert(k.frontier.contains(m));
    }
    if wide_open(land, start, 15000) {
        let tiles = choose|seen: Set<Tile>|
            {
                &&& #[trigger] seen.finite()
                &&& seen.len() > 15000
                &&& forall|t: Tile| #[trigger] seen.contains(t) ==> reachable(land, start, t)
            };
        assert forall|t: Tile| #[trigger] tiles.contains(t) implies k.taken(t) by {
            let w = choose|w: Seq<Tile>| walk_between(land, w, start, t);
            let j = lemma_on_walk(k, land, start, goal, w, 0);
            if k.waiting(start, goal, w[j]) {
                let m = choose|m: Node| #[trigger]
                    k.frontier.contains(m) && m.pos == w[j] && m.cost == priority(
                        start,
                        goal,
                        w[j],
                        k.cost[w[j]],
                    );
                assert(k.frontier.contains(m));
            }
        }
        lemma_taken_once(k, tiles);
    }
}

/// When the goal is the cheapest node, every tile over which a shorter walk might lead was taken.
proof fn lemma_nearer_ones_taken(k: Known, land: LandView, start: Tile, goal: Tile, n: Node)
    requires
        k.ok(land, start, goal),
        start != goal,
        k.frontier.contains(n),
        forall|m: Node| #[trigger] k.frontier.contains(m) ==> n.cost <= m.cost,
        n.pos == goal,
        k.seen.len() < MAX_STEPS,
    ensures
        !too_crowded(land, start, goal, k.cost[goal] as int),
{
    reveal(Known::ok);
    assert(k.in_frontier_ok(start, goal, n));
    assert(k.came_from_ok(land, start, goal));
    let len = k.cost[goal] - 1;
    if crowded(land, start, goal, len, 14999) {
        let tiles = choose|seen: Set<Tile>|
            {
                &&& #[trigger] seen.finite()
                &&& seen.len() > 14999
                &&& forall|t: Tile| #[trigger]
                    seen.contains(t) ==> on_the_way(land, start, goal, len, t)
            };
        assert forall|t: Tile| #[trigger] tiles.contains(t) implies k.taken(t) by {
            assert(on_the_way(land, start, goal, len, t));
            let v = choose|v: Seq<Tile>| #[trigger]
                walk_between(land, v, start, t) && v.len() - 1 + distance(t, goal) <= len;
            let j = lemma_on_walk(k, land, start, goal, v, 0);
            if k.waiting(start, goal, v[j]) {
                lemma_distance_left(land, v, j);
                let m = choose|m: Node| #[trigger]
                    k.frontier.contains(m) && m.pos == v[j] && m.cost == priority(
                        start,
                        goal,
                        v[j],
                        k.cost[v[j]],
                    );
                assert(n.cost <= m.cost);
                lemma_way_round(v[j], t, goal);
            }
        }
        lemma_taken_once(k, tiles);
    }
}

/// The turn of a neighbour, by how far it lies to the right and down.
spec fn turn(dx: int, dy: int) -> int {
    if dy == 0 {
        if dx == 1 {
            0
        } else {
            1
        }
    } else if dx == 0 {
        if dy == 1 {
            2
        } else {
            3
        }
    } else if dx == dy {
        if dx == 1 {
            4
        } else {
            5
        }
    } else if dx == 1 {
        6
    } else {
        7
    }
}

/// How far the neighbour whose turn it is lies to the right and down.
fn offset(d: usize) -> (r: (i64, i64))
    requires
        d < 8,
    ensures
        -1 <= r.0 <= 1,
        -1 <= r.1 <= 1,
        r.0 != 0 || r.1 != 0,
        turn(r.0 as int, r.1 as int) == d,
{
    if d == 0 {
        (1, 0)
    } else if d == 1 {
        (-1, 0)
    } else if d == 2 {
        (0, 1)
    } else if d == 3 {
        (0, -1)
    } else if d == 4 {
        (1, 1)
    } else if d == 5 {
        (-1, -1)
    } else if d == 6 {
        (1, -1)
    } else {
        (-1, 1)
    }
}

/// Whether the neighbours of `cur` whose turn is over are known to be one step further at most.
spec fn looked_at(k: Known, land: LandView, cur: Tile, d: int) -> bool {
    forall|b: Tile| #[trigger]
        step_ok(land, cur, b) && turn(b.0 - cur.0, b.1 - cur.1) < d ==> k.cost.contains_key(b)
            && k.cost[b] <= k.cost[cur] + 1
}

/// Whether each tile but the start was found from one that is nearer.
spec fn traced(
    land: LandView,
    start: Tile,
    from: Map<Tile, Tile>,
    cost: Map<Tile, u64>,
) -> bool {
    forall|t: Tile| #[trigger]
        cost.contains_key(t) && t != start ==> {
            &&& from.contains_key(t)
            &&& cost.contains_key(from[t])
            &&& cost[from[t]] < cost[t]
            &&& step_ok(land, from[t], t)
        }
}

proof fn lemma_walk_extended(land: LandView, a: Tile, w: Seq<Tile>, b: Tile)
    requires
        is_walk(land, w),
        step_ok(land, a, w[0]),
        w.last() == b,
    ensures
        walk_between(land, seq![a] + w, a, b),
{
    let v = seq![a] + w;
    assert forall|i: int| 0 <= i < v.len() - 1 implies step_ok(land, #[trigger] v[i], v[i + 1]) by {
        if i > 0 {
            assert(v[i] == w[i - 1]);
            assert(v[i + 1] == w[i]);
            assert(step_ok(land, w[i - 1], w[i - 1 + 1]));
        }
    }
    assert(v.last() == w.last());
}

/// The walk back from the goal to the start, by the tile from which each was found.
fn retrace(
    came_from: &TileMap<Tile>,
    start: Tile,
    goal: Tile,
    Ghost(cost): Ghost<Map<Tile, u64>>,
    Ghost(land): Ghost<LandView>,
) -> (path: Vec<Tile>)
    requires
        traced(land, start, came_from@, cost),
        cost.contains_key(goal),
    ensures
        walk_between(land, seq![start] + path@.reverse(), start, goal),
        path@.len() <= cost[goal],
{
    let mut path: Vec<Tile> = Vec::new();
    let mut curr: Tile = goal;
    assert(seq![goal] + path@.reverse() =~= seq![goal]);
    assert(walk_between(land, seq![goal], goal, goal));
    while curr.0 != start.0 || curr.1 != start.1
        invariant
            traced(land, start, came_from@, cost),
            cost.contains_key(curr),
            walk_between(land, seq![curr] + path@.reverse(), curr, goal),
            cost[curr] + path@.len() <= cost[goal],
        decreases cost[curr],
    {
        let prev: Tile = *came_from.get(curr).unwrap();
        let ghost old_path = path@;
        path.push(curr);
        proof {
            lemma_walk_extended(land, prev, seq![curr] + old_path.reverse(), goal);
            assert(path@.reverse() =~= seq![curr] + old_path.reverse());
        }
        curr = prev;
    }
    path
}

impl Land {
    /// Whether a unit can step from one tile to another.
    fn can_step(&self, a: Tile, b: Tile) -> (r: bool)
        requires
            self@.wf(),
            close(a.0, b.0),
            close(a.1, b.1),
            a != b,
        ensures
            r == step_ok(self@, a, b),
    {
        self.is_tile_walkable(b.0, b.1) && (a.0 == b.0 || a.1 == b.1 || (self.is_tile_walkable(
            b.0,
            a.1,
        ) && self.is_tile_walkable(a.0, b.1)))
    }

    /// Searches for a shortest walk.
    pub fn search(&self, start: Tile, goal: Tile) -> (r: Search)
        requires
            self@.wf(),
            start != goal,
        ensures
            match r {
                Search::Found(steps) => {
                    &&& shortest_walk(self@, seq![start] + steps@.reverse(), start, goal)
                    &&& !too_crowded(self@, start, goal, steps@.len() as int)
                },
                Search::NoWay => {
                    &&& !reachable(self@, start, goal)
                    &&& !wide_open(self@, start, 15000)
                },
                Search::GaveUp => {
                    &&& wide_open(self@, start, 5000)
                    &&& far_off(self@, start, goal)
                },
            },
    {
        let ghost land = self@;
        let mut frontier = Frontier::new();
        let mut came_from: TileMap<Tile> = TileMap::new();
        let mut cost_so_far: TileMap<u64> = TileMap::new();
        frontier.push(Node { cost: 0, pos: start });
        came_from.insert(start, start);
        cost_so_far.insert(start, 0);
        let ghost mut k = Known::initial(start, goal);
        proof {
            lemma_initial(land, start, goal);
            assert(frontier@ =~= k.frontier);
        }
        let mut steps: u32 = 0;
        loop
            invariant_except_break
                k.ok(land, start, goal),
                frontier.wf(),
                frontier@ == k.frontier,
                cost_so_far@ == k.cost,
                steps <= MAX_STEPS,
                k.seen.len() == steps,
                k.costs_at_most(steps as int),
            invariant
                land == self@,
                land.wf(),
                start != goal,
                came_from@ == k.from,
            ensures
                k.tiles_ok(land, start, goal),
                k.cost.contains_key(goal),
                forall|w: Seq<Tile>| #[trigger]
                    walk_between(land, w, start, goal) ==> k.cost[goal] <= w.len() - 1,
                !too_crowded(land, start, goal, k.cost[goal] as int),
            decreases MAX_STEPS - steps,
        {
            let popped = frontier.pop();
            let node: Node = match popped {
                Some(node) => node,
                None => {
                    proof {
                        lemma_no_way(k, land, start, goal);
                    }
                    return Search::NoWay;
                },
            };
            steps = steps + 1;
            if steps > MAX_STEPS {
                proof {
                    lemma_long_search(k, land, start, goal, node);
                }
                return Search::GaveUp;
            }
            let cur: Tile = node.pos;
            if cur.0 == goal.0 && cur.1 == goal.1 {
                proof {
                    lemma_goal_taken(k, land, start, goal, node);
                    lemma_nearer_ones_taken(k, land, start, goal, node);
                }
                break;
            }
            proof {
                lemma_popped(k, land, start, goal, node);
                k = k.popped(start, node);
            }
            let mut d: usize = 0;
            while d < 8
                invariant
                    land == self@,
                    land.wf(),
                    start != goal,
                    d <= 8,
                    k.expanding(land, start, goal, cur),
                    looked_at(k, land, cur, d as int),
                    frontier.wf(),
                    frontier@ == k.frontier,
                    came_from@ == k.from,
                    cost_so_far@ == k.cost,
                    0 < steps <= MAX_STEPS,
                    k.seen.len() == steps,
                    k.costs_at_most(steps as int),
                    k.cost.contains_key(cur),
                    k.cost[cur] < steps,
                decreases 8 - d,
            {
                let (dx, dy) = offset(d);
                let x: i64 = cur.0 as i64 + dx;
                let y: i64 = cur.1 as i64 + dy;
                let ghost before = k;
                if i32::MIN as i64 <= x && x <= i32::MAX as i64 && i32::MIN as i64 <= y && y
                    <= i32::MAX as i64 {
                    let next: Tile = (x as i32, y as i32);
                    if self.can_step(cur, next) {
                        let new_cost: u64 = *cost_so_far.get(cur).unwrap() + 1;
                        let better: bool = match cost_so_far.get(next) {
                            Some(c) => new_cost < *c,
                            None => true,
                        };
                        if better {
                            proof {
                                lemma_improved(k, land, start, goal, cur, next, new_cost);
                                k = k.improved(goal, cur, next, new_cost);
                            }
                            cost_so_far.insert(next, new_cost);
                            let h: u64 = distance_between(next, goal);
                            frontier.push(Node { cost: new_cost + h, pos: next });
                            came_from.insert(next, cur);
                        }
                    }
                }
                proof {
                    assert forall|b: Tile| #[trigger]
                        step_ok(land, cur, b) && turn(b.0 - cur.0, b.1 - cur.1) < d + 1 implies k.cost.contains_key(
                    b) && k.cost[b] <= k.cost[cur] + 1 by {
                        if turn(b.0 - cur.0, b.1 - cur.1) == d {
                            assert(b.0 == x && b.1 == y);
                        } else {
                            assert(before.cost.contains_key(b));
                        }
                    }
                }
                d = d + 1;
            }
            proof {
                lemma_expanded(k, land, start, goal, cur);
            }
        }
        assert(traced(land, start, came_from@, k.cost)) by {
            assert forall|t: Tile| #[trigger]
                k.cost.contains_key(t) && t != start implies k.came_from_ok(land, start, t) by {}
        }
        let path = retrace(&came_from, start, goal, Ghost(k.cost), Ghost(land));
        assert forall|other: Seq<Tile>| #[trigger]
            walk_between(land, other, start, goal) implies (seq![start] + path@.reverse()).len()
            <= other.len() by {
            assert(k.cost[goal] <= other.len() - 1);
        }
        assert(path@.len() == k.cost[goal]);
        Search::Found(path)
    }
}

/// The tiles further apart than this are not searched for a walk.
pub const MAX_SPAN: i64 = 5000;

/// Whether two tiles are too far apart for a search.
pub open spec fn too_far(a: Tile, b: Tile) -> bool {
    distance(a, b) > MAX_SPAN
}

/// The waypoints of a walk, the last one first: the point to end at, then the middle of each tile
/// but the first.
pub open spec fn waypoints(end: Point, w: Seq<Tile>) -> Seq<Point> {
    seq![end] + w.drop_first().reverse().map_values(|t: Tile| space::middle_of(t))
}

/// Whether `r` is a route from one point to another. Within one tile it leads straight there.
/// Otherwise it follows a shortest walk; it is empty if the end cannot be walked on or is too far
/// away, or if there is no walk, or where so many tiles are on the way that the search gives up:
/// with five thousand or fewer it never does, with fifteen thousand or more on shorter ways it
/// always does.
pub open spec fn is_route(land: LandView, start: Point, end: Point, r: Seq<Point>) -> bool {
    let a = space::tile_of(start);
    let b = space::tile_of(end);
    if a == b {
        r == seq![end]
    } else if !land.walkable(b) || too_far(a, b) {
        r == Seq::<Point>::empty()
    } else if r.len() == 0 {
        !reachable(land, a, b) || far_off(land, a, b)
    } else {
        exists|w: Seq<Tile>| #[trigger]
            shortest_walk(land, w, a, b) && r == waypoints(end, w) && !too_crowded(
                land,
                a,
                b,
                w.len() - 1,
            )
    }
}

impl Land {
    /// Finds a route from one point to another.
    pub fn find_path(&self, start: Point, end: Point) -> (r: Vec<Point>)
        requires
            self@.wf(),
        ensures
            is_route(self@, start, end, r@),
    {
        let a: Tile = tile_containing(start);
        let b: Tile = tile_containing(end);
        let mut path: Vec<Point> = Vec::new();
        if a.0 == b.0 && a.1 == b.1 {
            path.push(end);
            return path;
        }
        if !self.is_tile_walkable(b.0, b.1) {
            return path;
        }
        if distance_between(a, b) > MAX_SPAN as u64 {
            return path;
        }
        match self.search(a, b) {
            Search::Found(steps) => {
                path.push(end);
                let ghost w = seq![a] + steps@.reverse();
                let mut i: usize = 0;
                while i < steps.len()
                    invariant
                        i <= steps@.len(),
                        path@.len() == i + 1,
                        path@[0] == end,
                        forall|j: int|
                            0 <= j < i ==> path@[j + 1] == space::middle_of(#[trigger] steps@[j]),
                    decreases steps@.len() - i,
                {
                    path.push((tile_middle(steps[i].0), tile_middle(steps[i].1)));
                    i = i + 1;
                }
                proof {
                    assert(w.drop_first() =~= steps@.reverse());
                    assert(steps@.reverse().reverse() =~= steps@);
                    assert(path@ =~= waypoints(end, w));
                    assert(shortest_walk(self@, w, a, b));
                }
                path
            },
            Search::NoWay => path,
            Search::GaveUp => path,
        }
    }
}

/// Whether the tile is no more than twenty-four steps from another, as the crow flies.
spec fn nearby(a: Tile, t: Tile) -> bool {
    distance(a, t) <= 24
}

/// A number for each tile near another.
spec fn place_near(a: Tile, t: Tile) -> int {
    (t.0 - a.0 + 24) * 49 + (t.1 - a.1 + 24)
}

/// Fewer than two and a half thousand tiles are near another.
proof fn lemma_few_nearby(a: Tile, tiles: Set<Tile>)
    requires
        tiles.finite(),
        forall|t: Tile| #[trigger] tiles.contains(t) ==> nearby(a, t),
    ensures
        tiles.len() <= 2401,
{
    let f = |t: Tile| place_near(a, t);
    let places = tiles.map(f);
    let all = vstd::set_lib::set_int_range(0, 2401);
    assert forall|s: Tile, t: Tile|
        tiles.contains(s) && tiles.contains(t) && f(s) == f(t) implies s == t by {
        assert(nearby(a, s) && nearby(a, t));
    }
    vstd::set_lib::lemma_map_size(tiles, places, f);
    vstd::set_lib::lemma_int_range(0, 2401);
    assert forall|n: int| places.contains(n) implies all.contains(n) by {
        let t = choose|t: Tile| tiles.contains(t) && f(t) == n;
        assert(nearby(a, t));
    }
    vstd::set_lib::lemma_len_subset(places, all);
}

/// Where the end can be walked to in at most forty-nine steps, a route is found.
pub proof fn short_walks_are_found(
    land: LandView,
    start: Point,
    end: Point,
    r: Seq<Point>,
    w: Seq<Tile>,
)
    requires
        is_route(land, start, end, r),
        walk_between(land, w, space::tile_of(start), space::tile_of(end)),
        w.len() <= 50,
    ensures
        r.len() > 0,
{
    let a = space::tile_of(start);
    let b = space::tile_of(end);
    lemma_distance_left(land, w, 0);
    if a != b {
        assert(step_ok(land, w[w.len() - 2], w[w.len() - 2 + 1]));
        if r.len() == 0 {
            assert(crowded(land, a, b, w.len() - 1, 5000));
            let seen = choose|seen: Set<Tile>|
                {
                    &&& #[trigger] seen.finite()
                    &&& seen.len() > 5000
                    &&& forall|t: Tile| #[trigger]
                        seen.contains(t) ==> on_the_way(land, a, b, w.len() - 1, t)
                };
            let first = seen.filter(|t: Tile| nearby(a, t));
            let second = seen.filter(|t: Tile| nearby(b, t));
            vstd::set_lib::lemma_len_subset(first, seen);
            vstd::set_lib::lemma_len_subset(second, seen);
            lemma_few_nearby(a, first);
            lemma_few_nearby(b, second);
            assert forall|t: Tile| #[trigger] seen.contains(t) implies first.contains(t)
                || second.contains(t) by {
                assert(on_the_way(land, a, b, w.len() - 1, t));
                let v = choose|v: Seq<Tile>| #[trigger]
                    walk_between(land, v, a, t) && v.len() - 1 + distance(t, b) <= w.len() - 1;
                lemma_distance_left(land, v, 0);
            }
            assert(seen =~= first.union(second));
            vstd::set_lib::lemma_len_union(first, second);
        }
    }
}

/// Where fifteen thousand tiles or more are on ways that are shorter than the shortest walk, no route
/// is found.
pub proof fn long_searches_are_given_up(
    land: LandView,
    start: Point,
    end: Point,
    r: Seq<Point>,
    w: Seq<Tile>,
)
    requires
        is_route(land, start, end, r),
        space::tile_of(start) != space::tile_of(end),
        shortest_walk(land, w, space::tile_of(start), space::tile_of(end)),
        too_crowded(land, space::tile_of(start), space::tile_of(end), w.len() - 1),
    ensures
        r == Seq::<Point>::empty(),
{
    let a = space::tile_of(start);
    let b = space::tile_of(end);
    if r.len() > 0 && land.walkable(b) && !too_far(a, b) {
        let v = choose|v: Seq<Tile>| #[trigger]
            shortest_walk(land, v, a, b) && r == waypoints(end, v) && !too_crowded(
                land,
                a,
                b,
                v.len() - 1,
            );
        assert(walk_between(land, v, a, b) && walk_between(land, w, a, b));
    }
    assert(r.len() == 0 ==> r =~= Seq::empty());
}

/// A found route leads over open grass: it follows tiles of known chunks that are grass and on
/// which nothing is built, one step at a time and around corners, through the middle of each of
/// them, and it ends where it should.
pub proof fn routes_lead_over_open_grass(
    land: LandView,
    start: Point,
    end: Point,
    r: Seq<Point>,
) -> (w: Seq<Tile>)
    requires
        is_route(land, start, end, r),
        r.len() > 0,
        space::tile_of(start) != space::tile_of(end),
    ensures
        w.len() == r.len(),
        w[0] == space::tile_of(start),
        w.last() == space::tile_of(end),
        forall|i: int|
            0 < i < w.len() ==> land.chunks.contains_key(terrain::chunk_of(#[trigger] w[i]))
                && land.chunks[terrain::chunk_of(w[i])][(w[i].1 as int % 32) * 32 + w[i].0 as int
                % 32] == TileType::Grass,
        forall|i: int, j: int|
            0 < i < w.len() && 0 <= j < land.buildings.len() ==> (
            #[trigger] land.buildings[j]).tile_x != (#[trigger] w[i]).0 || land.buildings[j].tile_y
                != w[i].1,
        forall|i: int|
            #![trigger w[i]]
            0 <= i < w.len() - 1 ==> {
                &&& w[i] != w[i + 1]
                &&& -1 <= w[i + 1].0 - w[i].0 <= 1
                &&& -1 <= w[i + 1].1 - w[i].1 <= 1
                &&& w[i].0 != w[i + 1].0 && w[i].1 != w[i + 1].1 ==> land.walkable(
                    (w[i].0, w[i + 1].1),
                ) && land.walkable((w[i + 1].0, w[i].1))
            },
        r[0] == end,
        forall|i: int| 0 < i < r.len() ==> #[trigger] r[i] == space::middle_of(w[w.len() - i]),
{
    let a = space::tile_of(start);
    let b = space::tile_of(end);
    let w = choose|w: Seq<Tile>| #[trigger]
        shortest_walk(land, w, a, b) && r == waypoints(end, w) && !too_crowded(
            land,
            a,
            b,
            w.len() - 1,
        );
    assert(walk_between(land, w, a, b));
    assert forall|i: int| 0 < i < w.len() implies land.walkable(#[trigger] w[i]) by {
        assert(step_ok(land, w[i - 1], w[i - 1 + 1]));
    }
    assert forall|i: int, j: int| 0 < i < w.len() && 0 <= j < land.buildings.len() implies (
    #[trigger] land.buildings[j]).tile_x != (#[trigger] w[i]).0 || land.buildings[j].tile_y
        != w[i].1 by {
        assert(land.walkable(w[i]));
        terrain::buildings_are_in_the_way(land, j);
    }
    assert forall|i: int|
        #![trigger w[i]]
        0 <= i < w.len() - 1 implies {
        &&& w[i] != w[i + 1]
        &&& -1 <= w[i + 1].0 - w[i].0 <= 1
        &&& -1 <= w[i + 1].1 - w[i].1 <= 1
        &&& w[i].0 != w[i + 1].0 && w[i].1 != w[i + 1].1 ==> land.walkable((w[i].0, w[i + 1].1))
            && land.walkable((w[i + 1].0, w[i].1))
    } by {
        assert(step_ok(land, w[i], w[i + 1]));
    }
    w
}

/// Of all ways over walkable tiles, one step at a time and around corners, none is shorter than a
/// found route, and one of up to forty-nine steps is always found.
pub proof fn no_shorter_way_is_missed(
    land: LandView,
    start: Point,
    end: Point,
    r: Seq<Point>,
    way: Seq<Tile>,
)
    requires
        is_route(land, start, end, r),
        space::tile_of(start) != space::tile_of(end),
        way.len() > 0,
        way[0] == space::tile_of(start),
        way.last() == space::tile_of(end),
        forall|i: int|
            #![trigger way[i]]
            0 <= i < way.len() - 1 ==> {
                &&& way[i] != way[i + 1]
                &&& -1 <= way[i + 1].0 - way[i].0 <= 1
                &&& -1 <= way[i + 1].1 - way[i].1 <= 1
                &&& land.walkable(way[i + 1])
                &&& way[i].0 != way[i + 1].0 && way[i].1 != way[i + 1].1 ==> land.walkable(
                    (way[i].0, way[i + 1].1),
                ) && land.walkable((way[i + 1].0, way[i].1))
            },
    ensures
        r.len() <= way.len(),
        way.len() <= 50 ==> r.len() > 0,
{
    let a = space::tile_of(start);
    let b = space::tile_of(end);
    assert forall|i: int| 0 <= i < way.len() - 1 implies step_ok(
        land,
        #[trigger] way[i],
        way[i + 1],
    ) by {}
    assert(walk_between(land, way, a, b));
    if way.len() <= 50 {
        short_walks_are_found(land, start, end, r, way);
    }
    if r.len() > 0 {
        let w = choose|w: Seq<Tile>| #[trigger]
            shortest_walk(land, w, a, b) && r == waypoints(end, w) && !too_crowded(
                land,
                a,
                b,
                w.len() - 1,
            );
        assert(w.len() <= way.len());
    }
}

/// Whoever can stand where a walk began can walk back the same way.
pub proof fn walks_lead_back(land: LandView, w: Seq<Tile>, a: Tile, b: Tile)
    requires
        walk_between(land, w, a, b),
        land.walkable(a),
    ensures
        walk_between(land, w.reverse(), b, a),
{
    let v = w.reverse();
    assert forall|i: int| 0 <= i < v.len() - 1 implies step_ok(land, #[trigger] v[i], v[i + 1]) by {
        let j = w.len() - 2 - i;
        assert(v[i] == w[j + 1] && v[i + 1] == w[j]);
        assert(step_ok(land, w[j], w[j + 1]));
        if j > 0 {
            assert(step_ok(land, w[j - 1], w[j - 1 + 1]));
        }
    }
}

/// Within one tile a route leads straight to its end. To a tile that cannot be walked on, or that
/// lies more than five thousand tiles away along either axis, there is none.
pub proof fn some_ends_are_plain(land: LandView, start: Point, end: Point, r: Seq<Point>)
    requires
        is_route(land, start, end, r),
    ensures
        ({
            let a = space::tile_of(start);
            let b = space::tile_of(end);
            &&& a == b ==> r == seq![end]
            &&& a != b && !land.walkable(b) ==> r.len() == 0
            &&& b.0 - a.0 > 5000 || a.0 - b.0 > 5000 || b.1 - a.1 > 5000 || a.1 - b.1 > 5000
                ==> r.len() == 0
        }),
{
}

/// Between tiles that are no more than five thousand apart along either axis, one of which is walkable
/// and can be walked to, a route is found, as long as the way might not lead over more than five
/// thousand tiles.
pub proof fn open_ways_are_found(
    land: LandView,
    start: Point,
    end: Point,
    r: Seq<Point>,
    way: Seq<Tile>,
)
    requires
        is_route(land, start, end, r),
        walk_between(land, way, space::tile_of(start), space::tile_of(end)),
        ({
            let a = space::tile_of(start);
            let b = space::tile_of(end);
            &&& -5000 <= b.0 - a.0 <= 5000
            &&& -5000 <= b.1 - a.1 <= 5000
            &&& land.walkable(b)
            &&& !crowded(land, a, b, way.len() - 1, 5000)
        }),
    ensures
        r.len() > 0,
{
}

/// Whether a tile is on the way is a matter of steps alone: it is if it can be walked to and enough
/// steps are left for the distance, the larger of the two along the axes.
pub proof fn on_the_way_means_near_enough(
    land: LandView,
    a: Tile,
    b: Tile,
    len: int,
    t: Tile,
    v: Seq<Tile>,
)
    requires
        walk_between(land, v, a, t),
        -(len - (v.len() - 1)) <= b.0 - t.0 <= len - (v.len() - 1),
        -(len - (v.len() - 1)) <= b.1 - t.1 <= len - (v.len() - 1),
    ensures
        on_the_way(land, a, b, len, t),
{
}

} // verus!
