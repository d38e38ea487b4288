//! How the server and its clients agree on which unit is meant.
use crate::game::{GameView, UnitView};
use crate::news;
use crate::news::Spotted;
use crate::session;
use crate::table;
use crate::terrain::{Building, Double};
use crate::world;
use crate::world::{PlayerInfo, UnitDTO, UnitState};
use vstd::prelude::*;

verus! {

/// The listed units, as a client takes them in.
pub open spec fn spotted(list: Seq<UnitDTO>) -> Seq<Spotted> {
    Seq::new(
        list.len(),
        |i: int| Spotted { owner_id: list[i].owner_id, x: list[i].x, y: list[i].y },
    )
}

/// The number of units of the owner among the first `n` of a list.
spec fn listed_before(list: Seq<UnitDTO>, owner: i32, n: int) -> nat
    decreases n,
{
    if n <= 0 {
        0
    } else {
        listed_before(list, owner, n - 1) + (if list[n - 1].owner_id == owner {
            1nat
        } else {
            0nat
        })
    }
}

/// The index in the list of all units at which those of an army begin.
spec fn offset(armies: Seq<(i32, Seq<UnitState>)>, a: int) -> int {
    session::all_of(armies, a).len() as int
}

/// The list of the first armies is the front of the list of more of them.
proof fn lemma_front(armies: Seq<(i32, Seq<UnitState>)>, a: int, b: int, i: int)
    requires
        0 <= a <= b <= armies.len(),
        0 <= i < offset(armies, a),
    ensures
        i < offset(armies, b),
        session::all_of(armies, a)[i] == session::all_of(armies, b)[i],
    decreases b - a,
{
    if a < b {
        lemma_front(armies, a, b - 1, i);
    }
}

/// Where a unit stands in the list of all units.
proof fn lemma_listed_at(armies: Seq<(i32, Seq<UnitState>)>, a: int, k: int)
    requires
        0 <= a < armies.len(),
        0 <= k < armies[a].1.len(),
    ensures
        offset(armies, a) + k < offset(armies, armies.len() as int),
        session::all_of(armies, armies.len() as int)[offset(armies, a) + k] == session::listed_as(
            armies[a].0,
            k,
            armies[a].1[k],
        ),
{
    lemma_front(armies, a + 1, armies.len() as int, offset(armies, a) + k);
}

/// How many units of an owner come before the first of an army, and before each of its units.
proof fn lemma_listed_before(armies: Seq<(i32, Seq<UnitState>)>, a: int, k: int, owner: i32)
    requires
        table::apart(armies),
        0 <= a < armies.len(),
        0 <= k <= armies[a].1.len(),
    ensures
        ({
            let r = table::row(armies, owner);
            let all = session::all_of(armies, armies.len() as int);
            listed_before(all, owner, offset(armies, a) + k) == (if r < a {
                armies[r].1.len() as int
            } else if r == a {
                k
            } else {
                0
            })
        }),
    decreases a, k,
{
    table::lemma_row(armies, owner);
    let r = table::row(armies, owner);
    if k > 0 {
        lemma_listed_before(armies, a, k - 1, owner);
        lemma_listed_at(armies, a, k - 1);
        if armies[a].0 == owner && r != a {
            assert(r < a);
            assert(armies[r].0 != armies[a].0);
        }
    } else if a > 0 {
        lemma_listed_before(armies, a - 1, armies[a - 1].1.len() as int, owner);
        assert(offset(armies, a) == offset(armies, a - 1) + armies[a - 1].1.len());
    }
}

proof fn lemma_same_count(list: Seq<UnitDTO>, units: Seq<UnitView>, owner: i32, n: int)
    requires
        units.len() == list.len(),
        forall|i: int|
            0 <= i < list.len() ==> (#[trigger] units[i]).owner_id == list[i].owner_id,
        0 <= n <= list.len(),
    ensures
        news::owned_before(units, owner, n) == listed_before(list, owner, n),
    decreases n,
{
    if n > 0 {
        lemma_same_count(list, units, owner, n - 1);
    }
}

/// Server and client count units alike: what a client was shown when it was let in, it finds under
/// the numbers that the server uses.
pub proof fn server_and_client_count_alike(
    armies: Seq<(i32, Seq<UnitState>)>,
    g: GameView,
    player: i32,
    cx: i32,
    cy: i32,
    players: Seq<PlayerInfo>,
    buildings: Seq<Building>,
    noise: Seq<Seq<Double>>,
    owner: i32,
    k: usize,
)
    requires
        table::apart(armies),
        k < world::army(armies, owner).len(),
    ensures
        ({
            let list = session::all_of(armies, armies.len() as int);
            let h = g.welcomed(player, cx, cy, players, spotted(list), buildings, noise);
            let u = world::army(armies, owner)[k as int];
            exists|i: int| #[trigger]
                news::is_nth(h.units, owner, k, i) && h.units[i].x == u.x && h.units[i].y == u.y
        }),
{
    let list = session::all_of(armies, armies.len() as int);
    let h = g.welcomed(player, cx, cy, players, spotted(list), buildings, noise);
    table::lemma_row(armies, owner);
    let r = table::row(armies, owner);
    let i = offset(armies, r) + k;
    lemma_listed_at(armies, r, k as int);
    lemma_listed_before(armies, r, k as int, owner);
    lemma_same_count(list, h.units, owner, i);
    assert(news::is_nth(h.units, owner, k, i));
}

} // verus!
