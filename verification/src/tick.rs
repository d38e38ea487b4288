//! What happens in the world at every tick: buildings rise, units gather and warriors and towers
//! fight.
use crate::economy;
use crate::economy::gather_into;
use crate::single::Single;
use crate::space;
use crate::table;
use crate::world;
use crate::world::{
    raise, BuildTask, BuildingDTO, GatherTask, GlobalState, GlobalView, Notice, UnitState,
};
use vstd::prelude::*;

verus! {

broadcast use vstd::std_specs::hash::group_hash_axioms;

/// The pattern of 0.12: how much of a building rises in a tick.
pub const BUILD_STEP: u32 = 0x3df5_c28f;

/// The patterns of 48, 120 and 16: how far a warrior and a tower reach, and how far from its
/// target a shot still hits.
pub const WARRIOR_RANGE: u32 = 0x4240_0000;

pub const TOWER_RANGE: u32 = 0x42f0_0000;

pub const SHOT_RANGE: u32 = 0x4180_0000;

/// The pattern of 30: the harm that a warrior does in a second.
pub const WARRIOR_DPS: u32 = 0x41f0_0000;

/// The pattern of 25: the harm that a shot does.
pub const TOWER_DAMAGE: u32 = 0x41c8_0000;

/// The task after one more tick.
pub open spec fn advanced(t: BuildTask) -> BuildTask {
    BuildTask { progress: t.progress.sum(Single { bits: BUILD_STEP }), ..t }
}

/// Whether nothing is left to do.
pub open spec fn complete(t: BuildTask) -> bool {
    Single { bits: economy::ONE }.at_most(t.progress)
}

/// What is told of a task.
pub open spec fn told(t: BuildTask) -> Notice {
    Notice::BuildProgress {
        tile_x: t.tile_x,
        tile_y: t.tile_y,
        kind: t.kind,
        progress: t.progress.smaller(Single { bits: economy::ONE }),
    }
}

/// Those of the first `n` tasks that one more tick completes.
pub open spec fn finished(s: Seq<((i32, i32), BuildTask)>, n: int) -> Seq<BuildTask>
    decreases n,
{
    if n <= 0 {
        Seq::empty()
    } else if complete(advanced(s[n - 1].1)) {
        finished(s, n - 1).push(advanced(s[n - 1].1))
    } else {
        finished(s, n - 1)
    }
}

/// Those of the first `n` tasks that go on after one more tick.
pub open spec fn unfinished(s: Seq<((i32, i32), BuildTask)>, n: int) -> Seq<
    ((i32, i32), BuildTask),
>
    decreases n,
{
    if n <= 0 {
        Seq::empty()
    } else if complete(advanced(s[n - 1].1)) {
        unfinished(s, n - 1)
    } else {
        unfinished(s, n - 1).push((s[n - 1].0, advanced(s[n - 1].1)))
    }
}

/// Every task that goes on was one of the tasks before.
proof fn lemma_unfinished_from(s: Seq<((i32, i32), BuildTask)>, n: int, i: int) -> (j: int)
    requires
        0 <= n <= s.len(),
        0 <= i < unfinished(s, n).len(),
    ensures
        0 <= j < n,
        i <= j,
        unfinished(s, n)[i] == (s[j].0, advanced(s[j].1)),
        !complete(advanced(s[j].1)),
    decreases n,
{
    if complete(advanced(s[n - 1].1)) || i < unfinished(s, n - 1).len() {
        let j = lemma_unfinished_from(s, n - 1, i);
        j
    } else {
        lemma_unfinished_len(s, n - 1);
        n - 1
    }
}

proof fn lemma_unfinished_len(s: Seq<((i32, i32), BuildTask)>, n: int)
    requires
        0 <= n <= s.len(),
    ensures
        unfinished(s, n).len() <= n,
    decreases n,
{
    if n > 0 {
        lemma_unfinished_len(s, n - 1);
    }
}

proof fn lemma_unfinished_apart(s: Seq<((i32, i32), BuildTask)>, n: int)
    requires
        table::apart(s),
        0 <= n <= s.len(),
    ensures
        table::apart(unfinished(s, n)),
    decreases n,
{
    if n > 0 {
        lemma_unfinished_apart(s, n - 1);
        let t = unfinished(s, n);
        let u = unfinished(s, n - 1);
        if !complete(advanced(s[n - 1].1)) {
            assert forall|i: int, j: int| 0 <= i < j < t.len() implies (#[trigger] t[i]).0 != (
            #[trigger] t[j]).0 by {
                let k = lemma_unfinished_from(s, n - 1, i);
                assert(t[i] == u[i]);
                assert(s[k].0 != s[n - 1].0);
                if j < u.len() {
                    assert(t[j] == u[j]);
                }
            }
        }
    }
}

/// No building is lost on the way: each of those under way is complete or goes on.
pub proof fn no_building_is_lost(s: Seq<((i32, i32), BuildTask)>, n: int)
    requires
        0 <= n <= s.len(),
    ensures
        finished(s, n).len() + unfinished(s, n).len() == n,
    decreases n,
{
    if n > 0 {
        no_building_is_lost(s, n - 1);
    }
}

/// What is told of a building under way is never more than the whole of it.
pub proof fn no_more_than_all_is_told(t: BuildTask)
    ensures
        told(t) matches Notice::BuildProgress { progress, .. } && progress.at_most(
            Single { bits: economy::ONE },
        ),
{
}

/// A unit as it was seen when the tick began.
#[derive(Clone, Copy, Debug, PartialEq, Eq, Structural)]
pub struct Sighting {
    pub owner_id: i32,
    pub unit_idx: usize,
    pub x: Single,
    pub y: Single,
    pub kind: u8,
}

/// A tower, by its middle.
#[derive(Clone, Copy, Debug, PartialEq, Eq, Structural)]
pub struct Tower {
    pub owner_id: i32,
    pub x: Single,
    pub y: Single,
}

/// How the unit with the given number is seen.
pub open spec fn seen(owner: i32, units: Seq<UnitState>, i: int) -> Sighting {
    Sighting {
        owner_id: owner,
        unit_idx: i as usize,
        x: units[i].x,
        y: units[i].y,
        kind: units[i].kind,
    }
}

/// The units of the first `n` armies, army after army.
pub open spec fn sighted(armies: Seq<(i32, Seq<UnitState>)>, n: int) -> Seq<Sighting>
    decreases n,
{
    if n <= 0 {
        Seq::empty()
    } else {
        sighted(armies, n - 1) + Seq::new(
            armies[n - 1].1.len(),
            |i: int| seen(armies[n - 1].0, armies[n - 1].1, i),
        )
    }
}

/// The towers among the first `n` buildings.
pub open spec fn towers(buildings: Seq<BuildingDTO>, n: int) -> Seq<Tower>
    decreases n,
{
    if n <= 0 {
        Seq::empty()
    } else if buildings[n - 1].kind == economy::TOWER {
        towers(buildings, n - 1).push(
            Tower {
                owner_id: buildings[n - 1].owner_id,
                x: space::middle_at(buildings[n - 1].tile_x),
                y: space::middle_at(buildings[n - 1].tile_y),
            },
        )
    } else {
        towers(buildings, n - 1)
    }
}

/// What was found when the tick began.
pub struct TickStart {
    pub notices: Vec<Notice>,
    pub finished: Vec<BuildTask>,
    pub gathering: Vec<(i32, GatherTask)>,
    pub sightings: Vec<Sighting>,
    pub buildings: Vec<BuildingDTO>,
    pub towers: Vec<Tower>,
}

impl GlobalState {
    /// All units, army after army.
    pub fn sightings(&self) -> (s: Vec<Sighting>)
        ensures
            s@ == sighted(self@.units, self@.units.len() as int),
    {
        let mut out: Vec<Sighting> = Vec::new();
        let mut a: usize = 0;
        while a < self.units.list.len()
            invariant
                a <= self.units.list@.len(),
                out@ == sighted(self@.units, a as int),
            decreases self.units.list@.len() - a,
        {
            let owner: i32 = self.units.list[a].owner;
            let us = &self.units.list[a].units;
            assert(self@.units[a as int] == (owner, us@));
            let ghost before = out@;
            let mut i: usize = 0;
            while i < us.len()
                invariant
                    i <= us@.len(),
                    out@ == before + Seq::new(i as nat, |k: int| seen(owner, us@, k)),
                decreases us@.len() - i,
            {
                out.push(
                    Sighting {
                        owner_id: owner,
                        unit_idx: i,
                        x: us[i].x,
                        y: us[i].y,
                        kind: us[i].kind,
                    },
                );
                i = i + 1;
                assert(out@ =~= before + Seq::new(i as nat, |k: int| seen(owner, us@, k)));
            }
            a = a + 1;
            assert(out@ =~= sighted(self@.units, a as int));
        }
        out
    }

    /// The towers, in the order in which they were built.
    pub fn towers(&self) -> (s: Vec<Tower>)
        ensures
            s@ == towers(self@.buildings, self@.buildings.len() as int),
    {
        let mut out: Vec<Tower> = Vec::new();
        let mut i: usize = 0;
        while i < self.buildings.len()
            invariant
                i <= self.buildings@.len(),
                out@ == towers(self.buildings@, i as int),
            decreases self.buildings@.len() - i,
        {
            let b = self.buildings[i];
            if b.kind == economy::TOWER {
                out.push(
                    Tower {
                        owner_id: b.owner_id,
                        x: space::tile_middle(b.tile_x),
                        y: space::tile_middle(b.tile_y),
                    },
                );
            }
            i = i + 1;
        }
        out
    }

    /// The buildings as they are.
    pub fn all_buildings(&self) -> (s: Vec<BuildingDTO>)
        ensures
            s@ == self@.buildings,
    {
        let mut out: Vec<BuildingDTO> = Vec::new();
        let mut i: usize = 0;
        while i < self.buildings.len()
            invariant
                i <= self.buildings@.len(),
                out@ == self.buildings@.take(i as int),
            decreases self.buildings@.len() - i,
        {
            out.push(self.buildings[i]);
            i = i + 1;
            assert(out@ =~= self.buildings@.take(i as int));
        }
        assert(self.buildings@.take(i as int) =~= self.buildings@);
        out
    }

    /// Begins a tick: every building under way rises, those that are complete are taken off the
    /// list, and all that the rest of the tick goes by is taken down.
    pub fn begin_tick(&mut self) -> (r: TickStart)
        ensures
            final(self)@ == (GlobalView {
                building_progress: unfinished(
                    old(self)@.building_progress,
                    old(self)@.building_progress.len() as int,
                ),
                ..old(self)@
            }),
            old(self)@.wf() ==> final(self)@.wf(),
            r.notices@ == Seq::new(
                old(self)@.building_progress.len(),
                |i: int| told(advanced(old(self)@.building_progress[i].1)),
            ),
            r.finished@ == finished(
                old(self)@.building_progress,
                old(self)@.building_progress.len() as int,
            ),
            r.gathering@ == Seq::new(
                old(self)@.gather_tasks.len(),
                |i: int| (old(self)@.gather_tasks[i].0.0, old(self)@.gather_tasks[i].1),
            ),
            r.sightings@ == sighted(old(self)@.units, old(self)@.units.len() as int),
            r.buildings@ == old(self)@.buildings,
            r.towers@ == towers(old(self)@.buildings, old(self)@.buildings.len() as int),
            r.finished@.len() + final(self)@.building_progress.len() == old(
                self,
            )@.building_progress.len(),
            r.notices@.len() == old(self)@.building_progress.len(),
            r.gathering@.len() == old(self)@.gather_tasks.len(),
            final(self)@.buildings == old(self)@.buildings,
            final(self)@.units == old(self)@.units,
            final(self)@.resources == old(self)@.resources,
    {
        let ghost tasks = self.building_progress@;
        let mut notices: Vec<Notice> = Vec::new();
        let mut done: Vec<BuildTask> = Vec::new();
        let mut left: Vec<((i32, i32), BuildTask)> = Vec::new();
        let mut i: usize = 0;
        while i < self.building_progress.rows.len()
            invariant
                tasks == self.building_progress.rows@,
                i <= tasks.len(),
                notices@ == Seq::new(i as nat, |k: int| told(advanced(tasks[k].1))),
                done@ == finished(tasks, i as int),
                left@ == unfinished(tasks, i as int),
            decreases tasks.len() - i,
        {
            let key = self.building_progress.rows[i].0;
            let mut task = self.building_progress.rows[i].1;
            task.progress = task.progress.plus(Single { bits: BUILD_STEP });
            let one = Single { bits: economy::ONE };
            notices.push(
                Notice::BuildProgress {
                    tile_x: task.tile_x,
                    tile_y: task.tile_y,
                    kind: task.kind,
                    progress: task.progress.min(one),
                },
            );
            assert(task == advanced(tasks[i as int].1));
            if one.le(task.progress) {
                done.push(task);
            } else {
                left.push((key, task));
            }
            i = i + 1;
            assert(notices@ =~= Seq::new(i as nat, |k: int| told(advanced(tasks[k].1))));
        }
        proof {
            if self@.wf() {
                lemma_unfinished_apart(tasks, tasks.len() as int);
                assert forall|k: int| 0 <= k < left@.len() implies (#[trigger] left@[k]).0 == (
                    left@[k].1.tile_x,
                    left@[k].1.tile_y,
                ) by {
                    let j = lemma_unfinished_from(tasks, tasks.len() as int, k);
                    assert(tasks[j].0 == (tasks[j].1.tile_x, tasks[j].1.tile_y));
                }
            }
        }
        proof {
            no_building_is_lost(tasks, tasks.len() as int);
        }
        self.building_progress.rows = left;
        let gathering = self.gathering();
        let sightings = self.sightings();
        let buildings = self.all_buildings();
        let towers = self.towers();
        TickStart { notices, finished: done, gathering, sightings, buildings, towers }
    }

    /// Who gathers what.
    fn gathering(&self) -> (s: Vec<(i32, GatherTask)>)
        ensures
            s@ == Seq::new(
                self@.gather_tasks.len(),
                |i: int| (self@.gather_tasks[i].0.0, self@.gather_tasks[i].1),
            ),
    {
        let mut out: Vec<(i32, GatherTask)> = Vec::new();
        let mut i: usize = 0;
        while i < self.gather_tasks.rows.len()
            invariant
                i <= self@.gather_tasks.len(),
                out@ == Seq::new(
                    i as nat,
                    |k: int| (self@.gather_tasks[k].0.0, self@.gather_tasks[k].1),
                ),
            decreases self@.gather_tasks.len() - i,
        {
            out.push((self.gather_tasks.rows[i].0.0, self.gather_tasks.rows[i].1));
            i = i + 1;
            assert(out@ =~= Seq::new(
                i as nat,
                |k: int| (self@.gather_tasks[k].0.0, self@.gather_tasks[k].1),
            ));
        }
        out
    }

    /// Lets one unit of the player gather for a tick, and tells what the player then has.
    pub fn gather(&mut self, owner: i32, kind: u8) -> (n: Notice)
        ensures
            final(self)@ == (GlobalView {
                resources: old(self)@.resources.insert(
                    owner,
                    economy::gathered(old(self)@.purse(owner), kind),
                ),
                ..old(self)@
            }),
            n == final(self)@.report(owner),
            final(self)@.purse(owner) == economy::gathered(old(self)@.purse(owner), kind),
            forall|q: i32|
                q != owner ==> #[trigger] final(self)@.purse(q) == old(self)@.purse(q),
            old(self)@.wf() ==> final(self)@.wf(),
    {
        let r = self.purse(owner);
        proof {
            economy::prices_are_finite(0);
            if self@.wf() {
                economy::gathering_keeps_purses_valid(r, kind);
            }
        }
        self.resources.insert(owner, gather_into(r, kind));
        self.report(owner)
    }

    /// Puts a complete building on its tile.
    pub fn finish_building(&mut self, task: BuildTask, id: i32) -> (n: Notice)
        ensures
            final(self)@ == (GlobalView {
                buildings: old(self)@.buildings.push(
                    world::raised(id, task.owner_id, task.kind, task.tile_x, task.tile_y),
                ),
                ..old(self)@
            }),
            n == (Notice::BuildingSpawned {
                building: world::raised(id, task.owner_id, task.kind, task.tile_x, task.tile_y),
            }),
            n == (Notice::BuildingSpawned { building: final(self)@.buildings.last() }),
            final(self)@.buildings.len() == old(self)@.buildings.len() + 1,
            forall|i: int|
                0 <= i < old(self)@.buildings.len() ==> #[trigger] final(self)@.buildings[i] == old(
                    self,
                )@.buildings[i],
            final(self)@.buildings.last().tile_x == task.tile_x,
            final(self)@.buildings.last().tile_y == task.tile_y,
            final(self)@.buildings.last().kind == task.kind,
            final(self)@.buildings.last().owner_id == task.owner_id,
            old(self)@.wf() ==> final(self)@.wf(),
    {
        let building = raise(id, task.owner_id, task.kind, task.tile_x, task.tile_y);
        self.buildings.push(building);
        Notice::BuildingSpawned { building }
    }
}

/// Every unit is seen once, as what it is and where it is, with its owner and its place in their
/// army.
pub proof fn everyone_is_seen(armies: Seq<(i32, Seq<UnitState>)>, n: int, a: int, k: int)
    requires
        0 <= a < n <= armies.len(),
        0 <= k < armies[a].1.len(),
    ensures
        sighted(armies, n).contains(
            Sighting {
                owner_id: armies[a].0,
                unit_idx: k as usize,
                x: armies[a].1[k].x,
                y: armies[a].1[k].y,
                kind: armies[a].1[k].kind,
            },
        ),
    decreases n,
{
    let last = Seq::new(
        armies[n - 1].1.len(),
        |i: int| seen(armies[n - 1].0, armies[n - 1].1, i),
    );
    let rest = sighted(armies, n - 1);
    let all = sighted(armies, n);
    let s = Sighting {
        owner_id: armies[a].0,
        unit_idx: k as usize,
        x: armies[a].1[k].x,
        y: armies[a].1[k].y,
        kind: armies[a].1[k].kind,
    };
    if a == n - 1 {
        assert(all[rest.len() + k] == s);
    } else {
        everyone_is_seen(armies, n - 1, a, k);
        let i = choose|i: int| 0 <= i < rest.len() && rest[i] == s;
        assert(all[i] == s);
    }
}

/// Nobody is seen who is not there.
pub proof fn nobody_else_is_seen(armies: Seq<(i32, Seq<UnitState>)>, n: int, i: int) -> (at: (
    int,
    int,
))
    requires
        0 <= n <= armies.len(),
        0 <= i < sighted(armies, n).len(),
    ensures
        0 <= at.0 < n,
        0 <= at.1 < armies[at.0].1.len(),
        sighted(armies, n)[i].owner_id == armies[at.0].0,
        sighted(armies, n)[i].unit_idx == at.1 as usize,
        sighted(armies, n)[i].x == armies[at.0].1[at.1].x,
        sighted(armies, n)[i].y == armies[at.0].1[at.1].y,
        sighted(armies, n)[i].kind == armies[at.0].1[at.1].kind,
    decreases n,
{
    let rest = sighted(armies, n - 1);
    if i < rest.len() {
        let at = nobody_else_is_seen(armies, n - 1, i);
        at
    } else {
        (n - 1, i - rest.len())
    }
}

/// Every tower, whoever owns it, is taken down by its middle, and no other building is.
pub proof fn towers_are_towers(buildings: Seq<BuildingDTO>, n: int)
    requires
        0 < n <= buildings.len(),
    ensures
        ({
            let b = buildings[n - 1];
            towers(buildings, n) == (if b.kind == 4 {
                towers(buildings, n - 1).push(
                    Tower {
                        owner_id: b.owner_id,
                        x: space::middle_at(b.tile_x),
                        y: space::middle_at(b.tile_y),
                    },
                )
            } else {
                towers(buildings, n - 1)
            })
        }),
{
}

/// In a tick every building under way rises by the same step and stays otherwise what it is. If it
/// is then all there, it is handed over; if not, it goes on under its tile. What is told of it is
/// where it stands, what it is and how far it is, but no more than all.
pub proof fn buildings_rise_step_by_step(s: Seq<((i32, i32), BuildTask)>, n: int)
    requires
        0 < n <= s.len(),
    ensures
        ({
            let t = s[n - 1].1;
            let risen = t.progress.sum(Single { bits: BUILD_STEP });
            let all_there = Single::of_int(1).at_most(risen);
            let done = finished(s, n);
            let left = unfinished(s, n);
            &&& all_there ==> {
                &&& left == unfinished(s, n - 1)
                &&& done.len() == finished(s, n - 1).len() + 1
                &&& done.drop_last() == finished(s, n - 1)
                &&& done.last().owner_id == t.owner_id && done.last().kind == t.kind
                    && done.last().tile_x == t.tile_x && done.last().tile_y == t.tile_y
            }
            &&& !all_there ==> {
                &&& done == finished(s, n - 1)
                &&& left.len() == unfinished(s, n - 1).len() + 1
                &&& left.drop_last() == unfinished(s, n - 1)
                &&& left.last().0 == s[n - 1].0
                &&& left.last().1.progress == risen
                &&& left.last().1.owner_id == t.owner_id && left.last().1.kind == t.kind
                    && left.last().1.tile_x == t.tile_x && left.last().1.tile_y == t.tile_y
            }
            &&& told(advanced(t)) matches Notice::BuildProgress {
                tile_x,
                tile_y,
                kind,
                progress,
            } && tile_x == t.tile_x && tile_y == t.tile_y && kind == t.kind && (!risen.nan() ==> (
            if all_there {
                progress.at_most(Single::of_int(1)) && Single::of_int(1).at_most(progress)
            } else {
                progress == risen
            }))
        }),
{
    economy::amounts_are_whole();
    assert(finished(s, n - 1).push(advanced(s[n - 1].1)).drop_last() =~= finished(s, n - 1));
    assert(unfinished(s, n - 1).push((s[n - 1].0, advanced(s[n - 1].1))).drop_last()
        =~= unfinished(s, n - 1));
}

} // verus!
