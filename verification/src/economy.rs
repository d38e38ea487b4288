//! What things cost, how much they endure, and how a player pays.
use crate::exact;
use crate::single;
use crate::single::Single;
use vstd::prelude::*;

verus! {

/// Amounts of the four goods.
#[derive(Clone, Copy, Debug, PartialEq, Eq, Structural)]
pub struct Resources {
    pub wood: Single,
    pub stone: Single,
    pub gold: Single,
    pub food: Single,
}

impl Resources {
    /// Whether every amount is a number that is not negative.
    pub open spec fn valid(self) -> bool {
        &&& !self.wood.nan() && !self.wood.negative()
        &&& !self.stone.nan() && !self.stone.negative()
        &&& !self.gold.nan() && !self.gold.negative()
        &&& !self.food.nan() && !self.food.negative()
    }

    /// Whether every amount is a finite number.
    pub open spec fn finite(self) -> bool {
        self.wood.finite() && self.stone.finite() && self.gold.finite() && self.food.finite()
    }

    /// Whether no amount falls short of the cost.
    pub open spec fn covers(self, cost: Resources) -> bool {
        &&& cost.wood.at_most(self.wood)
        &&& cost.stone.at_most(self.stone)
        &&& cost.gold.at_most(self.gold)
        &&& cost.food.at_most(self.food)
    }

    /// What is left when the cost is paid.
    pub open spec fn less(self, cost: Resources) -> Resources {
        Resources {
            wood: self.wood.difference(cost.wood),
            stone: self.stone.difference(cost.stone),
            gold: self.gold.difference(cost.gold),
            food: self.food.difference(cost.food),
        }
    }

    /// What is left after an attempt to pay the cost.
    pub open spec fn charged(self, cost: Resources) -> Resources {
        if self.covers(cost) {
            self.less(cost)
        } else {
            self
        }
    }

    /// A stock with the given amounts.
    pub fn new(wood: Single, stone: Single, gold: Single, food: Single) -> (r: Resources)
        ensures
            r == (Resources { wood, stone, gold, food }),
    {
        Resources { wood, stone, gold, food }
    }

    /// Whether the cost can be paid.
    pub fn has(&self, cost: &Resources) -> (r: bool)
        ensures
            r == self.covers(*cost),
    {
        cost.wood.le(self.wood) && cost.stone.le(self.stone) && cost.gold.le(self.gold)
            && cost.food.le(self.food)
    }

    /// Pays the cost, if it can be paid; otherwise changes nothing.
    pub fn spend(&mut self, cost: &Resources) -> (r: bool)
        ensures
            r == old(self).covers(*cost),
            *final(self) == old(self).charged(*cost),
    {
        if self.has(cost) {
            self.wood = self.wood.minus(cost.wood);
            self.stone = self.stone.minus(cost.stone);
            self.gold = self.gold.minus(cost.gold);
            self.food = self.food.minus(cost.food);
            true
        } else {
            false
        }
    }
}

/// Nobody gets into debt: paying a cost leaves no amount negative.
pub proof fn paying_leaves_no_debt(r: Resources, cost: Resources)
    requires
        r.valid(),
        cost.finite(),
    ensures
        r.charged(cost).valid(),
{
    if r.covers(cost) {
        single::difference_stays_positive(r.wood, cost.wood);
        single::difference_stays_positive(r.stone, cost.stone);
        single::difference_stays_positive(r.gold, cost.gold);
        single::difference_stays_positive(r.food, cost.food);
    }
}

/// The patterns of the amounts that occur in prices and in a new player's purse.
pub const ONE: u32 = 0x3f80_0000;

pub const TWENTY: u32 = 0x41a0_0000;

pub const TWENTY_FIVE: u32 = 0x41c8_0000;

pub const THIRTY: u32 = 0x41f0_0000;

pub const FORTY: u32 = 0x4220_0000;

pub const FIFTY: u32 = 0x4248_0000;

pub const SIXTY: u32 = 0x4270_0000;

pub const HUNDRED: u32 = 0x42c8_0000;

pub const HUNDRED_AND_FIFTY: u32 = 0x4316_0000;

/// Amounts by their patterns.
pub open spec fn amounts(wood: u32, stone: u32, gold: u32, food: u32) -> Resources {
    Resources {
        wood: Single { bits: wood },
        stone: Single { bits: stone },
        gold: Single { bits: gold },
        food: Single { bits: food },
    }
}

fn priced(wood: u32, stone: u32, gold: u32, food: u32) -> (r: Resources)
    ensures
        r == amounts(wood, stone, gold, food),
{
    Resources::new(
        Single { bits: wood },
        Single { bits: stone },
        Single { bits: gold },
        Single { bits: food },
    )
}

/// The kinds of building.
pub const TOWN_CENTER: u8 = 0;

pub const WALL: u8 = 1;

pub const FARM: u8 = 2;

pub const HOUSE: u8 = 3;

pub const TOWER: u8 = 4;

pub const BARRACKS: u8 = 5;

/// What a building of each kind costs; a kind that is not for sale costs nothing.
pub open spec fn price(kind: u8) -> Resources {
    if kind == WALL {
        amounts(ONE, 0, 0, 0)
    } else if kind == FARM {
        amounts(THIRTY, 0, 0, 0)
    } else if kind == HOUSE {
        amounts(TWENTY_FIVE, 0, 0, 0)
    } else if kind == TOWER {
        amounts(0, FORTY, 0, 0)
    } else if kind == BARRACKS {
        amounts(SIXTY, 0, 0, 0)
    } else {
        amounts(0, 0, 0, 0)
    }
}

/// What a worker costs: 50 food.
pub open spec fn worker_price() -> Resources {
    amounts(0, 0, 0, FIFTY)
}

/// What a warrior costs: 20 gold and 40 food.
pub open spec fn warrior_price() -> Resources {
    amounts(0, 0, TWENTY, FORTY)
}

/// What a new player has: 150 wood, 60 stone, 60 gold, 100 food.
pub open spec fn starting_purse() -> Resources {
    amounts(HUNDRED_AND_FIFTY, SIXTY, SIXTY, HUNDRED)
}

/// What a building of the given kind costs.
pub fn cost_for_kind(kind: u8) -> (r: Resources)
    ensures
        r == price(kind),
{
    if kind == WALL {
        priced(ONE, 0, 0, 0)
    } else if kind == FARM {
        priced(THIRTY, 0, 0, 0)
    } else if kind == HOUSE {
        priced(TWENTY_FIVE, 0, 0, 0)
    } else if kind == TOWER {
        priced(0, FORTY, 0, 0)
    } else if kind == BARRACKS {
        priced(SIXTY, 0, 0, 0)
    } else {
        priced(0, 0, 0, 0)
    }
}

/// What a worker costs.
pub fn cost_of_worker() -> (r: Resources)
    ensures
        r == worker_price(),
{
    priced(0, 0, 0, FIFTY)
}

/// What a warrior costs.
pub fn cost_of_warrior() -> (r: Resources)
    ensures
        r == warrior_price(),
{
    priced(0, 0, TWENTY, FORTY)
}

/// What a new player has.
pub fn default_resources() -> (r: Resources)
    ensures
        r == starting_purse(),
{
    priced(HUNDRED_AND_FIFTY, SIXTY, SIXTY, HUNDRED)
}

/// Every price can be taken from any purse that covers it, and a new purse is a valid one.
pub proof fn prices_are_finite(kind: u8)
    ensures
        price(kind).finite(),
        worker_price().finite(),
        warrior_price().finite(),
        starting_purse().valid(),
{
}

/// The patterns of what each kind of building and of unit endures at first.
pub const TOWN_HP: u32 = 0x4448_0000;

pub const WALL_HP: u32 = 0x4348_0000;

pub const FARM_HP: u32 = 0x435c_0000;

pub const HOUSE_HP: u32 = 0x435c_0000;

pub const TOWER_HP: u32 = 0x4396_0000;

pub const BARRACKS_HP: u32 = 0x4382_0000;

pub const OTHER_HP: u32 = 0x4348_0000;

pub const WORKER_HP: u32 = 0x4248_0000;

pub const WARRIOR_HP: u32 = 0x42f0_0000;

/// What a building of each kind endures at first: a town center 800, a wall 200, a farm and a
/// house 220, a tower 300, a barracks 260, any other 200.
pub open spec fn endurance(kind: u8) -> Single {
    Single {
        bits: if kind == TOWN_CENTER {
            TOWN_HP
        } else if kind == WALL {
            WALL_HP
        } else if kind == FARM {
            FARM_HP
        } else if kind == HOUSE {
            HOUSE_HP
        } else if kind == TOWER {
            TOWER_HP
        } else if kind == BARRACKS {
            BARRACKS_HP
        } else {
            OTHER_HP
        },
    }
}

/// What a building of the given kind endures at first.
pub fn hp_for_kind(kind: u8) -> (r: Single)
    ensures
        r == endurance(kind),
{
    if kind == TOWN_CENTER {
        Single { bits: TOWN_HP }
    } else if kind == WALL {
        Single { bits: WALL_HP }
    } else if kind == FARM {
        Single { bits: FARM_HP }
    } else if kind == HOUSE {
        Single { bits: HOUSE_HP }
    } else if kind == TOWER {
        Single { bits: TOWER_HP }
    } else if kind == BARRACKS {
        Single { bits: BARRACKS_HP }
    } else {
        Single { bits: OTHER_HP }
    }
}

/// The population a player can support before any house is built.
pub fn default_pop_cap() -> (cap: i32)
    ensures
        cap == 5,
{
    5
}

/// The patterns of what is gathered per second: 8, 6, 6 and 10 in a minute.
pub const WOOD_PER_SECOND: u32 = 0x3e08_8889;

pub const STONE_PER_SECOND: u32 = 0x3dcc_cccd;

pub const GOLD_PER_SECOND: u32 = 0x3dcc_cccd;

pub const FOOD_PER_SECOND: u32 = 0x3e2a_aaab;

/// The pattern of 0.2: a tick, in seconds.
pub const TICK: u32 = 0x3e4c_cccd;

/// What is gathered in a tick, at the given rate per second.
pub open spec fn per_tick(rate: u32) -> Single {
    Single { bits: rate }.product(Single { bits: TICK })
}

/// The purse after one unit has gathered for a tick: 2 stands for wood, 3 for stone, 4 for gold,
/// and all else for food.
pub open spec fn gathered(r: Resources, kind: u8) -> Resources {
    if kind == 2 {
        Resources { wood: r.wood.sum(per_tick(WOOD_PER_SECOND)), ..r }
    } else if kind == 3 {
        Resources { stone: r.stone.sum(per_tick(STONE_PER_SECOND)), ..r }
    } else if kind == 4 {
        Resources { gold: r.gold.sum(per_tick(GOLD_PER_SECOND)), ..r }
    } else {
        Resources { food: r.food.sum(per_tick(FOOD_PER_SECOND)), ..r }
    }
}

/// The purse after one unit has gathered for a tick.
pub fn gather_into(r: Resources, kind: u8) -> (g: Resources)
    ensures
        g == gathered(r, kind),
{
    let tick = Single { bits: TICK };
    if kind == 2 {
        Resources { wood: r.wood.plus(Single { bits: WOOD_PER_SECOND }.times(tick)), ..r }
    } else if kind == 3 {
        Resources { stone: r.stone.plus(Single { bits: STONE_PER_SECOND }.times(tick)), ..r }
    } else if kind == 4 {
        Resources { gold: r.gold.plus(Single { bits: GOLD_PER_SECOND }.times(tick)), ..r }
    } else {
        Resources { food: r.food.plus(Single { bits: FOOD_PER_SECOND }.times(tick)), ..r }
    }
}

/// A valid purse stays one when its owner gathers.
pub proof fn gathering_keeps_purses_valid(r: Resources, kind: u8)
    requires
        r.valid(),
    ensures
        gathered(r, kind).valid(),
{
    lemma_rate(WOOD_PER_SECOND);
    lemma_rate(STONE_PER_SECOND);
    lemma_rate(FOOD_PER_SECOND);
    if kind == 2 {
        single::sum_stays_positive(r.wood, per_tick(WOOD_PER_SECOND));
    } else if kind == 3 {
        single::sum_stays_positive(r.stone, per_tick(STONE_PER_SECOND));
    } else if kind == 4 {
        single::sum_stays_positive(r.gold, per_tick(GOLD_PER_SECOND));
    } else {
        single::sum_stays_positive(r.food, per_tick(FOOD_PER_SECOND));
    }
}

/// Gathering takes nothing away: no amount is smaller afterwards.
pub proof fn gathering_takes_nothing(r: Resources, kind: u8)
    requires
        r.valid(),
    ensures
        gathered(r, kind).covers(r),
{
    lemma_rate(WOOD_PER_SECOND);
    lemma_rate(STONE_PER_SECOND);
    lemma_rate(FOOD_PER_SECOND);
    exact::sums_do_not_shrink(r.wood, per_tick(WOOD_PER_SECOND));
    exact::sums_do_not_shrink(r.stone, per_tick(STONE_PER_SECOND));
    exact::sums_do_not_shrink(r.gold, per_tick(GOLD_PER_SECOND));
    exact::sums_do_not_shrink(r.food, per_tick(FOOD_PER_SECOND));
}

proof fn lemma_rate(rate: u32)
    requires
        0 < rate < 0x7f80_0000,
    ensures
        !per_tick(rate).nan(),
        !per_tick(rate).negative(),
{
    reveal(Single::product);
    let a = Single { bits: rate };
    let b = Single { bits: TICK };
    assert(crate::rounding::round(
        a.size() * b.size(),
        vstd::arithmetic::power2::pow2(single::places()),
    ) <= crate::rounding::INFINITE);
}

/// The price list, in whole numbers of wood, stone, gold and food.
pub open spec fn listed_price(kind: u8) -> (int, int, int, int) {
    if kind == 1 {
        (1, 0, 0, 0)
    } else if kind == 2 {
        (30, 0, 0, 0)
    } else if kind == 3 {
        (25, 0, 0, 0)
    } else if kind == 4 {
        (0, 40, 0, 0)
    } else if kind == 5 {
        (60, 0, 0, 0)
    } else {
        (0, 0, 0, 0)
    }
}

/// The patterns are those of the whole numbers that are meant.
pub proof fn amounts_are_whole()
    ensures
        Single::of_int(0) == (Single { bits: 0 }),
        Single::of_int(1) == (Single { bits: ONE }),
        Single::of_int(20) == (Single { bits: TWENTY }),
        Single::of_int(25) == (Single { bits: TWENTY_FIVE }),
        Single::of_int(30) == (Single { bits: THIRTY }),
        Single::of_int(40) == (Single { bits: FORTY }),
        Single::of_int(50) == (Single { bits: FIFTY }),
        Single::of_int(60) == (Single { bits: SIXTY }),
        Single::of_int(100) == (Single { bits: HUNDRED }),
        Single::of_int(150) == (Single { bits: HUNDRED_AND_FIFTY }),
{
    vstd::arithmetic::power2::lemma2_to64();
    exact::lemma_small_pattern(1, 23, 126);
    exact::lemma_small_pattern(20, 19, 130);
    exact::lemma_small_pattern(25, 19, 130);
    exact::lemma_small_pattern(30, 19, 130);
    exact::lemma_small_pattern(40, 18, 131);
    exact::lemma_small_pattern(50, 18, 131);
    exact::lemma_small_pattern(60, 18, 131);
    exact::lemma_small_pattern(100, 17, 132);
    exact::lemma_small_pattern(150, 16, 133);
    exact::small_numbers_are_exact(0);
    reveal(Single::of_int);
    let z = Single::of_int(0);
    assert(z.value() == 0 * vstd::arithmetic::power2::pow2(single::places()));
    if z.mag() > 0 {
        crate::rounding::units_grow(0, z.mag());
    }
}

/// Every building costs what the list says; a worker costs 50 food, a warrior 20 gold and 40 food.
/// Whoever is new has 150 wood, 60 stone, 60 gold and 100 food.
pub proof fn prices_are_as_listed(kind: u8)
    ensures
        ({
            let (wood, stone, gold, food) = listed_price(kind);
            price(kind) == (Resources {
                wood: Single::of_int(wood),
                stone: Single::of_int(stone),
                gold: Single::of_int(gold),
                food: Single::of_int(food),
            })
        }),
        worker_price() == (Resources {
            wood: Single::of_int(0),
            stone: Single::of_int(0),
            gold: Single::of_int(0),
            food: Single::of_int(50),
        }),
        warrior_price() == (Resources {
            wood: Single::of_int(0),
            stone: Single::of_int(0),
            gold: Single::of_int(20),
            food: Single::of_int(40),
        }),
        starting_purse() == (Resources {
            wood: Single::of_int(150),
            stone: Single::of_int(60),
            gold: Single::of_int(60),
            food: Single::of_int(100),
        }),
{
    amounts_are_whole();
}

/// Whoever has enough of each good pays exactly the price, and whoever lacks some of any good pays
/// nothing.
pub proof fn the_price_is_paid_exactly(r: Resources, cost: Resources)
    ensures
        ({
            let enough = cost.wood.at_most(r.wood) && cost.stone.at_most(r.stone)
                && cost.gold.at_most(r.gold) && cost.food.at_most(r.food);
            let left = r.charged(cost);
            &&& r.covers(cost) == enough
            &&& enough ==> left.wood == r.wood.difference(cost.wood) && left.stone
                == r.stone.difference(cost.stone) && left.gold == r.gold.difference(cost.gold)
                && left.food == r.food.difference(cost.food)
            &&& !enough ==> left == r
        }),
{
}

/// Whole prices are paid from whole amounts without a rest.
pub proof fn whole_amounts_stay_whole(a: int, c: int)
    requires
        0 <= c <= a,
        exact::small(a),
    ensures
        Single::of_int(c).at_most(Single::of_int(a)),
        Single::of_int(a).difference(Single::of_int(c)) == Single::of_int(a - c),
{
    exact::small_differences_are_exact(a, c);
    exact::small_numbers_are_exact(a);
    exact::small_numbers_are_exact(c);
    single::order_is_by_value(Single::of_int(c), Single::of_int(a));
    let p = vstd::arithmetic::power2::pow2(single::places());
    vstd::arithmetic::power2::lemma_pow2_pos(single::places());
    assert(c * p <= a * p) by (nonlinear_arith)
        requires
            c <= a,
            p > 0,
    ;
}

/// Who gathers gets more of one good, and it is the one that they gather: wood for 2, stone for 3,
/// gold for 4 and food for all else. How much it is does not depend on what they have. The other
/// three goods stay as they are.
pub proof fn one_good_is_gathered(r: Resources, kind: u8)
    ensures
        gathered(r, kind).wood == (if kind == 2 {
            r.wood.sum(per_tick(WOOD_PER_SECOND))
        } else {
            r.wood
        }),
        gathered(r, kind).stone == (if kind == 3 {
            r.stone.sum(per_tick(STONE_PER_SECOND))
        } else {
            r.stone
        }),
        gathered(r, kind).gold == (if kind == 4 {
            r.gold.sum(per_tick(GOLD_PER_SECOND))
        } else {
            r.gold
        }),
        gathered(r, kind).food == (if kind == 2 || kind == 3 || kind == 4 {
            r.food
        } else {
            r.food.sum(per_tick(FOOD_PER_SECOND))
        }),
{
}

/// What is built endures what the list says, in whole numbers: a town center 800, a wall 200, a farm
/// and a house 220, a tower 300, a barracks 260 and all else 200; a worker endures 50 and a warrior
/// 120.
pub proof fn endurance_is_as_listed(kind: u8)
    ensures
        endurance(kind) == Single::of_int(
            if kind == 0 {
                800
            } else if kind == 2 || kind == 3 {
                220
            } else if kind == 4 {
                300
            } else if kind == 5 {
                260
            } else {
                200
            },
        ),
        (Single { bits: WORKER_HP }) == Single::of_int(50),
        (Single { bits: WARRIOR_HP }) == Single::of_int(120),
{
    vstd::arithmetic::power2::lemma2_to64();
    exact::lemma_small_pattern(800, 14, 135);
    exact::lemma_small_pattern(200, 16, 133);
    exact::lemma_small_pattern(220, 16, 133);
    exact::lemma_small_pattern(300, 15, 134);
    exact::lemma_small_pattern(260, 15, 134);
    exact::lemma_small_pattern(50, 18, 131);
    exact::lemma_small_pattern(120, 17, 132);
}

} // verus!
