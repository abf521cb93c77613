//! Items, the pressure gauge and the pickup effects.
//!
//! A weighted item pool yields one item per treasure spawn, falling back
//! to a spare schoolbag once the pool runs dry. Picking an item up
//! adjusts the paddle's stats; contacts deal damage to the pressure
//! gauge, which clamps between zero and its maximum.
//!
//! All gameplay quantities are fixed-point milli-units (`1000` is `1.0`).

use crate::fixed::mul_fp;
use crate::inventory::{Ball, Inventory};
use crate::room::{sample_weighted, weight_total};
use vstd::prelude::*;

verus! {

/// The items the dungeon can drop.
#[derive(Clone, Copy, Debug, PartialEq, Eq, Structural)]
pub enum Item {
    Glue,
    Placebo,
    Schoolbag,
    Wheel,
}

/// One weighted entry of the item pool.
#[derive(Clone, Copy, Debug, PartialEq, Eq, Structural)]
pub struct ItemEntity {
    pub item: Item,
    pub weight: usize,
}

/// The pool of items not yet dropped.
#[derive(Debug)]
pub struct ItemPool {
    pub pool: Vec<ItemEntity>,
}

/// The total weight of an item pool.
pub open spec fn item_total(es: Seq<ItemEntity>) -> int
    decreases es.len(),
{
    if es.len() == 0 {
        0
    } else {
        item_total(es.drop_last()) + es.last().weight
    }
}

/// A weight list read off an item pool sums to the pool's total.
proof fn lemma_item_weights_total(es: Seq<ItemEntity>, ws: Seq<usize>)
    requires
        ws.len() == es.len(),
        forall|j: int| 0 <= j < es.len() ==> #[trigger] ws[j] == es[j].weight,
    ensures
        weight_total(ws) == item_total(es),
    decreases es.len(),
{
    if es.len() > 0 {
        assert(forall|j: int|
            0 <= j < es.drop_last().len() ==> #[trigger] ws.drop_last()[j]
                == es.drop_last()[j].weight);
        lemma_item_weights_total(es.drop_last(), ws.drop_last());
    }
}

/// Draws one item from the pool by weight and removes it; an exhausted
/// pool yields a spare schoolbag instead. A non-empty pool whose weights
/// are all zero cannot be drawn from — a fatal content error, reported
/// as nothing.
#[verifier::loop_isolation(false)]
pub fn draw_item(item_pool: &mut ItemPool) -> (r: Option<Item>)
    requires
        old(item_pool).pool@.len() <= 1000,
        forall|j: int|
            0 <= j < old(item_pool).pool@.len() ==> (#[trigger] old(item_pool).pool@[j]).weight
                <= 1_000_000,
    ensures
        old(item_pool).pool@.len() == 0 ==> r == Some(Item::Schoolbag) && final(item_pool).pool@
            == old(item_pool).pool@,
        old(item_pool).pool@.len() > 0 ==> {
            &&& (r is Some <==> item_total(old(item_pool).pool@) > 0)
            &&& (r is None ==> final(item_pool).pool@ == old(item_pool).pool@)
            &&& (r matches Some(it) ==> exists|j: int|
                {
                    &&& 0 <= j < old(item_pool).pool@.len()
                    &&& (#[trigger] old(item_pool).pool@[j]).weight > 0
                    &&& it == old(item_pool).pool@[j].item
                    &&& final(item_pool).pool@ == old(item_pool).pool@.remove(j)
                })
        },
{
    if item_pool.pool.len() == 0 {
        return Some(Item::Schoolbag);
    }
    let mut weights: Vec<usize> = Vec::new();
    let mut j: usize = 0;
    while j < item_pool.pool.len()
        invariant
            0 <= j <= item_pool.pool@.len(),
            weights@.len() == j as int,
            forall|j2: int|
                0 <= j2 < j ==> #[trigger] weights@[j2] == item_pool.pool@[j2].weight,
        decreases item_pool.pool@.len() - j,
    {
        weights.push(item_pool.pool[j].weight);
        j = j + 1;
    }
    proof {
        lemma_item_weights_total(item_pool.pool@, weights@);
        crate::room::lemma_weight_total_upper(weights@, 1_000_000);
        assert(weight_total(weights@) <= 1000 * 1_000_000int) by (nonlinear_arith)
            requires
                weight_total(weights@) <= weights@.len() * 1_000_000 && weights@.len() <= 1000,
        ;
    }
    match sample_weighted(&weights) {
        None => None,
        Some(k) => {
            let entry: ItemEntity = item_pool.pool.remove(k);
            proof {
                assert(old(item_pool).pool@[k as int].weight > 0);
                assert(item_pool.pool@ == old(item_pool).pool@.remove(k as int));
            }
            Some(entry.item)
        },
    }
}

/// The pressure gauge: the health-like depletion meter that triggers
/// death or room-clear when it reaches its maximum.
#[derive(Clone, Copy, Debug, PartialEq, Eq, Structural)]
pub struct Pressure {
    pub current: i64,
    pub max: i64,
}

impl Default for Pressure {
    /// An empty gauge with the standard maximum (`100.0`).
    fn default() -> (r: Self)
        ensures
            r.current == 0,
            r.max == 100_000,
    {
        Pressure { current: 0, max: 100_000 }
    }
}

/// The dungeon-run counters the paddle carries: the current traversal
/// depth and the number of exits each room offers.
#[derive(Clone, Copy, Debug, PartialEq, Eq, Structural)]
pub struct BrickStats {
    pub current_room: usize,
    pub num_exits: usize,
}

impl Default for BrickStats {
    /// A fresh run at the entrance.
    fn default() -> (r: Self)
        ensures
            r.current_room == 0,
            r.num_exits == 0,
    {
        BrickStats { current_room: 0, num_exits: 0 }
    }
}

/// A quantum of damage carried by a projectile or contact.
#[derive(Clone, Copy, Debug, PartialEq, Eq, Structural)]
pub struct Damage {
    pub value: i64,
}

impl Damage {
    pub fn new(value: i64) -> (r: Self)
        ensures
            r.value == value,
    {
        Damage { value }
    }
}

/// A multiplier on the damage a ball deals.
#[derive(Clone, Copy, Debug, PartialEq, Eq, Structural)]
pub struct DamageCoefficient(pub i64);

/// Applies one damage event to a pressure gauge: the new level is the
/// old level plus the damage, clamped between zero and the maximum.
pub fn apply_damage(pressure: &mut Pressure, damage: Damage)
    requires
        0 <= old(pressure).max,
        -1_000_000_000 <= old(pressure).current <= 1_000_000_000,
        -1_000_000_000 <= damage.value <= 1_000_000_000,
    ensures
        final(pressure).max == old(pressure).max,
        final(pressure).current == ({
            let sum = old(pressure).current + damage.value;
            if sum < 0 {
                0int
            } else if sum > old(pressure).max {
                old(pressure).max as int
            } else {
                sum
            }
        }),
{
    let sum: i64 = pressure.current + damage.value;
    if sum < 0 {
        pressure.current = 0;
    } else if sum > pressure.max {
        pressure.current = pressure.max;
    } else {
        pressure.current = sum;
    }
}

/// The fixed touch damage an enemy deals to the paddle (`20.0`).
pub const ENEMY_TOUCH_DAMAGE: i64 = 20_000;

/// Resolves a contact on an enemy: a touching paddle takes the fixed
/// touch damage, while any other body (a ball) deals its own damage
/// scaled by its coefficient to the enemy, which then flashes its hit
/// effect.
pub fn enemy_contact_damage(
    other_is_brick: bool,
    other_damage: Damage,
    other_coefficient: DamageCoefficient,
) -> (r: (Damage, bool))
    requires
        -1_000_000_000 <= other_damage.value <= 1_000_000_000,
        -1_000_000_000 <= other_coefficient.0 <= 1_000_000_000,
    ensures
        other_is_brick ==> r.0.value == ENEMY_TOUCH_DAMAGE && !r.1,
        !other_is_brick ==> r.0.value == mul_fp(other_damage.value as int, other_coefficient.0 as int)
            && r.1,
{
    if other_is_brick {
        (Damage { value: ENEMY_TOUCH_DAMAGE }, false)
    } else {
        proof {
            crate::fixed::lemma_mul_fp_bound(
                other_damage.value as int,
                other_coefficient.0 as int,
                1_000_000_000,
                1_000_000_000,
            );
        }
        let v: i64 = crate::fixed::fmul(other_damage.value, other_coefficient.0);
        (Damage { value: v }, true)
    }
}

/// How far picking up a glue, a placebo or a wheel moves the affected
/// stat (`20.0`).
pub const ITEM_EFFECT_STEP: i64 = 20_000;

/// How many slots a schoolbag adds to the inventory.
pub const SCHOOLBAG_SLOTS: usize = 2;

/// Applies a picked-up item's effect: glue makes the paddle stickier,
/// a placebo releases pressure and raises the tolerance, a schoolbag
/// widens the ball pocket and stuffs two balls into it, and a wheel
/// speeds the paddle up.
pub fn pickup(
    item: Item,
    friction: &mut i64,
    pressure: &mut Pressure,
    speed: &mut i64,
    inventory: &mut Inventory,
)
    requires
        old(inventory).wf(),
        -1_000_000_000 <= *old(friction) <= 1_000_000_000,
        -1_000_000_000 <= *old(speed) <= 1_000_000_000,
        -1_000_000_000 <= old(pressure).current <= 1_000_000_000,
        -1_000_000_000 <= old(pressure).max <= 1_000_000_000,
        old(inventory).spec_capacity() + SCHOOLBAG_SLOTS <= 1_000_000_000,
        old(inventory).spec_balls().len() + SCHOOLBAG_SLOTS <= 1_000_000_000,
    ensures
        final(inventory).wf(),
        item == Item::Glue ==> *final(friction) == *old(friction) + ITEM_EFFECT_STEP
            && *final(speed) == *old(speed) && *final(pressure) == *old(pressure)
            && *final(inventory) == *old(inventory),
        item == Item::Placebo ==> {
            &&& final(pressure).current == (if old(pressure).current - ITEM_EFFECT_STEP < 0 {
                0int
            } else {
                old(pressure).current - ITEM_EFFECT_STEP
            })
            &&& final(pressure).max == old(pressure).max + ITEM_EFFECT_STEP
            &&& *final(friction) == *old(friction)
            &&& *final(speed) == *old(speed)
            &&& *final(inventory) == *old(inventory)
        },
        item == Item::Wheel ==> *final(speed) == *old(speed) + ITEM_EFFECT_STEP && *final(friction)
            == *old(friction) && *final(pressure) == *old(pressure) && *final(inventory) == *old(
            inventory,
        ),
        item == Item::Schoolbag ==> {
            &&& final(inventory).spec_capacity() == old(inventory).spec_capacity()
                + SCHOOLBAG_SLOTS
            &&& final(inventory).spec_index() == old(inventory).spec_index() + SCHOOLBAG_SLOTS
            &&& *final(friction) == *old(friction)
            &&& *final(speed) == *old(speed)
            &&& *final(pressure) == *old(pressure)
        },
{
    match item {
        Item::Glue => {
            *friction = *friction + ITEM_EFFECT_STEP;
        },
        Item::Placebo => {
            let mut current: i64 = pressure.current - ITEM_EFFECT_STEP;
            if current < 0 {
                current = 0;
            }
            pressure.current = current;
            pressure.max = pressure.max + ITEM_EFFECT_STEP;
        },
        Item::Schoolbag => {
            inventory.expansion(SCHOOLBAG_SLOTS);
            let first = inventory.push(Ball::Tennis);
            if first.is_ok() {
                let second = inventory.push(Ball::Tennis);
                if second.is_ok() {
                }
            }
        },
        Item::Wheel => {
            *speed = *speed + ITEM_EFFECT_STEP;
        },
    }
}

} // verus!
