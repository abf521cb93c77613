//! The ball inventory, the item pool and the pressure gauge.

use brick_dungeon::inventory::{Ball, Inventory};
use brick_dungeon::items::{
    apply_damage, draw_item, enemy_contact_damage, pickup, Damage, DamageCoefficient, Item,
    ItemEntity, ItemPool, Pressure,
};

#[test]
fn inventory_fills_and_drains_like_a_stack() {
    let mut inv = Inventory::new(6, &[Ball::Tennis, Ball::Tennis, Ball::Tennis]);
    assert_eq!(inv.capacity(), 6);
    assert_eq!(inv.index(), 3);
    assert!(!inv.is_empty());
    assert_eq!(inv.peek(), Some(Ball::Tennis));
    assert_eq!(inv.pop(), Some(Ball::Tennis));
    assert_eq!(inv.index(), 2);
    assert_eq!(inv.pop(), Some(Ball::Tennis));
    assert_eq!(inv.pop(), Some(Ball::Tennis));
    assert_eq!(inv.pop(), None);
    assert!(inv.is_empty());
    assert_eq!(inv.peek(), None);
    assert_eq!(inv.push(Ball::Tennis), Ok(()));
    assert_eq!(inv.index(), 1);
    assert_eq!(inv.get(0), Some(Ball::Tennis));
    assert_eq!(inv.get(1), None);
    assert_eq!(inv.get(6), None);
}

#[test]
fn inventory_rejects_pushes_past_its_capacity() {
    let mut inv = Inventory::new(2, &[]);
    assert_eq!(inv.push(Ball::Tennis), Ok(()));
    assert_eq!(inv.push(Ball::Tennis), Ok(()));
    assert_eq!(inv.push(Ball::Tennis), Err(()));
    let mut none = Inventory::new(0, &[]);
    assert_eq!(none.push(Ball::Tennis), Err(()));
}

#[test]
fn inventory_grows_and_shrinks_with_its_contents() {
    let mut inv = Inventory::new(3, &[Ball::Tennis, Ball::Tennis, Ball::Tennis]);
    inv.expansion(2);
    assert_eq!(inv.capacity(), 5);
    assert_eq!(inv.index(), 3);
    assert_eq!(inv.push(Ball::Tennis), Ok(()));
    // Shrinking below the cursor pulls the cursor down.
    inv.redusing(3);
    assert_eq!(inv.capacity(), 2);
    assert_eq!(inv.index(), 2);
    assert_eq!(inv.pop(), Some(Ball::Tennis));
    // Shrinking past the capacity empties the pocket entirely.
    inv.redusing(100);
    assert_eq!(inv.capacity(), 0);
    assert_eq!(inv.index(), 0);
    assert_eq!(inv.pop(), None);
}

#[test]
fn inventory_clear_empties_every_slot() {
    let mut inv = Inventory::new(3, &[Ball::Tennis, Ball::Tennis]);
    inv.clear();
    assert_eq!(inv.get(0), None);
    assert_eq!(inv.get(1), None);
    assert_eq!(inv.get(2), None);
    // The cursor is deliberately left in place.
    assert_eq!(inv.index(), 2);
}

#[test]
fn item_draws_respect_weights_and_exhaustion() {
    // An exhausted pool falls back to a spare schoolbag.
    let mut empty = ItemPool { pool: Vec::new() };
    assert_eq!(draw_item(&mut empty), Some(Item::Schoolbag));
    assert_eq!(empty.pool.len(), 0);

    // A zero-weight entry can never be drawn.
    let mut pool = ItemPool {
        pool: vec![
            ItemEntity { item: Item::Glue, weight: 0 },
            ItemEntity { item: Item::Wheel, weight: 7 },
        ],
    };
    assert_eq!(draw_item(&mut pool), Some(Item::Wheel));
    assert_eq!(pool.pool.len(), 1);
    assert_eq!(pool.pool[0].item, Item::Glue);

    // A pool with nothing but zero weights cannot be drawn from at all.
    let mut dead = ItemPool { pool: vec![ItemEntity { item: Item::Glue, weight: 0 }] };
    assert_eq!(draw_item(&mut dead), None);
    assert_eq!(dead.pool.len(), 1);
}

#[test]
fn pressure_clamps_between_zero_and_its_maximum() {
    let mut p = Pressure::default();
    assert_eq!(p.current, 0);
    assert_eq!(p.max, 100_000);
    apply_damage(&mut p, Damage::new(30_000));
    assert_eq!(p.current, 30_000);
    apply_damage(&mut p, Damage::new(-50_000));
    assert_eq!(p.current, 0);
    apply_damage(&mut p, Damage::new(95_000));
    assert_eq!(p.current, 95_000);
    apply_damage(&mut p, Damage::new(10_000));
    assert_eq!(p.current, 100_000);
}

#[test]
fn enemy_contacts_deal_scaled_or_touch_damage() {
    // The paddle takes the fixed touch damage and no hit flash follows.
    let (d, flash) = enemy_contact_damage(true, Damage::new(10_000), DamageCoefficient(1500));
    assert_eq!(d.value, 20_000);
    assert!(!flash);
    // A ball deals its damage scaled by its coefficient: 10 * 1.5 = 15.
    let (d2, flash2) = enemy_contact_damage(false, Damage::new(10_000), DamageCoefficient(1500));
    assert_eq!(d2.value, 15_000);
    assert!(flash2);
}

#[test]
fn each_item_applies_its_effect() {
    let mut friction: i64 = 1_000;
    let mut speed: i64 = 500_000;
    let mut pressure = Pressure { current: 10_000, max: 100_000 };
    let mut inv = Inventory::new(3, &[Ball::Tennis]);

    pickup(Item::Glue, &mut friction, &mut pressure, &mut speed, &mut inv);
    assert_eq!(friction, 21_000);

    pickup(Item::Wheel, &mut friction, &mut pressure, &mut speed, &mut inv);
    assert_eq!(speed, 520_000);

    // The placebo releases pressure (never below zero) and raises the
    // tolerance.
    pickup(Item::Placebo, &mut friction, &mut pressure, &mut speed, &mut inv);
    assert_eq!(pressure.current, 0);
    assert_eq!(pressure.max, 120_000);

    // The schoolbag widens the pocket by two slots and fills them.
    pickup(Item::Schoolbag, &mut friction, &mut pressure, &mut speed, &mut inv);
    assert_eq!(inv.capacity(), 5);
    assert_eq!(inv.index(), 3);
}
