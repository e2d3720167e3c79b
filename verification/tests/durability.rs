use hexrogue::Durability;

/// 30 health behind a defense of 2, and a shield of 10 with a defense of 1.
fn example() -> Durability {
    Durability::new(30, 2).with_shield(10, 1)
}

/// The example with 28 health left.
fn wounded() -> Durability {
    let mut durability = Durability::new(30, 2);
    assert_eq!(durability.take_damage(4), 2);
    durability.with_shield(10, 1)
}

/// The example with 2 points of shield left.
fn worn() -> Durability {
    let mut durability = example();
    assert_eq!(durability.take_damage(9), 8);
    assert_eq!(durability.shield(), Some((2, 10)));
    assert_eq!(durability.health(), (30, 30));
    durability
}

fn heal_wounded(healing: i32) -> (i32, (i32, i32)) {
    let mut durability = wounded();
    let healing_done = durability.heal(healing);
    (healing_done, durability.health())
}

#[test]
fn cant_heal_past_max_health_no_healing() {
    assert_eq!(heal_wounded(0), (0, (28, 30)));
}

#[test]
fn cant_heal_past_max_health_partial_healing() {
    assert_eq!(heal_wounded(1), (1, (29, 30)));
}

#[test]
fn cant_heal_past_max_health_full_healing() {
    assert_eq!(heal_wounded(2), (2, (30, 30)));
}

#[test]
fn cant_heal_past_max_health_overhealing() {
    assert_eq!(heal_wounded(3), (2, (30, 30)));
}

fn strike_worn(damage: i32) -> (i32, (i32, i32), (i32, i32)) {
    let mut durability = worn();
    let damage_taken = durability.take_damage(damage);
    (damage_taken, durability.health(), durability.shield().unwrap())
}

#[test]
fn deals_damage_through_shields_correctly_no_damage() {
    assert_eq!(strike_worn(0), (0, (30, 30), (2, 10)));
}

#[test]
fn deals_damage_through_shields_correctly_absorbed_by_shield_defense() {
    assert_eq!(strike_worn(1), (0, (30, 30), (2, 10)));
}

#[test]
fn deals_damage_through_shields_correctly_some_damage_to_shield() {
    assert_eq!(strike_worn(2), (1, (30, 30), (1, 10)));
}

#[test]
fn deals_damage_through_shields_correctly_broken_shield() {
    assert_eq!(strike_worn(3), (2, (30, 30), (0, 10)));
}

#[test]
fn deals_damage_through_shields_correctly_overflow_absorbed() {
    assert_eq!(strike_worn(5), (2, (30, 30), (0, 10)));
}

#[test]
fn deals_damage_through_shields_correctly_shield_and_health() {
    assert_eq!(strike_worn(6), (3, (29, 30), (0, 10)));
}

#[test]
fn deals_damage_through_shields_correctly_overkill() {
    assert_eq!(strike_worn(99), (32, (0, 30), (0, 10)));
}

#[test]
fn shield_defense_doesnt_apply_when_there_is_no_shield() {
    let mut durability = Durability::new(30, 2);
    assert_eq!(durability.shield(), None);
    assert_eq!(durability.take_damage(3), 1);
    assert_eq!(durability.health(), (29, 30));
}

#[test]
fn shield_defense_doesnt_apply_when_shield_is_broken() {
    let mut durability = example();
    assert_eq!(durability.take_damage(11), 10);
    assert_eq!(durability.shield(), Some((0, 10)));
    assert_eq!(durability.health(), (30, 30));
    assert_eq!(durability.take_damage(3), 1);
    assert_eq!(durability.health(), (29, 30));
}

#[test]
fn health_stays_within_its_bounds() {
    for x in 0..40 {
        for y in -5..70 {
            let mut durability = wounded();
            durability.heal(x);
            durability.take_damage(y);
            let (health, max_health) = durability.health();
            assert!(0 <= health && health <= max_health);
            let (shield, max_shield) = durability.shield().unwrap();
            assert!(0 <= shield && shield <= max_shield);
        }
    }
}

#[test]
fn negative_defense_adds_to_the_damage() {
    let mut durability = Durability::new(10, -2);
    assert_eq!(durability.take_damage(3), 5);
    assert_eq!(durability.health(), (5, 10));
    assert!(durability.is_alive());
    assert_eq!(durability.take_damage(3), 5);
    assert!(!durability.is_alive());
}

#[test]
fn shield_regenerates_only_after_a_tick_without_damage() {
    let mut durability = example();
    durability.take_damage(9);
    assert_eq!(durability.shield(), Some((2, 10)));
    durability.regenerate();
    assert_eq!(durability.shield(), Some((2, 10)));
    durability.regenerate();
    assert_eq!(durability.shield(), Some((7, 10)));
    durability.regenerate();
    assert_eq!(durability.shield(), Some((10, 10)));
}

#[test]
fn reviving_restores_full_health() {
    let mut durability = Durability::new(30, 2);
    durability.take_damage(99);
    assert_eq!(durability.health(), (0, 30));
    durability.revive();
    assert_eq!(durability.health(), (30, 30));
}
