use hexrogue::{Entities, Entity, Initiative, InitiativeData, InitiativeSystem};

fn holder(data: &InitiativeData, candidates: &[Entity]) -> Option<Entity> {
    candidates.iter().copied().find(|e| data.has_initiative().contains(*e))
}

fn two_entities(speed_a: i32, speed_b: i32) -> (InitiativeData, Entity, Entity) {
    let mut entities = Entities::new();
    let a = entities.create();
    let b = entities.create();
    let mut data = InitiativeData::new();
    data.initiatives.insert(a, Initiative { current: 0, speed: speed_a });
    data.initiatives.insert(b, Initiative { current: 0, speed: speed_b });
    (data, a, b)
}

#[test]
fn speeds_one_and_three_interleave_three_to_one() {
    let (mut data, a, b) = two_entities(1, 3);
    let mut turns = Vec::new();
    for _ in 0..200 {
        InitiativeSystem.run(&mut data);
        if let Some(e) = holder(&data, &[a, b]) {
            turns.push(e);
            data.spend_turn(e);
        }
    }
    assert_eq!(&turns[..10], &[a, b, a, a, a, b, a, a, a, b]);
    // In steady state every window of four turns holds three of `a` and one of `b`.
    for window in turns[2..].chunks_exact(4) {
        assert_eq!(window.iter().filter(|e| **e == a).count(), 3);
        assert_eq!(window.iter().filter(|e| **e == b).count(), 1);
    }
}

#[test]
fn nothing_happens_while_someone_holds_the_initiative() {
    let (mut data, a, b) = two_entities(2, 2);
    InitiativeSystem.run(&mut data);
    assert_eq!(holder(&data, &[a, b]), Some(a));
    for _ in 0..5 {
        InitiativeSystem.run(&mut data);
        assert_eq!(holder(&data, &[a, b]), Some(a));
        assert!(!data.has_initiative().contains(b));
        assert_eq!(data.initiatives.get(b), Some(&Initiative { current: 0, speed: 2 }));
    }
}

#[test]
fn ties_go_to_the_lower_index() {
    let (mut data, a, b) = two_entities(5, 5);
    InitiativeSystem.run(&mut data);
    assert_eq!(holder(&data, &[a, b]), Some(a));
    data.spend_turn(a);
    InitiativeSystem.run(&mut data);
    assert_eq!(holder(&data, &[a, b]), Some(b));
}

#[test]
fn every_countdown_goes_down_when_nobody_is_ready() {
    let (mut data, a, b) = two_entities(4, 7);
    data.initiatives.insert(a, Initiative { current: 2, speed: 4 });
    data.initiatives.insert(b, Initiative { current: 5, speed: 7 });
    InitiativeSystem.run(&mut data);
    assert_eq!(holder(&data, &[a, b]), None);
    assert_eq!(data.initiatives.get(a), Some(&Initiative { current: 1, speed: 4 }));
    assert_eq!(data.initiatives.get(b), Some(&Initiative { current: 4, speed: 7 }));
}

#[test]
fn spending_a_turn_resets_the_countdown_to_the_speed() {
    let (mut data, a, b) = two_entities(6, 9);
    InitiativeSystem.run(&mut data);
    data.spend_turn(b);
    assert_eq!(holder(&data, &[a, b]), Some(a));
    assert_eq!(data.initiatives.get(b), Some(&Initiative { current: 0, speed: 9 }));
    data.spend_turn(a);
    assert_eq!(holder(&data, &[a, b]), None);
    assert_eq!(data.initiatives.get(a), Some(&Initiative { current: 6, speed: 6 }));
}

#[test]
fn entities_are_destroyed_at_maintain_and_slots_are_reused() {
    let mut entities = Entities::new();
    let a = entities.create();
    let b = entities.create();
    assert!(entities.is_alive(a) && entities.is_alive(b));
    assert!(entities.delete(a));
    assert!(entities.is_alive(a));
    assert_eq!(entities.maintain(), vec![a]);
    assert!(!entities.is_alive(a));
    assert!(!entities.delete(a));
    let c = entities.create();
    assert_eq!(c.index, a.index);
    assert_ne!(c.generation, a.generation);
    assert!(entities.is_alive(c));
    assert!(!entities.is_alive(a));
    assert!(entities.is_alive(b));
    assert_eq!(entities.entity_at(b.index), Some(b));
    assert_eq!(entities.slots(), 2);
}
