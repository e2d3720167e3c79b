use hexrogue::store::Storage;
use hexrogue::{in_melee_range, take_action, Action, ActionError, CharacterSheet, Intent};
use hexrogue::{
    alien_hatchling, dispatcher, grenade, handle_input, infected_crewmember, main_menu, player, repair_kit,
    use_ground_effect, Coordinate, DealsDamage, Direction, Durability, EffectError, EntityBuilder, Entity,
    GameEngine, HexMap, InInventory, Initiative, Input, Key, LogEntry, Pass, PlayerTurn, RunState, Target,
    Tile, TurnError, Usable, WantsToMove, WantsToPickUp, World,
};

fn open_map(width: i32, height: i32) -> HexMap {
    let mut map = HexMap::new(width, height);
    for coord in map.iter() {
        map.set_tile(coord, Tile::floor());
    }
    map
}

/// An all-floor map of radius 5 with the player in its middle and a monster
/// one step to the north, after the first tick.
fn arena() -> (World, Entity, Entity, Coordinate) {
    let mut world = World::new();
    world.map = open_map(11, 11);
    let middle = Coordinate::from_offset(5, 5);
    let hero = player(world.create_entity()).with(middle).build(&mut world);
    let foe = infected_crewmember(world.create_entity())
        .with(middle.step(Direction::North))
        .build(&mut world);
    dispatcher().dispatch(&mut world);
    world.maintain();
    (world, hero, foe, middle)
}

fn key(letter: char) -> Input {
    Input { key: Some(Key::Letter(letter as u8 - b'A')), control: false, shift: false }
}

#[test]
fn first_tick_gives_the_player_the_initiative_and_indexes_the_map() {
    let (world, hero, foe, middle) = arena();
    assert_eq!(world.player, hero);
    assert!(world.player_has_initiative());
    assert!(!world.initiative.has_initiative().contains(foe));
    let tile = world.map.tile(middle.step(Direction::North)).unwrap();
    assert_eq!(tile.iter(), &vec![foe]);
    assert!(tile.is_blocked());
    let under_hero = world.map.tile(middle).unwrap();
    assert_eq!(under_hero.iter(), &vec![hero]);
    assert!(!under_hero.is_blocked());
    assert!(world.viewsheds.get(hero).unwrap().is_visible(middle.step(Direction::North)));
    assert!(!world.viewsheds.get(hero).unwrap().is_dirty());
    assert!(world.map.tile(middle).unwrap().is_revealed());
}

#[test]
fn moving_into_a_monster_strikes_it_instead() {
    let (mut world, hero, foe, middle) = arena();
    assert_eq!(PlayerTurn::attack_or_move(&mut world, Direction::North), Ok(RunState::Running));
    // A use of the player's own effect on the monster is queued; no move is.
    assert_eq!(world.intents.being_used.get(hero).unwrap().0, vec![foe]);
    assert!(world.intents.wants_to_move.is_empty());
    assert_eq!(world.targeting.get(hero), Some(Target(foe)));
    assert!(!world.player_has_initiative());
    assert_eq!(world.initiative.initiatives.get(hero), Some(&Initiative { current: 1, speed: 1 }));

    dispatcher().dispatch(&mut world);
    world.maintain();

    // The player has not moved, and the monster lost max(0, 5 - 1) health.
    assert_eq!(world.coordinates.get(hero), Some(&middle));
    assert_eq!(world.durabilities.get(foe).unwrap().health(), (12, 16));
    // The monster struck back in the same tick: max(0, 4 - 2).
    assert_eq!(world.durabilities.get(hero).unwrap().health(), (28, 30));
    let log = world.game_log.entries();
    assert_eq!(log[0], LogEntry::Welcome);
    assert_eq!(
        log[1],
        LogEntry::Damage { source: "Player".to_string(), target: "Infected Crewmember".to_string(), amount: 4 }
    );
    assert_eq!(
        log[2],
        LogEntry::Damage { source: "Infected Crewmember".to_string(), target: "Player".to_string(), amount: 2 }
    );
    assert!(world.intents.being_used.is_empty());
}

#[test]
fn moving_onto_a_free_cell_moves() {
    let (mut world, hero, _, middle) = arena();
    let dest = middle.step(Direction::South);
    assert_eq!(handle_input(&key('S'), &mut world), RunState::Running);
    assert_eq!(world.last_rejection, None);
    assert_eq!(world.intents.wants_to_move.get(hero), Some(&WantsToMove(dest)));
    assert_eq!(world.coordinates.get(hero), Some(&middle));
    dispatcher().dispatch(&mut world);
    assert_eq!(world.coordinates.get(hero), Some(&dest));
    assert!(world.intents.wants_to_move.is_empty());
    assert_eq!(world.map.tile(dest).unwrap().iter(), &vec![hero]);
    assert!(world.map.tile(middle).unwrap().iter().is_empty());
}

#[test]
fn moving_into_a_wall_is_rejected_and_spends_no_turn() {
    let (mut world, hero, _, middle) = arena();
    world.map.set_tile(middle.step(Direction::South), Tile::wall());
    assert_eq!(
        PlayerTurn::attack_or_move(&mut world, Direction::South),
        Err(TurnError::MovementBlocked)
    );
    assert!(world.player_has_initiative());
    assert!(world.intents.wants_to_move.is_empty());
    assert_eq!(handle_input(&key('S'), &mut world), RunState::AwaitingInput);
    assert_eq!(world.last_rejection, Some(TurnError::MovementBlocked));
    assert_eq!(world.coordinates.get(hero), Some(&middle));
}

#[test]
fn a_move_is_judged_when_it_is_carried_out() {
    let (mut world, hero, _, middle) = arena();
    let dest = middle.step(Direction::South);
    world.intents.wants_to_move(hero, dest);
    // The cell is blocked after the wish was made.
    world.map.block(dest);
    dispatcher().dispatch(&mut world);
    assert_eq!(world.coordinates.get(hero), Some(&middle));
    assert!(world.intents.wants_to_move.is_empty());
}

#[test]
fn no_wish_survives_a_tick() {
    let (mut world, hero, foe, _) = arena();
    let stranger = Entity { index: 40, generation: 3 };
    world.intents.wants_to_move(stranger, Coordinate::new(2, 2));
    world.intents.wants_to_move(foe, Coordinate::new(-5, -5));
    world.intents.wants_to_pick_up(hero, stranger);
    world.intents.wants_to_use(stranger, hero);
    let before: Vec<_> = [hero, foe].iter().map(|e| *world.coordinates.get(*e).unwrap()).collect();
    let health = world.durabilities.get(hero).unwrap().health();
    dispatcher().dispatch(&mut world);
    world.maintain();
    assert!(world.intents.wants_to_move.is_empty());
    assert!(world.intents.wants_to_pick_up.is_empty());
    assert!(world.intents.being_used.is_empty());
    let after: Vec<_> = [hero, foe].iter().map(|e| *world.coordinates.get(*e).unwrap()).collect();
    assert_eq!(before, after);
    assert_eq!(world.durabilities.get(hero).unwrap().health(), health);
    // The next tick finds nothing left to do for these wishes.
    dispatcher().dispatch(&mut world);
    let again: Vec<_> = [hero, foe].iter().map(|e| *world.coordinates.get(*e).unwrap()).collect();
    assert_eq!(before, again);
}

#[test]
fn a_monster_out_of_reach_steps_towards_the_player() {
    let mut world = World::new();
    world.map = open_map(11, 11);
    let middle = Coordinate::from_offset(5, 5);
    let hero = player(world.create_entity()).with(middle).build(&mut world);
    let lair = Coordinate::from_offset(5, 1);
    let foe = alien_hatchling(world.create_entity()).with(lair).build(&mut world);
    // First tick: the player receives the initiative; everyone looks around.
    dispatcher().dispatch(&mut world);
    world.initiative.spend_turn(hero);
    // Second tick: the monster receives the initiative and decides.
    dispatcher().dispatch(&mut world);
    let at = *world.coordinates.get(foe).unwrap();
    assert_eq!(lair.distance(at), 1);
    assert_eq!(at.distance(middle), lair.distance(middle) - 1);
    assert!(!world.initiative.has_initiative().contains(foe));
    assert!(world.viewsheds.get(foe).unwrap().is_visible(middle));
}

#[test]
fn a_dead_monster_leaves_the_map_and_is_destroyed_at_maintain() {
    let (mut world, hero, foe, middle) = arena();
    world.deals_damage.insert(hero, DealsDamage(99));
    assert_eq!(PlayerTurn::attack_or_move(&mut world, Direction::North), Ok(RunState::Running));
    dispatcher().dispatch(&mut world);
    assert_eq!(world.coordinates.get(foe), None);
    assert!(world.entities.is_alive(foe));
    assert!(world.durabilities.contains(foe));
    assert!(world.map.tile(middle.step(Direction::North)).unwrap().iter().is_empty());
    assert!(!world.map.tile(middle.step(Direction::North)).unwrap().is_blocked());
    assert_eq!(world.targeting.get(hero), None);
    world.maintain();
    assert!(!world.entities.is_alive(foe));
    assert!(!world.durabilities.contains(foe));
    assert!(!world.monsters.contains(foe));
    let log = world.game_log.entries();
    assert_eq!(*log.last().unwrap(), LogEntry::Death { victim: "Infected Crewmember".to_string() });
}

#[test]
fn a_dead_player_is_restored() {
    let (mut world, hero, _, _) = arena();
    let mut durability = *world.durabilities.get(hero).unwrap();
    durability.take_damage(500);
    assert!(!durability.is_alive());
    world.durabilities.insert(hero, durability);
    dispatcher().dispatch(&mut world);
    world.maintain();
    assert!(world.entities.is_alive(hero));
    assert_eq!(world.durabilities.get(hero).unwrap().health(), (30, 30));
    assert!(world.game_log.entries().contains(&LogEntry::PlayerDeath));
}

#[test]
fn picking_up_and_using_a_repair_kit() {
    let (mut world, hero, _, middle) = arena();
    let kit = repair_kit(world.create_entity()).with(middle).build(&mut world);
    assert_eq!(PlayerTurn::pick_up_item(&mut world), Err(TurnError::NothingToPickUp));
    dispatcher().dispatch(&mut world);
    world.maintain();
    // The tick gave the monster its turn; let the player's turn come round.
    let mut engine = GameEngine { world, dispatcher: dispatcher(), run_state: RunState::Running };
    while engine.run() != RunState::AwaitingInput {}
    let mut world = engine.world;
    assert_eq!(handle_input(&key('G'), &mut world), RunState::Running);
    assert_eq!(world.intents.wants_to_pick_up.get(hero), Some(&WantsToPickUp(kit)));
    dispatcher().dispatch(&mut world);
    world.maintain();
    assert_eq!(world.coordinates.get(kit), None);
    assert_eq!(world.in_inventory.get(kit), Some(&InInventory(hero)));
    assert_eq!(world.inventory.0, vec![kit]);
    assert!(world
        .game_log
        .entries()
        .contains(&LogEntry::PlayerPickup { item: "Repair Kit".to_string() }));

    let wounded = world.durabilities.get(hero).unwrap().health().0;
    assert!(wounded < 30);
    world.initiative.has_initiative.insert(hero, hexrogue::HasInitiative);
    let use_first = Input { key: Some(Key::Letter(0)), control: true, shift: false };
    assert_eq!(handle_input(&use_first, &mut world), RunState::Running);
    assert_eq!(world.intents.being_used.get(kit).unwrap().0, vec![hero]);
    dispatcher().dispatch(&mut world);
    assert!(world.durabilities.get(hero).unwrap().health().0 > wounded);
    assert_eq!(world.in_inventory.get(kit), None);
    assert_eq!(world.inventory.0, vec![]);
    assert!(world.entities.is_alive(kit));
    world.maintain();
    assert!(!world.entities.is_alive(kit));
    assert!(!world.usables.contains(kit));
}

#[test]
fn using_an_item_needs_an_item_a_use_and_a_target() {
    let (mut world, hero, foe, middle) = arena();
    assert_eq!(PlayerTurn::use_item(&mut world, 0), Err(TurnError::NoSuchItem));
    let bomb = grenade(world.create_entity()).build(&mut world);
    let junk = EntityBuilder::new().build(&mut world);
    world.inventory.0.push(bomb);
    world.inventory.0.push(junk);
    assert_eq!(PlayerTurn::use_item(&mut world, 1), Err(TurnError::NotUsable));
    assert_eq!(PlayerTurn::use_item(&mut world, 0), Err(TurnError::NoTarget));
    world.targeting.set_target(hero, Some(foe));
    world.coordinates.insert(foe, middle.step(Direction::North).step(Direction::North));
    assert_eq!(PlayerTurn::use_item(&mut world, 0), Ok(RunState::Running));
    assert_eq!(world.intents.being_used.get(bomb).unwrap().0, vec![foe]);
    assert!(!world.player_has_initiative());
}

#[test]
fn a_target_must_be_alive_and_within_range() {
    let (mut world, hero, foe, middle) = arena();
    let intents = &mut world.intents;
    let far = Coordinate::from_offset(5, 0);
    world.coordinates.insert(foe, far);
    assert_eq!(
        hexrogue::EffectUsage::use_on_target(
            intents,
            &world.usables,
            &world.coordinates,
            &world.durabilities,
            hero,
            hero,
            foe
        ),
        Err(EffectError::OutOfRange)
    );
    world.coordinates.insert(foe, middle.step(Direction::North));
    let mut dead = *world.durabilities.get(foe).unwrap();
    dead.take_damage(100);
    world.durabilities.insert(foe, dead);
    assert_eq!(
        hexrogue::try_use_effect(
            intents,
            &world.usables,
            &world.coordinates,
            &world.durabilities,
            &world.map,
            hero,
            hero,
            hexrogue::EffectTarget::Entity(foe)
        ),
        Err(EffectError::InvalidTarget)
    );
    assert_eq!(
        hexrogue::try_use_effect(
            intents,
            &world.usables,
            &world.coordinates,
            &world.durabilities,
            &world.map,
            hero,
            hero,
            hexrogue::EffectTarget::User
        ),
        Err(EffectError::NotUsable)
    );
    assert!(intents.being_used.is_empty());
}

#[test]
fn an_effect_on_the_ground_strikes_every_occupant() {
    let (mut world, hero, foe, middle) = arena();
    let cell = middle.step(Direction::North);
    let second = alien_hatchling(world.create_entity()).with(cell).build(&mut world);
    dispatcher().dispatch(&mut world);
    world.maintain();
    let mut mine = EntityBuilder::new();
    mine.usable = Some(Usable::OnGround { range: 3 });
    mine.deals_damage = Some(DealsDamage(6));
    mine.appearance = Some(hexrogue::Appearance::item("Mine", 'm', hexrogue::appearance::ORANGE));
    let mine = mine.build(&mut world);
    world.inventory.0.push(mine);
    let health: Vec<i32> =
        [foe, second].iter().map(|e| world.durabilities.get(*e).unwrap().health().0).collect();

    assert_eq!(PlayerTurn::use_item(&mut world, 0), Ok(RunState::TargetGround(mine)));
    assert_eq!(world.reticule.as_ref().unwrap().cursor, middle);
    let none = Input { key: None, control: false, shift: false };
    assert_eq!(use_ground_effect(mine, &none, &mut world), RunState::TargetGround(mine));
    assert_eq!(use_ground_effect(mine, &key('W'), &mut world), RunState::TargetGround(mine));
    assert_eq!(world.reticule.as_ref().unwrap().cursor, cell);
    let pick = Input { key: Some(Key::Return), control: false, shift: false };
    assert_eq!(use_ground_effect(mine, &pick, &mut world), RunState::Running);
    assert!(world.reticule.is_none());
    assert_eq!(world.intents.being_used.get(mine).unwrap().0, vec![foe, second]);
    dispatcher().dispatch(&mut world);
    for (e, before) in [foe, second].iter().zip(health) {
        assert_eq!(world.durabilities.get(*e).unwrap().health().0, before - 5);
    }
    let _ = hero;
}

#[test]
fn the_reticule_can_be_given_up() {
    let (mut world, _, _, _) = arena();
    assert_eq!(
        use_ground_effect(Entity { index: 9, generation: 0 }, &key('W'), &mut world),
        RunState::AwaitingInput
    );
    world.reticule = Some(hexrogue::TargetingReticule::new(Coordinate::from_offset(5, 5), 2, &world.map));
    let escape = Input { key: Some(Key::Escape), control: false, shift: false };
    assert_eq!(
        use_ground_effect(Entity { index: 9, generation: 0 }, &escape, &mut world),
        RunState::AwaitingInput
    );
    assert!(world.reticule.is_none());
}

#[test]
fn tab_cycles_through_the_monsters_in_view() {
    let (mut world, hero, foe, middle) = arena();
    let second = alien_hatchling(world.create_entity())
        .with(middle.step(Direction::South))
        .build(&mut world);
    let tab = Input { key: Some(Key::Tab), control: false, shift: false };
    let back = Input { key: Some(Key::Tab), control: false, shift: true };
    assert_eq!(handle_input(&tab, &mut world), RunState::AwaitingInput);
    assert_eq!(world.targeting.get(hero), Some(Target(foe)));
    assert_eq!(handle_input(&tab, &mut world), RunState::AwaitingInput);
    assert_eq!(world.targeting.get(hero), Some(Target(second)));
    assert_eq!(handle_input(&tab, &mut world), RunState::AwaitingInput);
    assert_eq!(world.targeting.get(hero), Some(Target(second)));
    assert_eq!(handle_input(&back, &mut world), RunState::AwaitingInput);
    assert_eq!(world.targeting.get(hero), Some(Target(foe)));
    assert!(world.player_has_initiative());
}

#[test]
fn shields_regenerate_for_the_entity_whose_turn_it_is() {
    let (mut world, hero, foe, _) = arena();
    let mut shielded = Durability::new(30, 2).with_shield(10, 1);
    shielded.take_damage(8);
    shielded.regenerate();
    assert_eq!(shielded.shield(), Some((3, 10)));
    world.durabilities.insert(hero, shielded);
    world.durabilities.insert(foe, shielded);
    hexrogue::ShieldRegenSystem.run(&mut world.durabilities, world.initiative.has_initiative());
    assert_eq!(world.durabilities.get(hero).unwrap().shield(), Some((8, 10)));
    assert_eq!(world.durabilities.get(foe).unwrap().shield(), Some((3, 10)));
}

#[test]
fn the_schedule_runs_every_pass_after_those_it_depends_on() {
    let order = dispatcher().passes();
    assert_eq!(order.len(), 11);
    let place = |pass: Pass| order.iter().position(|p| *p == pass).unwrap();
    assert!(place(Pass::Initiative) < place(Pass::MonsterAI));
    assert!(place(Pass::MonsterAI) < place(Pass::Movement));
    assert!(place(Pass::Movement) < place(Pass::Visibility));
    assert!(place(Pass::Visibility) < place(Pass::IndexMap));
    assert!(place(Pass::EffectUse) < place(Pass::ShieldRegen));
    assert!(place(Pass::EffectUse) < place(Pass::Death));
    assert!(place(Pass::ItemPickup) < place(Pass::PlayerInventory));
    assert!(place(Pass::Death) < place(Pass::ClearTarget));
    assert!(place(Pass::Death) < place(Pass::IndexMap));
}

#[test]
fn the_menu_starts_a_game_or_quits() {
    assert_eq!(main_menu(Some(Key::Letter(13))), RunState::NewGame);
    assert_eq!(main_menu(Some(Key::Letter(16))), RunState::Quitting);
    assert_eq!(main_menu(Some(Key::Letter(12))), RunState::MainMenu);
    assert_eq!(main_menu(None), RunState::MainMenu);
}

#[test]
fn the_engine_steps_through_its_states() {
    let mut engine = GameEngine::new();
    assert_eq!(engine.run_state, RunState::NewGame);
    let none = Input { key: None, control: false, shift: false };
    assert_eq!(engine.tick(&none), RunState::NewGame);
    let (world, hero, _, middle) = arena();
    engine.world = world;
    engine.run_state = RunState::AwaitingInput;
    assert_eq!(engine.tick(&none), RunState::AwaitingInput);
    assert_eq!(engine.tick(&key('S')), RunState::Running);
    assert_eq!(engine.tick(&none), RunState::AwaitingInput);
    assert!(engine.player_has_initiative());
    assert_eq!(engine.world.coordinates.get(hero), Some(&middle.step(Direction::South)));
    let escape = Input { key: Some(Key::Escape), control: false, shift: false };
    assert_eq!(engine.tick(&escape), RunState::Quitting);
    assert_eq!(engine.tick(&key('S')), RunState::Quitting);
}

#[test]
fn tables_hold_one_component_per_slot() {
    let mut table: Storage<i32> = Storage::new();
    let old = Entity { index: 2, generation: 0 };
    let new = Entity { index: 2, generation: 1 };
    assert_eq!(table.insert(old, 7), None);
    assert_eq!(table.get(old), Some(&7));
    assert_eq!(table.get(new), None);
    assert_eq!(table.insert(new, 8), None);
    assert_eq!(table.get(old), None);
    assert_eq!(table.insert(new, 9), Some(8));
    assert_eq!(table.entry(2), Some((new, &9)));
    assert_eq!(table.entry(1), None);
    assert_eq!(table.remove(old), None);
    assert_eq!(table.remove(new), Some(9));
    assert!(table.is_empty());
}

#[test]
fn taking_an_action_records_a_wish_to_move() {
    let (mut world, hero, foe, middle) = arena();
    assert_eq!(take_action(&mut world, hero, Action::Move(Direction::South)), Ok(()));
    assert_eq!(
        world.intents.wants_to_move.get(hero),
        Some(&WantsToMove(middle.step(Direction::South)))
    );
    // The monster blocks its tile.
    assert_eq!(
        take_action(&mut world, hero, Action::Move(Direction::North)),
        Err(ActionError::MovementBlocked)
    );
    assert_eq!(
        world.intents.wants_to_move.get(hero),
        Some(&WantsToMove(middle.step(Direction::South)))
    );
    assert_eq!(take_action(&mut world, foe, Action::Move(Direction::South)), Ok(()));
    let stranger = Entity { index: 77, generation: 0 };
    assert_eq!(take_action(&mut world, stranger, Action::Move(Direction::South)), Ok(()));
    assert_eq!(world.intents.wants_to_move.get(stranger), None);
    assert!(world.player_has_initiative());
}

#[test]
fn a_new_entity_takes_over_nothing_from_its_slot() {
    let (mut world, _, foe, _) = arena();
    world.entities.delete(foe);
    world.entities.maintain();
    // The tables were not tidied; the slot still holds what the monster had.
    assert!(world.monsters.contains(foe));
    let kit = repair_kit(world.create_entity()).build(&mut world);
    assert_eq!(kit.index, foe.index);
    assert!(!world.monsters.contains(kit));
    assert!(!world.monsters.contains(foe));
    assert!(!world.durabilities.contains(foe));
    assert!(world.items.contains(kit));
    assert_eq!(world.coordinates.get(kit), None);
}

#[test]
fn melee_reaches_one_step() {
    let at = Coordinate::new(3, 3);
    assert!(in_melee_range(at, at));
    for d in Direction::all() {
        assert!(in_melee_range(at, at.step(d)));
        assert!(!in_melee_range(at, at.step(d).step(d)));
    }
    assert!(!in_melee_range(Coordinate::new(i32::MIN, 0), Coordinate::new(i32::MAX, 0)));
}

#[test]
fn character_sheets_block_heal_and_take_damage() {
    let mut sheet = CharacterSheet::new(20, 5, 2);
    assert_eq!(sheet.hp(), (20, 20));
    assert_eq!(sheet.melee_damage(), 5);
    assert_eq!(sheet.block_damage(7), 5);
    assert_eq!(sheet.block_damage(2), 0);
    assert_eq!(sheet.block_damage(-4), 0);
    sheet.apply_damage(8);
    assert_eq!(sheet.hp(), (12, 20));
    sheet.heal(3);
    assert_eq!(sheet.hp(), (15, 20));
    sheet.heal(30);
    assert_eq!(sheet.hp(), (20, 20));
    assert!(sheet.is_alive());
    sheet.apply_damage(25);
    assert_eq!(sheet.hp(), (-5, 20));
    assert!(!sheet.is_alive());
}

#[test]
fn wishes_are_submitted_and_overwritten() {
    let (mut world, hero, foe, middle) = arena();
    world.submit_intent(hero, Intent::Move(Coordinate::new(1, 1)));
    world.submit_intent(hero, Intent::Move(Coordinate::new(2, 2)));
    assert_eq!(world.intents.wants_to_move.get(hero), Some(&WantsToMove(Coordinate::new(2, 2))));
    world.submit_intent(hero, Intent::PickUp(foe));
    assert_eq!(world.intents.wants_to_pick_up.get(hero), Some(&WantsToPickUp(foe)));
    world.submit_intent(hero, Intent::Use(foe));
    assert_eq!(world.intents.being_used.get(hero).unwrap().0, vec![foe]);
    assert_eq!(world.coordinates.get(hero), Some(&middle));
}

#[test]
fn the_world_answers_queries() {
    let (world, hero, foe, middle) = arena();
    let north = middle.step(Direction::North);
    assert_eq!(world.query_occupant(north, &world.monsters), Some(foe));
    assert_eq!(world.query_occupant(north, &world.players), None);
    assert_eq!(world.query_occupant(middle, &world.players), Some(hero));
    assert_eq!(world.query_occupant(Coordinate::new(-4, 0), &world.monsters), None);
    let seen = world.query_visible(hero).unwrap();
    assert!(seen.contains(&north));
    for coord in world.map.iter() {
        assert!(seen.contains(&coord));
    }
    // Light ends off the map; the first cells off the map are seen.
    assert!(seen.contains(&Coordinate::from_offset(5, -1)));
    assert!(!seen.contains(&Coordinate::from_offset(5, -2)));
    assert!(world.query_visible(Entity { index: 50, generation: 0 }).is_none());
    let route = world.query_path(middle, Coordinate::from_offset(5, 9)).unwrap();
    assert_eq!(route.len(), 5);
    assert_eq!(world.query_path(middle, north), None);
}

#[test]
fn the_scheduler_can_be_stepped_alone() {
    let (mut world, hero, foe, _) = arena();
    world.initiative.spend_turn(hero);
    world.step_scheduler();
    assert!(world.initiative.has_initiative().contains(foe));
    world.initiative.spend_turn(foe);
    world.step_scheduler();
    assert!(world.initiative.has_initiative().is_empty());
    world.step_scheduler();
    assert!(world.player_has_initiative());
    let mut engine = GameEngine { world, dispatcher: dispatcher(), run_state: RunState::Running };
    assert_eq!(engine.run_until_player_turn(), RunState::AwaitingInput);
    assert_eq!(engine.run_state, RunState::AwaitingInput);
}
