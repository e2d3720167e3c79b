use bracket_lib::random::RandomNumberGenerator;
use hexrogue::game::RunState as PlainState;
use hexrogue::simple::{build_rooms_and_corridors, Rect};
use hexrogue::store::Storage;
use hexrogue::{Action, DeckBuilder, Direction, Input, Key, State};
use hexrogue::{
    visualize_map, Appearance, BeingUsed, CharacterSheet, DealsDamage, Entities, Entity, GameLog, InInventory,
    ItemUseSystem, LogEntry, MaintainCharacterSheetSystem, MapBuilder, MapVisualizerState, MeleeCombatSystem,
    Player, ProvidesHealing, SimpleMapBuilder, TileType, WantsToMelee, World,
};

struct Cast {
    entities: Entities,
    names: Storage<Appearance>,
    sheets: Storage<CharacterSheet>,
    damages: Storage<DealsDamage>,
    log: GameLog,
}

impl Cast {
    fn new() -> Self {
        Cast {
            entities: Entities::new(),
            names: Storage::new(),
            sheets: Storage::new(),
            damages: Storage::new(),
            log: GameLog::new(),
        }
    }

    fn character(&mut self, name: &str, hp: i32, power: i32, defense: i32) -> Entity {
        let e = self.entities.create();
        self.names.insert(e, Appearance::monster(name, 'x', 0xFF0000));
        self.sheets.insert(e, CharacterSheet::new(hp, power, defense));
        self.damages.insert(e, DealsDamage(power));
        e
    }
}

#[test]
fn blows_are_struck_at_once_and_summed() {
    let mut cast = Cast::new();
    let orc = cast.character("Orc", 10, 6, 1);
    let elf = cast.character("Elf", 8, 5, 2);
    let imp = cast.character("Imp", 3, 2, 0);
    let mut wishes: Storage<WantsToMelee> = Storage::new();
    wishes.insert(orc, WantsToMelee(elf));
    wishes.insert(elf, WantsToMelee(orc));
    wishes.insert(imp, WantsToMelee(elf));
    MeleeCombatSystem.run(&cast.names, &cast.damages, &mut cast.sheets, &mut wishes, &mut cast.log);
    assert!(wishes.is_empty());
    // The elf blocks 2 of each blow: 4 from the orc, nothing from the imp.
    assert_eq!(cast.sheets.get(elf).unwrap().hp(), (4, 8));
    assert_eq!(cast.sheets.get(orc).unwrap().hp(), (6, 10));
    assert_eq!(cast.sheets.get(imp).unwrap().hp(), (3, 3));
    let log = cast.log.entries();
    assert_eq!(log.len(), 4);
    assert_eq!(log[1], LogEntry::Damage { source: "Orc".to_string(), target: "Elf".to_string(), amount: 4 });
    assert_eq!(log[2], LogEntry::Damage { source: "Elf".to_string(), target: "Orc".to_string(), amount: 4 });
    assert_eq!(log[3], LogEntry::Harmless { source: "Imp".to_string(), target: "Elf".to_string() });
}

#[test]
fn the_dead_neither_strike_nor_are_struck() {
    let mut cast = Cast::new();
    let orc = cast.character("Orc", 10, 60, 1);
    let elf = cast.character("Elf", 0, 5, 2);
    let mut wishes: Storage<WantsToMelee> = Storage::new();
    wishes.insert(orc, WantsToMelee(elf));
    wishes.insert(elf, WantsToMelee(orc));
    MeleeCombatSystem.run(&cast.names, &cast.damages, &mut cast.sheets, &mut wishes, &mut cast.log);
    assert_eq!(cast.sheets.get(elf).unwrap().hp(), (0, 0));
    assert_eq!(cast.sheets.get(orc).unwrap().hp(), (10, 10));
    assert_eq!(cast.log.entries().len(), 1);
}

#[test]
fn two_blows_against_one_target_add_up() {
    let mut cast = Cast::new();
    let orc = cast.character("Orc", 10, 6, 1);
    let elf = cast.character("Elf", 8, 5, 0);
    let imp = cast.character("Imp", 3, 2, 0);
    let mut wishes: Storage<WantsToMelee> = Storage::new();
    wishes.insert(elf, WantsToMelee(orc));
    wishes.insert(imp, WantsToMelee(orc));
    MeleeCombatSystem.run(&cast.names, &cast.damages, &mut cast.sheets, &mut wishes, &mut cast.log);
    assert_eq!(cast.sheets.get(orc).unwrap().hp(), (10 - 4 - 1, 10));
}

#[test]
fn an_item_is_used_up_by_its_use() {
    let mut cast = Cast::new();
    let orc = cast.character("Orc", 10, 6, 1);
    let elf = cast.character("Elf", 8, 5, 2);
    let potion = cast.entities.create();
    let bomb = cast.entities.create();
    cast.names.insert(potion, Appearance::item("Potion", '!', 0xFFA500));
    cast.names.insert(bomb, Appearance::item("Bomb", '*', 0xFFA500));
    let mut heals: Storage<ProvidesHealing> = Storage::new();
    heals.insert(potion, ProvidesHealing(5));
    let mut deals: Storage<DealsDamage> = Storage::new();
    deals.insert(bomb, DealsDamage(7));
    let mut carried: Storage<InInventory> = Storage::new();
    carried.insert(potion, InInventory(elf));
    carried.insert(bomb, InInventory(elf));
    let mut wounded = *cast.sheets.get(elf).unwrap();
    wounded.apply_damage(6);
    cast.sheets.insert(elf, wounded);
    let mut uses: Storage<BeingUsed> = Storage::new();
    uses.insert(potion, BeingUsed(vec![elf]));
    uses.insert(bomb, BeingUsed(vec![orc]));
    ItemUseSystem.run(
        &mut cast.entities,
        &mut cast.sheets,
        &mut uses,
        &deals,
        &heals,
        &mut carried,
        &cast.names,
        &mut cast.log,
    );
    assert!(uses.is_empty());
    assert_eq!(cast.sheets.get(elf).unwrap().hp(), (7, 8));
    assert_eq!(cast.sheets.get(orc).unwrap().hp(), (4, 10));
    assert!(carried.is_empty());
    assert!(cast.entities.is_alive(potion));
    assert_eq!(cast.entities.maintain(), vec![potion, bomb]);
    let log = cast.log.entries();
    assert_eq!(log[1], LogEntry::Healing { source: "Potion".to_string(), target: "Elf".to_string(), amount: 5 });
    assert_eq!(log[2], LogEntry::Damage { source: "Bomb".to_string(), target: "Orc".to_string(), amount: 6 });
}

#[test]
fn the_fallen_are_buried_and_the_player_restored() {
    let mut cast = Cast::new();
    let hero = cast.character("Hero", 10, 6, 1);
    let orc = cast.character("Orc", 10, 6, 1);
    let elf = cast.character("Elf", 8, 5, 2);
    let mut players: Storage<Player> = Storage::new();
    players.insert(hero, Player);
    for e in [hero, orc] {
        let mut sheet = *cast.sheets.get(e).unwrap();
        sheet.apply_damage(12);
        cast.sheets.insert(e, sheet);
    }
    MaintainCharacterSheetSystem.run(&mut cast.entities, &players, &cast.names, &mut cast.sheets, &mut cast.log);
    assert_eq!(cast.sheets.get(hero).unwrap().hp(), (10, 10));
    assert_eq!(cast.sheets.get(orc).unwrap().hp(), (-2, 10));
    assert_eq!(cast.sheets.get(elf).unwrap().hp(), (8, 8));
    assert_eq!(cast.entities.maintain(), vec![orc]);
    let log = cast.log.entries();
    assert_eq!(log[1], LogEntry::PlayerDeath);
    assert_eq!(log[2], LogEntry::Death { victim: "Orc".to_string() });
}

#[test]
fn rectangles_touch_with_their_borders() {
    let a = Rect::with_size(2, 2, 3, 3);
    assert_eq!(a, Rect { x1: 2, x2: 5, y1: 2, y2: 5 });
    assert!(a.intersect(&Rect::with_size(5, 5, 2, 2)));
    assert!(!a.intersect(&Rect::with_size(6, 2, 2, 2)));
    assert!(a.intersect(&Rect::with_size(0, 0, 9, 9)));
    assert_eq!(a.center(), hexrogue::Coordinate::from_offset(3, 3));
}

#[test]
fn rooms_keep_a_wall_between_them_and_are_joined() {
    for seed in 0..20 {
        let mut rng = RandomNumberGenerator::seeded(seed);
        let (rooms, corridors) = build_rooms_and_corridors(80, 60, &mut rng);
        assert!(!rooms.is_empty() && rooms.len() <= 30);
        assert_eq!(corridors.len(), rooms.len() - 1);
        for (i, room) in rooms.iter().enumerate() {
            assert!((6..=10).contains(&(room.x2 - room.x1)));
            assert!((6..=10).contains(&(room.y2 - room.y1)));
            assert!(1 <= room.x1 && room.x2 < 79 && 1 <= room.y1 && room.y2 < 59);
            for other in &rooms[..i] {
                let walled = Rect { x1: room.x1 - 1, x2: room.x2 + 1, y1: room.y1 - 1, y2: room.y2 + 1 };
                assert!(!other.intersect(&walled));
            }
        }
        for (k, corridor) in corridors.iter().enumerate() {
            assert_eq!(corridor[0], rooms[k].center());
            assert_eq!(*corridor.last().unwrap(), rooms[k + 1].center());
        }
    }
}

#[test]
fn a_simple_map_has_floor_in_rooms_and_corridors_only() {
    let mut rng = RandomNumberGenerator::seeded(5);
    let builder = SimpleMapBuilder::new(40, 30, &mut rng);
    let rooms = builder.rooms_drawn().clone();
    let mut again = RandomNumberGenerator::seeded(5);
    let (same_rooms, corridors) = build_rooms_and_corridors(40, 30, &mut again);
    assert_eq!(rooms, same_rooms);
    let map = builder.build();
    assert_eq!(map.dimensions(), (40, 30));
    for coord in map.iter() {
        let in_room = rooms.iter().any(|r| {
            r.x1 <= coord.col() && coord.col() < r.x2 && (r.y1 as i64) <= coord.row() && coord.row() < r.y2 as i64
        });
        let on_corridor = corridors.iter().any(|c| c.contains(&coord));
        assert_eq!(map.tile(coord).unwrap().tile_type() == TileType::Floor, in_room || on_corridor);
    }
}

#[test]
fn the_visualizer_digs_once_and_reveals() {
    let mut rng = RandomNumberGenerator::seeded(11);
    let mut world = World::new();
    assert_eq!(
        visualize_map(&mut world, MapVisualizerState::Setup, 80, 60, &mut rng),
        MapVisualizerState::Idle
    );
    assert_eq!(world.map.dimensions(), (80, 60));
    let floor: Vec<_> = world.map.iter().into_iter().filter(|c| world.map.is_free(*c)).collect();
    assert!(!floor.is_empty());
    for coord in world.map.iter() {
        assert!(world.map.tile(coord).unwrap().is_revealed());
    }
    assert_eq!(
        visualize_map(&mut world, MapVisualizerState::Idle, 80, 60, &mut rng),
        MapVisualizerState::Idle
    );
    let still: Vec<_> = world.map.iter().into_iter().filter(|c| world.map.is_free(*c)).collect();
    assert_eq!(floor, still);
}

#[test]
fn the_plain_game_takes_the_players_action_in_a_state_of_its_own() {
    let none = Input { key: None, control: false, shift: false };
    let press = |letter: char| Input { key: Some(Key::Letter(letter as u8 - b'A')), control: false, shift: false };
    let mut game = State::new();
    assert_eq!(game.run_state, PlainState::MainMenu);
    assert_eq!(game.tick(&none), PlainState::MainMenu);
    assert_eq!(game.tick(&press('N')), PlainState::NewGame);
    assert_eq!(game.tick(&press('S')), PlainState::NewGame);
    assert_eq!(game.start(DeckBuilder::new(21, 21)), PlainState::AwaitingInput);
    let hero = game.world.player;
    let at = *game.world.coordinates.get(hero).unwrap();
    assert_eq!(game.tick(&press('X')), PlainState::AwaitingInput);
    assert_eq!(
        game.tick(&press('S')),
        PlainState::PlayerAction(Action::Move(Direction::South))
    );
    assert_eq!(game.tick(&none), PlainState::Running);
    assert_eq!(game.world.coordinates.get(hero), Some(&at));
    assert_eq!(game.tick(&none), PlainState::AwaitingInput);
    assert_eq!(game.world.coordinates.get(hero), Some(&at.step(Direction::South)));
    // A blocked action is rejected and the player awaited again.
    game.world.map.block(at);
    game.run_state = PlainState::PlayerAction(Action::Move(Direction::North));
    assert_eq!(game.tick(&none), PlainState::AwaitingInput);
    assert!(game.world.intents.wants_to_move.is_empty());
}

#[test]
fn the_plain_game_shows_a_map() {
    let mut rng = RandomNumberGenerator::seeded(2);
    let mut game = State::new();
    let m = Input { key: Some(Key::Letter(12)), control: false, shift: false };
    assert_eq!(game.tick(&m), PlainState::GenerateMap(MapVisualizerState::Setup));
    assert_eq!(game.tick(&m), PlainState::GenerateMap(MapVisualizerState::Setup));
    assert_eq!(game.generate_map(80, 60, &mut rng), PlainState::GenerateMap(MapVisualizerState::Idle));
    assert_eq!(game.world.map.dimensions(), (80, 60));
    assert_eq!(game.start(DeckBuilder::new(21, 21)), PlainState::GenerateMap(MapVisualizerState::Idle));
    assert_eq!(game.world.map.dimensions(), (80, 60));
}
