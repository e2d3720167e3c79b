use bracket_lib::random::RandomNumberGenerator;
use hexrogue::bisection_generator::{
    axes_across, bisect_at, bisect_path, draw_wall, longest, paths, q_paths, r_paths, s_paths,
};
use hexrogue::{
    add_engines, add_walls, build_level, build_map, empty_deck, generate_regions, spawn_region,
    spawn_table, Coordinate, DeckBuilder, Dice, Direction, GameEngine, HexMap, RunState, SpawnBuilder, Tile,
    TileType, World,
};

fn open_map(width: i32, height: i32) -> HexMap {
    let mut map = HexMap::new(width, height);
    for coord in map.iter() {
        map.set_tile(coord, Tile::floor());
    }
    map
}

/// An open map with walls all around.
fn walled_room(width: i32, height: i32) -> HexMap {
    let mut map = HexMap::new(width, height);
    for coord in map.iter() {
        let (x, y) = (coord.col(), coord.row());
        if 0 < x && x < width - 1 && 0 < y && y < (height - 1) as i64 {
            map.set_tile(coord, Tile::floor());
        }
    }
    map
}

fn floor_count(map: &HexMap) -> usize {
    map.iter().iter().filter(|c| map.tile(**c).unwrap().tile_type() == TileType::Floor).count()
}

#[test]
fn an_empty_deck_is_a_hexagon_of_floor() {
    let map = empty_deck(49, 49);
    assert_eq!(map.dimensions(), (49, 49));
    let middle = Coordinate::from_offset(24, 24);
    for coord in map.iter() {
        let tile = map.tile(coord).unwrap();
        let floor = middle.distance(coord) <= 23;
        assert_eq!(tile.tile_type() == TileType::Floor, floor);
        assert_eq!(tile.is_blocked(), !floor);
        assert!(!tile.is_revealed());
    }
    assert_eq!(floor_count(&map), 3 * 23 * 24 + 1);
}

#[test]
fn a_deck_too_small_for_a_floor_is_all_walls() {
    assert_eq!(floor_count(&empty_deck(1, 1)), 0);
    assert_eq!(floor_count(&empty_deck(0, 0)), 0);
    assert_eq!(floor_count(&empty_deck(2, 9)), 1);
}

#[test]
fn engines_are_three_discs_of_walls() {
    let mut map = empty_deck(49, 49);
    add_engines(&mut map);
    let middle = Coordinate::from_offset(24, 24);
    let engines = [
        Coordinate::new(middle.q - 12, middle.r),
        Coordinate::new(middle.q + 12, middle.r - 12),
        Coordinate::new(middle.q, middle.r + 12),
    ];
    for coord in map.iter() {
        let in_engine = engines.iter().any(|e| e.distance(coord) <= 8);
        let floor = middle.distance(coord) <= 23 && !in_engine;
        assert_eq!(map.tile(coord).unwrap().tile_type() == TileType::Floor, floor);
    }
}

#[test]
fn stretches_run_between_blocked_tiles() {
    let mut map = walled_room(7, 9);
    // Cut the second column in two.
    let cut = Coordinate::from_offset(1, 4);
    map.set_tile(cut, Tile::wall());
    let found = q_paths(&map);
    assert_eq!(found.len(), 6);
    assert_eq!(found[0], (Coordinate::from_offset(1, 1), Coordinate::from_offset(1, 3)));
    assert_eq!(found[1], (Coordinate::from_offset(1, 5), Coordinate::from_offset(1, 7)));
    assert_eq!(found[2], (Coordinate::from_offset(2, 1), Coordinate::from_offset(2, 7)));
    assert_eq!(longest(&found), Some((Coordinate::from_offset(5, 1), Coordinate::from_offset(5, 7))));
    for (from, to) in r_paths(&map) {
        assert_eq!(from.r, to.r);
        assert!(from.q <= to.q);
    }
    for (from, to) in s_paths(&map) {
        assert_eq!(from.q + from.r, to.q + to.r);
        assert!(from.q >= to.q);
    }
}

#[test]
fn a_stretch_that_reaches_the_border_does_not_count() {
    let map = open_map(5, 5);
    assert_eq!(q_paths(&map), vec![]);
    assert_eq!(paths(&map, &vec![Coordinate::new(-3, 9)], Direction::South), vec![]);
    assert_eq!(longest(&vec![]), None);
}

#[test]
fn a_wall_is_drawn_from_one_end_to_the_other() {
    let mut map = walled_room(7, 9);
    let through = Coordinate::from_offset(3, 4);
    draw_wall(&mut map, through, Direction::North, Direction::South);
    for y in 0..9 {
        for x in 0..7 {
            let tile = map.tile(Coordinate::from_offset(x, y)).unwrap();
            let wall = x == 0 || x == 6 || y == 0 || y == 8 || x == 3;
            assert_eq!(tile.tile_type() == TileType::Wall, wall);
        }
    }
}

#[test]
fn a_wall_through_a_blocked_cell_with_no_way_back_draws_nothing() {
    let mut map = walled_room(7, 9);
    let before = floor_count(&map);
    draw_wall(&mut map, Coordinate::from_offset(0, 0), Direction::North, Direction::South);
    draw_wall(&mut map, Coordinate::new(70, 70), Direction::North, Direction::South);
    assert_eq!(floor_count(&map), before);
}

#[test]
fn bisecting_at_a_step_cuts_through_the_cell_of_the_line() {
    let mut map = walled_room(12, 12);
    let c1 = Coordinate::from_offset(2, 1);
    let c2 = Coordinate::from_offset(2, 10);
    let axis = (Direction::NorthWest, Direction::SouthEast);
    assert_eq!(bisect_at(&mut map, c1, c2, 4, axis), Some(Coordinate::from_offset(2, 5)));
    let cut = Coordinate::from_offset(2, 5);
    for coord in map.iter() {
        let (x, y) = (coord.col(), coord.row());
        let border = x == 0 || x == 11 || y == 0 || y == 11;
        let on_wall = coord.r == cut.r;
        assert_eq!(map.tile(coord).unwrap().tile_type() == TileType::Wall, border || on_wall);
    }
    let before = floor_count(&map);
    assert_eq!(bisect_at(&mut map, c1, c2, 10, axis), None);
    assert_eq!(bisect_at(&mut map, c1, c2, -1, axis), None);
    assert_eq!(floor_count(&map), before);
}

#[test]
fn short_stretches_are_not_bisected() {
    let mut rng = RandomNumberGenerator::seeded(1);
    let mut map = walled_room(12, 12);
    let before = floor_count(&map);
    let c1 = Coordinate::from_offset(2, 1);
    let c2 = Coordinate::from_offset(2, 9);
    assert_eq!(c1.distance(c2), 8);
    let axes = axes_across(Direction::South);
    assert_eq!(bisect_path(&mut map, c1, c2, &axes, &mut rng), None);
    assert_eq!(floor_count(&map), before);
}

#[test]
fn long_stretches_are_bisected_with_room_on_either_side() {
    for seed in 0..50 {
        let mut rng = RandomNumberGenerator::seeded(seed);
        let mut map = walled_room(12, 16);
        let c1 = Coordinate::from_offset(2, 1);
        let c2 = Coordinate::from_offset(2, 14);
        let before = floor_count(&map);
        let axes = axes_across(Direction::South);
        assert_eq!(axes.len(), 2);
        let cut = bisect_path(&mut map, c1, c2, &axes, &mut rng).unwrap();
        assert_eq!(cut.q, 2);
        assert!(c1.distance(cut) >= 4);
        assert!(cut.distance(c2) > 4);
        assert!(floor_count(&map) < before);
        assert_eq!(map.tile(cut).unwrap().tile_type(), TileType::Wall);
    }
}

#[test]
fn walls_cut_the_deck_into_rooms() {
    let mut rng = RandomNumberGenerator::seeded(42);
    let mut map = empty_deck(49, 49);
    add_engines(&mut map);
    let before = floor_count(&map);
    add_walls(&mut map, &mut rng);
    assert_eq!(map.dimensions(), (49, 49));
    let after = floor_count(&map);
    assert!(after < before);
    assert!(after > before / 2);
    // The same seed draws the same walls.
    let mut again = empty_deck(49, 49);
    add_engines(&mut again);
    add_walls(&mut again, &mut RandomNumberGenerator::seeded(42));
    for coord in map.iter() {
        assert_eq!(map.tile(coord).unwrap().tile_type(), again.tile(coord).unwrap().tile_type());
    }
    // The border stays closed.
    for coord in map.iter() {
        if coord.col() == 0 || coord.row() == 0 || coord.col() == 48 || coord.row() == 48 {
            assert_eq!(map.tile(coord).unwrap().tile_type(), TileType::Wall);
        }
    }
    let built = build_map(30, 20, &mut rng);
    assert_eq!(built.dimensions(), (30, 20));
}

#[test]
fn regions_group_the_open_tiles_by_their_marks() {
    let mut map = walled_room(5, 5);
    map.block(Coordinate::from_offset(2, 2));
    let marks: Vec<u32> = map.iter().iter().map(|c| (c.col() % 2) as u32 + 7).collect();
    let regions = generate_regions(&map, &marks);
    assert_eq!(regions.len(), 2);
    assert_eq!(
        regions[0],
        vec![
            Coordinate::from_offset(1, 1),
            Coordinate::from_offset(3, 1),
            Coordinate::from_offset(1, 2),
            Coordinate::from_offset(3, 2),
            Coordinate::from_offset(1, 3),
            Coordinate::from_offset(3, 3),
        ]
    );
    assert_eq!(regions[1], vec![Coordinate::from_offset(2, 1), Coordinate::from_offset(2, 3)]);
}

#[test]
fn spawns_of_a_region_are_few_and_apart() {
    let region: Vec<Coordinate> = Coordinate::new(0, 0).range(2);
    let table = spawn_table().to_vec();
    let dice = Dice { n_dice: 1, die_type: 6, bonus: -3 };
    let mut sizes = [0usize; 4];
    for seed in 0..200 {
        let mut rng = RandomNumberGenerator::seeded(seed);
        let spawns = spawn_region(&mut rng, &region, &table, dice);
        assert!(spawns.len() <= 3);
        sizes[spawns.len()] += 1;
        for (i, (coord, kind)) in spawns.iter().enumerate() {
            assert!(region.contains(coord));
            assert!(table.contains(kind));
            assert_ne!(*kind, SpawnBuilder::Player);
            for (other, _) in &spawns[i + 1..] {
                assert_ne!(coord, other);
            }
        }
    }
    assert!(sizes.iter().all(|n| *n > 0));
    let mut rng = RandomNumberGenerator::seeded(3);
    let crowded = spawn_region(&mut rng, &vec![Coordinate::new(1, 1)], &table, Dice { n_dice: 3, die_type: 6, bonus: 0 });
    assert_eq!(crowded.len(), 1);
    assert_eq!(spawn_region(&mut rng, &vec![], &table, dice), vec![]);
}

#[test]
fn a_sure_spawn_is_always_put() {
    let region: Vec<Coordinate> = Coordinate::new(0, 0).range(2);
    let table = spawn_table().to_vec();
    for seed in 0..50 {
        let mut rng = RandomNumberGenerator::seeded(seed);
        let one = spawn_region(&mut rng, &region, &table, Dice { n_dice: 1, die_type: 1, bonus: 0 });
        assert_eq!(one.len(), 1);
        assert!(region.contains(&one[0].0));
        assert!(table.contains(&one[0].1));
        let some = spawn_region(&mut rng, &region, &table, Dice { n_dice: 1, die_type: 4, bonus: 1 });
        assert!(2 <= some.len() && some.len() <= 5);
        let none = spawn_region(&mut rng, &region, &table, Dice { n_dice: 1, die_type: 1, bonus: -1 });
        assert!(none.is_empty());
    }
}

#[test]
fn a_deck_is_built_and_populated() {
    let mut rng = RandomNumberGenerator::seeded(9);
    let deck = DeckBuilder::new(49, 49);
    assert_eq!(deck.spawns, vec![(Coordinate::from_offset(24, 24), SpawnBuilder::Player)]);
    let deck = deck.with_engines().with_walls(&mut rng);
    let marks: Vec<u32> = deck.map.iter().iter().map(|c| (c.col() / 8 + 10 * (c.row() as i32 / 8)) as u32).collect();
    let deck = deck.with_spawns(&mut rng, &spawn_table().to_vec(), &marks);
    assert!(deck.spawns.len() > 1);
    for (i, (coord, _)) in deck.spawns.iter().enumerate() {
        for (other, _) in &deck.spawns[i + 1..] {
            assert_ne!(coord, other);
        }
    }
    let spawns = deck.spawns.clone();
    let mut world = World::new();
    build_level(&mut world, deck);
    assert_eq!(world.map.dimensions(), (49, 49));
    for (i, (coord, kind)) in spawns.iter().enumerate() {
        let entity = world.entities.entity_at(i).unwrap();
        assert_eq!(world.coordinates.get(entity), Some(coord));
        assert_eq!(world.players.contains(entity), *kind == SpawnBuilder::Player);
        assert_eq!(
            world.monsters.contains(entity),
            *kind == SpawnBuilder::InfectedCrewmember || *kind == SpawnBuilder::AlienHatchling
        );
        assert_eq!(
            world.items.contains(entity),
            *kind == SpawnBuilder::RepairKit || *kind == SpawnBuilder::Grenade
        );
    }
    if spawns.iter().any(|(_, kind)| *kind == SpawnBuilder::Player) {
        assert!(world.players.contains(world.player));
    }
}

#[test]
fn a_new_game_runs_until_the_player_is_awaited() {
    let mut engine = GameEngine::new();
    let deck = DeckBuilder::new(21, 21);
    assert_eq!(engine.new_game(deck), RunState::AwaitingInput);
    assert_eq!(engine.run_state, RunState::AwaitingInput);
    assert!(engine.player_has_initiative());
    let hero = engine.world.player;
    assert_eq!(engine.world.coordinates.get(hero), Some(&Coordinate::from_offset(10, 10)));
    assert!(engine.world.map.tile(Coordinate::from_offset(10, 10)).unwrap().is_revealed());
    assert_eq!(engine.world.map.tile(Coordinate::from_offset(10, 10)).unwrap().iter(), &vec![hero]);
}

#[test]
fn a_world_without_a_player_keeps_running() {
    let mut engine = GameEngine::new();
    let mut deck = DeckBuilder::new(9, 9);
    deck.spawns.clear();
    assert_eq!(engine.new_game(deck), RunState::Running);
    assert!(!engine.player_has_initiative());
}
