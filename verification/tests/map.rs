use hexrogue::{Coordinate, Direction, HexMap, Tile, TileType};

fn c(q: i32, r: i32) -> Coordinate {
    Coordinate::new(q, r)
}

/// A map of floor tiles.
fn open_map(width: i32, height: i32) -> HexMap {
    let mut map = HexMap::new(width, height);
    for coord in map.iter() {
        assert!(map.set_tile(coord, Tile::floor()));
    }
    map
}

#[test]
fn a_new_map_is_all_walls() {
    let map = HexMap::new(5, 4);
    assert_eq!(map.dimensions(), (5, 4));
    assert_eq!(map.tiles_len(), 20);
    let cells = map.iter();
    assert_eq!(cells.len(), 20);
    for coord in cells {
        let tile = map.tile(coord).unwrap();
        assert_eq!(tile.tile_type(), TileType::Wall);
        assert!(tile.is_blocked());
        assert!(tile.is_opaque());
        assert!(!tile.is_revealed());
        assert!(tile.iter().is_empty());
    }
}

#[test]
fn tiles_are_stored_row_by_row() {
    let map = HexMap::new(4, 3);
    let cells = map.iter();
    assert_eq!(cells[0], c(0, 0));
    assert_eq!(cells[1], c(1, 0));
    assert_eq!(cells[2], c(2, -1));
    assert_eq!(cells[3], c(3, -1));
    assert_eq!(cells[4], c(0, 1));
    assert_eq!(cells[11], c(3, 1));
    for (idx, coord) in cells.iter().enumerate() {
        assert_eq!(map.coordinate_to_index(*coord), Some(idx));
        assert_eq!(map.coordinate_at(idx), *coord);
    }
}

#[test]
fn index_is_valid_exactly_in_bounds() {
    let map = HexMap::new(6, 5);
    for q in -3..10 {
        for r in -6..9 {
            let cell = c(q, r);
            for d in Direction::all() {
                let next = cell.step(d);
                let index = map.coordinate_to_index(next);
                assert_eq!(index.is_some(), map.in_bounds(next));
                if let Some(idx) = index {
                    assert!(idx < map.tiles_len());
                    assert_eq!(Coordinate::from_index(idx, 6), next);
                }
            }
        }
    }
}

#[test]
fn out_of_bounds_is_rejected_without_panic() {
    let map = open_map(3, 3);
    assert!(!map.in_bounds(c(-1, 0)));
    assert!(!map.in_bounds(c(3, 0)));
    assert!(!map.in_bounds(c(0, 3)));
    assert!(!map.in_bounds(c(1, -1)));
    assert!(!map.in_bounds(c(i32::MAX, i32::MAX)));
    assert!(!map.in_bounds(c(i32::MIN, i32::MIN)));
    assert!(map.tile(c(5, 5)).is_none());
    assert!(!map.is_free(c(5, 5)));
    assert!(map.is_opaque_at(c(5, 5)));
    assert!(!hexrogue::is_legal_move(&map, c(-1, 0)));
}

#[test]
fn legal_moves_are_in_bounds_and_unblocked() {
    let mut map = open_map(3, 3);
    assert!(hexrogue::is_legal_move(&map, c(1, 1)));
    map.block(c(1, 1));
    assert!(!hexrogue::is_legal_move(&map, c(1, 1)));
    map.reset_index();
    assert!(hexrogue::is_legal_move(&map, c(1, 1)));
    map.set_tile(c(1, 1), Tile::wall());
    map.reset_index();
    assert!(!hexrogue::is_legal_move(&map, c(1, 1)));
}

#[test]
fn revealed_tiles_stay_revealed() {
    let mut map = open_map(3, 3);
    map.reveal_at(c(1, 0));
    assert!(map.tile(c(1, 0)).unwrap().is_revealed());
    assert!(!map.tile(c(0, 0)).unwrap().is_revealed());
    map.reset_index();
    assert!(map.tile(c(1, 0)).unwrap().is_revealed());
    map.reveal_all();
    for coord in map.iter() {
        assert!(map.tile(coord).unwrap().is_revealed());
    }
}

#[test]
fn path_on_an_open_map_is_as_short_as_the_distance() {
    let map = open_map(9, 9);
    let start = Coordinate::from_offset(1, 1);
    let end = Coordinate::from_offset(7, 6);
    let route = map.path(start, end).unwrap();
    assert_eq!(route[0], start);
    assert_eq!(*route.last().unwrap(), end);
    assert_eq!(route.len() as i32, start.distance(end) + 1);
    for pair in route.windows(2) {
        assert_eq!(pair[0].distance(pair[1]), 1);
    }
    for cell in &route {
        assert!(hexrogue::is_legal_move(&map, *cell));
    }
}

#[test]
fn path_to_the_own_cell_is_that_cell() {
    let map = open_map(3, 3);
    assert_eq!(map.path(c(1, 0), c(1, 0)), Some(vec![c(1, 0)]));
}

#[test]
fn path_leads_around_a_wall() {
    let mut map = open_map(7, 7);
    // A wall across the map with one gap in the last column.
    for x in 0..6 {
        map.set_tile(Coordinate::from_offset(x, 3), Tile::wall());
    }
    let start = Coordinate::from_offset(0, 0);
    let end = Coordinate::from_offset(0, 6);
    let route = map.path(start, end).unwrap();
    assert_eq!(route[0], start);
    assert_eq!(*route.last().unwrap(), end);
    assert!(route.contains(&Coordinate::from_offset(6, 3)));
    for pair in route.windows(2) {
        assert_eq!(pair[0].distance(pair[1]), 1);
    }
    for cell in &route[1..] {
        assert!(hexrogue::is_legal_move(&map, *cell));
    }
}

#[test]
fn no_path_through_a_closed_wall() {
    let mut map = open_map(7, 7);
    for x in 0..7 {
        map.set_tile(Coordinate::from_offset(x, 3), Tile::wall());
    }
    assert_eq!(map.path(Coordinate::from_offset(0, 0), Coordinate::from_offset(0, 6)), None);
}

#[test]
fn no_path_from_or_to_a_cell_off_the_map() {
    let map = open_map(3, 3);
    assert_eq!(map.path(c(-1, 0), c(1, 0)), None);
    assert_eq!(map.path(c(1, 0), c(9, 9)), None);
}

#[test]
fn path_may_start_on_a_blocked_tile_but_not_end_on_one() {
    let mut map = open_map(5, 5);
    let start = Coordinate::from_offset(1, 1);
    let end = Coordinate::from_offset(3, 3);
    map.block(start);
    assert!(map.path(start, end).is_some());
    map.block(end);
    assert_eq!(map.path(start, end), None);
}

#[test]
fn field_of_view_on_an_open_map_is_the_disc() {
    let map = open_map(9, 9);
    let origin = Coordinate::from_offset(4, 4);
    let fov = map.field_of_view(origin, 2);
    assert_eq!(fov.len(), 19);
    for cell in origin.range(2) {
        assert!(fov.contains(cell));
    }
    assert!(!fov.contains(origin.step(Direction::North).step(Direction::North).step(Direction::North)));
}

#[test]
fn a_wall_hides_what_lies_behind_it() {
    let mut map = open_map(9, 9);
    let origin = Coordinate::from_offset(4, 4);
    let wall = origin.step(Direction::North);
    map.set_tile(wall, Tile::wall());
    let fov = map.field_of_view(origin, 2);
    assert!(fov.contains(wall));
    assert!(!fov.contains(wall.step(Direction::North)));
    // A ray along the edge of the wall passes: one side of the edge is open.
    assert!(fov.contains(wall.step(Direction::NorthEast)));
    assert!(fov.contains(wall.step(Direction::NorthWest)));
    assert_eq!(fov.len(), 18);
}

#[test]
fn a_ray_along_an_edge_stops_only_where_both_sides_are_walls() {
    let mut map = open_map(9, 9);
    let origin = Coordinate::from_offset(4, 4);
    // The ray to the cell two steps away between north and north-east runs
    // along the edge between the northern and the north-eastern neighbor.
    let target = origin.step(Direction::North).step(Direction::NorthEast);
    map.set_tile(origin.step(Direction::North), Tile::wall());
    assert!(map.field_of_view(origin, 2).contains(target));
    map.set_tile(origin.step(Direction::NorthEast), Tile::wall());
    assert!(!map.field_of_view(origin, 2).contains(target));
}

#[test]
fn field_of_view_of_a_negative_range_is_empty() {
    let map = open_map(3, 3);
    assert_eq!(map.field_of_view(c(1, 0), -1).len(), 0);
}

#[test]
fn field_of_view_ends_at_the_border() {
    let map = open_map(3, 3);
    let fov = map.field_of_view(c(1, 0), 25);
    for coord in map.iter() {
        assert!(fov.contains(coord));
    }
}

#[test]
fn area_of_effect_leaves_out_walls() {
    let mut map = open_map(9, 9);
    let origin = Coordinate::from_offset(4, 4);
    let wall = origin.step(Direction::South);
    map.set_tile(wall, Tile::wall());
    let aoe = map.area_of_effect(origin, 2);
    assert!(!aoe.contains(wall));
    assert!(aoe.contains(origin));
    assert_eq!(aoe.len(), 17);
}

/// The least number of cells on a path, by flooding from the start.
fn flood(map: &HexMap, start: Coordinate, end: Coordinate) -> Option<usize> {
    let mut reached = vec![start];
    let mut frontier = vec![start];
    let mut cells = 1;
    while !frontier.is_empty() {
        if frontier.contains(&end) {
            return Some(cells);
        }
        let mut next = Vec::new();
        for cell in frontier {
            for d in Direction::all() {
                let to = cell.step(d);
                if hexrogue::is_legal_move(map, to) && !reached.contains(&to) {
                    reached.push(to);
                    next.push(to);
                }
            }
        }
        frontier = next;
        cells += 1;
    }
    None
}

#[test]
fn routes_are_shortest() {
    let mut map = open_map(9, 9);
    for (x, y) in [(2, 1), (2, 2), (2, 3), (2, 4), (4, 8), (4, 7), (4, 6), (4, 5), (4, 4), (6, 2), (6, 3), (7, 3)] {
        map.set_tile(Coordinate::from_offset(x, y), Tile::wall());
    }
    let cells = map.iter();
    for start in cells.iter().step_by(7) {
        for end in cells.iter().step_by(5) {
            let route = map.path(*start, *end);
            assert_eq!(route.map(|r| r.len()), flood(&map, *start, *end));
        }
    }
}
