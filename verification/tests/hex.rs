use hexrogue::{Coordinate, Direction};

fn c(q: i32, r: i32) -> Coordinate {
    Coordinate::new(q, r)
}

#[test]
fn adding_directions() {
    let origin = c(0, 0);
    assert_eq!(origin.step(Direction::North), c(0, -1));
    assert_eq!(origin.step(Direction::NorthEast), c(1, -1));
    assert_eq!(origin.step(Direction::SouthEast), c(1, 0));
    assert_eq!(origin.step(Direction::South), c(0, 1));
    assert_eq!(origin.step(Direction::SouthWest), c(-1, 1));
    assert_eq!(origin.step(Direction::NorthWest), c(-1, 0));
}

#[test]
fn converts_between_coordinates_to_points() {
    // Points in odd-q layout, around the clock.
    let cases = [
        (c(0, -2), (0, -2)),
        (c(1, -2), (1, -2)),
        (c(2, -2), (2, -1)),
        (c(2, -1), (2, 0)),
        (c(2, 0), (2, 1)),
        (c(1, 1), (1, 1)),
        (c(0, 2), (0, 2)),
        (c(-1, 2), (-1, 1)),
        (c(-2, 2), (-2, 1)),
        (c(-2, 1), (-2, 0)),
        (c(-2, 0), (-2, -1)),
        (c(-1, -1), (-1, -2)),
    ];
    for (coordinate, (x, y)) in cases {
        assert_eq!(Coordinate::from_offset(x, y), coordinate);
        assert_eq!(coordinate.col(), x);
        assert_eq!(coordinate.row(), y as i64);
    }
}

#[test]
fn neighbors_come_clockwise_from_north() {
    assert_eq!(
        c(3, 4).neighbors(),
        [c(3, 3), c(4, 3), c(4, 4), c(3, 5), c(2, 5), c(2, 4)]
    );
}

#[test]
fn checked_step_stops_at_the_edge_of_i32() {
    assert_eq!(c(i32::MAX, 0).checked_step(Direction::SouthEast), None);
    assert_eq!(c(0, i32::MIN).checked_step(Direction::North), None);
    assert_eq!(c(0, 0).checked_step(Direction::North), Some(c(0, -1)));
}

#[test]
fn distance_is_the_largest_cube_difference() {
    assert_eq!(c(0, 0).distance(c(0, 0)), 0);
    assert_eq!(c(0, 0).distance(c(3, 0)), 3);
    assert_eq!(c(0, 0).distance(c(3, -3)), 3);
    assert_eq!(c(0, 0).distance(c(2, 2)), 4);
    assert_eq!(c(-1, 4).distance(c(2, -3)), 7);
    assert_eq!(c(i32::MAX, 0).wide_distance(c(i32::MIN, 0)), u32::MAX as i64);
}

#[test]
fn distance_is_symmetric_and_obeys_the_triangle_inequality() {
    let cells = [c(0, 0), c(3, -1), c(-2, 5), c(4, 4), c(-3, -3)];
    for a in cells {
        assert_eq!(a.distance(a), 0);
        for b in cells {
            assert_eq!(a.distance(b), b.distance(a));
            for other in cells {
                assert!(a.distance(other) <= a.distance(b) + b.distance(other));
            }
        }
    }
}

#[test]
fn index_round_trip() {
    let width = 7;
    for idx in 0..35usize {
        let coord = Coordinate::from_index(idx, width);
        assert_eq!(coord.to_index(width), idx);
    }
    assert_eq!(Coordinate::from_index(9, 7), c(2, 0));
    assert_eq!(c(2, 0).to_index(7), 9);
}

#[test]
fn ring_of_radius_two_starts_north_east() {
    let ring = c(0, 0).ring(2);
    let expected = vec![
        c(2, -2),
        c(1, -2),
        c(0, -2),
        c(-1, -1),
        c(-2, 0),
        c(-2, 1),
        c(-2, 2),
        c(-1, 2),
        c(0, 2),
        c(1, 1),
        c(2, 0),
        c(2, -1),
    ];
    assert_eq!(ring, expected);
}

#[test]
fn ring_of_radius_zero_is_the_origin() {
    assert_eq!(c(4, -7).ring(0), vec![c(4, -7)]);
}

#[test]
fn ring_of_negative_radius_is_empty() {
    assert_eq!(c(4, -7).ring(-3), vec![]);
}

#[test]
fn ring_has_six_r_cells_at_distance_r_without_duplicates() {
    let origin = c(5, -3);
    for radius in 1..8 {
        let ring = origin.ring(radius);
        assert_eq!(ring.len(), 6 * radius as usize);
        for (i, cell) in ring.iter().enumerate() {
            assert_eq!(origin.distance(*cell), radius);
            for other in &ring[i + 1..] {
                assert_ne!(cell, other);
            }
        }
    }
}

#[test]
fn range_of_radius_one_by_column() {
    let cells = c(0, 0).range(1);
    assert_eq!(
        cells,
        vec![c(-1, 0), c(-1, 1), c(0, -1), c(0, 0), c(0, 1), c(1, -1), c(1, 0)]
    );
}

#[test]
fn range_holds_exactly_the_cells_within_the_radius() {
    let origin = c(2, 1);
    for radius in 0..5 {
        let cells = origin.range(radius);
        assert_eq!(cells.len() as i32, 3 * radius * (radius + 1) + 1);
        for q in -8..12 {
            for r in -8..12 {
                let cell = c(q, r);
                assert_eq!(cells.contains(&cell), origin.distance(cell) <= radius);
            }
        }
    }
    assert_eq!(origin.range(-1), vec![]);
}

#[test]
fn line_along_an_axis() {
    assert_eq!(c(0, 0).line_to(c(0, 3)), vec![c(0, 0), c(0, 1), c(0, 2), c(0, 3)]);
    assert_eq!(c(1, 1).line_to(c(4, -2)), vec![c(1, 1), c(2, 0), c(3, -1), c(4, -2)]);
    assert_eq!(c(2, 2).line_to(c(2, 2)), vec![c(2, 2)]);
}

#[test]
fn line_has_one_cell_per_step() {
    let from = c(-2, 3);
    let to = c(5, -1);
    let line = from.line_to(to);
    assert_eq!(line.len() as i32, from.distance(to) + 1);
    assert_eq!(line[0], from);
    assert_eq!(*line.last().unwrap(), to);
    for pair in line.windows(2) {
        assert_eq!(pair[0].distance(pair[1]), 1);
    }
}

#[test]
fn fat_line_along_an_axis_has_equal_pairs() {
    assert_eq!(
        c(0, 0).fat_line_to(c(0, 2)),
        vec![(c(0, 0), c(0, 0)), (c(0, 1), c(0, 1)), (c(0, 2), c(0, 2))]
    );
}

#[test]
fn fat_line_reports_both_sides_of_a_straddled_edge() {
    let pairs = c(0, 0).fat_line_to(c(1, 1));
    assert_eq!(pairs.len(), 3);
    assert_eq!(pairs[0], (c(0, 0), c(0, 0)));
    assert_eq!(pairs[1], (c(1, 0), c(0, 1)));
    assert_eq!(pairs[2], (c(1, 1), c(1, 1)));
}

#[test]
fn directions_have_opposites() {
    for d in Direction::all() {
        let (dq, dr) = d.offset();
        let (oq, or) = d.opposite().offset();
        assert_eq!((dq + oq, dr + or), (0, 0));
    }
}

#[test]
fn a_direction_can_be_added_to_a_coordinate() {
    assert_eq!(c(0, 0) + Direction::SouthWest, c(-1, 1));
    for d in Direction::all() {
        assert_eq!(c(7, -3) + d, c(7, -3).step(d));
    }
}
