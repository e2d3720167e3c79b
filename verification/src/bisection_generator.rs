//! Walls by bisection: the longest open stretch along each of the three
//! axes of the grid is cut by a wall across it, again and again, until no
//! stretch is long enough to be cut. Where a wall was begun, a door is left.

use crate::hex_coordinates::{hex_line, hex_pairs, hexes, Coordinate, Direction, Hex, MAX_SPAN, REACH};
use crate::map::HexMap;
use crate::random::{rng_entry, rng_range};
use crate::template::{lemma_rebuilt_twice, pristine, rebuilt};
use crate::tile::{Tile, TileType};
use bracket_lib::random::RandomNumberGenerator;
use vstd::prelude::*;

verus! {

/// No room is cut to less than this many cells.
pub const MIN_ROOM_SIZE: i32 = 4;

impl HexMap {
    /// A bound on the number of steps that lead from a cell on the map in
    /// the given direction without leaving the map.
    pub open spec fn runway(&self, h: Hex, d: Direction) -> int {
        match d {
            Direction::North => h.row() + 1,
            Direction::South => self.height() - h.row(),
            Direction::NorthEast => self.width() - h.col(),
            Direction::SouthEast => self.width() - h.col(),
            Direction::NorthWest => h.col() + 1,
            Direction::SouthWest => h.col() + 1,
        }
    }

    /// The number of cells, from `from` on in direction `d`, that may be
    /// entered one after the other.
    pub open spec fn run_length(&self, from: Hex, d: Direction) -> nat
        decreases self.runway(from, d),
    {
        if self.legal(from) {
            1 + self.run_length(from.step(d), d)
        } else {
            0
        }
    }

    /// The cell from which a wall through `at` is drawn: as far from `at`
    /// in direction `d` as one can go.
    pub open spec fn wall_origin(&self, at: Hex, d: Direction) -> Hex {
        at.walk(d, self.run_length(at.step(d), d) as int)
    }

    /// The cell becomes part of the wall that is drawn through `at` along
    /// the axis `back`-`forth`.
    pub open spec fn in_wall(&self, at: Hex, back: Direction, forth: Direction, h: Hex) -> bool {
        exists|k: int|
            0 <= k < self.run_length(self.wall_origin(at, back), forth) && #[trigger] self.wall_origin(
                at,
                back,
            ).walk(forth, k) == h
    }

    /// `after` is this map with a wall drawn through `at` along the axis
    /// `back`-`forth`.
    pub open spec fn walled(&self, after: &HexMap, at: Hex, back: Direction, forth: Direction) -> bool {
        &&& after.wf()
        &&& after.width() == self.width()
        &&& after.height() == self.height()
        &&& forall|t: int|
            0 <= t < after.tiles().len() ==> if self.in_wall(at, back, forth, self.cell(t)) {
                (#[trigger] after.tiles()[t]).kind() == TileType::Wall && pristine(after.tiles()[t])
            } else {
                after.tiles()[t] == self.tiles()[t]
            }
    }

    /// The open stretches along the ray from `at` in direction `d`, as
    /// pairs of their first and last cell, given the first cell of a stretch
    /// that was begun before `at`. A stretch ends before a cell of the map
    /// that may not be entered; one that reaches the border of the map does
    /// not count.
    pub open spec fn stretches(&self, at: Hex, d: Direction, begun: Option<Hex>) -> Seq<(Hex, Hex)>
        decreases self.runway(at.step(d), d),
    {
        if !self.contains(at.step(d)) {
            Seq::empty()
        } else {
            let start = if begun is None && self.legal(at) {
                Some(at)
            } else {
                begun
            };
            if !self.legal(at.step(d)) && start is Some {
                seq![(start.unwrap(), at)] + self.stretches(at.step(d), d, None)
            } else {
                self.stretches(at.step(d), d, start)
            }
        }
    }

    /// The open stretches along the rays from the first `k` of `origins` in
    /// direction `d`.
    pub open spec fn all_stretches(&self, origins: Seq<Hex>, d: Direction, k: int) -> Seq<(Hex, Hex)>
        decreases k,
    {
        if k <= 0 {
            Seq::empty()
        } else {
            self.all_stretches(origins, d, k - 1) + self.stretches(origins[k - 1], d, None)
        }
    }
}

/// One more step along a walk.
pub proof fn lemma_walk(h: Hex, d: Direction, k: int)
    ensures
        h.walk(d, 0) == h,
        h.walk(d, k).step(d) == h.walk(d, k + 1),
        h.step(d).walk(d, k) == h.walk(d, k + 1),
{
    assert((k + 1) * d.dq() == k * d.dq() + d.dq()) by (nonlinear_arith);
    assert((k + 1) * d.dr() == k * d.dr() + d.dr()) by (nonlinear_arith);
}

/// Two cells of a walk are the same cell only at the same step.
pub proof fn lemma_walk_injective(h: Hex, d: Direction, j: int, k: int)
    requires
        h.walk(d, j) == h.walk(d, k),
    ensures
        j == k,
{
    if d.dq() != 0 {
        assert(j * d.dq() == k * d.dq() ==> j == k) by (nonlinear_arith)
            requires
                d.dq() == 1 || d.dq() == -1,
        ;
    } else {
        assert(j * d.dr() == k * d.dr() ==> j == k) by (nonlinear_arith)
            requires
                d.dr() == 1 || d.dr() == -1,
        ;
    }
}

/// The step from `coord` in direction `d`, if a move onto it is legal.
fn next_free(map: &HexMap, coord: Coordinate, d: Direction) -> (next: Option<Coordinate>)
    requires
        map.wf(),
    ensures
        next is Some <==> map.legal(coord@.step(d)),
        next is Some ==> next.unwrap()@ == coord@.step(d),
{
    match coord.checked_step(d) {
        Some(next) => {
            if map.is_free(next) {
                Some(next)
            } else {
                None
            }
        },
        None => {
            proof {
                map.lemma_size();
            }
            None
        },
    }
}

/// The step from `coord` in direction `d`, if it lies on the map.
fn next_on_map(map: &HexMap, coord: Coordinate, d: Direction) -> (next: Option<Coordinate>)
    requires
        map.wf(),
    ensures
        next is Some <==> map.contains(coord@.step(d)),
        next is Some ==> next.unwrap()@ == coord@.step(d),
{
    match coord.checked_step(d) {
        Some(next) => {
            if map.in_bounds(next) {
                Some(next)
            } else {
                None
            }
        },
        None => {
            proof {
                map.lemma_size();
            }
            None
        },
    }
}

/// Draws a wall through `coord`: from the last cell that can be entered
/// going from `coord` in direction `dir1`, every cell in direction `dir2`
/// becomes a wall, up to the first that cannot be entered.
pub fn draw_wall(map: &mut HexMap, coord: Coordinate, dir1: Direction, dir2: Direction)
    requires
        old(map).wf(),
    ensures
        old(map).walled(final(map), coord@, dir1, dir2),
{
    let mut coord = coord;
    let ghost first = coord@;
    let ghost mut steps: int = 0;
    proof {
        lemma_walk(first, dir1, 0);
    }
    loop
        invariant
            map.wf(),
            *map == *old(map),
            steps >= 0,
            coord@ == first.walk(dir1, steps),
            map.run_length(first.step(dir1), dir1) == steps + map.run_length(coord@.step(dir1), dir1),
        ensures
            !map.legal(coord@.step(dir1)),
        decreases map.runway(coord@.step(dir1), dir1),
    {
        match next_free(map, coord, dir1) {
            Some(next) => {
                proof {
                    lemma_walk(first, dir1, steps);
                    steps = steps + 1;
                }
                coord = next;
            },
            None => {
                break;
            },
        }
    }
    let ghost origin = coord@;
    let ghost mut drawn: int = 0;
    assert(origin == old(map).wall_origin(first, dir1));
    proof {
        lemma_walk(origin, dir2, 0);
    }
    while map.is_free(coord)
        invariant
            map.wf(),
            old(map).wf(),
            map.width() == old(map).width(),
            map.height() == old(map).height(),
            drawn >= 0,
            coord@ == origin.walk(dir2, drawn),
            old(map).run_length(origin, dir2) == drawn + old(map).run_length(coord@, dir2),
            map.legal(coord@) == old(map).legal(coord@),
            forall|t: int|
                0 <= t < map.tiles().len() ==> if exists|k: int|
                    0 <= k < drawn && #[trigger] origin.walk(dir2, k) == old(map).cell(t) {
                    (#[trigger] map.tiles()[t]).kind() == TileType::Wall && pristine(map.tiles()[t])
                } else {
                    map.tiles()[t] == old(map).tiles()[t]
                },
        decreases old(map).runway(coord@, dir2),
    {
        let ghost before = *map;
        proof {
            map.lemma_dimensions(old(map), coord@, 0);
            old(map).lemma_index_bijection(coord@, 0);
            map.lemma_size();
            // The cell under the pen was not drawn before.
            if exists|k: int| 0 <= k < drawn && #[trigger] origin.walk(dir2, k) == coord@ {
                let k = choose|k: int| 0 <= k < drawn && #[trigger] origin.walk(dir2, k) == coord@;
                lemma_walk_injective(origin, dir2, k, drawn);
            }
            assert(map.tiles()[map.slot_of(coord@)] == old(map).tiles()[map.slot_of(coord@)]);
        }
        map.set_tile(coord, Tile::wall());
        proof {
            assert forall|t: int| 0 <= t < map.tiles().len() implies if exists|k: int|
                0 <= k < drawn + 1 && #[trigger] origin.walk(dir2, k) == old(map).cell(t) {
                (#[trigger] map.tiles()[t]).kind() == TileType::Wall && pristine(map.tiles()[t])
            } else {
                map.tiles()[t] == old(map).tiles()[t]
            } by {
                let h = old(map).cell(t);
                old(map).lemma_index_bijection(coord@, t);
                before.lemma_dimensions(old(map), coord@, t);
                if exists|k: int| 0 <= k < drawn && #[trigger] origin.walk(dir2, k) == h {
                    let k = choose|k: int| 0 <= k < drawn && #[trigger] origin.walk(dir2, k) == h;
                    assert(0 <= k < drawn + 1 && origin.walk(dir2, k) == h);
                }
                if exists|k: int| 0 <= k < drawn + 1 && #[trigger] origin.walk(dir2, k) == h {
                    let k = choose|k: int| 0 <= k < drawn + 1 && #[trigger] origin.walk(dir2, k) == h;
                    if k < drawn {
                        assert(origin.walk(dir2, k) == h);
                    }
                }
                if h == coord@ {
                    assert(origin.walk(dir2, drawn) == h);
                }
            }
            lemma_walk(origin, dir2, drawn);
            drawn = drawn + 1;
            let ahead = origin.walk(dir2, drawn);
            map.lemma_dimensions(old(map), ahead, 0);
            if map.contains(ahead) {
                old(map).lemma_index_bijection(ahead, 0);
                let t = old(map).slot_of(ahead);
                if exists|k: int| 0 <= k < drawn && #[trigger] origin.walk(dir2, k) == old(map).cell(t) {
                    let k = choose|k: int| 0 <= k < drawn && #[trigger] origin.walk(dir2, k) == old(map).cell(t);
                    lemma_walk_injective(origin, dir2, k, drawn);
                }
                assert(map.tiles()[t] == old(map).tiles()[t]);
            }
        }
        coord = coord.step(dir2);
    }
    proof {
        assert forall|t: int| 0 <= t < map.tiles().len() implies if old(map).in_wall(first, dir1, dir2, old(map).cell(t)) {
            (#[trigger] map.tiles()[t]).kind() == TileType::Wall && pristine(map.tiles()[t])
        } else {
            map.tiles()[t] == old(map).tiles()[t]
        } by {
            let h = old(map).cell(t);
            if old(map).in_wall(first, dir1, dir2, h) {
                let k = choose|k: int|
                    0 <= k < old(map).run_length(origin, dir2) && #[trigger] origin.walk(dir2, k) == h;
                assert(0 <= k < drawn && origin.walk(dir2, k) == h);
            }
            if exists|k: int| 0 <= k < drawn && #[trigger] origin.walk(dir2, k) == h {
                let k = choose|k: int| 0 <= k < drawn && #[trigger] origin.walk(dir2, k) == h;
                assert(origin.walk(dir2, k) == h);
            }
        }
    }
}

/// The open stretches along the rays from `origins` in direction `dir`,
/// as pairs of their first and last cell.
pub fn paths(map: &HexMap, origins: &Vec<Coordinate>, dir: Direction) -> (found: Vec<(Coordinate, Coordinate)>)
    requires
        map.wf(),
    ensures
        hex_pairs(found@) == map.all_stretches(hexes(origins@), dir, origins@.len() as int),
        forall|i: int|
            0 <= i < found@.len() ==> (#[trigger] found@[i]).0@.within(MAX_SPAN as int) && found@[i].1@.within(
                MAX_SPAN as int,
            ),
{
    let mut found: Vec<(Coordinate, Coordinate)> = Vec::new();
    let mut i: usize = 0;
    assert(hex_pairs(found@) =~= map.all_stretches(hexes(origins@), dir, 0));
    while i < origins.len()
        invariant
            map.wf(),
            0 <= i <= origins@.len(),
            hex_pairs(found@) == map.all_stretches(hexes(origins@), dir, i as int),
            forall|k: int|
                0 <= k < found@.len() ==> (#[trigger] found@[k]).0@.within(MAX_SPAN as int) && found@[k].1@.within(
                    MAX_SPAN as int,
                ),
        decreases origins@.len() - i,
    {
        let mut coord = origins[i];
        let mut path_start: Option<Coordinate> = None;
        let ghost so_far = hex_pairs(found@);
        let ghost ray = map.stretches(coord@, dir, None);
        assert(hex_pairs(found@) + map.stretches(coord@, dir, None) =~= so_far + ray);
        loop
            invariant
                map.wf(),
                i < origins@.len(),
                path_start is Some ==> map.legal(path_start.unwrap()@),
                hex_pairs(found@) + map.stretches(
                    coord@,
                    dir,
                    match path_start {
                        Some(start) => Some(start@),
                        None => None,
                    },
                ) == so_far + ray,
                forall|k: int|
                    0 <= k < found@.len() ==> (#[trigger] found@[k]).0@.within(MAX_SPAN as int)
                        && found@[k].1@.within(MAX_SPAN as int),
            ensures
                !map.contains(coord@.step(dir)),
            decreases map.runway(coord@.step(dir), dir),
        {
            let next = match next_on_map(map, coord, dir) {
                Some(next) => next,
                None => {
                    break;
                },
            };
            proof {
                map.lemma_size();
            }
            let ghost begun: Option<Hex> = match path_start {
                Some(start) => Some(start@),
                None => None,
            };
            if path_start.is_none() && map.is_free(coord) {
                path_start = Some(coord);
            }
            let ghost started: Option<Hex> = match path_start {
                Some(start) => Some(start@),
                None => None,
            };
            let ghost listed = hex_pairs(found@);
            if !map.is_free(next) {
                match path_start {
                    Some(start) => {
                        found.push((start, coord));
                        path_start = None;
                        proof {
                            assert(hex_pairs(found@) =~= listed + seq![(start@, coord@)]);
                            assert(hex_pairs(found@) + map.stretches(next@, dir, None) =~= listed + (seq![
                                (start@, coord@),
                            ] + map.stretches(next@, dir, None)));
                        }
                    },
                    None => {},
                }
            }
            coord = next;
        }
        proof {
            let rest = map.stretches(
                coord@,
                dir,
                match path_start {
                    Some(start) => Some(start@),
                    None => None,
                },
            );
            assert(rest =~= Seq::<(Hex, Hex)>::empty());
            assert(hex_pairs(found@) =~= so_far + ray);
            assert(hexes(origins@)[i as int] == origins@[i as int]@);
        }
        i = i + 1;
    }
    found
}

/// The cells of the top row, from west to east.
pub open spec fn top_row(width: int) -> Seq<Hex> {
    Seq::new(width as nat, |x: int| Hex::from_offset(x, 0))
}

/// The cells of a column below the top row, from north to south.
pub open spec fn side_column(col: int, height: int) -> Seq<Hex> {
    Seq::new((height - 1) as nat, |y: int| Hex::from_offset(col, y + 1))
}

/// The origins of the rays that run north to south.
pub open spec fn q_origins(map: &HexMap) -> Seq<Hex> {
    top_row(map.width())
}

/// The origins of the rays that run north-west to south-east: the top row
/// from east to west, then the western column.
pub open spec fn r_origins(map: &HexMap) -> Seq<Hex> {
    top_row(map.width()).reverse() + if map.height() > 0 {
        side_column(0, map.height())
    } else {
        Seq::empty()
    }
}

/// The origins of the rays that run north-east to south-west: the top row
/// from west to east, then the eastern column.
pub open spec fn s_origins(map: &HexMap) -> Seq<Hex> {
    top_row(map.width()) + if map.height() > 0 {
        side_column(map.width() - 1, map.height())
    } else {
        Seq::empty()
    }
}

/// The cells of the top row, from west to east or from east to west.
fn row_origins(width: i32, reversed: bool) -> (origins: Vec<Coordinate>)
    requires
        0 <= width <= MAX_SPAN,
    ensures
        hexes(origins@) == if reversed {
            top_row(width as int).reverse()
        } else {
            top_row(width as int)
        },
{
    let mut origins: Vec<Coordinate> = Vec::new();
    let mut x: i32 = 0;
    while x < width
        invariant
            0 <= x <= width <= MAX_SPAN,
            origins@.len() == x,
            forall|k: int|
                0 <= k < x ==> (#[trigger] origins@[k])@ == Hex::from_offset(
                    if reversed {
                        width - 1 - k
                    } else {
                        k
                    },
                    0,
                ),
        decreases width - x,
    {
        let col: i32 = if reversed {
            width - 1 - x
        } else {
            x
        };
        origins.push(Coordinate::from_offset(col, 0));
        x = x + 1;
    }
    assert(hexes(origins@) =~= if reversed {
        top_row(width as int).reverse()
    } else {
        top_row(width as int)
    });
    origins
}

/// Appends the cells of a column below the top row.
fn push_column(origins: &mut Vec<Coordinate>, col: i32, height: i32)
    requires
        -MAX_SPAN <= col <= MAX_SPAN,
        0 <= height <= MAX_SPAN,
    ensures
        hexes(final(origins)@) == hexes(old(origins)@) + if height > 0 {
            side_column(col as int, height as int)
        } else {
            Seq::empty()
        },
{
    let mut y: i32 = 1;
    let ghost start = origins@;
    while y < height
        invariant
            1 <= y,
            y <= height || height == 0,
            height == 0 ==> y == 1,
            height <= MAX_SPAN,
            -MAX_SPAN <= col <= MAX_SPAN,
            origins@.len() == start.len() + y - 1,
            forall|k: int| 0 <= k < start.len() ==> origins@[k] == start[k],
            forall|k: int| 0 <= k < y - 1 ==> (#[trigger] origins@[start.len() + k])@ == Hex::from_offset(col as int, k + 1),
        decreases height - y,
    {
        origins.push(Coordinate::from_offset(col, y));
        y = y + 1;
    }
    proof {
        let added = if height > 0 {
            side_column(col as int, height as int)
        } else {
            Seq::empty()
        };
        let all = hexes(start) + added;
        assert(hexes(start).len() == start.len());
        assert(hexes(origins@).len() == origins@.len());
        if height > 0 {
            assert(y == height);
            assert(added.len() == height - 1);
        } else {
            assert(y == 1);
            assert(added.len() == 0);
        }
        assert(hexes(origins@).len() == all.len());
        assert forall|k: int| 0 <= k < all.len() implies hexes(origins@)[k] == all[k] by {
            if k >= start.len() {
                assert(origins@[start.len() + (k - start.len())]@ == Hex::from_offset(col as int, k - start.len() + 1));
            }
        }
        assert(hexes(origins@) =~= all);
    }
}

/// The open stretches from north to south.
pub fn q_paths(map: &HexMap) -> (found: Vec<(Coordinate, Coordinate)>)
    requires
        map.wf(),
    ensures
        hex_pairs(found@) == map.all_stretches(q_origins(map), Direction::South, q_origins(map).len() as int),
        forall|i: int|
            0 <= i < found@.len() ==> (#[trigger] found@[i]).0@.within(MAX_SPAN as int) && found@[i].1@.within(
                MAX_SPAN as int,
            ),
{
    let (width, _) = map.dimensions();
    let origins = row_origins(width, false);
    paths(map, &origins, Direction::South)
}

/// The open stretches from north-west to south-east.
pub fn r_paths(map: &HexMap) -> (found: Vec<(Coordinate, Coordinate)>)
    requires
        map.wf(),
    ensures
        hex_pairs(found@) == map.all_stretches(r_origins(map), Direction::SouthEast, r_origins(map).len() as int),
        forall|i: int|
            0 <= i < found@.len() ==> (#[trigger] found@[i]).0@.within(MAX_SPAN as int) && found@[i].1@.within(
                MAX_SPAN as int,
            ),
{
    let (width, height) = map.dimensions();
    let mut origins = row_origins(width, true);
    push_column(&mut origins, 0, height);
    paths(map, &origins, Direction::SouthEast)
}

/// The open stretches from north-east to south-west.
pub fn s_paths(map: &HexMap) -> (found: Vec<(Coordinate, Coordinate)>)
    requires
        map.wf(),
    ensures
        hex_pairs(found@) == map.all_stretches(s_origins(map), Direction::SouthWest, s_origins(map).len() as int),
        forall|i: int|
            0 <= i < found@.len() ==> (#[trigger] found@[i]).0@.within(MAX_SPAN as int) && found@[i].1@.within(
                MAX_SPAN as int,
            ),
{
    let (width, height) = map.dimensions();
    let mut origins = row_origins(width, false);
    push_column(&mut origins, width - 1, height);
    paths(map, &origins, Direction::SouthWest)
}

/// The length of a stretch: the distance between its ends.
pub open spec fn span(stretch: (Hex, Hex)) -> int {
    stretch.0.distance(stretch.1)
}

/// The index of the longest among the first `n` stretches, and of several
/// longest ones the last.
pub open spec fn longest_at(stretches: Seq<(Hex, Hex)>, n: int) -> int
    decreases n,
{
    if n <= 1 {
        0
    } else {
        let best = longest_at(stretches, n - 1);
        if span(stretches[n - 1]) >= span(stretches[best]) {
            n - 1
        } else {
            best
        }
    }
}

/// The longest of the stretches, and of several longest ones the last.
pub fn longest(stretches: &Vec<(Coordinate, Coordinate)>) -> (best: Option<(Coordinate, Coordinate)>)
    ensures
        best is Some <==> stretches@.len() > 0,
        best is Some ==> 0 <= longest_at(hex_pairs(stretches@), stretches@.len() as int) < stretches@.len()
            && best.unwrap() == stretches@[longest_at(hex_pairs(stretches@), stretches@.len() as int)],
{
    if stretches.len() == 0 {
        return None;
    }
    let mut at: usize = 0;
    let mut length: i64 = stretches[0].0.wide_distance(stretches[0].1);
    let mut i: usize = 1;
    while i < stretches.len()
        invariant
            1 <= i <= stretches@.len(),
            at < i,
            at == longest_at(hex_pairs(stretches@), i as int),
            length == span(hex_pairs(stretches@)[at as int]),
        decreases stretches@.len() - i,
    {
        let here: i64 = stretches[i].0.wide_distance(stretches[i].1);
        assert(here == span(hex_pairs(stretches@)[i as int]));
        if here >= length {
            at = i;
            length = here;
        }
        i = i + 1;
    }
    Some(stretches[at])
}

/// What cutting the stretch from `c1` to `c2` at step `offset` of the line
/// between them gives: the cell of the line at that step, through which
/// the wall is drawn; nothing if the line is shorter.
pub open spec fn cut_at(c1: Hex, c2: Hex, offset: int) -> Option<Hex> {
    if 0 <= offset < hex_line(c1, c2).len() {
        Some(hex_line(c1, c2)[offset])
    } else {
        None
    }
}

/// `after` is `before`, cut between `c1` and `c2` at step `offset` by a
/// wall along `axis`, and `cut` is the cell through which the wall runs; or
/// nothing was cut and the map is as it was.
pub open spec fn bisected(
    before: &HexMap,
    after: &HexMap,
    c1: Hex,
    c2: Hex,
    offset: int,
    axis: (Direction, Direction),
    cut: Option<Coordinate>,
) -> bool {
    match cut_at(c1, c2, offset) {
        Some(at) => cut is Some && cut.unwrap()@ == at && before.walled(after, at, axis.0, axis.1),
        None => cut is None && *after == *before,
    }
}

/// Cuts the stretch from `c1` to `c2` at step `offset` of the line between
/// them by a wall along `axis`. Returns the cell through which the wall
/// runs.
pub fn bisect_at(
    map: &mut HexMap,
    c1: Coordinate,
    c2: Coordinate,
    offset: i32,
    axis: (Direction, Direction),
) -> (cut: Option<Coordinate>)
    requires
        old(map).wf(),
        c1@.within(2 * REACH),
        c2@.within(2 * REACH),
    ensures
        bisected(old(map), final(map), c1@, c2@, offset as int, axis, cut),
        rebuilt(old(map), final(map)),
{
    let line = c1.line_to(c2);
    if offset < 0 || offset as usize >= line.len() {
        return None;
    }
    let at = line[offset as usize];
    assert(hexes(line@)[offset as int] == at@);
    draw_wall(map, at, axis.0, axis.1);
    Some(at)
}

/// Cuts the stretch from `c1` to `c2`, if it is longer than two rooms of
/// the least size, at a random step that leaves a room of the least size
/// on either side, by a wall along one of `axes`, chosen at random. A
/// stretch of that length is always cut where there is an axis to choose;
/// a shorter one never is.
pub fn bisect_path(
    map: &mut HexMap,
    c1: Coordinate,
    c2: Coordinate,
    axes: &Vec<(Direction, Direction)>,
    rng: &mut RandomNumberGenerator,
) -> (cut: Option<Coordinate>)
    requires
        old(map).wf(),
        c1@.within(2 * REACH),
        c2@.within(2 * REACH),
        axes@.len() < i32::MAX,
    ensures
        rebuilt(old(map), final(map)),
        cut is Some <==> c1@.distance(c2@) > 2 * MIN_ROOM_SIZE && axes@.len() > 0,
        cut is None ==> *final(map) == *old(map),
        cut is Some ==> exists|offset: int, k: int|
            MIN_ROOM_SIZE <= offset < c1@.distance(c2@) - MIN_ROOM_SIZE && 0 <= k < axes@.len() && #[trigger] bisected(
                old(map),
                final(map),
                c1@,
                c2@,
                offset,
                axes@[k],
                cut,
            ),
{
    let distance: i64 = c1.wide_distance(c2);
    if distance > (MIN_ROOM_SIZE * 2) as i64 {
        let offset: i32 = rng_range(rng, MIN_ROOM_SIZE, distance as i32 - MIN_ROOM_SIZE);
        let line = c1.line_to(c2);
        assert(hex_line(c1@, c2@).len() == hexes(line@).len());
        if (offset as usize) < line.len() {
            match rng_entry(rng, axes) {
                Some(axis) => {
                    let ghost k = choose|k: int| 0 <= k < axes@.len() && axes@[k] == *axis;
                    let cut = bisect_at(map, c1, c2, offset, *axis);
                    assert(bisected(old(map), map, c1@, c2@, offset as int, axes@[k], cut));
                    assert(cut_at(c1@, c2@, offset as int) is Some);
                    return cut;
                },
                None => {},
            }
        }
    }
    None
}

/// The two axes of the grid that run across the axis of `along`, each as the
/// direction in which a wall is begun and the direction in which it is
/// drawn.
pub open spec fn across(along: Direction) -> Seq<(Direction, Direction)> {
    let q_axis = (Direction::North, Direction::South);
    let r_axis = (Direction::NorthWest, Direction::SouthEast);
    let s_axis = (Direction::NorthEast, Direction::SouthWest);
    match along {
        Direction::North => seq![r_axis, s_axis],
        Direction::South => seq![r_axis, s_axis],
        Direction::NorthWest => seq![q_axis, s_axis],
        Direction::SouthEast => seq![q_axis, s_axis],
        _ => seq![q_axis, r_axis],
    }
}

/// The two axes of the grid that run across the axis of `along`.
pub fn axes_across(along: Direction) -> (axes: Vec<(Direction, Direction)>)
    ensures
        axes@ == across(along),
{
    let q_axis = (Direction::North, Direction::South);
    let r_axis = (Direction::NorthWest, Direction::SouthEast);
    let s_axis = (Direction::NorthEast, Direction::SouthWest);
    let mut axes: Vec<(Direction, Direction)> = Vec::new();
    match along {
        Direction::North => {
            axes.push(r_axis);
            axes.push(s_axis);
        },
        Direction::South => {
            axes.push(r_axis);
            axes.push(s_axis);
        },
        Direction::NorthWest => {
            axes.push(q_axis);
            axes.push(s_axis);
        },
        Direction::SouthEast => {
            axes.push(q_axis);
            axes.push(s_axis);
        },
        _ => {
            axes.push(q_axis);
            axes.push(r_axis);
        },
    }
    assert(axes@ =~= across(along));
    axes
}

/// The axes along which stretches are cut, in the order of a round.
pub open spec fn axis_of(turn: int) -> Direction {
    if turn % 3 == 0 {
        Direction::South
    } else if turn % 3 == 1 {
        Direction::SouthEast
    } else {
        Direction::SouthWest
    }
}

/// The open stretches of the map along the given axis.
pub open spec fn stretches_along(map: &HexMap, along: Direction) -> Seq<(Hex, Hex)> {
    let origins = match along {
        Direction::South => q_origins(map),
        Direction::SouthEast => r_origins(map),
        _ => s_origins(map),
    };
    map.all_stretches(origins, along, origins.len() as int)
}

/// One attempt to cut the longest stretch along an axis leads from `before`
/// to `after` and leaves the door `door`. Without a stretch, and where no
/// door is left, the map stays as it is. A door is left where the longest
/// stretch was cut: at a step that leaves a room of the least size on either
/// side, by a wall along one of the two axes across.
pub open spec fn cut_along(before: &HexMap, after: &HexMap, along: Direction, door: Option<Coordinate>) -> bool {
    let found = stretches_along(before, along);
    match door {
        None => *after == *before,
        Some(_) => {
            let longest = found[longest_at(found, found.len() as int)];
            &&& found.len() > 0
            &&& exists|offset: int, k: int|
                MIN_ROOM_SIZE <= offset < span(longest) - MIN_ROOM_SIZE && 0 <= k < across(along).len()
                    && #[trigger] bisected(before, after, longest.0, longest.1, offset, across(along)[k], door)
        },
    }
}

/// The attempt found a stretch and left it uncut: the axis is done with.
pub open spec fn gave_up(before: &HexMap, along: Direction, door: Option<Coordinate>) -> bool {
    stretches_along(before, along).len() > 0 && door is None
}

/// The attempts of a drawing: the map after each attempt, and its door.
pub ghost struct Drawing {
    pub start: HexMap,
    pub maps: Seq<HexMap>,
    pub doors: Seq<Option<Coordinate>>,
}

impl Drawing {
    /// The map before attempt `i`.
    pub open spec fn before(self, i: int) -> HexMap {
        if i == 0 {
            self.start
        } else {
            self.maps[i - 1]
        }
    }

    /// Among the first `rounds` rounds, an attempt along the axis of `turn`
    /// gave up.
    pub open spec fn done(self, turn: int, rounds: int) -> bool
        decreases rounds,
    {
        if rounds <= 0 {
            false
        } else {
            self.done(turn, rounds - 1) || gave_up(
                &self.before(3 * (rounds - 1) + turn),
                axis_of(turn),
                self.doors[3 * (rounds - 1) + turn],
            )
        }
    }

    /// All three axes are done with after `rounds` rounds.
    pub open spec fn finished(self, rounds: int) -> bool {
        self.done(0, rounds) && self.done(1, rounds) && self.done(2, rounds)
    }

    /// The drawing is made of `rounds` rounds of three attempts, one along
    /// each axis in turn, each starting from the map that the attempt before
    /// it left. The last round was begun because an axis was not done with,
    /// and no round follows it because all are, or because `budget` rounds
    /// are made.
    pub open spec fn valid(self, rounds: int, budget: int) -> bool {
        &&& 0 <= rounds <= budget
        &&& self.maps.len() == 3 * rounds
        &&& self.doors.len() == 3 * rounds
        &&& forall|i: int|
            0 <= i < 3 * rounds ==> cut_along(&self.before(i), &#[trigger] self.maps[i], axis_of(i), self.doors[i])
        &&& rounds > 0 ==> !self.finished(rounds - 1)
        &&& rounds == budget || self.finished(rounds)
    }

    /// The doors that were left, in their order, among the first `n`
    /// attempts.
    pub open spec fn doors_left(self, n: int) -> Seq<Coordinate>
        decreases n,
    {
        if n <= 0 {
            Seq::empty()
        } else {
            match self.doors[n - 1] {
                Some(door) => self.doors_left(n - 1).push(door),
                None => self.doors_left(n - 1),
            }
        }
    }
}

/// `after` is `before` with a new floor tile on every cell of `doors` that
/// lies on the map.
pub open spec fn doors_opened(before: &HexMap, after: &HexMap, doors: Seq<Coordinate>) -> bool {
    &&& after.wf()
    &&& after.width() == before.width()
    &&& after.height() == before.height()
    &&& forall|t: int|
        0 <= t < after.tiles().len() ==> if hexes(doors).contains(before.cell(t)) {
            (#[trigger] after.tiles()[t]).kind() == TileType::Floor && pristine(after.tiles()[t])
        } else {
            after.tiles()[t] == before.tiles()[t]
        }
}

/// Drawing walls leads from `before` to `after`: some drawing of rounds of
/// attempts, and then a door in every wall where it was begun.
pub open spec fn walls_added(before: &HexMap, after: &HexMap) -> bool {
    exists|drawing: Drawing, rounds: int|
        drawing.start == *before && #[trigger] drawing.valid(rounds, before.tiles().len() as int + 4) && doors_opened(
            &drawing.before(3 * rounds),
            after,
            drawing.doors_left(3 * rounds),
        )
}

/// Drawings that agree in their first attempts agree in what these leave.
pub proof fn lemma_drawing_agrees(earlier: Drawing, later: Drawing, attempts: int, turn: int, r: int)
    requires
        later.start == earlier.start,
        0 <= attempts <= earlier.maps.len(),
        attempts <= later.maps.len(),
        forall|i: int| 0 <= i < attempts ==> later.maps[i] == earlier.maps[i],
        forall|i: int| 0 <= i < attempts ==> later.doors[i] == earlier.doors[i],
        0 <= turn < 3,
        3 * r <= attempts,
    ensures
        later.done(turn, r) == earlier.done(turn, r),
        forall|n: int| n <= attempts ==> later.doors_left(n) == earlier.doors_left(n),
    decreases r,
{
    if r > 0 {
        lemma_drawing_agrees(earlier, later, attempts, turn, r - 1);
    }
    assert forall|n: int| n <= attempts implies later.doors_left(n) == earlier.doors_left(n) by {
        lemma_doors_agree(earlier, later, attempts, n);
    }
}

/// Drawings that agree in their first attempts agree in the doors these
/// left.
pub proof fn lemma_doors_agree(earlier: Drawing, later: Drawing, attempts: int, n: int)
    requires
        forall|i: int| 0 <= i < attempts ==> later.doors[i] == earlier.doors[i],
        n <= attempts,
    ensures
        later.doors_left(n) == earlier.doors_left(n),
    decreases n,
{
    if n > 0 {
        lemma_doors_agree(earlier, later, attempts, n - 1);
    }
}

/// Cuts the longest stretch along the axis of `along` by a wall across it.
/// Returns the door that is left in the wall, if a wall was drawn, and
/// whether there was a stretch at all.
fn cut_longest(map: &mut HexMap, along: Direction, rng: &mut RandomNumberGenerator) -> (cut: (
    Option<Coordinate>,
    bool,
))
    requires
        old(map).wf(),
        along == Direction::South || along == Direction::SouthEast || along == Direction::SouthWest,
    ensures
        rebuilt(old(map), final(map)),
        cut_along(old(map), final(map), along, cut.0),
        cut.1 == (stretches_along(old(map), along).len() > 0),
{
    let found = match along {
        Direction::South => q_paths(map),
        Direction::SouthEast => r_paths(map),
        _ => s_paths(map),
    };
    assert(hex_pairs(found@) == stretches_along(map, along));
    match longest(&found) {
        Some((c1, c2)) => {
            let axes = axes_across(along);
            let door = bisect_path(map, c1, c2, &axes, rng);
            proof {
                let stretches = stretches_along(old(map), along);
                let longest = stretches[longest_at(stretches, stretches.len() as int)];
                assert(hex_pairs(found@)[longest_at(hex_pairs(found@), found@.len() as int)] == (c1@, c2@));
                assert(longest == (c1@, c2@));
                if door is Some {
                    let (offset, k) = choose|offset: int, k: int|
                        MIN_ROOM_SIZE <= offset < c1@.distance(c2@) - MIN_ROOM_SIZE && 0 <= k < axes@.len()
                            && #[trigger] bisected(old(map), map, c1@, c2@, offset, axes@[k], door);
                    assert(axes@[k] == across(along)[k]);
                    assert(bisected(old(map), map, longest.0, longest.1, offset, across(along)[k], door));
                    assert(MIN_ROOM_SIZE <= offset < span(longest) - MIN_ROOM_SIZE && 0 <= k < across(along).len());
                }
            }
            (door, true)
        },
        None => (None, false),
    }
}

/// Opens the doors: every cell of `doors` that lies on the map receives a
/// new floor tile.
fn open_doors(map: &mut HexMap, doors: &Vec<Coordinate>)
    requires
        old(map).wf(),
    ensures
        doors_opened(old(map), final(map), doors@),
        rebuilt(old(map), final(map)),
{
    let mut i: usize = 0;
    assert(doors@.subrange(0, 0) =~= Seq::<Coordinate>::empty());
    while i < doors.len()
        invariant
            old(map).wf(),
            0 <= i <= doors@.len(),
            doors_opened(old(map), map, doors@.subrange(0, i as int)),
        decreases doors@.len() - i,
    {
        let ghost before = *map;
        let door = Tile::floor();
        let ghost new_tile = door;
        map.set_tile(doors[i], door);
        proof {
            let shorter = hexes(doors@.subrange(0, i as int));
            let longer = hexes(doors@.subrange(0, i + 1));
            assert forall|t: int| 0 <= t < map.tiles().len() implies if longer.contains(old(map).cell(t)) {
                (#[trigger] map.tiles()[t]).kind() == TileType::Floor && pristine(map.tiles()[t])
            } else {
                map.tiles()[t] == old(map).tiles()[t]
            } by {
                let h = old(map).cell(t);
                old(map).lemma_index_bijection(doors@[i as int]@, t);
                before.lemma_dimensions(old(map), doors@[i as int]@, t);
                if shorter.contains(h) {
                    let k = choose|k: int| 0 <= k < shorter.len() && shorter[k] == h;
                    assert(longer[k] == h);
                }
                if longer.contains(h) {
                    let k = choose|k: int| 0 <= k < longer.len() && longer[k] == h;
                    if k < i {
                        assert(shorter[k] == h);
                    }
                }
                if doors@[i as int]@ == h {
                    assert(longer[i as int] == h);
                    assert(map.tiles()[t] == new_tile);
                }
            }
        }
        i = i + 1;
    }
    assert(doors@.subrange(0, doors@.len() as int) =~= doors@);
}

/// Draws walls by bisection along all three axes in turn, round after
/// round, until the longest stretch of each axis was found too short to be
/// cut, and opens a door in every wall where it was begun. The rounds are
/// counted: after as many rounds as the map has tiles, and four more, the
/// work ends as it is.
pub fn add_walls(map: &mut HexMap, rng: &mut RandomNumberGenerator)
    requires
        old(map).wf(),
    ensures
        walls_added(old(map), final(map)),
        rebuilt(old(map), final(map)),
{
    let mut doors: Vec<Coordinate> = Vec::new();
    let mut done_q: bool = false;
    let mut done_r: bool = false;
    let mut done_s: bool = false;
    proof {
        map.lemma_size();
    }
    let rounds: usize = map.tiles_len() + 4;
    let mut round: usize = 0;
    let ghost mut drawing = Drawing { start: *map, maps: Seq::empty(), doors: Seq::empty() };
    while !(done_q && done_r && done_s) && round < rounds
        invariant
            rebuilt(old(map), map),
            rounds == old(map).tiles().len() + 4,
            0 <= round <= rounds,
            drawing.start == *old(map),
            drawing.maps.len() == 3 * round,
            drawing.doors.len() == 3 * round,
            drawing.before(3 * round) == *map,
            forall|i: int|
                0 <= i < 3 * round ==> cut_along(&drawing.before(i), &#[trigger] drawing.maps[i], axis_of(i), drawing.doors[i]),
            round > 0 ==> !drawing.finished(round - 1),
            done_q == drawing.done(0, round as int),
            done_r == drawing.done(1, round as int),
            done_s == drawing.done(2, round as int),
            doors@ == drawing.doors_left(3 * round),
        decreases rounds - round,
    {
        let ghost start = *map;
        let ghost earlier = drawing;
        let ghost doors_before = doors@;
        let (door_q, found_q) = cut_longest(map, Direction::South, rng);
        let ghost after_q = *map;
        let (door_r, found_r) = cut_longest(map, Direction::SouthEast, rng);
        let ghost after_r = *map;
        let (door_s, found_s) = cut_longest(map, Direction::SouthWest, rng);
        match door_q {
            Some(door) => {
                doors.push(door);
            },
            None => {
                if found_q {
                    done_q = true;
                }
            },
        }
        match door_r {
            Some(door) => {
                doors.push(door);
            },
            None => {
                if found_r {
                    done_r = true;
                }
            },
        }
        match door_s {
            Some(door) => {
                doors.push(door);
            },
            None => {
                if found_s {
                    done_s = true;
                }
            },
        }
        proof {
            lemma_rebuilt_twice(old(map), &start, &after_q);
            lemma_rebuilt_twice(old(map), &after_q, &after_r);
            lemma_rebuilt_twice(old(map), &after_r, map);
            let n = 3 * round;
            drawing =
            Drawing {
                start: earlier.start,
                maps: earlier.maps.push(after_q).push(after_r).push(*map),
                doors: earlier.doors.push(door_q).push(door_r).push(door_s),
            };
            lemma_drawing_agrees(earlier, drawing, n as int, 0, round as int);
            lemma_drawing_agrees(earlier, drawing, n as int, 1, round as int);
            lemma_drawing_agrees(earlier, drawing, n as int, 2, round as int);
            assert forall|i: int| 0 <= i <= n implies drawing.before(i) == earlier.before(i) by {}
            assert(drawing.before(n as int) == start);
            assert(drawing.before(n + 1) == after_q);
            assert(drawing.before(n + 2) == after_r);
            assert(drawing.before(n + 3) == *map);
            assert(axis_of(n as int) == Direction::South);
            assert(axis_of(n + 1) == Direction::SouthEast);
            assert(axis_of(n + 2) == Direction::SouthWest);
            assert forall|i: int| 0 <= i < n + 3 implies cut_along(
                &drawing.before(i),
                &#[trigger] drawing.maps[i],
                axis_of(i),
                drawing.doors[i],
            ) by {
                if i < n {
                    assert(cut_along(&earlier.before(i), &earlier.maps[i], axis_of(i), earlier.doors[i]));
                }
            }
            assert(drawing.doors_left(n as int) == doors_before);
            let with_q = match door_q {
                Some(door) => doors_before.push(door),
                None => doors_before,
            };
            let with_r = match door_r {
                Some(door) => with_q.push(door),
                None => with_q,
            };
            assert(drawing.doors[n as int] == door_q);
            assert(drawing.doors_left(n + 1) == with_q);
            assert(drawing.doors[n + 1] == door_r);
            assert(drawing.doors_left(n + 2) == with_r);
            assert(drawing.doors[n + 2] == door_s);
            assert(drawing.doors_left(n + 3) == doors@);
            assert(drawing.finished(round as int) == earlier.finished(round as int));
        }
        round = round + 1;
    }
    let ghost drawn = *map;
    open_doors(map, &doors);
    proof {
        lemma_rebuilt_twice(old(map), &drawn, map);
        assert(drawing.valid(round as int, old(map).tiles().len() as int + 4));
    }
}

} // verus!
