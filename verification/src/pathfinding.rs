//! Shortest-route search over the tiles that may be entered.
//!
//! The search is A* with unit step cost and the hex distance to the goal as
//! its heuristic. Every step of a route leads to a neighboring tile on which
//! a move is legal; the tile on which the route starts is not asked for.

use crate::hex_coordinates::{
    hexes, lemma_distance_triangle, lemma_neighbor_direction, lemma_neighbors_partition,
    lemma_step_is_neighbor, Coordinate, Direction, Hex, MAX_SPAN,
};
use crate::map::HexMap;
use crate::movement::is_legal_move;
use vstd::prelude::*;

verus! {

/// The search has not met the tile.
pub const UNSEEN: u8 = 0;

/// The tile was met and waits to be expanded.
pub const OPEN: u8 = 1;

/// The tile was expanded.
pub const CLOSED: u8 = 2;

impl HexMap {
    /// `path` leads from `start` to `end` by steps between neighbors, and
    /// every cell after the first may be entered.
    pub open spec fn is_path(&self, path: Seq<Hex>, start: Hex, end: Hex) -> bool {
        &&& path.len() > 0
        &&& path[0] == start
        &&& path[path.len() - 1] == end
        &&& forall|i: int| 0 <= i < path.len() - 1 ==> (#[trigger] path[i]).is_neighbor(path[i + 1])
        &&& forall|i: int| 1 <= i < path.len() ==> self.legal(#[trigger] path[i])
    }

    /// `path` leads from `start` to `end`, and no path between them has
    /// fewer cells.
    pub open spec fn is_shortest_path(&self, path: Seq<Hex>, start: Hex, end: Hex) -> bool {
        &&& self.is_path(path, start, end)
        &&& forall|other: Seq<Hex>| #[trigger] self.is_path(other, start, end) ==> path.len() <= other.len()
    }

    /// Some path leads from `start` to `end`.
    pub open spec fn reachable(&self, start: Hex, end: Hex) -> bool {
        exists|path: Seq<Hex>| self.is_path(path, start, end)
    }
}

/// If the search has met tile `i`, and `i` is not the start, then it was
/// met from an expanded neighbor one step nearer to the start, and may be
/// entered.
pub open spec fn hung(map: &HexMap, s: int, state: Seq<u8>, g: Seq<usize>, parent: Seq<usize>, i: int) -> bool {
    state[i] != UNSEEN && i != s ==> {
        &&& parent[i] < state.len()
        &&& state[parent[i] as int] == CLOSED
        &&& map.cell(parent[i] as int).is_neighbor(map.cell(i))
        &&& map.legal(map.cell(i))
        &&& g[i] == g[parent[i] as int] + 1
    }
}

/// The search tree: the start was met with no step, and every other tile
/// that was met hangs below an expanded neighbor.
pub open spec fn search_tree(map: &HexMap, s: int, state: Seq<u8>, g: Seq<usize>, parent: Seq<usize>) -> bool {
    &&& state.len() == map.tiles().len()
    &&& g.len() == map.tiles().len()
    &&& parent.len() == map.tiles().len()
    &&& 0 <= s < state.len()
    &&& state[s] != UNSEEN
    &&& g[s] == 0
    &&& forall|i: int| 0 <= i < state.len() ==> #[trigger] hung(map, s, state, g, parent, i)
}

/// If the step from tile `i` in direction `d` may be taken, the search has
/// met the tile it leads to, at no more than one step more than tile `i`.
pub open spec fn sealed(map: &HexMap, state: Seq<u8>, g: Seq<usize>, i: int, d: Direction) -> bool {
    map.legal(map.cell(i).step(d)) ==> state[map.slot_of(map.cell(i).step(d))] != UNSEEN && g[map.slot_of(
        map.cell(i).step(d),
    )] <= g[i] + 1
}

/// Every expanded tile is sealed in every direction; the tile `current` is
/// so far sealed in the first `done` directions only.
pub open spec fn closed_tiles_sealed(map: &HexMap, state: Seq<u8>, g: Seq<usize>, current: int, done: int) -> bool {
    forall|i: int, d: Direction|
        0 <= i < state.len() && state[i] == CLOSED && (i != current || exists|k: int|
            0 <= k < done && d == Direction::nth(k)) ==> #[trigger] sealed(map, state, g, i, d)
}

/// The sum by which the search chooses among open tiles: the steps taken
/// to tile `i` and the hex distance left from there to the goal.
pub open spec fn priority(map: &HexMap, g: Seq<usize>, goal: Hex, i: int) -> int {
    g[i] + map.cell(i).distance(goal)
}

/// If `path` leads from the start to tile `i`, it is no shorter than the
/// way by which the search has met tile `i`.
pub open spec fn no_shorter(map: &HexMap, s: int, g: Seq<usize>, i: int, path: Seq<Hex>) -> bool {
    map.is_path(path, map.cell(s), map.cell(i)) ==> g[i] + 1 <= path.len()
}

/// The search has met every expanded tile by a shortest path.
pub open spec fn nearest_known(map: &HexMap, s: int, state: Seq<u8>, g: Seq<usize>) -> bool {
    forall|i: int, path: Seq<Hex>|
        0 <= i < state.len() && state[i] == CLOSED ==> #[trigger] no_shorter(map, s, g, i, path)
}

/// Along a path, two cells are no farther apart than the steps between
/// them.
pub proof fn lemma_path_spread(path: Seq<Hex>, i: int, j: int)
    requires
        forall|t: int| 0 <= t < path.len() - 1 ==> (#[trigger] path[t]).is_neighbor(path[t + 1]),
        0 <= i <= j < path.len(),
    ensures
        path[i].distance(path[j]) <= j - i,
    decreases j - i,
{
    if i < j {
        lemma_path_spread(path, i, j - 1);
        assert(path[j - 1].is_neighbor(path[j]));
        lemma_neighbors_partition(path[j - 1], path[j]);
        lemma_distance_triangle(path[i], path[j - 1], path[j]);
    }
}

/// The first steps of a path are a path.
pub proof fn lemma_path_prefix(map: &HexMap, path: Seq<Hex>, start: Hex, end: Hex, k: int)
    requires
        map.is_path(path, start, end),
        0 <= k < path.len(),
    ensures
        map.is_path(path.subrange(0, k + 1), start, path[k]),
{
    let prefix = path.subrange(0, k + 1);
    assert forall|i: int| 0 <= i < prefix.len() - 1 implies (#[trigger] prefix[i]).is_neighbor(prefix[i + 1]) by {
        assert(path[i].is_neighbor(path[i + 1]));
    }
    assert forall|i: int| 1 <= i < prefix.len() implies map.legal(#[trigger] prefix[i]) by {
        assert(map.legal(path[i]));
    }
}

/// The search tree holds a path of `g[i] + 1` cells from the start to
/// every tile `i` that the search has met.
pub proof fn lemma_tree_path(
    map: &HexMap,
    s: int,
    state: Seq<u8>,
    g: Seq<usize>,
    parent: Seq<usize>,
    i: int,
) -> (path: Seq<Hex>)
    requires
        search_tree(map, s, state, g, parent),
        0 <= i < state.len(),
        state[i] != UNSEEN,
    ensures
        map.is_path(path, map.cell(s), map.cell(i)),
        path.len() == g[i] + 1,
    decreases g[i],
{
    if i == s {
        seq![map.cell(s)]
    } else {
        assert(hung(map, s, state, g, parent, i));
        let before = lemma_tree_path(map, s, state, g, parent, parent[i] as int);
        let path = before.push(map.cell(i));
        assert forall|t: int| 0 <= t < path.len() - 1 implies (#[trigger] path[t]).is_neighbor(path[t + 1]) by {
            if t < before.len() - 1 {
                assert(before[t].is_neighbor(before[t + 1]));
            }
        }
        assert forall|t: int| 1 <= t < path.len() implies map.legal(#[trigger] path[t]) by {
            if t < before.len() {
                assert(map.legal(before[t]));
            }
        }
        path
    }
}

/// The first cell from index `from` on that the search has not expanded,
/// on a path whose last cell it has not expanded.
pub proof fn lemma_first_unexpanded(map: &HexMap, state: Seq<u8>, path: Seq<Hex>, from: int) -> (j: int)
    requires
        0 <= from < path.len(),
        state[map.slot_of(path[path.len() - 1])] != CLOSED,
        forall|t: int| 0 <= t < from ==> state[map.slot_of(#[trigger] path[t])] == CLOSED,
    ensures
        from <= j < path.len(),
        state[map.slot_of(path[j])] != CLOSED,
        forall|t: int| 0 <= t < j ==> state[map.slot_of(#[trigger] path[t])] == CLOSED,
    decreases path.len() - from,
{
    if state[map.slot_of(path[from])] != CLOSED {
        from
    } else {
        lemma_first_unexpanded(map, state, path, from + 1)
    }
}

/// The open tile of least priority was met by a shortest path: no path
/// from the start to it has fewer cells than the search took steps, plus
/// one. This is where the hex distance serves as the estimate of what is
/// left: it never shrinks by more than one with a step.
pub proof fn lemma_choice_is_nearest(
    map: &HexMap,
    s: int,
    goal: Hex,
    state: Seq<u8>,
    g: Seq<usize>,
    u: int,
    path: Seq<Hex>,
)
    requires
        map.wf(),
        state.len() == map.tiles().len(),
        g.len() == map.tiles().len(),
        known_states(state),
        0 <= s < state.len(),
        state[s] != UNSEEN,
        g[s] == 0,
        0 <= u < state.len(),
        state[u] == OPEN,
        closed_tiles_sealed(map, state, g, -1, 0),
        nearest_known(map, s, state, g),
        forall|v: int| 0 <= v < state.len() && state[v] == OPEN ==> priority(map, g, goal, u) <= priority(map, g, goal, v),
        map.is_path(path, map.cell(s), map.cell(u)),
    ensures
        g[u] + 1 <= path.len(),
{
    let k = path.len() - 1;
    map.lemma_index_bijection(path[0], s);
    map.lemma_index_bijection(path[k], u);
    assert forall|t: int| 0 <= t < path.len() implies map.contains(#[trigger] path[t]) by {
        if t > 0 {
            assert(map.legal(path[t]));
        }
    }
    let j = lemma_first_unexpanded(map, state, path, 0);
    let v = map.slot_of(path[j]);
    map.lemma_index_bijection(path[j], 0);
    // The first cell that is not expanded is open, and was met in no more
    // than `j` steps.
    if j == 0 {
        assert(v == s);
    } else {
        let c = map.slot_of(path[j - 1]);
        map.lemma_index_bijection(path[j - 1], 0);
        assert(state[c] == CLOSED);
        lemma_path_prefix(map, path, map.cell(s), map.cell(u), j - 1);
        assert(no_shorter(map, s, g, c, path.subrange(0, j)));
        assert(g[c] + 1 <= j);
        assert(path[j - 1].is_neighbor(path[j]));
        let d = lemma_neighbor_direction(path[j - 1], path[j]);
        assert(map.legal(path[j]));
        assert(sealed(map, state, g, c, d));
    }
    assert(state[v] == OPEN);
    assert(g[v] <= j);
    // From there the goal is no farther than from the end of the path, plus
    // the steps in between.
    lemma_path_spread(path, j, k);
    lemma_distance_triangle(path[j], path[k], goal);
    assert(priority(map, g, goal, u) <= priority(map, g, goal, v));
}

/// A tile that was expanded before the tile `current` and lies one legal
/// step from it was met in no more than one step more.
pub proof fn lemma_expanded_neighbor(
    map: &HexMap,
    s: int,
    state: Seq<u8>,
    g: Seq<usize>,
    parent: Seq<usize>,
    current: int,
    d: Direction,
)
    requires
        map.wf(),
        search_tree(map, s, state, g, parent),
        nearest_known(map, s, state, g),
        0 <= current < state.len(),
        state[current] != UNSEEN,
        map.legal(map.cell(current).step(d)),
        state[map.slot_of(map.cell(current).step(d))] == CLOSED,
    ensures
        g[map.slot_of(map.cell(current).step(d))] <= g[current] + 1,
{
    let next = map.cell(current).step(d);
    let j = map.slot_of(next);
    map.lemma_index_bijection(next, 0);
    let before = lemma_tree_path(map, s, state, g, parent, current);
    let path = before.push(next);
    lemma_step_is_neighbor(map.cell(current), d);
    assert forall|t: int| 0 <= t < path.len() - 1 implies (#[trigger] path[t]).is_neighbor(path[t + 1]) by {
        if t < before.len() - 1 {
            assert(before[t].is_neighbor(before[t + 1]));
        }
    }
    assert forall|t: int| 1 <= t < path.len() implies map.legal(#[trigger] path[t]) by {
        if t < before.len() {
            assert(map.legal(before[t]));
        }
    }
    assert(map.is_path(path, map.cell(s), map.cell(j)));
    assert(no_shorter(map, s, g, j, path));
}

/// Where every tile that the search has met is expanded and sealed, every
/// path from the start stays among the expanded tiles.
pub proof fn lemma_expanded_tiles_hold_paths(
    map: &HexMap,
    s: int,
    state: Seq<u8>,
    g: Seq<usize>,
    path: Seq<Hex>,
    k: int,
)
    requires
        map.wf(),
        state.len() == map.tiles().len(),
        0 <= s < state.len(),
        state[s] == CLOSED,
        forall|i: int| 0 <= i < state.len() ==> state[i] == UNSEEN || state[i] == CLOSED,
        closed_tiles_sealed(map, state, g, -1, 0),
        path.len() > 0,
        path[0] == map.cell(s),
        forall|i: int| 0 <= i < path.len() - 1 ==> (#[trigger] path[i]).is_neighbor(path[i + 1]),
        forall|i: int| 1 <= i < path.len() ==> map.legal(#[trigger] path[i]),
        0 <= k < path.len(),
    ensures
        map.contains(path[k]),
        state[map.slot_of(path[k])] == CLOSED,
    decreases k,
{
    if k == 0 {
        map.lemma_index_bijection(path[0], s);
    } else {
        lemma_expanded_tiles_hold_paths(map, s, state, g, path, k - 1);
        let before = path[k - 1];
        let i = map.slot_of(before);
        map.lemma_index_bijection(before, 0);
        assert(before.is_neighbor(path[k]));
        let d = lemma_neighbor_direction(before, path[k]);
        assert(map.cell(i) == before);
        assert(sealed(map, state, g, i, d));
        map.lemma_index_bijection(path[k], 0);
    }
}

/// Where the search goes on without forgetting a tile it has met or the
/// steps to an expanded tile, without taking more steps to any tile it has
/// met, and expands at most the tile `newly`, what was sealed stays
/// sealed.
pub proof fn lemma_seal_kept(
    map: &HexMap,
    before: (Seq<u8>, Seq<usize>),
    after: (Seq<u8>, Seq<usize>),
    current: int,
    done: int,
    newly: int,
)
    requires
        map.wf(),
        before.0.len() == map.tiles().len(),
        after.0.len() == before.0.len(),
        before.1.len() == before.0.len(),
        after.1.len() == before.0.len(),
        closed_tiles_sealed(map, before.0, before.1, current, done),
        forall|j: int|
            0 <= j < before.0.len() && before.0[j] != UNSEEN ==> (#[trigger] after.0[j]) != UNSEEN && after.1[j]
                <= before.1[j],
        forall|j: int| 0 <= j < before.0.len() && (#[trigger] after.0[j]) == CLOSED ==> after.1[j] == before.1[j],
        forall|j: int| 0 <= j < before.0.len() && (#[trigger] after.0[j]) == CLOSED ==> before.0[j] == CLOSED || j == newly,
        current == newly || current == -1,
        done > 0 ==> 0 <= newly < before.0.len() && before.0[newly] == CLOSED,
    ensures
        closed_tiles_sealed(map, after.0, after.1, newly, done),
{
    assert forall|i: int, d: Direction|
        0 <= i < after.0.len() && after.0[i] == CLOSED && (i != newly || exists|k: int|
            0 <= k < done && d == Direction::nth(k)) implies #[trigger] sealed(map, after.0, after.1, i, d) by {
        assert(sealed(map, before.0, before.1, i, d));
        if map.legal(map.cell(i).step(d)) {
            map.lemma_index_bijection(map.cell(i).step(d), 0);
            let j = map.slot_of(map.cell(i).step(d));
            assert(before.0[j] != UNSEEN);
            assert(after.0[j] != UNSEEN && after.1[j] <= before.1[j]);
            assert(after.0[i] == CLOSED);
            assert(after.1[i] == before.1[i]);
        }
    }
}

/// Sealing the tile `current` in the direction with number `done` extends
/// what is sealed by that direction.
pub proof fn lemma_seal_grows(map: &HexMap, state: Seq<u8>, g: Seq<usize>, current: int, done: int)
    requires
        closed_tiles_sealed(map, state, g, current, done),
        sealed(map, state, g, current, Direction::nth(done)),
    ensures
        closed_tiles_sealed(map, state, g, current, done + 1),
{
    assert forall|i: int, d: Direction|
        0 <= i < state.len() && state[i] == CLOSED && (i != current || exists|k: int|
            0 <= k < done + 1 && d == Direction::nth(k)) implies #[trigger] sealed(map, state, g, i, d) by {
        if i == current {
            let k = choose|k: int| 0 <= k < done + 1 && d == Direction::nth(k);
            if k < done {
                assert(exists|t: int| 0 <= t < done && d == Direction::nth(t));
            }
        }
    }
}

/// Every direction has a number below six.
pub proof fn lemma_direction_numbers(d: Direction)
    ensures
        exists|k: int| 0 <= k < 6 && d == Direction::nth(k),
{
    match d {
        Direction::North => assert(d == Direction::nth(0)),
        Direction::NorthEast => assert(d == Direction::nth(1)),
        Direction::SouthEast => assert(d == Direction::nth(2)),
        Direction::South => assert(d == Direction::nth(3)),
        Direction::SouthWest => assert(d == Direction::nth(4)),
        Direction::NorthWest => assert(d == Direction::nth(5)),
    }
}

impl HexMap {
    /// The open tile with the least sum of steps taken and distance left;
    /// among equals the one stored first. `None` when no tile is open.
    fn next_open(&self, state: &Vec<u8>, g: &Vec<usize>, end: Coordinate) -> (best: Option<usize>)
        requires
            self.wf(),
            state@.len() == self.tiles().len(),
            g@.len() == self.tiles().len(),
            forall|i: int| 0 <= i < g@.len() ==> g@[i] <= self.tiles().len(),
        ensures
            best is Some ==> best.unwrap() < state@.len() && state@[best.unwrap() as int] == OPEN,
            best is Some ==> forall|i: int|
                0 <= i < state@.len() && state@[i] == OPEN ==> priority(self, g@, end@, best.unwrap() as int)
                    <= priority(self, g@, end@, i),
            best is None ==> forall|i: int| 0 <= i < state@.len() ==> state@[i] != OPEN,
    {
        let mut best: Option<usize> = None;
        let mut best_cost: i64 = 0;
        let mut i: usize = 0;
        while i < state.len()
            invariant
                self.wf(),
                state@.len() == self.tiles().len(),
                g@.len() == self.tiles().len(),
                forall|j: int| 0 <= j < g@.len() ==> g@[j] <= self.tiles().len(),
                0 <= i <= state@.len(),
                best is Some ==> best.unwrap() < state@.len() && state@[best.unwrap() as int] == OPEN,
                best is Some ==> best_cost == priority(self, g@, end@, best.unwrap() as int),
                best is Some ==> forall|j: int|
                    0 <= j < i && state@[j] == OPEN ==> best_cost <= priority(self, g@, end@, j),
                best is None ==> forall|j: int| 0 <= j < i ==> state@[j] != OPEN,
            decreases state@.len() - i,
        {
            if state[i] == OPEN {
                let here = self.coordinate_at(i);
                let left: i64 = here.wide_distance(end);
                proof {
                    self.lemma_size();
                }
                let cost: i64 = g[i] as i64 + left;
                if best.is_none() || cost < best_cost {
                    best = Some(i);
                    best_cost = cost;
                }
            }
            i = i + 1;
        }
        best
    }

    /// A shortest route from `start` to `end`, both included, or `None`
    /// where there is none. A route starts on the map; each of its steps
    /// leads to a neighboring tile onto which a move is legal.
    pub fn path(&self, start: Coordinate, end: Coordinate) -> (route: Option<Vec<Coordinate>>)
        requires
            self.wf(),
        ensures
            route is Some <==> self.contains(start@) && self.reachable(start@, end@),
            route is Some ==> self.is_shortest_path(hexes(route.unwrap()@), start@, end@),
    {
        let s: usize = match self.coordinate_to_index(start) {
            Some(s) => s,
            None => {
                return None;
            },
        };
        proof {
            self.lemma_index_bijection(start@, s as int);
            self.lemma_size();
        }
        if start == end {
            let route: Vec<Coordinate> = vec![start];
            assert(hexes(route@) =~= seq![start@]);
            assert(self.is_path(hexes(route@), start@, end@));
            assert(route@.len() == 1);
            return Some(route);
        }
        let n: usize = self.tiles_len();
        let e: usize = match self.coordinate_to_index(end) {
            Some(e) => e,
            None => {
                assert forall|path: Seq<Hex>| !self.is_path(path, start@, end@) by {
                    if self.is_path(path, start@, end@) {
                        assert(self.legal(path[path.len() - 1]));
                    }
                }
                return None;
            },
        };
        proof {
            self.lemma_index_bijection(end@, e as int);
        }
        let mut state: Vec<u8> = Vec::new();
        let mut g: Vec<usize> = Vec::new();
        let mut parent: Vec<usize> = Vec::new();
        let mut i: usize = 0;
        while i < n
            invariant
                0 <= i <= n,
                state@.len() == i,
                g@.len() == i,
                parent@.len() == i,
                forall|j: int| 0 <= j < i ==> state@[j] == UNSEEN && g@[j] == 0,
            decreases n - i,
        {
            state.push(UNSEEN);
            g.push(0);
            parent.push(0);
            i = i + 1;
        }
        state[s] = OPEN;
        let mut closed: usize = 0;
        let ghost mut waiting: Set<int> = vstd::set_lib::set_int_range(0, n as int);
        proof {
            vstd::set_lib::lemma_int_range(0, n as int);
            assert(closed_tiles_sealed(self, state@, g@, -1, 0));
            assert(nearest_known(self, s as int, state@, g@));
        }
        loop
            invariant
                self.wf(),
                n == self.tiles().len(),
                s < n,
                e < n,
                s != e,
                self.cell(s as int) == start@,
                self.cell(e as int) == end@,
                self.contains(start@),
                search_tree(self, s as int, state@, g@, parent@),
                closed_tiles_sealed(self, state@, g@, -1, 0),
                nearest_known(self, s as int, state@, g@),
                state@[e as int] != CLOSED,
                known_states(state@),
                forall|j: int| 0 <= j < n && state@[j] != UNSEEN ==> g@[j] <= closed,
                forall|j: int| 0 <= j < n ==> g@[j] <= n,
                waiting.finite(),
                forall|j: int| waiting.contains(j) <==> 0 <= j < n && state@[j] != CLOSED,
                closed + waiting.len() == n,
            decreases waiting.len(),
        {
            let current: usize = match self.next_open(&state, &g, end) {
                Some(current) => current,
                None => {
                    proof {
                        assert(state@[s as int] == CLOSED);
                        assert forall|path: Seq<Hex>| !self.is_path(path, start@, end@) by {
                            if self.is_path(path, start@, end@) {
                                lemma_expanded_tiles_hold_paths(self, s as int, state@, g@, path, path.len() - 1);
                                self.lemma_index_bijection(end@, e as int);
                            }
                        }
                    }
                    return None;
                },
            };
            proof {
                assert forall|path: Seq<Hex>| #[trigger] no_shorter(self, s as int, g@, current as int, path) by {
                    if self.is_path(path, self.cell(s as int), self.cell(current as int)) {
                        lemma_choice_is_nearest(self, s as int, end@, state@, g@, current as int, path);
                    }
                }
            }
            if current == e {
                let route = self.trace(&state, &g, &parent, s, e, start, end);
                proof {
                    assert forall|other: Seq<Hex>| #[trigger] self.is_path(other, start@, end@) implies route@.len()
                        <= other.len() by {
                        assert(no_shorter(self, s as int, g@, e as int, other));
                    }
                }
                return Some(route);
            }
            proof {
                assert(waiting.contains(current as int));
                waiting = waiting.remove(current as int);
            }
            closed = closed + 1;
            self.expand(&mut state, &mut g, &mut parent, s, current, closed);
        }
    }

    /// Marks tile `current` as expanded and meets its neighbors onto which
    /// a move is legal.
    fn expand(
        &self,
        state: &mut Vec<u8>,
        g: &mut Vec<usize>,
        parent: &mut Vec<usize>,
        s: usize,
        current: usize,
        closed: usize,
    )
        requires
            self.wf(),
            search_tree(self, s as int, old(state)@, old(g)@, old(parent)@),
            closed_tiles_sealed(self, old(state)@, old(g)@, -1, 0),
            nearest_known(self, s as int, old(state)@, old(g)@),
            forall|path: Seq<Hex>| #[trigger] no_shorter(self, s as int, old(g)@, current as int, path),
            known_states(old(state)@),
            current < old(state)@.len(),
            old(state)@[current as int] == OPEN,
            closed <= old(state)@.len(),
            forall|j: int| 0 <= j < old(state)@.len() && old(state)@[j] != UNSEEN ==> old(g)@[j] < closed,
            forall|j: int| 0 <= j < old(state)@.len() ==> old(g)@[j] <= old(state)@.len(),
        ensures
            search_tree(self, s as int, final(state)@, final(g)@, final(parent)@),
            closed_tiles_sealed(self, final(state)@, final(g)@, -1, 0),
            nearest_known(self, s as int, final(state)@, final(g)@),
            known_states(final(state)@),
            forall|j: int|
                0 <= j < final(state)@.len() ==> ((#[trigger] final(state)@[j]) == CLOSED <==> (old(state)@[j] == CLOSED
                    || j == current)),
            forall|j: int| 0 <= j < final(state)@.len() && final(state)@[j] != UNSEEN ==> final(g)@[j] <= closed,
            forall|j: int| 0 <= j < final(state)@.len() ==> final(g)@[j] <= final(state)@.len(),
    {
        let ghost n = state@.len();
        state[current] = CLOSED;
        let here = self.coordinate_at(current);
        let dirs = Direction::all();
        let mut k: usize = 0;
        proof {
            lemma_seal_kept(self, (old(state)@, old(g)@), (state@, g@), -1, 0, current as int);
            assert forall|i: int, path: Seq<Hex>|
                0 <= i < state@.len() && state@[i] == CLOSED implies #[trigger] no_shorter(
                self,
                s as int,
                g@,
                i,
                path,
            ) by {
                if i != current {
                    assert(no_shorter(self, s as int, old(g)@, i, path));
                }
            }
            assert forall|i: int| 0 <= i < state@.len() implies #[trigger] hung(
                self,
                s as int,
                state@,
                g@,
                parent@,
                i,
            ) by {
                assert(hung(self, s as int, old(state)@, old(g)@, old(parent)@, i));
            }
        }
        while k < 6
            invariant
                self.wf(),
                n == self.tiles().len(),
                state@.len() == n,
                s < n,
                current < n,
                here@ == self.cell(current as int),
                forall|j: int| 0 <= j < 6 ==> dirs[j] == Direction::nth(j),
                0 <= k <= 6,
                state@[current as int] == CLOSED,
                search_tree(self, s as int, state@, g@, parent@),
                closed_tiles_sealed(self, state@, g@, current as int, k as int),
                nearest_known(self, s as int, state@, g@),
                known_states(state@),
                forall|j: int|
                    0 <= j < n ==> ((#[trigger] state@[j]) == CLOSED <==> (old(state)@[j] == CLOSED || j == current)),
                forall|j: int| 0 <= j < n && state@[j] != UNSEEN ==> g@[j] <= closed,
                forall|j: int| 0 <= j < n ==> g@[j] <= n,
                g@[current as int] < closed,
                closed <= n,
            decreases 6 - k,
        {
            let ghost state_before = state@;
            let ghost g_before = g@;
            self.meet(state, g, parent, s, current, here, dirs[k], closed);
            proof {
                lemma_seal_kept(self, (state_before, g_before), (state@, g@), current as int, k as int, current as int);
                lemma_seal_grows(self, state@, g@, current as int, k as int);
                assert forall|i: int, path: Seq<Hex>|
                    0 <= i < state@.len() && state@[i] == CLOSED implies #[trigger] no_shorter(
                    self,
                    s as int,
                    g@,
                    i,
                    path,
                ) by {
                    assert(no_shorter(self, s as int, g_before, i, path));
                }
            }
            k = k + 1;
        }
        proof {
            assert forall|i: int, d: Direction|
                0 <= i < state@.len() && state@[i] == CLOSED && (i != -1 || exists|t: int|
                    0 <= t < 0 && d == Direction::nth(t)) implies #[trigger] sealed(self, state@, g@, i, d) by {
                lemma_direction_numbers(d);
            }
        }
    }

    /// Meets the neighbor of the expanded tile `current` in direction `d`,
    /// if a move onto it is legal: an unseen neighbor becomes open, and an
    /// open one that is reached in fewer steps this way is hung below
    /// `current`.
    fn meet(
        &self,
        state: &mut Vec<u8>,
        g: &mut Vec<usize>,
        parent: &mut Vec<usize>,
        s: usize,
        current: usize,
        here: Coordinate,
        d: Direction,
        closed: usize,
    )
        requires
            self.wf(),
            search_tree(self, s as int, old(state)@, old(g)@, old(parent)@),
            nearest_known(self, s as int, old(state)@, old(g)@),
            known_states(old(state)@),
            current < old(state)@.len(),
            old(state)@[current as int] == CLOSED,
            here@ == self.cell(current as int),
            old(g)@[current as int] < closed,
            closed <= old(state)@.len(),
            forall|j: int| 0 <= j < old(state)@.len() && old(state)@[j] != UNSEEN ==> old(g)@[j] <= closed,
            forall|j: int| 0 <= j < old(state)@.len() ==> old(g)@[j] <= old(state)@.len(),
        ensures
            search_tree(self, s as int, final(state)@, final(g)@, final(parent)@),
            known_states(final(state)@),
            final(state)@.len() == old(state)@.len(),
            forall|j: int|
                0 <= j < final(state)@.len() ==> ((#[trigger] final(state)@[j]) == CLOSED <==> old(state)@[j] == CLOSED),
            forall|j: int|
                0 <= j < final(state)@.len() && old(state)@[j] != UNSEEN ==> (#[trigger] final(state)@[j]) != UNSEEN
                    && final(g)@[j] <= old(g)@[j],
            forall|j: int|
                0 <= j < final(state)@.len() && (#[trigger] final(state)@[j]) == CLOSED ==> final(g)@[j] == old(g)@[j],
            forall|j: int| 0 <= j < final(state)@.len() && final(state)@[j] != UNSEEN ==> final(g)@[j] <= closed,
            forall|j: int| 0 <= j < final(state)@.len() ==> final(g)@[j] <= final(state)@.len(),
            final(g)@[current as int] == old(g)@[current as int],
            sealed(self, final(state)@, final(g)@, current as int, d),
    {
        proof {
            self.lemma_size();
            self.lemma_index_bijection(here@, current as int);
        }
        let next = here.step(d);
        if is_legal_move(self, next) {
            let j: usize = match self.coordinate_to_index(next) {
                Some(j) => j,
                None => 0,
            };
            proof {
                self.lemma_index_bijection(next@, 0);
                lemma_step_is_neighbor(here@, d);
            }
            assert(hung(self, s as int, state@, g@, parent@, j as int));
            proof {
                if state@[j as int] == CLOSED {
                    lemma_expanded_neighbor(self, s as int, state@, g@, parent@, current as int, d);
                }
            }
            if state[j] == UNSEEN {
                state[j] = OPEN;
                g[j] = g[current] + 1;
                parent[j] = current;
            } else if state[j] == OPEN && g[current] + 1 < g[j] {
                g[j] = g[current] + 1;
                parent[j] = current;
            }
            assert forall|i: int| 0 <= i < state@.len() implies #[trigger] hung(
                self,
                s as int,
                state@,
                g@,
                parent@,
                i,
            ) by {
                assert(hung(self, s as int, old(state)@, old(g)@, old(parent)@, i));
            }
        }
    }

    /// The route that the search tree holds from the start to tile `e`.
    fn trace(
        &self,
        state: &Vec<u8>,
        g: &Vec<usize>,
        parent: &Vec<usize>,
        s: usize,
        e: usize,
        start: Coordinate,
        end: Coordinate,
    ) -> (route: Vec<Coordinate>)
        requires
            self.wf(),
            search_tree(self, s as int, state@, g@, parent@),
            e < state@.len(),
            state@[e as int] != UNSEEN,
            self.cell(s as int) == start@,
            self.cell(e as int) == end@,
            forall|j: int| 0 <= j < g@.len() ==> g@[j] <= self.tiles().len(),
        ensures
            self.is_path(hexes(route@), start@, end@),
            route@.len() == g@[e as int] + 1,
    {
        let steps: usize = g[e];
        proof {
            self.lemma_size();
        }
        let mut route: Vec<Coordinate> = Vec::new();
        let mut i: usize = 0;
        while i < steps + 1
            invariant
                0 <= i <= steps + 1,
                steps <= MAX_SPAN * MAX_SPAN,
                route@.len() == i,
                forall|j: int| 0 <= j < i ==> route@[j] == start,
            decreases steps + 1 - i,
        {
            route.push(start);
            i = i + 1;
        }
        let mut current: usize = e;
        while current != s
            invariant
                self.wf(),
                search_tree(self, s as int, state@, g@, parent@),
                current < state@.len(),
                state@[current as int] != UNSEEN,
                steps == g@[e as int],
                g@[current as int] <= steps,
                route@.len() == steps + 1,
                route@[0] == start,
                self.cell(s as int) == start@,
                self.cell(e as int) == end@,
                g@[current as int] < steps ==> route@[steps as int]@ == end@,
                g@[current as int] == steps ==> current == e,
                forall|t: int| g@[current as int] < t <= steps ==> self.legal((#[trigger] route@[t])@),
                forall|t: int|
                    g@[current as int] < t < steps ==> (#[trigger] route@[t])@.is_neighbor(route@[t + 1]@),
                g@[current as int] < steps ==> self.cell(current as int).is_neighbor(
                    route@[g@[current as int] + 1]@,
                ),
            decreases g@[current as int],
        {
            assert(hung(self, s as int, state@, g@, parent@, current as int));
            let here = self.coordinate_at(current);
            route[g[current]] = here;
            current = parent[current];
        }
        proof {
            let path = hexes(route@);
            assert(path[0] == start@);
            if steps == 0 {
                assert(current == e);
            }
            assert(path[path.len() - 1] == end@);
            assert forall|i: int| 0 <= i < path.len() - 1 implies (#[trigger] path[i]).is_neighbor(path[i + 1]) by {
                if i == 0 {
                    assert(self.cell(s as int).is_neighbor(route@[1]@));
                } else {
                    assert(route@[i]@.is_neighbor(route@[i + 1]@));
                }
            }
            assert forall|i: int| 1 <= i < path.len() implies self.legal(#[trigger] path[i]) by {
                assert(self.legal(route@[i]@));
            }
        }
        route
    }
}

/// Every tile is unseen, open or closed.
pub open spec fn known_states(state: Seq<u8>) -> bool {
    forall|j: int| 0 <= j < state.len() ==> (#[trigger] state[j]) == UNSEEN || state[j] == OPEN || state[j] == CLOSED
}

} // verus!
