//! A level of rectangular rooms joined by corridors.

use crate::hex_coordinates::{hex_line, hexes, Coordinate, Hex, MAX_SPAN};
use crate::map::HexMap;
use crate::random::rng_range;
use crate::template::pristine;
use crate::tile::{Tile, TileType};
use crate::world::World;
use bracket_lib::random::RandomNumberGenerator;
use vstd::prelude::*;

verus! {

/// Rooms that are tried at most.
pub const MAX_ROOMS: usize = 30;

/// Least width and height of a room.
pub const MIN_ROOM_SIZE: i32 = 6;

/// Greatest width and height of a room.
pub const MAX_ROOM_SIZE: i32 = 10;

/// Least width and height of a map that has place for every room that may
/// be drawn.
pub const MIN_MAP_SIZE: i32 = 13;

/// A rectangle of columns `x1 .. x2` and rows `y1 .. y2` of the odd-q
/// layout.
#[derive(Clone, Copy, Debug, PartialEq, Eq, Structural)]
pub struct Rect {
    pub x1: i32,
    pub x2: i32,
    pub y1: i32,
    pub y2: i32,
}

/// Whatever builds a map.
pub trait MapBuilder {
    fn build(self) -> HexMap;
}

/// The builder of a map of rooms and corridors.
pub struct SimpleMapBuilder {
    map: HexMap,
    rooms: Vec<Rect>,
}

impl Rect {
    /// The two rectangles have a point in common, their far borders
    /// included.
    pub open spec fn overlaps(&self, other: &Rect) -> bool {
        self.x1 <= other.x2 && self.x2 >= other.x1 && self.y1 <= other.y2 && self.y2 >= other.y1
    }

    /// The cell lies in the rectangle, its far borders left out.
    pub open spec fn holds(&self, h: Hex) -> bool {
        self.x1 <= h.col() < self.x2 && self.y1 <= h.row() < self.y2
    }

    /// The cell in the middle of the rectangle.
    pub open spec fn middle(&self) -> Hex {
        Hex::from_offset((self.x1 + self.x2) / 2, (self.y1 + self.y2) / 2)
    }

    /// The rectangle with one more column and row on every side.
    pub open spec fn with_walls(&self) -> Rect {
        Rect { x1: (self.x1 - 1) as i32, x2: (self.x2 + 1) as i32, y1: (self.y1 - 1) as i32, y2: (self.y2 + 1) as i32 }
    }

    /// The rectangle is a room on a map of the given size: of a width and
    /// height that a room may have, and at least one cell from every
    /// border.
    pub open spec fn is_room(&self, map_width: int, map_height: int) -> bool {
        &&& MIN_ROOM_SIZE <= self.x2 - self.x1 <= MAX_ROOM_SIZE
        &&& MIN_ROOM_SIZE <= self.y2 - self.y1 <= MAX_ROOM_SIZE
        &&& 1 <= self.x1
        &&& self.x2 < map_width - 1
        &&& 1 <= self.y1
        &&& self.y2 < map_height - 1
    }

    /// The rectangle at `(x, y)` of the given width and height.
    pub fn with_size(x: i32, y: i32, w: i32, h: i32) -> (rect: Self)
        requires
            i32::MIN <= x + w <= i32::MAX,
            i32::MIN <= y + h <= i32::MAX,
        ensures
            rect == (Rect { x1: x, x2: (x + w) as i32, y1: y, y2: (y + h) as i32 }),
    {
        Rect { x1: x, x2: x + w, y1: y, y2: y + h }
    }

    /// Whether the two rectangles have a point in common.
    pub fn intersect(&self, other: &Rect) -> (b: bool)
        ensures
            b == self.overlaps(other),
    {
        self.x1 <= other.x2 && self.x2 >= other.x1 && self.y1 <= other.y2 && self.y2 >= other.y1
    }

    /// The coordinate in the middle of the rectangle.
    pub fn center(&self) -> (c: Coordinate)
        requires
            0 <= self.x1 <= MAX_SPAN,
            0 <= self.x2 <= MAX_SPAN,
            0 <= self.y1 <= MAX_SPAN,
            0 <= self.y2 <= MAX_SPAN,
        ensures
            c@ == self.middle(),
            c@.in_reach(),
    {
        Coordinate::from_offset((self.x1 + self.x2) / 2, (self.y1 + self.y2) / 2)
    }
}

/// The rooms lie on the map and keep a wall between each other, and every
/// room but the first is joined to the room before it by the corridor of
/// its number.
pub open spec fn laid_out(rooms: Seq<Rect>, corridors: Seq<Seq<Hex>>, map_width: int, map_height: int) -> bool {
    &&& rooms.len() <= MAX_ROOMS
    &&& forall|i: int| 0 <= i < rooms.len() ==> (#[trigger] rooms[i]).is_room(map_width, map_height)
    &&& forall|i: int, j: int| 0 <= i < j < rooms.len() ==> !(#[trigger] rooms[i]).overlaps(&(#[trigger] rooms[j]).with_walls())
    &&& corridors.len() == if rooms.len() == 0 {
        0
    } else {
        rooms.len() - 1
    }
    &&& forall|k: int|
        0 <= k < corridors.len() ==> #[trigger] corridors[k] == hex_line(rooms[k].middle(), rooms[k + 1].middle())
}

/// The views of the corridors.
pub open spec fn corridor_cells(corridors: Seq<Vec<Coordinate>>) -> Seq<Seq<Hex>> {
    corridors.map_values(|c: Vec<Coordinate>| hexes(c@))
}

/// Whether the room, with a wall around it, has a point in common with one
/// of the rooms.
fn crowded(rooms: &Vec<Rect>, with_walls: &Rect) -> (b: bool)
    ensures
        b <==> exists|i: int| 0 <= i < rooms@.len() && (#[trigger] rooms@[i]).overlaps(with_walls),
{
    let mut i: usize = 0;
    while i < rooms.len()
        invariant
            0 <= i <= rooms@.len(),
            forall|j: int| 0 <= j < i ==> !(#[trigger] rooms@[j]).overlaps(with_walls),
        decreases rooms@.len() - i,
    {
        if rooms[i].intersect(with_walls) {
            return true;
        }
        i = i + 1;
    }
    false
}

/// One of the rooms has a point in common with the room or with the wall
/// around it.
pub open spec fn hemmed(rooms: Seq<Rect>, room: Rect) -> bool {
    exists|i: int| 0 <= i < rooms.len() && (#[trigger] rooms[i]).overlaps(&room.with_walls())
}

/// The rooms that are kept of the first `n` that are tried: each one that
/// no room kept before it hems in.
pub open spec fn kept_rooms(tries: Seq<Rect>, n: int) -> Seq<Rect>
    decreases n,
{
    if n <= 0 {
        Seq::empty()
    } else {
        let previous = kept_rooms(tries, n - 1);
        if hemmed(previous, tries[n - 1]) {
            previous
        } else {
            previous.push(tries[n - 1])
        }
    }
}

/// `rooms` is what is kept of `tries`: as many as rooms are tried, each a
/// room on a map of the given size.
pub open spec fn kept_of(tries: Seq<Rect>, rooms: Seq<Rect>, map_width: int, map_height: int) -> bool {
    &&& tries.len() == MAX_ROOMS
    &&& forall|i: int| 0 <= i < tries.len() ==> (#[trigger] tries[i]).is_room(map_width, map_height)
    &&& rooms == kept_rooms(tries, MAX_ROOMS as int)
}

/// Tries that agree in their first entries keep the same rooms there.
pub proof fn lemma_kept_agrees(shorter: Seq<Rect>, longer: Seq<Rect>, n: int)
    requires
        n <= shorter.len() <= longer.len(),
        forall|i: int| 0 <= i < shorter.len() ==> longer[i] == shorter[i],
    ensures
        kept_rooms(longer, n) == kept_rooms(shorter, n),
    decreases n,
{
    if n > 0 {
        lemma_kept_agrees(shorter, longer, n - 1);
    }
}

/// Draws rooms at random: as many times as rooms are tried, a room of
/// random size is put at a random place, and kept if it leaves a wall
/// between itself and the rooms before it. Every room that is kept, but for
/// the first, is joined to the room kept before it by a corridor along the
/// line between their middles. The first room that is tried is always kept,
/// so there is at least one room.
pub fn build_rooms_and_corridors(map_width: i32, map_height: i32, rng: &mut RandomNumberGenerator) -> (built: (
    Vec<Rect>,
    Vec<Vec<Coordinate>>,
))
    requires
        MIN_MAP_SIZE <= map_width <= MAX_SPAN,
        MIN_MAP_SIZE <= map_height <= MAX_SPAN,
    ensures
        laid_out(built.0@, corridor_cells(built.1@), map_width as int, map_height as int),
        exists|tries: Seq<Rect>| #[trigger] kept_of(tries, built.0@, map_width as int, map_height as int),
        built.0@.len() >= 1,
        built.1@.len() == built.0@.len() - 1,
{
    let mut rooms: Vec<Rect> = Vec::new();
    let mut corridors: Vec<Vec<Coordinate>> = Vec::new();
    let mut tried: usize = 0;
    let ghost mut tries: Seq<Rect> = Seq::empty();
    assert(corridor_cells(corridors@) =~= Seq::<Seq<Hex>>::empty());
    while tried < MAX_ROOMS
        invariant
            MIN_MAP_SIZE <= map_width <= MAX_SPAN,
            MIN_MAP_SIZE <= map_height <= MAX_SPAN,
            0 <= tried <= MAX_ROOMS,
            rooms@.len() <= tried,
            laid_out(rooms@, corridor_cells(corridors@), map_width as int, map_height as int),
            tries.len() == tried,
            forall|i: int| 0 <= i < tries.len() ==> (#[trigger] tries[i]).is_room(map_width as int, map_height as int),
            rooms@ == kept_rooms(tries, tried as int),
            tried > 0 ==> rooms@.len() > 0,
        decreases MAX_ROOMS - tried,
    {
        let ghost earlier = tries;
        let ghost kept = rooms@;
        let w: i32 = rng_range(rng, MIN_ROOM_SIZE, MAX_ROOM_SIZE + 1);
        let h: i32 = rng_range(rng, MIN_ROOM_SIZE, MAX_ROOM_SIZE + 1);
        // At least one wall tile stays between each room and the border of
        // the map.
        let x: i32 = rng_range(rng, 1, map_width - w - 1);
        let y: i32 = rng_range(rng, 1, map_height - h - 1);
        let new_room = Rect::with_size(x, y, w, h);
        let new_room_with_walls = Rect::with_size(x - 1, y - 1, w + 2, h + 2);
        assert(new_room_with_walls == new_room.with_walls());
        tried = tried + 1;
        let crowded_out = crowded(&rooms, &new_room_with_walls);
        proof {
            tries = earlier.push(new_room);
            lemma_kept_agrees(earlier, tries, earlier.len() as int);
            assert(crowded_out == hemmed(kept, new_room));
        }
        if !crowded_out {
            let ghost before = rooms@;
            let ghost joined = corridor_cells(corridors@);
            if rooms.len() > 0 {
                let prev_room = rooms[rooms.len() - 1];
                assert(prev_room.is_room(map_width as int, map_height as int));
                let corridor = prev_room.center().line_to(new_room.center());
                corridors.push(corridor);
                assert(corridor_cells(corridors@) =~= joined.push(hexes(corridor@)));
            }
            rooms.push(new_room);
            proof {
                let cells = corridor_cells(corridors@);
                assert forall|i: int| 0 <= i < rooms@.len() implies (#[trigger] rooms@[i]).is_room(
                    map_width as int,
                    map_height as int,
                ) by {
                    if i < before.len() {
                        assert(before[i].is_room(map_width as int, map_height as int));
                    }
                }
                assert forall|i: int, j: int| 0 <= i < j < rooms@.len() implies !(#[trigger] rooms@[i]).overlaps(
                    &(#[trigger] rooms@[j]).with_walls(),
                ) by {
                    if j < before.len() {
                        assert(!before[i].overlaps(&before[j].with_walls()));
                    } else {
                        assert(before[i] == rooms@[i]);
                    }
                }
                assert forall|k: int| 0 <= k < cells.len() implies #[trigger] cells[k] == hex_line(
                    rooms@[k].middle(),
                    rooms@[k + 1].middle(),
                ) by {
                    if k < joined.len() {
                        assert(joined[k] == hex_line(before[k].middle(), before[k + 1].middle()));
                    }
                }
            }
        }
    }
    proof {
        assert(kept_of(tries, rooms@, map_width as int, map_height as int));
        assert(corridor_cells(corridors@).len() == corridors@.len());
    }
    (rooms, corridors)
}

/// The cell lies in one of the rooms or on one of the corridors.
pub open spec fn dug(rooms: Seq<Rect>, corridors: Seq<Seq<Hex>>, h: Hex) -> bool {
    ||| exists|i: int| 0 <= i < rooms.len() && (#[trigger] rooms[i]).holds(h)
    ||| exists|k: int| 0 <= k < corridors.len() && (#[trigger] corridors[k]).contains(h)
}

/// `after` is `before` with floor along the corridor, as far as it runs on
/// the map; all tiles are new.
pub open spec fn dug_along(before: &HexMap, after: &HexMap, corridor: Seq<Hex>) -> bool {
    &&& after.wf()
    &&& after.width() == before.width()
    &&& after.height() == before.height()
    &&& forall|i: int|
        0 <= i < after.tiles().len() ==> pristine(#[trigger] after.tiles()[i]) && (after.tiles()[i].kind()
            == TileType::Floor <==> before.tiles()[i].kind() == TileType::Floor || corridor.contains(before.cell(i)))
}

/// The map holds the rooms and corridors and nothing else: they are laid
/// out on a map of its size, all tiles are new, and the floor is what was
/// dug.
pub open spec fn carved(map: &HexMap, rooms: Seq<Rect>, corridors: Seq<Seq<Hex>>) -> bool {
    &&& laid_out(rooms, corridors, map.width(), map.height())
    &&& forall|t: int|
        0 <= t < map.tiles().len() ==> pristine(#[trigger] map.tiles()[t]) && (map.tiles()[t].kind()
            == TileType::Floor <==> dug(rooms, corridors, map.cell(t)))
}

/// The cell lies in one of the first `n` rooms.
pub open spec fn in_rooms(rooms: Seq<Rect>, n: int, h: Hex) -> bool {
    exists|i: int| 0 <= i < n && (#[trigger] rooms[i]).holds(h)
}

/// The cell lies on one of the first `n` corridors.
pub open spec fn on_corridors(corridors: Seq<Seq<Hex>>, n: int, h: Hex) -> bool {
    exists|k: int| 0 <= k < n && (#[trigger] corridors[k]).contains(h)
}

impl SimpleMapBuilder {
    /// The rooms that were drawn.
    pub closed spec fn rooms(&self) -> Seq<Rect> {
        self.rooms@
    }

    /// The map that was dug.
    pub closed spec fn map(&self) -> HexMap {
        self.map
    }

    /// Digs a map of rooms and corridors: floor in the rooms and along the
    /// corridors, walls everywhere else.
    pub fn new(width: i32, height: i32, rng: &mut RandomNumberGenerator) -> (builder: Self)
        requires
            MIN_MAP_SIZE <= width <= MAX_SPAN,
            MIN_MAP_SIZE <= height <= MAX_SPAN,
        ensures
            builder.map().wf(),
            builder.map().width() == width,
            builder.map().height() == height,
            exists|corridors: Seq<Seq<Hex>>| #[trigger] carved(&builder.map(), builder.rooms(), corridors),
    {
        let mut map = HexMap::new(width, height);
        let (rooms, corridors) = build_rooms_and_corridors(width, height, rng);
        let ghost walls = map;
        let ghost lines = corridor_cells(corridors@);
        let cells = map.iter();
        let mut t: usize = 0;
        while t < cells.len()
            invariant
                map.wf(),
                walls.wf(),
                map.width() == walls.width(),
                map.height() == walls.height(),
                0 <= t <= cells@.len(),
                cells@.len() == walls.tiles().len(),
                forall|i: int| 0 <= i < cells@.len() ==> (#[trigger] cells@[i])@ == walls.cell(i),
                forall|i: int|
                    0 <= i < walls.tiles().len() ==> (#[trigger] walls.tiles()[i]).kind() == TileType::Wall
                        && pristine(walls.tiles()[i]),
                forall|i: int|
                    0 <= i < map.tiles().len() ==> pristine(#[trigger] map.tiles()[i]) && (map.tiles()[i].kind()
                        == TileType::Floor <==> i < t && in_rooms(rooms@, rooms@.len() as int, walls.cell(i))),
            decreases cells@.len() - t,
        {
            if Self::roomy(&rooms, cells[t]) {
                let ghost before = map;
                let floor = Tile::floor();
                let ghost new_tile = floor;
                map.set_tile(cells[t], floor);
                proof {
                    walls.lemma_index_bijection(cells@[t as int]@, t as int);
                    before.lemma_dimensions(&walls, cells@[t as int]@, t as int);
                    assert(map.tiles()[t as int] == new_tile);
                }
            }
            t = t + 1;
        }
        let ghost roomed = map;
        let mut k: usize = 0;
        while k < corridors.len()
            invariant
                map.wf(),
                walls.wf(),
                map.width() == walls.width(),
                map.height() == walls.height(),
                lines == corridor_cells(corridors@),
                0 <= k <= corridors@.len(),
                forall|i: int|
                    0 <= i < map.tiles().len() ==> pristine(#[trigger] map.tiles()[i]) && (map.tiles()[i].kind()
                        == TileType::Floor <==> in_rooms(rooms@, rooms@.len() as int, walls.cell(i)) || on_corridors(
                        lines,
                        k as int,
                        walls.cell(i),
                    )),
            decreases corridors@.len() - k,
        {
            let ghost before = map;
            Self::dig(&mut map, &corridors[k]);
            proof {
                assert(lines[k as int] == hexes(corridors@[k as int]@));
                assert forall|i: int| 0 <= i < map.tiles().len() implies pristine(#[trigger] map.tiles()[i]) && (
                map.tiles()[i].kind() == TileType::Floor <==> in_rooms(rooms@, rooms@.len() as int, walls.cell(i))
                    || on_corridors(lines, k + 1, walls.cell(i))) by {
                    before.lemma_dimensions(&walls, walls.cell(i), i);
                    let h = walls.cell(i);
                    assert(pristine(before.tiles()[i]));
                    if on_corridors(lines, k + 1, h) {
                        let c = choose|c: int| 0 <= c < k + 1 && (#[trigger] lines[c]).contains(h);
                        if c < k {
                            assert(on_corridors(lines, k as int, h));
                        }
                    }
                    if on_corridors(lines, k as int, h) {
                        let c = choose|c: int| 0 <= c < k && (#[trigger] lines[c]).contains(h);
                        assert(lines[c].contains(h));
                    }
                    if lines[k as int].contains(h) {
                        assert(on_corridors(lines, k + 1, h));
                    }
                }
            }
            k = k + 1;
        }
        proof {
            assert forall|i: int| 0 <= i < map.tiles().len() implies pristine(#[trigger] map.tiles()[i]) && (
            map.tiles()[i].kind() == TileType::Floor <==> dug(rooms@, lines, map.cell(i))) by {
                map.lemma_dimensions(&walls, walls.cell(i), i);
                let h = walls.cell(i);
                assert(map.tiles()[i].kind() == TileType::Floor <==> in_rooms(rooms@, rooms@.len() as int, h)
                    || on_corridors(lines, corridors@.len() as int, h));
                assert(lines.len() == corridors@.len());
                assert(dug(rooms@, lines, h) == (in_rooms(rooms@, rooms@.len() as int, h) || on_corridors(
                    lines,
                    lines.len() as int,
                    h,
                )));
            }
            assert(carved(&map, rooms@, lines));
        }
        let ghost dug_map = map;
        let ghost drawn = rooms@;
        let builder = SimpleMapBuilder { map, rooms };
        proof {
            assert(builder.map() == dug_map && builder.rooms() == drawn);
            assert(carved(&builder.map(), builder.rooms(), lines));
        }
        builder
    }

    /// Whether the coordinate lies in one of the rooms.
    fn roomy(rooms: &Vec<Rect>, coord: Coordinate) -> (b: bool)
        ensures
            b == in_rooms(rooms@, rooms@.len() as int, coord@),
    {
        let x: i32 = coord.col();
        let y: i64 = coord.row();
        let mut i: usize = 0;
        while i < rooms.len()
            invariant
                0 <= i <= rooms@.len(),
                x == coord@.col(),
                y == coord@.row(),
                forall|j: int| 0 <= j < i ==> !(#[trigger] rooms@[j]).holds(coord@),
            decreases rooms@.len() - i,
        {
            let room = rooms[i];
            if room.x1 <= x && x < room.x2 && room.y1 as i64 <= y && y < room.y2 as i64 {
                assert(rooms@[i as int].holds(coord@));
                return true;
            }
            i = i + 1;
        }
        false
    }

    /// Lays floor along a corridor, as far as it runs on the map.
    fn dig(map: &mut HexMap, corridor: &Vec<Coordinate>)
        requires
            old(map).wf(),
            forall|i: int| 0 <= i < old(map).tiles().len() ==> pristine(#[trigger] old(map).tiles()[i]),
        ensures
            dug_along(old(map), final(map), hexes(corridor@)),
    {
        let mut c: usize = 0;
        while c < corridor.len()
            invariant
                map.wf(),
                old(map).wf(),
                map.width() == old(map).width(),
                map.height() == old(map).height(),
                0 <= c <= corridor@.len(),
                forall|i: int|
                    0 <= i < map.tiles().len() ==> pristine(#[trigger] map.tiles()[i]) && (map.tiles()[i].kind()
                        == TileType::Floor <==> old(map).tiles()[i].kind() == TileType::Floor || hexes(
                        corridor@.subrange(0, c as int),
                    ).contains(old(map).cell(i))),
            decreases corridor@.len() - c,
        {
            let ghost before = *map;
            let floor = Tile::floor();
            let ghost new_tile = floor;
            map.set_tile(corridor[c], floor);
            proof {
                let shorter = hexes(corridor@.subrange(0, c as int));
                let longer = hexes(corridor@.subrange(0, c + 1));
                assert forall|i: int| 0 <= i < map.tiles().len() implies pristine(#[trigger] map.tiles()[i]) && (
                map.tiles()[i].kind() == TileType::Floor <==> old(map).tiles()[i].kind() == TileType::Floor
                    || longer.contains(old(map).cell(i))) by {
                    let h = old(map).cell(i);
                    old(map).lemma_index_bijection(corridor@[c as int]@, i);
                    before.lemma_dimensions(old(map), corridor@[c as int]@, i);
                    assert(pristine(before.tiles()[i]));
                    if shorter.contains(h) {
                        let w = choose|w: int| 0 <= w < shorter.len() && shorter[w] == h;
                        assert(longer[w] == h);
                    }
                    if longer.contains(h) {
                        let w = choose|w: int| 0 <= w < longer.len() && longer[w] == h;
                        if w < c {
                            assert(shorter[w] == h);
                        }
                    }
                    if corridor@[c as int]@ == h {
                        assert(longer[c as int] == h);
                        assert(map.tiles()[i] == new_tile);
                    }
                }
            }
            c = c + 1;
        }
        assert(corridor@.subrange(0, corridor@.len() as int) =~= corridor@);
    }

    /// The rooms that were drawn.
    pub fn rooms_drawn(&self) -> (rooms: &Vec<Rect>)
        ensures
            rooms@ == self.rooms(),
    {
        &self.rooms
    }
}

impl MapBuilder for SimpleMapBuilder {
    fn build(self) -> (map: HexMap)
        ensures
            map == self.map(),
    {
        self.map
    }
}

/// What the map visualizer is doing.
#[derive(Clone, Copy, Debug, PartialEq, Eq, Structural)]
pub enum MapVisualizerState {
    /// A map is to be dug.
    Setup,
    /// The map is shown.
    Idle,
}

/// One step of the map visualizer: on setup, a map of rooms and corridors
/// of the given size is dug, revealed and put into the world. Then the map
/// is shown.
pub fn visualize_map(
    world: &mut World,
    state: MapVisualizerState,
    width: i32,
    height: i32,
    rng: &mut RandomNumberGenerator,
) -> (next: MapVisualizerState)
    requires
        old(world).wf(),
        MIN_MAP_SIZE <= width <= MAX_SPAN,
        MIN_MAP_SIZE <= height <= MAX_SPAN,
    ensures
        final(world).wf(),
        next == MapVisualizerState::Idle,
        state == MapVisualizerState::Idle ==> *final(world) == *old(world),
        state == MapVisualizerState::Setup ==> shown(old(world), final(world), width as int, height as int),
{
    if state == MapVisualizerState::Setup {
        let mut map = SimpleMapBuilder::new(width, height, rng).build();
        let ghost dug = map;
        map.reveal_all();
        world.map = map;
        proof {
            assert(revealed(&dug, &world.map));
        }
    }
    MapVisualizerState::Idle
}

/// `after` is `before` with every tile revealed.
pub open spec fn revealed(before: &HexMap, after: &HexMap) -> bool {
    &&& after.wf()
    &&& after.same_ground(before)
    &&& forall|t: int|
        0 <= t < after.tiles().len() ==> {
            &&& (#[trigger] after.tiles()[t]).revealed()
            &&& after.tiles()[t].blocked() == before.tiles()[t].blocked()
            &&& after.tiles()[t].occupants() == before.tiles()[t].occupants()
        }
}

/// `after` is `before` with a new map in place of its map: a map of rooms
/// and corridors of the given size, revealed.
pub open spec fn shown(before: &World, after: &World, width: int, height: int) -> bool {
    &&& *after == (World { map: after.map, ..*before })
    &&& exists|dug: HexMap, rooms: Seq<Rect>, corridors: Seq<Seq<Hex>>|
        dug.width() == width && dug.height() == height && #[trigger] carved(&dug, rooms, corridors) && revealed(
            &dug,
            &after.map,
        )
}

} // verus!
