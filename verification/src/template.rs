//! The shape of a deck before walls are drawn: a hexagonal floor in a
//! field of walls, and the three engine blocks.

use crate::hex_coordinates::{hexes, Coordinate, Hex, MAX_SPAN};
use crate::map::HexMap;
use crate::store::Entity;
use crate::tile::{Tile, TileType};
use vstd::prelude::*;

verus! {

/// Radius of an engine block.
pub const ENGINE_RADIUS: i32 = 8;

/// The cell in the middle of a map of the given size.
pub open spec fn center_of(width: int, height: int) -> Hex {
    Hex::from_offset(width / 2, height / 2)
}

/// The radius of the floor of a deck of the given size.
pub open spec fn deck_radius(width: int, height: int) -> int {
    if width / 2 <= height / 2 {
        width / 2 - 1
    } else {
        height / 2 - 1
    }
}

/// The distance of the engine blocks from the middle of a deck of the given
/// size.
pub open spec fn engine_offset(width: int, height: int) -> int {
    if width / 4 <= height / 4 {
        width / 4
    } else {
        height / 4
    }
}

/// The cell is part of one of the three engine blocks of a deck of the given
/// size.
pub open spec fn in_engine(width: int, height: int, h: Hex) -> bool {
    let center = center_of(width, height);
    let away = engine_offset(width, height);
    ||| (Hex { q: center.q - away, r: center.r }).distance(h) <= ENGINE_RADIUS
    ||| (Hex { q: center.q + away, r: center.r - away }).distance(h) <= ENGINE_RADIUS
    ||| (Hex { q: center.q, r: center.r + away }).distance(h) <= ENGINE_RADIUS
}

/// The tile is as new: unseen, without occupants, and blocked exactly if it
/// is a wall.
pub open spec fn pristine(tile: Tile) -> bool {
    &&& !tile.revealed()
    &&& tile.occupants() == Seq::<Entity>::empty()
    &&& tile.blocked() == (tile.kind() == TileType::Wall)
}

/// `after` is `before` with the three engine blocks put on it: the tiles of
/// the blocks are new walls, and every other tile is as it was.
pub open spec fn engines_added(before: &HexMap, after: &HexMap) -> bool {
    &&& after.wf()
    &&& after.width() == before.width()
    &&& after.height() == before.height()
    &&& forall|t: int|
        0 <= t < after.tiles().len() ==> if in_engine(before.width(), before.height(), before.cell(t)) {
            (#[trigger] after.tiles()[t]).kind() == TileType::Wall && pristine(after.tiles()[t])
        } else {
            after.tiles()[t] == before.tiles()[t]
        }
}

/// Every tile of `after` is the tile of `before` or a new tile.
pub open spec fn rebuilt(before: &HexMap, after: &HexMap) -> bool {
    &&& after.wf()
    &&& after.width() == before.width()
    &&& after.height() == before.height()
    &&& forall|t: int|
        0 <= t < after.tiles().len() ==> (#[trigger] after.tiles()[t]) == before.tiles()[t] || pristine(
            after.tiles()[t],
        )
}

/// Rebuilding twice is rebuilding.
pub proof fn lemma_rebuilt_twice(first: &HexMap, second: &HexMap, third: &HexMap)
    requires
        rebuilt(first, second),
        rebuilt(second, third),
    ensures
        rebuilt(first, third),
{
    assert forall|t: int| 0 <= t < third.tiles().len() implies (#[trigger] third.tiles()[t]) == first.tiles()[t]
        || pristine(third.tiles()[t]) by {
        assert(third.tiles()[t] == second.tiles()[t] || pristine(third.tiles()[t]));
        assert(second.tiles()[t] == first.tiles()[t] || pristine(second.tiles()[t]));
    }
}

/// The map is a deck without walls of the given size: all tiles are new,
/// and the floor is the disc around the middle that ends one cell short of
/// the nearer border.
pub open spec fn is_empty_deck(map: &HexMap, width: int, height: int) -> bool {
    &&& map.wf()
    &&& map.width() == width
    &&& map.height() == height
    &&& forall|t: int|
        0 <= t < map.tiles().len() ==> pristine(#[trigger] map.tiles()[t]) && (map.tiles()[t].kind()
            == TileType::Floor <==> center_of(width, height).distance(map.cell(t)) <= deck_radius(width, height))
}

/// The middle of the map.
pub fn map_center(width: i32, height: i32) -> (center: Coordinate)
    requires
        0 <= width <= MAX_SPAN,
        0 <= height <= MAX_SPAN,
    ensures
        center@ == center_of(width as int, height as int),
        center@.within(MAX_SPAN as int),
{
    Coordinate::from_offset(width / 2, height / 2)
}

/// Replaces the tiles of the listed cells, as far as they lie on the map,
/// by new tiles of the given kind.
fn fill(map: &mut HexMap, cells: &Vec<Coordinate>, kind: TileType)
    requires
        old(map).wf(),
    ensures
        final(map).wf(),
        final(map).width() == old(map).width(),
        final(map).height() == old(map).height(),
        forall|t: int|
            0 <= t < final(map).tiles().len() ==> if hexes(cells@).contains(old(map).cell(t)) {
                (#[trigger] final(map).tiles()[t]).kind() == kind && pristine(final(map).tiles()[t])
            } else {
                final(map).tiles()[t] == old(map).tiles()[t]
            },
{
    let mut i: usize = 0;
    while i < cells.len()
        invariant
            map.wf(),
            old(map).wf(),
            map.width() == old(map).width(),
            map.height() == old(map).height(),
            0 <= i <= cells@.len(),
            forall|t: int|
                0 <= t < map.tiles().len() ==> if hexes(cells@.subrange(0, i as int)).contains(old(map).cell(t)) {
                    (#[trigger] map.tiles()[t]).kind() == kind && pristine(map.tiles()[t])
                } else {
                    map.tiles()[t] == old(map).tiles()[t]
                },
        decreases cells@.len() - i,
    {
        let ghost before = *map;
        let tile = match kind {
            TileType::Floor => Tile::floor(),
            TileType::Wall => Tile::wall(),
        };
        map.set_tile(cells[i], tile);
        proof {
            let shorter = hexes(cells@.subrange(0, i as int));
            let longer = hexes(cells@.subrange(0, i + 1));
            assert forall|t: int| 0 <= t < map.tiles().len() implies if longer.contains(old(map).cell(t)) {
                (#[trigger] map.tiles()[t]).kind() == kind && pristine(map.tiles()[t])
            } else {
                map.tiles()[t] == old(map).tiles()[t]
            } by {
                let h = old(map).cell(t);
                old(map).lemma_index_bijection(cells@[i as int]@, t);
                before.lemma_dimensions(old(map), cells@[i as int]@, t);
                if shorter.contains(h) {
                    let k = choose|k: int| 0 <= k < shorter.len() && shorter[k] == h;
                    assert(longer[k] == h);
                }
                if longer.contains(h) {
                    let k = choose|k: int| 0 <= k < longer.len() && longer[k] == h;
                    if k < i {
                        assert(shorter[k] == h);
                    }
                }
                if cells@[i as int]@ == h {
                    assert(longer[i as int] == h);
                }
            }
        }
        i = i + 1;
    }
    assert(cells@.subrange(0, cells@.len() as int) =~= cells@);
}

/// A deck without walls: a hexagonal floor around the middle of a field of
/// walls, one cell short of the nearer border.
pub fn empty_deck(width: i32, height: i32) -> (map: HexMap)
    requires
        0 <= width <= MAX_SPAN,
        0 <= height <= MAX_SPAN,
    ensures
        is_empty_deck(&map, width as int, height as int),
{
    let mut map = HexMap::new(width, height);
    let center = map_center(width, height);
    let half_width: i32 = width / 2;
    let half_height: i32 = height / 2;
    let radius: i32 = if half_width < half_height {
        half_width - 1
    } else {
        half_height - 1
    };
    let floor = center.range(radius);
    let ghost walls = map;
    fill(&mut map, &floor, TileType::Floor);
    proof {
        assert forall|t: int| 0 <= t < map.tiles().len() implies pristine(#[trigger] map.tiles()[t]) && (
        map.tiles()[t].kind() == TileType::Floor <==> center@.distance(map.cell(t)) <= radius) by {
            map.lemma_dimensions(&walls, center@, t);
            assert(walls.tiles()[t].kind() == TileType::Wall);
        }
    }
    map
}

/// Puts the three engine blocks on the deck: discs of walls around three
/// cells at equal distance from the middle.
pub fn add_engines(map: &mut HexMap)
    requires
        old(map).wf(),
    ensures
        engines_added(old(map), final(map)),
{
    let (width, height) = map.dimensions();
    let center = map_center(width, height);
    let quarter_width: i32 = width / 4;
    let quarter_height: i32 = height / 4;
    let away: i32 = if quarter_width < quarter_height {
        quarter_width
    } else {
        quarter_height
    };
    let first = Coordinate::new(center.q - away, center.r);
    let second = Coordinate::new(center.q + away, center.r - away);
    let third = Coordinate::new(center.q, center.r + away);
    let ghost start = *map;
    let cells = first.range(ENGINE_RADIUS);
    fill(map, &cells, TileType::Wall);
    let ghost one = *map;
    let cells2 = second.range(ENGINE_RADIUS);
    fill(map, &cells2, TileType::Wall);
    let ghost two = *map;
    let cells3 = third.range(ENGINE_RADIUS);
    fill(map, &cells3, TileType::Wall);
    proof {
        assert forall|t: int| 0 <= t < map.tiles().len() implies if in_engine(
            old(map).width(),
            old(map).height(),
            old(map).cell(t),
        ) {
            (#[trigger] map.tiles()[t]).kind() == TileType::Wall && pristine(map.tiles()[t])
        } else {
            map.tiles()[t] == old(map).tiles()[t]
        } by {
            one.lemma_dimensions(&start, center@, t);
            two.lemma_dimensions(&start, center@, t);
            map.lemma_dimensions(&start, center@, t);
        }
    }
}

} // verus!
