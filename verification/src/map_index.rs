//! The per-tick index of who stands where.

use crate::hex_coordinates::{Coordinate, Hex};
use crate::map::HexMap;
use crate::store::{Entity, Storage};
use crate::tile::TileType;
use vstd::prelude::*;

verus! {

/// Marks an entity that blocks the tile it stands on.
#[derive(Clone, Copy, Debug, Default, PartialEq, Eq, Structural)]
pub struct BlocksTile;

/// The pass that rebuilds the index.
pub struct IndexMapSystem;

/// The entities in the slots below `upto` that stand on the cell `h`, by
/// increasing slot.
pub open spec fn standing(positions: &Storage<Coordinate>, h: Hex, upto: int) -> Seq<Entity>
    decreases upto,
{
    if upto <= 0 {
        Seq::empty()
    } else {
        match positions.slot(upto - 1) {
            Some((e, at)) => if at@ == h {
                standing(positions, h, upto - 1).push(e)
            } else {
                standing(positions, h, upto - 1)
            },
            None => standing(positions, h, upto - 1),
        }
    }
}

/// The entity in slot `j` stands on the cell `h` and blocks it.
pub open spec fn blocks(positions: &Storage<Coordinate>, blockers: Map<Entity, BlocksTile>, h: Hex, j: int) -> bool {
    &&& positions.slot(j) is Some
    &&& positions.slot(j).unwrap().1@ == h
    &&& blockers.contains_key(positions.slot(j).unwrap().0)
}

/// Some entity in a slot below `upto` stands on the cell `h` and blocks
/// it.
pub open spec fn obstructed(
    positions: &Storage<Coordinate>,
    blockers: Map<Entity, BlocksTile>,
    h: Hex,
    upto: int,
) -> bool {
    exists|j: int| 0 <= j < upto && #[trigger] blocks(positions, blockers, h, j)
}

impl IndexMapSystem {
    /// Rebuilds the index: every tile lists the entities that stand on it,
    /// by increasing index, and is blocked if it is a wall or one of them
    /// blocks it.
    pub fn run(&self, map: &mut HexMap, coordinates: &Storage<Coordinate>, blockers: &Storage<BlocksTile>)
        requires
            old(map).wf(),
        ensures
            final(map).wf(),
            final(map).same_ground(old(map)),
            forall|t: int|
                0 <= t < final(map).tiles().len() ==> {
                    &&& (#[trigger] final(map).tiles()[t]).revealed() == old(map).tiles()[t].revealed()
                    &&& final(map).tiles()[t].occupants() == standing(
                        coordinates,
                        old(map).cell(t),
                        coordinates.slot_count() as int,
                    )
                    &&& final(map).tiles()[t].blocked() == (old(map).tiles()[t].kind() == TileType::Wall || obstructed(
                        coordinates,
                        blockers@,
                        old(map).cell(t),
                        coordinates.slot_count() as int,
                    ))
                },
    {
        map.reset_index();
        let n: usize = coordinates.slots();
        let mut i: usize = 0;
        while i < n
            invariant
                map.wf(),
                old(map).wf(),
                map.same_ground(old(map)),
                0 <= i <= n,
                n == coordinates.slot_count(),
                forall|t: int|
                    0 <= t < map.tiles().len() ==> {
                        &&& (#[trigger] map.tiles()[t]).revealed() == old(map).tiles()[t].revealed()
                        &&& map.tiles()[t].occupants() == standing(coordinates, old(map).cell(t), i as int)
                        &&& map.tiles()[t].blocked() == (old(map).tiles()[t].kind() == TileType::Wall || obstructed(
                            coordinates,
                            blockers@,
                            old(map).cell(t),
                            i as int,
                        ))
                    },
            decreases n - i,
        {
            let ghost before = *map;
            let found: Option<(Entity, Coordinate)> = match coordinates.entry(i) {
                Some((entity, at)) => Some((entity, *at)),
                None => None,
            };
            let ghost mut middle = *map;
            if let Some((entity, at)) = found {
                if blockers.contains(entity) {
                    map.block(at);
                }
                proof {
                    middle = *map;
                }
                map.add_entity(at, entity);
            }
            proof {
                assert forall|t: int| 0 <= t < map.tiles().len() implies {
                    &&& (#[trigger] map.tiles()[t]).revealed() == old(map).tiles()[t].revealed()
                    &&& map.tiles()[t].occupants() == standing(coordinates, old(map).cell(t), i + 1)
                    &&& map.tiles()[t].blocked() == (old(map).tiles()[t].kind() == TileType::Wall || obstructed(
                        coordinates,
                        blockers@,
                        old(map).cell(t),
                        i + 1,
                    ))
                } by {
                    let h = old(map).cell(t);
                    old(map).lemma_index_bijection(h, t);
                    assert(before.tiles()[t].occupants() == standing(coordinates, h, i as int));
                    assert(before.tiles()[t].blocked() == (old(map).tiles()[t].kind() == TileType::Wall || obstructed(
                        coordinates,
                        blockers@,
                        h,
                        i as int,
                    )));
                    coordinates.lemma_slot(i as int);
                    if found is Some {
                        let at = found.unwrap().1;
                        before.lemma_same_ground(old(map), at@);
                        middle.lemma_same_ground(old(map), at@);
                        old(map).lemma_index_bijection(at@, t);
                        assert(middle.tiles()[t].occupants() == before.tiles()[t].occupants());
                        assert(map.tiles()[t].blocked() == middle.tiles()[t].blocked());
                    }
                    if obstructed(coordinates, blockers@, h, i + 1) {
                        let j = choose|j: int| 0 <= j < i + 1 && #[trigger] blocks(coordinates, blockers@, h, j);
                        if j < i {
                            assert(obstructed(coordinates, blockers@, h, i as int));
                        }
                    }
                    if obstructed(coordinates, blockers@, h, i as int) {
                        let j = choose|j: int| 0 <= j < i && #[trigger] blocks(coordinates, blockers@, h, j);
                        assert(blocks(coordinates, blockers@, h, j));
                    }
                    if blocks(coordinates, blockers@, h, i as int) {
                        assert(obstructed(coordinates, blockers@, h, i + 1));
                    }
                }
            }
            i = i + 1;
        }
    }
}

} // verus!
