//! Movement: the rule that says where an entity may step, and the pass that
//! carries out the moves that were asked for.

use crate::field_of_view::Viewshed;
use crate::hex_coordinates::Coordinate;
use crate::map::HexMap;
use crate::store::{Entity, Storage};
use vstd::prelude::*;

verus! {

/// Whether an entity may step onto `coord`: the coordinate lies on the map
/// and its tile is not blocked. The player's moves, the monsters' paths and
/// the movement pass all go by this one rule.
pub fn is_legal_move(map: &HexMap, coord: Coordinate) -> (legal: bool)
    requires
        map.wf(),
    ensures
        legal == map.legal(coord@),
{
    map.in_bounds(coord) && map.is_free(coord)
}

/// The wish of an entity to move to a coordinate.
#[derive(Clone, Copy, Debug, PartialEq, Eq, Structural)]
pub struct WantsToMove(pub Coordinate);

/// The pass that carries out the moves.
pub struct MovementSystem;

/// The positions after the moves: an entity with a position and a wish to
/// move stands at its destination if the move is legal, and where it stood
/// otherwise.
pub open spec fn moved(
    map: &HexMap,
    intents: Map<Entity, WantsToMove>,
    positions: Map<Entity, Coordinate>,
) -> Map<Entity, Coordinate> {
    Map::new(
        |e: Entity| positions.contains_key(e),
        |e: Entity|
            if moves(map, intents, positions, e) {
                intents[e].0
            } else {
                positions[e]
            },
    )
}

/// The entity has a position and a wish to move, and the move is legal.
pub open spec fn moves(
    map: &HexMap,
    intents: Map<Entity, WantsToMove>,
    positions: Map<Entity, Coordinate>,
    e: Entity,
) -> bool {
    positions.contains_key(e) && intents.contains_key(e) && map.legal(intents[e].0@)
}

/// The viewsheds after the moves: that of every entity that moved is marked
/// for recomputation.
pub open spec fn disturbed(
    map: &HexMap,
    intents: Map<Entity, WantsToMove>,
    positions: Map<Entity, Coordinate>,
    viewsheds: Map<Entity, Viewshed>,
) -> Map<Entity, Viewshed> {
    Map::new(
        |e: Entity| viewsheds.contains_key(e),
        |e: Entity|
            if moves(map, intents, positions, e) {
                viewsheds[e].touched()
            } else {
                viewsheds[e]
            },
    )
}

/// Slot `j` of the positions after the moves.
pub open spec fn moved_slot(
    map: &HexMap,
    intents: &Storage<WantsToMove>,
    positions: &Storage<Coordinate>,
    j: int,
) -> Option<(Entity, Coordinate)> {
    match positions.slot(j) {
        Some((e, at)) => Some(
            (
                e,
                if moves(map, intents@, positions@, e) {
                    intents@[e].0
                } else {
                    at
                },
            ),
        ),
        None => None,
    }
}

/// Slot `j` of the viewsheds after the moves.
pub open spec fn disturbed_slot(
    map: &HexMap,
    intents: &Storage<WantsToMove>,
    positions: &Storage<Coordinate>,
    viewsheds: &Storage<Viewshed>,
    j: int,
) -> Option<(Entity, Viewshed)> {
    match viewsheds.slot(j) {
        Some((e, viewshed)) => Some(
            (
                e,
                if moves(map, intents@, positions@, e) {
                    viewshed.touched()
                } else {
                    viewshed
                },
            ),
        ),
        None => None,
    }
}

impl MovementSystem {
    /// Carries out every legal move and forgets all wishes to move, legal
    /// or not. Legality is judged now, not when the wish was made.
    pub fn run(
        &self,
        map: &HexMap,
        move_intents: &mut Storage<WantsToMove>,
        coordinates: &mut Storage<Coordinate>,
        viewsheds: &mut Storage<Viewshed>,
    )
        requires
            map.wf(),
        ensures
            final(move_intents)@ == Map::<Entity, WantsToMove>::empty(),
            final(coordinates)@ == moved(map, old(move_intents)@, old(coordinates)@),
            final(viewsheds)@ == disturbed(map, old(move_intents)@, old(coordinates)@, old(viewsheds)@),
    {
        let n: usize = move_intents.slots();
        let mut i: usize = 0;
        while i < n
            invariant
                map.wf(),
                0 <= i <= n,
                n == move_intents.slot_count(),
                move_intents == old(move_intents),
                forall|j: int| j >= i ==> coordinates.slot(j) == old(coordinates).slot(j),
                forall|j: int| j >= i ==> viewsheds.slot(j) == old(viewsheds).slot(j),
                forall|j: int|
                    0 <= j < i ==> coordinates.slot(j) == moved_slot(map, old(move_intents), old(coordinates), j),
                forall|j: int|
                    0 <= j < i ==> viewsheds.slot(j) == disturbed_slot(
                        map,
                        old(move_intents),
                        old(coordinates),
                        old(viewsheds),
                        j,
                    ),
            decreases n - i,
        {
            let wish: Option<(Entity, Coordinate)> = match move_intents.entry(i) {
                Some((entity, intent)) => Some((entity, intent.0)),
                None => None,
            };
            proof {
                move_intents.lemma_slot(i as int);
                move_intents.lemma_bounded(i as int);
                coordinates.lemma_slot(i as int);
                viewsheds.lemma_slot(i as int);
            }
            if let Some((entity, dest)) = wish {
                if coordinates.contains(entity) && is_legal_move(map, dest) {
                    coordinates.insert(entity, dest);
                    match viewsheds.remove(entity) {
                        Some(viewshed) => {
                            let mut viewshed = viewshed;
                            viewshed.touch();
                            viewsheds.insert(entity, viewshed);
                        },
                        None => {},
                    }
                }
            }
            i = i + 1;
        }
        proof {
            assert forall|e: Entity|
                coordinates@.contains_key(e) == old(coordinates)@.contains_key(e) && (coordinates@.contains_key(e)
                    ==> coordinates@[e] == moved(map, old(move_intents)@, old(coordinates)@)[e]) by {
                move_intents.lemma_slot(e.index as int);
                old(coordinates).lemma_slot(e.index as int);
                if e.index < n {
                    assert(coordinates.slot(e.index as int) == moved_slot(
                        map,
                        old(move_intents),
                        old(coordinates),
                        e.index as int,
                    ));
                } else {
                    assert(coordinates.slot(e.index as int) == old(coordinates).slot(e.index as int));
                }
            }
            assert forall|e: Entity|
                viewsheds@.contains_key(e) == old(viewsheds)@.contains_key(e) && (viewsheds@.contains_key(e)
                    ==> viewsheds@[e] == disturbed(map, old(move_intents)@, old(coordinates)@, old(viewsheds)@)[e]) by {
                move_intents.lemma_slot(e.index as int);
                old(coordinates).lemma_slot(e.index as int);
                old(viewsheds).lemma_slot(e.index as int);
                if e.index < n {
                    assert(viewsheds.slot(e.index as int) == disturbed_slot(
                        map,
                        old(move_intents),
                        old(coordinates),
                        old(viewsheds),
                        e.index as int,
                    ));
                } else {
                    assert(viewsheds.slot(e.index as int) == old(viewsheds).slot(e.index as int));
                }
            }
            assert(coordinates@ =~= moved(map, old(move_intents)@, old(coordinates)@));
            assert(viewsheds@ =~= disturbed(map, old(move_intents)@, old(coordinates)@, old(viewsheds)@));
        }
        move_intents.clear();
    }
}

} // verus!
