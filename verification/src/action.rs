//! The actions that consume a turn, for any entity.

use crate::hex_coordinates::Direction;
use crate::movement::is_legal_move;
use crate::intents::asked_to_move;
use crate::store::{lemma_put_keys, Entity};
use crate::world::World;
use crate::movement::WantsToMove;
use vstd::prelude::*;

verus! {

/// Everything that consumes a turn.
#[derive(Clone, Copy, Debug, PartialEq, Eq, Structural)]
pub enum Action {
    Move(Direction),
}

/// Why an action cannot be taken.
#[derive(Clone, Copy, Debug, PartialEq, Eq, Structural)]
pub enum ActionError {
    MovementBlocked,
}

impl World {
    /// What `take_action` answers: a move is blocked if the entity stands
    /// on the map and may not enter the cell one step away. An entity
    /// without a position has nothing to move.
    pub open spec fn action_verdict(&self, entity: Entity, action: Action) -> Result<(), ActionError> {
        match action {
            Action::Move(direction) => if self.coordinates@.contains_key(entity) && !self.map.legal(
                self.coordinates@[entity]@.step(direction),
            ) {
                Err(ActionError::MovementBlocked)
            } else {
                Ok(())
            },
        }
    }
}

impl World {
    /// Taking `action` for `entity` leads from this world to `after` with
    /// the answer `r`: a move that is not blocked is recorded as the wish of
    /// an entity that has a position, and nothing else changes.
    pub open spec fn action_taken(&self, entity: Entity, action: Action, after: &World, r: Result<(), ActionError>) -> bool {
        &&& r == self.action_verdict(entity, action)
        &&& after.same_but_wishes(self)
        &&& after.initiative == self.initiative
        &&& after.targeting == self.targeting
        &&& after.reticule == self.reticule
        &&& after.last_rejection == self.last_rejection
        &&& match action {
            Action::Move(direction) => if r is Ok && self.coordinates@.contains_key(entity) {
                asked_to_move(&self.intents, &after.intents, entity, self.coordinates@[entity]@.step(direction))
            } else {
                after.intents == self.intents
            },
        }
    }
}

/// Records the wish of `entity` to take `action`. The wish to move one
/// step is recorded if the entity has a position and a move onto the cell
/// is legal now; it is judged again when it is carried out.
pub fn take_action(world: &mut World, entity: Entity, action: Action) -> (r: Result<(), ActionError>)
    requires
        old(world).wf(),
    ensures
        final(world).wf(),
        old(world).action_taken(entity, action, final(world), r),
{
    match action {
        Action::Move(direction) => {
            let coord = match world.coordinates.get(entity) {
                Some(coord) => *coord,
                None => {
                    return Ok(());
                },
            };
            proof {
                world.coordinates.lemma_key_storable(entity);
                assert(coord@.in_reach());
            }
            let dest = coord.step(direction);
            if !is_legal_move(&world.map, dest) {
                return Err(ActionError::MovementBlocked);
            }
            proof {
                lemma_put_keys(world.intents.wants_to_move@, entity, WantsToMove(dest));
            }
            world.intents.wants_to_move(entity, dest);
            Ok(())
        },
    }
}

} // verus!
