//! The wishes that agents record for the resolver passes of the tick.
//!
//! An entity holds at most one wish of each kind; a second wish of a kind
//! takes the place of the first.

use crate::effect::BeingUsed;
use crate::hex_coordinates::{Coordinate, Hex};
use crate::inventory::WantsToPickUp;
use crate::movement::WantsToMove;
use crate::store::{lemma_put_keys, put, put_keys, Entity, Storage};
use vstd::prelude::*;

verus! {

/// The pending wishes, by kind.
pub struct Intents {
    pub wants_to_move: Storage<WantsToMove>,
    pub wants_to_pick_up: Storage<WantsToPickUp>,
    pub being_used: Storage<BeingUsed>,
}

/// The wish of `entity` to move to the cell `dest` was recorded in place
/// of whatever was recorded for the entity's slot; every other wish is as
/// it was.
pub open spec fn asked_to_move(before: &Intents, after: &Intents, entity: Entity, dest: Hex) -> bool {
    &&& after.wants_to_pick_up == before.wants_to_pick_up
    &&& after.being_used == before.being_used
    &&& after.wants_to_move@.dom() == put_keys(before.wants_to_move@, entity)
    &&& after.wants_to_move@[entity].0@ == dest
    &&& forall|e: Entity|
        e.index != entity.index && before.wants_to_move@.contains_key(e) ==> after.wants_to_move@[e]
            == before.wants_to_move@[e]
}

impl Intents {
    /// No wish is pending.
    pub open spec fn is_clear(&self) -> bool {
        &&& self.wants_to_move@ == Map::<Entity, WantsToMove>::empty()
        &&& self.wants_to_pick_up@ == Map::<Entity, WantsToPickUp>::empty()
        &&& self.being_used@ == Map::<Entity, BeingUsed>::empty()
    }

    pub fn new() -> (intents: Self)
        ensures
            intents.is_clear(),
    {
        Intents { wants_to_move: Storage::new(), wants_to_pick_up: Storage::new(), being_used: Storage::new() }
    }

    /// Records that `entity` wishes to move to `dest`.
    pub fn wants_to_move(&mut self, entity: Entity, dest: Coordinate)
        requires
            entity.storable(),
        ensures
            final(self).wants_to_move@ == put(old(self).wants_to_move@, entity, WantsToMove(dest)),
            forall|j: int|
                final(self).wants_to_move.slot(j) == if j == entity.index {
                    Some((entity, WantsToMove(dest)))
                } else {
                    old(self).wants_to_move.slot(j)
                },
            final(self).wants_to_pick_up == old(self).wants_to_pick_up,
            final(self).being_used == old(self).being_used,
    {
        self.wants_to_move.insert(entity, WantsToMove(dest));
    }

    /// Records that `recipient` wishes to pick up `item`.
    pub fn wants_to_pick_up(&mut self, recipient: Entity, item: Entity)
        requires
            recipient.storable(),
        ensures
            final(self).wants_to_pick_up@ == put(old(self).wants_to_pick_up@, recipient, WantsToPickUp(item)),
            final(self).wants_to_move == old(self).wants_to_move,
            final(self).being_used == old(self).being_used,
    {
        self.wants_to_pick_up.insert(recipient, WantsToPickUp(item));
    }

    /// Records that `effect` is to be used on `target`.
    pub fn wants_to_use(&mut self, effect: Entity, target: Entity)
        requires
            effect.storable(),
        ensures
            final(self).being_used@.dom() == put_keys(old(self).being_used@, effect),
            final(self).being_used@[effect].0@ == seq![target],
            forall|j: int| j != effect.index ==> final(self).being_used.slot(j) == old(self).being_used.slot(j),
            final(self).being_used.slot(effect.index as int) is Some,
            final(self).being_used.slot(effect.index as int).unwrap().0 == effect,
            final(self).being_used.slot(effect.index as int).unwrap().1.0@ == seq![target],
            forall|e: Entity|
                e.index != effect.index && old(self).being_used@.contains_key(e) ==> final(self).being_used@[e] == old(
                    self,
                ).being_used@[e],
            final(self).wants_to_move == old(self).wants_to_move,
            final(self).wants_to_pick_up == old(self).wants_to_pick_up,
    {
        let mut targets: Vec<Entity> = Vec::new();
        targets.push(target);
        assert(targets@ =~= seq![target]);
        proof {
            lemma_put_keys(self.being_used@, effect, BeingUsed(targets));
        }
        self.wants_to_use_on_all(effect, targets);
    }

    /// Records that `effect` is to be used on each of `targets`, in their
    /// order.
    pub fn wants_to_use_on_all(&mut self, effect: Entity, targets: Vec<Entity>)
        requires
            effect.storable(),
        ensures
            final(self).being_used@ == put(old(self).being_used@, effect, BeingUsed(targets)),
            forall|j: int|
                final(self).being_used.slot(j) == if j == effect.index {
                    Some((effect, BeingUsed(targets)))
                } else {
                    old(self).being_used.slot(j)
                },
            final(self).wants_to_move == old(self).wants_to_move,
            final(self).wants_to_pick_up == old(self).wants_to_pick_up,
    {
        self.being_used.insert(effect, BeingUsed(targets));
    }
}

} // verus!
