//! Asking for the use of an effect. A use is checked when it is asked for:
//! the effect must be usable in the way asked, and the target must be valid
//! and within range of the user.

use crate::durability::Durability;
use crate::effect::{BeingUsed, Usable};
use crate::hex_coordinates::Coordinate;
use crate::intents::Intents;
use crate::map::HexMap;
use crate::store::{lemma_put_keys, put_keys, Entity, Storage};
use vstd::prelude::*;

verus! {

/// Why an effect cannot be used as asked.
#[derive(Clone, Copy, Debug, PartialEq, Eq, Structural)]
pub enum EffectError {
    /// The effect is not usable in the way asked.
    NotUsable,
    /// The user or the target has no place on the map, or the target is
    /// no living thing.
    InvalidTarget,
    /// The target is farther from the user than the effect reaches.
    OutOfRange,
}

/// What an effect is to be used on.
#[derive(Clone, Copy, Debug, PartialEq, Eq, Structural)]
pub enum EffectTarget {
    /// The user itself.
    User,
    Entity(Entity),
    Ground(Coordinate),
}

/// The checks before an effect is queued.
pub struct EffectUsage;

/// The effect can be used on its user.
pub open spec fn usable_on_self(usables: Map<Entity, Usable>, effect: Entity) -> bool {
    usables.contains_key(effect) && usables[effect] == Usable::OnSelf
}

/// The effect can be used on another entity.
pub open spec fn usable_on_target(usables: Map<Entity, Usable>, effect: Entity) -> bool {
    usables.contains_key(effect) && usables[effect] is OnTarget
}

/// The effect can be used on the occupants of a cell.
pub open spec fn usable_on_ground(usables: Map<Entity, Usable>, effect: Entity) -> bool {
    usables.contains_key(effect) && usables[effect] is OnGround
}

/// The reach of an effect that is used on an entity or on a cell.
pub open spec fn range_of(usable: Usable) -> int {
    match usable {
        Usable::OnSelf => 0,
        Usable::OnTarget { range } => range as int,
        Usable::OnGround { range } => range as int,
    }
}

/// User and target stand on the map, and the target is alive.
pub open spec fn valid_target(
    positions: Map<Entity, Coordinate>,
    durabilities: Map<Entity, Durability>,
    user: Entity,
    target: Entity,
) -> bool {
    &&& positions.contains_key(user)
    &&& positions.contains_key(target)
    &&& durabilities.contains_key(target)
    &&& durabilities[target].health_points() > 0
}

/// What `use_on_target` answers.
pub open spec fn target_verdict(
    usables: Map<Entity, Usable>,
    positions: Map<Entity, Coordinate>,
    durabilities: Map<Entity, Durability>,
    effect: Entity,
    user: Entity,
    target: Entity,
) -> Result<(), EffectError> {
    if !usable_on_target(usables, effect) {
        Err(EffectError::NotUsable)
    } else if !valid_target(positions, durabilities, user, target) {
        Err(EffectError::InvalidTarget)
    } else if positions[user]@.distance(positions[target]@) > range_of(usables[effect]) {
        Err(EffectError::OutOfRange)
    } else {
        Ok(())
    }
}

/// What `use_on_ground` answers.
pub open spec fn ground_verdict(
    usables: Map<Entity, Usable>,
    positions: Map<Entity, Coordinate>,
    map: &HexMap,
    effect: Entity,
    user: Entity,
    target: Coordinate,
) -> Result<(), EffectError> {
    if !usable_on_ground(usables, effect) {
        Err(EffectError::NotUsable)
    } else if !positions.contains_key(user) || !map.contains(target@) {
        Err(EffectError::InvalidTarget)
    } else if positions[user]@.distance(target@) > range_of(usables[effect]) {
        Err(EffectError::OutOfRange)
    } else {
        Ok(())
    }
}

impl EffectUsage {
    /// Queues the use of `effect` on its user, if the effect is usable on
    /// self.
    pub fn use_on_self(intents: &mut Intents, usables: &Storage<Usable>, effect: Entity, user: Entity) -> (r:
        Result<(), EffectError>)
        ensures
            r == if usable_on_self(usables@, effect) {
                Ok::<(), EffectError>(())
            } else {
                Err(EffectError::NotUsable)
            },
            r is Err ==> *final(intents) == *old(intents),
            r is Ok ==> queued(old(intents), final(intents), effect, seq![user]),
    {
        match usables.get(effect) {
            Some(Usable::OnSelf) => {
                proof {
                    usables.lemma_key_storable(effect);
                }
                intents.wants_to_use(effect, user);
                Ok(())
            },
            _ => Err(EffectError::NotUsable),
        }
    }

    /// Queues the use of `effect` by `user` on `target`, if the effect is
    /// usable on a target and the target is alive and within range.
    pub fn use_on_target(
        intents: &mut Intents,
        usables: &Storage<Usable>,
        positions: &Storage<Coordinate>,
        durabilities: &Storage<Durability>,
        effect: Entity,
        user: Entity,
        target: Entity,
    ) -> (r: Result<(), EffectError>)
        ensures
            r == target_verdict(usables@, positions@, durabilities@, effect, user, target),
            r is Err ==> *final(intents) == *old(intents),
            r is Ok ==> queued(old(intents), final(intents), effect, seq![target]),
    {
        let range: i32 = match usables.get(effect) {
            Some(Usable::OnTarget { range }) => *range,
            _ => {
                return Err(EffectError::NotUsable);
            },
        };
        let from: Coordinate = match positions.get(user) {
            Some(from) => *from,
            None => {
                return Err(EffectError::InvalidTarget);
            },
        };
        let to: Coordinate = match positions.get(target) {
            Some(to) => *to,
            None => {
                return Err(EffectError::InvalidTarget);
            },
        };
        let alive: bool = match durabilities.get(target) {
            Some(durability) => durability.is_alive(),
            None => false,
        };
        if !alive {
            return Err(EffectError::InvalidTarget);
        }
        if from.wide_distance(to) > range as i64 {
            return Err(EffectError::OutOfRange);
        }
        proof {
            usables.lemma_key_storable(effect);
        }
        intents.wants_to_use(effect, target);
        Ok(())
    }

    /// Queues the use of `effect` by `user` on every occupant of the cell
    /// `target`, if the effect is usable on the ground and the cell lies on
    /// the map within range.
    pub fn use_on_ground(
        intents: &mut Intents,
        usables: &Storage<Usable>,
        positions: &Storage<Coordinate>,
        map: &HexMap,
        effect: Entity,
        user: Entity,
        target: Coordinate,
    ) -> (r: Result<(), EffectError>)
        requires
            map.wf(),
        ensures
            r == ground_verdict(usables@, positions@, map, effect, user, target),
            r is Err ==> *final(intents) == *old(intents),
            r is Ok ==> queued(old(intents), final(intents), effect, map.tile_at(target@).occupants()),
    {
        let range: i32 = match usables.get(effect) {
            Some(Usable::OnGround { range }) => *range,
            _ => {
                return Err(EffectError::NotUsable);
            },
        };
        let from: Coordinate = match positions.get(user) {
            Some(from) => *from,
            None => {
                return Err(EffectError::InvalidTarget);
            },
        };
        let occupants: &Vec<Entity> = match map.tile(target) {
            Some(tile) => tile.iter(),
            None => {
                return Err(EffectError::InvalidTarget);
            },
        };
        if from.wide_distance(target) > range as i64 {
            return Err(EffectError::OutOfRange);
        }
        let mut targets: Vec<Entity> = Vec::new();
        let mut i: usize = 0;
        while i < occupants.len()
            invariant
                0 <= i <= occupants@.len(),
                targets@ == occupants@.subrange(0, i as int),
            decreases occupants@.len() - i,
        {
            targets.push(occupants[i]);
            assert(targets@ =~= occupants@.subrange(0, i + 1));
            i = i + 1;
        }
        assert(targets@ =~= occupants@);
        proof {
            usables.lemma_key_storable(effect);
            lemma_put_keys(intents.being_used@, effect, BeingUsed(targets));
        }
        intents.wants_to_use_on_all(effect, targets);
        Ok(())
    }
}

/// The use of `effect` on `targets` was queued in place of whatever was
/// queued for the effect's slot; every other wish is as it was.
pub open spec fn queued(before: &Intents, after: &Intents, effect: Entity, targets: Seq<Entity>) -> bool {
    &&& after.wants_to_move == before.wants_to_move
    &&& after.wants_to_pick_up == before.wants_to_pick_up
    &&& after.being_used@.dom() == put_keys(before.being_used@, effect)
    &&& after.being_used@[effect].0@ == targets
    &&& forall|e: Entity|
        e.index != effect.index && before.being_used@.contains_key(e) ==> after.being_used@[e]
            == before.being_used@[e]
}

/// Asks for the use of `effect` by `user` on itself, on an entity or on
/// the occupants of a cell.
pub fn try_use_effect(
    intents: &mut Intents,
    usables: &Storage<Usable>,
    positions: &Storage<Coordinate>,
    durabilities: &Storage<Durability>,
    map: &HexMap,
    effect: Entity,
    user: Entity,
    target: EffectTarget,
) -> (r: Result<(), EffectError>)
    requires
        map.wf(),
    ensures
        r is Err ==> *final(intents) == *old(intents),
        match target {
            EffectTarget::User => {
                &&& r is Ok <==> usable_on_self(usables@, effect)
                &&& r is Err ==> r == Err::<(), EffectError>(EffectError::NotUsable)
                &&& r is Ok ==> queued(old(intents), final(intents), effect, seq![user])
            },
            EffectTarget::Entity(other) => {
                &&& r == target_verdict(usables@, positions@, durabilities@, effect, user, other)
                &&& r is Ok ==> queued(old(intents), final(intents), effect, seq![other])
            },
            EffectTarget::Ground(cell) => {
                &&& r == ground_verdict(usables@, positions@, map, effect, user, cell)
                &&& r is Ok ==> queued(old(intents), final(intents), effect, map.tile_at(cell@).occupants())
            },
        },
{
    match target {
        EffectTarget::User => EffectUsage::use_on_self(intents, usables, effect, user),
        EffectTarget::Entity(other) => EffectUsage::use_on_target(
            intents,
            usables,
            positions,
            durabilities,
            effect,
            user,
            other,
        ),
        EffectTarget::Ground(cell) => EffectUsage::use_on_ground(intents, usables, positions, map, effect, user, cell),
    }
}

} // verus!
