//! Whom an entity has in its sights, and the cursor with which the player
//! picks a cell.

use crate::coordinate_set::CoordinateSet;
use crate::field_of_view::Viewshed;
use crate::hex_coordinates::{Coordinate, Hex, MAX_SPAN};
use crate::input::{direction_of, Key};
use crate::map::HexMap;
use crate::store::{put, Entity, Storage};
use core::ops::ControlFlow;
use vstd::prelude::*;

verus! {

/// The entity that its owner has in its sights.
#[derive(Clone, Copy, Debug, PartialEq, Eq, Structural)]
pub struct Target(pub Entity);

/// The targets of all entities.
pub struct Targeting {
    pub targets: Storage<Target>,
}

/// The pass that drops targets that can no longer be seen.
pub struct ClearTargetSystem;

/// The cells among which the player picks one, and the cell picked so far.
pub struct TargetingReticule {
    pub coordinates: CoordinateSet,
    pub cursor: Coordinate,
}

/// The least index at which `x` stands in `list`; the length of `list` if
/// it stands nowhere.
pub open spec fn first_index(list: Seq<Entity>, x: Entity) -> int
    decreases list.len(),
{
    if list.len() == 0 {
        0
    } else if list[0] == x {
        0
    } else {
        1 + first_index(list.drop_first(), x)
    }
}

/// An element after elements that differ from it stands at its first
/// index.
pub proof fn lemma_first_index(list: Seq<Entity>, x: Entity, i: int)
    requires
        0 <= i <= list.len(),
        i < list.len() ==> list[i] == x,
        forall|j: int| 0 <= j < i ==> list[j] != x,
    ensures
        first_index(list, x) == i,
    decreases i,
{
    if i > 0 {
        lemma_first_index(list.drop_first(), x, i - 1);
    }
}

/// The candidate before the current target. Without a current target it is
/// the last candidate; there is none if the current target is the first
/// candidate or no candidate at all.
pub open spec fn candidate_before(current: Option<Target>, candidates: Seq<Entity>) -> Option<Entity> {
    match current {
        Some(target) => {
            let i = first_index(candidates, target.0);
            if 0 < i < candidates.len() {
                Some(candidates[i - 1])
            } else {
                None
            }
        },
        None => if candidates.len() > 0 {
            Some(candidates[candidates.len() - 1])
        } else {
            None
        },
    }
}

/// The candidate after the current target. Without a current target it is
/// the first candidate; there is none if the current target is the last
/// candidate or no candidate at all.
pub open spec fn candidate_after(current: Option<Target>, candidates: Seq<Entity>) -> Option<Entity> {
    match current {
        Some(target) => {
            let i = first_index(candidates, target.0);
            if i + 1 < candidates.len() {
                Some(candidates[i + 1])
            } else {
                None
            }
        },
        None => if candidates.len() > 0 {
            Some(candidates[0])
        } else {
            None
        },
    }
}

/// The target of `e`, if it has one.
pub open spec fn target_of(targets: Map<Entity, Target>, e: Entity) -> Option<Target> {
    if targets.contains_key(e) {
        Some(targets[e])
    } else {
        None
    }
}

/// The first index of `x` in `list`, or the length of `list`.
fn position(list: &Vec<Entity>, x: Entity) -> (i: usize)
    ensures
        i == first_index(list@, x),
        i <= list@.len(),
{
    let mut i: usize = 0;
    while i < list.len() && list[i] != x
        invariant
            0 <= i <= list@.len(),
            forall|j: int| 0 <= j < i ==> list@[j] != x,
        decreases list@.len() - i,
    {
        i = i + 1;
    }
    proof {
        lemma_first_index(list@, x, i as int);
    }
    i
}

impl Targeting {
    pub fn new() -> (targeting: Self)
        ensures
            targeting.targets@ == Map::<Entity, Target>::empty(),
    {
        Targeting { targets: Storage::new() }
    }

    /// The target of `entity`, if it has one.
    pub fn get(&self, entity: Entity) -> (target: Option<Target>)
        ensures
            target == target_of(self.targets@, entity),
    {
        match self.targets.get(entity) {
            Some(target) => Some(*target),
            None => None,
        }
    }

    /// The candidate before the current target of `entity`.
    pub fn prev_target(&self, entity: Entity, potential_targets: &Vec<Entity>) -> (found: Option<Entity>)
        ensures
            found == candidate_before(target_of(self.targets@, entity), potential_targets@),
    {
        match self.get(entity) {
            Some(Target(current)) => {
                let i: usize = position(potential_targets, current);
                if 0 < i && i < potential_targets.len() {
                    Some(potential_targets[i - 1])
                } else {
                    None
                }
            },
            None => {
                if potential_targets.len() > 0 {
                    Some(potential_targets[potential_targets.len() - 1])
                } else {
                    None
                }
            },
        }
    }

    /// The candidate after the current target of `entity`.
    pub fn next_target(&self, entity: Entity, potential_targets: &Vec<Entity>) -> (found: Option<Entity>)
        ensures
            found == candidate_after(target_of(self.targets@, entity), potential_targets@),
    {
        match self.get(entity) {
            Some(Target(current)) => {
                let i: usize = position(potential_targets, current);
                if i < potential_targets.len() && i + 1 < potential_targets.len() {
                    Some(potential_targets[i + 1])
                } else {
                    None
                }
            },
            None => {
                if potential_targets.len() > 0 {
                    Some(potential_targets[0])
                } else {
                    None
                }
            },
        }
    }

    /// Gives `entity` a target, or takes it away.
    pub fn set_target(&mut self, entity: Entity, target_entity: Option<Entity>)
        requires
            entity.storable(),
        ensures
            final(self).targets@ == match target_entity {
                Some(target) => put(old(self).targets@, entity, Target(target)),
                None => old(self).targets@.remove(entity),
            },
    {
        match target_entity {
            Some(target) => {
                self.targets.insert(entity, Target(target));
            },
            None => {
                self.targets.remove(entity);
            },
        }
    }
}

/// The owner's target is lost: the owner has a viewshed, and its target
/// has no position or stands where the owner does not see.
pub open spec fn lost_sight(
    targets: Map<Entity, Target>,
    positions: Map<Entity, Coordinate>,
    viewsheds: Map<Entity, Viewshed>,
    owner: Entity,
) -> bool {
    &&& targets.contains_key(owner)
    &&& viewsheds.contains_key(owner)
    &&& (!positions.contains_key(targets[owner].0) || !viewsheds[owner].visible().contains(
        positions[targets[owner].0]@,
    ))
}

impl ClearTargetSystem {
    /// Drops the target of every entity that has lost sight of it.
    pub fn run(
        &self,
        targets: &mut Storage<Target>,
        positions: &Storage<Coordinate>,
        viewsheds: &Storage<Viewshed>,
    )
        ensures
            final(targets)@ == old(targets)@.remove_keys(
                Set::new(|e: Entity| lost_sight(old(targets)@, positions@, viewsheds@, e)),
            ),
    {
        let n: usize = targets.slots();
        let mut i: usize = 0;
        while i < n
            invariant
                0 <= i <= n,
                n == old(targets).slot_count(),
                n == targets.slot_count(),
                forall|j: int| j >= i ==> targets.slot(j) == old(targets).slot(j),
                forall|j: int|
                    0 <= j < i ==> targets.slot(j) == match old(targets).slot(j) {
                        Some((e, t)) => if lost_sight(old(targets)@, positions@, viewsheds@, e) {
                            None
                        } else {
                            Some((e, t))
                        },
                        None => None,
                    },
            decreases n - i,
        {
            let found: Option<(Entity, Target)> = match targets.entry(i) {
                Some((owner, target)) => Some((owner, *target)),
                None => None,
            };
            proof {
                targets.lemma_slot(i as int);
                old(targets).lemma_slot(i as int);
            }
            if let Some((owner, target)) = found {
                if let Some(viewshed) = viewsheds.get(owner) {
                    let lost: bool = match positions.get(target.0) {
                        Some(at) => !viewshed.is_visible(*at),
                        None => true,
                    };
                    if lost {
                        targets.remove(owner);
                    }
                }
            }
            i = i + 1;
        }
        proof {
            let gone = Set::new(|e: Entity| lost_sight(old(targets)@, positions@, viewsheds@, e));
            assert forall|e: Entity|
                targets@.contains_key(e) == old(targets)@.remove_keys(gone).contains_key(e) && (targets@.contains_key(e)
                    ==> targets@[e] == old(targets)@[e]) by {
                old(targets).lemma_slot(e.index as int);
                targets.lemma_slot(e.index as int);
                if e.index < n {
                    assert(targets.slot(e.index as int) == match old(targets).slot(e.index as int) {
                        Some((e, t)) => if lost_sight(old(targets)@, positions@, viewsheds@, e) {
                            None
                        } else {
                            Some((e, t))
                        },
                        None => None,
                    });
                } else {
                    assert(targets.slot(e.index as int) == old(targets).slot(e.index as int));
                }
            }
            assert(targets@ =~= old(targets)@.remove_keys(gone));
        }
    }
}

impl TargetingReticule {
    /// A reticule on `origin` that can be moved over the cells that an
    /// effect of the given range reaches from there.
    pub fn new(origin: Coordinate, range: i32, map: &HexMap) -> (reticule: Self)
        requires
            map.wf(),
            origin@.in_reach(),
            range <= MAX_SPAN,
        ensures
            reticule.coordinates.wf(),
            reticule.coordinates@ == map.affected_from(origin@, range as int),
            reticule.cursor == origin,
    {
        TargetingReticule { coordinates: map.area_of_effect(origin, range), cursor: origin }
    }

    /// Reacts to a key. A movement key moves the cursor by one step if the
    /// step stays among the reticule's cells. Space and Return pick the
    /// cell under the cursor; `X` and Escape give up.
    pub fn handle_input(&mut self, key: Option<Key>) -> (flow: ControlFlow<Option<Coordinate>, ()>)
        ensures
            final(self).coordinates == old(self).coordinates,
            flow == reticule_flow(old(self).cursor, key),
            final(self).cursor@ == reticule_cursor(old(self).coordinates@, old(self).cursor@, key),
    {
        let key: Key = match key {
            Some(key) => key,
            None => {
                return ControlFlow::Continue(());
            },
        };
        match key.direction() {
            Some(direction) => {
                match self.cursor.checked_step(direction) {
                    Some(new_cursor) => {
                        if self.coordinates.contains(new_cursor) {
                            self.cursor = new_cursor;
                        }
                    },
                    None => {},
                }
                ControlFlow::Continue(())
            },
            None => {
                match key {
                    Key::Space => ControlFlow::Break(Some(self.cursor)),
                    Key::Return => ControlFlow::Break(Some(self.cursor)),
                    Key::Escape => ControlFlow::Break(None),
                    Key::Letter(letter) => {
                        if letter == crate::input::KEY_X {
                            ControlFlow::Break(None)
                        } else {
                            ControlFlow::Continue(())
                        }
                    },
                    _ => ControlFlow::Continue(()),
                }
            },
        }
    }
}

/// Whether the reticule goes on, picks the cell under the cursor or gives
/// up.
pub open spec fn reticule_flow(cursor: Coordinate, key: Option<Key>) -> ControlFlow<Option<Coordinate>, ()> {
    match key {
        None => ControlFlow::Continue(()),
        Some(key) => if direction_of(key) is Some {
            ControlFlow::Continue(())
        } else {
            match key {
                Key::Space => ControlFlow::Break(Some(cursor)),
                Key::Return => ControlFlow::Break(Some(cursor)),
                Key::Escape => ControlFlow::Break(None),
                Key::Letter(letter) => if letter == crate::input::KEY_X {
                    ControlFlow::Break(None)
                } else {
                    ControlFlow::Continue(())
                },
                _ => ControlFlow::Continue(()),
            }
        },
    }
}

/// Where the cursor stands after a key.
pub open spec fn reticule_cursor(cells: Set<Hex>, cursor: Hex, key: Option<Key>) -> Hex {
    match key {
        None => cursor,
        Some(key) => match direction_of(key) {
            Some(direction) => if cells.contains(cursor.step(direction)) && cursor.step(direction).representable() {
                cursor.step(direction)
            } else {
                cursor
            },
            None => cursor,
        },
    }
}

} // verus!
