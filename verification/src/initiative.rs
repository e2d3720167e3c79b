//! The turn scheduler. Every entity with an [`Initiative`] counts down to
//! its turn; at most one entity at a time holds the right to act.

use crate::store::{lemma_put_existing, Entity, Storage};
use vstd::prelude::*;

verus! {

/// Marks the entity whose turn it is.
#[derive(Clone, Copy, Debug, Default, PartialEq, Eq, Structural)]
pub struct HasInitiative;

/// An entity's countdown: it may act when `current` has reached 0, and
/// waits `speed` rounds after each turn.
#[derive(Clone, Copy, Debug, PartialEq, Eq, Structural)]
pub struct Initiative {
    pub current: i32,
    pub speed: i32,
}

/// The countdowns and the marker of the entity whose turn it is.
pub struct InitiativeData {
    pub initiatives: Storage<Initiative>,
    pub has_initiative: Storage<HasInitiative>,
}

/// The scheduling pass.
pub struct InitiativeSystem;

/// The entity's countdown has run out.
pub open spec fn ready(initiatives: Map<Entity, Initiative>, e: Entity) -> bool {
    initiatives.contains_key(e) && initiatives[e].current <= 0
}

/// `e` is the entity with the lowest index among those whose countdown has
/// run out.
pub open spec fn first_ready(initiatives: Map<Entity, Initiative>, e: Entity) -> bool {
    &&& ready(initiatives, e)
    &&& forall|other: Entity| ready(initiatives, other) ==> e.index <= other.index
}

/// The countdowns after a round in which nobody acted: each is one lower.
pub open spec fn counted_down(initiatives: Map<Entity, Initiative>) -> Map<Entity, Initiative> {
    initiatives.map_values(|i: Initiative| Initiative { current: (i.current - 1) as i32, speed: i.speed })
}

/// At most one entity holds the initiative.
pub open spec fn single_turn(holders: Map<Entity, HasInitiative>) -> bool {
    forall|a: Entity, b: Entity| holders.contains_key(a) && holders.contains_key(b) ==> a == b
}

/// A scheduling step never hands the initiative to a second entity.
pub proof fn lemma_one_turn_at_a_time(before: &InitiativeData, after: &InitiativeData)
    requires
        single_turn(before.has_initiative@),
        scheduling_step(before, after),
    ensures
        single_turn(after.has_initiative@),
{
}

/// The countdown after a turn: it starts again at the entity's speed.
pub open spec fn rested(initiative: Initiative) -> Initiative {
    Initiative { current: initiative.speed, speed: initiative.speed }
}

/// The turn of `e` was ended, if it was its turn: the marker is gone and
/// the countdown has started again.
pub open spec fn turn_ended(before: &InitiativeData, after: &InitiativeData, e: Entity) -> bool {
    &&& after.has_initiative@ == before.has_initiative@.remove(e)
    &&& after.initiatives@ == if before.has_initiative@.contains_key(e) && before.initiatives@.contains_key(e) {
        before.initiatives@.insert(e, rested(before.initiatives@[e]))
    } else {
        before.initiatives@
    }
}

impl InitiativeData {
    pub fn new() -> (data: Self)
        ensures
            data.initiatives@ == Map::<Entity, Initiative>::empty(),
            data.has_initiative@ == Map::<Entity, HasInitiative>::empty(),
    {
        InitiativeData { initiatives: Storage::new(), has_initiative: Storage::new() }
    }

    /// The table that marks the entity whose turn it is.
    pub fn has_initiative(&self) -> (table: &Storage<HasInitiative>)
        ensures
            table == &self.has_initiative,
    {
        &self.has_initiative
    }

    /// Ends the turn of `entity`, if it is its turn: the marker is taken
    /// away and the countdown starts again at the entity's speed.
    pub fn spend_turn(&mut self, entity: Entity)
        ensures
            turn_ended(old(self), final(self), entity),
            final(self).has_initiative@ == old(self).has_initiative@.remove(entity),
            forall|j: int|
                final(self).has_initiative.slot(j) == if j == entity.index && old(self).has_initiative@.contains_key(
                    entity,
                ) {
                    None
                } else {
                    old(self).has_initiative.slot(j)
                },
            forall|j: int|
                final(self).initiatives.slot(j) == if j == entity.index && old(self).has_initiative@.contains_key(
                    entity,
                ) && old(self).initiatives@.contains_key(entity) {
                    Some((entity, rested(old(self).initiatives@[entity])))
                } else {
                    old(self).initiatives.slot(j)
                },
            final(self).initiatives@ == if old(self).has_initiative@.contains_key(entity) && old(
                self,
            ).initiatives@.contains_key(entity) {
                old(self).initiatives@.insert(entity, rested(old(self).initiatives@[entity]))
            } else {
                old(self).initiatives@
            },
    {
        if self.has_initiative.remove(entity).is_some() {
            let found: Option<Initiative> = match self.initiatives.get(entity) {
                Some(initiative) => Some(*initiative),
                None => None,
            };
            if let Some(initiative) = found {
                proof {
                    self.initiatives.lemma_key_storable(entity);
                    lemma_put_existing(
                        &self.initiatives,
                        entity,
                        Initiative { current: initiative.speed, speed: initiative.speed },
                    );
                }
                self.initiatives.insert(entity, Initiative { current: initiative.speed, speed: initiative.speed });
            }
        }
    }
}

/// One scheduling step leads from `before` to `after`. While some entity
/// holds the initiative nothing changes. Otherwise the first entity whose
/// countdown has run out receives it; if there is none, every countdown goes
/// down by one.
pub open spec fn scheduling_step(before: &InitiativeData, after: &InitiativeData) -> bool {
    let nobody = Map::<Entity, HasInitiative>::empty();
    if !(before.has_initiative@ =~= nobody) {
        &&& after.has_initiative@ == before.has_initiative@
        &&& after.initiatives@ == before.initiatives@
    } else if exists|e: Entity| ready(before.initiatives@, e) {
        &&& after.initiatives@ == before.initiatives@
        &&& exists|e: Entity|
            first_ready(before.initiatives@, e) && after.has_initiative@ == nobody.insert(e, HasInitiative)
    } else {
        &&& after.has_initiative@ == before.has_initiative@
        &&& after.initiatives@ == counted_down(before.initiatives@)
    }
}

impl InitiativeSystem {
    /// One scheduling step. While some entity holds the initiative nothing
    /// happens. Otherwise the first entity whose countdown has run out
    /// receives it; if there is none, every countdown goes down by one.
    pub fn run(&self, data: &mut InitiativeData)
        ensures
            scheduling_step(old(data), final(data)),
            !(old(data).has_initiative@ =~= Map::<Entity, HasInitiative>::empty()) ==> {
                &&& final(data).has_initiative@ == old(data).has_initiative@
                &&& final(data).initiatives@ == old(data).initiatives@
            },
            old(data).has_initiative@ =~= Map::<Entity, HasInitiative>::empty() && (exists|e: Entity|
                ready(old(data).initiatives@, e)) ==> {
                &&& final(data).initiatives@ == old(data).initiatives@
                &&& exists|e: Entity|
                    first_ready(old(data).initiatives@, e) && final(data).has_initiative@ == Map::<
                        Entity,
                        HasInitiative,
                    >::empty().insert(e, HasInitiative)
            },
            old(data).has_initiative@ =~= Map::<Entity, HasInitiative>::empty() && !(exists|e: Entity|
                ready(old(data).initiatives@, e)) ==> {
                &&& final(data).has_initiative@ == old(data).has_initiative@
                &&& final(data).initiatives@ == counted_down(old(data).initiatives@)
            },
    {
        if !data.has_initiative.is_empty() {
            return;
        }
        let n: usize = data.initiatives.slots();
        let mut i: usize = 0;
        while i < n
            invariant
                0 <= i <= n,
                n == data.initiatives.slot_count(),
                data == old(data),
                old(data).has_initiative@ == Map::<Entity, HasInitiative>::empty(),
                forall|j: int|
                    0 <= j < i && data.initiatives.slot(j) is Some ==> (#[trigger] data.initiatives.slot(
                        j,
                    )).unwrap().1.current > 0,
            decreases n - i,
        {
            match data.initiatives.entry(i) {
                Some((entity, initiative)) => {
                    if initiative.current <= 0 {
                        proof {
                            data.initiatives.lemma_slot(i as int);
                            assert forall|other: Entity| ready(data.initiatives@, other) implies entity.index
                                <= other.index by {
                                data.initiatives.lemma_slot(other.index as int);
                            }
                            assert(first_ready(data.initiatives@, entity));
                        }
                        proof {
                            data.initiatives.lemma_bounded(i as int);
                        }
                        data.has_initiative.insert(entity, HasInitiative);
                        assert(data.has_initiative@ =~= Map::<Entity, HasInitiative>::empty().insert(
                            entity,
                            HasInitiative,
                        ));
                        return;
                    }
                },
                None => {},
            }
            i = i + 1;
        }
        proof {
            assert forall|e: Entity| !ready(data.initiatives@, e) by {
                data.initiatives.lemma_slot(e.index as int);
            }
            assert forall|j: int| old(data).initiatives.slot(j) is Some implies (#[trigger] old(
                data,
            ).initiatives.slot(j)).unwrap().1.current > 0 by {
                data.initiatives.lemma_slot(j);
            }
        }
        let mut i: usize = 0;
        while i < n
            invariant
                0 <= i <= n,
                n == data.initiatives.slot_count(),
                n == old(data).initiatives.slot_count(),
                data.has_initiative == old(data).has_initiative,
                old(data).has_initiative@ == Map::<Entity, HasInitiative>::empty(),
                forall|e: Entity| !ready(old(data).initiatives@, e),
                forall|j: int|
                    old(data).initiatives.slot(j) is Some ==> (#[trigger] old(data).initiatives.slot(
                        j,
                    )).unwrap().1.current > 0,
                forall|j: int| i <= j ==> data.initiatives.slot(j) == old(data).initiatives.slot(j),
                forall|j: int|
                    0 <= j < i ==> (#[trigger] data.initiatives.slot(j)) == match old(data).initiatives.slot(j) {
                        Some((e, initiative)) => Some(
                            (e, Initiative { current: (initiative.current - 1) as i32, speed: initiative.speed }),
                        ),
                        None => None,
                    },
            decreases n - i,
        {
            let found: Option<(Entity, Initiative)> = match data.initiatives.entry(i) {
                Some((entity, initiative)) => Some((entity, *initiative)),
                None => None,
            };
            if let Some((entity, initiative)) = found {
                proof {
                    data.initiatives.lemma_slot(i as int);
                    data.initiatives.lemma_bounded(i as int);
                    assert(old(data).initiatives.slot(i as int).unwrap().1.current > 0);
                }
                data.initiatives.insert(
                    entity,
                    Initiative { current: initiative.current - 1, speed: initiative.speed },
                );
            }
            i = i + 1;
        }
        proof {
            assert forall|e: Entity|
                data.initiatives@.contains_key(e) == counted_down(old(data).initiatives@).contains_key(e) && (
                data.initiatives@.contains_key(e) ==> data.initiatives@[e] == counted_down(old(data).initiatives@)[e]) by {
                old(data).initiatives.lemma_slot(e.index as int);
                data.initiatives.lemma_slot(e.index as int);
                if e.index < n {
                    assert(data.initiatives.slot(e.index as int) == match old(data).initiatives.slot(e.index as int) {
                        Some((e, initiative)) => Some(
                            (e, Initiative { current: (initiative.current - 1) as i32, speed: initiative.speed }),
                        ),
                        None => None,
                    });
                }
            }
            assert(data.initiatives@ =~= counted_down(old(data).initiatives@));
        }
    }
}

} // verus!
