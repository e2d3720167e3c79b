//! What monsters do with their turn: a monster that sees the player strikes
//! if the player is within its reach, and otherwise takes a step towards
//! the player.

use crate::effect::{BeingUsed, Usable};
use crate::entity::Monster;
use crate::field_of_view::Viewshed;
use crate::hex_coordinates::{hexes, Coordinate, Hex};
use crate::initiative::{rested, HasInitiative, Initiative, InitiativeData};
use crate::intents::Intents;
use crate::map::HexMap;
use crate::movement::WantsToMove;
use crate::store::{Entity, Storage};
use crate::usage::range_of;
use vstd::prelude::*;

verus! {

/// The pass in which monsters decide.
pub struct MonsterAISystem;

/// What the monsters' pass reads.
pub struct Senses<'a> {
    pub map: &'a HexMap,
    pub player: Entity,
    pub monsters: &'a Storage<Monster>,
    pub coordinates: &'a Storage<Coordinate>,
    pub viewsheds: &'a Storage<Viewshed>,
    pub usables: &'a Storage<Usable>,
}

impl<'a> Senses<'a> {
    /// It is the turn of the monster `e`, and `e` stands on the map and has
    /// a viewshed.
    pub open spec fn acting(&self, turn: Map<Entity, HasInitiative>, e: Entity) -> bool {
        &&& self.monsters@.contains_key(e)
        &&& turn.contains_key(e)
        &&& self.coordinates@.contains_key(e)
        &&& self.viewsheds@.contains_key(e)
    }

    /// The acting monster `e` sees the cell on which the player stands.
    pub open spec fn sees_player(&self, turn: Map<Entity, HasInitiative>, e: Entity) -> bool {
        &&& self.acting(turn, e)
        &&& self.coordinates@.contains_key(self.player)
        &&& self.viewsheds@[e].visible().contains(self.coordinates@[self.player]@)
    }

    /// The acting monster `e` sees the player within reach of an effect of
    /// its own that can be used on a target.
    pub open spec fn strikes(&self, turn: Map<Entity, HasInitiative>, e: Entity) -> bool {
        &&& self.sees_player(turn, e)
        &&& self.usables@.contains_key(e)
        &&& self.usables@[e] is OnTarget
        &&& self.coordinates@[e]@.distance(self.coordinates@[self.player]@) <= range_of(self.usables@[e])
    }

    /// The acting monster `e` sees the player out of reach, and a route
    /// leads from the monster to the player.
    pub open spec fn hunts(&self, turn: Map<Entity, HasInitiative>, e: Entity) -> bool {
        &&& self.sees_player(turn, e)
        &&& !self.strikes(turn, e)
        &&& self.coordinates@[e] != self.coordinates@[self.player]
        &&& self.map.contains(self.coordinates@[e]@)
        &&& self.map.reachable(self.coordinates@[e]@, self.coordinates@[self.player]@)
    }

    /// `dest` is the second cell of a shortest route from the monster `e`
    /// to the player.
    pub open spec fn first_step(&self, e: Entity, dest: Hex) -> bool {
        exists|path: Seq<Hex>|
            self.map.is_shortest_path(path, self.coordinates@[e]@, self.coordinates@[self.player]@) && path.len()
                >= 2 && #[trigger] path[1] == dest
    }

    /// Slot `j` of the uses after the pass.
    pub open spec fn use_decided(
        &self,
        turn: Map<Entity, HasInitiative>,
        before: Option<(Entity, BeingUsed)>,
        after: Option<(Entity, BeingUsed)>,
        j: int,
    ) -> bool {
        match self.monsters.slot(j) {
            Some((e, _)) => if self.strikes(turn, e) {
                after is Some && after.unwrap().0 == e && after.unwrap().1.0@ == seq![self.player]
            } else {
                after == before
            },
            None => after == before,
        }
    }

    /// Slot `j` of the wishes to move after the pass.
    pub open spec fn move_decided(
        &self,
        turn: Map<Entity, HasInitiative>,
        before: Option<(Entity, WantsToMove)>,
        after: Option<(Entity, WantsToMove)>,
        j: int,
    ) -> bool {
        match self.monsters.slot(j) {
            Some((e, _)) => if self.hunts(turn, e) {
                after is Some && after.unwrap().0 == e && self.first_step(e, after.unwrap().1.0@)
            } else {
                after == before
            },
            None => after == before,
        }
    }

    /// Slot `j` of the turn markers after the pass.
    pub open spec fn turn_spent(&self, turn: &Storage<HasInitiative>, j: int) -> Option<(Entity, HasInitiative)> {
        match self.monsters.slot(j) {
            Some((e, _)) => if self.acting(turn@, e) {
                None
            } else {
                turn.slot(j)
            },
            None => turn.slot(j),
        }
    }

    /// Slot `j` of the countdowns after the pass.
    pub open spec fn countdown_reset(
        &self,
        turn: Map<Entity, HasInitiative>,
        countdowns: &Storage<Initiative>,
        j: int,
    ) -> Option<(Entity, Initiative)> {
        match self.monsters.slot(j) {
            Some((e, _)) => if self.acting(turn, e) && countdowns@.contains_key(e) {
                Some((e, rested(countdowns@[e])))
            } else {
                countdowns.slot(j)
            },
            None => countdowns.slot(j),
        }
    }
}

/// The monsters' pass leads from the wishes and turns `before` to those
/// `after`: every monster whose turn it is has decided and ended its turn,
/// and nothing else has changed.
pub open spec fn decided(
    senses: &Senses,
    before: (&Intents, &InitiativeData),
    after: (&Intents, &InitiativeData),
) -> bool {
    &&& after.0.wants_to_pick_up == before.0.wants_to_pick_up
    &&& forall|j: int|
        senses.use_decided(before.1.has_initiative@, before.0.being_used.slot(j), #[trigger] after.0.being_used.slot(j), j)
    &&& forall|j: int|
        senses.move_decided(
            before.1.has_initiative@,
            before.0.wants_to_move.slot(j),
            #[trigger] after.0.wants_to_move.slot(j),
            j,
        )
    &&& forall|j: int| #[trigger] after.1.has_initiative.slot(j) == senses.turn_spent(&before.1.has_initiative, j)
    &&& forall|j: int|
        #[trigger] after.1.initiatives.slot(j) == senses.countdown_reset(
            before.1.has_initiative@,
            &before.1.initiatives,
            j,
        )
}

impl MonsterAISystem {
    /// Lets every monster whose turn it is decide, and ends its turn. A
    /// monster that does not see the player does nothing. One that sees the
    /// player within reach of its effect asks to use itself on the
    /// player. Any other asks to move to the second cell of a shortest route
    /// to the player, if there is a route.
    pub fn run(&self, senses: &Senses, intents: &mut Intents, initiative_data: &mut InitiativeData)
        requires
            senses.map.wf(),
        ensures
            decided(senses, (old(intents), old(initiative_data)), (final(intents), final(initiative_data))),
            final(intents).wants_to_pick_up == old(intents).wants_to_pick_up,
            forall|j: int|
                senses.use_decided(
                    old(initiative_data).has_initiative@,
                    old(intents).being_used.slot(j),
                    #[trigger] final(intents).being_used.slot(j),
                    j,
                ),
            forall|j: int|
                senses.move_decided(
                    old(initiative_data).has_initiative@,
                    old(intents).wants_to_move.slot(j),
                    #[trigger] final(intents).wants_to_move.slot(j),
                    j,
                ),
            forall|j: int|
                #[trigger] final(initiative_data).has_initiative.slot(j) == senses.turn_spent(
                    &old(initiative_data).has_initiative,
                    j,
                ),
            forall|j: int|
                #[trigger] final(initiative_data).initiatives.slot(j) == senses.countdown_reset(
                    old(initiative_data).has_initiative@,
                    &old(initiative_data).initiatives,
                    j,
                ),
    {
        let player_coord: Option<Coordinate> = match senses.coordinates.get(senses.player) {
            Some(at) => Some(*at),
            None => None,
        };
        let n: usize = senses.monsters.slots();
        let ghost turn = initiative_data.has_initiative@;
        let mut i: usize = 0;
        while i < n
            invariant
                senses.map.wf(),
                0 <= i <= n,
                n == senses.monsters.slot_count(),
                turn == old(initiative_data).has_initiative@,
                player_coord is Some <==> senses.coordinates@.contains_key(senses.player),
                player_coord is Some ==> player_coord.unwrap() == senses.coordinates@[senses.player],
                intents.wants_to_pick_up == old(intents).wants_to_pick_up,
                forall|j: int| j >= i ==> intents.being_used.slot(j) == old(intents).being_used.slot(j),
                forall|j: int| j >= i ==> intents.wants_to_move.slot(j) == old(intents).wants_to_move.slot(j),
                forall|j: int|
                    j >= i ==> initiative_data.has_initiative.slot(j) == old(initiative_data).has_initiative.slot(j),
                forall|j: int| j >= i ==> initiative_data.initiatives.slot(j) == old(initiative_data).initiatives.slot(j),
                forall|j: int|
                    0 <= j < i ==> senses.use_decided(
                        turn,
                        old(intents).being_used.slot(j),
                        #[trigger] intents.being_used.slot(j),
                        j,
                    ),
                forall|j: int|
                    0 <= j < i ==> senses.move_decided(
                        turn,
                        old(intents).wants_to_move.slot(j),
                        #[trigger] intents.wants_to_move.slot(j),
                        j,
                    ),
                forall|j: int|
                    0 <= j < i ==> #[trigger] initiative_data.has_initiative.slot(j) == senses.turn_spent(
                        &old(initiative_data).has_initiative,
                        j,
                    ),
                forall|j: int|
                    0 <= j < i ==> #[trigger] initiative_data.initiatives.slot(j) == senses.countdown_reset(
                        turn,
                        &old(initiative_data).initiatives,
                        j,
                    ),
            decreases n - i,
        {
            proof {
                senses.monsters.lemma_slot(i as int);
                senses.monsters.lemma_bounded(i as int);
                initiative_data.has_initiative.lemma_slot(i as int);
                initiative_data.initiatives.lemma_slot(i as int);
                old(initiative_data).has_initiative.lemma_slot(i as int);
                old(initiative_data).initiatives.lemma_slot(i as int);
            }
            match senses.monsters.entry(i) {
                Some((entity, _)) => {
                    if initiative_data.has_initiative.contains(entity) {
                        let at: Option<Coordinate> = match senses.coordinates.get(entity) {
                            Some(at) => Some(*at),
                            None => None,
                        };
                        match (at, senses.viewsheds.get(entity)) {
                            (Some(coord), Some(viewshed)) => {
                                assert(senses.acting(turn, entity));
                                Self::decide(senses, intents, entity, coord, viewshed, player_coord, Ghost(turn));
                                initiative_data.spend_turn(entity);
                            },
                            _ => {},
                        }
                    }
                },
                None => {},
            }
            i = i + 1;
        }
        proof {
            assert forall|j: int|
                senses.use_decided(turn, old(intents).being_used.slot(j), #[trigger] intents.being_used.slot(j), j) by {
                senses.monsters.lemma_slot(j);
                intents.being_used.lemma_slot(j);
                old(intents).being_used.lemma_slot(j);
            }
            assert forall|j: int|
                senses.move_decided(
                    turn,
                    old(intents).wants_to_move.slot(j),
                    #[trigger] intents.wants_to_move.slot(j),
                    j,
                ) by {
                senses.monsters.lemma_slot(j);
                intents.wants_to_move.lemma_slot(j);
                old(intents).wants_to_move.lemma_slot(j);
            }
            assert forall|j: int|
                #[trigger] initiative_data.has_initiative.slot(j) == senses.turn_spent(
                    &old(initiative_data).has_initiative,
                    j,
                ) by {
                senses.monsters.lemma_slot(j);
                initiative_data.has_initiative.lemma_slot(j);
                old(initiative_data).has_initiative.lemma_slot(j);
            }
            assert forall|j: int|
                #[trigger] initiative_data.initiatives.slot(j) == senses.countdown_reset(
                    turn,
                    &old(initiative_data).initiatives,
                    j,
                ) by {
                senses.monsters.lemma_slot(j);
                initiative_data.initiatives.lemma_slot(j);
                old(initiative_data).initiatives.lemma_slot(j);
            }
        }
    }

    /// The decision of one acting monster.
    fn decide(
        senses: &Senses,
        intents: &mut Intents,
        entity: Entity,
        coord: Coordinate,
        viewshed: &Viewshed,
        player_coord: Option<Coordinate>,
        Ghost(turn): Ghost<Map<Entity, HasInitiative>>,
    )
        requires
            senses.map.wf(),
            senses.acting(turn, entity),
            entity.storable(),
            senses.monsters.slot(entity.index as int) is Some,
            senses.monsters.slot(entity.index as int).unwrap().0 == entity,
            coord == senses.coordinates@[entity],
            *viewshed == senses.viewsheds@[entity],
            player_coord is Some <==> senses.coordinates@.contains_key(senses.player),
            player_coord is Some ==> player_coord.unwrap() == senses.coordinates@[senses.player],
        ensures
            final(intents).wants_to_pick_up == old(intents).wants_to_pick_up,
            forall|j: int| j != entity.index ==> final(intents).being_used.slot(j) == old(intents).being_used.slot(j),
            forall|j: int|
                j != entity.index ==> final(intents).wants_to_move.slot(j) == old(intents).wants_to_move.slot(j),
            senses.use_decided(
                turn,
                old(intents).being_used.slot(entity.index as int),
                final(intents).being_used.slot(entity.index as int),
                entity.index as int,
            ),
            senses.move_decided(
                turn,
                old(intents).wants_to_move.slot(entity.index as int),
                final(intents).wants_to_move.slot(entity.index as int),
                entity.index as int,
            ),
    {
        let target: Coordinate = match player_coord {
            Some(target) => target,
            None => {
                return;
            },
        };
        if !viewshed.is_visible(target) {
            return;
        }
        let can_use_self_on_player: bool = match senses.usables.get(entity) {
            Some(Usable::OnTarget { range }) => coord.wide_distance(target) <= *range as i64,
            _ => false,
        };
        if can_use_self_on_player {
            intents.wants_to_use(entity, senses.player);
        } else if coord != target {
            match senses.map.path(coord, target) {
                Some(route) => {
                    if route.len() > 1 {
                        let dest = route[1];
                        assert(hexes(route@)[1] == dest@);
                        assert(senses.first_step(entity, dest@));
                        intents.wants_to_move(entity, dest);
                    } else {
                        assert(hexes(route@)[0] == coord@);
                        assert(coord@ == target@);
                        assert(coord == target);
                    }
                },
                None => {},
            }
        }
    }
}

} // verus!
