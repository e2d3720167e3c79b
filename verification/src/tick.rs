//! The passes of a tick as steps from world to world.
//!
//! Each pass reads and writes the tables it is handed and nothing else. A
//! tick is the chain of the eleven passes in the order of the schedule.

use crate::ai::{decided, MonsterAISystem, Senses};
use crate::durability::{buried_slot, obituaries, perishes, regenerated_slot, DeathSystem, ShieldRegenSystem};
use crate::effect::{consumed, outcome, resolved, BeingUsed, EffectUseSystem};
use crate::engine::{schedule, Pass};
use crate::field_of_view::{refreshed_slot, refreshes, VisibilitySystem};
use crate::initiative::{lemma_one_turn_at_a_time, scheduling_step, InitiativeSystem};
use crate::inventory::{
    carried, gathered, kept, pickup_notes, wanted, ItemPickupSystem, PlayerInventorySystem, WantsToPickUp,
};
use crate::map_index::{obstructed, standing, IndexMapSystem};
use crate::movement::{disturbed, moved, MovementSystem, WantsToMove};
use crate::store::Entity;
use crate::targeting::{lost_sight, ClearTargetSystem};
use crate::tile::TileType;
use crate::world::World;
use vstd::prelude::*;

verus! {

/// The parts of the world that passes write to.
#[derive(Clone, Copy, Debug, PartialEq, Eq, Structural)]
pub enum Part {
    Entities,
    Tiles,
    Inventory,
    GameLog,
    Initiative,
    Intents,
    Targeting,
    Durabilities,
    Viewsheds,
    Coordinates,
    InInventory,
}

/// The parts of the world that a pass writes to. Every other part it only
/// reads, or does not touch at all: two passes could run side by side only
/// if neither writes what the other reads or writes.
pub open spec fn writes(pass: Pass) -> Set<Part> {
    match pass {
        Pass::Initiative => set![Part::Initiative],
        Pass::MonsterAI => set![Part::Intents, Part::Initiative],
        Pass::Movement => set![Part::Intents, Part::Coordinates, Part::Viewsheds],
        Pass::ItemPickup => set![Part::Intents, Part::Coordinates, Part::InInventory, Part::GameLog],
        Pass::EffectUse => set![Part::Intents, Part::Entities, Part::Durabilities, Part::InInventory, Part::GameLog],
        Pass::Visibility => set![Part::Tiles, Part::Viewsheds],
        Pass::ShieldRegen => set![Part::Durabilities],
        Pass::Death => set![Part::Entities, Part::Durabilities, Part::Coordinates, Part::GameLog],
        Pass::PlayerInventory => set![Part::Inventory],
        Pass::ClearTarget => set![Part::Targeting],
        Pass::IndexMap => set![Part::Tiles],
    }
}

impl World {
    /// `after` differs from this world at most in the parts named. What
    /// entities are, the reticule and the last rejection are never written
    /// to by a pass.
    pub open spec fn kept_but(&self, after: &World, touched: Set<Part>) -> bool {
        &&& after.same_cast(self)
        &&& after.reticule == self.reticule
        &&& after.last_rejection == self.last_rejection
        &&& !touched.contains(Part::Entities) ==> after.entities == self.entities
        &&& !touched.contains(Part::Tiles) ==> after.map == self.map
        &&& !touched.contains(Part::Inventory) ==> after.inventory == self.inventory
        &&& !touched.contains(Part::GameLog) ==> after.game_log == self.game_log
        &&& !touched.contains(Part::Initiative) ==> after.initiative == self.initiative
        &&& !touched.contains(Part::Intents) ==> after.intents == self.intents
        &&& !touched.contains(Part::Targeting) ==> after.targeting == self.targeting
        &&& !touched.contains(Part::Durabilities) ==> after.durabilities == self.durabilities
        &&& !touched.contains(Part::Viewsheds) ==> after.viewsheds == self.viewsheds
        &&& !touched.contains(Part::Coordinates) ==> after.coordinates == self.coordinates
        &&& !touched.contains(Part::InInventory) ==> after.in_inventory == self.in_inventory
    }

    /// What the monsters' pass reads of this world.
    pub open spec fn senses(&self) -> Senses<'_> {
        Senses {
            map: &self.map,
            player: self.player,
            monsters: &self.monsters,
            coordinates: &self.coordinates,
            viewsheds: &self.viewsheds,
            usables: &self.usables,
        }
    }

    /// The scheduler leads from this world to `after`.
    pub open spec fn scheduled(&self, after: &World) -> bool {
        &&& self.kept_but(after, writes(Pass::Initiative))
        &&& scheduling_step(&self.initiative, &after.initiative)
    }

    /// The monsters' pass leads from this world to `after`.
    pub open spec fn monsters_decided(&self, after: &World) -> bool {
        &&& self.kept_but(after, writes(Pass::MonsterAI))
        &&& decided(&self.senses(), (&self.intents, &self.initiative), (&after.intents, &after.initiative))
    }

    /// The movement pass leads from this world to `after`.
    pub open spec fn moves_made(&self, after: &World) -> bool {
        &&& self.kept_but(after, writes(Pass::Movement))
        &&& after.intents.wants_to_pick_up == self.intents.wants_to_pick_up
        &&& after.intents.being_used == self.intents.being_used
        &&& after.intents.wants_to_move@ == Map::<Entity, WantsToMove>::empty()
        &&& after.coordinates@ == moved(&self.map, self.intents.wants_to_move@, self.coordinates@)
        &&& after.viewsheds@ == disturbed(&self.map, self.intents.wants_to_move@, self.coordinates@, self.viewsheds@)
    }

    /// The pickup pass leads from this world to `after`.
    pub open spec fn items_picked_up(&self, after: &World) -> bool {
        let wishes = &self.intents.wants_to_pick_up;
        &&& self.kept_but(after, writes(Pass::ItemPickup))
        &&& after.intents.wants_to_move == self.intents.wants_to_move
        &&& after.intents.being_used == self.intents.being_used
        &&& after.intents.wants_to_pick_up@ == Map::<Entity, WantsToPickUp>::empty()
        &&& after.coordinates@ == self.coordinates@.remove_keys(
            Set::new(|e: Entity| e.storable() && wanted(wishes, e, wishes.slot_count() as int)),
        )
        &&& after.in_inventory@ == carried(wishes, self.in_inventory@, wishes.slot_count() as int)
        &&& after.game_log@ == self.game_log@ + pickup_notes(
            wishes,
            self.names@,
            self.player,
            wishes.slot_count() as int,
        )
    }

    /// The effects of this world that the pass of effects uses up.
    pub open spec fn used_up(&self) -> Set<Entity> {
        Set::new(|e: Entity| consumed(self.intents.being_used@, self.names@, self.items@, e))
    }

    /// The pass of effects leads from this world to `after`.
    pub open spec fn effects_used(&self, after: &World) -> bool {
        &&& self.kept_but(after, writes(Pass::EffectUse))
        &&& after.intents.wants_to_move == self.intents.wants_to_move
        &&& after.intents.wants_to_pick_up == self.intents.wants_to_pick_up
        &&& after.intents.being_used@ == Map::<Entity, BeingUsed>::empty()
        &&& outcome(after.durabilities@, after.game_log@) == resolved(
            &self.intents.being_used,
            self.names@,
            self.deals_damage@,
            self.provides_healing@,
            outcome(self.durabilities@, self.game_log@),
            self.intents.being_used.slot_count() as int,
        )
        &&& after.in_inventory@ == self.in_inventory@.remove_keys(self.used_up())
        &&& after.entities.slot_count() == self.entities.slot_count()
        &&& forall|x: Entity| after.entities.alive(x) == self.entities.alive(x)
        &&& forall|x: Entity|
            after.entities.doomed(x) == (self.entities.doomed(x) || (self.used_up().contains(x)
                && self.entities.alive(x)))
    }

    /// The cell of tile `t` is revealed to the player by the visibility pass.
    pub open spec fn comes_to_light(&self, t: int) -> bool {
        &&& refreshes(self.coordinates@, self.viewsheds@, self.player)
        &&& self.map.visible_from(self.coordinates@[self.player]@, self.viewsheds@[self.player].reach()).contains(
            self.map.cell(t),
        )
    }

    /// The visibility pass leads from this world to `after`.
    pub open spec fn sights_refreshed(&self, after: &World) -> bool {
        &&& self.kept_but(after, writes(Pass::Visibility))
        &&& after.map.same_ground(&self.map)
        &&& forall|j: int| refreshed_slot(&self.map, self.coordinates@, &self.viewsheds, #[trigger] after.viewsheds.slot(j), j)
        &&& forall|t: int|
            0 <= t < after.map.tiles().len() ==> {
                &&& (#[trigger] after.map.tiles()[t]).blocked() == self.map.tiles()[t].blocked()
                &&& after.map.tiles()[t].occupants() == self.map.tiles()[t].occupants()
                &&& after.map.tiles()[t].revealed() == (self.map.tiles()[t].revealed() || self.comes_to_light(t))
            }
    }

    /// The pass of shields leads from this world to `after`.
    pub open spec fn shields_regenerated(&self, after: &World) -> bool {
        &&& self.kept_but(after, writes(Pass::ShieldRegen))
        &&& forall|j: int|
            #[trigger] after.durabilities.slot(j) == regenerated_slot(
                &self.durabilities,
                self.initiative.has_initiative@,
                j,
            )
    }

    /// The entities of this world that the pass of deaths marks for
    /// destruction.
    pub open spec fn perishing(&self) -> Set<Entity> {
        Set::new(|e: Entity| perishes(self.durabilities@, self.names@, self.players@, e))
    }

    /// The pass of deaths leads from this world to `after`.
    pub open spec fn dead_buried(&self, after: &World) -> bool {
        &&& self.kept_but(after, writes(Pass::Death))
        &&& forall|j: int|
            #[trigger] after.durabilities.slot(j) == buried_slot(&self.durabilities, self.names@, self.players@, j)
        &&& after.coordinates@ == self.coordinates@.remove_keys(self.perishing())
        &&& after.game_log@ == self.game_log@ + obituaries(
            &self.durabilities,
            self.names@,
            self.players@,
            self.durabilities.slot_count() as int,
        )
        &&& after.entities.slot_count() == self.entities.slot_count()
        &&& forall|x: Entity| after.entities.alive(x) == self.entities.alive(x)
        &&& forall|x: Entity|
            after.entities.doomed(x) == (self.entities.doomed(x) || (self.perishing().contains(x)
                && self.entities.alive(x)))
    }

    /// The inventory pass leads from this world to `after`.
    pub open spec fn inventory_listed(&self, after: &World) -> bool {
        &&& self.kept_but(after, writes(Pass::PlayerInventory))
        &&& after.inventory.0@ == gathered(
            kept(self.inventory.0@, self.in_inventory@, &self.entities, self.player, self.inventory.0@.len() as int),
            &self.in_inventory,
            &self.entities,
            self.player,
            self.in_inventory.slot_count() as int,
        )
    }

    /// The pass of targets leads from this world to `after`.
    pub open spec fn targets_cleared(&self, after: &World) -> bool {
        &&& self.kept_but(after, writes(Pass::ClearTarget))
        &&& after.targeting.targets@ == self.targeting.targets@.remove_keys(
            Set::new(|e: Entity| lost_sight(self.targeting.targets@, self.coordinates@, self.viewsheds@, e)),
        )
    }

    /// The index pass leads from this world to `after`.
    pub open spec fn map_indexed(&self, after: &World) -> bool {
        let n = self.coordinates.slot_count() as int;
        &&& self.kept_but(after, writes(Pass::IndexMap))
        &&& after.map.same_ground(&self.map)
        &&& forall|t: int|
            0 <= t < after.map.tiles().len() ==> {
                &&& (#[trigger] after.map.tiles()[t]).revealed() == self.map.tiles()[t].revealed()
                &&& after.map.tiles()[t].occupants() == standing(&self.coordinates, self.map.cell(t), n)
                &&& after.map.tiles()[t].blocked() == (self.map.tiles()[t].kind() == TileType::Wall || obstructed(
                    &self.coordinates,
                    self.blockers@,
                    self.map.cell(t),
                    n,
                ))
            }
    }

    /// The pass `pass` leads from this world to `after`.
    pub open spec fn passed(&self, pass: Pass, after: &World) -> bool {
        match pass {
            Pass::Initiative => self.scheduled(after),
            Pass::MonsterAI => self.monsters_decided(after),
            Pass::Movement => self.moves_made(after),
            Pass::ItemPickup => self.items_picked_up(after),
            Pass::EffectUse => self.effects_used(after),
            Pass::Visibility => self.sights_refreshed(after),
            Pass::ShieldRegen => self.shields_regenerated(after),
            Pass::Death => self.dead_buried(after),
            Pass::PlayerInventory => self.inventory_listed(after),
            Pass::ClearTarget => self.targets_cleared(after),
            Pass::IndexMap => self.map_indexed(after),
        }
    }

    /// `stages` holds the worlds between the passes of a tick, from the
    /// world before the first pass of the schedule to the world after the
    /// last.
    pub open spec fn tick_stages(stages: Seq<World>) -> bool {
        &&& stages.len() == schedule().len() + 1
        &&& forall|i: int| 0 <= i < schedule().len() ==> (#[trigger] stages[i]).passed(schedule()[i], &stages[i + 1])
    }

    /// A tick leads from this world to `after`: the passes in the order
    /// of the schedule, each starting where the one before it ended.
    pub open spec fn ticked(&self, after: &World) -> bool {
        exists|stages: Seq<World>|
            stages[0] == *self && stages[schedule().len() as int] == *after && #[trigger] World::tick_stages(stages)
    }

    pub(crate) fn pass_initiative(&mut self)
        requires
            old(self).wf(),
        ensures
            final(self).wf(),
            old(self).scheduled(final(self)),
    {
        InitiativeSystem.run(&mut self.initiative);
        proof {
            lemma_one_turn_at_a_time(&old(self).initiative, &self.initiative);
        }
    }

    pub(crate) fn pass_monsters(&mut self)
        requires
            old(self).wf(),
        ensures
            final(self).wf(),
            old(self).monsters_decided(final(self)),
    {
        let senses = Senses {
            map: &self.map,
            player: self.player,
            monsters: &self.monsters,
            coordinates: &self.coordinates,
            viewsheds: &self.viewsheds,
            usables: &self.usables,
        };
        MonsterAISystem.run(&senses, &mut self.intents, &mut self.initiative);
        proof {
            assert forall|e: Entity| self.initiative.has_initiative@.contains_key(e) implies old(
                self,
            ).initiative.has_initiative@.contains_key(e) by {
                self.initiative.has_initiative.lemma_key_storable(e);
                assert(self.initiative.has_initiative.slot(e.index as int) == senses.turn_spent(
                    &old(self).initiative.has_initiative,
                    e.index as int,
                ));
            }
        }
    }

    pub(crate) fn pass_movement(&mut self)
        requires
            old(self).wf(),
        ensures
            final(self).wf(),
            old(self).moves_made(final(self)),
    {
        MovementSystem.run(&self.map, &mut self.intents.wants_to_move, &mut self.coordinates, &mut self.viewsheds);
        proof {
            self.map.lemma_size();
            assert forall|e: Entity| self.coordinates@.contains_key(e) implies (#[trigger] self.coordinates@[e])@.in_reach() by {
                assert(old(self).coordinates@[e]@.in_reach());
            }
            assert forall|e: Entity| self.viewsheds@.contains_key(e) implies (#[trigger] self.viewsheds@[e]).wf() by {
                assert(old(self).viewsheds@[e].wf());
                old(self).viewsheds@[e].lemma_touched();
            }
        }
    }

    pub(crate) fn pass_pickup(&mut self)
        requires
            old(self).wf(),
        ensures
            final(self).wf(),
            old(self).items_picked_up(final(self)),
    {
        ItemPickupSystem.run(
            self.player,
            &mut self.game_log,
            &mut self.intents.wants_to_pick_up,
            &mut self.coordinates,
            &self.names,
            &mut self.in_inventory,
        );
        proof {
            assert forall|e: Entity| self.coordinates@.contains_key(e) implies (#[trigger] self.coordinates@[e])@.in_reach() by {
                assert(old(self).coordinates@[e]@.in_reach());
            }
        }
    }

    pub(crate) fn pass_effects(&mut self)
        requires
            old(self).wf(),
        ensures
            final(self).wf(),
            old(self).effects_used(final(self)),
    {
        EffectUseSystem.run(
            &mut self.entities,
            &self.items,
            &mut self.durabilities,
            &mut self.intents.being_used,
            &self.deals_damage,
            &self.provides_healing,
            &mut self.in_inventory,
            &self.names,
            &mut self.game_log,
        );
    }

    pub(crate) fn pass_visibility(&mut self)
        requires
            old(self).wf(),
        ensures
            final(self).wf(),
            old(self).sights_refreshed(final(self)),
    {
        VisibilitySystem.run(self.player, &mut self.map, &self.coordinates, &mut self.viewsheds);
    }

    pub(crate) fn pass_shields(&mut self)
        requires
            old(self).wf(),
        ensures
            final(self).wf(),
            old(self).shields_regenerated(final(self)),
    {
        ShieldRegenSystem.run(&mut self.durabilities, &self.initiative.has_initiative);
    }

    pub(crate) fn pass_deaths(&mut self)
        requires
            old(self).wf(),
        ensures
            final(self).wf(),
            old(self).dead_buried(final(self)),
    {
        DeathSystem.run(
            &mut self.entities,
            &self.players,
            &self.names,
            &mut self.durabilities,
            &mut self.coordinates,
            &mut self.game_log,
        );
        proof {
            assert forall|e: Entity| self.coordinates@.contains_key(e) implies (#[trigger] self.coordinates@[e])@.in_reach() by {
                assert(old(self).coordinates@[e]@.in_reach());
            }
        }
    }

    pub(crate) fn pass_inventory(&mut self)
        requires
            old(self).wf(),
        ensures
            final(self).wf(),
            old(self).inventory_listed(final(self)),
    {
        PlayerInventorySystem.run(&mut self.inventory, self.player, &self.entities, &self.in_inventory);
    }

    pub(crate) fn pass_targets(&mut self)
        requires
            old(self).wf(),
        ensures
            final(self).wf(),
            old(self).targets_cleared(final(self)),
    {
        ClearTargetSystem.run(&mut self.targeting.targets, &self.coordinates, &self.viewsheds);
    }

    pub(crate) fn pass_index(&mut self)
        requires
            old(self).wf(),
        ensures
            final(self).wf(),
            old(self).map_indexed(final(self)),
    {
        IndexMapSystem.run(&mut self.map, &self.coordinates, &self.blockers);
    }
}

} // verus!
