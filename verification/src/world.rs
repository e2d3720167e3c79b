//! The world: the registry of entities, the map and one table per kind of
//! component.

use crate::appearance::Appearance;
use crate::durability::{all_wf, Durability};
use crate::effect::{healing_wf, DealsDamage, ProvidesHealing, Usable};
use crate::entity::{Item, Monster, Player};
use crate::field_of_view::{lists, positions_in_reach, viewsheds_wf, Viewshed};
use crate::game_log::GameLog;
use crate::hex_coordinates::{hexes, Coordinate, MAX_SPAN};
use crate::initiative::{lemma_one_turn_at_a_time, scheduling_step, single_turn, Initiative, InitiativeData, InitiativeSystem};
use crate::intents::{asked_to_move, Intents};
use crate::inventory::{InInventory, Inventory, WantsToPickUp};
use crate::movement::WantsToMove;
use crate::map::HexMap;
use crate::map_index::BlocksTile;
use crate::store::{lemma_put_keys, put, Entities, Entity, Storage};
use crate::targeting::{Targeting, TargetingReticule};
use crate::usage::{queued, EffectError};
use vstd::prelude::*;

verus! {

/// Why the player's command was not carried out. A rejected command does
/// not spend the turn.
#[derive(Clone, Copy, Debug, PartialEq, Eq, Structural)]
pub enum TurnError {
    /// The player has no position or no viewshed.
    NotOnMap,
    MovementBlocked,
    NothingToPickUp,
    /// The inventory has no item in the slot asked for.
    NoSuchItem,
    /// The item has no use.
    NotUsable,
    /// The item needs a target, and the player has none.
    NoTarget,
    Effect(EffectError),
}

/// A wish that an agent records for the resolver passes of the tick.
#[derive(Clone, Copy, Debug, PartialEq, Eq, Structural)]
pub enum Intent {
    /// To move to a cell.
    Move(Coordinate),
    /// To pick up an item.
    PickUp(Entity),
    /// To be used, as an effect, on a target.
    Use(Entity),
}

/// Everything the simulation knows.
pub struct World {
    pub entities: Entities,
    pub map: HexMap,
    /// The player's entity; [`nobody`] before the player was spawned.
    pub player: Entity,
    pub inventory: Inventory,
    pub game_log: GameLog,
    pub initiative: InitiativeData,
    pub intents: Intents,
    pub targeting: Targeting,
    /// The cursor with which the player picks a cell, while it is shown.
    pub reticule: Option<TargetingReticule>,
    /// Why the player's last command was not carried out, if it was not.
    pub last_rejection: Option<TurnError>,
    pub players: Storage<Player>,
    pub monsters: Storage<Monster>,
    pub items: Storage<Item>,
    pub names: Storage<Appearance>,
    pub durabilities: Storage<Durability>,
    pub usables: Storage<Usable>,
    pub deals_damage: Storage<DealsDamage>,
    pub provides_healing: Storage<ProvidesHealing>,
    pub viewsheds: Storage<Viewshed>,
    pub blockers: Storage<BlocksTile>,
    pub coordinates: Storage<Coordinate>,
    pub in_inventory: Storage<InInventory>,
}

/// A handle that no entity ever has.
pub fn nobody() -> (e: Entity)
    ensures
        !e.storable(),
        e == vacant(),
{
    Entity { index: usize::MAX, generation: 0 }
}

/// The handle that no entity ever has.
pub open spec fn vacant() -> Entity {
    Entity { index: usize::MAX, generation: 0 }
}

/// No effect on the ground reaches farther than [`MAX_SPAN`].
pub open spec fn usables_wf(usables: Map<Entity, Usable>) -> bool {
    forall|e: Entity|
        usables.contains_key(e) ==> match #[trigger] usables[e] {
            Usable::OnGround { range } => range <= MAX_SPAN,
            _ => true,
        }
}

impl World {
    /// The invariant of the world: registry and map are well-formed, at
    /// most one entity holds the initiative, health and shields are within
    /// their bounds, no effect heals by a negative amount, and positions and
    /// ranges are within what the hex enumerations offer.
    pub open spec fn wf(&self) -> bool {
        &&& self.entities.wf()
        &&& self.map.wf()
        &&& single_turn(self.initiative.has_initiative@)
        &&& all_wf(self.durabilities@)
        &&& healing_wf(self.provides_healing@)
        &&& viewsheds_wf(self.viewsheds@)
        &&& positions_in_reach(self.coordinates@)
        &&& usables_wf(self.usables@)
        &&& match self.reticule {
            Some(reticule) => reticule.coordinates.wf(),
            None => true,
        }
    }

    /// The tables of what entities are, as opposed to what they wish and
    /// where they are, are the same in both worlds.
    pub open spec fn same_cast(&self, other: &World) -> bool {
        &&& self.player == other.player
        &&& self.players == other.players
        &&& self.monsters == other.monsters
        &&& self.items == other.items
        &&& self.names == other.names
        &&& self.usables == other.usables
        &&& self.deals_damage == other.deals_damage
        &&& self.provides_healing == other.provides_healing
        &&& self.blockers == other.blockers
    }

    /// The two worlds differ at most in wishes, turns, targets, the
    /// reticule and the last rejection.
    pub open spec fn same_but_wishes(&self, other: &World) -> bool {
        &&& self.same_cast(other)
        &&& self.entities == other.entities
        &&& self.map == other.map
        &&& self.inventory == other.inventory
        &&& self.game_log == other.game_log
        &&& self.durabilities == other.durabilities
        &&& self.viewsheds == other.viewsheds
        &&& self.coordinates == other.coordinates
        &&& self.in_inventory == other.in_inventory
    }

    /// An empty world: no entity, a map without tiles, a log with the
    /// welcome line.
    pub fn new() -> (world: Self)
        ensures
            world.wf(),
            world.player == vacant(),
            world.map.width() == 0,
            world.map.height() == 0,
            world.intents.is_clear(),
            world.game_log@ == seq![crate::game_log::LogEntry::Welcome],
            world.reticule is None,
            world.last_rejection is None,
            forall|e: Entity| !world.entities.alive(e),
            world.coordinates@ == Map::<Entity, Coordinate>::empty(),
            world.durabilities@ == Map::<Entity, Durability>::empty(),
            world.initiative.initiatives@ == Map::<Entity, Initiative>::empty(),
    {
        World {
            entities: Entities::new(),
            map: HexMap::new(0, 0),
            player: nobody(),
            inventory: Inventory::new(),
            game_log: GameLog::new(),
            initiative: InitiativeData::new(),
            intents: Intents::new(),
            targeting: Targeting::new(),
            reticule: None,
            last_rejection: None,
            players: Storage::new(),
            monsters: Storage::new(),
            items: Storage::new(),
            names: Storage::new(),
            durabilities: Storage::new(),
            usables: Storage::new(),
            deals_damage: Storage::new(),
            provides_healing: Storage::new(),
            viewsheds: Storage::new(),
            blockers: Storage::new(),
            coordinates: Storage::new(),
            in_inventory: Storage::new(),
        }
    }

    /// Carries out the destructions that were asked for: the entities
    /// marked for destruction cease to be alive, and every table loses what
    /// it held for them.
    pub fn maintain(&mut self)
        requires
            old(self).wf(),
        ensures
            final(self).wf(),
            old(self).maintained(final(self)),
    {
        let destroyed = self.entities.maintain();
        assert(destroyed@.to_set() =~= old(self).departing());
        self.coordinates.remove_all(&destroyed);
        self.durabilities.remove_all(&destroyed);
        self.names.remove_all(&destroyed);
        self.players.remove_all(&destroyed);
        self.monsters.remove_all(&destroyed);
        self.items.remove_all(&destroyed);
        self.usables.remove_all(&destroyed);
        self.deals_damage.remove_all(&destroyed);
        self.provides_healing.remove_all(&destroyed);
        self.viewsheds.remove_all(&destroyed);
        self.blockers.remove_all(&destroyed);
        self.in_inventory.remove_all(&destroyed);
        self.targeting.targets.remove_all(&destroyed);
        self.initiative.initiatives.remove_all(&destroyed);
        self.initiative.has_initiative.remove_all(&destroyed);
        self.intents.wants_to_move.remove_all(&destroyed);
        self.intents.wants_to_pick_up.remove_all(&destroyed);
        self.intents.being_used.remove_all(&destroyed);
    }

    /// `after` is this world once the destructions that were asked for are
    /// carried out: the entities marked for destruction are no longer alive,
    /// every table has lost what it held for them, and nothing else has
    /// changed.
    pub open spec fn maintained(&self, after: &World) -> bool {
        let gone = self.departing();
        &&& after.map == self.map
        &&& after.player == self.player
        &&& after.inventory == self.inventory
        &&& after.game_log == self.game_log
        &&& after.reticule == self.reticule
        &&& after.last_rejection == self.last_rejection
        &&& forall|x: Entity| after.entities.alive(x) == (self.entities.alive(x) && !self.entities.doomed(x))
        &&& forall|x: Entity| !after.entities.doomed(x)
        &&& after.entities.slot_count() == self.entities.slot_count()
        &&& after.coordinates@ == self.coordinates@.remove_keys(gone)
        &&& after.durabilities@ == self.durabilities@.remove_keys(gone)
        &&& after.names@ == self.names@.remove_keys(gone)
        &&& after.players@ == self.players@.remove_keys(gone)
        &&& after.monsters@ == self.monsters@.remove_keys(gone)
        &&& after.items@ == self.items@.remove_keys(gone)
        &&& after.usables@ == self.usables@.remove_keys(gone)
        &&& after.deals_damage@ == self.deals_damage@.remove_keys(gone)
        &&& after.provides_healing@ == self.provides_healing@.remove_keys(gone)
        &&& after.viewsheds@ == self.viewsheds@.remove_keys(gone)
        &&& after.blockers@ == self.blockers@.remove_keys(gone)
        &&& after.in_inventory@ == self.in_inventory@.remove_keys(gone)
        &&& after.targeting.targets@ == self.targeting.targets@.remove_keys(gone)
        &&& after.initiative.initiatives@ == self.initiative.initiatives@.remove_keys(gone)
        &&& after.initiative.has_initiative@ == self.initiative.has_initiative@.remove_keys(gone)
        &&& after.intents.wants_to_move@ == self.intents.wants_to_move@.remove_keys(gone)
        &&& after.intents.wants_to_pick_up@ == self.intents.wants_to_pick_up@.remove_keys(gone)
        &&& after.intents.being_used@ == self.intents.being_used@.remove_keys(gone)
    }

    /// It is the player's turn.
    pub open spec fn players_turn(&self) -> bool {
        self.initiative.has_initiative@.contains_key(self.player)
    }

    /// The entities that the next `maintain` destroys.
    pub open spec fn departing(&self) -> Set<Entity> {
        Set::new(|x: Entity| self.entities.doomed(x))
    }

    /// One step of the scheduler.
    pub fn step_scheduler(&mut self)
        requires
            old(self).wf(),
        ensures
            final(self).wf(),
            scheduling_step(&old(self).initiative, &final(self).initiative),
            final(self).same_but_wishes(old(self)),
            final(self).intents == old(self).intents,
            final(self).targeting == old(self).targeting,
            final(self).reticule == old(self).reticule,
            final(self).last_rejection == old(self).last_rejection,
    {
        InitiativeSystem.run(&mut self.initiative);
        proof {
            lemma_one_turn_at_a_time(&old(self).initiative, &self.initiative);
        }
    }

    /// Records a wish of `entity`, in place of a wish of the same kind that
    /// it had before.
    pub fn submit_intent(&mut self, entity: Entity, intent: Intent)
        requires
            entity.storable(),
        ensures
            final(self).same_but_wishes(old(self)),
            final(self).initiative == old(self).initiative,
            final(self).targeting == old(self).targeting,
            final(self).reticule == old(self).reticule,
            final(self).last_rejection == old(self).last_rejection,
            match intent {
                Intent::Move(dest) => asked_to_move(&old(self).intents, &final(self).intents, entity, dest@),
                Intent::PickUp(item) => {
                    &&& final(self).intents.wants_to_pick_up@ == put(
                        old(self).intents.wants_to_pick_up@,
                        entity,
                        WantsToPickUp(item),
                    )
                    &&& final(self).intents.wants_to_move == old(self).intents.wants_to_move
                    &&& final(self).intents.being_used == old(self).intents.being_used
                },
                Intent::Use(target) => queued(&old(self).intents, &final(self).intents, entity, seq![target]),
            },
    {
        match intent {
            Intent::Move(dest) => {
                proof {
                    lemma_put_keys(self.intents.wants_to_move@, entity, WantsToMove(dest));
                }
                self.intents.wants_to_move(entity, dest);
            },
            Intent::PickUp(item) => {
                self.intents.wants_to_pick_up(entity, item);
            },
            Intent::Use(target) => {
                self.intents.wants_to_use(entity, target);
            },
        }
    }

    /// A shortest route between two cells, if there is a route.
    pub fn query_path(&self, from: Coordinate, to: Coordinate) -> (route: Option<Vec<Coordinate>>)
        requires
            self.wf(),
        ensures
            route is Some <==> self.map.contains(from@) && self.map.reachable(from@, to@),
            route is Some ==> self.map.is_shortest_path(hexes(route.unwrap()@), from@, to@),
    {
        self.map.path(from, to)
    }

    /// The coordinates that `entity` saw when its viewshed was last
    /// computed, each once; `None` for an entity without a viewshed.
    pub fn query_visible(&self, entity: Entity) -> (cells: Option<&Vec<Coordinate>>)
        ensures
            cells is Some <==> self.viewsheds@.contains_key(entity),
            cells is Some ==> lists(cells.unwrap()@, self.viewsheds@[entity].visible()),
    {
        match self.viewsheds.get(entity) {
            Some(viewshed) => Some(viewshed.iter()),
            None => None,
        }
    }

    /// The first entity on the tile of `coord` that has a component in
    /// `table`; `None` off the map.
    pub fn query_occupant<T>(&self, coord: Coordinate, table: &Storage<T>) -> (found: Option<Entity>)
        requires
            self.wf(),
        ensures
            found == if self.map.contains(coord@) {
                self.map.tile_at(coord@).first_occupant_in(table@)
            } else {
                None
            },
    {
        match self.map.tile(coord) {
            Some(tile) => tile.entity(table),
            None => None,
        }
    }

    /// Whether it is the player's turn.
    pub fn player_has_initiative(&self) -> (b: bool)
        ensures
            b == self.players_turn(),
    {
        self.initiative.has_initiative.contains(self.player)
    }
}

} // verus!
