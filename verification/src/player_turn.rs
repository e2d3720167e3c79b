//! The player's commands. A command that cannot be carried out is rejected
//! with its reason; it changes no wish and does not spend the turn.

use crate::effect::Usable;
use crate::engine::RunState;
use crate::hex_coordinates::{Coordinate, Direction, Hex};
use crate::initiative::turn_ended;
use crate::intents::asked_to_move;
use crate::input::{direction_of, slot_of_key, Input, Key, KEY_G};
use crate::movement::{is_legal_move, WantsToMove};
use crate::inventory::WantsToPickUp;
use crate::store::{lemma_put_keys, put, Entity};
use crate::targeting::{
    candidate_after, candidate_before, reticule_cursor, reticule_flow, target_of, Target, TargetingReticule,
};
use core::ops::ControlFlow;
use crate::usage::{ground_verdict, queued, target_verdict, EffectUsage};
use crate::world::{TurnError, World};
use vstd::prelude::*;

verus! {

/// The player's commands.
pub struct PlayerTurn;

impl World {
    /// The first monster on the cell `h`, if the cell lies on the map and a
    /// monster stands on it.
    pub open spec fn foe_at(&self, h: Hex) -> Option<Entity> {
        if self.map.contains(h) {
            self.map.tile_at(h).first_occupant_in(self.monsters@)
        } else {
            None
        }
    }

    /// The first item on the cell `h`, if the cell lies on the map and an
    /// item lies on it.
    pub open spec fn item_at(&self, h: Hex) -> Option<Entity> {
        if self.map.contains(h) {
            self.map.tile_at(h).first_occupant_in(self.items@)
        } else {
            None
        }
    }

    /// What `attack_or_move` answers.
    pub open spec fn step_verdict(&self, direction: Direction) -> Result<RunState, TurnError> {
        if !self.coordinates@.contains_key(self.player) {
            Err(TurnError::NotOnMap)
        } else {
            let dest = self.coordinates@[self.player]@.step(direction);
            match self.foe_at(dest) {
                Some(foe) => match target_verdict(
                    self.usables@,
                    self.coordinates@,
                    self.durabilities@,
                    self.player,
                    self.player,
                    foe,
                ) {
                    Ok(_) => Ok(RunState::Running),
                    Err(reason) => Err(TurnError::Effect(reason)),
                },
                None => if self.map.legal(dest) {
                    Ok(RunState::Running)
                } else {
                    Err(TurnError::MovementBlocked)
                },
            }
        }
    }

    /// What `pick_up_item` answers.
    pub open spec fn pickup_verdict(&self) -> Result<RunState, TurnError> {
        if !self.coordinates@.contains_key(self.player) {
            Err(TurnError::NotOnMap)
        } else if self.item_at(self.coordinates@[self.player]@) is None {
            Err(TurnError::NothingToPickUp)
        } else {
            Ok(RunState::Running)
        }
    }

    /// What `use_item` answers.
    pub open spec fn item_verdict(&self, index: int) -> Result<RunState, TurnError> {
        if !(0 <= index < self.inventory.0@.len()) {
            Err(TurnError::NoSuchItem)
        } else {
            let item = self.inventory.0@[index];
            if !self.usables@.contains_key(item) {
                Err(TurnError::NotUsable)
            } else {
                match self.usables@[item] {
                    Usable::OnSelf => Ok(RunState::Running),
                    Usable::OnTarget { range } => match target_of(self.targeting.targets@, self.player) {
                        None => Err(TurnError::NoTarget),
                        Some(target) => match target_verdict(
                            self.usables@,
                            self.coordinates@,
                            self.durabilities@,
                            item,
                            self.player,
                            target.0,
                        ) {
                            Ok(_) => Ok(RunState::Running),
                            Err(reason) => Err(TurnError::Effect(reason)),
                        },
                    },
                    Usable::OnGround { range } => if self.coordinates@.contains_key(self.player) {
                        Ok(RunState::TargetGround(item))
                    } else {
                        Err(TurnError::NotOnMap)
                    },
                }
            }
        }
    }
}

impl World {
    /// The command to strike or move in `direction` leads from this world to
    /// `after` with the answer `r`.
    pub open spec fn struck_or_moved(&self, direction: Direction, after: &World, r: Result<RunState, TurnError>) -> bool {
        &&& r == self.step_verdict(direction)
        &&& after.same_but_wishes(self)
        &&& after.reticule == self.reticule
        &&& after.last_rejection == self.last_rejection
        &&& self.coordinates@.contains_key(self.player) ==> match self.foe_at(
            self.coordinates@[self.player]@.step(direction)
        ) {
            Some(foe) => {
                &&& after.targeting.targets@ == put(
                    self.targeting.targets@,
                    self.player,
                    Target(foe),
                )
                &&& r is Ok ==> queued(&self.intents, &after.intents, self.player, seq![foe])
            },
            None => {
                &&& after.targeting == self.targeting
                &&& r is Ok ==> asked_to_move(
                    &self.intents,
                    &after.intents,
                    self.player,
                    self.coordinates@[self.player]@.step(direction),
                )
            }
        }
        &&& r is Ok ==> turn_ended(&self.initiative, &after.initiative, self.player)
        &&& r is Err ==> after.intents == self.intents && after.initiative == self.initiative
        &&& !self.coordinates@.contains_key(self.player) ==> after.targeting == self.targeting
    }

    /// The command to pick up leads from this world to `after` with the answer
    /// `r`.
    pub open spec fn picked_up(&self, after: &World, r: Result<RunState, TurnError>) -> bool {
        &&& r == self.pickup_verdict()
        &&& after.same_but_wishes(self)
        &&& after.targeting == self.targeting
        &&& after.reticule == self.reticule
        &&& after.last_rejection == self.last_rejection
        &&& r is Err ==> after.intents == self.intents && after.initiative == self.initiative
        &&& r is Ok ==> {
            &&& turn_ended(&self.initiative, &after.initiative, self.player)
            &&& after.intents.wants_to_pick_up@ == put(
                self.intents.wants_to_pick_up@,
                self.player,
                WantsToPickUp(self.item_at(self.coordinates@[self.player]@).unwrap()),
            )
            &&& after.intents.wants_to_move == self.intents.wants_to_move
            &&& after.intents.being_used == self.intents.being_used
        }
    }

    /// The command to use the item in slot `index` leads from this world to
    /// `after` with the answer `r`.
    pub open spec fn item_used(&self, index: usize, after: &World, r: Result<RunState, TurnError>) -> bool {
        &&& r == self.item_verdict(index as int)
        &&& after.same_but_wishes(self)
        &&& after.targeting == self.targeting
        &&& after.last_rejection == self.last_rejection
        &&& r is Err ==> *after == *self
        &&& r is Ok ==> {
            let item = self.inventory.0@[index as int];
            match self.usables@[item] {
                Usable::OnSelf => {
                    &&& queued(&self.intents, &after.intents, item, seq![self.player])
                    &&& turn_ended(&self.initiative, &after.initiative, self.player)
                    &&& after.reticule == self.reticule
                },
                Usable::OnTarget { range } => {
                    &&& queued(
                        &self.intents,
                        &after.intents,
                        item,
                        seq![self.targeting.targets@[self.player].0],
                    )
                    &&& turn_ended(&self.initiative, &after.initiative, self.player)
                    &&& after.reticule == self.reticule
                },
                Usable::OnGround { range } => {
                    &&& after.intents == self.intents
                    &&& after.initiative == self.initiative
                    &&& after.reticule is Some
                    &&& after.reticule.unwrap().cursor == self.coordinates@[self.player]
                    &&& after.reticule.unwrap().coordinates@ == self.map.affected_from(
                        self.coordinates@[self.player]@,
                        range as int,
                    )
                },
            }
        }
    }

    /// The command to move the target on leads from this world to `after`
    /// with the answer `r`.
    pub open spec fn target_cycled(&self, rev: bool, after: &World, r: Result<RunState, TurnError>) -> bool {
        &&& after.same_but_wishes(self)
        &&& after.intents == self.intents
        &&& after.initiative == self.initiative
        &&& after.reticule == self.reticule
        &&& after.last_rejection == self.last_rejection
        &&& r == if self.viewsheds@.contains_key(self.player) {
            Ok::<RunState, TurnError>(RunState::AwaitingInput)
        } else {
            Err(TurnError::NotOnMap)
        }
        &&& r is Err ==> after.targeting == self.targeting
        &&& r is Ok ==> after.targeting.targets@ == match self.next_choice(rev) {
            Some(choice) => put(self.targeting.targets@, self.player, Target(choice)),
            None => self.targeting.targets@
        }
    }

    /// The command that the key stands for leads from this world to `after`
    /// with the answer `r`.
    pub open spec fn commanded(&self, input: Input, after: &World, r: Result<RunState, TurnError>) -> bool {
        let awaited = r == Ok::<RunState, TurnError>(RunState::AwaitingInput) && *after == *self;
        match input.key {
            None => awaited,
            Some(key) => if input.control && slot_of_key(key) is Some {
                self.item_used(slot_of_key(key).unwrap() as usize, after, r)
            } else if direction_of(key) is Some {
                self.struck_or_moved(direction_of(key).unwrap(), after, r)
            } else {
                match key {
                    Key::Tab => self.target_cycled(input.shift, after, r),
                    Key::Letter(letter) => if letter == KEY_G {
                        self.picked_up(after, r)
                    } else {
                        awaited
                    },
                    Key::Escape => r == Ok::<RunState, TurnError>(RunState::Quitting) && *after == *self,
                    _ => awaited,
                }
            },
        }
    }

    /// This world with another last rejection.
    pub open spec fn stamped(&self, rejection: Option<TurnError>) -> World {
        World { last_rejection: rejection, ..*self }
    }
}

impl PlayerTurn {
    /// Strikes the monster that stands one step away in `direction`, or,
    /// if there is none, asks to move there. Either ends the player's
    /// turn. A monster in the way becomes the player's target even if the
    /// strike is rejected.
    pub fn attack_or_move(world: &mut World, direction: Direction) -> (r: Result<RunState, TurnError>)
        requires
            old(world).wf(),
        ensures
            final(world).wf(),
            old(world).struck_or_moved(direction, final(world), r),
    {
        let player = world.player;
        let pos: Coordinate = match world.coordinates.get(player) {
            Some(pos) => *pos,
            None => {
                return Err(TurnError::NotOnMap);
            },
        };
        proof {
            world.coordinates.lemma_key_storable(player);
            assert(pos@.in_reach());
        }
        let dest = pos.step(direction);
        let foe: Option<Entity> = match world.map.tile(dest) {
            Some(tile) => tile.entity(&world.monsters),
            None => None,
        };
        match foe {
            Some(target) => {
                world.targeting.set_target(player, Some(target));
                match EffectUsage::use_on_target(
                    &mut world.intents,
                    &world.usables,
                    &world.coordinates,
                    &world.durabilities,
                    player,
                    player,
                    target,
                ) {
                    Ok(_) => {},
                    Err(reason) => {
                        return Err(TurnError::Effect(reason));
                    },
                }
                world.initiative.spend_turn(player);
            },
            None => {
                if !is_legal_move(&world.map, dest) {
                    return Err(TurnError::MovementBlocked);
                }
                proof {
                    lemma_put_keys(world.intents.wants_to_move@, player, WantsToMove(dest));
                }
                world.intents.wants_to_move(player, dest);
                world.initiative.spend_turn(player);
            },
        }
        Ok(RunState::Running)
    }

    /// Asks to pick up the first item on the player's cell, and ends the
    /// player's turn.
    pub fn pick_up_item(world: &mut World) -> (r: Result<RunState, TurnError>)
        requires
            old(world).wf(),
        ensures
            final(world).wf(),
            old(world).picked_up(final(world), r),
    {
        let player = world.player;
        let pos: Coordinate = match world.coordinates.get(player) {
            Some(pos) => *pos,
            None => {
                return Err(TurnError::NotOnMap);
            },
        };
        proof {
            world.coordinates.lemma_key_storable(player);
        }
        let found: Option<Entity> = match world.map.tile(pos) {
            Some(tile) => tile.entity(&world.items),
            None => None,
        };
        let item: Entity = match found {
            Some(item) => item,
            None => {
                return Err(TurnError::NothingToPickUp);
            },
        };
        world.intents.wants_to_pick_up(player, item);
        world.initiative.spend_turn(player);
        Ok(RunState::Running)
    }

    /// Uses the item in slot `index` of the inventory: on the player, on
    /// the player's target, or, for an item that is used on the ground, by
    /// showing the reticule with which the player picks the cell.
    pub fn use_item(world: &mut World, index: usize) -> (r: Result<RunState, TurnError>)
        requires
            old(world).wf(),
        ensures
            final(world).wf(),
            old(world).item_used(index, final(world), r),
    {
        let player = world.player;
        if index >= world.inventory.0.len() {
            return Err(TurnError::NoSuchItem);
        }
        let item: Entity = world.inventory.0[index];
        let usable: Usable = match world.usables.get(item) {
            Some(usable) => *usable,
            None => {
                return Err(TurnError::NotUsable);
            },
        };
        match usable {
            Usable::OnSelf => {
                match EffectUsage::use_on_self(&mut world.intents, &world.usables, item, player) {
                    Ok(_) => {},
                    Err(reason) => {
                        return Err(TurnError::Effect(reason));
                    },
                }
                world.initiative.spend_turn(player);
                Ok(RunState::Running)
            },
            Usable::OnTarget { range } => {
                let target: Entity = match world.targeting.get(player) {
                    Some(Target(target)) => target,
                    None => {
                        return Err(TurnError::NoTarget);
                    },
                };
                match EffectUsage::use_on_target(
                    &mut world.intents,
                    &world.usables,
                    &world.coordinates,
                    &world.durabilities,
                    item,
                    player,
                    target,
                ) {
                    Ok(_) => {},
                    Err(reason) => {
                        return Err(TurnError::Effect(reason));
                    },
                }
                world.initiative.spend_turn(player);
                Ok(RunState::Running)
            },
            Usable::OnGround { range } => {
                let player_pos: Coordinate = match world.coordinates.get(player) {
                    Some(pos) => *pos,
                    None => {
                        return Err(TurnError::NotOnMap);
                    },
                };
                assert(player_pos@.in_reach());
                assert(match world.usables@[item] {
                    Usable::OnGround { range } => range <= crate::hex_coordinates::MAX_SPAN,
                    _ => true,
                });
                let targeting_reticule = TargetingReticule::new(player_pos, range, &world.map);
                world.reticule = Some(targeting_reticule);
                Ok(RunState::TargetGround(item))
            },
        }
    }

    /// Moves the player's target to the next monster in view, or to the
    /// one before with `rev`. The candidates are the monsters that stand
    /// where the player sees, by increasing index. Where the current target
    /// has no neighbor on that side, the target stays.
    pub fn cycle_target(world: &mut World, rev: bool) -> (r: Result<RunState, TurnError>)
        requires
            old(world).wf(),
        ensures
            final(world).wf(),
            old(world).target_cycled(rev, final(world), r),
    {
        let player = world.player;
        let potential_targets: Vec<Entity> = match world.viewsheds.get(player) {
            Some(viewshed) => {
                let n: usize = world.monsters.slots();
                let mut found: Vec<Entity> = Vec::new();
                let mut i: usize = 0;
                while i < n
                    invariant
                        0 <= i <= n,
                        n == world.monsters.slot_count(),
                        player == world.player,
                        *viewshed == world.viewsheds@[player],
                        world.viewsheds@.contains_key(player),
                        found@ == world.in_view(i as int),
                    decreases n - i,
                {
                    match world.monsters.entry(i) {
                        Some((entity, _)) => {
                            let visible: bool = match world.coordinates.get(entity) {
                                Some(pos) => viewshed.is_visible(*pos),
                                None => false,
                            };
                            if visible {
                                found.push(entity);
                            }
                        },
                        None => {},
                    }
                    i = i + 1;
                }
                found
            },
            None => {
                return Err(TurnError::NotOnMap);
            },
        };
        let choice: Option<Entity> = if rev {
            world.targeting.prev_target(player, &potential_targets)
        } else {
            world.targeting.next_target(player, &potential_targets)
        };
        if let Some(target) = choice {
            proof {
                world.viewsheds.lemma_key_storable(player);
            }
            world.targeting.set_target(player, Some(target));
        }
        Ok(RunState::AwaitingInput)
    }
}

impl World {
    /// The monsters in the slots below `upto` that stand where the player
    /// sees, by increasing slot.
    pub open spec fn in_view(&self, upto: int) -> Seq<Entity>
        decreases upto,
    {
        if upto <= 0 {
            Seq::empty()
        } else {
            match self.monsters.slot(upto - 1) {
                Some((e, _)) => if self.coordinates@.contains_key(e) && self.viewsheds@[self.player].visible().contains(
                    self.coordinates@[e]@,
                ) {
                    self.in_view(upto - 1).push(e)
                } else {
                    self.in_view(upto - 1)
                },
                None => self.in_view(upto - 1),
            }
        }
    }

    /// The monster that becomes the player's target when the target is
    /// moved on.
    pub open spec fn next_choice(&self, rev: bool) -> Option<Entity> {
        let candidates = self.in_view(self.monsters.slot_count() as int);
        if rev {
            candidate_before(target_of(self.targeting.targets@, self.player), candidates)
        } else {
            candidate_after(target_of(self.targeting.targets@, self.player), candidates)
        }
    }

    /// What a key means while the player is awaited.
    pub open spec fn command_verdict(&self, input: Input) -> Result<RunState, TurnError> {
        match input.key {
            None => Ok(RunState::AwaitingInput),
            Some(key) => if input.control && slot_of_key(key) is Some {
                self.item_verdict(slot_of_key(key).unwrap())
            } else if direction_of(key) is Some {
                self.step_verdict(direction_of(key).unwrap())
            } else {
                match key {
                    Key::Tab => if self.viewsheds@.contains_key(self.player) {
                        Ok(RunState::AwaitingInput)
                    } else {
                        Err(TurnError::NotOnMap)
                    },
                    Key::Letter(letter) => if letter == KEY_G {
                        self.pickup_verdict()
                    } else {
                        Ok(RunState::AwaitingInput)
                    },
                    Key::Escape => Ok(RunState::Quitting),
                    _ => Ok(RunState::AwaitingInput),
                }
            },
        }
    }
}

/// The command that the key stands for, followed by the destructions that
/// were asked for, leads from `before` to `after` and the state `state`. A
/// command that is carried out leaves no rejection; a rejected one leaves
/// its reason and the player awaited.
pub open spec fn handled(before: &World, input: Input, after: &World, state: RunState) -> bool {
    let verdict = before.command_verdict(input);
    &&& state == match verdict {
        Ok(next) => next,
        Err(_) => RunState::AwaitingInput,
    }
    &&& after.last_rejection == match verdict {
        Ok(_) => None::<TurnError>,
        Err(reason) => Some(reason),
    }
    &&& exists|commanded: World|
        #[trigger] before.commanded(input, &commanded, verdict) && commanded.maintained(
            &after.stamped(before.last_rejection),
        )
}

/// Carries out the command that a key stands for, and then the
/// destructions that were asked for. With Control a letter uses the item in
/// the letter's slot; `Q W E A S D` strike or move; Tab moves the target on,
/// or back with Shift; `G` picks up; Escape quits. A rejected command leaves
/// the player awaited, and its reason is kept in the world.
pub fn handle_input(input: &Input, world: &mut World) -> (state: RunState)
    requires
        old(world).wf(),
    ensures
        final(world).wf(),
        handled(old(world), *input, final(world), state),
{
    let verdict: Result<RunState, TurnError> = match input.key {
        None => Ok(RunState::AwaitingInput),
        Some(key) => {
            let slot: Option<usize> = if input.control {
                key.letter_to_option()
            } else {
                None
            };
            match slot {
                Some(index) => PlayerTurn::use_item(world, index),
                None => match key.direction() {
                    Some(direction) => PlayerTurn::attack_or_move(world, direction),
                    None => match key {
                        Key::Tab => PlayerTurn::cycle_target(world, input.shift),
                        Key::Letter(letter) => {
                            if letter == KEY_G {
                                PlayerTurn::pick_up_item(world)
                            } else {
                                Ok(RunState::AwaitingInput)
                            }
                        },
                        Key::Escape => Ok(RunState::Quitting),
                        _ => Ok(RunState::AwaitingInput),
                    },
                },
            }
        },
    };
    let ghost commanded = *world;
    world.maintain();
    let ghost maintained = *world;
    let state = match verdict {
        Ok(state) => {
            world.last_rejection = None;
            state
        },
        Err(reason) => {
            world.last_rejection = Some(reason);
            RunState::AwaitingInput
        },
    };
    proof {
        assert(world.stamped(old(world).last_rejection) == maintained);
        assert(old(world).commanded(*input, &commanded, old(world).command_verdict(*input)));
    }
    state
}

impl World {
    /// A key for the reticule with which the cell for `effect` is picked
    /// leads from this world to `after` and the state `state`.
    pub open spec fn ground_targeted(&self, effect: Entity, input: Input, after: &World, state: RunState) -> bool {
        &&& after.same_but_wishes(self)
        &&& after.targeting == self.targeting
        &&& match self.reticule {
                None => state == RunState::AwaitingInput && *after == *self,
                Some(reticule) => match reticule_flow(reticule.cursor, input.key) {
                    ControlFlow::Continue(_) => {
                        &&& state == RunState::TargetGround(effect)
                        &&& after.intents == self.intents
                        &&& after.initiative == self.initiative
                        &&& after.last_rejection == self.last_rejection
                        &&& after.reticule is Some
                        &&& after.reticule.unwrap().coordinates == reticule.coordinates
                        &&& after.reticule.unwrap().cursor@ == reticule_cursor(
                            reticule.coordinates@,
                            reticule.cursor@,
                            input.key,
                        )
                    },
                    ControlFlow::Break(None) => {
                        &&& state == RunState::AwaitingInput
                        &&& after.reticule is None
                        &&& after.intents == self.intents
                        &&& after.initiative == self.initiative
                        &&& after.last_rejection == self.last_rejection
                    },
                    ControlFlow::Break(Some(cell)) => {
                        &&& after.reticule is None
                        &&& match ground_verdict(
                            self.usables@,
                            self.coordinates@,
                            &self.map,
                            effect,
                            self.player,
                            cell,
                        ) {
                            Ok(_) => {
                                &&& state == RunState::Running
                                &&& after.last_rejection is None
                                &&& queued(
                                    &self.intents,
                                    &after.intents,
                                    effect,
                                    self.map.tile_at(cell@).occupants(),
                                )
                                &&& turn_ended(&self.initiative, &after.initiative, self.player)
                            },
                            Err(reason) => {
                                &&& state == RunState::AwaitingInput
                                &&& after.last_rejection == Some(TurnError::Effect(reason))
                                &&& after.intents == self.intents
                                &&& after.initiative == self.initiative
                            },
                        }
                    },
                },
            }
    }
}

/// Lets the player pick the cell on which `effect` is used. A key moves
/// the reticule, picks the cell under it or gives up. On a pick the effect
/// is queued for the occupants of the cell and the player's turn ends; a
/// pick that is rejected leaves the player awaited, with the reason kept in
/// the world. Without a reticule the player is awaited.
pub fn use_ground_effect(effect: Entity, input: &Input, world: &mut World) -> (state: RunState)
    requires
        old(world).wf(),
    ensures
        final(world).wf(),
        old(world).ground_targeted(effect, *input, final(world), state),
{
    let mut shown: Option<TargetingReticule> = None;
    core::mem::swap(&mut world.reticule, &mut shown);
    let mut reticule: TargetingReticule = match shown {
        Some(reticule) => reticule,
        None => {
            return RunState::AwaitingInput;
        },
    };
    match reticule.handle_input(input.key) {
        ControlFlow::Continue(_) => {
            world.reticule = Some(reticule);
            RunState::TargetGround(effect)
        },
        ControlFlow::Break(None) => RunState::AwaitingInput,
        ControlFlow::Break(Some(target_pos)) => {
            let player = world.player;
            match EffectUsage::use_on_ground(
                &mut world.intents,
                &world.usables,
                &world.coordinates,
                &world.map,
                effect,
                player,
                target_pos,
            ) {
                Ok(_) => {
                    world.initiative.spend_turn(player);
                    world.last_rejection = None;
                    RunState::Running
                },
                Err(reason) => {
                    world.last_rejection = Some(TurnError::Effect(reason));
                    RunState::AwaitingInput
                },
            }
        },
    }
}

} // verus!
