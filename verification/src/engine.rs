//! The state machine of the game, and the tick that runs the resolver
//! passes in their order.

use crate::entity::SpawnBuilder;
use crate::game_log::LogEntry;
use crate::hex_coordinates::Coordinate;
use crate::input::{Input, Key};
use crate::level_builder::{build_level, settled, stands_as, DeckBuilder};
use crate::player_turn::{handle_input, handled, use_ground_effect};
use crate::store::Entity;
use crate::world::World;
use vstd::prelude::*;

verus! {

/// What the game is doing.
#[derive(Clone, Copy, Debug, PartialEq, Eq, Structural)]
pub enum RunState {
    /// The main menu is shown.
    MainMenu,
    /// A level is awaited.
    NewGame,
    /// The player's command is awaited.
    AwaitingInput,
    /// The player picks the cell on which to use the given effect.
    TargetGround(Entity),
    /// The world runs until it is the player's turn.
    Running,
    Quitting,
}

/// The resolver passes of a tick.
#[derive(Clone, Copy, Debug, PartialEq, Eq, Structural)]
pub enum Pass {
    Initiative,
    MonsterAI,
    Movement,
    ItemPickup,
    EffectUse,
    Visibility,
    ShieldRegen,
    Death,
    PlayerInventory,
    ClearTarget,
    IndexMap,
}

/// Runs the passes of a tick.
pub struct Dispatcher;

/// The pass `first` has to run before the pass `then`: monsters decide
/// after the scheduler and before movement; visibility follows movement;
/// shields and deaths follow the use of effects; the inventory follows
/// pickup and the use of effects; targets are cleared after visibility and
/// deaths; the map is indexed after movement, visibility and deaths.
pub open spec fn must_precede(first: Pass, then: Pass) -> bool {
    ||| first == Pass::Initiative && then == Pass::MonsterAI
    ||| first == Pass::MonsterAI && then == Pass::Movement
    ||| first == Pass::Movement && then == Pass::Visibility
    ||| first == Pass::EffectUse && then == Pass::ShieldRegen
    ||| first == Pass::EffectUse && then == Pass::Death
    ||| first == Pass::ItemPickup && then == Pass::PlayerInventory
    ||| first == Pass::EffectUse && then == Pass::PlayerInventory
    ||| first == Pass::Visibility && then == Pass::ClearTarget
    ||| first == Pass::Death && then == Pass::ClearTarget
    ||| first == Pass::Movement && then == Pass::IndexMap
    ||| first == Pass::Visibility && then == Pass::IndexMap
    ||| first == Pass::Death && then == Pass::IndexMap
}

/// The order in which a tick runs its passes.
pub open spec fn schedule() -> Seq<Pass> {
    seq![
        Pass::Initiative,
        Pass::MonsterAI,
        Pass::Movement,
        Pass::ItemPickup,
        Pass::EffectUse,
        Pass::Visibility,
        Pass::ShieldRegen,
        Pass::Death,
        Pass::PlayerInventory,
        Pass::ClearTarget,
        Pass::IndexMap,
    ]
}

/// The schedule holds every pass once, and each pass after those that
/// have to run before it.
pub proof fn lemma_schedule_respects_dependencies()
    ensures
        schedule().no_duplicates(),
        forall|pass: Pass| schedule().contains(pass),
        forall|i: int, j: int|
            0 <= i < schedule().len() && 0 <= j < schedule().len() && must_precede(schedule()[i], schedule()[j])
                ==> i < j,
{
    let s = schedule();
    assert(s.len() == 11);
    assert(s[0] == Pass::Initiative && s[1] == Pass::MonsterAI && s[2] == Pass::Movement && s[3] == Pass::ItemPickup
        && s[4] == Pass::EffectUse && s[5] == Pass::Visibility && s[6] == Pass::ShieldRegen && s[7] == Pass::Death
        && s[8] == Pass::PlayerInventory && s[9] == Pass::ClearTarget && s[10] == Pass::IndexMap);
    assert forall|pass: Pass| s.contains(pass) by {
        match pass {
            Pass::Initiative => assert(s[0] == pass),
            Pass::MonsterAI => assert(s[1] == pass),
            Pass::Movement => assert(s[2] == pass),
            Pass::ItemPickup => assert(s[3] == pass),
            Pass::EffectUse => assert(s[4] == pass),
            Pass::Visibility => assert(s[5] == pass),
            Pass::ShieldRegen => assert(s[6] == pass),
            Pass::Death => assert(s[7] == pass),
            Pass::PlayerInventory => assert(s[8] == pass),
            Pass::ClearTarget => assert(s[9] == pass),
            Pass::IndexMap => assert(s[10] == pass),
        }
    }
}

/// The dispatcher of the game's passes.
pub fn dispatcher() -> (d: Dispatcher) {
    Dispatcher
}

impl Dispatcher {
    /// The passes in the order in which `dispatch` runs them.
    pub fn passes(&self) -> (order: Vec<Pass>)
        ensures
            order@ == schedule(),
    {
        let mut order: Vec<Pass> = Vec::new();
        order.push(Pass::Initiative);
        order.push(Pass::MonsterAI);
        order.push(Pass::Movement);
        order.push(Pass::ItemPickup);
        order.push(Pass::EffectUse);
        order.push(Pass::Visibility);
        order.push(Pass::ShieldRegen);
        order.push(Pass::Death);
        order.push(Pass::PlayerInventory);
        order.push(Pass::ClearTarget);
        order.push(Pass::IndexMap);
        assert(order@ =~= schedule());
        order
    }

    /// Runs one tick: every pass once, in the order of the schedule. At
    /// the end of the tick no wish is pending, whatever was pending at its
    /// start. No entity is created or destroyed: destructions wait for
    /// `maintain`.
    pub fn dispatch(&self, world: &mut World)
        requires
            old(world).wf(),
        ensures
            final(world).wf(),
            old(world).ticked(final(world)),
            final(world).intents.is_clear(),
            final(world).same_cast(old(world)),
            final(world).map.same_ground(&old(world).map),
            final(world).reticule == old(world).reticule,
            final(world).last_rejection == old(world).last_rejection,
            final(world).entities.slot_count() == old(world).entities.slot_count(),
            forall|x: Entity| final(world).entities.alive(x) == old(world).entities.alive(x),
            forall|x: Entity| old(world).entities.doomed(x) ==> final(world).entities.doomed(x),
    {
        let ghost w0 = *world;
        world.pass_initiative();
        let ghost w1 = *world;
        world.pass_monsters();
        let ghost w2 = *world;
        world.pass_movement();
        let ghost w3 = *world;
        world.pass_pickup();
        let ghost w4 = *world;
        world.pass_effects();
        let ghost w5 = *world;
        world.pass_visibility();
        let ghost w6 = *world;
        world.pass_shields();
        let ghost w7 = *world;
        world.pass_deaths();
        let ghost w8 = *world;
        world.pass_inventory();
        let ghost w9 = *world;
        world.pass_targets();
        let ghost w10 = *world;
        world.pass_index();
        proof {
            let stages = seq![w0, w1, w2, w3, w4, w5, w6, w7, w8, w9, w10, *world];
            let order = schedule();
            assert(order.len() == 11);
            assert(order[0] == Pass::Initiative && order[1] == Pass::MonsterAI && order[2] == Pass::Movement
                && order[3] == Pass::ItemPickup && order[4] == Pass::EffectUse && order[5] == Pass::Visibility
                && order[6] == Pass::ShieldRegen && order[7] == Pass::Death && order[8] == Pass::PlayerInventory
                && order[9] == Pass::ClearTarget && order[10] == Pass::IndexMap);
            assert(stages[0] == w0 && stages[1] == w1 && stages[2] == w2 && stages[3] == w3 && stages[4] == w4
                && stages[5] == w5 && stages[6] == w6 && stages[7] == w7 && stages[8] == w8 && stages[9] == w9
                && stages[10] == w10 && stages[11] == *world);
            assert(stages[0].passed(order[0], &stages[1]) && stages[1].passed(order[1], &stages[2]));
            assert(stages[2].passed(order[2], &stages[3]) && stages[3].passed(order[3], &stages[4]));
            assert(stages[4].passed(order[4], &stages[5]) && stages[5].passed(order[5], &stages[6]));
            assert(stages[6].passed(order[6], &stages[7]) && stages[7].passed(order[7], &stages[8]));
            assert(stages[8].passed(order[8], &stages[9]) && stages[9].passed(order[9], &stages[10]));
            assert(stages[10].passed(order[10], &stages[11]));
            assert(World::tick_stages(stages));
        }
    }
}

/// A tick and the destructions it asked for lead from `before` to `after`.
pub open spec fn round(before: &World, after: &World) -> bool {
    exists|ticked: World| before.ticked(&ticked) && #[trigger] ticked.maintained(after)
}

/// `rounds` holds the worlds of a run: each but the last awaits the
/// player's turn, and a round leads from each to the next.
pub open spec fn run_rounds(rounds: Seq<World>) -> bool {
    &&& 1 <= rounds.len() <= MAX_TICKS_PER_FRAME + 1
    &&& forall|i: int|
        0 <= i < rounds.len() - 1 ==> !(#[trigger] rounds[i]).players_turn() && round(&rounds[i], &rounds[i + 1])
    &&& rounds[rounds.len() - 1].players_turn() || rounds.len() == MAX_TICKS_PER_FRAME + 1
}

/// Running leads from `before` to `after`: round after round until it is
/// the player's turn, or until [`MAX_TICKS_PER_FRAME`] rounds are done.
pub open spec fn ran(before: &World, after: &World) -> bool {
    exists|rounds: Seq<World>|
        rounds[0] == *before && rounds[rounds.len() - 1] == *after && #[trigger] run_rounds(rounds)
}

/// The state after running: the player is awaited when it is the player's
/// turn, and the world runs on otherwise.
pub open spec fn state_of(world: &World) -> RunState {
    if world.players_turn() {
        RunState::AwaitingInput
    } else {
        RunState::Running
    }
}

/// `start` is the world at the start of a game on the level of the deck:
/// the map is the deck's, every spawn of the deck is a living entity of its
/// kind on its cell, no wish is pending, and the log holds the welcome line.
pub open spec fn laid_out(deck: &DeckBuilder, start: &World) -> bool {
    &&& start.wf()
    &&& start.map == deck.map
    &&& start.intents.is_clear()
    &&& start.game_log@ == seq![LogEntry::Welcome]
    &&& forall|i: int| 0 <= i < deck.spawns@.len() ==> present(start, #[trigger] deck.spawns@[i])
}

/// The spawn is a living entity of its kind on its cell.
pub open spec fn present(world: &World, spawn: (Coordinate, SpawnBuilder)) -> bool {
    exists|e: Entity| world.entities.alive(e) && stands_as(world, e, spawn)
}

/// Ticks that `run` spends at most before it hands control back.
pub const MAX_TICKS_PER_FRAME: usize = 1024;

/// The game: a world, the dispatcher of its passes and the state of play.
pub struct GameEngine {
    pub world: World,
    pub dispatcher: Dispatcher,
    pub run_state: RunState,
}

/// What a key means in the main menu: `N` starts a game, `Q` quits.
pub open spec fn menu_choice(key: Option<Key>) -> RunState {
    match key {
        Some(Key::Letter(letter)) => if letter == 13 {
            RunState::NewGame
        } else if letter == crate::input::KEY_Q {
            RunState::Quitting
        } else {
            RunState::MainMenu
        },
        _ => RunState::MainMenu,
    }
}

/// The state that follows the main menu after a key.
pub fn main_menu(key: Option<Key>) -> (state: RunState)
    ensures
        state == menu_choice(key),
{
    match key {
        Some(Key::Letter(letter)) => {
            if letter == 13 {
                RunState::NewGame
            } else if letter == crate::input::KEY_Q {
                RunState::Quitting
            } else {
                RunState::MainMenu
            }
        },
        _ => RunState::MainMenu,
    }
}

impl GameEngine {
    /// An engine with an empty world, waiting for a level.
    pub fn new() -> (engine: Self)
        ensures
            engine.world.wf(),
            engine.run_state == RunState::NewGame,
            engine.world.intents.is_clear(),
            forall|e: Entity| !engine.world.entities.alive(e),
    {
        GameEngine { world: World::new(), dispatcher: dispatcher(), run_state: RunState::NewGame }
    }

    /// Whether it is the player's turn.
    pub fn player_has_initiative(&self) -> (b: bool)
        ensures
            b == self.world.initiative.has_initiative@.contains_key(self.world.player),
    {
        self.world.player_has_initiative()
    }

    /// Runs ticks, each followed by the destructions it asked for, until
    /// it is the player's turn. After [`MAX_TICKS_PER_FRAME`] ticks the
    /// world is left running, to go on with the next call.
    pub fn run(&mut self) -> (state: RunState)
        requires
            old(self).world.wf(),
        ensures
            final(self).world.wf(),
            final(self).run_state == old(self).run_state,
            ran(&old(self).world, &final(self).world),
            state == state_of(&final(self).world),
            final(self).world.player == old(self).world.player,
            final(self).world.map.same_ground(&old(self).world.map),
    {
        let mut ticks: usize = 0;
        let ghost mut rounds: Seq<World> = seq![self.world];
        while ticks < MAX_TICKS_PER_FRAME && !self.player_has_initiative()
            invariant
                self.world.wf(),
                self.run_state == old(self).run_state,
                self.world.player == old(self).world.player,
                self.world.map.same_ground(&old(self).world.map),
                0 <= ticks <= MAX_TICKS_PER_FRAME,
                rounds.len() == ticks + 1,
                rounds[0] == old(self).world,
                rounds[ticks as int] == self.world,
                forall|i: int|
                    0 <= i < ticks ==> !(#[trigger] rounds[i]).players_turn() && round(&rounds[i], &rounds[i + 1]),
            decreases MAX_TICKS_PER_FRAME - ticks,
        {
            let ghost before = self.world;
            self.dispatcher.dispatch(&mut self.world);
            let ghost ticked = self.world;
            self.world.maintain();
            proof {
                assert(before.ticked(&ticked) && ticked.maintained(&self.world));
                assert(round(&before, &self.world));
                let longer = rounds.push(self.world);
                assert forall|i: int| 0 <= i < ticks + 1 implies !(#[trigger] longer[i]).players_turn() && round(
                    &longer[i],
                    &longer[i + 1],
                ) by {
                    if i < ticks {
                        assert(!rounds[i].players_turn() && round(&rounds[i], &rounds[i + 1]));
                    }
                }
                rounds = longer;
            }
            ticks = ticks + 1;
        }
        let here = self.player_has_initiative();
        proof {
            assert(run_rounds(rounds));
        }
        if here {
            RunState::AwaitingInput
        } else {
            RunState::Running
        }
    }

    /// Advances the world until the player may act, or until the ticks of
    /// a frame are spent.
    pub fn run_until_player_turn(&mut self) -> (state: RunState)
        requires
            old(self).world.wf(),
        ensures
            final(self).world.wf(),
            ran(&old(self).world, &final(self).world),
            state == state_of(&final(self).world),
            final(self).run_state == state,
    {
        let state = self.run();
        self.run_state = state;
        state
    }

    /// Starts a game on the level of the deck: the world is made anew and
    /// populated, and runs until it is the player's turn.
    pub fn new_game(&mut self, deck: DeckBuilder) -> (state: RunState)
        requires
            deck.wf(),
        ensures
            final(self).world.wf(),
            final(self).run_state == state,
            state == state_of(&final(self).world),
            final(self).world.map.same_ground(&deck.map),
            exists|start: World| #[trigger] laid_out(&deck, &start) && ran(&start, &final(self).world),
    {
        self.world = World::new();
        let ghost empty = self.world;
        build_level(&mut self.world, deck);
        let ghost start = self.world;
        proof {
            assert forall|i: int| 0 <= i < deck.spawns@.len() implies present(&start, #[trigger] deck.spawns@[i]) by {
                assert(settled(&empty, &start, deck.spawns@[i]));
            }
            assert(laid_out(&deck, &start));
        }
        let state = self.run();
        self.run_state = state;
        state
    }

    /// One step of the state machine. In the main menu a key chooses what
    /// follows. While a level is awaited nothing happens. While the player
    /// is awaited, or picks a cell, the key is taken as a command. While the
    /// world runs, it runs on until it is the player's turn.
    pub fn tick(&mut self, input: &Input) -> (state: RunState)
        requires
            old(self).world.wf(),
        ensures
            final(self).world.wf(),
            final(self).run_state == state,
            match old(self).run_state {
                RunState::MainMenu => state == menu_choice(input.key) && final(self).world == old(self).world,
                RunState::NewGame => state == RunState::NewGame && final(self).world == old(self).world,
                RunState::Quitting => state == RunState::Quitting && final(self).world == old(self).world,
                RunState::AwaitingInput => handled(&old(self).world, *input, &final(self).world, state),
                RunState::TargetGround(effect) => old(self).world.ground_targeted(
                    effect,
                    *input,
                    &final(self).world,
                    state,
                ),
                RunState::Running => state == state_of(&final(self).world) && ran(
                    &old(self).world,
                    &final(self).world,
                ),
            },
    {
        let state: RunState = match self.run_state {
            RunState::MainMenu => main_menu(input.key),
            RunState::NewGame => RunState::NewGame,
            RunState::AwaitingInput => handle_input(input, &mut self.world),
            RunState::TargetGround(effect) => use_ground_effect(effect, input, &mut self.world),
            RunState::Running => self.run(),
            RunState::Quitting => RunState::Quitting,
        };
        self.run_state = state;
        state
    }
}

} // verus!
