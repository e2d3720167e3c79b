//! A plainer state machine of the game, in which the player's command
//! becomes an action that is taken in a state of its own.

use crate::action::{take_action, Action, ActionError};
use crate::engine::{dispatcher, round, Dispatcher};
use crate::hex_coordinates::MAX_SPAN;
use crate::input::{direction_of, Input, Key};
use crate::level_builder::{build_level, DeckBuilder};
use crate::simple::{shown, visualize_map, MapVisualizerState, MIN_MAP_SIZE};
use crate::world::World;
use bracket_lib::random::RandomNumberGenerator;
use vstd::prelude::*;

verus! {

/// The letter `M`, counted from `A`.
pub const KEY_M: u8 = 12;

/// The letter `N`, counted from `A`.
pub const KEY_N: u8 = 13;

/// What the game is doing.
#[derive(Clone, Copy, Debug, PartialEq, Eq, Structural)]
pub enum RunState {
    /// The main menu is shown.
    MainMenu,
    /// A level is awaited.
    NewGame,
    /// The player's command is awaited.
    AwaitingInput,
    /// The player's action is to be taken.
    PlayerAction(Action),
    /// The world runs for a tick.
    Running,
    /// A map is dug and shown.
    GenerateMap(MapVisualizerState),
}

/// The game: a world, the dispatcher of its passes and the state of play.
pub struct State {
    pub world: World,
    pub dispatcher: Dispatcher,
    pub run_state: RunState,
}

/// What a key means in the main menu: `N` starts a game, `M` shows a map.
pub open spec fn menu_choice(key: Option<Key>) -> RunState {
    match key {
        Some(Key::Letter(letter)) => if letter == KEY_N {
            RunState::NewGame
        } else if letter == KEY_M {
            RunState::GenerateMap(MapVisualizerState::Setup)
        } else {
            RunState::MainMenu
        },
        _ => RunState::MainMenu,
    }
}

/// What a key means while the player is awaited: a movement key asks for a
/// move, any other key for nothing.
pub open spec fn command(key: Option<Key>) -> RunState {
    match key {
        Some(key) => match direction_of(key) {
            Some(direction) => RunState::PlayerAction(Action::Move(direction)),
            None => RunState::AwaitingInput,
        },
        None => RunState::AwaitingInput,
    }
}

/// The state that follows the taking of an action: the world runs after an
/// action that was taken, and the player is awaited again after one that
/// was not.
pub open spec fn after_action(verdict: Result<(), ActionError>) -> RunState {
    match verdict {
        Ok(_) => RunState::Running,
        Err(_) => RunState::AwaitingInput,
    }
}

impl State {
    /// A game with an empty world, at the main menu.
    pub fn new() -> (state: Self)
        ensures
            state.world.wf(),
            state.run_state == RunState::MainMenu,
            state.world.intents.is_clear(),
    {
        State { world: World::new(), dispatcher: dispatcher(), run_state: RunState::MainMenu }
    }

    /// One step of the state machine. In the main menu and while the
    /// player is awaited, a key chooses what follows. The player's action is
    /// taken, or rejected. The running world runs for a tick, carries out
    /// the destructions that were asked for, and awaits the player. While a
    /// level is awaited or a map is shown, nothing happens.
    pub fn tick(&mut self, input: &Input) -> (next: RunState)
        requires
            old(self).world.wf(),
        ensures
            final(self).world.wf(),
            final(self).run_state == next,
            match old(self).run_state {
                RunState::MainMenu => next == menu_choice(input.key) && final(self).world == old(self).world,
                RunState::NewGame => next == RunState::NewGame && final(self).world == old(self).world,
                RunState::AwaitingInput => next == command(input.key) && final(self).world == old(self).world,
                RunState::PlayerAction(action) => {
                    let verdict = old(self).world.action_verdict(old(self).world.player, action);
                    next == after_action(verdict) && old(self).world.action_taken(
                        old(self).world.player,
                        action,
                        &final(self).world,
                        verdict,
                    )
                },
                RunState::Running => next == RunState::AwaitingInput && round(
                    &old(self).world,
                    &final(self).world,
                ),
                RunState::GenerateMap(state) => next == RunState::GenerateMap(state) && final(self).world == old(
                    self,
                ).world,
            },
    {
        let next: RunState = match self.run_state {
            RunState::MainMenu => match input.key {
                Some(Key::Letter(letter)) => {
                    if letter == KEY_N {
                        RunState::NewGame
                    } else if letter == KEY_M {
                        RunState::GenerateMap(MapVisualizerState::Setup)
                    } else {
                        RunState::MainMenu
                    }
                },
                _ => RunState::MainMenu,
            },
            RunState::NewGame => RunState::NewGame,
            RunState::AwaitingInput => match input.key {
                Some(key) => match key.direction() {
                    Some(direction) => RunState::PlayerAction(Action::Move(direction)),
                    None => RunState::AwaitingInput,
                },
                None => RunState::AwaitingInput,
            },
            RunState::PlayerAction(action) => {
                let player = self.world.player;
                match take_action(&mut self.world, player, action) {
                    Ok(_) => RunState::Running,
                    Err(_) => RunState::AwaitingInput,
                }
            },
            RunState::Running => {
                self.run_round();
                RunState::AwaitingInput
            },
            RunState::GenerateMap(state) => RunState::GenerateMap(state),
        };
        self.run_state = next;
        next
    }

    /// A tick and the destructions it asked for.
    fn run_round(&mut self)
        requires
            old(self).world.wf(),
        ensures
            final(self).world.wf(),
            final(self).run_state == old(self).run_state,
            round(&old(self).world, &final(self).world),
    {
        let ghost before = self.world;
        self.dispatcher.dispatch(&mut self.world);
        let ghost ticked = self.world;
        self.world.maintain();
        proof {
            assert(before.ticked(&ticked) && ticked.maintained(&self.world));
        }
    }

    /// Starts a game on the level of the deck, if a level is awaited: the
    /// world is populated, runs for a tick, and awaits the player.
    pub fn start(&mut self, deck: DeckBuilder) -> (next: RunState)
        requires
            old(self).world.wf(),
            deck.wf(),
        ensures
            final(self).world.wf(),
            final(self).run_state == next,
            old(self).run_state != RunState::NewGame ==> *final(self) == *old(self),
            old(self).run_state == RunState::NewGame ==> next == RunState::AwaitingInput && exists|populated: World|
                populated.map == deck.map && #[trigger] round(&populated, &final(self).world),
    {
        if self.run_state == RunState::NewGame {
            build_level(&mut self.world, deck);
            let ghost populated = self.world;
            self.run_round();
            proof {
                assert(round(&populated, &self.world));
            }
            self.run_state = RunState::AwaitingInput;
        }
        self.run_state
    }

    /// Digs and shows a map of the given size, if a map is to be shown.
    pub fn generate_map(&mut self, width: i32, height: i32, rng: &mut RandomNumberGenerator) -> (next: RunState)
        requires
            old(self).world.wf(),
            MIN_MAP_SIZE <= width <= MAX_SPAN,
            MIN_MAP_SIZE <= height <= MAX_SPAN,
        ensures
            final(self).world.wf(),
            final(self).run_state == next,
            match old(self).run_state {
                RunState::GenerateMap(state) => {
                    &&& next == RunState::GenerateMap(MapVisualizerState::Idle)
                    &&& state == MapVisualizerState::Idle ==> final(self).world == old(self).world
                    &&& state == MapVisualizerState::Setup ==> shown(
                        &old(self).world,
                        &final(self).world,
                        width as int,
                        height as int,
                    )
                },
                _ => *final(self) == *old(self),
            },
    {
        match self.run_state {
            RunState::GenerateMap(state) => {
                let now = visualize_map(&mut self.world, state, width, height, rng);
                self.run_state = RunState::GenerateMap(now);
            },
            _ => {},
        }
        self.run_state
    }
}

} // verus!
