//! Simulation core of a turn-based roguelike played on a hexagonal grid.

pub mod action;
pub mod ai;
pub mod appearance;
pub mod bisection_generator;
pub mod character_sheet;
pub mod coordinate_set;
pub mod durability;
pub mod effect;
pub mod engine;
pub mod entity;
pub mod field_of_view;
pub mod game;
pub mod game_log;
pub mod hex_coordinates;
pub mod initiative;
pub mod input;
pub mod intents;
pub mod inventory;
pub mod item;
pub mod level_builder;
pub mod map;
pub mod map_index;
pub mod melee_combat;
pub mod movement;
pub mod pathfinding;
pub mod player_turn;
pub mod random;
pub mod simple;
pub mod spawner;
pub mod store;
pub mod targeting;
pub mod template;
pub mod tick;
pub mod tile;
pub mod usage;
pub mod world;

pub use action::{take_action, Action, ActionError};
pub use ai::{MonsterAISystem, Senses};
pub use appearance::Appearance;
pub use bisection_generator::add_walls;
pub use character_sheet::{CharacterSheet, MaintainCharacterSheetSystem};
pub use coordinate_set::CoordinateSet;
pub use durability::{DeathSystem, Durability, ShieldRegenSystem};
pub use effect::{BeingUsed, DealsDamage, EffectUseSystem, ProvidesHealing, Usable};
pub use engine::{dispatcher, main_menu, Dispatcher, GameEngine, Pass, RunState};
pub use entity::{
    alien_hatchling, grenade, infected_crewmember, player, repair_kit, spawn_table, EntityBuilder, Item,
    Monster, Player, SpawnBuilder,
};
pub use field_of_view::{Viewshed, VisibilitySystem};
pub use game::State;
pub use game_log::{GameLog, LogEntry};
pub use hex_coordinates::{Coordinate, Direction};
pub use initiative::{HasInitiative, Initiative, InitiativeData, InitiativeSystem};
pub use input::{Input, Key};
pub use intents::Intents;
pub use item::ItemUseSystem;
pub use inventory::{InInventory, Inventory, ItemPickupSystem, PlayerInventorySystem, WantsToPickUp};
pub use level_builder::{build_level, build_map, DeckBuilder};
pub use map::HexMap;
pub use map_index::{BlocksTile, IndexMapSystem};
pub use melee_combat::{in_melee_range, MeleeCombatSystem, WantsToMelee};
pub use movement::{is_legal_move, MovementSystem, WantsToMove};
pub use simple::{visualize_map, MapBuilder, MapVisualizerState, SimpleMapBuilder};
pub use spawner::{generate_regions, spawn_region, Dice};
pub use store::{Entities, Entity, Storage};
pub use player_turn::{handle_input, use_ground_effect, PlayerTurn};
pub use targeting::{ClearTargetSystem, Target, Targeting, TargetingReticule};
pub use template::{add_engines, empty_deck};
pub use tile::{Tile, TileType};
pub use usage::{try_use_effect, EffectError, EffectTarget, EffectUsage};
pub use world::{nobody, Intent, TurnError, World};
