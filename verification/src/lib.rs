//! Ironveil: the rules of a terminal roguelike — items and their affixes,
//! the player and their abilities, dungeon maps, monster behaviour and the
//! turn-by-turn resolution of monster actions.
use vstd::prelude::*;

pub mod rng;
pub mod text;
pub mod items;
pub mod affixes;
pub mod player;
pub mod map;
pub mod projectile;
pub mod monster;
pub mod turn;
pub mod mapgen;
pub mod render;
pub mod caves;
pub mod layout;
pub mod populate;
pub mod machines;
pub mod dressing;
pub mod vaults;
pub mod lakes;
pub mod combat;
pub mod cleanup;
pub mod events;
pub mod guards;
pub mod game;
pub mod paths;

verus! {
} // verus!
