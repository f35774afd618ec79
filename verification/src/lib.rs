//! A Magic: The Gathering rules engine core: mana, card data, game state,
//! replacement effects, information sets and deck handling, with contracts
//! checked by Verus.

pub mod mana;
pub mod text;
pub mod card;
pub mod replacement;
pub mod events;
pub mod game;
pub mod hashing;
pub mod sorting;
pub mod info_set;
pub mod movement;
pub mod game_effects;
pub mod snapshot;
pub mod solver;
pub mod setup;
pub mod rules;
pub mod scryfall;
pub mod moxfield;
pub mod action;
pub mod strategy;
