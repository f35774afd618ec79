//! Ids of the cards in the sample database.
use vstd::prelude::*;

use crate::card::CardId;

verus! {

pub const MOUNTAIN: CardId = 1;

pub const FOREST: CardId = 2;

pub const ISLAND: CardId = 3;

pub const PLAINS: CardId = 4;

pub const SWAMP: CardId = 5;

pub const LIGHTNING_BOLT: CardId = 10;

pub const GREY_OGRE: CardId = 11;

pub const LLANOWAR_ELVES: CardId = 12;

} // verus!
