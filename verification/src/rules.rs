//! Rules procedures that act on a game state.

pub mod mana;
pub mod sba;
pub mod draw;
pub mod combat;
pub mod triggers;

pub use draw::draw_cards;
