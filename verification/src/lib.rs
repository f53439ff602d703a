//! A verified model of a gacha marketplace: a ledger of listed items with sale counters,
//! purchases at the asking price, and gacha draws that hand over distinct unowned items.
//!
//! `state` holds the ledger and the mathematical picture of each instruction, `gacha_marketplace`
//! the instructions' decisions, `draw` the seeded draws of a gacha, and `laws` the properties
//! that hold across instructions.
use vstd::prelude::*;

pub mod draw;
pub mod error;
pub mod gacha_marketplace;
pub mod laws;
pub mod state;

pub use error::Error;
pub use state::{AccountKey, MarketItem, State};

verus! {

} // verus!
