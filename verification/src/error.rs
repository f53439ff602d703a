use vstd::prelude::*;

verus! {

/// The ways an instruction of the marketplace can be refused.
#[derive(Debug, Clone, Copy, PartialEq, Eq, Structural)]
pub enum Error {
    /// A listing price must be at least one lamport.
    InvalidPrice,
    /// The number of items asked of a gacha is more than the pool holds.
    InvalidQuantity,
    /// The cash-back share must stay below one.
    CashbackMax,
    /// The payment offered is not the asking price of the item.
    InvalidPayment,
    /// The state account is not the marketplace's.
    InvalidStateAccount,
    /// The state account was initialised before.
    StateAlreadyInitialized,
    /// No item is available for a gacha draw.
    ItemsUnavailableForGacha,
}

} // verus!
