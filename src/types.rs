//! Records, errors and notifications of the pallet.
use vstd::prelude::*;

verus! {

/// A collectible: its genome, its asking price (`None`: not for sale) and
/// its owner.
#[derive(Clone, Copy, Debug, PartialEq, Eq)]
pub struct Kitty {
    pub dna: [u8; 16],
    pub price: Option<u128>,
    pub owner: u64,
}

/// Why an operation was refused. A refused operation changes nothing.
#[derive(Clone, Copy, Debug, PartialEq, Eq)]
pub enum Error {
    /// The new owner already holds as many collectibles as allowed.
    ExceedKittyOwned,
    /// The ID counter is at its largest value.
    KittiesCountOverflow,
    /// The caller does not own the collectible.
    NotOwner,
    /// Both parents of a breeding are the same collectible.
    SameParentIndex,
    /// No collectible has this ID.
    InvalidKittyIndex,
    /// The buyer already owns the collectible.
    BuyerIsOwner,
    /// The collectible has no asking price.
    KittyNotForSale,
    /// The account cannot reserve the stake for one more collectible.
    NotEnoughBalanceForStaking,
    /// The buyer cannot pay the price and the stake.
    NotEnoughBalanceForBuying,
    /// The collectible would go to the account that already owns it.
    TransferToSelf,
}

/// A notification of a change of state.
#[derive(Clone, Copy, Debug, PartialEq, Eq)]
pub enum Event {
    /// `(owner, id)`: a collectible was minted.
    KittyCreated(u64, u32),
    /// `(from, to, id)`: a collectible changed owner.
    KittyTransferred(u64, u64, u32),
    /// `(owner, id, price)`: the asking price of a collectible was set.
    KittyPriceSet(u64, u32, Option<u128>),
}

} // verus!
