//! The pallet's state and its five operations: create, breed, transfer,
//! set a price, buy.
//!
//! Every operation either succeeds with the effect its contract states or
//! fails and leaves the store, the index, the counter, the notifications and
//! the ledger's balances as they were.
use crate::currency::{
    can_reserve, others_unchanged, released_part, reserved, same_balances, saturating,
    Currency, MAX_BALANCE,
};
use crate::ownership::{lemma_push_fresh, lemma_without, without, OwnershipIndex};
use crate::entropy::{drawn_dna, random_value, Entropy};
use crate::genome::{combine, combined};
use crate::types::{Error, Event, Kitty};
use std::collections::HashMap;
use vstd::prelude::*;

verus! {

broadcast use vstd::std_specs::hash::group_hash_axioms;

/// The state of the pallet: the collectibles by ID, the ownership index, the
/// next unused ID, the stake locked per collectible, and the notifications
/// emitted so far.
pub struct Pallet {
    kitties: HashMap<u32, Kitty>,
    owners: OwnershipIndex,
    count: u32,
    stake: u128,
    events: Vec<Event>,
}

/// `post` is `pre` with a stake reserved from `to` and the same stake
/// released to `from`, who is also paid `price`.
pub open spec fn restaked<C: Currency>(
    pre: C,
    post: C,
    from: u64,
    to: u64,
    stake: u128,
    price: u128,
) -> bool {
    let back = released_part(pre, from, stake);
    &&& post.free_of(to) == pre.free_of(to) - stake - price
    &&& post.reserved_of(to) == pre.reserved_of(to) + stake
    &&& post.reserved_of(from) == pre.reserved_of(from) - back
    &&& post.free_of(from) == saturating(pre.free_of(from) + price, back as int)
    &&& others_unchanged(pre, post, from, to)
}

/// Each account holds in reserve exactly the stake of the collectibles it owns.
pub open spec fn collateral_backed<C: Currency>(p: Pallet, l: C) -> bool {
    forall|w: u64| #[trigger] l.reserved_of(w) == p.stake_unit() * p.owned(w).len()
}

/// `post` is `pre` with one more collectible, of genome `dna`, owned by `owner`
/// under the ID that was next, and a creation notice.
pub open spec fn minted(pre: Pallet, post: Pallet, owner: u64, dna: Seq<u8>) -> bool {
    let id = pre.next_id();
    &&& post.store().contains_key(id)
    &&& post.store()[id].dna@ == dna
    &&& post.store()[id].price is None
    &&& post.store()[id].owner == owner
    &&& post.store() == pre.store().insert(id, post.store()[id])
    &&& post.next_id() == id + 1
    &&& post.owned(owner) == pre.owned(owner).push(id)
    &&& forall|w: u64| w != owner ==> #[trigger] post.owned(w) == pre.owned(w)
    &&& post.log() == pre.log().push(Event::KittyCreated(owner, id))
    &&& post.same_config(pre)
}

/// The outcome of minting a collectible for `owner` against ledger `l`.
pub open spec fn mint_result<C: Currency>(p: Pallet, l: C, owner: u64) -> Result<(), Error> {
    if p.next_id() == u32::MAX {
        Err(Error::KittiesCountOverflow)
    } else if !can_reserve(l, owner, p.stake_unit()) {
        Err(Error::NotEnoughBalanceForStaking)
    } else if p.owned(owner).len() >= p.capacity() {
        Err(Error::ExceedKittyOwned)
    } else {
        Ok(())
    }
}

/// `post` is `pre` with collectible `id` handed to `to`: its price cleared,
/// its ID swap-removed from the previous owner's list and appended to `to`'s,
/// and a transfer notice.
pub open spec fn moved(pre: Pallet, post: Pallet, id: u32, to: u64) -> bool {
    let k = pre.store()[id];
    let from = k.owner;
    &&& post.store() == pre.store().insert(id, Kitty { dna: k.dna, price: None, owner: to })
    &&& post.owned(to) == (if from == to {
        without(pre.owned(from), id)
    } else {
        pre.owned(to)
    }).push(id)
    &&& from != to ==> post.owned(from) == without(pre.owned(from), id)
    &&& forall|w: u64| w != from && w != to ==> #[trigger] post.owned(w) == pre.owned(w)
    &&& post.next_id() == pre.next_id()
    &&& post.log() == pre.log().push(Event::KittyTransferred(from, to, id))
    &&& post.same_config(pre)
}

/// The outcome of handing collectible `id` to `to`.
pub open spec fn move_result(p: Pallet, id: u32, to: u64) -> Result<(), Error> {
    if !p.store().contains_key(id) {
        Err(Error::InvalidKittyIndex)
    } else if p.store()[id].owner != to && p.owned(to).len() >= p.capacity() {
        Err(Error::ExceedKittyOwned)
    } else {
        Ok(())
    }
}

/// A move that the rules allow keeps the store and the index in agreement.
proof fn lemma_moved_wf(pre: Pallet, post: Pallet, id: u32, to: u64)
    requires
        pre.wf(),
        post.index_wf(),
        move_result(pre, id, to) is Ok,
        moved(pre, post, id, to),
    ensures
        post.wf(),
{
    let from = pre.store()[id].owner;
    lemma_without(pre.owned(from), id);
    let rest = without(pre.owned(from), id);
    if from != to {
        assert(!pre.owned(to).contains(id)) by {
            if pre.owned(to).contains(id) {
                let k = choose|k: int| 0 <= k < pre.owned(to).len() && pre.owned(to)[k] == id;
                assert(pre.store()[pre.owned(to)[k]].owner == to);
            }
        }
        lemma_push_fresh(pre.owned(to), id);
    } else {
        lemma_push_fresh(rest, id);
    }
    assert forall|id2: u32| #[trigger] post.store().contains_key(id2) implies post.owned(
        post.store()[id2].owner,
    ).contains(id2) by {
        if id2 != id {
            let w = pre.store()[id2].owner;
            assert(pre.owned(w).contains(id2));
            if w == from && from != to {
                assert(post.owned(w).contains(id2));
            }
            if w == to {
                assert(post.owned(w).contains(id2));
            }
        } else {
            assert(post.owned(to).contains(id));
        }
    }
    assert forall|w: u64, i: int| 0 <= i < post.owned(w).len() implies post.store().contains_key(
        #[trigger] post.owned(w)[i],
    ) && post.store()[post.owned(w)[i]].owner == w by {
        let x = post.owned(w)[i];
        assert(post.owned(w).contains(x));
        if w == to {
            if x != id {
                let base = if from == to {
                    rest
                } else {
                    pre.owned(to)
                };
                assert(base.contains(x));
                let k = choose|k: int| 0 <= k < pre.owned(to).len() && pre.owned(to)[k] == x;
                assert(pre.store()[pre.owned(to)[k]].owner == to);
            }
        } else if w == from {
            assert(rest.contains(x));
            let k = choose|k: int| 0 <= k < pre.owned(from).len() && pre.owned(from)[k] == x;
            assert(pre.store()[pre.owned(from)[k]].owner == from);
        } else {
            assert(pre.owned(w)[i] == x);
        }
    }
    assert forall|w: u64| #[trigger] post.owned(w).len() <= post.capacity() by {
        if w != from && w != to {
            assert(post.owned(w) == pre.owned(w));
        }
    }
    assert forall|w: u64| #[trigger] post.owned(w).no_duplicates() by {
        if w != from && w != to {
            assert(post.owned(w) == pre.owned(w));
        }
    }
}

/// The outcome of `who` giving collectible `id` to `to` against ledger `l`.
pub open spec fn transfer_result<C: Currency>(p: Pallet, l: C, who: u64, id: u32, to: u64) -> Result<
    (),
    Error,
> {
    if who == to {
        Err(Error::TransferToSelf)
    } else if !p.store().contains_key(id) {
        Err(Error::InvalidKittyIndex)
    } else if p.store()[id].owner != who {
        Err(Error::NotOwner)
    } else if !can_reserve(l, to, p.stake_unit()) {
        Err(Error::NotEnoughBalanceForStaking)
    } else if p.owned(to).len() >= p.capacity() {
        Err(Error::ExceedKittyOwned)
    } else {
        Ok(())
    }
}

/// The outcome of `buyer` buying collectible `id` against ledger `l`.
pub open spec fn buy_result<C: Currency>(p: Pallet, l: C, buyer: u64, id: u32) -> Result<(), Error> {
    let k = p.store()[id];
    let stake = p.stake_unit();
    if !p.store().contains_key(id) {
        Err(Error::InvalidKittyIndex)
    } else if k.owner == buyer {
        Err(Error::TransferToSelf)
    } else if k.price is None {
        Err(Error::KittyNotForSale)
    } else if l.free_of(buyer) <= k.price->0 + stake {
        Err(Error::NotEnoughBalanceForBuying)
    } else if !can_reserve(l, buyer, stake) {
        Err(Error::NotEnoughBalanceForStaking)
    } else if p.owned(buyer).len() >= p.capacity() {
        Err(Error::ExceedKittyOwned)
    } else if !(l.free_of(buyer) - stake >= k.price->0 + l.minimum_balance() && l.free_of(k.owner)
        + k.price->0 <= MAX_BALANCE) {
        Err(Error::NotEnoughBalanceForBuying)
    } else {
        Ok(())
    }
}

/// Handing a collectible to a new owner while moving one stake from the
/// previous owner to the new one keeps every reserve equal to the stake of
/// what its account owns.
proof fn lemma_restaked_backed<C: Currency>(
    pre: Pallet,
    before: C,
    post: Pallet,
    after: C,
    id: u32,
    to: u64,
    price: u128,
)
    requires
        pre.wf(),
        collateral_backed(pre, before),
        pre.store().contains_key(id),
        pre.store()[id].owner != to,
        moved(pre, post, id, to),
        restaked(before, after, pre.store()[id].owner, to, pre.stake_unit(), price),
    ensures
        collateral_backed(post, after),
{
    let from = pre.store()[id].owner;
    let stake = pre.stake_unit();
    lemma_without(pre.owned(from), id);
    let n = pre.owned(from).len();
    let m = pre.owned(to).len();
    assert(n >= 1);
    assert(before.reserved_of(from) == stake * n);
    assert(before.reserved_of(to) == stake * m);
    assert(stake * n >= stake && stake * (n - 1) == stake * n - stake && stake * (m + 1) == stake
        * m + stake) by (nonlinear_arith)
        requires
            n >= 1,
    ;
    assert forall|w: u64| #[trigger] after.reserved_of(w) == post.stake_unit() * post.owned(w).len() by {
        if w != from && w != to {
            assert(before.reserved_of(w) == stake * pre.owned(w).len());
        }
    }
}

/// The outcome of `who` setting the price of collectible `id`.
pub open spec fn set_price_result(p: Pallet, who: u64, id: u32) -> Result<(), Error> {
    if !p.store().contains_key(id) {
        Err(Error::InvalidKittyIndex)
    } else if p.store()[id].owner != who {
        Err(Error::NotOwner)
    } else {
        Ok(())
    }
}

/// The outcome of `who` breeding collectibles `id1` and `id2` against ledger `l`.
pub open spec fn breed_result<C: Currency>(p: Pallet, l: C, who: u64, id1: u32, id2: u32) -> Result<
    (),
    Error,
> {
    if id1 == id2 {
        Err(Error::SameParentIndex)
    } else if !p.store().contains_key(id1) || !p.store().contains_key(id2) {
        Err(Error::InvalidKittyIndex)
    } else {
        mint_result(p, l, who)
    }
}

/// The genome of the child of `id1` and `id2` under `selector`.
pub open spec fn child_dna(p: Pallet, id1: u32, id2: u32, selector: Seq<u8>) -> Seq<u8> {
    combined(p.store()[id1].dna@, p.store()[id2].dna@, selector)
}

impl Pallet {
    /// The collectibles by ID.
    pub closed spec fn store(&self) -> Map<u32, Kitty> {
        self.kitties@
    }

    /// The IDs that `who` owns, in index order.
    pub closed spec fn owned(&self, who: u64) -> Seq<u32> {
        self.owners.owned(who)
    }

    /// The most collectibles one account may own.
    pub closed spec fn capacity(&self) -> nat {
        self.owners.capacity()
    }

    /// The ID that the next mint will use.
    pub closed spec fn next_id(&self) -> u32 {
        self.count
    }

    /// The collateral locked for each collectible owned.
    pub closed spec fn stake_unit(&self) -> u128 {
        self.stake
    }

    /// The notifications emitted so far, oldest first.
    pub closed spec fn log(&self) -> Seq<Event> {
        self.events@
    }

    /// `self` has the stake and capacity of `other`.
    pub open spec fn same_config(&self, other: Pallet) -> bool {
        self.stake_unit() == other.stake_unit() && self.capacity() == other.capacity()
    }

    /// The store and the index agree, IDs lie below the counter, and no
    /// account exceeds the capacity.
    pub open spec fn wf(&self) -> bool {
        &&& forall|id: u32| #[trigger] self.store().contains_key(id) ==> id < self.next_id()
        &&& forall|id: u32| #[trigger]
            self.store().contains_key(id) ==> self.owned(self.store()[id].owner).contains(id)
        &&& forall|w: u64, i: int|
            0 <= i < self.owned(w).len() ==> self.store().contains_key(#[trigger] self.owned(w)[i])
                && self.store()[self.owned(w)[i]].owner == w
        &&& forall|w: u64| #[trigger] self.owned(w).no_duplicates()
        &&& forall|w: u64| #[trigger] self.owned(w).len() <= self.capacity()
        &&& self.index_wf()
    }

    /// The ownership index keeps its own bound.
    pub closed spec fn index_wf(&self) -> bool {
        self.owners.wf()
    }

    /// An empty pallet that locks `stake` per collectible and lets an
    /// account own at most `max_owned`.
    pub fn new(stake: u128, max_owned: u32) -> (r: Pallet)
        ensures
            r.wf(),
            r.store() == Map::<u32, Kitty>::empty(),
            forall|w: u64| #[trigger] r.owned(w) == Seq::<u32>::empty(),
            r.next_id() == 0,
            r.stake_unit() == stake,
            r.capacity() == max_owned,
            r.log() == Seq::<Event>::empty(),
    {
        Pallet::with_kitties_count(stake, max_owned, 0)
    }

    /// An empty pallet like `new`, whose counter starts at `count`.
    pub fn with_kitties_count(stake: u128, max_owned: u32, count: u32) -> (r: Pallet)
        ensures
            r.wf(),
            r.store() == Map::<u32, Kitty>::empty(),
            forall|w: u64| #[trigger] r.owned(w) == Seq::<u32>::empty(),
            r.next_id() == count,
            r.stake_unit() == stake,
            r.capacity() == max_owned,
            r.log() == Seq::<Event>::empty(),
    {
        let r = Pallet {
            kitties: HashMap::new(),
            owners: OwnershipIndex::new(max_owned),
            count,
            stake,
            events: Vec::new(),
        };
        assert(r.store() =~= Map::<u32, Kitty>::empty());
        r
    }

    /// Mints a collectible of genome `dna` for `owner`, reserving one stake
    /// from it; the new ID is the counter, which moves on by one.
    pub fn new_kitty_with_stake<C: Currency>(&mut self, ledger: &mut C, owner: u64, dna: [u8; 16]) -> (r: Result<(), Error>)
        requires
            old(self).wf(),
        ensures
            final(self).wf(),
            old(self).next_id() <= final(self).next_id(),
            r == mint_result(*old(self), *old(ledger), owner),
            r is Ok ==> minted(*old(self), *final(self), owner, dna@) && reserved(
                *old(ledger),
                *final(ledger),
                owner,
                old(self).stake_unit(),
            ),
            r is Err ==> *final(self) == *old(self) && same_balances(*old(ledger), *final(ledger)),
            collateral_backed(*old(self), *old(ledger)) ==> collateral_backed(
                *final(self),
                *final(ledger),
            ),
    {
        let kitty_id = self.count;
        if kitty_id == u32::MAX {
            return Err(Error::KittiesCountOverflow);
        }
        let stake = self.stake;
        match ledger.reserve(owner, stake) {
            Ok(()) => {},
            Err(()) => {
                return Err(Error::NotEnoughBalanceForStaking);
            },
        }
        let ghost mid = *ledger;
        if self.owners.count(owner) >= self.owners.max_owned() as usize {
            ledger.unreserve(owner, stake);
            proof {
                assert forall|w: u64| #[trigger] ledger.reserved_of(w) == old(ledger).reserved_of(w)
                    && ledger.free_of(w) == old(ledger).free_of(w) by {
                    assert(mid.reserved_of(w) == old(ledger).reserved_of(w) + if w == owner { stake as int } else { 0 });
                    assert(mid.free_of(w) == old(ledger).free_of(w) - if w == owner { stake as int } else { 0 });
                    if w == owner {
                        assert(ledger.reserved_of(w) == old(ledger).reserved_of(w));
                        assert(ledger.free_of(w) == old(ledger).free_of(w));
                    } else {
                        assert(ledger.reserved_of(w) == mid.reserved_of(w));
                        assert(ledger.free_of(w) == mid.free_of(w));
                    }
                }
            }
            return Err(Error::ExceedKittyOwned);
        }
        proof {
            assert forall|w: u64, i: int| 0 <= i < self.owned(w).len() implies #[trigger] self.owned(w)[i] != kitty_id by {}
        }
        self.kitties.insert(kitty_id, Kitty { dna, price: None, owner });
        let added = self.owners.add(owner, kitty_id);
        self.count = kitty_id + 1;
        self.events.push(Event::KittyCreated(owner, kitty_id));
        proof {
            assert(added is Ok);
            let pre = *old(self);
            assert(self.owned(owner) == pre.owned(owner).push(kitty_id));
            assert forall|w: u64, i: int| 0 <= i < self.owned(w).len() implies self.store().contains_key(#[trigger] self.owned(w)[i])
                && self.store()[self.owned(w)[i]].owner == w by {
                if w == owner && i == pre.owned(w).len() {
                } else {
                    assert(self.owned(w)[i] == pre.owned(w)[i]);
                }
            }
            assert forall|id: u32| #[trigger] self.store().contains_key(id) implies self.owned(self.store()[id].owner).contains(id) by {
                if id == kitty_id {
                    assert(self.owned(owner)[pre.owned(owner).len() as int] == id);
                } else {
                    let w = pre.store()[id].owner;
                    let k = choose|k: int| 0 <= k < pre.owned(w).len() && pre.owned(w)[k] == id;
                    assert(self.owned(w)[k] == id);
                }
            }
            assert forall|w: u64| #[trigger] self.owned(w).no_duplicates() by {
                if w == owner {
                    lemma_push_fresh(pre.owned(owner), kitty_id);
                }
            }
            assert forall|w: u64| #[trigger] ledger.reserved_of(w) == old(ledger).reserved_of(w) + if w == owner { stake as int } else { 0 } by {}
            if collateral_backed(pre, *old(ledger)) {
                assert forall|w: u64| #[trigger] ledger.reserved_of(w) == self.stake_unit() * self.owned(w).len() by {
                    assert(old(ledger).reserved_of(w) == pre.stake_unit() * pre.owned(w).len());
                    if w == owner {
                        assert(self.stake_unit() * self.owned(w).len() == stake * pre.owned(w).len() + stake) by (nonlinear_arith)
                            requires self.owned(w).len() == pre.owned(w).len() + 1, self.stake_unit() == stake;
                    }
                }
            }
        }
        Ok(())
    }

    /// Whether `acct` owns collectible `kitty_id`; `NotOwner` when there is
    /// no such collectible.
    pub fn is_kitty_owner(&self, kitty_id: u32, acct: &u64) -> (r: Result<bool, Error>)
        ensures
            r == if self.store().contains_key(kitty_id) {
                Ok::<bool, Error>(self.store()[kitty_id].owner == *acct)
            } else {
                Err(Error::NotOwner)
            },
    {
        match self.kitties.get(&kitty_id) {
            Some(kitty) => Ok(kitty.owner == *acct),
            None => Err(Error::NotOwner),
        }
    }

    /// Hands collectible `kitty_id` to `to` without touching any balance:
    /// clears its price, moves its ID from the previous owner's list to the
    /// end of `to`'s, and records the transfer.
    pub fn transfer_kitty_to(&mut self, kitty_id: u32, to: u64) -> (r: Result<(), Error>)
        requires
            old(self).wf(),
        ensures
            final(self).wf(),
            old(self).next_id() <= final(self).next_id(),
            r == move_result(*old(self), kitty_id, to),
            r is Ok ==> moved(*old(self), *final(self), kitty_id, to),
            r is Err ==> *final(self) == *old(self),
    {
        let kitty = match self.kitties.get(&kitty_id) {
            Some(k) => *k,
            None => {
                return Err(Error::InvalidKittyIndex);
            },
        };
        let prev_owner = kitty.owner;
        if prev_owner != to && self.owners.count(to) >= self.owners.max_owned() as usize {
            return Err(Error::ExceedKittyOwned);
        }
        proof {
            assert(self.owned(prev_owner).contains(kitty_id));
        }
        match self.owners.remove(prev_owner, kitty_id) {
            Ok(()) => {},
            Err(_) => {
                return Err(Error::InvalidKittyIndex);
            },
        }
        self.kitties.insert(kitty_id, Kitty { dna: kitty.dna, price: None, owner: to });
        proof {
            lemma_without(old(self).owned(prev_owner), kitty_id);
        }
        let added = self.owners.add(to, kitty_id);
        self.events.push(Event::KittyTransferred(prev_owner, to, kitty_id));
        proof {
            assert(added is Ok);
            lemma_moved_wf(*old(self), *self, kitty_id, to);
        }
        Ok(())
    }

    /// `who` gives collectible `kitty_id` to `to`: one stake is reserved
    /// from `to` before the previous owner's stake is released, then the
    /// collectible is handed over with its price cleared.
    pub fn transfer<C: Currency>(&mut self, ledger: &mut C, who: u64, kitty_id: u32, to: u64) -> (r:
        Result<(), Error>)
        requires
            old(self).wf(),
        ensures
            final(self).wf(),
            old(self).next_id() <= final(self).next_id(),
            r == transfer_result(*old(self), *old(ledger), who, kitty_id, to),
            r is Ok ==> moved(*old(self), *final(self), kitty_id, to) && restaked(
                *old(ledger),
                *final(ledger),
                who,
                to,
                old(self).stake_unit(),
                0,
            ),
            r is Err ==> *final(self) == *old(self) && same_balances(*old(ledger), *final(ledger)),
            collateral_backed(*old(self), *old(ledger)) ==> collateral_backed(
                *final(self),
                *final(ledger),
            ),
    {
        if who == to {
            return Err(Error::TransferToSelf);
        }
        let kitty = match self.kitties.get(&kitty_id) {
            Some(k) => *k,
            None => {
                return Err(Error::InvalidKittyIndex);
            },
        };
        match self.is_kitty_owner(kitty_id, &who) {
            Ok(true) => {},
            _ => {
                return Err(Error::NotOwner);
            },
        }
        let stake = self.stake;
        match ledger.reserve(to, stake) {
            Ok(()) => {},
            Err(()) => {
                return Err(Error::NotEnoughBalanceForStaking);
            },
        }
        let ghost mid = *ledger;
        if self.owners.count(to) >= self.owners.max_owned() as usize {
            ledger.unreserve(to, stake);
            proof {
                assert forall|w: u64| #[trigger] ledger.reserved_of(w) == old(ledger).reserved_of(w)
                    && ledger.free_of(w) == old(ledger).free_of(w) by {
                    assert(mid.reserved_of(w) == old(ledger).reserved_of(w) + if w == to {
                        stake as int
                    } else {
                        0
                    });
                    assert(mid.free_of(w) == old(ledger).free_of(w) - if w == to {
                        stake as int
                    } else {
                        0
                    });
                }
            }
            return Err(Error::ExceedKittyOwned);
        }
        ledger.unreserve(kitty.owner, stake);
        let handed = self.transfer_kitty_to(kitty_id, to);
        proof {
            assert(handed is Ok);
            assert(mid.reserved_of(who) == old(ledger).reserved_of(who));
            assert(mid.free_of(who) == old(ledger).free_of(who));
            assert forall|w: u64|
                #![trigger ledger.free_of(w)]
                #![trigger ledger.reserved_of(w)]
                w != who && w != to ==> ledger.free_of(w) == old(ledger).free_of(w)
                    && ledger.reserved_of(w) == old(ledger).reserved_of(w) by {
                if w != who && w != to {
                    assert(mid.reserved_of(w) == old(ledger).reserved_of(w));
                    assert(mid.free_of(w) == old(ledger).free_of(w));
                }
            }
            if collateral_backed(*old(self), *old(ledger)) {
                lemma_restaked_backed(*old(self), *old(ledger), *self, *ledger, kitty_id, to, 0);
            }
        }
        handed
    }

    /// `buyer` buys collectible `kitty_id` at its asking price. The buyer
    /// must hold more than the price and one stake. One stake is reserved
    /// from the buyer, the price is paid to the seller (the buyer keeping the
    /// ledger's minimum balance), the seller's stake is released, and the
    /// collectible is handed over with its price cleared.
    pub fn buy_kitty<C: Currency>(&mut self, ledger: &mut C, buyer: u64, kitty_id: u32) -> (r:
        Result<(), Error>)
        requires
            old(self).wf(),
        ensures
            final(self).wf(),
            old(self).next_id() <= final(self).next_id(),
            r == buy_result(*old(self), *old(ledger), buyer, kitty_id),
            r is Ok ==> moved(*old(self), *final(self), kitty_id, buyer) && restaked(
                *old(ledger),
                *final(ledger),
                old(self).store()[kitty_id].owner,
                buyer,
                old(self).stake_unit(),
                old(self).store()[kitty_id].price->0,
            ),
            r is Err ==> *final(self) == *old(self) && same_balances(*old(ledger), *final(ledger)),
            collateral_backed(*old(self), *old(ledger)) ==> collateral_backed(
                *final(self),
                *final(ledger),
            ),
    {
        let kitty = match self.kitties.get(&kitty_id) {
            Some(k) => *k,
            None => {
                return Err(Error::InvalidKittyIndex);
            },
        };
        let seller = kitty.owner;
        if seller == buyer {
            return Err(Error::TransferToSelf);
        }
        let ask_price = match kitty.price {
            Some(p) => p,
            None => {
                return Err(Error::KittyNotForSale);
            },
        };
        let stake = self.stake;
        let buyer_balance = ledger.free_balance(buyer);
        let affordable = match ask_price.checked_add(stake) {
            Some(total) => buyer_balance > total,
            None => false,
        };
        if !affordable {
            return Err(Error::NotEnoughBalanceForBuying);
        }
        match ledger.reserve(buyer, stake) {
            Ok(()) => {},
            Err(()) => {
                return Err(Error::NotEnoughBalanceForStaking);
            },
        }
        let ghost mid = *ledger;
        proof {
            assert forall|w: u64|
                #![trigger mid.free_of(w)]
                #![trigger mid.reserved_of(w)]
                mid.reserved_of(w) == old(ledger).reserved_of(w) + if w == buyer {
                    stake as int
                } else {
                    0
                } && mid.free_of(w) == old(ledger).free_of(w) - if w == buyer {
                    stake as int
                } else {
                    0
                } by {}
        }
        if self.owners.count(buyer) >= self.owners.max_owned() as usize {
            ledger.unreserve(buyer, stake);
            proof {
                assert forall|w: u64| #[trigger] ledger.reserved_of(w) == old(ledger).reserved_of(w)
                    && ledger.free_of(w) == old(ledger).free_of(w) by {
                    assert(mid.reserved_of(w) == old(ledger).reserved_of(w) + if w == buyer {
                        stake as int
                    } else {
                        0
                    });
                }
            }
            return Err(Error::ExceedKittyOwned);
        }
        match ledger.transfer(buyer, seller, ask_price) {
            Ok(()) => {},
            Err(()) => {
                ledger.unreserve(buyer, stake);
                proof {
                    assert forall|w: u64| #[trigger] ledger.reserved_of(w) == old(
                        ledger,
                    ).reserved_of(w) && ledger.free_of(w) == old(ledger).free_of(w) by {
                        assert(mid.reserved_of(w) == old(ledger).reserved_of(w) + if w == buyer {
                            stake as int
                        } else {
                            0
                        });
                    }
                }
                return Err(Error::NotEnoughBalanceForBuying);
            },
        }
        let ghost settled = *ledger;
        ledger.unreserve(seller, stake);
        let handed = self.transfer_kitty_to(kitty_id, buyer);
        proof {
            assert(handed is Ok);
            assert(settled.reserved_of(seller) == old(ledger).reserved_of(seller));
            assert(settled.free_of(seller) == old(ledger).free_of(seller) + ask_price);
            assert(settled.free_of(buyer) == old(ledger).free_of(buyer) - stake - ask_price);
            assert(settled.reserved_of(buyer) == old(ledger).reserved_of(buyer) + stake);
            assert forall|w: u64|
                #![trigger ledger.free_of(w)]
                #![trigger ledger.reserved_of(w)]
                w != seller && w != buyer ==> ledger.free_of(w) == old(ledger).free_of(w)
                    && ledger.reserved_of(w) == old(ledger).reserved_of(w) by {
                if w != seller && w != buyer {
                    assert(settled.reserved_of(w) == mid.reserved_of(w));
                    assert(settled.free_of(w) == mid.free_of(w));
                }
            }
            if collateral_backed(*old(self), *old(ledger)) {
                lemma_restaked_backed(
                    *old(self),
                    *old(ledger),
                    *self,
                    *ledger,
                    kitty_id,
                    buyer,
                    ask_price,
                );
            }
        }
        handed
    }

    /// Mints a collectible for `who` with a genome drawn from `entropy`.
    pub fn create<C: Currency>(&mut self, ledger: &mut C, who: u64, entropy: &Entropy) -> (r: Result<
        (),
        Error,
    >)
        requires
            old(self).wf(),
        ensures
            final(self).wf(),
            old(self).next_id() <= final(self).next_id(),
            r == mint_result(*old(self), *old(ledger), who),
            r is Ok ==> minted(*old(self), *final(self), who, drawn_dna(*entropy, who)) && reserved(
                *old(ledger),
                *final(ledger),
                who,
                old(self).stake_unit(),
            ),
            r is Err ==> *final(self) == *old(self) && same_balances(*old(ledger), *final(ledger)),
            collateral_backed(*old(self), *old(ledger)) ==> collateral_backed(
                *final(self),
                *final(ledger),
            ),
    {
        let dna = random_value(who, entropy);
        self.new_kitty_with_stake(ledger, who, dna)
    }

    /// Mints for `who` the child of collectibles `kitty_id_1` and
    /// `kitty_id_2`: each bit of its genome comes from the first parent where
    /// `selector` has it set and from the second where it does not. The
    /// parents stay as they are.
    pub fn breed_with_selector<C: Currency>(
        &mut self,
        ledger: &mut C,
        who: u64,
        kitty_id_1: u32,
        kitty_id_2: u32,
        selector: [u8; 16],
    ) -> (r: Result<(), Error>)
        requires
            old(self).wf(),
        ensures
            final(self).wf(),
            old(self).next_id() <= final(self).next_id(),
            r == breed_result(*old(self), *old(ledger), who, kitty_id_1, kitty_id_2),
            r is Ok ==> minted(
                *old(self),
                *final(self),
                who,
                child_dna(*old(self), kitty_id_1, kitty_id_2, selector@),
            ) && reserved(*old(ledger), *final(ledger), who, old(self).stake_unit()),
            r is Err ==> *final(self) == *old(self) && same_balances(*old(ledger), *final(ledger)),
            collateral_backed(*old(self), *old(ledger)) ==> collateral_backed(
                *final(self),
                *final(ledger),
            ),
    {
        if kitty_id_1 == kitty_id_2 {
            return Err(Error::SameParentIndex);
        }
        let kitty1 = match self.kitties.get(&kitty_id_1) {
            Some(k) => *k,
            None => {
                return Err(Error::InvalidKittyIndex);
            },
        };
        let kitty2 = match self.kitties.get(&kitty_id_2) {
            Some(k) => *k,
            None => {
                return Err(Error::InvalidKittyIndex);
            },
        };
        let new_dna = combine(&kitty1.dna, &kitty2.dna, &selector);
        self.new_kitty_with_stake(ledger, who, new_dna)
    }

    /// Mints for `who` the child of collectibles `kitty_id_1` and
    /// `kitty_id_2`, with a selector drawn from `entropy`.
    pub fn breed<C: Currency>(
        &mut self,
        ledger: &mut C,
        who: u64,
        kitty_id_1: u32,
        kitty_id_2: u32,
        entropy: &Entropy,
    ) -> (r: Result<(), Error>)
        requires
            old(self).wf(),
        ensures
            final(self).wf(),
            old(self).next_id() <= final(self).next_id(),
            r == breed_result(*old(self), *old(ledger), who, kitty_id_1, kitty_id_2),
            r is Ok ==> minted(
                *old(self),
                *final(self),
                who,
                child_dna(*old(self), kitty_id_1, kitty_id_2, drawn_dna(*entropy, who)),
            ) && reserved(*old(ledger), *final(ledger), who, old(self).stake_unit()),
            r is Err ==> *final(self) == *old(self) && same_balances(*old(ledger), *final(ledger)),
            collateral_backed(*old(self), *old(ledger)) ==> collateral_backed(
                *final(self),
                *final(ledger),
            ),
    {
        let selector = random_value(who, entropy);
        self.breed_with_selector(ledger, who, kitty_id_1, kitty_id_2, selector)
    }

    /// The owner `who` of collectible `kitty_id` sets its asking price
    /// (`None`: not for sale).
    pub fn set_price(&mut self, who: u64, kitty_id: u32, new_price: Option<u128>) -> (r: Result<
        (),
        Error,
    >)
        requires
            old(self).wf(),
        ensures
            final(self).wf(),
            old(self).next_id() <= final(self).next_id(),
            r == set_price_result(*old(self), who, kitty_id),
            r is Ok ==> {
                let k = old(self).store()[kitty_id];
                &&& final(self).store() == old(self).store().insert(
                    kitty_id,
                    Kitty { dna: k.dna, price: new_price, owner: k.owner },
                )
                &&& forall|w: u64| #[trigger] final(self).owned(w) == old(self).owned(w)
                &&& final(self).next_id() == old(self).next_id()
                &&& final(self).log() == old(self).log().push(
                    Event::KittyPriceSet(who, kitty_id, new_price),
                )
                &&& final(self).same_config(*old(self))
            },
            r is Err ==> *final(self) == *old(self),
    {
        let kitty = match self.kitties.get(&kitty_id) {
            Some(k) => *k,
            None => {
                return Err(Error::InvalidKittyIndex);
            },
        };
        match self.is_kitty_owner(kitty_id, &who) {
            Ok(true) => {},
            _ => {
                return Err(Error::NotOwner);
            },
        }
        self.kitties.insert(kitty_id, Kitty { dna: kitty.dna, price: new_price, owner: kitty.owner });
        self.events.push(Event::KittyPriceSet(who, kitty_id, new_price));
        proof {
            let pre = *old(self);
            assert forall|id: u32| #[trigger] self.store().contains_key(id) implies self.owned(
                self.store()[id].owner,
            ).contains(id) by {
                assert(pre.owned(pre.store()[id].owner).contains(id));
            }
            assert forall|w: u64, i: int| 0 <= i < self.owned(w).len() implies self.store().contains_key(
                #[trigger] self.owned(w)[i],
            ) && self.store()[self.owned(w)[i]].owner == w by {
                assert(pre.store().contains_key(pre.owned(w)[i]));
            }
        }
        Ok(())
    }

    /// The collectible with ID `kitty_id`, if there is one.
    pub fn kitties(&self, kitty_id: u32) -> (r: Option<Kitty>)
        ensures
            r == if self.store().contains_key(kitty_id) {
                Some(self.store()[kitty_id])
            } else {
                None
            },
    {
        match self.kitties.get(&kitty_id) {
            Some(k) => Some(*k),
            None => None,
        }
    }

    /// The IDs that `who` owns, in index order.
    pub fn kitties_owner(&self, who: u64) -> (r: Vec<u32>)
        ensures
            r@ == self.owned(who),
    {
        self.owners.owned_ids(who)
    }

    /// The ID that the next mint will use.
    pub fn kitties_count(&self) -> (r: u32)
        ensures
            r == self.next_id(),
    {
        self.count
    }

    /// The collateral locked for each collectible owned.
    pub fn stake_for_each_kitty(&self) -> (r: u128)
        ensures
            r == self.stake_unit(),
    {
        self.stake
    }

    /// The most collectibles one account may own.
    pub fn max_kitty_owned(&self) -> (r: u32)
        ensures
            r == self.capacity(),
    {
        self.owners.max_owned()
    }

    /// The notifications emitted so far, oldest first.
    pub fn events(&self) -> (r: Vec<Event>)
        ensures
            r@ == self.log(),
    {
        let mut r: Vec<Event> = Vec::new();
        let mut i: usize = 0;
        while i < self.events.len()
            invariant
                0 <= i <= self.events.len(),
                r@ == self.events@.subrange(0, i as int),
            decreases self.events.len() - i,
        {
            r.push(self.events[i]);
            i += 1;
        }
        assert(r@ =~= self.events@);
        r
    }
}

} // verus!
