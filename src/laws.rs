//! Properties that hold of every state the pallet's operations can reach.
use crate::currency::Currency;
use crate::pallet::{collateral_backed, minted, Pallet};
use vstd::prelude::*;

verus! {

/// Every stored collectible is listed exactly once in its owner's entry of
/// the ownership index, and in no other account's entry.
pub proof fn lemma_ownership_agrees(p: Pallet, id: u32)
    requires
        p.wf(),
        p.store().contains_key(id),
    ensures
        p.owned(p.store()[id].owner).contains(id),
        forall|i: int, j: int|
            0 <= i < p.owned(p.store()[id].owner).len() && 0 <= j < p.owned(
                p.store()[id].owner,
            ).len() && p.owned(p.store()[id].owner)[i] == id && p.owned(p.store()[id].owner)[j]
                == id ==> i == j,
        forall|w: u64| w != p.store()[id].owner ==> !(#[trigger] p.owned(w)).contains(id),
{
    let o = p.store()[id].owner;
    assert(p.owned(o).no_duplicates());
    assert forall|w: u64| w != o implies !(#[trigger] p.owned(w)).contains(id) by {
        if p.owned(w).contains(id) {
            let k = choose|k: int| 0 <= k < p.owned(w).len() && p.owned(w)[k] == id;
            assert(p.store()[p.owned(w)[k]].owner == w);
        }
    }
}

/// Before anything is owned, a ledger in which nothing is reserved backs the
/// pallet; every successful operation keeps that agreement (see each
/// operation's contract), so after any sequence of them each account's
/// reserve is the stake times the number of collectibles it owns.
pub proof fn lemma_fresh_state_backed<C: Currency>(p: Pallet, l: C)
    requires
        forall|w: u64| #[trigger] p.owned(w).len() == 0,
        forall|w: u64| #[trigger] l.reserved_of(w) == 0,
    ensures
        collateral_backed(p, l),
{
    assert forall|w: u64| #[trigger] l.reserved_of(w) == p.stake_unit() * p.owned(w).len() by {
        assert(p.owned(w).len() == 0);
        assert(l.reserved_of(w) == 0);
    }
}

/// Every stored ID lies below the counter, so the counter's value names no
/// collectible yet.
pub proof fn lemma_ids_below_counter(p: Pallet)
    requires
        p.wf(),
    ensures
        forall|id: u32| #[trigger] p.store().contains_key(id) ==> id < p.next_id(),
        !p.store().contains_key(p.next_id()),
{
}

/// A mint uses an ID that no collectible had, keeps every earlier one, and
/// moves the counter past it.
pub proof fn lemma_mint_id_fresh(pre: Pallet, post: Pallet, owner: u64, dna: Seq<u8>)
    requires
        pre.wf(),
        minted(pre, post, owner, dna),
    ensures
        !pre.store().contains_key(pre.next_id()),
        post.store().contains_key(pre.next_id()),
        pre.next_id() < post.next_id(),
        forall|id: u32| #[trigger]
            pre.store().contains_key(id) ==> post.store().contains_key(id) && post.store()[id]
                == pre.store()[id],
{
    assert forall|id: u32| #[trigger] pre.store().contains_key(id) implies post.store().contains_key(
        id,
    ) && post.store()[id] == pre.store()[id] by {
        assert(id != pre.next_id());
    }
}

} // verus!
