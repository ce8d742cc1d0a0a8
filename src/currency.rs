//! The collateral ledger that the pallet works against: free and reserved
//! balances per account, with reserve, unreserve and transfer.
use std::collections::HashMap;
use vstd::prelude::*;

verus! {

broadcast use vstd::std_specs::hash::group_hash_axioms;

/// Largest balance an account can hold.
pub const MAX_BALANCE: u128 = 0xffff_ffff_ffff_ffff_ffff_ffff_ffff_ffff;

/// A ledger of balances in which part of each account can be held in reserve.
///
/// Implementors model their state with `free_of`, `reserved_of` and
/// `minimum_balance`, and each operation says exactly how it moves funds.
pub trait Currency: Sized {
    /// The spendable balance of `who`.
    spec fn free_of(&self, who: u64) -> u128;

    /// The balance of `who` held in reserve.
    spec fn reserved_of(&self, who: u64) -> u128;

    /// The least free balance a paying account keeps after a transfer.
    spec fn minimum_balance(&self) -> u128;

    /// The spendable balance of `who`.
    fn free_balance(&self, who: u64) -> (r: u128)
        ensures
            r == self.free_of(who),
    ;

    /// Moves `amount` of `who`'s free balance into reserve; fails, changing
    /// nothing, when the free balance is short or the reserve would overflow.
    fn reserve(&mut self, who: u64, amount: u128) -> (r: Result<(), ()>)
        ensures
            r is Ok <==> old(self).free_of(who) >= amount && old(self).reserved_of(who) + amount
                <= MAX_BALANCE,
            final(self).minimum_balance() == old(self).minimum_balance(),
            forall|w: u64|
                #![trigger final(self).free_of(w)]
                #![trigger final(self).reserved_of(w)]
                {
                    &&& final(self).free_of(w) == old(self).free_of(w) - if r is Ok && w == who {
                        amount as int
                    } else {
                        0
                    }
                    &&& final(self).reserved_of(w) == old(self).reserved_of(w) + if r is Ok && w
                        == who {
                        amount as int
                    } else {
                        0
                    }
                },
    ;

    /// Moves up to `amount` of `who`'s reserve back to its free balance
    /// (which saturates at the largest balance); returns the part of `amount`
    /// that was not in reserve.
    fn unreserve(&mut self, who: u64, amount: u128) -> (rest: u128)
        ensures
            rest == if amount <= old(self).reserved_of(who) {
                0
            } else {
                amount - old(self).reserved_of(who)
            },
            final(self).reserved_of(who) == old(self).reserved_of(who) - (amount - rest),
            final(self).free_of(who) == if old(self).free_of(who) + (amount - rest)
                <= MAX_BALANCE {
                old(self).free_of(who) + (amount - rest)
            } else {
                MAX_BALANCE as int
            },
            final(self).minimum_balance() == old(self).minimum_balance(),
            forall|w: u64|
                #![trigger final(self).free_of(w)]
                #![trigger final(self).reserved_of(w)]
                w != who ==> final(self).free_of(w) == old(self).free_of(w) && final(self).reserved_of(
                    w,
                ) == old(self).reserved_of(w),
    ;

    /// Pays `amount` from the free balance of `from` to `to`, keeping `from`
    /// alive: fails, changing nothing, unless `from` is left with at least
    /// the minimum balance and `to`'s balance does not overflow.
    fn transfer(&mut self, from: u64, to: u64, amount: u128) -> (r: Result<(), ()>)
        requires
            from != to,
        ensures
            r is Ok <==> old(self).free_of(from) >= amount as int + old(self).minimum_balance()
                && old(self).free_of(to) + amount <= MAX_BALANCE,
            final(self).minimum_balance() == old(self).minimum_balance(),
            forall|w: u64|
                #![trigger final(self).free_of(w)]
                #![trigger final(self).reserved_of(w)]
                {
                    &&& final(self).free_of(w) == old(self).free_of(w) + if r is Ok && w == to {
                        amount as int
                    } else if r is Ok && w == from {
                        -amount
                    } else {
                        0
                    }
                    &&& final(self).reserved_of(w) == old(self).reserved_of(w)
                },
    ;
}

/// Both ledgers hold the same balances.
pub open spec fn same_balances<C: Currency>(a: C, b: C) -> bool {
    &&& a.minimum_balance() == b.minimum_balance()
    &&& forall|w: u64|
        #![trigger a.free_of(w)]
        #![trigger a.reserved_of(w)]
        a.free_of(w) == b.free_of(w) && a.reserved_of(w) == b.reserved_of(w)
}

/// Accounts other than `x` and `y` keep their balances from `pre` to `post`.
pub open spec fn others_unchanged<C: Currency>(pre: C, post: C, x: u64, y: u64) -> bool {
    &&& post.minimum_balance() == pre.minimum_balance()
    &&& forall|w: u64|
        #![trigger post.free_of(w)]
        #![trigger post.reserved_of(w)]
        w != x && w != y ==> post.free_of(w) == pre.free_of(w) && post.reserved_of(w)
            == pre.reserved_of(w)
}

/// `amount` can be moved from `who`'s free balance into reserve.
pub open spec fn can_reserve<C: Currency>(l: C, who: u64, amount: u128) -> bool {
    l.free_of(who) >= amount && l.reserved_of(who) + amount <= MAX_BALANCE
}

/// `post` is `pre` with `amount` of `who`'s free balance moved into reserve.
pub open spec fn reserved<C: Currency>(pre: C, post: C, who: u64, amount: u128) -> bool {
    &&& post.free_of(who) == pre.free_of(who) - amount
    &&& post.reserved_of(who) == pre.reserved_of(who) + amount
    &&& others_unchanged(pre, post, who, who)
}

/// The part of `amount` that `who` holds in reserve.
pub open spec fn released_part<C: Currency>(l: C, who: u64, amount: u128) -> u128 {
    if amount <= l.reserved_of(who) {
        amount
    } else {
        l.reserved_of(who)
    }
}

/// `x + y`, or the largest balance where that overflows.
pub open spec fn saturating(x: int, y: int) -> u128 {
    if x + y <= MAX_BALANCE {
        (x + y) as u128
    } else {
        MAX_BALANCE
    }
}

/// Balances of one account.
#[derive(Clone, Copy, Debug, PartialEq, Eq)]
pub struct AccountData {
    pub free: u128,
    pub reserved: u128,
}

/// An in-memory ledger: each account's free and reserved balance, and the
/// minimum balance that a payer keeps.
pub struct Balances {
    accounts: HashMap<u64, AccountData>,
    minimum: u128,
}

impl Balances {
    /// The balances of `who`; zero for an account never seen.
    pub closed spec fn account(&self, who: u64) -> AccountData {
        if self.accounts@.contains_key(who) {
            self.accounts@[who]
        } else {
            AccountData { free: 0, reserved: 0 }
        }
    }

    /// An empty ledger in which a payer keeps at least `minimum`.
    pub fn new(minimum: u128) -> (r: Balances)
        ensures
            r.minimum_balance() == minimum,
            forall|w: u64|
                #![trigger r.free_of(w)]
                #![trigger r.reserved_of(w)]
                r.free_of(w) == 0 && r.reserved_of(w) == 0,
    {
        Balances { accounts: HashMap::new(), minimum }
    }

    fn get(&self, who: u64) -> (r: AccountData)
        ensures
            r == self.account(who),
    {
        match self.accounts.get(&who) {
            Some(a) => *a,
            None => AccountData { free: 0, reserved: 0 },
        }
    }

    fn put(&mut self, who: u64, a: AccountData)
        ensures
            final(self).minimum == old(self).minimum,
            final(self).account(who) == a,
            forall|w: u64| w != who ==> #[trigger] final(self).account(w) == old(self).account(w),
    {
        self.accounts.insert(who, a);
    }

    /// Sets the free balance of `who` to `amount`, leaving its reserve.
    pub fn make_free_balance_be(&mut self, who: u64, amount: u128)
        ensures
            final(self).free_of(who) == amount,
            final(self).reserved_of(who) == old(self).reserved_of(who),
            others_unchanged(*old(self), *final(self), who, who),
    {
        let a = self.get(who);
        self.put(who, AccountData { free: amount, reserved: a.reserved });
    }

    /// The balance of `who` held in reserve.
    pub fn reserved_balance(&self, who: u64) -> (r: u128)
        ensures
            r == self.reserved_of(who),
    {
        self.get(who).reserved
    }
}

impl Currency for Balances {
    closed spec fn free_of(&self, who: u64) -> u128 {
        self.account(who).free
    }

    closed spec fn reserved_of(&self, who: u64) -> u128 {
        self.account(who).reserved
    }

    closed spec fn minimum_balance(&self) -> u128 {
        self.minimum
    }

    fn free_balance(&self, who: u64) -> (r: u128) {
        self.get(who).free
    }

    fn reserve(&mut self, who: u64, amount: u128) -> (r: Result<(), ()>) {
        let a = self.get(who);
        if a.free < amount || a.reserved > MAX_BALANCE - amount {
            return Err(());
        }
        self.put(who, AccountData { free: a.free - amount, reserved: a.reserved + amount });
        Ok(())
    }

    fn unreserve(&mut self, who: u64, amount: u128) -> (rest: u128) {
        let a = self.get(who);
        let part = if amount <= a.reserved {
            amount
        } else {
            a.reserved
        };
        let free = if a.free <= MAX_BALANCE - part {
            a.free + part
        } else {
            MAX_BALANCE
        };
        self.put(who, AccountData { free, reserved: a.reserved - part });
        amount - part
    }

    fn transfer(&mut self, from: u64, to: u64, amount: u128) -> (r: Result<(), ()>) {
        let a = self.get(from);
        let b = self.get(to);
        if a.free < amount || a.free - amount < self.minimum || b.free > MAX_BALANCE - amount {
            return Err(());
        }
        self.put(from, AccountData { free: a.free - amount, reserved: a.reserved });
        self.put(to, AccountData { free: b.free + amount, reserved: b.reserved });
        Ok(())
    }
}

} // verus!
