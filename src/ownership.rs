//! The ownership index: for each account, the IDs it owns, in a list whose
//! length is bounded by a fixed capacity.
use std::collections::HashMap;
use vstd::prelude::*;

verus! {

broadcast use vstd::std_specs::hash::group_hash_axioms;

/// Why the index refused a change.
#[derive(Clone, Copy, Debug, PartialEq, Eq)]
pub enum IndexError {
    /// The account already holds as many IDs as the capacity allows.
    CapacityExceeded,
    /// The account does not hold the ID.
    NotFound,
}

/// Position of the first occurrence of `id` in `s` (`s.len()` if absent).
pub open spec fn first_index(s: Seq<u32>, id: u32) -> int
    decreases s.len(),
{
    if s.len() == 0 {
        0
    } else if s[0] == id {
        0
    } else {
        1 + first_index(s.subrange(1, s.len() as int), id)
    }
}

/// `s` with its element at `i` replaced by its last element, and the last
/// element dropped.
pub open spec fn swap_removed_at(s: Seq<u32>, i: int) -> Seq<u32> {
    s.update(i, s.last()).drop_last()
}

/// `s` with the first occurrence of `id` taken out by a swap-remove.
pub open spec fn without(s: Seq<u32>, id: u32) -> Seq<u32> {
    swap_removed_at(s, first_index(s, id))
}

/// Before the first occurrence of `id`, no element is `id`; at it, one is.
pub proof fn lemma_first_index(s: Seq<u32>, id: u32, i: int)
    requires
        0 <= i < s.len(),
        s[i] == id,
        forall|j: int| 0 <= j < i ==> s[j] != id,
    ensures
        first_index(s, id) == i,
    decreases i,
{
    if i > 0 {
        let t = s.subrange(1, s.len() as int);
        assert forall|j: int| 0 <= j < i - 1 implies t[j] != id by {
            assert(t[j] == s[j + 1]);
        }
        lemma_first_index(t, id, i - 1);
    }
}

/// Taking a held ID out of a list without repeats leaves a list without
/// repeats, one shorter, that holds every other ID it held and nothing else.
pub proof fn lemma_without(s: Seq<u32>, id: u32)
    requires
        s.no_duplicates(),
        s.contains(id),
    ensures
        without(s, id).len() == s.len() - 1,
        without(s, id).no_duplicates(),
        forall|x: u32| #[trigger] without(s, id).contains(x) <==> s.contains(x) && x != id,
{
    let i = choose|i: int| 0 <= i < s.len() && s[i] == id;
    assert forall|j: int| 0 <= j < i implies s[j] != id by {}
    lemma_first_index(s, id, i);
    let r = without(s, id);
    let n = s.len() - 1;
    assert(r.len() == n);
    assert forall|a: int, b: int| 0 <= a < r.len() && 0 <= b < r.len() && a != b implies r[a]
        != r[b] by {
        let sa = if a == i { n } else { a };
        let sb = if b == i { n } else { b };
        assert(r[a] == s[sa]);
        assert(r[b] == s[sb]);
    }
    assert forall|x: u32| r.contains(x) <==> s.contains(x) && x != id by {
        if r.contains(x) {
            let k = choose|k: int| 0 <= k < r.len() && r[k] == x;
            let sk = if k == i { n } else { k };
            assert(s[sk] == x);
            assert(sk != i);
        }
        if s.contains(x) && x != id {
            let k = choose|k: int| 0 <= k < s.len() && s[k] == x;
            assert(k != i);
            if k == n {
                assert(r[i] == x);
            } else {
                assert(r[k] == x);
            }
        }
    }
}

/// Appending an ID that a list without repeats lacks leaves it without
/// repeats, holding that ID besides the others.
pub proof fn lemma_push_fresh(s: Seq<u32>, id: u32)
    requires
        s.no_duplicates(),
        !s.contains(id),
    ensures
        s.push(id).no_duplicates(),
        forall|x: u32| #[trigger] s.push(id).contains(x) <==> s.contains(x) || x == id,
{
    let r = s.push(id);
    assert forall|a: int, b: int| 0 <= a < r.len() && 0 <= b < r.len() && a != b implies r[a]
        != r[b] by {
        if a < s.len() && b < s.len() {
            assert(r[a] == s[a] && r[b] == s[b]);
        } else if a < s.len() {
            assert(r[a] == s[a]);
        } else {
            assert(r[b] == s[b]);
        }
    }
    assert forall|x: u32| r.contains(x) <==> s.contains(x) || x == id by {
        if r.contains(x) {
            let k = choose|k: int| 0 <= k < r.len() && r[k] == x;
            if k < s.len() {
                assert(s[k] == x);
            }
        }
        if s.contains(x) {
            let k = choose|k: int| 0 <= k < s.len() && s[k] == x;
            assert(r[k] == x);
        }
        if x == id {
            assert(r[s.len() as int] == x);
        }
    }
}

/// For each account, the IDs it owns; no list grows past the capacity.
pub struct OwnershipIndex {
    lists: HashMap<u64, Vec<u32>>,
    max_owned: u32,
}

impl OwnershipIndex {
    /// The IDs that `who` owns, in list order (empty for an account never seen).
    pub closed spec fn owned(&self, who: u64) -> Seq<u32> {
        if self.lists@.contains_key(who) {
            self.lists@[who]@
        } else {
            seq![]
        }
    }

    /// The most IDs one account may hold.
    pub closed spec fn capacity(&self) -> nat {
        self.max_owned as nat
    }

    /// No account holds more IDs than the capacity.
    pub open spec fn wf(&self) -> bool {
        forall|w: u64| #[trigger] self.owned(w).len() <= self.capacity()
    }

    /// An index in which no account owns anything yet.
    pub fn new(max_owned: u32) -> (r: OwnershipIndex)
        ensures
            r.wf(),
            r.capacity() == max_owned,
            forall|w: u64| #[trigger] r.owned(w) == Seq::<u32>::empty(),
    {
        OwnershipIndex { lists: HashMap::new(), max_owned }
    }

    /// The most IDs one account may hold.
    pub fn max_owned(&self) -> (r: u32)
        ensures
            r == self.capacity(),
    {
        self.max_owned
    }

    /// How many IDs `who` owns.
    pub fn count(&self, who: u64) -> (r: usize)
        ensures
            r == self.owned(who).len(),
    {
        match self.lists.get(&who) {
            Some(v) => v.len(),
            None => 0,
        }
    }

    /// The IDs that `who` owns, in list order.
    pub fn owned_ids(&self, who: u64) -> (r: Vec<u32>)
        ensures
            r@ == self.owned(who),
    {
        let mut r: Vec<u32> = Vec::new();
        match self.lists.get(&who) {
            Some(v) => {
                let mut i: usize = 0;
                while i < v.len()
                    invariant
                        0 <= i <= v.len(),
                        r@ == v@.subrange(0, i as int),
                    decreases v.len() - i,
                {
                    r.push(v[i]);
                    i += 1;
                }
                assert(r@ =~= v@);
            },
            None => {},
        }
        r
    }

    /// Appends `id` to the list of `who`; fails, changing nothing, when that
    /// list is already at capacity.
    pub fn add(&mut self, who: u64, id: u32) -> (r: Result<(), IndexError>)
        requires
            old(self).wf(),
        ensures
            final(self).wf(),
            final(self).capacity() == old(self).capacity(),
            r is Ok <==> old(self).owned(who).len() < old(self).capacity(),
            r is Err ==> r == Err::<(), IndexError>(IndexError::CapacityExceeded) && *final(self)
                == *old(self),
            r is Ok ==> final(self).owned(who) == old(self).owned(who).push(id),
            forall|w: u64| w != who ==> #[trigger] final(self).owned(w) == old(self).owned(w),
    {
        if self.count(who) >= self.max_owned as usize {
            return Err(IndexError::CapacityExceeded);
        }
        let mut list = match self.lists.remove(&who) {
            Some(v) => v,
            None => Vec::new(),
        };
        list.push(id);
        self.lists.insert(who, list);
        assert(self.owned(who) == old(self).owned(who).push(id));
        assert forall|w: u64| w != who implies #[trigger] self.owned(w) == old(self).owned(w) by {}
        Ok(())
    }

    /// Takes the first occurrence of `id` out of the list of `who`, moving
    /// the last ID into its place; fails, changing nothing, when `who` does
    /// not hold `id`.
    pub fn remove(&mut self, who: u64, id: u32) -> (r: Result<(), IndexError>)
        requires
            old(self).wf(),
        ensures
            final(self).wf(),
            final(self).capacity() == old(self).capacity(),
            r is Ok <==> old(self).owned(who).contains(id),
            r is Err ==> r == Err::<(), IndexError>(IndexError::NotFound) && *final(self)
                == *old(self),
            r is Ok ==> final(self).owned(who) == without(old(self).owned(who), id),
            forall|w: u64| w != who ==> #[trigger] final(self).owned(w) == old(self).owned(w),
    {
        let pos: Option<usize> = match self.lists.get(&who) {
            Some(v) => {
                let mut i: usize = 0;
                while i < v.len() && v[i] != id
                    invariant
                        0 <= i <= v.len(),
                        forall|j: int| 0 <= j < i ==> v@[j] != id,
                    decreases v.len() - i,
                {
                    i += 1;
                }
                if i < v.len() {
                    proof {
                        lemma_first_index(v@, id, i as int);
                    }
                    Some(i)
                } else {
                    None
                }
            },
            None => None,
        };
        match pos {
            None => Err(IndexError::NotFound),
            Some(i) => {
                let mut list = match self.lists.remove(&who) {
                    Some(v) => v,
                    None => Vec::new(),
                };
                list.swap_remove(i);
                self.lists.insert(who, list);
                assert(self.owned(who).len() == old(self).owned(who).len() - 1);
                assert forall|w: u64| w != who implies #[trigger] self.owned(w) == old(
                    self,
                ).owned(w) by {}
                assert forall|w: u64| #[trigger] self.owned(w).len() <= self.capacity() by {
                    if w != who {
                        assert(self.owned(w) == old(self).owned(w));
                    }
                }
                Ok(())
            },
        }
    }
}

} // verus!
