//! Party-indexed sets and maps.
//!
//! Every protocol participant is a party identifier in `[0, n)`, so the
//! per-party bookkeeping of each sub-protocol is kept in fixed-length
//! vectors indexed by party. This keeps iteration order deterministic,
//! which the rank computation and the leader election rely on.

use vstd::prelude::*;

verus! {

/// Number of `true` entries of a boolean sequence.
pub open spec fn count_trues(s: Seq<bool>) -> nat
    decreases s.len(),
{
    if s.len() == 0 {
        0
    } else {
        count_trues(s.drop_last()) + (if s.last() { 1nat } else { 0nat })
    }
}

/// The set of indices at which a boolean sequence holds `true`.
pub open spec fn true_indices(s: Seq<bool>) -> Set<int> {
    Set::new(|i: int| 0 <= i < s.len() && s[i])
}

/// A set of parties drawn from `[0, n)`.
pub struct PartySet {
    pub mem: Vec<bool>,
}

impl PartySet {
    /// Membership as a mathematical set of party indices.
    pub open spec fn view_set(&self) -> Set<int> {
        true_indices(self.mem@)
    }

    pub open spec fn spec_n(&self) -> int {
        self.mem@.len() as int
    }

    pub open spec fn spec_contains(&self, p: int) -> bool {
        0 <= p < self.mem@.len() && self.mem@[p]
    }

    pub open spec fn spec_count(&self) -> nat {
        count_trues(self.mem@)
    }

    /// The empty set over `n` parties.
    pub fn empty(n: usize) -> (r: PartySet)
        ensures
            r.mem@.len() == n,
            forall|p: int| 0 <= p < n ==> !r.mem@[p],
            r.spec_count() == 0,
    {
        let mut mem: Vec<bool> = Vec::new();
        let mut i: usize = 0;
        while i < n
            invariant
                i <= n,
                mem@.len() == i,
                forall|p: int| 0 <= p < i ==> !mem@[p],
                count_trues(mem@) == 0,
            decreases n - i,
        {
            proof {
                assert(mem@.push(false).drop_last() =~= mem@);
            }
            mem.push(false);
            i = i + 1;
        }
        PartySet { mem }
    }

    pub fn contains(&self, p: usize) -> (r: bool)
        ensures
            r == self.spec_contains(p as int),
    {
        p < self.mem.len() && self.mem[p]
    }

    /// Inserts `p`; a no-op when `p` is already a member.
    pub fn insert(&mut self, p: usize)
        requires
            (p as int) < old(self).spec_n(),
        ensures
            final(self).mem@ =~= old(self).mem@.update(p as int, true),
            final(self).spec_n() == old(self).spec_n(),
            final(self).spec_contains(p as int),
            forall|q: int| 0 <= q < old(self).spec_n() && q != p ==>
                final(self).spec_contains(q) == old(self).spec_contains(q),
            old(self).spec_contains(p as int) ==> final(self).mem@ =~= old(self).mem@,
            final(self).spec_count() ==
                old(self).spec_count() + (if old(self).spec_contains(p as int) { 0nat } else { 1nat }),
    {
        proof {
            lemma_count_update(self.mem@, p as int);
        }
        let ghost before = self.mem@;
        self.mem.set(p, true);
        proof {
            if before[p as int] {
                assert(self.mem@ =~= before);
            }
        }
    }

    /// Removes `p`; a no-op when `p` is not a member.
    pub fn remove(&mut self, p: usize)
        requires
            (p as int) < old(self).spec_n(),
        ensures
            final(self).mem@ =~= old(self).mem@.update(p as int, false),
            final(self).spec_n() == old(self).spec_n(),
            !final(self).spec_contains(p as int),
            forall|q: int| 0 <= q < old(self).spec_n() && q != p ==>
                final(self).spec_contains(q) == old(self).spec_contains(q),
            final(self).spec_count() ==
                old(self).spec_count() - (if old(self).spec_contains(p as int) { 1nat } else { 0nat }),
    {
        proof {
            lemma_count_update_false(self.mem@, p as int);
        }
        self.mem.set(p, false);
    }

    /// Number of members.
    pub fn count(&self) -> (c: usize)
        ensures
            c == self.spec_count(),
    {
        let mut c: usize = 0;
        let mut i: usize = 0;
        while i < self.mem.len()
            invariant
                i <= self.mem@.len(),
                c == count_trues(self.mem@.take(i as int)),
                c <= i,
            decreases self.mem@.len() - i,
        {
            proof {
                assert(self.mem@.take(i + 1).drop_last() =~= self.mem@.take(i as int));
                assert(self.mem@.take(i + 1).last() == self.mem@[i as int]);
            }
            if self.mem[i] {
                c = c + 1;
            }
            i = i + 1;
        }
        proof {
            assert(self.mem@.take(self.mem@.len() as int) =~= self.mem@);
        }
        c
    }

    pub fn is_empty(&self) -> (r: bool)
        ensures
            r == (self.spec_count() == 0),
            r == (forall|p: int| 0 <= p < self.spec_n() ==> !self.spec_contains(p)),
    {
        let mut i: usize = 0;
        while i < self.mem.len()
            invariant
                i <= self.mem@.len(),
                count_trues(self.mem@.take(i as int)) == 0,
                forall|p: int| 0 <= p < i ==> !self.mem@[p],
            decreases self.mem@.len() - i,
        {
            proof {
                assert(self.mem@.take(i + 1).drop_last() =~= self.mem@.take(i as int));
                assert(self.mem@.take(i + 1).last() == self.mem@[i as int]);
            }
            if self.mem[i] {
                proof {
                    lemma_count_bounds(self.mem@, i as int);
                    assert(self.spec_contains(i as int));
                }
                return false;
            }
            i = i + 1;
        }
        proof {
            assert(self.mem@.take(self.mem@.len() as int) =~= self.mem@);
        }
        true
    }

    /// The members in increasing order.
    pub fn to_vec(&self) -> (r: Vec<usize>)
        ensures
            r@ == members_below(self.mem@, self.spec_n()),
            forall|j: int| 0 <= j < r@.len() ==> self.spec_contains(r@[j] as int),
            forall|p: int| 0 <= p < self.spec_n() && self.spec_contains(p) ==>
                members_below(self.mem@, self.spec_n()).contains(p as usize),
    {
        let mut r: Vec<usize> = Vec::new();
        let mut i: usize = 0;
        while i < self.mem.len()
            invariant
                i <= self.mem@.len(),
                r@ == members_below(self.mem@, i as int),
                forall|j: int| 0 <= j < r@.len() ==> 0 <= #[trigger] r@[j] < i && self.mem@[r@[j] as int],
            decreases self.mem@.len() - i,
        {
            if self.mem[i] {
                r.push(i);
            }
            i = i + 1;
        }
        proof {
            lemma_members_below_complete(self.mem@, self.spec_n());
        }
        r
    }
}

/// The parties below `k` that are members, in increasing order.
pub open spec fn members_below(s: Seq<bool>, k: int) -> Seq<usize>
    decreases k,
{
    if k <= 0 {
        Seq::empty()
    } else {
        if s[k - 1] {
            members_below(s, k - 1).push((k - 1) as usize)
        } else {
            members_below(s, k - 1)
        }
    }
}

/// The member count is the cardinality of the membership view, so the
/// counting laws over mathematical sets apply to these sets.
pub proof fn lemma_count_is_view_len(s: Seq<bool>)
    ensures
        true_indices(s).finite(),
        count_trues(s) == true_indices(s).len(),
    decreases s.len(),
{
    if s.len() == 0 {
        assert(true_indices(s) =~= Set::empty());
    } else {
        lemma_count_is_view_len(s.drop_last());
        if s.last() {
            assert(true_indices(s) =~= true_indices(s.drop_last()).insert(s.len() - 1));
        } else {
            assert(true_indices(s) =~= true_indices(s.drop_last()));
        }
    }
}

/// A count never exceeds the sequence length.
pub proof fn lemma_count_le_len(s: Seq<bool>)
    ensures
        count_trues(s) <= s.len(),
    decreases s.len(),
{
    if s.len() > 0 {
        lemma_count_le_len(s.drop_last());
    }
}

/// The member list is as long as the member count.
pub proof fn lemma_members_below_count(s: Seq<bool>, k: int)
    requires
        0 <= k <= s.len(),
    ensures
        members_below(s, k).len() == count_trues(s.take(k)),
    decreases k,
{
    if k > 0 {
        lemma_members_below_count(s, k - 1);
        assert(s.take(k).drop_last() =~= s.take(k - 1));
        assert(s.take(k).last() == s[k - 1]);
    }
}

pub proof fn lemma_members_below_complete(s: Seq<bool>, k: int)
    requires
        k <= s.len(),
    ensures
        forall|p: int| 0 <= p < k && s[p] ==> members_below(s, k).contains(p as usize),
    decreases k,
{
    if k > 0 {
        lemma_members_below_complete(s, k - 1);
        assert forall|p: int| 0 <= p < k && s[p] implies members_below(s, k).contains(p as usize) by {
            if p == k - 1 {
                assert(members_below(s, k)[members_below(s, k).len() - 1] == p as usize);
            } else {
                assert(members_below(s, k - 1).contains(p as usize));
                let j = choose|j: int|
                    0 <= j < members_below(s, k - 1).len() && #[trigger] members_below(s, k - 1)[j] == p as usize;
                assert(members_below(s, k)[j] == p as usize);
            }
        }
    }
}

/// Updating one entry to `true` adjusts the count by whether it was already set.
pub proof fn lemma_count_update(s: Seq<bool>, i: int)
    requires
        0 <= i < s.len(),
    ensures
        count_trues(s.update(i, true)) == count_trues(s) + (if s[i] { 0nat } else { 1nat }),
    decreases s.len(),
{
    if i == s.len() - 1 {
        assert(s.update(i, true).drop_last() =~= s.drop_last());
    } else {
        assert(s.update(i, true).drop_last() =~= s.drop_last().update(i, true));
        lemma_count_update(s.drop_last(), i);
    }
}

/// Updating one entry to `false` adjusts the count by whether it was set.
pub proof fn lemma_count_update_false(s: Seq<bool>, i: int)
    requires
        0 <= i < s.len(),
    ensures
        count_trues(s.update(i, false)) == count_trues(s) - (if s[i] { 1nat } else { 0nat }),
    decreases s.len(),
{
    if i == s.len() - 1 {
        assert(s.update(i, false).drop_last() =~= s.drop_last());
    } else {
        assert(s.update(i, false).drop_last() =~= s.drop_last().update(i, false));
        lemma_count_update_false(s.drop_last(), i);
    }
}

/// A set with a `true` entry has a positive count.
pub proof fn lemma_count_bounds(s: Seq<bool>, i: int)
    requires
        0 <= i < s.len(),
        s[i],
    ensures
        count_trues(s) >= 1,
    decreases s.len(),
{
    if i < s.len() - 1 {
        lemma_count_bounds(s.drop_last(), i);
    }
}

/// A map from parties in `[0, n)` to values.
pub struct PartyMap<V> {
    pub slots: Vec<Option<V>>,
}

impl<V> PartyMap<V> {
    pub open spec fn spec_n(&self) -> int {
        self.slots@.len() as int
    }

    pub open spec fn spec_has(&self, p: int) -> bool {
        0 <= p < self.slots@.len() && self.slots@[p] is Some
    }

    pub open spec fn spec_get(&self, p: int) -> V
        recommends
            self.spec_has(p),
    {
        self.slots@[p]->Some_0
    }

    /// Number of filled slots.
    pub open spec fn spec_count(&self) -> nat {
        count_trues(Seq::new(self.slots@.len(), |i: int| self.slots@[i] is Some))
    }

    /// Which slots are filled.
    pub open spec fn occupancy(&self) -> Seq<bool> {
        Seq::new(self.slots@.len(), |i: int| self.slots@[i] is Some)
    }

    /// The filled slots, in increasing order.
    pub open spec fn holders(&self) -> Seq<usize> {
        members_below(self.occupancy(), self.spec_n())
    }

    pub fn empty(n: usize) -> (r: PartyMap<V>)
        ensures
            r.spec_n() == n,
            forall|p: int| 0 <= p < n ==> !r.spec_has(p),
            r.spec_count() == 0,
    {
        let mut slots: Vec<Option<V>> = Vec::new();
        let mut i: usize = 0;
        while i < n
            invariant
                i <= n,
                slots@.len() == i,
                forall|p: int| 0 <= p < i ==> slots@[p] is None,
            decreases n - i,
        {
            slots.push(None);
            i = i + 1;
        }
        proof {
            lemma_count_all_false(Seq::new(slots@.len(), |i: int| slots@[i] is Some));
        }
        PartyMap { slots }
    }

    pub fn has(&self, p: usize) -> (r: bool)
        ensures
            r == self.spec_has(p as int),
    {
        p < self.slots.len() && self.slots[p].is_some()
    }

    pub fn get(&self, p: usize) -> (r: Option<&V>)
        requires
            (p as int) < self.spec_n(),
        ensures
            self.spec_has(p as int) ==> r is Some && *r->Some_0 == self.spec_get(p as int),
            !self.spec_has(p as int) ==> r is None,
    {
        self.slots[p].as_ref()
    }

    /// Inserts or replaces the entry of `p`.
    pub fn set(&mut self, p: usize, v: V)
        requires
            (p as int) < old(self).spec_n(),
        ensures
            final(self).slots@ =~= old(self).slots@.update(p as int, Some(v)),
            final(self).spec_n() == old(self).spec_n(),
            final(self).spec_has(p as int),
            final(self).spec_get(p as int) == v,
            forall|q: int| 0 <= q < old(self).spec_n() && q != p ==> {
                &&& final(self).spec_has(q) == old(self).spec_has(q)
                &&& (old(self).spec_has(q) ==> final(self).spec_get(q) == old(self).spec_get(q))
            },
            final(self).spec_count() ==
                old(self).spec_count() + (if old(self).spec_has(p as int) { 0nat } else { 1nat }),
    {
        proof {
            let occ0 = Seq::new(self.slots@.len(), |i: int| self.slots@[i] is Some);
            lemma_count_update(occ0, p as int);
        }
        self.slots.set(p, Some(v));
        proof {
            let occ0 = Seq::new(old(self).slots@.len(), |i: int| old(self).slots@[i] is Some);
            let occ1 = Seq::new(self.slots@.len(), |i: int| self.slots@[i] is Some);
            assert(occ1 =~= occ0.update(p as int, true));
        }
    }

    /// Number of filled slots.
    pub fn count(&self) -> (c: usize)
        ensures
            c == self.spec_count(),
    {
        let ghost occ = Seq::new(self.slots@.len(), |i: int| self.slots@[i] is Some);
        let mut c: usize = 0;
        let mut i: usize = 0;
        while i < self.slots.len()
            invariant
                i <= self.slots@.len(),
                occ == Seq::new(self.slots@.len(), |k: int| self.slots@[k] is Some),
                c == count_trues(occ.take(i as int)),
                c <= i,
            decreases self.slots@.len() - i,
        {
            proof {
                assert(occ.take(i + 1).drop_last() =~= occ.take(i as int));
                assert(occ.take(i + 1).last() == occ[i as int]);
            }
            if self.slots[i].is_some() {
                c = c + 1;
            }
            i = i + 1;
        }
        proof {
            assert(occ.take(occ.len() as int) =~= occ);
        }
        c
    }

    /// Removes and returns the entry of `p`.
    pub fn take(&mut self, p: usize) -> (r: Option<V>)
        requires
            (p as int) < old(self).spec_n(),
        ensures
            final(self).slots@ =~= old(self).slots@.update(p as int, None),
            final(self).spec_n() == old(self).spec_n(),
            !final(self).spec_has(p as int),
            r is Some <==> old(self).spec_has(p as int),
            r is Some ==> r->Some_0 == old(self).spec_get(p as int),
            forall|q: int| 0 <= q < old(self).spec_n() && q != p ==> {
                &&& final(self).spec_has(q) == old(self).spec_has(q)
                &&& (old(self).spec_has(q) ==> final(self).spec_get(q) == old(self).spec_get(q))
            },
            final(self).spec_count() ==
                old(self).spec_count() - (if old(self).spec_has(p as int) { 1nat } else { 0nat }),
    {
        proof {
            let occ0 = Seq::new(self.slots@.len(), |i: int| self.slots@[i] is Some);
            lemma_count_update_false(occ0, p as int);
        }
        let v = self.slots.remove(p);
        self.slots.insert(p, None);
        proof {
            assert(self.slots@ =~= old(self).slots@.update(p as int, None));
            let occ0 = Seq::new(old(self).slots@.len(), |i: int| old(self).slots@[i] is Some);
            let occ1 = Seq::new(self.slots@.len(), |i: int| self.slots@[i] is Some);
            assert(occ1 =~= occ0.update(p as int, false));
        }
        v
    }

    /// Removes the entry of `p`; a no-op when absent.
    pub fn remove(&mut self, p: usize)
        requires
            (p as int) < old(self).spec_n(),
        ensures
            final(self).slots@ =~= old(self).slots@.update(p as int, None),
            final(self).spec_n() == old(self).spec_n(),
            !final(self).spec_has(p as int),
            forall|q: int| 0 <= q < old(self).spec_n() && q != p ==> {
                &&& final(self).spec_has(q) == old(self).spec_has(q)
                &&& (old(self).spec_has(q) ==> final(self).spec_get(q) == old(self).spec_get(q))
            },
            final(self).spec_count() ==
                old(self).spec_count() - (if old(self).spec_has(p as int) { 1nat } else { 0nat }),
    {
        proof {
            let occ0 = Seq::new(self.slots@.len(), |i: int| self.slots@[i] is Some);
            lemma_count_update_false(occ0, p as int);
        }
        self.slots.set(p, None);
        proof {
            let occ0 = Seq::new(old(self).slots@.len(), |i: int| old(self).slots@[i] is Some);
            let occ1 = Seq::new(self.slots@.len(), |i: int| self.slots@[i] is Some);
            assert(occ1 =~= occ0.update(p as int, false));
        }
    }
}

/// An all-`false` sequence has count zero.
pub proof fn lemma_count_all_false(s: Seq<bool>)
    requires
        forall|i: int| 0 <= i < s.len() ==> !s[i],
    ensures
        count_trues(s) == 0,
    decreases s.len(),
{
    if s.len() > 0 {
        lemma_count_all_false(s.drop_last());
    }
}

} // verus!
