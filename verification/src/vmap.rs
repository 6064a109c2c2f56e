//! A small association map with `u64` keys, kept as a vector of entries
//! with pairwise-distinct keys.
//!
//! The agreement rounds, the vote tallies and the per-round states of the
//! binary agreement are keyed by values that are not party indices (round
//! numbers, proposed values), so the party-indexed tables do not apply;
//! this map does.

use vstd::prelude::*;

verus! {

/// Whether some entry carries key `k`.
pub open spec fn has_key<V>(s: Seq<(u64, V)>, k: u64) -> bool
    decreases s.len(),
{
    if s.len() == 0 {
        false
    } else {
        s.last().0 == k || has_key(s.drop_last(), k)
    }
}

/// The value of the last entry carrying key `k`.
pub open spec fn val_of<V>(s: Seq<(u64, V)>, k: u64) -> V
    recommends
        has_key(s, k),
    decreases s.len(),
{
    if s.len() == 0 {
        arbitrary()
    } else if s.last().0 == k {
        s.last().1
    } else {
        val_of(s.drop_last(), k)
    }
}

/// Removing an entry with another key changes nothing about key `q`.
pub proof fn lemma_remove_other_key<V>(s: Seq<(u64, V)>, i: int, q: u64)
    requires
        0 <= i < s.len(),
        s[i].0 != q,
    ensures
        has_key(s.remove(i), q) == has_key(s, q),
        has_key(s, q) ==> val_of(s.remove(i), q) == val_of(s, q),
    decreases s.len(),
{
    if i == s.len() - 1 {
        assert(s.remove(i) =~= s.drop_last());
    } else {
        assert(s.remove(i).last() == s.last());
        assert(s.remove(i).drop_last() =~= s.drop_last().remove(i));
        if s.last().0 != q {
            lemma_remove_other_key(s.drop_last(), i, q);
        }
    }
}

/// No entry of `s` carries `k` when a full scan found none.
pub proof fn lemma_no_key<V>(s: Seq<(u64, V)>, k: u64)
    requires
        forall|i: int| 0 <= i < s.len() ==> (#[trigger] s[i]).0 != k,
    ensures
        !has_key(s, k),
    decreases s.len(),
{
    if s.len() > 0 {
        lemma_no_key(s.drop_last(), k);
    }
}

/// The entry at a scan hit is the value of its key, when keys are distinct.
pub proof fn lemma_found_key<V>(s: Seq<(u64, V)>, i: int)
    requires
        0 <= i < s.len(),
        forall|a: int, b: int| 0 <= a < b < s.len() ==> (#[trigger] s[a]).0 != (#[trigger] s[b]).0,
    ensures
        has_key(s, s[i].0),
        val_of(s, s[i].0) == s[i].1,
    decreases s.len(),
{
    if i < s.len() - 1 {
        lemma_found_key(s.drop_last(), i);
    }
}

/// An association map whose entries carry pairwise-distinct keys.
pub struct VMap<V> {
    pub entries: Vec<(u64, V)>,
}

impl<V> VMap<V> {
    /// Distinct keys: the representation invariant.
    pub open spec fn wf(&self) -> bool {
        forall|a: int, b: int| 0 <= a < b < self.entries@.len() ==>
            (#[trigger] self.entries@[a]).0 != (#[trigger] self.entries@[b]).0
    }

    pub open spec fn spec_has(&self, k: u64) -> bool {
        has_key(self.entries@, k)
    }

    pub open spec fn spec_get(&self, k: u64) -> V
        recommends
            self.spec_has(k),
    {
        val_of(self.entries@, k)
    }

    pub fn new() -> (r: VMap<V>)
        ensures
            r.wf(),
            r.entries@.len() == 0,
            forall|k: u64| !(#[trigger] has_key(r.entries@, k)),
    {
        let r = VMap { entries: Vec::new() };
        proof {
            assert forall|k: u64| !(#[trigger] has_key(r.entries@, k)) by {
                lemma_no_key(r.entries@, k);
            }
        }
        r
    }

    pub fn contains(&self, k: u64) -> (r: bool)
        requires
            self.wf(),
        ensures
            r == self.spec_has(k),
    {
        let mut i: usize = 0;
        while i < self.entries.len()
            invariant
                i <= self.entries@.len(),
                forall|j: int| 0 <= j < i ==> (#[trigger] self.entries@[j]).0 != k,
                self.wf(),
            decreases self.entries@.len() - i,
        {
            if self.entries[i].0 == k {
                proof {
                    lemma_found_key(self.entries@, i as int);
                }
                return true;
            }
            i = i + 1;
        }
        proof {
            lemma_no_key(self.entries@, k);
        }
        false
    }

    pub fn get(&self, k: u64) -> (r: Option<&V>)
        requires
            self.wf(),
        ensures
            r is Some <==> self.spec_has(k),
            r is Some ==> *r->Some_0 == self.spec_get(k),
    {
        let mut i: usize = 0;
        while i < self.entries.len()
            invariant
                i <= self.entries@.len(),
                forall|j: int| 0 <= j < i ==> (#[trigger] self.entries@[j]).0 != k,
                self.wf(),
            decreases self.entries@.len() - i,
        {
            if self.entries[i].0 == k {
                proof {
                    lemma_found_key(self.entries@, i as int);
                }
                return Some(&self.entries[i].1);
            }
            i = i + 1;
        }
        proof {
            lemma_no_key(self.entries@, k);
        }
        None
    }

    /// Removes and returns the entry of `k`, when present.
    pub fn take(&mut self, k: u64) -> (r: Option<V>)
        requires
            old(self).wf(),
        ensures
            final(self).wf(),
            r is Some <==> old(self).spec_has(k),
            r is Some ==> r->Some_0 == old(self).spec_get(k),
            r is None ==> *final(self) == *old(self),
            !final(self).spec_has(k),
            forall|q: u64| q != k ==> #[trigger] has_key(final(self).entries@, q)
                == has_key(old(self).entries@, q),
            forall|q: u64| q != k && has_key(old(self).entries@, q) ==>
                #[trigger] val_of(final(self).entries@, q) == val_of(old(self).entries@, q),
    {
        let mut i: usize = 0;
        while i < self.entries.len()
            invariant
                i <= self.entries@.len(),
                forall|j: int| 0 <= j < i ==> (#[trigger] self.entries@[j]).0 != k,
                self.wf(),
                self == old(self),
            decreases self.entries@.len() - i,
        {
            if self.entries[i].0 == k {
                proof {
                    lemma_found_key(self.entries@, i as int);
                }
                let e = self.entries.remove(i);
                proof {
                    assert forall|q: u64| q != k implies
                        #[trigger] has_key(self.entries@, q) == has_key(old(self).entries@, q) by {
                        lemma_remove_other_key(old(self).entries@, i as int, q);
                    }
                    assert forall|q: u64| q != k && has_key(old(self).entries@, q) implies
                        #[trigger] val_of(self.entries@, q) == val_of(old(self).entries@, q) by {
                        lemma_remove_other_key(old(self).entries@, i as int, q);
                    }
                    assert forall|j: int| 0 <= j < self.entries@.len() implies
                        (#[trigger] self.entries@[j]).0 != k by {
                        if j < i {
                        } else {
                            assert(self.entries@[j] == old(self).entries@[j + 1]);
                        }
                    }
                    lemma_no_key(self.entries@, k);
                }
                return Some(e.1);
            }
            i = i + 1;
        }
        proof {
            lemma_no_key(self.entries@, k);
        }
        None
    }

    /// Inserts or replaces the entry of `k`.
    pub fn set(&mut self, k: u64, v: V)
        requires
            old(self).wf(),
        ensures
            final(self).wf(),
            final(self).spec_has(k),
            final(self).spec_get(k) == v,
            forall|q: u64| q != k ==> #[trigger] has_key(final(self).entries@, q)
                == has_key(old(self).entries@, q),
            forall|q: u64| q != k && has_key(old(self).entries@, q) ==>
                #[trigger] val_of(final(self).entries@, q) == val_of(old(self).entries@, q),
    {
        let taken = self.take(k);
        let ghost mid = *self;
        proof {
            if taken is Some {
            }
        }
        self.entries.push((k, v));
        proof {
            assert(self.entries@.drop_last() =~= mid.entries@);
            assert(self.entries@.last() == (k, v));
            assert(has_key(self.entries@, k));
            assert(val_of(self.entries@, k) == v);
            assert forall|q: u64| q != k implies
                #[trigger] has_key(self.entries@, q) == has_key(old(self).entries@, q) by {
                assert(has_key(self.entries@, q) == has_key(mid.entries@, q));
                assert(mid.spec_has(q) == old(self).spec_has(q));
            }
            assert forall|q: u64| q != k && has_key(old(self).entries@, q) implies
                #[trigger] val_of(self.entries@, q) == val_of(old(self).entries@, q) by {
                assert(mid.spec_has(q) == old(self).spec_has(q));
                assert(has_key(mid.entries@, q));
                assert(val_of(self.entries@, q) == val_of(mid.entries@, q));
                assert(mid.spec_get(q) == old(self).spec_get(q));
            }
            assert forall|a: int, b: int| 0 <= a < b < self.entries@.len() implies
                (#[trigger] self.entries@[a]).0 != (#[trigger] self.entries@[b]).0 by {
                if b == self.entries@.len() - 1 {
                    if self.entries@[a].0 == k {
                        lemma_found_key(mid.entries@, a);
                    }
                }
            }
        }
    }
}

} // verus!
