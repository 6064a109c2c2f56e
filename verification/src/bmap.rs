//! A small association map keyed by byte strings, kept as a vector of
//! entries with pairwise-distinct keys.
//!
//! The embedded broadcast of the key-sharing service tallies echoes and
//! readies per commitment root, an opaque byte string; this map keys them.

use vstd::prelude::*;

verus! {

/// Byte-string equality.
pub fn bytes_eq(a: &Vec<u8>, b: &Vec<u8>) -> (r: bool)
    ensures
        r == (a@ == b@),
{
    if a.len() != b.len() {
        return false;
    }
    let mut i: usize = 0;
    while i < a.len()
        invariant
            i <= a@.len(),
            a@.len() == b@.len(),
            forall|j: int| 0 <= j < i ==> a@[j] == b@[j],
        decreases a@.len() - i,
    {
        if a[i] != b[i] {
            return false;
        }
        i = i + 1;
    }
    proof {
        assert(a@ =~= b@);
    }
    true
}

/// Whether some entry carries key `k`.
pub open spec fn has_bkey<V>(s: Seq<(Vec<u8>, V)>, k: Seq<u8>) -> bool
    decreases s.len(),
{
    if s.len() == 0 {
        false
    } else {
        s.last().0@ == k || has_bkey(s.drop_last(), k)
    }
}

/// The value of the last entry carrying key `k`.
pub open spec fn bval_of<V>(s: Seq<(Vec<u8>, V)>, k: Seq<u8>) -> V
    recommends
        has_bkey(s, k),
    decreases s.len(),
{
    if s.len() == 0 {
        arbitrary()
    } else if s.last().0@ == k {
        s.last().1
    } else {
        bval_of(s.drop_last(), k)
    }
}

/// Removing an entry with another key changes nothing about key `q`.
pub proof fn lemma_bremove_other_key<V>(s: Seq<(Vec<u8>, V)>, i: int, q: Seq<u8>)
    requires
        0 <= i < s.len(),
        s[i].0@ != q,
    ensures
        has_bkey(s.remove(i), q) == has_bkey(s, q),
        has_bkey(s, q) ==> bval_of(s.remove(i), q) == bval_of(s, q),
    decreases s.len(),
{
    if i == s.len() - 1 {
        assert(s.remove(i) =~= s.drop_last());
    } else {
        assert(s.remove(i).last() == s.last());
        assert(s.remove(i).drop_last() =~= s.drop_last().remove(i));
        if s.last().0@ != q {
            lemma_bremove_other_key(s.drop_last(), i, q);
        }
    }
}

/// No entry of `s` carries `k` when a full scan found none.
pub proof fn lemma_no_bkey<V>(s: Seq<(Vec<u8>, V)>, k: Seq<u8>)
    requires
        forall|i: int| 0 <= i < s.len() ==> (#[trigger] s[i]).0@ != k,
    ensures
        !has_bkey(s, k),
    decreases s.len(),
{
    if s.len() > 0 {
        lemma_no_bkey(s.drop_last(), k);
    }
}

/// The entry at a scan hit is the value of its key, when keys are distinct.
pub proof fn lemma_found_bkey<V>(s: Seq<(Vec<u8>, V)>, i: int)
    requires
        0 <= i < s.len(),
        forall|a: int, b: int| 0 <= a < b < s.len() ==>
            (#[trigger] s[a]).0@ != (#[trigger] s[b]).0@,
    ensures
        has_bkey(s, s[i].0@),
        bval_of(s, s[i].0@) == s[i].1,
    decreases s.len(),
{
    if i < s.len() - 1 {
        lemma_found_bkey(s.drop_last(), i);
    }
}

/// An association map with byte-string keys, pairwise distinct.
pub struct BMap<V> {
    pub entries: Vec<(Vec<u8>, V)>,
}

impl<V> BMap<V> {
    /// Distinct keys: the representation invariant.
    pub open spec fn wf(&self) -> bool {
        forall|a: int, b: int| 0 <= a < b < self.entries@.len() ==>
            (#[trigger] self.entries@[a]).0@ != (#[trigger] self.entries@[b]).0@
    }

    pub open spec fn spec_has(&self, k: Seq<u8>) -> bool {
        has_bkey(self.entries@, k)
    }

    pub open spec fn spec_get(&self, k: Seq<u8>) -> V
        recommends
            self.spec_has(k),
    {
        bval_of(self.entries@, k)
    }

    pub fn new() -> (r: BMap<V>)
        ensures
            r.wf(),
            r.entries@.len() == 0,
            forall|k: Seq<u8>| !(#[trigger] has_bkey(r.entries@, k)),
    {
        let r = BMap { entries: Vec::new() };
        proof {
            assert forall|k: Seq<u8>| !(#[trigger] has_bkey(r.entries@, k)) by {
                lemma_no_bkey(r.entries@, k);
            }
        }
        r
    }

    pub fn get(&self, k: &Vec<u8>) -> (r: Option<&V>)
        requires
            self.wf(),
        ensures
            r is Some <==> self.spec_has(k@),
            r is Some ==> *r->Some_0 == self.spec_get(k@),
    {
        let mut i: usize = 0;
        while i < self.entries.len()
            invariant
                i <= self.entries@.len(),
                forall|j: int| 0 <= j < i ==> (#[trigger] self.entries@[j]).0@ != k@,
                self.wf(),
            decreases self.entries@.len() - i,
        {
            if bytes_eq(&self.entries[i].0, k) {
                proof {
                    lemma_found_bkey(self.entries@, i as int);
                }
                return Some(&self.entries[i].1);
            }
            i = i + 1;
        }
        proof {
            lemma_no_bkey(self.entries@, k@);
        }
        None
    }

    /// Removes and returns the entry of `k`, when present.
    pub fn take(&mut self, k: &Vec<u8>) -> (r: Option<V>)
        requires
            old(self).wf(),
        ensures
            final(self).wf(),
            r is Some <==> old(self).spec_has(k@),
            r is Some ==> r->Some_0 == old(self).spec_get(k@),
            r is None ==> *final(self) == *old(self),
            !final(self).spec_has(k@),
            forall|q: Seq<u8>| q != k@ ==> #[trigger] has_bkey(final(self).entries@, q)
                == has_bkey(old(self).entries@, q),
            forall|q: Seq<u8>| q != k@ && has_bkey(old(self).entries@, q) ==>
                #[trigger] bval_of(final(self).entries@, q) == bval_of(old(self).entries@, q),
    {
        let mut i: usize = 0;
        while i < self.entries.len()
            invariant
                i <= self.entries@.len(),
                forall|j: int| 0 <= j < i ==> (#[trigger] self.entries@[j]).0@ != k@,
                self.wf(),
                self == old(self),
            decreases self.entries@.len() - i,
        {
            if bytes_eq(&self.entries[i].0, k) {
                proof {
                    lemma_found_bkey(self.entries@, i as int);
                }
                let e = self.entries.remove(i);
                proof {
                    assert forall|q: Seq<u8>| q != k@ implies
                        #[trigger] has_bkey(self.entries@, q) == has_bkey(old(self).entries@, q) by {
                        lemma_bremove_other_key(old(self).entries@, i as int, q);
                    }
                    assert forall|q: Seq<u8>| q != k@ && has_bkey(old(self).entries@, q) implies
                        #[trigger] bval_of(self.entries@, q) == bval_of(old(self).entries@, q) by {
                        lemma_bremove_other_key(old(self).entries@, i as int, q);
                    }
                    assert forall|j: int| 0 <= j < self.entries@.len() implies
                        (#[trigger] self.entries@[j]).0@ != k@ by {
                        if j < i {
                        } else {
                            assert(self.entries@[j] == old(self).entries@[j + 1]);
                        }
                    }
                    lemma_no_bkey(self.entries@, k@);
                }
                return Some(e.1);
            }
            i = i + 1;
        }
        proof {
            lemma_no_bkey(self.entries@, k@);
        }
        None
    }

    /// Inserts or replaces the entry of `k`.
    pub fn set(&mut self, k: Vec<u8>, v: V)
        requires
            old(self).wf(),
        ensures
            final(self).wf(),
            final(self).spec_has(k@),
            final(self).spec_get(k@) == v,
            forall|q: Seq<u8>| q != k@ ==> #[trigger] has_bkey(final(self).entries@, q)
                == has_bkey(old(self).entries@, q),
            forall|q: Seq<u8>| q != k@ && has_bkey(old(self).entries@, q) ==>
                #[trigger] bval_of(final(self).entries@, q) == bval_of(old(self).entries@, q),
    {
        let taken = self.take(&k);
        let ghost mid = *self;
        self.entries.push((k, v));
        proof {
            assert(self.entries@.drop_last() =~= mid.entries@);
            assert(has_bkey(self.entries@, self.entries@.last().0@));
            assert forall|q: Seq<u8>| q != self.entries@.last().0@ implies
                #[trigger] has_bkey(self.entries@, q) == has_bkey(old(self).entries@, q) by {
                assert(has_bkey(self.entries@, q) == has_bkey(mid.entries@, q));
                assert(mid.spec_has(q) == old(self).spec_has(q));
            }
            assert forall|q: Seq<u8>| q != self.entries@.last().0@
                && has_bkey(old(self).entries@, q) implies
                #[trigger] bval_of(self.entries@, q) == bval_of(old(self).entries@, q) by {
                assert(mid.spec_has(q) == old(self).spec_has(q));
                assert(has_bkey(mid.entries@, q));
                assert(bval_of(self.entries@, q) == bval_of(mid.entries@, q));
                assert(mid.spec_get(q) == old(self).spec_get(q));
            }
            assert forall|a: int, b: int| 0 <= a < b < self.entries@.len() implies
                (#[trigger] self.entries@[a]).0@ != (#[trigger] self.entries@[b]).0@ by {
                if b == self.entries@.len() - 1 {
                    if self.entries@[a].0@ == self.entries@[b].0@ {
                        lemma_found_bkey(mid.entries@, a);
                    }
                }
            }
        }
    }
}

} // verus!
