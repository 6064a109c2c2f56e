//! Gather: two rounds of witness-set exchange.
//!
//! Each party broadcasts the set of witnesses it validated; an incoming
//! echo is accepted only once every member of its set has both passed
//! PRE-validation and terminated reliable agreement locally. Echoes whose
//! members are still outstanding wait in an unvalidated table and are
//! rechecked on every new validation. After a quorum of accepted round-one
//! echoes, the union of their sets goes out as the round-two echo; a quorum
//! of accepted round-two echoes completes gather.

use vstd::prelude::*;
use crate::Params;
use crate::party::{PartyMap, PartySet};

verus! {

/// Whether `p` has both passed PRE-validation and terminated reliable
/// agreement: the acceptance condition for every set member.
pub open spec fn supported(p: int, validated: &PartySet, ra: &PartySet) -> bool {
    validated.spec_contains(p) && ra.spec_contains(p)
}

/// All indices of a witness list are party identifiers below `n`.
pub open spec fn indices_ok(indices: Seq<usize>, n: int) -> bool {
    forall|j: int| 0 <= j < indices.len() ==> (#[trigger] indices[j] as int) < n
}

/// One echo round: who sent which set, which senders are accepted, and
/// which senders still wait on outstanding members.
pub struct EchoRound {
    /// The witness list each sender broadcast, as received.
    pub received: PartyMap<Vec<usize>>,
    /// For senders not yet accepted: the members still unsupported.
    pub unvalidated: PartyMap<PartySet>,
    /// The accepted senders.
    pub validated: PartySet,
}

impl EchoRound {
    pub open spec fn wf(&self, params: Params) -> bool {
        &&& self.received.spec_n() == params.n
        &&& self.unvalidated.spec_n() == params.n
        &&& self.validated.spec_n() == params.n
        &&& forall|w: int| #[trigger] self.unvalidated.spec_has(w) ==>
                self.unvalidated.spec_get(w).spec_n() == params.n
        &&& forall|w: int| #[trigger] self.received.spec_has(w) ==>
                indices_ok(self.received.spec_get(w)@, params.n as int)
    }

    /// Every accepted sender's whole witness list is supported, and every
    /// pending dependency a waiting sender has already cleared was
    /// supported when it cleared. Support only grows at the caller, so
    /// acceptance stays sound across new validations.
    pub open spec fn accept_inv(&self, validated: &PartySet, ra: &PartySet, params: Params) -> bool {
        &&& forall|w: int| 0 <= w < params.n && #[trigger] self.validated.spec_contains(w) ==> {
            &&& self.received.spec_has(w)
            &&& forall|j: int| 0 <= j < self.received.spec_get(w)@.len() ==>
                    supported(#[trigger] self.received.spec_get(w)@[j] as int, validated, ra)
        }
        &&& forall|w: int| 0 <= w < params.n && #[trigger] self.unvalidated.spec_has(w) ==> {
            &&& self.received.spec_has(w)
            &&& forall|j: int| 0 <= j < self.received.spec_get(w)@.len() ==> {
                let m = #[trigger] self.received.spec_get(w)@[j] as int;
                self.unvalidated.spec_get(w).spec_contains(m) || supported(m, validated, ra)
            }
        }
    }

    pub fn new(n: usize) -> (r: EchoRound)
        ensures
            r.received.spec_n() == n,
            r.unvalidated.spec_n() == n,
            r.validated.spec_n() == n,
            forall|w: int| 0 <= w < n ==> !r.received.spec_has(w)
                && !r.unvalidated.spec_has(w) && !r.validated.spec_contains(w),
            r.validated.spec_count() == 0,
    {
        EchoRound {
            received: PartyMap::empty(n),
            unvalidated: PartyMap::empty(n),
            validated: PartySet::empty(n),
        }
    }

    /// Handles the echo of `sender`: store the list, accept the sender when
    /// every member is already supported, otherwise record the unsupported
    /// members and wait. A list with an index out of range is malformed and
    /// dropped; a second echo from the same sender is equivocation and the
    /// first one is kept.
    pub fn on_echo(
        &mut self,
        params: &Params,
        sender: usize,
        indices: Vec<usize>,
        validated: &PartySet,
        ra: &PartySet,
    ) -> (stored: bool)
        requires
            params.valid(),
            old(self).wf(*params),
            old(self).accept_inv(validated, ra, *params),
            (sender as int) < params.n,
            validated.spec_n() == params.n,
            ra.spec_n() == params.n,
        ensures
            final(self).wf(*params),
            final(self).accept_inv(validated, ra, *params),
            stored == (indices_ok(indices@, params.n as int)
                && !old(self).received.spec_has(sender as int)),
            !indices_ok(indices@, params.n as int) ==> *final(self) == *old(self),
            old(self).received.spec_has(sender as int) ==> *final(self) == *old(self),
            !stored ==> *final(self) == *old(self),
            forall|p: int| old(self).validated.spec_contains(p) ==>
                final(self).validated.spec_contains(p),
            indices_ok(indices@, params.n as int) && !old(self).received.spec_has(sender as int) ==> {
                &&& final(self).received.spec_has(sender as int)
                &&& final(self).received.spec_get(sender as int)@ == indices@
                &&& (final(self).validated.spec_contains(sender as int) <==>
                    (forall|j: int| 0 <= j < indices@.len() ==>
                            supported(#[trigger] indices@[j] as int, validated, ra)))
                &&& forall|p: int| p != sender ==>
                    #[trigger] final(self).validated.spec_contains(p)
                        == old(self).validated.spec_contains(p)
            },
    {
        if self.received.has(sender) {
            return false;
        }
        let mut i: usize = 0;
        while i < indices.len()
            invariant
                i <= indices@.len(),
                forall|j: int| 0 <= j < i ==> (#[trigger] indices@[j] as int) < params.n,
                *self == *old(self),
                self.wf(*params),
                self.accept_inv(validated, ra, *params),
            decreases indices@.len() - i,
        {
            if indices[i] >= params.n {
                return false;
            }
            i = i + 1;
        }
        let mut pending = PartySet::empty(params.n);
        let mut j: usize = 0;
        while j < indices.len()
            invariant
                j <= indices@.len(),
                params.valid(),
                validated.spec_n() == params.n,
                ra.spec_n() == params.n,
                pending.spec_n() == params.n,
                indices_ok(indices@, params.n as int),
                forall|k: int| 0 <= k < j ==> supported(#[trigger] indices@[k] as int, validated, ra)
                    || pending.spec_contains(indices@[k] as int),
                forall|p: int| pending.spec_contains(p) ==>
                    !supported(p, validated, ra) && indices@.contains(p as usize),
            decreases indices@.len() - j,
        {
            let m = indices[j];
            if !(validated.contains(m) && ra.contains(m)) {
                pending.insert(m);
                proof {
                    assert(indices@[j as int] == m);
                    assert(indices@.contains(m));
                }
            }
            j = j + 1;
        }
        let ghost pre = *self;
        self.received.set(sender, indices);
        let ghost indices_snap = self.received.spec_get(sender as int)@;
        let all_clear = pending.is_empty();
        if all_clear {
            self.validated.insert(sender);
            self.unvalidated.remove(sender);
        } else {
            self.unvalidated.set(sender, pending);
        }
        proof {
            if all_clear {
                assert forall|k: int| 0 <= k < indices_snap.len() implies
                    supported(#[trigger] indices_snap[k] as int, validated, ra) by {
                    assert(!pending.spec_contains(indices_snap[k] as int));
                }
            } else {
                let w = choose|w: int| 0 <= w < params.n && #[trigger] pending.spec_contains(w);
                let jj = choose|jj: int| 0 <= jj < indices_snap.len()
                    && #[trigger] indices_snap[jj] == w as usize;
                assert(!supported(indices_snap[jj] as int, validated, ra));
            }
            assert forall|w: int| 0 <= w < params.n && #[trigger] self.validated.spec_contains(w)
                implies self.received.spec_has(w)
                    && (forall|k: int| 0 <= k < self.received.spec_get(w)@.len() ==>
                        supported(#[trigger] self.received.spec_get(w)@[k] as int, validated, ra)) by {
                if w != sender {
                    assert(pre.validated.spec_contains(w));
                    assert(pre.received.spec_has(w));
                    assert(self.received.spec_get(w) == pre.received.spec_get(w));
                }
            }
            assert forall|w: int| 0 <= w < params.n && #[trigger] self.unvalidated.spec_has(w)
                implies self.received.spec_has(w)
                    && (forall|k: int| 0 <= k < self.received.spec_get(w)@.len() ==> {
                        let m = #[trigger] self.received.spec_get(w)@[k] as int;
                        self.unvalidated.spec_get(w).spec_contains(m)
                            || supported(m, validated, ra)
                    }) by {
                if w != sender {
                    assert(pre.unvalidated.spec_has(w));
                    assert(self.received.spec_get(w) == pre.received.spec_get(w));
                    assert(self.unvalidated.spec_get(w) == pre.unvalidated.spec_get(w));
                }
            }
        }
        true
    }

    /// Rechecks the waiting senders after `p` became supported: clears `p`
    /// from every pending set and accepts the senders whose sets empty.
    pub fn revalidate(
        &mut self,
        params: &Params,
        p: usize,
        validated: &PartySet,
        ra: &PartySet,
    )
        requires
            params.valid(),
            old(self).wf(*params),
            old(self).accept_inv(validated, ra, *params),
            (p as int) < params.n,
            validated.spec_n() == params.n,
            ra.spec_n() == params.n,
            supported(p as int, validated, ra),
        ensures
            final(self).wf(*params),
            final(self).accept_inv(validated, ra, *params),
            forall|q: int| old(self).validated.spec_contains(q) ==>
                final(self).validated.spec_contains(q),
            final(self).received == old(self).received,
    {
        let mut w: usize = 0;
        while w < params.n
            invariant
                w <= params.n,
                params.valid(),
                validated.spec_n() == params.n,
                ra.spec_n() == params.n,
                supported(p as int, validated, ra),
                (p as int) < params.n,
                self.wf(*params),
                self.accept_inv(validated, ra, *params),
                forall|q: int| old(self).validated.spec_contains(q) ==>
                    self.validated.spec_contains(q),
                self.received == old(self).received,
            decreases params.n - w,
        {
            let has_pending = self.unvalidated.has(w);
            if has_pending {
                let mut pend = match self.unvalidated.take(w) {
                    Some(s) => s,
                    None => PartySet::empty(params.n),
                };
                pend.remove(p);
                if pend.is_empty() {
                    self.validated.insert(w);
                } else {
                    self.unvalidated.set(w, pend);
                }
            }
            w = w + 1;
        }
    }

    /// The union of the accepted senders' witness lists, in increasing
    /// order: the round-two payload.
    pub fn union_of_validated(&self, params: &Params) -> (r: Vec<usize>)
        requires
            params.valid(),
            self.wf(*params),
        ensures
            forall|j: int| 0 <= j < r@.len() ==> (#[trigger] r@[j] as int) < params.n,
            forall|p: int| 0 <= p < params.n ==> (r@.contains(p as usize) <==> self.in_union(p, *params)),
    {
        let mut acc = PartySet::empty(params.n);
        let mut w: usize = 0;
        while w < params.n
            invariant
                w <= params.n,
                params.valid(),
                self.wf(*params),
                acc.spec_n() == params.n,
                forall|p: int| 0 <= p < params.n ==> (acc.spec_contains(p) <==>
                    exists|v: int| 0 <= v < w && #[trigger] self.validated.spec_contains(v)
                        && self.received.spec_has(v)
                        && self.received.spec_get(v)@.contains(p as usize)),
            decreases params.n - w,
        {
            let is_validated = self.validated.contains(w);
            if is_validated && self.received.has(w) {
                let ghost acc0 = acc;
                let lst = self.received.get(w).unwrap();
                let mut j: usize = 0;
                while j < lst.len()
                    invariant
                        j <= lst@.len(),
                        params.valid(),
                        acc.spec_n() == params.n,
                        indices_ok(lst@, params.n as int),
                        forall|p: int| 0 <= p < params.n ==> (acc.spec_contains(p) <==>
                            acc0.spec_contains(p) || lst@.take(j as int).contains(p as usize)),
                    decreases lst@.len() - j,
                {
                    let m = lst[j];
                    let ghost acc_prev = acc;
                    acc.insert(m);
                    proof {
                        assert(lst@.take(j + 1) =~= lst@.take(j as int).push(lst@[j as int]));
                        assert forall|p: int| 0 <= p < params.n implies (acc.spec_contains(p) <==>
                            acc0.spec_contains(p) || lst@.take(j + 1).contains(p as usize)) by {
                            if acc.spec_contains(p) {
                                if p == m as int {
                                    assert(lst@.take(j + 1)[j as int] == m);
                                    assert(lst@.take(j + 1).contains(p as usize));
                                } else {
                                    assert(acc_prev.spec_contains(p));
                                    if !acc0.spec_contains(p) {
                                        assert(lst@.take(j as int).contains(p as usize));
                                        let jj = choose|jj: int| 0 <= jj < j
                                            && #[trigger] lst@.take(j as int)[jj] == p as usize;
                                        assert(lst@.take(j + 1)[jj] == p as usize);
                                        assert(lst@.take(j + 1).contains(p as usize));
                                    }
                                }
                            }
                            if acc0.spec_contains(p) {
                                assert(acc_prev.spec_contains(p));
                                assert(acc.spec_contains(p));
                            }
                            if lst@.take(j + 1).contains(p as usize) {
                                let jj = choose|jj: int| 0 <= jj < j + 1
                                    && #[trigger] lst@.take(j + 1)[jj] == p as usize;
                                if jj < j {
                                    assert(lst@.take(j as int)[jj] == p as usize);
                                    assert(lst@.take(j as int).contains(p as usize));
                                    assert(acc_prev.spec_contains(p));
                                    assert(acc.spec_contains(p));
                                } else {
                                    assert(lst@[jj] == m);
                                    assert(acc.spec_contains(p));
                                }
                            }
                        }
                    }
                    j = j + 1;
                }
                proof {
                    assert(lst@.take(lst@.len() as int) =~= lst@);
                    assert(self.received.spec_get(w as int) == *lst);
                    assert forall|p: int| 0 <= p < params.n implies (acc.spec_contains(p) <==>
                        exists|v: int| 0 <= v < w + 1 && #[trigger] self.validated.spec_contains(v)
                            && self.received.spec_has(v)
                            && self.received.spec_get(v)@.contains(p as usize)) by {
                        if acc.spec_contains(p) {
                            if acc0.spec_contains(p) {
                                let v = choose|v: int| 0 <= v < w
                                    && #[trigger] self.validated.spec_contains(v)
                                    && self.received.spec_has(v)
                                    && self.received.spec_get(v)@.contains(p as usize);
                                assert(0 <= v < w + 1 && self.validated.spec_contains(v));
                            } else {
                                assert(self.validated.spec_contains(w as int));
                            }
                        }
                    }
                }
            } else {
                proof {
                    assert forall|p: int| 0 <= p < params.n implies (acc.spec_contains(p) <==>
                        exists|v: int| 0 <= v < w + 1 && #[trigger] self.validated.spec_contains(v)
                            && self.received.spec_has(v)
                            && self.received.spec_get(v)@.contains(p as usize)) by {
                        if acc.spec_contains(p) {
                            let v = choose|v: int| 0 <= v < w
                                && #[trigger] self.validated.spec_contains(v)
                                && self.received.spec_has(v)
                                && self.received.spec_get(v)@.contains(p as usize);
                            assert(0 <= v < w + 1 && self.validated.spec_contains(v));
                        }
                    }
                }
            }
            w = w + 1;
        }
        let out = acc.to_vec();
        proof {
            assert forall|p: int| 0 <= p < params.n implies
                (out@.contains(p as usize) <==> self.in_union(p, *params)) by {
                if out@.contains(p as usize) {
                    let jj = choose|jj: int| 0 <= jj < out@.len()
                        && #[trigger] out@[jj] == p as usize;
                    assert(acc.spec_contains(out@[jj] as int));
                }
                if acc.spec_contains(p) {
                    assert(out@.contains(p as usize));
                }
            }
        }
        out
    }

    /// Whether `p` is named by some accepted sender's witness list.
    pub open spec fn in_union(&self, p: int, params: Params) -> bool {
        exists|v: int| 0 <= v < params.n && #[trigger] self.validated.spec_contains(v)
            && self.received.spec_has(v)
            && self.received.spec_get(v)@.contains(p as usize)
    }
}

/// Acceptance stays sound when the support sets grow: what was supported
/// is still supported.
pub proof fn lemma_accept_inv_monotone(
    er: &EchoRound,
    v1: &PartySet,
    ra1: &PartySet,
    v2: &PartySet,
    ra2: &PartySet,
    params: Params,
)
    requires
        er.accept_inv(v1, ra1, params),
        forall|p: int| v1.spec_contains(p) ==> v2.spec_contains(p),
        forall|p: int| ra1.spec_contains(p) ==> ra2.spec_contains(p),
    ensures
        er.accept_inv(v2, ra2, params),
{
    assert forall|w: int| 0 <= w < params.n && #[trigger] er.validated.spec_contains(w)
        implies er.received.spec_has(w)
            && (forall|j: int| 0 <= j < er.received.spec_get(w)@.len() ==>
                supported(#[trigger] er.received.spec_get(w)@[j] as int, v2, ra2)) by {
        assert forall|j: int| 0 <= j < er.received.spec_get(w)@.len() implies
            supported(#[trigger] er.received.spec_get(w)@[j] as int, v2, ra2) by {
            assert(supported(er.received.spec_get(w)@[j] as int, v1, ra1));
        }
    }
    assert forall|w: int| 0 <= w < params.n && #[trigger] er.unvalidated.spec_has(w)
        implies er.received.spec_has(w)
            && (forall|j: int| 0 <= j < er.received.spec_get(w)@.len() ==> {
                let m = #[trigger] er.received.spec_get(w)@[j] as int;
                er.unvalidated.spec_get(w).spec_contains(m) || supported(m, v2, ra2)
            }) by {
        assert forall|j: int| 0 <= j < er.received.spec_get(w)@.len() implies {
            let m = #[trigger] er.received.spec_get(w)@[j] as int;
            er.unvalidated.spec_get(w).spec_contains(m) || supported(m, v2, ra2)
        } by {
            let m = er.received.spec_get(w)@[j] as int;
            assert(er.unvalidated.spec_get(w).spec_contains(m) || supported(m, v1, ra1));
        }
    }
}

/// The whole gather state: the two echo rounds and the round-two latch.
pub struct GatherState {
    pub round1: EchoRound,
    pub round2: EchoRound,
    /// Set when the round-two echo went out; it goes out only once.
    pub gather2_started: bool,
}

impl GatherState {
    pub open spec fn wf(&self, params: Params) -> bool {
        &&& self.round1.wf(params)
        &&& self.round2.wf(params)
    }

    pub open spec fn accept_inv(&self, validated: &PartySet, ra: &PartySet, params: Params) -> bool {
        &&& self.round1.accept_inv(validated, ra, params)
        &&& self.round2.accept_inv(validated, ra, params)
    }

    pub fn new(n: usize) -> (r: GatherState)
        ensures
            r.round1.received.spec_n() == n,
            r.round1.unvalidated.spec_n() == n,
            r.round1.validated.spec_n() == n,
            r.round2.received.spec_n() == n,
            r.round2.unvalidated.spec_n() == n,
            r.round2.validated.spec_n() == n,
            !r.gather2_started,
            forall|w: int| 0 <= w < n ==> !r.round1.received.spec_has(w)
                && !r.round1.unvalidated.spec_has(w) && !r.round1.validated.spec_contains(w),
            forall|w: int| 0 <= w < n ==> !r.round2.received.spec_has(w)
                && !r.round2.unvalidated.spec_has(w) && !r.round2.validated.spec_contains(w),
            r.round1.validated.spec_count() == 0,
            r.round2.validated.spec_count() == 0,
    {
        GatherState {
            round1: EchoRound::new(n),
            round2: EchoRound::new(n),
            gather2_started: false,
        }
    }
}

} // verus!
