//! The agreement engine: ingests proposal terminations, runs the two-level
//! witness broadcasts and one VABA iteration, and emits the agreed subset.
//!
//! Level one is an empty broadcast that signals a terminated proposal
//! sharing; at a quorum of those, the witnessed set goes out as the level
//! two broadcast. A level-two list is accepted once every member's level
//! one arrived — and only if it is canonical: strictly increasing, in
//! range, and at least a quorum long, so that whatever subset is finally
//! emitted has at least `n - t` distinct members. The engine emits its
//! output exactly once, when the vote's termination gadget fires.

use vstd::prelude::*;
use crate::Params;
use crate::codec::{RbcInterface, dec_interface, enc_interface, enc_u64_list, push_u64_list, read_u64_list_exact, read_u64_list_at, read_pair_list_at, read_le8, read_be8};
use crate::party::{members_below, PartyMap, PartySet};
use crate::vaba::{AcsAction, VabaState};

verus! {

/// A canonical witness list: strictly increasing party identifiers, all in
/// range, and at least a quorum of them.
pub open spec fn l2_ok(list: Seq<usize>, params: Params) -> bool {
    &&& list.len() >= params.spec_quorum()
    &&& forall|j: int| 0 <= j < list.len() ==> (#[trigger] list[j] as int) < params.n
    &&& forall|a: int, b: int| 0 <= a < b < list.len() ==> list[a] < list[b]
}

/// The engine's whole state.
pub struct AcsState {
    pub params: Params,
    /// This party's identifier.
    pub myid: usize,
    /// Proposals whose sharing terminated here (the engine's own inputs).
    pub acs_input_set: PartySet,
    /// Parties whose level-one broadcast arrived.
    pub broadcast_messages: PartySet,
    /// Set once the own level-two broadcast went out.
    pub l2_sent: bool,
    /// Each party's accepted level-two list, first one kept.
    pub re_broadcast_messages: PartyMap<Vec<usize>>,
    /// For level-two lists still waiting: the members whose level-one
    /// broadcast is outstanding.
    pub broadcasts_left: PartyMap<PartySet>,
    /// Parties whose level-two list was fully covered: the witnesses.
    pub accepted_witnesses: PartySet,
    /// Set once the VABA iteration was started.
    pub vaba_started: bool,
    /// The single iteration this engine runs.
    pub vaba: VabaState,
    /// The agreed subset, once emitted; it is emitted exactly once.
    pub output: Option<Vec<usize>>,
}

impl AcsState {
    pub open spec fn wf(&self) -> bool {
        &&& self.params.valid()
        &&& (self.myid as int) < self.params.n
        &&& self.acs_input_set.spec_n() == self.params.n
        &&& self.broadcast_messages.spec_n() == self.params.n
        &&& self.re_broadcast_messages.spec_n() == self.params.n
        &&& self.broadcasts_left.spec_n() == self.params.n
        &&& self.accepted_witnesses.spec_n() == self.params.n
        &&& self.vaba.wf(self.params)
        &&& forall|p: int| #[trigger] self.re_broadcast_messages.spec_has(p) ==>
                l2_ok(self.re_broadcast_messages.spec_get(p)@, self.params)
        &&& forall|p: int| #[trigger] self.broadcasts_left.spec_has(p) ==>
                self.broadcasts_left.spec_get(p).spec_n() == self.params.n
        &&& (self.output is Some ==> l2_ok(self.output->Some_0@, self.params))
    }

    pub fn new(params: Params, myid: usize) -> (r: AcsState)
        requires
            params.valid(),
            (myid as int) < params.n,
        ensures
            r.wf(),
            r.params == params,
            r.myid == myid,
            r.output is None,
            !r.vaba_started,
            !r.l2_sent,
            r.accepted_witnesses.spec_count() == 0,
            r.broadcast_messages.spec_count() == 0,
            forall|p: int| 0 <= p < params.n ==>
                !(#[trigger] r.re_broadcast_messages.spec_has(p)),
            forall|p: int| 0 <= p < params.n ==>
                !(#[trigger] r.broadcasts_left.spec_has(p)),
            forall|p: int| 0 <= p < params.n ==>
                !(#[trigger] r.accepted_witnesses.spec_contains(p)),
            forall|p: int| 0 <= p < params.n ==>
                !(#[trigger] r.broadcast_messages.spec_contains(p)),
            r.vaba.pre is None,
            r.vaba.elected_leader is None,
            !r.vaba.pre_broadcast,
            forall|p: int| 0 <= p < params.n ==>
                !(#[trigger] r.vaba.pre_justify_votes.spec_has(p)),
    {
        AcsState {
            params,
            myid,
            acs_input_set: PartySet::empty(params.n),
            broadcast_messages: PartySet::empty(params.n),
            l2_sent: false,
            re_broadcast_messages: PartyMap::empty(params.n),
            broadcasts_left: PartyMap::empty(params.n),
            accepted_witnesses: PartySet::empty(params.n),
            vaba_started: false,
            vaba: VabaState::new(params.n),
            output: None,
        }
    }

    /// A proposal sharing of `replica` terminated: record it and treat it
    /// as that party's level-one broadcast, as the engine's entry point.
    pub fn process_termination_event(&mut self, replica: usize) -> (r: Vec<AcsAction>)
        requires
            old(self).wf(),
            (replica as int) < old(self).params.n,
        ensures
            final(self).wf(),
            final(self).params == old(self).params,
            final(self).acs_input_set.spec_contains(replica as int),
            final(self).broadcast_messages.spec_contains(replica as int),
            output_once(old(self), final(self), r@),
    {
        self.acs_input_set.insert(replica);
        self.handle_l1(replica)
    }

    /// Handles a level-one broadcast: a quorum of them sends the own
    /// level-two list (once); every waiting level-two list sheds this
    /// member and is accepted when fully covered.
    pub fn handle_l1(&mut self, broadcaster: usize) -> (r: Vec<AcsAction>)
        requires
            old(self).wf(),
            (broadcaster as int) < old(self).params.n,
        ensures
            final(self).wf(),
            final(self).params == old(self).params,
            final(self).broadcast_messages.spec_contains(broadcaster as int),
            final(self).acs_input_set == old(self).acs_input_set,
            forall|p: int| old(self).broadcast_messages.spec_contains(p) ==>
                final(self).broadcast_messages.spec_contains(p),
            forall|p: int| 0 <= p < old(self).params.n && p != broadcaster ==>
                #[trigger] final(self).broadcast_messages.spec_contains(p)
                    == old(self).broadcast_messages.spec_contains(p),
            forall|p: int| old(self).accepted_witnesses.spec_contains(p) ==>
                final(self).accepted_witnesses.spec_contains(p),
            output_once(old(self), final(self), r@),
            final(self).l2_sent <==> old(self).l2_sent
                || final(self).broadcast_messages.spec_count() == old(self).params.spec_quorum(),
            !old(self).l2_sent && final(self).l2_sent ==> {
                &&& r@.len() >= 1
                &&& (r@[0] matches AcsAction::RbcSend { payload } && payload@ ==
                    enc_interface(2, enc_u64_list(
                        members_below(final(self).broadcast_messages.mem@,
                            old(self).params.n as int).map_values(|p: usize| p as u64))))
            },
            forall|w: int| 0 <= w < old(self).params.n ==>
                (#[trigger] final(self).accepted_witnesses.spec_contains(w) <==>
                    old(self).accepted_witnesses.spec_contains(w)
                    || (old(self).broadcasts_left.spec_has(w)
                        && forall|q: int| 0 <= q < old(self).params.n
                            && #[trigger] old(self).broadcasts_left.spec_get(w).spec_contains(q)
                            ==> q == broadcaster)),
    {
        let mut r: Vec<AcsAction> = Vec::new();
        self.broadcast_messages.insert(broadcaster);
        let cnt = self.broadcast_messages.count();
        if cnt == self.params.n - self.params.t && !self.l2_sent {
            self.l2_sent = true;
            let members = self.broadcast_messages.to_vec();
            let mut members64: Vec<u64> = Vec::new();
            let mut i: usize = 0;
            while i < members.len()
                invariant
                    i <= members@.len(),
                    members64@ =~= members@.take(i as int).map_values(|p: usize| p as u64),
                decreases members@.len() - i,
            {
                members64.push(members[i] as u64);
                proof {
                    assert(members@.take(i + 1) =~=
                        members@.take(i as int).push(members@[i as int]));
                    assert(members@.take(i + 1).map_values(|p: usize| p as u64) =~=
                        members@.take(i as int).map_values(|p: usize| p as u64)
                            .push(members@[i as int] as u64));
                }
                i = i + 1;
            }
            let mut msg: Vec<u8> = Vec::new();
            proof {
                crate::party::lemma_members_below_count(
                    self.broadcast_messages.mem@, self.params.n as int);
                assert(self.broadcast_messages.mem@.take(self.params.n as int)
                    =~= self.broadcast_messages.mem@);
                assert(members@.take(members@.len() as int) =~= members@);
            }
            push_u64_list(&mut msg, &members64);
            proof {
                crate::codec::lemma_le_bytes_len(members64@.len() as int, 8);
                crate::codec::lemma_enc_u64_elems_len(members64@);
            }
            let iface = RbcInterface { id: 2, msg };
            let payload = iface.encode();
            r.push(AcsAction::RbcSend { payload });
        }
        // shed this member from every waiting level-two list
        let ghost mid = *self;
        let mut newly: Vec<usize> = Vec::new();
        let mut w: usize = 0;
        while w < self.params.n
            invariant
                w <= self.params.n,
                self.wf(),
                self.params == old(self).params,
                self.output == old(self).output,
                self.acs_input_set == old(self).acs_input_set,
                self.l2_sent == mid.l2_sent,
                self.broadcast_messages == mid.broadcast_messages,
                self.re_broadcast_messages == mid.re_broadcast_messages,
                self.vaba_started == mid.vaba_started,
                mid.broadcasts_left == old(self).broadcasts_left,
                mid.accepted_witnesses == old(self).accepted_witnesses,
                self.broadcast_messages.spec_contains(broadcaster as int),
                forall|p: int| old(self).broadcast_messages.spec_contains(p) ==>
                    self.broadcast_messages.spec_contains(p),
                forall|p: int| old(self).accepted_witnesses.spec_contains(p) ==>
                    self.accepted_witnesses.spec_contains(p),
                forall|w2: int| 0 <= w2 < w ==>
                    (#[trigger] self.accepted_witnesses.spec_contains(w2) <==>
                        old(self).accepted_witnesses.spec_contains(w2)
                        || (old(self).broadcasts_left.spec_has(w2)
                            && forall|q: int| 0 <= q < self.params.n
                                && #[trigger] old(self).broadcasts_left.spec_get(w2)
                                    .spec_contains(q) ==> q == broadcaster)),
                forall|w2: int| w <= w2 < self.params.n ==>
                    #[trigger] self.accepted_witnesses.spec_contains(w2)
                        == old(self).accepted_witnesses.spec_contains(w2),
                forall|w2: int| w <= w2 < self.params.n ==>
                    #[trigger] self.broadcasts_left.spec_has(w2)
                        == old(self).broadcasts_left.spec_has(w2),
                forall|w2: int| w <= w2 < self.params.n
                    && old(self).broadcasts_left.spec_has(w2) ==>
                    #[trigger] self.broadcasts_left.spec_get(w2)
                        == old(self).broadcasts_left.spec_get(w2),
                forall|j: int| 0 <= j < newly@.len() ==>
                    (#[trigger] newly@[j] as int) < self.params.n,
                self.vaba == old(self).vaba,
            decreases self.params.n - w,
        {
            if self.broadcasts_left.has(w) {
                let mut left = match self.broadcasts_left.take(w) {
                    Some(s) => s,
                    None => PartySet::empty(self.params.n),
                };
                left.remove(broadcaster);
                if left.is_empty() {
                    self.accepted_witnesses.insert(w);
                    newly.push(w);
                } else {
                    self.broadcasts_left.set(w, left);
                }
            }
            w = w + 1;
        }
        if newly.len() > 0 {
            let mut sub = self.vaba.check_witness_pre_broadcast(
                &self.params, &self.accepted_witnesses, 1);
            r.append(&mut sub);
            let mut sub2 = self.vaba.check_gather_start(&self.params, 1);
            r.append(&mut sub2);
        }
        let mut sub3 = self.maybe_start_vaba(broadcaster);
        r.append(&mut sub3);
        r
    }

    /// Starts the VABA iteration at the first accepted witness, endorsing
    /// `pre`; at most once.
    fn maybe_start_vaba(&mut self, pre: usize) -> (r: Vec<AcsAction>)
        requires
            old(self).wf(),
            (pre as int) < old(self).params.n,
        ensures
            final(self).wf(),
            final(self).params == old(self).params,
            final(self).output == old(self).output,
            final(self).acs_input_set == old(self).acs_input_set,
            final(self).re_broadcast_messages == old(self).re_broadcast_messages,
            final(self).broadcasts_left == old(self).broadcasts_left,
            final(self).accepted_witnesses == old(self).accepted_witnesses,
            final(self).broadcast_messages == old(self).broadcast_messages,
            final(self).l2_sent == old(self).l2_sent,
            old(self).vaba_started ==> *final(self) == *old(self) && r@.len() == 0,
            final(self).vaba_started <==> old(self).vaba_started
                || old(self).accepted_witnesses.spec_count() >= 1,
            !old(self).vaba_started && final(self).vaba_started ==> {
                &&& final(self).vaba.pre == Some(pre)
                &&& final(self).vaba.justify is Some
                &&& r@.len() >= 1
                &&& r@[0] == (AcsAction::AsksShare { instance: 1 })
            },
            forall|p: int| old(self).accepted_witnesses.spec_contains(p) ==>
                final(self).accepted_witnesses.spec_contains(p),
            forall|p: int| old(self).broadcast_messages.spec_contains(p) ==>
                final(self).broadcast_messages.spec_contains(p),
            forall|j: int| 0 <= j < r@.len() ==>
                !((#[trigger] r@[j]) is Output),
    {
        let mut r: Vec<AcsAction> = Vec::new();
        if self.vaba_started {
            return r;
        }
        let wcnt = self.accepted_witnesses.count();
        if wcnt >= 1 {
            self.vaba_started = true;
            self.vaba.pre = Some(pre);
            self.vaba.justify = Some(Vec::new());
            r.push(AcsAction::AsksShare { instance: 1 });
            let mut sub = self.vaba.try_broadcast_pre(&self.params, 1);
            r.append(&mut sub);
        }
        r
    }

    /// Handles a level-two broadcast: a list that is not canonical — out of
    /// range, not strictly increasing, or shorter than a quorum — is
    /// dropped; a second list from the same party is equivocation and the
    /// first is kept. An accepted list whose members' level-one broadcasts
    /// all arrived makes the sender a witness at once; otherwise the
    /// outstanding members are recorded.
    pub fn handle_l2(&mut self, broadcaster: usize, list: Vec<usize>) -> (r: Vec<AcsAction>)
        requires
            old(self).wf(),
            (broadcaster as int) < old(self).params.n,
        ensures
            final(self).wf(),
            final(self).params == old(self).params,
            !l2_ok(list@, old(self).params) ==> *final(self) == *old(self) && r@.len() == 0,
            old(self).re_broadcast_messages.spec_has(broadcaster as int) ==>
                *final(self) == *old(self) && r@.len() == 0,
            l2_ok(list@, old(self).params)
                && !old(self).re_broadcast_messages.spec_has(broadcaster as int) ==> {
                &&& final(self).re_broadcast_messages.spec_has(broadcaster as int)
                &&& final(self).re_broadcast_messages.spec_get(broadcaster as int)@ == list@
                &&& (final(self).accepted_witnesses.spec_contains(broadcaster as int) <==>
                    old(self).accepted_witnesses.spec_contains(broadcaster as int)
                    || (forall|j: int| 0 <= j < list@.len() ==>
                        old(self).broadcast_messages.spec_contains(
                            #[trigger] list@[j] as int)))
                &&& (!(forall|j: int| 0 <= j < list@.len() ==>
                        old(self).broadcast_messages.spec_contains(
                            #[trigger] list@[j] as int)) ==> {
                    &&& final(self).broadcasts_left.spec_has(broadcaster as int)
                    &&& forall|q: int| 0 <= q < old(self).params.n ==>
                        (#[trigger] final(self).broadcasts_left
                            .spec_get(broadcaster as int).spec_contains(q) <==>
                        list@.contains(q as usize)
                            && !old(self).broadcast_messages.spec_contains(q))
                })
            },
            forall|p: int| old(self).accepted_witnesses.spec_contains(p) ==>
                final(self).accepted_witnesses.spec_contains(p),
            output_once(old(self), final(self), r@),
    {
        let mut r: Vec<AcsAction> = Vec::new();
        if self.re_broadcast_messages.has(broadcaster) {
            return r;
        }
        if !check_l2(&list, &self.params) {
            return r;
        }
        // the members whose level-one broadcast is still outstanding
        let mut missing = PartySet::empty(self.params.n);
        let mut j: usize = 0;
        while j < list.len()
            invariant
                j <= list@.len(),
                self.wf(),
                *self == *old(self),
                l2_ok(list@, self.params),
                missing.spec_n() == self.params.n,
                forall|k: int| 0 <= k < j ==>
                    self.broadcast_messages.spec_contains(#[trigger] list@[k] as int)
                    || missing.spec_contains(list@[k] as int),
                forall|p: int| missing.spec_contains(p) ==>
                    !self.broadcast_messages.spec_contains(p) && list@.contains(p as usize),
            decreases list@.len() - j,
        {
            let m = list[j];
            if !self.broadcast_messages.contains(m) {
                missing.insert(m);
                proof {
                    assert(list@[j as int] == m);
                    assert(list@.contains(m));
                }
            }
            j = j + 1;
        }
        proof {
            if !(forall|k: int| 0 <= k < list@.len() ==>
                self.broadcast_messages.spec_contains(#[trigger] list@[k] as int)) {
                let bad = choose|bad: int| 0 <= bad < list@.len()
                    && !self.broadcast_messages.spec_contains(#[trigger] list@[bad] as int);
                assert(missing.spec_contains(list@[bad] as int));
            }
        }
        self.re_broadcast_messages.set(broadcaster, list);
        if missing.is_empty() {
            self.accepted_witnesses.insert(broadcaster);
            let mut sub = self.vaba.check_witness_pre_broadcast(
                &self.params, &self.accepted_witnesses, 1);
            r.append(&mut sub);
            let mut sub2 = self.vaba.check_gather_start(&self.params, 1);
            r.append(&mut sub2);
        } else {
            self.broadcasts_left.set(broadcaster, missing);
        }
        let mut sub3 = self.maybe_start_vaba(broadcaster);
        r.append(&mut sub3);
        r
    }

    /// A sharing of the key-sharing service terminated for `dealer`:
    /// advance the iteration — the own PRE-broadcast may now go out, and
    /// waiting PRE-broadcasts may validate.
    pub fn process_asks_termination(&mut self, instance: u64, dealer: usize) -> (r: Vec<AcsAction>)
        requires
            old(self).wf(),
            (dealer as int) < old(self).params.n,
        ensures
            final(self).wf(),
            final(self).params == old(self).params,
            instance != 1 ==> *final(self) == *old(self) && r@.len() == 0,
            output_once(old(self), final(self), r@),
    {
        let mut r: Vec<AcsAction> = Vec::new();
        if instance != 1 {
            return r;
        }
        self.vaba.process_asks_termination(&self.params, dealer);
        let mut sub = self.vaba.try_broadcast_pre(&self.params, 1);
        r.append(&mut sub);
        let mut sub2 = self.vaba.check_witness_pre_broadcast(
            &self.params, &self.accepted_witnesses, 1);
        r.append(&mut sub2);
        let mut sub3 = self.vaba.check_gather_start(&self.params, 1);
        r.append(&mut sub3);
        r
    }

    /// A reconstruction result arrived: a secret that is not a canonical
    /// field encoding is malformed and dropped; otherwise it may complete
    /// the ranks and elect the leader.
    pub fn process_asks_reconstruction_result(
        &mut self,
        instance: u64,
        dealer: usize,
        secret: Vec<u8>,
    ) -> (r: Vec<AcsAction>)
        requires
            old(self).wf(),
            (dealer as int) < old(self).params.n,
        ensures
            final(self).wf(),
            final(self).params == old(self).params,
            instance != 1 || secret@.len() != 32 ==> *final(self) == *old(self) && r@.len() == 0,
            output_once(old(self), final(self), r@),
    {
        let mut r: Vec<AcsAction> = Vec::new();
        if instance != 1 {
            return r;
        }
        if secret.len() != 32 {
            return r;
        }
        self.vaba.record_reconstructed(&self.params, dealer, secret);
        let mut sub = self.vaba.check_election(&self.params, 1);
        r.append(&mut sub);
        r
    }

    /// A reliable agreement terminated. With the node count as the
    /// representative it is the termination gadget: the engine emits the
    /// level-two list of the agreed witness as its output, exactly once.
    /// Otherwise the witness's agreement is recorded and gather advances.
    pub fn process_ra_termination(
        &mut self,
        instance: u64,
        rep: usize,
        value: u64,
    ) -> (r: Vec<AcsAction>)
        requires
            old(self).wf(),
            rep <= old(self).params.n,
        ensures
            final(self).wf(),
            final(self).params == old(self).params,
            instance != 1 ==> *final(self) == *old(self) && r@.len() == 0,
            instance == 1 && rep == old(self).params.n ==> {
                &&& (old(self).output is Some ==> *final(self) == *old(self) && r@.len() == 0)
                &&& (old(self).output is None
                        && (value as int) < old(self).params.n
                        && old(self).re_broadcast_messages.spec_has(value as int) ==> {
                    &&& final(self).output is Some
                    &&& final(self).output->Some_0@
                        == old(self).re_broadcast_messages.spec_get(value as int)@
                    &&& r@.len() == 1
                    &&& (r@[0] matches AcsAction::Output { subset }
                        && subset@ == old(self).re_broadcast_messages.spec_get(value as int)@)
                    &&& final(self).output->Some_0@.len() >= old(self).params.spec_quorum()
                })
            },
            output_once(old(self), final(self), r@),
    {
        let mut r: Vec<AcsAction> = Vec::new();
        if instance != 1 {
            return r;
        }
        if rep == self.params.n {
            // the termination gadget fired: emit the agreed subset once
            if self.output.is_some() {
                return r;
            }
            if !(value < self.params.n as u64) {
                return r;
            }
            let vrep = value as usize;
            let subset: Vec<usize>;
            match self.re_broadcast_messages.get(vrep) {
                Some(lst) => {
                    subset = copy_usizes(lst);
                },
                None => {
                    return r;
                },
            }
            proof {
                assert(self.re_broadcast_messages.spec_has(vrep as int));
                assert(l2_ok(self.re_broadcast_messages.spec_get(vrep as int)@, self.params));
            }
            self.output = Some(copy_usizes(&subset));
            r.push(AcsAction::Output { subset });
            return r;
        }
        self.vaba.record_ra_termination(&self.params, rep);
        let mut sub = self.vaba.check_witness_pre_broadcast(
            &self.params, &self.accepted_witnesses, 1);
        r.append(&mut sub);
        let mut sub2 = self.vaba.check_gather_start(&self.params, 1);
        r.append(&mut sub2);
        let mut sub3 = self.revalidate_gather(rep);
        r.append(&mut sub3);
        r
    }

    /// Reruns the gather acceptance checks after `p` may have become
    /// supported, and fires the round transitions their quorums allow.
    fn revalidate_gather(&mut self, p: usize) -> (r: Vec<AcsAction>)
        requires
            old(self).wf(),
            (p as int) < old(self).params.n,
        ensures
            final(self).wf(),
            final(self).params == old(self).params,
            final(self).output == old(self).output,
            forall|j: int| 0 <= j < r@.len() ==> !((#[trigger] r@[j]) is Output),
        {
        let mut r: Vec<AcsAction> = Vec::new();
        if self.vaba.validated.contains(p) && self.vaba.reliable_agreement.contains(p) {
            self.vaba.gather.round1.revalidate(
                &self.params, p, &self.vaba.validated, &self.vaba.reliable_agreement);
            self.vaba.gather.round2.revalidate(
                &self.params, p, &self.vaba.validated, &self.vaba.reliable_agreement);
            let mut sub = self.vaba.check_gather_echo2_start(&self.params, 1);
            r.append(&mut sub);
            let mut sub2 = self.vaba.check_reconstruction_start(&self.params, 1);
            r.append(&mut sub2);
            let mut sub3 = self.vaba.check_election(&self.params, 1);
            r.append(&mut sub3);
        }
        r
    }

    /// Handles a first-round gather echo.
    pub fn process_gather_echo(&mut self, instance: u64, sender: usize, indices: Vec<usize>) -> (r: Vec<AcsAction>)
        requires
            old(self).wf(),
            (sender as int) < old(self).params.n,
        ensures
            final(self).wf(),
            final(self).params == old(self).params,
            instance != 1 ==> *final(self) == *old(self) && r@.len() == 0,
            output_once(old(self), final(self), r@),
            instance == 1
                && (old(self).vaba.gather.round1.received.spec_has(sender as int)
                    || !crate::gather::indices_ok(indices@, old(self).params.n as int)) ==>
                *final(self) == *old(self) && r@.len() == 0,
            instance == 1
                && !old(self).vaba.gather.round1.received.spec_has(sender as int)
                && crate::gather::indices_ok(indices@, old(self).params.n as int) ==> {
                &&& final(self).vaba.gather.round1.received.spec_has(sender as int)
                &&& final(self).vaba.gather.round1.received.spec_get(sender as int)@ == indices@
            },
    {
        let mut r: Vec<AcsAction> = Vec::new();
        if instance != 1 {
            return r;
        }
        if self.vaba.gather.round1.received.has(sender) {
            return r;
        }
        self.vaba.on_gather_echo(&self.params, sender, indices, 1)
    }

    /// Handles a second-round gather echo.
    pub fn process_gather_echo2(&mut self, instance: u64, sender: usize, indices: Vec<usize>) -> (r: Vec<AcsAction>)
        requires
            old(self).wf(),
            (sender as int) < old(self).params.n,
        ensures
            final(self).wf(),
            final(self).params == old(self).params,
            instance != 1 ==> *final(self) == *old(self) && r@.len() == 0,
            output_once(old(self), final(self), r@),
            instance == 1
                && (old(self).vaba.gather.round2.received.spec_has(sender as int)
                    || !crate::gather::indices_ok(indices@, old(self).params.n as int)) ==>
                *final(self) == *old(self) && r@.len() == 0,
            instance == 1
                && !old(self).vaba.gather.round2.received.spec_has(sender as int)
                && crate::gather::indices_ok(indices@, old(self).params.n as int) ==> {
                &&& final(self).vaba.gather.round2.received.spec_has(sender as int)
                &&& final(self).vaba.gather.round2.received.spec_get(sender as int)@ == indices@
            },
    {
        let mut r: Vec<AcsAction> = Vec::new();
        if instance != 1 {
            return r;
        }
        if self.vaba.gather.round2.received.has(sender) {
            return r;
        }
        if !check_indices(&indices, &self.params) {
            return r;
        }
        let mut sub = self.vaba.on_gather_echo2(&self.params, sender, indices, 1);
        r.append(&mut sub);
        let mut sub2 = self.vaba.check_election(&self.params, 1);
        r.append(&mut sub2);
        r
    }

    /// Handles a delivery of the broadcast service: decode the interface
    /// frame and dispatch on its tag — level one, level two, the
    /// iteration's PRE-broadcast, or a vote. A malformed frame or payload
    /// is dropped silently.
    pub fn process_ctrbc_event(&mut self, broadcaster: usize, value: &Vec<u8>) -> (r: Vec<AcsAction>)
        requires
            old(self).wf(),
            (broadcaster as int) < old(self).params.n,
        ensures
            final(self).wf(),
            final(self).params == old(self).params,
            output_once(old(self), final(self), r@),
            dec_interface(value@) is None ==> *final(self) == *old(self) && r@.len() == 0,
            dec_interface(value@) is Some && dec_interface(value@)->Some_0.0 == 1 ==> {
                &&& final(self).broadcast_messages.spec_contains(broadcaster as int)
                &&& (final(self).l2_sent <==> old(self).l2_sent
                    || final(self).broadcast_messages.spec_count()
                        == old(self).params.spec_quorum())
                &&& (!old(self).l2_sent && final(self).l2_sent ==>
                    r@.len() >= 1
                    && (r@[0] matches AcsAction::RbcSend { payload } && payload@ ==
                        enc_interface(2, enc_u64_list(
                            members_below(final(self).broadcast_messages.mem@,
                                old(self).params.n as int).map_values(|p: usize| p as u64)))))
            },
    {
        let mut r: Vec<AcsAction> = Vec::new();
        let iface = match RbcInterface::decode(value) {
            Some(i) => i,
            None => {
                return r;
            },
        };
        if iface.id == 1 {
            return self.handle_l1(broadcaster);
        }
        if iface.id == 2 {
            let list64 = match read_u64_list_exact(&iface.msg, 0) {
                Some(l) => l,
                None => {
                    return r;
                },
            };
            let list = match to_party_list(&list64, &self.params) {
                Some(l) => l,
                None => {
                    return r;
                },
            };
            return self.handle_l2(broadcaster, list);
        }
        if iface.id == 3 {
            // the PRE-broadcast of the single iteration this engine runs
            if iface.msg.len() < 8 {
                return r;
            }
            let pre64 = read_le8(&iface.msg, 0);
            let (asks64, off) = match read_u64_list_at(&iface.msg, 8) {
                Some(x) => x,
                None => {
                    return r;
                },
            };
            let (justify, end) = match read_pair_list_at(&iface.msg, off) {
                Some(x) => x,
                None => {
                    return r;
                },
            };
            if end != iface.msg.len() {
                return r;
            }
            if !(pre64 < self.params.n as u64) {
                return r;
            }
            let asks = match to_party_list(&asks64, &self.params) {
                Some(l) => l,
                None => {
                    return r;
                },
            };
            let mut sub = self.vaba.process_pre_vote(
                &self.params, &self.accepted_witnesses,
                broadcaster, pre64 as usize, asks, justify, 1);
            r.append(&mut sub);
            let mut sub2 = self.vaba.check_gather_start(&self.params, 1);
            r.append(&mut sub2);
            let mut sub3 = self.revalidate_gather(broadcaster);
            r.append(&mut sub3);
            return r;
        }
        if iface.id == 4 {
            // a vote: the 8-byte big-endian encoding of the endorsed party
            if iface.msg.len() != 8 {
                return r;
            }
            let value = read_be8(&iface.msg, 0);
            return self.vaba.process_vote(&self.params, broadcaster, value, 1);
        }
        // tags of later iterations: the engine runs one iteration and
        // rejects the rest, as the unfinished multi-iteration gadget demands
        r
    }
}

/// Output discipline: the output is emitted at most once — it never
/// changes once set, it can only go from unset to set, a transition is
/// announced by exactly the matching output action, and no output action
/// is emitted otherwise.
pub open spec fn output_once(pre: &AcsState, post: &AcsState, r: Seq<AcsAction>) -> bool {
    &&& (pre.output is Some ==> post.output == pre.output)
    &&& (pre.output is Some ==> forall|j: int| 0 <= j < r.len() ==> !((#[trigger] r[j]) is Output))
    &&& (post.output == pre.output ==>
        forall|j: int| 0 <= j < r.len() ==> !((#[trigger] r[j]) is Output))
    &&& (post.output != pre.output ==> {
        &&& pre.output is None
        &&& post.output is Some
        &&& exists|j: int| 0 <= j < r.len()
            && ((#[trigger] r[j]) matches AcsAction::Output { subset }
                && subset@ == post.output->Some_0@)
    })
}

/// Converts a decoded list to party identifiers; `None` when any entry is
/// out of range.
fn to_party_list(xs: &Vec<u64>, params: &Params) -> (r: Option<Vec<usize>>)
    requires
        params.valid(),
    ensures
        r is Some <==> (forall|j: int| 0 <= j < xs@.len() ==> (#[trigger] xs@[j] as int) < params.n),
        r is Some ==> r->Some_0@ =~= xs@.map_values(|x: u64| x as usize)
            && (forall|j: int| 0 <= j < r->Some_0@.len() ==>
                (#[trigger] r->Some_0@[j] as int) < params.n),
{
    let mut r: Vec<usize> = Vec::new();
    let mut i: usize = 0;
    while i < xs.len()
        invariant
            i <= xs@.len(),
            params.valid(),
            r@ =~= xs@.take(i as int).map_values(|x: u64| x as usize),
            forall|j: int| 0 <= j < i ==> (#[trigger] xs@[j] as int) < params.n,
        decreases xs@.len() - i,
    {
        if !(xs[i] < params.n as u64) {
            return None;
        }
        r.push(xs[i] as usize);
        proof {
            assert(xs@.take(i + 1) =~= xs@.take(i as int).push(xs@[i as int]));
            assert(xs@.take(i + 1).map_values(|x: u64| x as usize) =~=
                xs@.take(i as int).map_values(|x: u64| x as usize)
                    .push(xs@[i as int] as usize));
        }
        i = i + 1;
    }
    proof {
        assert(xs@.take(xs@.len() as int) =~= xs@);
    }
    Some(r)
}

/// Whether every index is a party identifier.
fn check_indices(list: &Vec<usize>, params: &Params) -> (r: bool)
    requires
        params.valid(),
    ensures
        r == crate::gather::indices_ok(list@, params.n as int),
{
    let mut i: usize = 0;
    while i < list.len()
        invariant
            i <= list@.len(),
            params.valid(),
            forall|j: int| 0 <= j < i ==> (#[trigger] list@[j] as int) < params.n,
        decreases list@.len() - i,
    {
        if list[i] >= params.n {
            proof {
                assert(!crate::gather::indices_ok(list@, params.n as int));
            }
            return false;
        }
        i = i + 1;
    }
    true
}

/// Whether a level-two list is canonical.
fn check_l2(list: &Vec<usize>, params: &Params) -> (r: bool)
    requires
        params.valid(),
    ensures
        r == l2_ok(list@, *params),
{
    if list.len() < params.quorum() {
        return false;
    }
    let mut i: usize = 0;
    while i < list.len()
        invariant
            i <= list@.len(),
            params.valid(),
            list@.len() >= params.spec_quorum(),
            forall|j: int| 0 <= j < i ==> (#[trigger] list@[j] as int) < params.n,
            forall|a: int, b: int| 0 <= a < b < i ==> list@[a] < list@[b],
        decreases list@.len() - i,
    {
        if list[i] >= params.n {
            proof {
                assert(!l2_ok(list@, *params));
            }
            return false;
        }
        if i > 0 {
            if !(list[i - 1] < list[i]) {
                proof {
                    assert(!(list@[i - 1] < list@[i as int]));
                }
                return false;
            }
        }
        proof {
            assert forall|a: int, b: int| 0 <= a < b < i + 1 implies list@[a] < list@[b] by {
                if b == i {
                    if a < i - 1 {
                        assert(list@[a] < list@[i - 1]);
                    }
                }
            }
        }
        i = i + 1;
    }
    true
}

/// Copies a party list.
pub fn copy_usizes(v: &Vec<usize>) -> (r: Vec<usize>)
    ensures
        r@ =~= v@,
{
    let mut r: Vec<usize> = Vec::new();
    let mut i: usize = 0;
    while i < v.len()
        invariant
            i <= v@.len(),
            r@ =~= v@.take(i as int),
        decreases v@.len() - i,
    {
        r.push(v[i]);
        proof {
            assert(v@.take(i + 1) =~= v@.take(i as int).push(v@[i as int]));
        }
        i = i + 1;
    }
    proof {
        assert(v@.take(v@.len() as int) =~= v@);
    }
    r
}

} // verus!
