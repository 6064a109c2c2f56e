//! One VABA iteration: PRE-broadcast, witness validation, gather, rank
//! reconstruction, leader election and vote.
//!
//! The iteration deals one secret through the key-sharing service, then
//! broadcasts `(pre, dealers, justify)` once `t + 1` sharings terminated.
//! A peer's PRE-broadcast is validated once its dealers all terminated
//! locally and its endorsed witness was accepted; validated witnesses go
//! through reliable agreement, gather collates them, and the ranks
//! reconstructed from the key sharings elect the leader, whose endorsed
//! witness is put to the vote.

use vstd::prelude::*;
use crate::Params;
use crate::codec::{RbcInterface, enc_interface, be8, le8, enc_u64_list, enc_pair_list, push_le8, push_u64_list, push_pair_list, push_be8};
use crate::field::{fe_zero_spec, fe_gt, is_fe, sum_mod_p, fe_sum, fe_zero, fe_greater};
use crate::gather::{GatherState, indices_ok, lemma_accept_inv_monotone};
use crate::party::{PartyMap, PartySet, members_below};
use crate::vmap::{VMap, has_key, val_of};

verus! {

/// What a handler of the agreement engine asks the surrounding loop to do.
pub enum AcsAction {
    /// Hand `payload` to the reliable-broadcast service.
    RbcSend { payload: Vec<u8> },
    /// Ask the key-sharing service to deal one secret for this iteration.
    AsksShare { instance: u64 },
    /// Ask the key-sharing service to reconstruct the sharing dealt by `dealer`.
    AsksReconstruct { instance: u64, dealer: usize },
    /// Start reliable agreement about `rep` with `value`.
    RaStart { rep: usize, value: u64, instance: u64 },
    /// Broadcast the first-round gather echo with these witnesses.
    GatherEcho { instance: u64, indices: Vec<usize> },
    /// Broadcast the second-round gather echo.
    GatherEcho2 { instance: u64, indices: Vec<usize> },
    /// Emit the agreed subset: the engine's single output.
    Output { subset: Vec<usize> },
}

/// The content of a peer's PRE-broadcast.
pub struct PreVote {
    /// The witness the peer endorses.
    pub pre: usize,
    /// The dealers whose sharings the peer vouches terminated.
    pub asks: Vec<usize>,
    /// The justification pairs (meaningful beyond the first iteration).
    pub justify: Vec<(u64, u64)>,
}

/// The outstanding dependencies of a not-yet-validated PRE-broadcast.
pub struct PendingVote {
    /// The endorsed witness, while not yet accepted.
    pub pre_pending: Option<usize>,
    /// The dealers whose sharings have not terminated locally.
    pub asks_pending: PartySet,
}

/// The per-iteration state.
pub struct VabaState {
    /// This party's endorsed witness, once chosen.
    pub pre: Option<usize>,
    /// This party's justification, once chosen.
    pub justify: Option<Vec<(u64, u64)>>,
    /// Dealers whose sharing phase terminated locally.
    pub term_asks_instances: PartySet,
    /// Set once the own PRE-broadcast went out.
    pub pre_broadcast: bool,
    /// Each peer's PRE-broadcast, first one kept.
    pub pre_justify_votes: PartyMap<PreVote>,
    /// Peers whose PRE-broadcast still waits on dependencies.
    pub unvalidated: PartyMap<PendingVote>,
    /// Peers whose PRE-broadcast was validated.
    pub validated: PartySet,
    /// Peers whose reliable agreement terminated.
    pub reliable_agreement: PartySet,
    /// Set once the first-round gather echo went out.
    pub gather_started: bool,
    pub gather: GatherState,
    /// Set once reconstruction of the rank sharings was requested.
    pub asks_reconstruction_started: bool,
    /// Per ranked party: the dealers whose secrets make up its rank.
    pub rank_pending: PartyMap<PartySet>,
    /// Per dealer: the reconstructed secret, canonically encoded.
    pub asks_reconstructed: PartyMap<Vec<u8>>,
    /// Per ranked party: its rank, once every dealer reconstructed.
    pub ranks: PartyMap<Vec<u8>>,
    /// The elected leader; set once, never changed.
    pub elected_leader: Option<usize>,
    /// Set once the vote for the leader's witness went out.
    pub vote_broadcasted: bool,
    /// Vote value to the set of voters.
    pub votes: VMap<PartySet>,
}

/// The scan that elects a leader: over parties `0..k`, the lowest index
/// whose rank strictly exceeds every earlier rank; parties without a rank
/// never win. Returns the winner and the winning rank.
pub open spec fn elect(ranks: Seq<Option<Seq<u8>>>, k: int) -> (int, Seq<u8>)
    decreases k,
{
    if k <= 0 {
        (0, fe_zero_spec())
    } else {
        let prev = elect(ranks, k - 1);
        if ranks[k - 1] is Some && fe_gt(ranks[k - 1]->Some_0, prev.1) {
            (k - 1, ranks[k - 1]->Some_0)
        } else {
            prev
        }
    }
}

/// The elected leader is in range, and no rank strictly exceeds the
/// winning one: the election picks a maximum.
pub proof fn lemma_elect_is_max(ranks: Seq<Option<Seq<u8>>>, k: int)
    requires
        k >= 1,
    ensures
        0 <= elect(ranks, k).0 < k,
        forall|p: int| 0 <= p < k && ranks[p] is Some ==>
            !fe_gt(#[trigger] ranks[p]->Some_0, elect(ranks, k).1),
    decreases k,
{
    let prev = elect(ranks, k - 1);
    let cur = elect(ranks, k);
    if k == 1 {
        assert(prev == (0int, fe_zero_spec()));
        assert forall|p: int| 0 <= p < k && ranks[p] is Some implies
            !fe_gt(#[trigger] ranks[p]->Some_0, cur.1) by {
            if ranks[0] is Some && fe_gt(ranks[0]->Some_0, prev.1) {
                lemma_fe_gt_irreflexive(cur.1);
            }
        }
    } else {
        lemma_elect_is_max(ranks, k - 1);
        assert forall|p: int| 0 <= p < k && ranks[p] is Some implies
            !fe_gt(#[trigger] ranks[p]->Some_0, cur.1) by {
            if ranks[k - 1] is Some && fe_gt(ranks[k - 1]->Some_0, prev.1) {
                assert(cur.1 == ranks[k - 1]->Some_0);
                if p == k - 1 {
                    lemma_fe_gt_irreflexive(cur.1);
                } else {
                    if fe_gt(ranks[p]->Some_0, cur.1) {
                        lemma_fe_gt_transitive(ranks[p]->Some_0, cur.1, prev.1);
                    }
                }
            } else {
                assert(cur == prev);
            }
        }
    }
}

/// Rank ties break toward the lowest party: every party below the winner
/// has either no rank or a rank other than the winning one.
pub proof fn lemma_elect_lowest_on_tie(ranks: Seq<Option<Seq<u8>>>, k: int)
    requires
        k >= 1,
    ensures
        forall|p: int| 0 <= p < elect(ranks, k).0 && ranks[p] is Some ==>
            #[trigger] ranks[p]->Some_0 != elect(ranks, k).1,
    decreases k,
{
    let prev = elect(ranks, k - 1);
    let cur = elect(ranks, k);
    if k == 1 {
        assert(prev == (0int, fe_zero_spec()));
        assert(cur.0 == 0);
    } else {
        lemma_elect_lowest_on_tie(ranks, k - 1);
        lemma_elect_is_max(ranks, k - 1);
        assert forall|p: int| 0 <= p < cur.0 && ranks[p] is Some implies
            #[trigger] ranks[p]->Some_0 != cur.1 by {
            if ranks[k - 1] is Some && fe_gt(ranks[k - 1]->Some_0, prev.1) {
                assert(cur.0 == k - 1 && cur.1 == ranks[k - 1]->Some_0);
                if ranks[p]->Some_0 == cur.1 {
                    assert(!fe_gt(ranks[p]->Some_0, prev.1));
                }
            } else {
                assert(cur == prev);
            }
        }
    }
}

/// The strict order on canonical encodings is irreflexive.
pub proof fn lemma_fe_gt_irreflexive(a: Seq<u8>)
    ensures
        !fe_gt(a, a),
{
    lemma_lex_irreflexive(a, 0);
}

proof fn lemma_lex_irreflexive(a: Seq<u8>, i: int)
    ensures
        !crate::field::lex_gt_from(a, a, i),
    decreases a.len() - i,
{
    if 0 <= i < a.len() {
        lemma_lex_irreflexive(a, i + 1);
    }
}

/// The strict order on canonical encodings is transitive.
pub proof fn lemma_fe_gt_transitive(a: Seq<u8>, b: Seq<u8>, c: Seq<u8>)
    requires
        fe_gt(a, b),
        fe_gt(b, c),
    ensures
        fe_gt(a, c),
{
    lemma_lex_transitive(a, b, c, 0);
}

proof fn lemma_lex_transitive(a: Seq<u8>, b: Seq<u8>, c: Seq<u8>, i: int)
    requires
        crate::field::lex_gt_from(a, b, i),
        crate::field::lex_gt_from(b, c, i),
    ensures
        crate::field::lex_gt_from(a, c, i),
    decreases a.len() - i,
{
    if 0 <= i < a.len() {
        if a[i] == b[i] && b[i] == c[i] {
            lemma_lex_transitive(a, b, c, i + 1);
        }
    }
}

impl VabaState {
    /// The ranks table as the election scan sees it.
    pub open spec fn ranks_view(&self, params: Params) -> Seq<Option<Seq<u8>>> {
        Seq::new(params.n as nat, |p: int|
            if self.ranks.spec_has(p) {
                Some(self.ranks.spec_get(p)@)
            } else {
                None
            })
    }

    pub open spec fn wf(&self, params: Params) -> bool {
        &&& self.term_asks_instances.spec_n() == params.n
        &&& self.pre_justify_votes.spec_n() == params.n
        &&& self.unvalidated.spec_n() == params.n
        &&& self.validated.spec_n() == params.n
        &&& self.reliable_agreement.spec_n() == params.n
        &&& self.gather.wf(params)
        &&& self.rank_pending.spec_n() == params.n
        &&& self.asks_reconstructed.spec_n() == params.n
        &&& self.ranks.spec_n() == params.n
        &&& self.votes.wf()
        &&& (self.pre is Some ==> (self.pre->Some_0 as int) < params.n)
        &&& (self.justify is Some ==> self.justify->Some_0@.len() < 0x1000)
        &&& forall|p: int| #[trigger] self.unvalidated.spec_has(p) ==>
                self.unvalidated.spec_get(p).asks_pending.spec_n() == params.n
        &&& forall|p: int| #[trigger] self.pre_justify_votes.spec_has(p) ==> {
                &&& (self.pre_justify_votes.spec_get(p).pre as int) < params.n
                &&& indices_ok(self.pre_justify_votes.spec_get(p).asks@, params.n as int)
            }
        &&& forall|p: int| #[trigger] self.rank_pending.spec_has(p) ==>
                self.rank_pending.spec_get(p).spec_n() == params.n
        &&& forall|p: int| #[trigger] self.asks_reconstructed.spec_has(p) ==>
                is_fe(self.asks_reconstructed.spec_get(p)@)
        &&& forall|p: int| #[trigger] self.ranks.spec_has(p) ==> is_fe(self.ranks.spec_get(p)@)
        &&& forall|k: u64| #[trigger] has_key(self.votes.entries@, k) ==>
                val_of(self.votes.entries@, k).spec_n() == params.n
        &&& self.gather.accept_inv(&self.validated, &self.reliable_agreement, params)
    }

    pub fn new(n: usize) -> (r: VabaState)
        requires
            n >= 1,
        ensures
            r.pre is None,
            r.justify is None,
            !r.pre_broadcast,
            !r.gather_started,
            !r.asks_reconstruction_started,
            r.elected_leader is None,
            !r.vote_broadcasted,
            r.term_asks_instances.spec_count() == 0,
            r.validated.spec_count() == 0,
            r.reliable_agreement.spec_count() == 0,
            forall|p: int| 0 <= p < n ==> !r.pre_justify_votes.spec_has(p)
                && !r.unvalidated.spec_has(p) && !r.validated.spec_contains(p)
                && !r.reliable_agreement.spec_contains(p),
            forall|p: Params| p.n == n ==> r.wf(p),
    {
        let r = VabaState {
            pre: None,
            justify: None,
            term_asks_instances: PartySet::empty(n),
            pre_broadcast: false,
            pre_justify_votes: PartyMap::empty(n),
            unvalidated: PartyMap::empty(n),
            validated: PartySet::empty(n),
            reliable_agreement: PartySet::empty(n),
            gather_started: false,
            gather: GatherState::new(n),
            asks_reconstruction_started: false,
            rank_pending: PartyMap::empty(n),
            asks_reconstructed: PartyMap::empty(n),
            ranks: PartyMap::empty(n),
            elected_leader: None,
            vote_broadcasted: false,
            votes: VMap::new(),
        };
        r
    }

    /// The payload of the own PRE-broadcast: the endorsed witness, the
    /// first `t + 1` terminated dealers, and the justification, framed
    /// under the interface tag of this iteration.
    pub open spec fn pre_payload(&self, params: Params, instance: u64) -> Seq<u8> {
        enc_interface(
            (2 * instance + 1) as u64,
            le8(self.pre->Some_0 as u64)
                + enc_u64_list(
                    members_below(self.term_asks_instances.mem@, params.n as int)
                        .take(params.t + 1).map_values(|p: usize| p as u64))
                + enc_pair_list(self.justify->Some_0@),
        )
    }

    /// Sends the own PRE-broadcast once `t + 1` sharings terminated and
    /// both `pre` and `justify` are set; at most once.
    pub fn try_broadcast_pre(&mut self, params: &Params, instance: u64) -> (r: Vec<AcsAction>)
        requires
            params.valid(),
            old(self).wf(*params),
            instance < 0x1000,
        ensures
            final(self).wf(*params),
            *final(self) == (VabaState { pre_broadcast: final(self).pre_broadcast, ..*old(self) }),
            final(self).pre_broadcast <==> old(self).pre_broadcast
                || (old(self).term_asks_instances.spec_count() >= params.spec_low()
                    && old(self).pre is Some && old(self).justify is Some),
            !old(self).pre_broadcast && final(self).pre_broadcast ==>
                r@ =~= seq![AcsAction::RbcSend { payload: choose_payload(r@) }]
                && choose_payload(r@)@ == old(self).pre_payload(*params, instance),
            old(self).pre_broadcast || !final(self).pre_broadcast ==> r@.len() == 0,
    {
        let mut r: Vec<AcsAction> = Vec::new();
        if self.pre_broadcast {
            return r;
        }
        let cnt = self.term_asks_instances.count();
        if !(cnt >= params.low() && self.pre.is_some() && self.justify.is_some()) {
            return r;
        }
        let pre_v: usize = match &self.pre {
            Some(p) => *p,
            None => 0,
        };
        let members = self.term_asks_instances.to_vec();
        let mut dealers: Vec<u64> = Vec::new();
        let mut i: usize = 0;
        let lim = params.low();
        while i < members.len() && i < lim
            invariant
                i <= members@.len(),
                i <= lim,
                dealers@ =~= members@.take(i as int).map_values(|p: usize| p as u64),
            decreases members@.len() - i,
        {
            dealers.push(members[i] as u64);
            proof {
                assert(members@.take(i + 1) =~= members@.take(i as int).push(members@[i as int]));
                assert(members@.take(i + 1).map_values(|p: usize| p as u64) =~=
                    members@.take(i as int).map_values(|p: usize| p as u64).push(members@[i as int] as u64));
            }
            i = i + 1;
        }
        proof {
            assert(members@.len() == self.term_asks_instances.spec_count()) by {
                crate::party::lemma_members_below_count(self.term_asks_instances.mem@,
                    params.n as int);
                assert(self.term_asks_instances.mem@.take(params.n as int)
                    =~= self.term_asks_instances.mem@);
            }
            assert(members@.len() >= lim);
            assert(i == lim);
            assert(members@.take(lim as int) =~= members@.take(params.t + 1));
        }
        let justify_v: Vec<(u64, u64)> = match &self.justify {
            Some(j) => clone_pairs(j),
            None => Vec::new(),
        };
        let mut msg: Vec<u8> = Vec::new();
        push_le8(&mut msg, pre_v as u64);
        push_u64_list(&mut msg, &dealers);
        push_pair_list(&mut msg, &justify_v);
        proof {
            crate::codec::lemma_le_bytes_len(pre_v as int, 8);
            crate::codec::lemma_le_bytes_len(dealers@.len() as int, 8);
            crate::codec::lemma_enc_u64_elems_len(dealers@);
            crate::codec::lemma_le_bytes_len(justify_v@.len() as int, 8);
            crate::codec::lemma_enc_pair_elems_len(justify_v@);
        }
        let iface = RbcInterface { id: 2 * instance + 1, msg };
        let payload = iface.encode();
        self.pre_broadcast = true;
        r.push(AcsAction::RbcSend { payload });
        r
    }

    /// Whether the iteration supports `p`: its PRE-broadcast validated and
    /// its reliable agreement terminated.
    pub open spec fn spec_supported(&self, p: int) -> bool {
        self.validated.spec_contains(p) && self.reliable_agreement.spec_contains(p)
    }

    /// Records that `dealer`'s sharing phase terminated and clears the
    /// dependency from every waiting PRE-broadcast.
    pub fn process_asks_termination(&mut self, params: &Params, dealer: usize)
        requires
            params.valid(),
            old(self).wf(*params),
            (dealer as int) < params.n,
        ensures
            final(self).wf(*params),
            final(self).term_asks_instances.spec_contains(dealer as int),
            forall|p: int| old(self).term_asks_instances.spec_contains(p) ==>
                final(self).term_asks_instances.spec_contains(p),
            forall|p: int| 0 <= p < params.n && #[trigger] final(self).unvalidated.spec_has(p) ==>
                old(self).unvalidated.spec_has(p)
                && !final(self).unvalidated.spec_get(p).asks_pending.spec_contains(dealer as int),
            final(self).validated == old(self).validated,
            final(self).reliable_agreement == old(self).reliable_agreement,
            final(self).gather == old(self).gather,
            final(self).pre_broadcast == old(self).pre_broadcast,
            final(self).pre == old(self).pre,
            final(self).justify == old(self).justify,
    {
        self.term_asks_instances.insert(dealer);
        let mut w: usize = 0;
        while w < params.n
            invariant
                w <= params.n,
                params.valid(),
                (dealer as int) < params.n,
                self.wf(*params),
                forall|p: int| 0 <= p < w && #[trigger] self.unvalidated.spec_has(p) ==>
                    !self.unvalidated.spec_get(p).asks_pending.spec_contains(dealer as int),
                forall|p: int| #[trigger] self.unvalidated.spec_has(p) ==>
                    old(self).unvalidated.spec_has(p),
                self.validated == old(self).validated,
                self.reliable_agreement == old(self).reliable_agreement,
                self.gather == old(self).gather,
                self.pre_broadcast == old(self).pre_broadcast,
                self.pre == old(self).pre,
                self.justify == old(self).justify,
                self.term_asks_instances.spec_contains(dealer as int),
                forall|p: int| old(self).term_asks_instances.spec_contains(p) ==>
                    self.term_asks_instances.spec_contains(p),
                self.pre_justify_votes == old(self).pre_justify_votes,
                self.rank_pending == old(self).rank_pending,
                self.asks_reconstructed == old(self).asks_reconstructed,
                self.ranks == old(self).ranks,
                self.votes == old(self).votes,
                self.gather_started == old(self).gather_started,
                self.asks_reconstruction_started == old(self).asks_reconstruction_started,
                self.elected_leader == old(self).elected_leader,
                self.vote_broadcasted == old(self).vote_broadcasted,
            decreases params.n - w,
        {
            if self.unvalidated.has(w) {
                let mut entry = match self.unvalidated.take(w) {
                    Some(e) => e,
                    None => PendingVote { pre_pending: None, asks_pending: PartySet::empty(params.n) },
                };
                entry.asks_pending.remove(dealer);
                self.unvalidated.set(w, entry);
            }
            w = w + 1;
        }
    }

    /// Promotes every waiting PRE-broadcast whose dependencies all cleared:
    /// the dealers terminated and the endorsed witness was accepted. Each
    /// promotion starts reliable agreement about the promoted witness while
    /// fewer than the quorum of agreements have terminated.
    pub fn check_witness_pre_broadcast(
        &mut self,
        params: &Params,
        accepted: &PartySet,
        instance: u64,
    ) -> (r: Vec<AcsAction>)
        requires
            params.valid(),
            old(self).wf(*params),
            accepted.spec_n() == params.n,
        ensures
            final(self).wf(*params),
            forall|p: int| old(self).validated.spec_contains(p) ==>
                final(self).validated.spec_contains(p),
            forall|p: int| 0 <= p < params.n
                && #[trigger] final(self).validated.spec_contains(p)
                && !old(self).validated.spec_contains(p) ==> {
                &&& old(self).unvalidated.spec_has(p)
                &&& old(self).unvalidated.spec_get(p).asks_pending.spec_count() == 0
            },
            forall|w: int| 0 <= w < params.n && #[trigger] old(self).unvalidated.spec_has(w)
                && old(self).unvalidated.spec_get(w).asks_pending.spec_count() == 0
                && (old(self).unvalidated.spec_get(w).pre_pending is None
                    || accepted.spec_contains(
                        old(self).unvalidated.spec_get(w).pre_pending->Some_0 as int)) ==>
                final(self).validated.spec_contains(w),
            final(self).reliable_agreement == old(self).reliable_agreement,
            final(self).gather == old(self).gather,
            final(self).term_asks_instances == old(self).term_asks_instances,
            final(self).pre_justify_votes == old(self).pre_justify_votes,
            forall|j: int| 0 <= j < r@.len() ==> ((#[trigger] r@[j]) matches
                AcsAction::RaStart { rep, value, instance: inst2 }
                && value == 1 && inst2 == instance && (rep as int) < params.n),
    {
        let mut r: Vec<AcsAction> = Vec::new();
        let ghost pre_state = *self;
        let mut w: usize = 0;
        while w < params.n
            invariant
                w <= params.n,
                params.valid(),
                accepted.spec_n() == params.n,
                self.wf(*params),
                forall|p: int| pre_state.validated.spec_contains(p) ==>
                    self.validated.spec_contains(p),
                forall|p: int| 0 <= p < params.n
                    && #[trigger] self.validated.spec_contains(p)
                    && !pre_state.validated.spec_contains(p) ==> {
                    &&& pre_state.unvalidated.spec_has(p)
                    &&& pre_state.unvalidated.spec_get(p).asks_pending.spec_count() == 0
                },
                self.reliable_agreement == pre_state.reliable_agreement,
                self.gather == pre_state.gather,
                self.term_asks_instances == pre_state.term_asks_instances,
                self.pre_justify_votes == pre_state.pre_justify_votes,
                self.pre == pre_state.pre,
                self.justify == pre_state.justify,
                self.pre_broadcast == pre_state.pre_broadcast,
                self.rank_pending == pre_state.rank_pending,
                self.asks_reconstructed == pre_state.asks_reconstructed,
                self.ranks == pre_state.ranks,
                self.votes == pre_state.votes,
                self.gather_started == pre_state.gather_started,
                self.asks_reconstruction_started == pre_state.asks_reconstruction_started,
                self.elected_leader == pre_state.elected_leader,
                self.vote_broadcasted == pre_state.vote_broadcasted,
                forall|p: int| #[trigger] self.unvalidated.spec_has(p) ==>
                    pre_state.unvalidated.spec_has(p)
                    && self.unvalidated.spec_get(p).asks_pending
                        == pre_state.unvalidated.spec_get(p).asks_pending,
                forall|w2: int| 0 <= w2 < w && #[trigger] pre_state.unvalidated.spec_has(w2)
                    && pre_state.unvalidated.spec_get(w2).asks_pending.spec_count() == 0
                    && (pre_state.unvalidated.spec_get(w2).pre_pending is None
                        || accepted.spec_contains(
                            pre_state.unvalidated.spec_get(w2).pre_pending->Some_0 as int)) ==>
                    self.validated.spec_contains(w2),
                forall|w2: int| w <= w2 < params.n ==>
                    #[trigger] self.unvalidated.spec_has(w2)
                        == pre_state.unvalidated.spec_has(w2),
                forall|w2: int| w <= w2 < params.n
                    && pre_state.unvalidated.spec_has(w2) ==>
                    #[trigger] self.unvalidated.spec_get(w2)
                        == pre_state.unvalidated.spec_get(w2),
                forall|j: int| 0 <= j < r@.len() ==> ((#[trigger] r@[j]) matches
                    AcsAction::RaStart { rep, value, instance: inst2 }
                    && value == 1 && inst2 == instance && (rep as int) < params.n),
            decreases params.n - w,
        {
            if self.unvalidated.has(w) {
                let pre_ok: bool;
                let asks_clear: bool;
                match self.unvalidated.get(w) {
                    Some(entry) => {
                        pre_ok = match &entry.pre_pending {
                            Some(p) => accepted.contains(*p),
                            None => true,
                        };
                        asks_clear = entry.asks_pending.is_empty();
                    },
                    None => {
                        pre_ok = false;
                        asks_clear = false;
                    },
                }
                if pre_ok && asks_clear {
                    let ghost mid = *self;
                    self.unvalidated.remove(w);
                    self.validated.insert(w);
                    proof {
                        lemma_accept_inv_monotone(
                            &mid.gather.round1,
                            &mid.validated, &mid.reliable_agreement,
                            &self.validated, &self.reliable_agreement, *params);
                        lemma_accept_inv_monotone(
                            &mid.gather.round2,
                            &mid.validated, &mid.reliable_agreement,
                            &self.validated, &self.reliable_agreement, *params);
                    }
                    let ra_cnt = self.reliable_agreement.count();
                    if ra_cnt <= params.n - params.t {
                        r.push(AcsAction::RaStart { rep: w, value: 1, instance });
                    }
                } else if pre_ok {
                    let mut entry = match self.unvalidated.take(w) {
                        Some(e) => e,
                        None => PendingVote {
                            pre_pending: None,
                            asks_pending: PartySet::empty(params.n),
                        },
                    };
                    entry.pre_pending = None;
                    self.unvalidated.set(w, entry);
                }
            }
            w = w + 1;
        }
        r
    }

    /// Handles a peer's PRE-broadcast `(pre, dealers, justify)`: validate
    /// it right away when its dependencies already cleared, else record
    /// what is still outstanding. The first broadcast of a peer is kept;
    /// a later, different one is equivocation and is dropped.
    pub fn process_pre_vote(
        &mut self,
        params: &Params,
        accepted: &PartySet,
        broadcaster: usize,
        pre: usize,
        asks: Vec<usize>,
        justify: Vec<(u64, u64)>,
        instance: u64,
    ) -> (r: Vec<AcsAction>)
        requires
            params.valid(),
            old(self).wf(*params),
            accepted.spec_n() == params.n,
            (broadcaster as int) < params.n,
        ensures
            final(self).wf(*params),
            old(self).pre_justify_votes.spec_has(broadcaster as int) ==>
                *final(self) == *old(self) && r@.len() == 0,
            !((pre as int) < params.n) || !indices_ok(asks@, params.n as int) ==>
                *final(self) == *old(self) && r@.len() == 0,
            forall|p: int| old(self).validated.spec_contains(p) ==>
                final(self).validated.spec_contains(p),
            (pre as int) < params.n && indices_ok(asks@, params.n as int)
                && !old(self).pre_justify_votes.spec_has(broadcaster as int) ==> {
                &&& final(self).pre_justify_votes.spec_has(broadcaster as int)
                &&& final(self).pre_justify_votes.spec_get(broadcaster as int).pre == pre
                &&& final(self).pre_justify_votes.spec_get(broadcaster as int).asks@ == asks@
                &&& (final(self).validated.spec_contains(broadcaster as int) <==>
                    old(self).validated.spec_contains(broadcaster as int)
                    || (accepted.spec_contains(pre as int)
                        && (forall|j: int| 0 <= j < asks@.len() ==>
                            old(self).term_asks_instances.spec_contains(
                                #[trigger] asks@[j] as int))))
            },
            forall|j: int| 0 <= j < r@.len() ==> ((#[trigger] r@[j]) matches
                AcsAction::RaStart { rep, value, instance: inst2 }
                && rep == broadcaster && value == 1 && inst2 == instance),
    {
        let mut r: Vec<AcsAction> = Vec::new();
        if self.pre_justify_votes.has(broadcaster) {
            return r;
        }
        if pre >= params.n {
            return r;
        }
        let mut i: usize = 0;
        while i < asks.len()
            invariant
                i <= asks@.len(),
                forall|j: int| 0 <= j < i ==> (#[trigger] asks@[j] as int) < params.n,
                *self == *old(self),
                self.wf(*params),
                r@.len() == 0,
            decreases asks@.len() - i,
        {
            if asks[i] >= params.n {
                return r;
            }
            i = i + 1;
        }
        // record the vote and compute its outstanding dealers
        let mut pending = PartySet::empty(params.n);
        let mut j: usize = 0;
        while j < asks.len()
            invariant
                j <= asks@.len(),
                params.valid(),
                pending.spec_n() == params.n,
                indices_ok(asks@, params.n as int),
                *self == *old(self),
                self.wf(*params),
                forall|k: int| 0 <= k < j ==>
                    self.term_asks_instances.spec_contains(#[trigger] asks@[k] as int)
                    || pending.spec_contains(asks@[k] as int),
                forall|p: int| pending.spec_contains(p) ==>
                    !self.term_asks_instances.spec_contains(p) && asks@.contains(p as usize),
            decreases asks@.len() - j,
        {
            let d = asks[j];
            if !self.term_asks_instances.contains(d) {
                pending.insert(d);
                proof {
                    assert(asks@[j as int] == d);
                    assert(asks@.contains(d));
                }
            }
            j = j + 1;
        }
        let ghost pre_state = *self;
        let asks_clear = pending.is_empty();
        let pre_accepted = accepted.contains(pre);
        self.pre_justify_votes.set(broadcaster, PreVote { pre, asks, justify });
        if asks_clear && pre_accepted {
            proof {
                assert forall|k: int| 0 <= k < asks@.len() implies
                    self.term_asks_instances.spec_contains(#[trigger] asks@[k] as int) by {
                    assert(!pending.spec_contains(asks@[k] as int));
                }
            }
            self.validated.insert(broadcaster);
            proof {
                lemma_accept_inv_monotone(
                    &pre_state.gather.round1,
                    &pre_state.validated, &pre_state.reliable_agreement,
                    &self.validated, &self.reliable_agreement, *params);
                lemma_accept_inv_monotone(
                    &pre_state.gather.round2,
                    &pre_state.validated, &pre_state.reliable_agreement,
                    &self.validated, &self.reliable_agreement, *params);
            }
            let ra_cnt = self.reliable_agreement.count();
            if ra_cnt <= params.n - params.t {
                r.push(AcsAction::RaStart { rep: broadcaster, value: 1, instance });
            }
        } else {
            proof {
                if !asks_clear {
                    let bad = choose|bad: int| 0 <= bad < params.n
                        && #[trigger] pending.spec_contains(bad);
                    let jj = choose|jj: int| 0 <= jj < asks@.len()
                        && #[trigger] asks@[jj] == bad as usize;
                    assert(!pre_state.term_asks_instances.spec_contains(asks@[jj] as int));
                }
            }
            let pre_pending: Option<usize> = if pre_accepted { None } else { Some(pre) };
            self.unvalidated.set(broadcaster, PendingVote { pre_pending, asks_pending: pending });
        }
        r
    }

    /// Records a terminated reliable agreement about witness `rep`.
    pub fn record_ra_termination(&mut self, params: &Params, rep: usize)
        requires
            params.valid(),
            old(self).wf(*params),
            (rep as int) < params.n,
        ensures
            final(self).wf(*params),
            final(self).reliable_agreement.spec_contains(rep as int),
            forall|p: int| old(self).reliable_agreement.spec_contains(p) ==>
                final(self).reliable_agreement.spec_contains(p),
            forall|p: int| old(self).validated.spec_contains(p) ==>
                final(self).validated.spec_contains(p),
            final(self).validated == old(self).validated,
            final(self).gather == old(self).gather,
    {
        let ghost pre_state = *self;
        self.reliable_agreement.insert(rep);
        proof {
            lemma_accept_inv_monotone(
                &pre_state.gather.round1,
                &pre_state.validated, &pre_state.reliable_agreement,
                &self.validated, &self.reliable_agreement, *params);
            lemma_accept_inv_monotone(
                &pre_state.gather.round2,
                &pre_state.validated, &pre_state.reliable_agreement,
                &self.validated, &self.reliable_agreement, *params);
        }
    }

    /// Starts gather once a quorum of witnesses is both validated and
    /// agreement-terminated, broadcasting their intersection; at most once.
    pub fn check_gather_start(&mut self, params: &Params, instance: u64) -> (r: Vec<AcsAction>)
        requires
            params.valid(),
            old(self).wf(*params),
        ensures
            final(self).wf(*params),
            *final(self) == (VabaState { gather_started: final(self).gather_started, ..*old(self) }),
            old(self).gather_started ==> final(self).gather_started && r@.len() == 0,
            !final(self).gather_started ==> r@.len() == 0,
            final(self).gather_started <==> old(self).gather_started
                || (old(self).validated.spec_count() >= params.spec_quorum()
                    && old(self).reliable_agreement.spec_count() >= params.spec_quorum()
                    && crate::party::count_trues(Seq::new(params.n as nat,
                        |p: int| old(self).spec_supported(p))) >= params.spec_quorum()),
            !old(self).gather_started && final(self).gather_started ==> {
                &&& old(self).validated.spec_count() >= params.spec_quorum()
                &&& old(self).reliable_agreement.spec_count() >= params.spec_quorum()
                &&& r@.len() == 1
                &&& r@[0] matches AcsAction::GatherEcho { instance: inst2, indices }
                    && inst2 == instance
                    && (forall|p: int| 0 <= p < params.n ==>
                        (indices@.contains(p as usize) <==> old(self).spec_supported(p)))
            },
    {
        let mut r: Vec<AcsAction> = Vec::new();
        if self.gather_started {
            return r;
        }
        let vcnt = self.validated.count();
        let rcnt = self.reliable_agreement.count();
        if vcnt >= params.quorum() && rcnt >= params.quorum() {
            let mut inter = PartySet::empty(params.n);
            let mut p: usize = 0;
            while p < params.n
                invariant
                    p <= params.n,
                    params.valid(),
                    self.wf(*params),
                    inter.spec_n() == params.n,
                    forall|q: int| 0 <= q < params.n ==> (inter.spec_contains(q) <==>
                        q < p && self.spec_supported(q)),
                decreases params.n - p,
            {
                if self.validated.contains(p) && self.reliable_agreement.contains(p) {
                    inter.insert(p);
                }
                p = p + 1;
            }
            proof {
                assert forall|q: int| 0 <= q < params.n implies
                    inter.mem@[q] == self.spec_supported(q) by {
                    assert(inter.spec_contains(q) <==> (q < params.n as int
                        && self.spec_supported(q)));
                }
                assert(inter.mem@ =~= Seq::new(params.n as nat,
                    |q: int| self.spec_supported(q)));
            }
            let icnt = inter.count();
            if icnt >= params.quorum() {
                self.gather_started = true;
                let indices = inter.to_vec();
                let ghost gind = indices@;
                proof {
                    crate::party::lemma_members_below_complete(inter.mem@, params.n as int);
                    assert forall|q: int| 0 <= q < params.n implies
                        (gind.contains(q as usize) <==> old(self).spec_supported(q)) by {
                        assert((q as usize) as int == q);
                        if inter.spec_contains(q) {
                            assert(members_below(inter.mem@, params.n as int)
                                .contains(q as usize));
                            assert(gind.contains(q as usize));
                        }
                        if gind.contains(q as usize) {
                            let jj = choose|jj: int| 0 <= jj < gind.len()
                                && #[trigger] gind[jj] == q as usize;
                            assert(inter.spec_contains(gind[jj] as int));
                            assert(inter.spec_contains(q));
                        }
                    }
                }
                r.push(AcsAction::GatherEcho { instance, indices });
                proof {
                    assert(r@[0] matches AcsAction::GatherEcho { instance: i2, indices: ind }
                        && ind@ == gind && i2 == instance);
                }
            }
        }
        r
    }

    /// Sends the round-two gather echo once a quorum of round-one echoes
    /// was accepted, broadcasting the union of their sets; at most once.
    pub fn check_gather_echo2_start(&mut self, params: &Params, instance: u64) -> (r: Vec<AcsAction>)
        requires
            params.valid(),
            old(self).wf(*params),
        ensures
            final(self).wf(*params),
            *final(self) == (VabaState { gather: final(self).gather, ..*old(self) }),
            final(self).gather == (GatherState {
                gather2_started: final(self).gather.gather2_started, ..old(self).gather }),
            old(self).gather.gather2_started ==>
                final(self).gather.gather2_started && r@.len() == 0,
            !final(self).gather.gather2_started ==> r@.len() == 0,
            final(self).gather.gather2_started <==> old(self).gather.gather2_started
                || old(self).gather.round1.validated.spec_count() >= params.spec_quorum(),
            !old(self).gather.gather2_started && final(self).gather.gather2_started ==> {
                &&& old(self).gather.round1.validated.spec_count() >= params.spec_quorum()
                &&& r@.len() == 1
                &&& r@[0] matches AcsAction::GatherEcho2 { instance: inst2, indices }
                    && inst2 == instance
                    && (forall|p: int| 0 <= p < params.n ==> (indices@.contains(p as usize)
                        <==> old(self).gather.round1.in_union(p, *params)))
            },
    {
        let mut r: Vec<AcsAction> = Vec::new();
        if self.gather.gather2_started {
            return r;
        }
        let cnt = self.gather.round1.validated.count();
        if cnt >= params.quorum() {
            let indices = self.gather.round1.union_of_validated(params);
            self.gather.gather2_started = true;
            r.push(AcsAction::GatherEcho2 { instance, indices });
        }
        r
    }

    /// Starts rank reconstruction once a quorum of round-two echoes was
    /// accepted: fixes, for every party named by an accepted round-two set,
    /// the dealers whose secrets make up its rank, and asks the key-sharing
    /// service to reconstruct every locally terminated sharing. At most once.
    pub fn check_reconstruction_start(&mut self, params: &Params, instance: u64) -> (r: Vec<AcsAction>)
        requires
            params.valid(),
            old(self).wf(*params),
        ensures
            final(self).wf(*params),
            old(self).asks_reconstruction_started ==>
                *final(self) == *old(self) && r@.len() == 0,
            final(self).asks_reconstruction_started ==> old(self).gather == final(self).gather,
            final(self).validated == old(self).validated,
            final(self).reliable_agreement == old(self).reliable_agreement,
            final(self).elected_leader == old(self).elected_leader,
            forall|j: int| 0 <= j < r@.len() ==> (#[trigger] r@[j]) is AsksReconstruct,
            final(self).asks_reconstruction_started <==> old(self).asks_reconstruction_started
                || old(self).gather.round2.validated.spec_count() >= params.spec_quorum(),
            !old(self).asks_reconstruction_started && final(self).asks_reconstruction_started ==> {
                &&& old(self).gather.round2.validated.spec_count() >= params.spec_quorum()
                &&& forall|p: int| 0 <= p < params.n ==>
                    (#[trigger] final(self).rank_pending.spec_has(p) <==>
                        old(self).gather.round2.in_union(p, *params)
                        && old(self).pre_justify_votes.spec_has(p))
                &&& forall|p: int| 0 <= p < params.n
                        && #[trigger] final(self).rank_pending.spec_has(p) ==>
                    forall|d: int| 0 <= d < params.n ==>
                        (#[trigger] final(self).rank_pending.spec_get(p).spec_contains(d) <==>
                            old(self).pre_justify_votes.spec_get(p).asks@.contains(d as usize))
                &&& r@.len() == members_below(old(self).term_asks_instances.mem@,
                        params.n as int).len()
                &&& forall|j: int| 0 <= j < r@.len() ==>
                    (#[trigger] r@[j]) == (AcsAction::AsksReconstruct { instance,
                        dealer: members_below(old(self).term_asks_instances.mem@,
                            params.n as int)[j] })
            },
            !final(self).asks_reconstruction_started ==> *final(self) == *old(self) && r@.len() == 0,
    {
        let mut r: Vec<AcsAction> = Vec::new();
        if self.asks_reconstruction_started {
            return r;
        }
        let cnt = self.gather.round2.validated.count();
        if cnt < params.quorum() {
            return r;
        }
        let union2 = self.gather.round2.union_of_validated(params);
        self.rank_pending = PartyMap::empty(params.n);
        let ghost pre_state = *self;
        let mut i: usize = 0;
        while i < union2.len()
            invariant
                i <= union2@.len(),
                params.valid(),
                self.wf(*params),
                forall|j: int| 0 <= j < union2@.len() ==> (#[trigger] union2@[j] as int) < params.n,
                *self == (VabaState { rank_pending: self.rank_pending, ..pre_state }),
                forall|p: int| 0 <= p < params.n ==>
                    (#[trigger] self.rank_pending.spec_has(p) <==>
                        union2@.take(i as int).contains(p as usize)
                        && pre_state.pre_justify_votes.spec_has(p)),
                forall|p: int| 0 <= p < params.n && #[trigger] self.rank_pending.spec_has(p) ==>
                    forall|d: int| 0 <= d < params.n ==>
                        (#[trigger] self.rank_pending.spec_get(p).spec_contains(d) <==>
                            pre_state.pre_justify_votes.spec_get(p).asks@.contains(d as usize)),
            decreases union2@.len() - i,
        {
            let p = union2[i];
            let has_vote = self.pre_justify_votes.has(p);
            if has_vote {
                let mut dealers = PartySet::empty(params.n);
                let asks_len: usize;
                match self.pre_justify_votes.get(p) {
                    Some(v) => {
                        asks_len = v.asks.len();
                    },
                    None => {
                        asks_len = 0;
                    },
                }
                let mut k: usize = 0;
                while k < asks_len
                    invariant
                        k <= asks_len,
                        params.valid(),
                        self.wf(*params),
                        (p as int) < params.n,
                        self.pre_justify_votes.spec_has(p as int),
                        asks_len == self.pre_justify_votes.spec_get(p as int).asks@.len(),
                        dealers.spec_n() == params.n,
                        forall|d: int| 0 <= d < params.n ==> (dealers.spec_contains(d) <==>
                            self.pre_justify_votes.spec_get(p as int).asks@.take(k as int)
                                .contains(d as usize)),
                    decreases asks_len - k,
                {
                    let d = match self.pre_justify_votes.get(p) {
                        Some(v) => v.asks[k],
                        None => 0,
                    };
                    dealers.insert(d);
                    proof {
                        let asksv = self.pre_justify_votes.spec_get(p as int).asks@;
                        assert(asksv.take(k + 1) =~= asksv.take(k as int).push(asksv[k as int]));
                        assert forall|dd: int| 0 <= dd < params.n implies
                            (dealers.spec_contains(dd) <==>
                                asksv.take(k + 1).contains(dd as usize)) by {
                            if asksv.take(k + 1).contains(dd as usize) {
                                let jj = choose|jj: int| 0 <= jj < k + 1
                                    && #[trigger] asksv.take(k + 1)[jj] == dd as usize;
                                if jj < k {
                                    assert(asksv.take(k as int)[jj] == dd as usize);
                                    assert(asksv.take(k as int).contains(dd as usize));
                                }
                            }
                            if dealers.spec_contains(dd) {
                                if dd != d {
                                    let jj = choose|jj: int| 0 <= jj < k
                                        && #[trigger] asksv.take(k as int)[jj] == dd as usize;
                                    assert(asksv.take(k + 1)[jj] == dd as usize);
                                } else {
                                    assert(asksv.take(k + 1)[k as int] == dd as usize);
                                }
                            }
                        }
                    }
                    k = k + 1;
                }
                proof {
                    let asksv = self.pre_justify_votes.spec_get(p as int).asks@;
                    assert(asksv.take(asksv.len() as int) =~= asksv);
                }
                self.rank_pending.set(p, dealers);
            }
            proof {
                assert(union2@.take(i + 1) =~= union2@.take(i as int).push(union2@[i as int]));
                assert forall|q: int| 0 <= q < params.n implies
                    (self.rank_pending.spec_has(q) <==>
                        union2@.take(i + 1).contains(q as usize)
                        && pre_state.pre_justify_votes.spec_has(q)) by {
                    if union2@.take(i + 1).contains(q as usize) {
                        let jj = choose|jj: int| 0 <= jj < i + 1
                            && #[trigger] union2@.take(i + 1)[jj] == q as usize;
                        if jj < i {
                            assert(union2@.take(i as int)[jj] == q as usize);
                            assert(union2@.take(i as int).contains(q as usize));
                        }
                    }
                    if self.rank_pending.spec_has(q) {
                        if q != p {
                            assert(union2@.take(i as int).contains(q as usize));
                            let jj = choose|jj: int| 0 <= jj < i
                                && #[trigger] union2@.take(i as int)[jj] == q as usize;
                            assert(union2@.take(i + 1)[jj] == q as usize);
                        } else {
                            if has_vote {
                                assert(union2@.take(i + 1)[i as int] == q as usize);
                            } else {
                                assert(union2@.take(i as int).contains(q as usize));
                                let jj = choose|jj: int| 0 <= jj < i
                                    && #[trigger] union2@.take(i as int)[jj] == q as usize;
                                assert(union2@.take(i + 1)[jj] == q as usize);
                            }
                        }
                    }
                }
            }
            i = i + 1;
        }
        proof {
            assert(union2@.take(union2@.len() as int) =~= union2@);
            assert forall|q: int| 0 <= q < params.n implies
                (union2@.contains(q as usize) <==>
                    pre_state.gather.round2.in_union(q, *params)) by {}
        }
        self.asks_reconstruction_started = true;
        let members = self.term_asks_instances.to_vec();
        let mut i2: usize = 0;
        while i2 < members.len()
            invariant
                i2 <= members@.len(),
                params.valid(),
                self.wf(*params),
                members@ == members_below(self.term_asks_instances.mem@, params.n as int),
                forall|j: int| 0 <= j < members@.len() ==>
                    (#[trigger] members@[j] as int) < params.n,
                r@.len() == i2,
                forall|j: int| 0 <= j < i2 ==> (#[trigger] r@[j]) ==
                    (AcsAction::AsksReconstruct { instance, dealer: members@[j] }),
            decreases members@.len() - i2,
        {
            r.push(AcsAction::AsksReconstruct { instance, dealer: members[i2] });
            i2 = i2 + 1;
        }
        r
    }

    /// Handles a first-round gather echo, then sends the round-two echo
    /// when its quorum is reached.
    pub fn on_gather_echo(
        &mut self,
        params: &Params,
        sender: usize,
        indices: Vec<usize>,
        instance: u64,
    ) -> (r: Vec<AcsAction>)
        requires
            params.valid(),
            old(self).wf(*params),
            (sender as int) < params.n,
        ensures
            final(self).wf(*params),
            final(self).validated == old(self).validated,
            final(self).reliable_agreement == old(self).reliable_agreement,
            final(self).elected_leader == old(self).elected_leader,
            forall|j: int| 0 <= j < r@.len() ==> (#[trigger] r@[j]) is GatherEcho2,
            old(self).gather.round1.received.spec_has(sender as int)
                || !indices_ok(indices@, params.n as int) ==>
                *final(self) == *old(self) && r@.len() == 0,
            indices_ok(indices@, params.n as int)
                && !old(self).gather.round1.received.spec_has(sender as int) ==> {
                &&& final(self).gather.round1.received.spec_has(sender as int)
                &&& final(self).gather.round1.received.spec_get(sender as int)@ == indices@
                &&& (final(self).gather.round1.validated.spec_contains(sender as int) <==>
                    (forall|j: int| 0 <= j < indices@.len() ==>
                        old(self).spec_supported(#[trigger] indices@[j] as int)))
                &&& (final(self).gather.gather2_started <==> old(self).gather.gather2_started
                    || final(self).gather.round1.validated.spec_count()
                        >= params.spec_quorum())
            },
    {
        let stored = self.gather.round1.on_echo(params, sender, indices, &self.validated,
            &self.reliable_agreement);
        if !stored {
            let r: Vec<AcsAction> = Vec::new();
            return r;
        }
        self.check_gather_echo2_start(params, instance)
    }

    /// Handles a second-round gather echo, then starts rank reconstruction
    /// when its quorum is reached.
    pub fn on_gather_echo2(
        &mut self,
        params: &Params,
        sender: usize,
        indices: Vec<usize>,
        instance: u64,
    ) -> (r: Vec<AcsAction>)
        requires
            params.valid(),
            old(self).wf(*params),
            (sender as int) < params.n,
        ensures
            final(self).wf(*params),
            final(self).validated == old(self).validated,
            final(self).reliable_agreement == old(self).reliable_agreement,
            final(self).elected_leader == old(self).elected_leader,
            forall|j: int| 0 <= j < r@.len() ==> (#[trigger] r@[j]) is AsksReconstruct,
            old(self).gather.round2.received.spec_has(sender as int)
                || !indices_ok(indices@, params.n as int) ==>
                *final(self) == *old(self) && r@.len() == 0,
            indices_ok(indices@, params.n as int)
                && !old(self).gather.round2.received.spec_has(sender as int) ==> {
                &&& final(self).gather.round2.received.spec_has(sender as int)
                &&& final(self).gather.round2.received.spec_get(sender as int)@ == indices@
                &&& (final(self).gather.round2.validated.spec_contains(sender as int) <==>
                    (forall|j: int| 0 <= j < indices@.len() ==>
                        old(self).spec_supported(#[trigger] indices@[j] as int)))
                &&& (final(self).asks_reconstruction_started <==>
                    old(self).asks_reconstruction_started
                    || final(self).gather.round2.validated.spec_count()
                        >= params.spec_quorum())
            },
    {
        let stored = self.gather.round2.on_echo(params, sender, indices, &self.validated,
            &self.reliable_agreement);
        if !stored {
            let r: Vec<AcsAction> = Vec::new();
            return r;
        }
        self.check_reconstruction_start(params, instance)
    }

    /// Whether every dealer that makes up the rank of `p` reconstructed.
    pub open spec fn rank_complete(&self, p: int, params: Params) -> bool {
        forall|d: int| 0 <= d < params.n
            && #[trigger] self.rank_pending.spec_get(p).spec_contains(d) ==>
            self.asks_reconstructed.spec_has(d)
    }

    /// The rank of `p`: the field sum, in dealer order, of the secrets of
    /// the dealers its PRE-broadcast named.
    pub open spec fn rank_spec(&self, p: int, params: Params) -> Seq<u8> {
        sum_mod_p(members_below(self.rank_pending.spec_get(p).mem@, params.n as int)
            .map_values(|d: usize| self.asks_reconstructed.spec_get(d as int)@))
    }

    /// Records a reconstructed secret; the first result per dealer is kept.
    pub fn record_reconstructed(&mut self, params: &Params, dealer: usize, secret: Vec<u8>)
        requires
            params.valid(),
            old(self).wf(*params),
            (dealer as int) < params.n,
            is_fe(secret@),
        ensures
            final(self).wf(*params),
            old(self).asks_reconstructed.spec_has(dealer as int) ==> *final(self) == *old(self),
            !old(self).asks_reconstructed.spec_has(dealer as int) ==> {
                &&& final(self).asks_reconstructed.spec_has(dealer as int)
                &&& final(self).asks_reconstructed.spec_get(dealer as int)@ == secret@
            },
            final(self).elected_leader == old(self).elected_leader,
            final(self).rank_pending == old(self).rank_pending,
            final(self).asks_reconstruction_started == old(self).asks_reconstruction_started,
    {
        if self.asks_reconstructed.has(dealer) {
            return;
        }
        self.asks_reconstructed.set(dealer, secret);
    }

    /// Elects the leader once reconstruction completed: computes every
    /// pending rank, takes the maximum (ties to the lowest party), and puts
    /// the leader's endorsed witness to the vote. The leader is set at most
    /// once and never changed.
    pub fn check_election(&mut self, params: &Params, instance: u64) -> (r: Vec<AcsAction>)
        requires
            params.valid(),
            old(self).wf(*params),
            instance < 0x1000,
        ensures
            final(self).wf(*params),
            old(self).elected_leader is Some ==> *final(self) == *old(self) && r@.len() == 0,
            !old(self).asks_reconstruction_started ==> *final(self) == *old(self) && r@.len() == 0,
            final(self).elected_leader is None ==> *final(self) == *old(self) && r@.len() == 0,
            old(self).asks_reconstruction_started && old(self).elected_leader is None
                && (forall|p: int| 0 <= p < params.n
                    && #[trigger] old(self).rank_pending.spec_has(p) ==>
                    old(self).rank_complete(p, *params)) ==>
                final(self).elected_leader is Some,
            final(self).gather == old(self).gather,
            final(self).validated == old(self).validated,
            final(self).reliable_agreement == old(self).reliable_agreement,
            final(self).pre_justify_votes == old(self).pre_justify_votes,
            final(self).rank_pending == old(self).rank_pending,
            final(self).asks_reconstructed == old(self).asks_reconstructed,
            final(self).term_asks_instances == old(self).term_asks_instances,
            forall|j: int| 0 <= j < r@.len() ==> (#[trigger] r@[j]) is RbcSend,
            old(self).elected_leader is None && final(self).elected_leader is Some ==> {
                &&& forall|p: int| 0 <= p < params.n
                        && #[trigger] old(self).rank_pending.spec_has(p) ==>
                    old(self).rank_complete(p, *params)
                &&& final(self).elected_leader ==
                    Some(elect(final(self).ranks_view(*params), params.n as int).0 as usize)
                &&& forall|p: int| 0 <= p < params.n ==>
                    (#[trigger] final(self).ranks.spec_has(p) <==> old(self).rank_pending.spec_has(p))
                &&& forall|p: int| 0 <= p < params.n && #[trigger] final(self).ranks.spec_has(p) ==>
                    final(self).ranks.spec_get(p)@ == old(self).rank_spec(p, *params)
                &&& (!old(self).vote_broadcasted
                        && old(self).pre_justify_votes.spec_has(
                            elect(final(self).ranks_view(*params), params.n as int).0) ==> {
                    &&& final(self).vote_broadcasted
                    &&& r@.len() == 1
                    &&& (r@[0] matches AcsAction::RbcSend { payload } && payload@ ==
                        enc_interface((2 * instance + 2) as u64,
                            be8(old(self).pre_justify_votes.spec_get(
                                elect(final(self).ranks_view(*params), params.n as int).0)
                                .pre as u64)))
                })
            },
    {
        let mut r: Vec<AcsAction> = Vec::new();
        if !self.asks_reconstruction_started {
            return r;
        }
        if self.elected_leader.is_some() {
            return r;
        }
        // every pending rank must be complete
        let mut p: usize = 0;
        while p < params.n
            invariant
                p <= params.n,
                params.valid(),
                self.wf(*params),
                *self == *old(self),
                r@.len() == 0,
                forall|q: int| 0 <= q < p && #[trigger] self.rank_pending.spec_has(q) ==>
                    self.rank_complete(q, *params),
            decreases params.n - p,
        {
            if self.rank_pending.has(p) {
                let mut d: usize = 0;
                let mut complete = true;
                while d < params.n
                    invariant
                        d <= params.n,
                        params.valid(),
                        self.wf(*params),
                        (p as int) < params.n,
                        self.rank_pending.spec_has(p as int),
                        complete <==> (forall|e: int| 0 <= e < d
                            && #[trigger] self.rank_pending.spec_get(p as int).spec_contains(e) ==>
                            self.asks_reconstructed.spec_has(e)),
                    decreases params.n - d,
                {
                    let pend = match self.rank_pending.get(p) {
                        Some(s) => s,
                        None => unreached(),
                    };
                    if pend.contains(d) && !self.asks_reconstructed.has(d) {
                        complete = false;
                    }
                    d = d + 1;
                }
                if !complete {
                    return r;
                }
            }
            p = p + 1;
        }
        // compute the ranks
        self.ranks = PartyMap::empty(params.n);
        let ghost pre_state = *self;
        let mut p2: usize = 0;
        while p2 < params.n
            invariant
                p2 <= params.n,
                params.valid(),
                self.wf(*params),
                *self == (VabaState { ranks: self.ranks, ..pre_state }),
                forall|q: int| 0 <= q < params.n && #[trigger] pre_state.rank_pending.spec_has(q) ==>
                    pre_state.rank_complete(q, *params),
                forall|q: int| 0 <= q < params.n ==>
                    (#[trigger] self.ranks.spec_has(q) <==>
                        q < p2 && pre_state.rank_pending.spec_has(q)),
                forall|q: int| 0 <= q < params.n && #[trigger] self.ranks.spec_has(q) ==>
                    self.ranks.spec_get(q)@ == pre_state.rank_spec(q, *params),
            decreases params.n - p2,
        {
            if self.rank_pending.has(p2) {
                let dealers = match self.rank_pending.get(p2) {
                    Some(s) => s.to_vec(),
                    None => unreached(),
                };
                proof {
                    crate::party::lemma_members_below_complete(
                        self.rank_pending.spec_get(p2 as int).mem@, params.n as int);
                }
                let mut secrets: Vec<Vec<u8>> = Vec::new();
                let mut k: usize = 0;
                while k < dealers.len()
                    invariant
                        k <= dealers@.len(),
                        params.valid(),
                        self.wf(*params),
                        (p2 as int) < params.n,
                        self.rank_pending.spec_has(p2 as int),
                        pre_state.rank_pending == self.rank_pending,
                        pre_state.asks_reconstructed == self.asks_reconstructed,
                        dealers@ == members_below(
                            self.rank_pending.spec_get(p2 as int).mem@, params.n as int),
                        forall|j: int| 0 <= j < dealers@.len() ==>
                            (#[trigger] dealers@[j] as int) < params.n
                            && self.rank_pending.spec_get(p2 as int)
                                .spec_contains(dealers@[j] as int)
                            && self.asks_reconstructed.spec_has(dealers@[j] as int),
                        secrets@.map_values(|v: Vec<u8>| v@) =~=
                            dealers@.take(k as int).map_values(|d: usize|
                                self.asks_reconstructed.spec_get(d as int)@),
                        forall|j: int| 0 <= j < secrets@.len() ==> is_fe(#[trigger] secrets@[j]@),
                    decreases dealers@.len() - k,
                {
                    let d = dealers[k];
                    let sec = match self.asks_reconstructed.get(d) {
                        Some(s) => copy_bytes(s),
                        None => unreached(),
                    };
                    secrets.push(sec);
                    proof {
                        assert(dealers@.take(k + 1) =~=
                            dealers@.take(k as int).push(dealers@[k as int]));
                        assert(dealers@.take(k + 1).map_values(|dd: usize|
                            self.asks_reconstructed.spec_get(dd as int)@) =~=
                            dealers@.take(k as int).map_values(|dd: usize|
                                self.asks_reconstructed.spec_get(dd as int)@)
                                .push(self.asks_reconstructed.spec_get(d as int)@));
                        assert(secrets@.map_values(|v: Vec<u8>| v@) =~=
                            secrets@.drop_last().map_values(|v: Vec<u8>| v@)
                                .push(secrets@.last()@));
                    }
                    k = k + 1;
                }
                let rank = fe_sum(&secrets);
                proof {
                    assert(dealers@.take(dealers@.len() as int) =~= dealers@);
                    assert(rank@ == pre_state.rank_spec(p2 as int, *params));
                }
                self.ranks.set(p2, rank);
            }
            p2 = p2 + 1;
        }
        // elect: the maximum rank, ties to the lowest party
        let ghost rv = self.ranks_view(*params);
        let mut max_rank = fe_zero();
        let mut leader: usize = 0;
        let mut p3: usize = 0;
        while p3 < params.n
            invariant
                p3 <= params.n,
                params.valid(),
                self.wf(*params),
                rv == self.ranks_view(*params),
                is_fe(max_rank@),
                (leader as int, max_rank@) == elect(rv, p3 as int),
            decreases params.n - p3,
        {
            let mut better = false;
            match self.ranks.get(p3) {
                Some(rk) => {
                    if fe_greater(rk, &max_rank) {
                        max_rank = copy_bytes(rk);
                        leader = p3;
                        proof {
                            assert(rv[p3 as int] == Some(self.ranks.spec_get(p3 as int)@));
                        }
                    } else {
                        proof {
                            assert(rv[p3 as int] == Some(self.ranks.spec_get(p3 as int)@));
                        }
                    }
                },
                None => {
                    proof {
                        assert(rv[p3 as int] is None);
                    }
                },
            }
            p3 = p3 + 1;
        }
        self.elected_leader = Some(leader);
        // put the leader's endorsed witness to the vote
        if !self.vote_broadcasted {
            if self.pre_justify_votes.has(leader) {
                let pre_of_leader = match self.pre_justify_votes.get(leader) {
                    Some(v) => v.pre,
                    None => unreached(),
                };
                let mut msg: Vec<u8> = Vec::new();
                push_be8(&mut msg, pre_of_leader as u64);
                proof {
                    crate::codec::lemma_le_bytes_len(pre_of_leader as u64 as int, 8);
                }
                let iface = RbcInterface { id: 2 * instance + 2, msg };
                let payload = iface.encode();
                self.vote_broadcasted = true;
                r.push(AcsAction::RbcSend { payload });
            }
        }
        r
    }

    /// Tallies a vote for `value`; at a quorum of matching votes, starts
    /// the termination gadget: reliable agreement tagged with the node
    /// count as representative. A duplicate vote changes nothing.
    pub fn process_vote(
        &mut self,
        params: &Params,
        broadcaster: usize,
        value: u64,
        instance: u64,
    ) -> (r: Vec<AcsAction>)
        requires
            params.valid(),
            old(self).wf(*params),
            (broadcaster as int) < params.n,
        ensures
            final(self).wf(*params),
            old(self).voted(value, broadcaster as int) ==>
                *final(self) == *old(self) && r@.len() == 0,
            !old(self).voted(value, broadcaster as int) ==> {
                &&& final(self).voted(value, broadcaster as int)
                &&& final(self).vote_count(value) == old(self).vote_count(value) + 1
                &&& (final(self).vote_count(value) == params.spec_quorum() <==>
                    r@ =~= seq![AcsAction::RaStart {
                        rep: params.n, value, instance }])
                &&& (final(self).vote_count(value) != params.spec_quorum() ==> r@.len() == 0)
            },
    {
        let mut r: Vec<AcsAction> = Vec::new();
        match self.votes.get(value) {
            Some(s) => {
                if s.contains(broadcaster) {
                    return r;
                }
            },
            None => {},
        }
        let mut set = match self.votes.take(value) {
            Some(s) => s,
            None => PartySet::empty(params.n),
        };
        set.insert(broadcaster);
        let cnt = set.count();
        self.votes.set(value, set);
        if cnt == params.quorum() {
            r.push(AcsAction::RaStart { rep: params.n, value, instance });
        }
        r
    }

    /// Whether `sender` voted for `value`.
    pub open spec fn voted(&self, value: u64, sender: int) -> bool {
        has_key(self.votes.entries@, value)
            && val_of(self.votes.entries@, value).spec_contains(sender)
    }

    pub open spec fn vote_count(&self, value: u64) -> nat {
        if has_key(self.votes.entries@, value) {
            val_of(self.votes.entries@, value).spec_count()
        } else {
            0
        }
    }
}

/// Copies a byte string.
pub fn copy_bytes(v: &Vec<u8>) -> (r: Vec<u8>)
    ensures
        r@ =~= v@,
{
    let mut r: Vec<u8> = Vec::new();
    let mut i: usize = 0;
    while i < v.len()
        invariant
            i <= v@.len(),
            r@ =~= v@.take(i as int),
        decreases v@.len() - i,
    {
        r.push(v[i]);
        proof {
            assert(v@.take(i + 1) =~= v@.take(i as int).push(v@[i as int]));
        }
        i = i + 1;
    }
    proof {
        assert(v@.take(v@.len() as int) =~= v@);
    }
    r
}

/// The payload of the single send action of a list, used to phrase what a
/// one-action result carries.
pub open spec fn choose_payload(r: Seq<AcsAction>) -> Vec<u8>
    recommends
        r.len() == 1,
{
    r[0]->RbcSend_payload
}

/// Copies a justification list.
fn clone_pairs(xs: &Vec<(u64, u64)>) -> (r: Vec<(u64, u64)>)
    ensures
        r@ =~= xs@,
{
    let mut r: Vec<(u64, u64)> = Vec::new();
    let mut i: usize = 0;
    while i < xs.len()
        invariant
            i <= xs@.len(),
            r@ =~= xs@.take(i as int),
        decreases xs@.len() - i,
    {
        r.push(xs[i]);
        proof {
            assert(xs@.take(i + 1) =~= xs@.take(i as int).push(xs@[i as int]));
        }
        i = i + 1;
    }
    proof {
        assert(xs@.take(xs@.len() as int) =~= xs@);
    }
    r
}

} // verus!
