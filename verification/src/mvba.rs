//! The multi-valued termination gadget: repeated leader-election rounds
//! over two broadcast levels, a witness level, a seeded leader draw and a
//! binary agreement verdict.
//!
//! Per round: every party broadcasts its input at level one; a quorum of
//! level-one terminations broadcasts their senders as the level-two list.
//! A level-two list is approved once every member's level one terminated;
//! a quorum of approvals sends the level-three witness message, and a
//! quorum of witness messages — each approved once every named party's
//! level two terminated — releases a coin share. The reconstructed coin
//! seeds the leader draw; binary agreement accepts or rejects the leader,
//! and an accepted leader's level-two list of level-one values is the
//! output. A rejected round starts the next one.

use vstd::prelude::*;
use crate::Params;
use crate::codec::{push_le8, push_u64_list, read_le8, read_u64_list_exact, le8, enc_u64_list};
use crate::field::{draw_leader, interpolate_at_zero, lagrange_at, leader_draw, is_fe};
use crate::gather::EchoRound;
use crate::party::{members_below, PartyMap, PartySet};
use crate::vmap::{VMap, has_key, val_of};

verus! {

/// What a gadget handler asks the surrounding loop to do.
pub enum MvbaAction {
    /// Hand a level-one or level-two payload to the broadcast service.
    RbcSend { payload: Vec<u8> },
    /// Broadcast the level-three witness message.
    L3Witness { instance: u64, round: u64, witnesses: Vec<usize> },
    /// Broadcast the round's leader-coin share.
    LeaderCoin { instance: u64, round: u64, share: Vec<u8> },
    /// Feed the verdict to reliable agreement under the round's tag.
    RaStart { decision: u64, tag: u64 },
    /// Start binary agreement under the round's tag, with its coin shares.
    BaStart { tag: u64, decision: u64, coins: Vec<Vec<u8>> },
    /// Emit the gadget's output: the leader's level-one values.
    Output { instance: u64, values: Vec<u64> },
}

/// The tag that carries `(instance, round)` into the binary agreement and
/// agreement services: a round counter packed below one hundred.
pub open spec fn spec_round_tag(instance: u64, round: u64) -> u64 {
    (100 * instance + round) as u64
}

/// Packs the round tag.
pub fn round_tag(instance: u64, round: u64) -> (r: u64)
    requires
        round < 100,
        instance < 0x1000_0000,
    ensures
        r == spec_round_tag(instance, round),
        r / 100 == instance,
        r % 100 == round,
{
    let r = 100 * instance + round;
    proof {
        vstd::arithmetic::div_mod::lemma_fundamental_div_mod_converse(
            r as int, 100, instance as int, round as int);
    }
    r
}

/// Unpacks a round tag; packing then unpacking is the identity.
pub fn untag_round(tag: u64) -> (r: (u64, u64))
    ensures
        r.0 == tag / 100,
        r.1 == tag % 100,
        forall|i: u64, rd: u64| i < 0x1000_0000 && rd < 100
            && tag == spec_round_tag(i, rd) ==> r.0 == i && r.1 == rd,
{
    proof {
        assert forall|i: u64, rd: u64| i < 0x1000_0000 && rd < 100
            && tag == spec_round_tag(i, rd) implies tag / 100 == i && tag % 100 == rd by {
            vstd::arithmetic::div_mod::lemma_fundamental_div_mod_converse(
                tag as int, 100, i as int, rd as int);
        }
    }
    (tag / 100, tag % 100)
}

/// One round of the gadget.
pub struct MvbaRoundState {
    /// Parties whose level-one broadcast terminated, with their values.
    pub l1_vals: PartyMap<u64>,
    /// Parties whose level one terminated, as a support set.
    pub l1_seen: PartySet,
    /// Level-two lists: approved once every member's level one terminated.
    pub l2: EchoRound,
    /// Level-three witness lists: approved once every named party's level
    /// two terminated.
    pub l3: EchoRound,
    /// Parties whose level-two list arrived, as a support set.
    pub l2_seen: PartySet,
    /// Set once the own level-two list went out.
    pub l2_sent: bool,
    /// Set once the own level-three witness went out.
    pub l3_witness_sent: bool,
    /// Set once the own coin share went out.
    pub coin_broadcasted: bool,
    /// Leader-coin share per sender.
    pub coin_shares: PartyMap<Vec<u8>>,
    /// The drawn leader; set once, never changed.
    pub leader: Option<usize>,
    /// The binary-agreement verdict, once it terminated.
    pub ba_output: Option<u64>,
}

impl MvbaRoundState {
    pub open spec fn wf(&self, params: Params) -> bool {
        &&& self.l1_vals.spec_n() == params.n
        &&& self.l1_seen.spec_n() == params.n
        &&& self.l2_seen.spec_n() == params.n
        &&& self.l2.wf(params)
        &&& self.l3.wf(params)
        &&& self.l2.accept_inv(&self.l1_seen, &self.l1_seen, params)
        &&& self.l3.accept_inv(&self.l2_seen, &self.l2_seen, params)
        &&& self.coin_shares.spec_n() == params.n
        &&& forall|p: int| #[trigger] self.coin_shares.spec_has(p) ==>
                is_fe(self.coin_shares.spec_get(p)@)
        &&& (self.leader is Some ==> (self.leader->Some_0 as int) < params.n)
    }

    /// The coin-share evaluation points, in sender order.
    pub open spec fn coin_points(&self) -> Seq<u64> {
        self.coin_shares.holders().map_values(|d: usize| d as u64)
    }

    /// The coin-share encodings, in sender order.
    pub open spec fn coin_vals(&self) -> Seq<Seq<u8>> {
        self.coin_shares.holders().map_values(|d: usize|
            self.coin_shares.spec_get(d as int)@)
    }

    /// The leader the round's reconstructed coin seeds.
    pub open spec fn drawn_leader(&self, n: int) -> int {
        leader_draw(lagrange_at(self.coin_points(), self.coin_vals(), 0), n)
    }

    pub fn new(n: usize) -> (r: MvbaRoundState)
        requires
            n >= 1,
        ensures
            forall|p: Params| p.n == n ==> r.wf(p),
            r.leader is None,
            r.ba_output is None,
            !r.l2_sent,
            !r.l3_witness_sent,
            !r.coin_broadcasted,
            r.coin_shares.spec_count() == 0,
            forall|p: int| 0 <= p < n ==> !(#[trigger] r.l1_vals.spec_has(p)),
            forall|p: int| 0 <= p < n ==> !(#[trigger] r.l1_seen.spec_contains(p)),
            forall|p: int| 0 <= p < n ==> !(#[trigger] r.l2.received.spec_has(p)),
            forall|p: int| 0 <= p < n ==> !(#[trigger] r.l2.validated.spec_contains(p)),
            forall|p: int| 0 <= p < n ==> !(#[trigger] r.l3.received.spec_has(p)),
            forall|p: int| 0 <= p < n ==> !(#[trigger] r.l3.validated.spec_contains(p)),
            forall|p: int| 0 <= p < n ==> !(#[trigger] r.coin_shares.spec_has(p)),
    {
        MvbaRoundState {
            l1_vals: PartyMap::empty(n),
            l1_seen: PartySet::empty(n),
            l2: EchoRound::new(n),
            l3: EchoRound::new(n),
            l2_seen: PartySet::empty(n),
            l2_sent: false,
            l3_witness_sent: false,
            coin_broadcasted: false,
            coin_shares: PartyMap::empty(n),
            leader: None,
            ba_output: None,
        }
    }
}

/// One execution of the gadget: its input, its rounds, and the output latch.
pub struct MvbaState {
    pub params: Params,
    pub myid: usize,
    /// This party's input value, once known.
    pub inp_value: Option<u64>,
    /// Per-round state.
    pub rounds: VMap<MvbaRoundState>,
    /// The preloaded coin shares; consumed front to back.
    pub coin_queue: Vec<Vec<u8>>,
    /// How many coin shares were consumed.
    pub coin_used: usize,
    /// The output, once emitted; it is emitted exactly once.
    pub output: Option<Vec<u64>>,
}

impl MvbaState {
    pub open spec fn wf(&self) -> bool {
        &&& self.params.valid()
        &&& (self.myid as int) < self.params.n
        &&& self.rounds.wf()
        &&& forall|k: u64| #[trigger] has_key(self.rounds.entries@, k) ==>
                val_of(self.rounds.entries@, k).wf(self.params)
        &&& forall|i: int| 0 <= i < self.coin_queue@.len() ==>
                is_fe(#[trigger] self.coin_queue@[i]@)
        &&& self.coin_used <= self.coin_queue@.len()
    }

    pub fn new(params: Params, myid: usize, coin_queue: Vec<Vec<u8>>) -> (r: MvbaState)
        requires
            params.valid(),
            (myid as int) < params.n,
            forall|i: int| 0 <= i < coin_queue@.len() ==> is_fe(#[trigger] coin_queue@[i]@),
        ensures
            r.wf(),
            r.params == params,
            r.output is None,
            r.inp_value is None,
    {
        MvbaState {
            params,
            myid,
            inp_value: None,
            rounds: VMap::new(),
            coin_queue,
            coin_used: 0,
            output: None,
        }
    }

    pub open spec fn has_round(&self, round: u64) -> bool {
        has_key(self.rounds.entries@, round)
    }

    /// The state of `round`, as last stored.
    pub open spec fn round_view(&self, round: u64) -> MvbaRoundState
        recommends
            self.has_round(round),
    {
        val_of(self.rounds.entries@, round)
    }

    /// Whether the leader of `round` was already drawn.
    pub open spec fn leader_drawn(&self, round: u64) -> bool {
        self.has_round(round) && self.round_view(round).leader is Some
    }

    /// The state of `round`, created on first reference.
    fn round_take(&mut self, round: u64) -> (r: MvbaRoundState)
        requires
            old(self).wf(),
        ensures
            r.wf(old(self).params),
            final(self).wf(),
            final(self).params == old(self).params,
            final(self).output == old(self).output,
            final(self).inp_value == old(self).inp_value,
            final(self).coin_used == old(self).coin_used,
            final(self).coin_queue == old(self).coin_queue,
            final(self).myid == old(self).myid,
            old(self).has_round(round) ==> r == old(self).round_view(round),
            !old(self).has_round(round) ==> {
                &&& r.leader is None
                &&& r.ba_output is None
                &&& !r.l2_sent
                &&& !r.l3_witness_sent
                &&& !r.coin_broadcasted
                &&& r.coin_shares.spec_count() == 0
                &&& forall|p: int| 0 <= p < old(self).params.n ==>
                    !(#[trigger] r.l1_vals.spec_has(p))
                &&& forall|p: int| 0 <= p < old(self).params.n ==>
                    !(#[trigger] r.l1_seen.spec_contains(p))
                &&& forall|p: int| 0 <= p < old(self).params.n ==>
                    !(#[trigger] r.l2.received.spec_has(p))
                &&& forall|p: int| 0 <= p < old(self).params.n ==>
                    !(#[trigger] r.l2.validated.spec_contains(p))
                &&& forall|p: int| 0 <= p < old(self).params.n ==>
                    !(#[trigger] r.l3.received.spec_has(p))
                &&& forall|p: int| 0 <= p < old(self).params.n ==>
                    !(#[trigger] r.l3.validated.spec_contains(p))
                &&& forall|p: int| 0 <= p < old(self).params.n ==>
                    !(#[trigger] r.coin_shares.spec_has(p))
            },
            !final(self).has_round(round),
            forall|q: u64| q != round ==> #[trigger] has_key(final(self).rounds.entries@, q)
                == has_key(old(self).rounds.entries@, q),
            forall|q: u64| q != round && has_key(old(self).rounds.entries@, q) ==>
                #[trigger] val_of(final(self).rounds.entries@, q)
                == val_of(old(self).rounds.entries@, q),
    {
        match self.rounds.take(round) {
            Some(st) => st,
            None => MvbaRoundState::new(self.params.n),
        }
    }

    /// Starts `round` with this party's input: broadcast it at level one.
    /// Without an input value nothing can start.
    pub fn start_round(&mut self, instance: u64, round: u64, value: Option<u64>) -> (r: Vec<MvbaAction>)
        requires
            old(self).wf(),
            instance < 0x1000_0000,
            round < 100,
        ensures
            final(self).wf(),
            final(self).output == old(self).output,
            final(self).rounds == old(self).rounds,
            final(self).params == old(self).params,
            final(self).coin_queue == old(self).coin_queue,
            final(self).coin_used == old(self).coin_used,
            old(self).inp_value is None && value is None ==>
                *final(self) == *old(self) && r@.len() == 0,
            final(self).inp_value is Some ==> {
                &&& r@.len() == 1
                &&& (r@[0] matches MvbaAction::RbcSend { payload } && payload@ ==
                    mvba_payload(instance, round, 1, seq![final(self).inp_value->Some_0]))
            },
            old(self).inp_value is Some ==> final(self).inp_value == old(self).inp_value,
            old(self).inp_value is None && value is Some ==> final(self).inp_value == value,
    {
        let mut r: Vec<MvbaAction> = Vec::new();
        if self.inp_value.is_none() {
            match value {
                Some(v) => {
                    self.inp_value = Some(v);
                },
                None => {
                    return r;
                },
            }
        }
        let v: u64 = match &self.inp_value {
            Some(v) => *v,
            None => 0,
        };
        let mut vals: Vec<u64> = Vec::new();
        vals.push(v);
        let payload = encode_mvba_payload(instance, round, 1, &vals);
        proof {
            assert(vals@ =~= seq![v]);
        }
        r.push(MvbaAction::RbcSend { payload });
        r
    }

    /// A level-one broadcast of `rbc_broadcaster` terminated with
    /// `broadcast_val`: at a quorum the own level-two list goes out, and
    /// every waiting level-two list sheds this member.
    pub fn process_l1_rbc_termination(
        &mut self,
        instance: u64,
        round: u64,
        rbc_broadcaster: usize,
        broadcast_val: u64,
    ) -> (r: Vec<MvbaAction>)
        requires
            old(self).wf(),
            (rbc_broadcaster as int) < old(self).params.n,
            instance < 0x1000_0000,
            round < 100,
        ensures
            final(self).wf(),
            output_latched(old(self), final(self), r@),
            final(self).has_round(round),
            final(self).round_view(round).l1_vals.spec_has(rbc_broadcaster as int),
            final(self).round_view(round).l1_seen.spec_contains(rbc_broadcaster as int),
            !(old(self).has_round(round)
                    && old(self).round_view(round).l1_vals.spec_has(rbc_broadcaster as int)) ==>
                final(self).round_view(round).l1_vals.spec_get(rbc_broadcaster as int)
                    == broadcast_val,
            old(self).has_round(round)
                    && old(self).round_view(round).l1_vals.spec_has(rbc_broadcaster as int) ==>
                final(self).round_view(round).l1_vals.spec_get(rbc_broadcaster as int)
                    == old(self).round_view(round).l1_vals.spec_get(rbc_broadcaster as int),
            (final(self).round_view(round).l2_sent <==>
                (old(self).has_round(round) && old(self).round_view(round).l2_sent)
                || final(self).round_view(round).l1_seen.spec_count()
                    >= old(self).params.spec_quorum()),
            !(old(self).has_round(round) && old(self).round_view(round).l2_sent)
                    && final(self).round_view(round).l2_sent ==> {
                &&& r@.len() >= 1
                &&& (r@[0] matches MvbaAction::RbcSend { payload } && payload@ ==
                    mvba_payload(instance, round, 2,
                        members_below(final(self).round_view(round).l1_seen.mem@,
                            old(self).params.n as int).map_values(|p: usize| p as u64)))
            },
    {
        let mut r: Vec<MvbaAction> = Vec::new();
        let mut st = self.round_take(round);
        if !st.l1_vals.has(rbc_broadcaster) {
            st.l1_vals.set(rbc_broadcaster, broadcast_val);
        }
        let ghost st0 = st;
        st.l1_seen.insert(rbc_broadcaster);
        proof {
            crate::gather::lemma_accept_inv_monotone(
                &st.l2, &st0.l1_seen, &st0.l1_seen, &st.l1_seen, &st.l1_seen, self.params);
        }
        let cnt = st.l1_seen.count();
        if cnt >= self.params.quorum() && !st.l2_sent {
            st.l2_sent = true;
            let members = st.l1_seen.to_vec();
            proof {
                crate::party::lemma_members_below_count(st.l1_seen.mem@, self.params.n as int);
                assert(st.l1_seen.mem@.take(self.params.n as int) =~= st.l1_seen.mem@);
                crate::party::lemma_count_le_len(st.l1_seen.mem@);
            }
            let mut members64: Vec<u64> = Vec::new();
            let mut i: usize = 0;
            while i < members.len()
                invariant
                    i <= members@.len(),
                    members@.len() <= 0xffff,
                    members64@ =~= members@.take(i as int).map_values(|p: usize| p as u64),
                decreases members@.len() - i,
            {
                members64.push(members[i] as u64);
                proof {
                    assert(members@.take(i + 1) =~=
                        members@.take(i as int).push(members@[i as int]));
                    assert(members@.take(i + 1).map_values(|p: usize| p as u64) =~=
                        members@.take(i as int).map_values(|p: usize| p as u64)
                            .push(members@[i as int] as u64));
                }
                i = i + 1;
            }
            proof {
                assert(members@.take(members@.len() as int) =~= members@);
            }
            let payload = encode_mvba_payload(instance, round, 2, &members64);
            r.push(MvbaAction::RbcSend { payload });
        }
        // shed this member from the waiting level-two lists
        st.l2.revalidate(&self.params, rbc_broadcaster, &st.l1_seen, &st.l1_seen);
        let mut sub = finish_l2_checks(&self.params, &mut st, self.myid, instance, round);
        r.append(&mut sub);
        self.rounds.set(round, st);
        let mut sub2 = self.verify_round_termination(instance, round);
        r.append(&mut sub2);
        r
    }

    /// A level-two broadcast of `rbc_broadcaster` terminated with a list of
    /// parties: it is approved once every member's level one terminated.
    #[verifier::rlimit(60)]
    pub fn process_l2_rbc_termination(
        &mut self,
        instance: u64,
        round: u64,
        rbc_broadcaster: usize,
        indices: Vec<usize>,
    ) -> (r: Vec<MvbaAction>)
        requires
            old(self).wf(),
            (rbc_broadcaster as int) < old(self).params.n,
            instance < 0x1000_0000,
            round < 100,
        ensures
            final(self).wf(),
            output_latched(old(self), final(self), r@),
            final(self).has_round(round),
            final(self).round_view(round).l2_seen.spec_contains(rbc_broadcaster as int),
            crate::gather::indices_ok(indices@, old(self).params.n as int)
                && !(old(self).has_round(round)
                    && old(self).round_view(round).l2.received.spec_has(rbc_broadcaster as int))
                ==> {
                &&& final(self).round_view(round).l2.received.spec_has(rbc_broadcaster as int)
                &&& final(self).round_view(round).l2.received
                    .spec_get(rbc_broadcaster as int)@ == indices@
                &&& (final(self).round_view(round).l2.validated
                        .spec_contains(rbc_broadcaster as int) <==>
                    (forall|j: int| 0 <= j < indices@.len() ==>
                        final(self).round_view(round).l1_seen
                            .spec_contains(#[trigger] indices@[j] as int)))
            },
            (final(self).round_view(round).l3_witness_sent <==>
                (old(self).has_round(round) && old(self).round_view(round).l3_witness_sent)
                || final(self).round_view(round).l2.validated.spec_count()
                    >= old(self).params.spec_quorum()),
    {
        let mut r: Vec<MvbaAction> = Vec::new();
        let mut st = self.round_take(round);
        st.l2.on_echo(&self.params, rbc_broadcaster, indices, &st.l1_seen, &st.l1_seen);
        let ghost st0 = st;
        st.l2_seen.insert(rbc_broadcaster);
        proof {
            crate::gather::lemma_accept_inv_monotone(
                &st.l3, &st0.l2_seen, &st0.l2_seen, &st.l2_seen, &st.l2_seen, self.params);
        }
        // the new level two supports waiting level-three witnesses
        st.l3.revalidate(&self.params, rbc_broadcaster, &st.l2_seen, &st.l2_seen);
        let mut sub = finish_l2_checks(&self.params, &mut st, self.myid, instance, round);
        r.append(&mut sub);
        let mut sub2 = finish_l3_checks(&self.params, &mut st, self.myid, instance, round,
            &mut self.coin_queue, &mut self.coin_used);
        r.append(&mut sub2);
        let ghost st_stored = st;
        self.rounds.set(round, st);
        proof {
            assert(self.round_view(round) == st_stored);
        }
        let mut sub3 = self.verify_round_termination(instance, round);
        r.append(&mut sub3);
        proof {
            assert(self.round_view(round) == st_stored);
        }
        r
    }

    /// An incoming level-three witness message: approved once every named
    /// party's level-two broadcast terminated here.
    #[verifier::rlimit(60)]
    pub fn process_incoming_l3_witness(
        &mut self,
        instance: u64,
        round: u64,
        witnesses: Vec<usize>,
        sender: usize,
    ) -> (r: Vec<MvbaAction>)
        requires
            old(self).wf(),
            (sender as int) < old(self).params.n,
            instance < 0x1000_0000,
            round < 100,
        ensures
            final(self).wf(),
            output_latched(old(self), final(self), r@),
            final(self).has_round(round),
            crate::gather::indices_ok(witnesses@, old(self).params.n as int)
                && !(old(self).has_round(round)
                    && old(self).round_view(round).l3.received.spec_has(sender as int))
                ==> {
                &&& final(self).round_view(round).l3.received.spec_has(sender as int)
                &&& final(self).round_view(round).l3.received.spec_get(sender as int)@
                    == witnesses@
                &&& (final(self).round_view(round).l3.validated.spec_contains(sender as int) <==>
                    (forall|j: int| 0 <= j < witnesses@.len() ==>
                        final(self).round_view(round).l2_seen
                            .spec_contains(#[trigger] witnesses@[j] as int)))
            },
            (final(self).round_view(round).coin_broadcasted <==>
                (old(self).has_round(round) && old(self).round_view(round).coin_broadcasted)
                || (final(self).round_view(round).l3.validated.spec_count()
                        >= old(self).params.spec_quorum()
                    && old(self).coin_used < old(self).coin_queue@.len())),
    {
        let mut r: Vec<MvbaAction> = Vec::new();
        let mut st = self.round_take(round);
        st.l3.on_echo(&self.params, sender, witnesses, &st.l2_seen, &st.l2_seen);
        let mut sub = finish_l3_checks(&self.params, &mut st, self.myid, instance, round,
            &mut self.coin_queue, &mut self.coin_used);
        r.append(&mut sub);
        let ghost st_stored = st;
        self.rounds.set(round, st);
        proof {
            assert(self.round_view(round) == st_stored);
        }
        let mut sub2 = self.verify_round_termination(instance, round);
        r.append(&mut sub2);
        proof {
            assert(self.round_view(round) == st_stored);
        }
        r
    }

    /// An incoming leader-coin share: at `t + 1` shares the coin is
    /// reconstructed, the leader drawn from it, and the verdict about the
    /// leader fed to binary agreement and reliable agreement. A share that
    /// is not a canonical field encoding is dropped; once the leader is
    /// drawn, further shares are ignored.
    pub fn process_incoming_leader_coin(
        &mut self,
        instance: u64,
        round: u64,
        share: Vec<u8>,
        sender: usize,
    ) -> (r: Vec<MvbaAction>)
        requires
            old(self).wf(),
            (sender as int) < old(self).params.n,
            instance < 0x1000_0000,
            round < 100,
        ensures
            final(self).wf(),
            share@.len() != 32 ==> *final(self) == *old(self) && r@.len() == 0,
            output_latched(old(self), final(self), r@),
            share@.len() == 32 ==> final(self).has_round(round),
            share@.len() == 32 && old(self).leader_drawn(round) ==> {
                &&& final(self).round_view(round).leader
                    == old(self).round_view(round).leader
                &&& forall|j: int| 0 <= j < r@.len() ==>
                    !((#[trigger] r@[j]) is BaStart) && !(r@[j] is RaStart)
            },
            share@.len() == 32 && !old(self).leader_drawn(round)
                && final(self).round_view(round).leader is Some ==> {
                &&& (final(self).round_view(round).leader->Some_0 as int)
                    == final(self).round_view(round).drawn_leader(old(self).params.n as int)
                &&& r@.len() >= 2
                &&& (r@[0] matches MvbaAction::RaStart { decision, tag }
                    && tag == spec_round_tag(instance, round)
                    && decision == (if final(self).round_view(round).l2.validated
                        .spec_contains(final(self).round_view(round).leader->Some_0 as int)
                        { 2u64 } else { 0u64 }))
                &&& (r@[1] matches MvbaAction::BaStart { tag: t2, decision: d2, coins }
                    && t2 == spec_round_tag(instance, round)
                    && d2 == (if final(self).round_view(round).l2.validated
                        .spec_contains(final(self).round_view(round).leader->Some_0 as int)
                        { 2u64 } else { 0u64 }))
            },
    {
        let mut r: Vec<MvbaAction> = Vec::new();
        if share.len() != 32 {
            return r;
        }
        let mut st = self.round_take(round);
        if st.leader.is_some() {
            let ghost st_stored = st;
            self.rounds.set(round, st);
            proof {
                assert(self.round_view(round) == st_stored);
            }
            let mut sub = self.verify_round_termination(instance, round);
            r.append(&mut sub);
            proof {
                assert(self.round_view(round) == st_stored);
            }
            return r;
        }
        if !st.coin_shares.has(sender) {
            st.coin_shares.set(sender, share);
        }
        let cnt = st.coin_shares.count();
        if cnt == self.params.low() {
            // reconstruct the coin and draw the leader from it
            let mut points: Vec<u64> = Vec::new();
            let mut shares: Vec<Vec<u8>> = Vec::new();
            let mut p: usize = 0;
            while p < self.params.n
                invariant
                    p <= self.params.n,
                    self.params.valid(),
                    st.wf(self.params),
                    points@.len() == shares@.len(),
                    points@ =~= members_below(st.coin_shares.occupancy(), p as int)
                        .map_values(|d: usize| d as u64),
                    shares@.map_values(|v: Vec<u8>| v@) =~=
                        members_below(st.coin_shares.occupancy(), p as int)
                            .map_values(|d: usize| st.coin_shares.spec_get(d as int)@),
                    forall|a: int, b: int| 0 <= a < b < points@.len() ==>
                        points@[a] != points@[b],
                    forall|a: int| 0 <= a < points@.len() ==>
                        (#[trigger] points@[a] as int) < p,
                    forall|a: int| 0 <= a < shares@.len() ==> is_fe(#[trigger] shares@[a]@),
                decreases self.params.n - p,
            {
                let ghost occ = st.coin_shares.occupancy();
                let ghost plen = points@.len() as int;
                match st.coin_shares.get(p) {
                    Some(s) => {
                        points.push(p as u64);
                        shares.push(crate::vaba::copy_bytes(s));
                        proof {
                            assert(points@[plen] == p as u64);
                            assert(shares@[plen]@ == st.coin_shares.spec_get(p as int)@);
                            assert(members_below(occ, p + 1) =~=
                                members_below(occ, p as int).push(p));
                            assert(points@ =~= members_below(occ, p + 1)
                                .map_values(|d: usize| d as u64));
                            assert(shares@.map_values(|v: Vec<u8>| v@) =~=
                                members_below(occ, p as int).map_values(|d: usize|
                                    st.coin_shares.spec_get(d as int)@)
                                .push(st.coin_shares.spec_get(p as int)@));
                            assert(shares@.map_values(|v: Vec<u8>| v@) =~=
                                members_below(occ, p + 1).map_values(|d: usize|
                                    st.coin_shares.spec_get(d as int)@));
                        }
                    },
                    None => {
                        proof {
                            assert(members_below(occ, p + 1) =~=
                                members_below(occ, p as int));
                        }
                    },
                }
                p = p + 1;
            }
            proof {
                assert(points@ =~= st.coin_points());
                assert(shares@.map_values(|v: Vec<u8>| v@) =~= st.coin_vals());
            }
            if points.len() > 0 {
                let coin = interpolate_at_zero(&points, &shares);
                let leader = draw_leader(&coin, self.params.n);
                proof {
                    assert(coin@ == lagrange_at(st.coin_points(), st.coin_vals(), 0));
                    assert(leader as int == st.drawn_leader(self.params.n as int));
                }
                st.leader = Some(leader);
                // five coin shares feed the binary agreement of this round
                let mut ba_coins: Vec<Vec<u8>> = Vec::new();
                let mut taken: usize = 0;
                let ghost pre_loop = *self;
                while taken < 5
                    invariant
                        taken <= 5,
                        self.wf(),
                        self.params == pre_loop.params,
                        self.myid == pre_loop.myid,
                        self.output == pre_loop.output,
                        self.inp_value == pre_loop.inp_value,
                        self.rounds == pre_loop.rounds,
                        forall|i: int| 0 <= i < ba_coins@.len() ==>
                            is_fe(#[trigger] ba_coins@[i]@),
                    decreases 5 - taken,
                {
                    if self.coin_used < self.coin_queue.len() {
                        ba_coins.push(crate::vaba::copy_bytes(&self.coin_queue[self.coin_used]));
                        self.coin_used = self.coin_used + 1;
                    }
                    taken = taken + 1;
                }
                let tag = round_tag(instance, round);
                let decision: u64 = if st.l2.validated.contains(leader) { 2 } else { 0 };
                r.push(MvbaAction::RaStart { decision, tag });
                r.push(MvbaAction::BaStart { tag, decision, coins: ba_coins });
            }
        }
        let ghost st_stored = st;
        self.rounds.set(round, st);
        proof {
            assert(self.round_view(round) == st_stored);
        }
        let mut sub = self.verify_round_termination(instance, round);
        r.append(&mut sub);
        proof {
            assert(self.round_view(round) == st_stored);
        }
        r
    }

    /// The binary agreement (or its reliable-agreement companion) of a
    /// round terminated with a verdict.
    pub fn process_ba_termination(&mut self, tag: u64, verdict: u64) -> (r: Vec<MvbaAction>)
        requires
            old(self).wf(),
        ensures
            final(self).wf(),
            output_latched(old(self), final(self), r@),
            tag / 100 < 0x1000_0000 ==> {
                &&& final(self).has_round(tag % 100)
                &&& (old(self).has_round(tag % 100)
                        && old(self).round_view(tag % 100).ba_output is Some ==>
                    final(self).round_view(tag % 100).ba_output
                        == old(self).round_view(tag % 100).ba_output)
                &&& (!(old(self).has_round(tag % 100)
                        && old(self).round_view(tag % 100).ba_output is Some) ==>
                    final(self).round_view(tag % 100).ba_output == Some(verdict))
            },
    {
        let (instance, round) = untag_round(tag);
        if !(instance < 0x1000_0000 && round < 100) {
            return Vec::new();
        }
        let mut st = self.round_take(round);
        if st.ba_output.is_none() {
            st.ba_output = Some(verdict);
        }
        let ghost st_stored = st;
        self.rounds.set(round, st);
        proof {
            assert(self.round_view(round) == st_stored);
        }
        let sub = self.verify_round_termination(instance, round);
        proof {
            assert(self.round_view(round) == st_stored);
        }
        sub
    }

    /// Ends a round once both the leader and the verdict are known: an
    /// accepting verdict emits the leader's level-one values — exactly
    /// once — and a rejecting one starts the next round with no new input.
    pub fn verify_round_termination(&mut self, instance: u64, round: u64) -> (r: Vec<MvbaAction>)
        requires
            old(self).wf(),
            instance < 0x1000_0000,
            round < 100,
        ensures
            final(self).wf(),
            output_latched(old(self), final(self), r@),
            final(self).rounds == old(self).rounds,
            final(self).params == old(self).params,
            final(self).inp_value == old(self).inp_value,
            final(self).coin_queue == old(self).coin_queue,
            final(self).coin_used == old(self).coin_used,
            forall|j: int| 0 <= j < r@.len() ==>
                ((#[trigger] r@[j]) is Output || (r@[j]) is RbcSend),
            old(self).output is None && final(self).output is Some ==> {
                &&& r@.len() == 1
                &&& (r@[0] matches MvbaAction::Output { instance: i2, values }
                    && i2 == instance
                    && values@ == final(self).output->Some_0@)
            },
            old(self).output is None && old(self).has_round(round)
                && old(self).round_view(round).ba_output == Some(2u64)
                && old(self).round_view(round).leader is Some
                && old(self).round_view(round).l2.received.spec_has(
                    old(self).round_view(round).leader->Some_0 as int)
                && (forall|j: int| 0 <= j < old(self).round_view(round).l2.received
                        .spec_get(old(self).round_view(round).leader->Some_0 as int)@.len() ==>
                    old(self).round_view(round).l1_vals.spec_has(
                        #[trigger] old(self).round_view(round).l2.received
                            .spec_get(old(self).round_view(round).leader->Some_0 as int)@[j]
                            as int)) ==> {
                &&& final(self).output is Some
                &&& final(self).output->Some_0@ == old(self).round_view(round).l2.received
                    .spec_get(old(self).round_view(round).leader->Some_0 as int)@
                    .map_values(|p: usize|
                        old(self).round_view(round).l1_vals.spec_get(p as int))
            },
            old(self).output is None && old(self).has_round(round)
                && old(self).round_view(round).ba_output is Some
                && old(self).round_view(round).ba_output != Some(2u64)
                && old(self).round_view(round).leader is Some
                && old(self).inp_value is Some
                && round + 1 < 100 ==> {
                &&& r@.len() == 1
                &&& (r@[0] matches MvbaAction::RbcSend { payload } && payload@ ==
                    mvba_payload(instance, (round + 1) as u64, 1,
                        seq![old(self).inp_value->Some_0]))
            },
    {
        let mut r: Vec<MvbaAction> = Vec::new();
        let st = match self.rounds.get(round) {
            Some(st) => st,
            None => {
                return r;
            },
        };
        let ba_out: u64;
        let leader: usize;
        match (&st.ba_output, &st.leader) {
            (Some(b), Some(l)) => {
                ba_out = *b;
                leader = *l;
            },
            _ => {
                return r;
            },
        }
        if self.output.is_some() {
            return r;
        }
        if ba_out == 2 {
            // collect the leader's level-one values, in its list's order
            let ghost ov = old(self).round_view(round);
            let l2_vec: Vec<usize>;
            match st.l2.received.get(leader) {
                Some(v) => {
                    l2_vec = crate::acs::copy_usizes(v);
                },
                None => {
                    return r;
                },
            }
            let mut values: Vec<u64> = Vec::new();
            let mut i: usize = 0;
            while i < l2_vec.len()
                invariant
                    i <= l2_vec@.len(),
                    self.wf(),
                    *self == *old(self),
                    r@.len() == 0,
                    old(self).has_round(round),
                    ov == old(self).round_view(round),
                    ov.leader == Some(leader),
                    ov.ba_output == Some(2u64),
                    old(self).output is None,
                    (leader as int) < self.params.n,
                    ov.l2.received.spec_has(leader as int),
                    l2_vec@ == ov.l2.received.spec_get(leader as int)@,
                    forall|j: int| 0 <= j < l2_vec@.len() ==>
                        (#[trigger] l2_vec@[j] as int) < self.params.n,
                    values@.len() == i,
                    values@ =~= l2_vec@.take(i as int).map_values(|p: usize|
                        ov.l1_vals.spec_get(p as int)),
                    forall|j: int| 0 <= j < i ==>
                        ov.l1_vals.spec_has(#[trigger] l2_vec@[j] as int),
                decreases l2_vec@.len() - i,
            {
                let p = l2_vec[i];
                match self.round_l1_val(round, p) {
                    Some(v) => {
                        values.push(v);
                        proof {
                            assert(l2_vec@.take(i + 1) =~=
                                l2_vec@.take(i as int).push(l2_vec@[i as int]));
                            assert(values@ =~= l2_vec@.take(i + 1).map_values(|q: usize|
                                ov.l1_vals.spec_get(q as int)));
                        }
                    },
                    None => {
                        // a named level one is still outstanding: wait
                        proof {
                            assert(!ov.l1_vals.spec_has(l2_vec@[i as int] as int));
                        }
                        return r;
                    },
                }
                i = i + 1;
            }
            proof {
                assert(l2_vec@.take(l2_vec@.len() as int) =~= l2_vec@);
            }
            self.output = Some(copy_u64s(&values));
            r.push(MvbaAction::Output { instance, values });
        } else {
            // rejected: the next round runs with no new input
            if round + 1 < 100 {
                let mut sub = self.start_round(instance, round + 1, None);
                proof {
                    if old(self).inp_value is Some {
                        assert(self.inp_value == old(self).inp_value);
                        assert(sub@.len() == 1);
                    }
                }
                r.append(&mut sub);
                proof {
                    if old(self).inp_value is Some {
                        assert(r@.len() == 1);
                    }
                }
            }
        }
        r
    }

    /// The level-one value of `p` in `round`, when terminated.
    fn round_l1_val(&self, round: u64, p: usize) -> (r: Option<u64>)
        requires
            self.wf(),
            (p as int) < self.params.n,
        ensures
            r is Some <==> self.has_round(round)
                && self.round_view(round).l1_vals.spec_has(p as int),
            r is Some ==> r->Some_0 == self.round_view(round).l1_vals.spec_get(p as int),
    {
        match self.rounds.get(round) {
            Some(st) => {
                match st.l1_vals.get(p) {
                    Some(v) => Some(*v),
                    None => None,
                }
            },
            None => None,
        }
    }
}

/// After a level-two status change: a quorum of approved level-two lists
/// sends the own level-three witness, once.
fn finish_l2_checks(
    params: &Params,
    st: &mut MvbaRoundState,
    myid: usize,
    instance: u64,
    round: u64,
) -> (r: Vec<MvbaAction>)
    requires
        params.valid(),
        old(st).wf(*params),
        (myid as int) < params.n,
    ensures
        final(st).wf(*params),
        final(st).leader == old(st).leader,
        final(st).ba_output == old(st).ba_output,
        *final(st) == (MvbaRoundState { l3_witness_sent: final(st).l3_witness_sent, ..*old(st) }),
        forall|j: int| 0 <= j < r@.len() ==> (#[trigger] r@[j]) is L3Witness,
        final(st).l3_witness_sent <==> old(st).l3_witness_sent
            || old(st).l2.validated.spec_count() >= params.spec_quorum(),
        !old(st).l3_witness_sent && final(st).l3_witness_sent ==> {
            &&& r@.len() == 1
            &&& (r@[0] matches MvbaAction::L3Witness { instance: i2, round: rd, witnesses }
                && i2 == instance && rd == round
                && witnesses@ == members_below(old(st).l2.validated.mem@, params.n as int))
        },
        old(st).l3_witness_sent || !final(st).l3_witness_sent ==> r@.len() == 0,
{
    let mut r: Vec<MvbaAction> = Vec::new();
    let cnt = st.l2.validated.count();
    if cnt >= params.quorum() && !st.l3_witness_sent {
        st.l3_witness_sent = true;
        let witnesses = st.l2.validated.to_vec();
        r.push(MvbaAction::L3Witness { instance, round, witnesses });
    }
    r
}

/// After a level-three status change: a quorum of approved witnesses
/// releases the own leader-coin share, once, consuming one preloaded share.
fn finish_l3_checks(
    params: &Params,
    st: &mut MvbaRoundState,
    myid: usize,
    instance: u64,
    round: u64,
    coin_queue: &mut Vec<Vec<u8>>,
    coin_used: &mut usize,
) -> (r: Vec<MvbaAction>)
    requires
        params.valid(),
        old(st).wf(*params),
        (myid as int) < params.n,
        *old(coin_used) <= old(coin_queue)@.len(),
        forall|i: int| 0 <= i < old(coin_queue)@.len() ==>
            is_fe(#[trigger] old(coin_queue)@[i]@),
    ensures
        final(st).wf(*params),
        final(st).leader == old(st).leader,
        final(st).ba_output == old(st).ba_output,
        *final(st) == (MvbaRoundState { coin_broadcasted: final(st).coin_broadcasted, ..*old(st) }),
        *final(coin_queue) == *old(coin_queue),
        *final(coin_used) <= final(coin_queue)@.len(),
        forall|j: int| 0 <= j < r@.len() ==> (#[trigger] r@[j]) is LeaderCoin,
        final(st).coin_broadcasted <==> old(st).coin_broadcasted
            || (old(st).l3.validated.spec_count() >= params.spec_quorum()
                && *old(coin_used) < old(coin_queue)@.len()),
        !old(st).coin_broadcasted && final(st).coin_broadcasted ==> {
            &&& r@.len() == 1
            &&& (r@[0] matches MvbaAction::LeaderCoin { instance: i2, round: rd, share }
                && i2 == instance && rd == round
                && share@ == old(coin_queue)@[*old(coin_used) as int]@)
            &&& *final(coin_used) == *old(coin_used) + 1
        },
        old(st).coin_broadcasted || !final(st).coin_broadcasted ==>
            r@.len() == 0 && *final(coin_used) == *old(coin_used),
{
    let mut r: Vec<MvbaAction> = Vec::new();
    let cnt = st.l3.validated.count();
    if cnt >= params.quorum() && !st.coin_broadcasted {
        if *coin_used < coin_queue.len() {
            st.coin_broadcasted = true;
            let share = crate::vaba::copy_bytes(&coin_queue[*coin_used]);
            *coin_used = *coin_used + 1;
            r.push(MvbaAction::LeaderCoin { instance, round, share });
        }
    }
    r
}

/// Output discipline of the gadget: an output never changes once set, it
/// can only go from unset to set, and no second output action is emitted.
pub open spec fn output_latched(pre: &MvbaState, post: &MvbaState, r: Seq<MvbaAction>) -> bool {
    &&& (pre.output is Some ==> post.output == pre.output)
    &&& (pre.output is Some ==> forall|j: int| 0 <= j < r.len() ==> !((#[trigger] r[j]) is Output))
    &&& (post.output != pre.output ==> pre.output is None && post.output is Some)
}

/// The level payload of the gadget's broadcasts: instance, round, level,
/// and the value list, each fixed-width little-endian.
pub open spec fn mvba_payload(instance: u64, round: u64, level: u64, vals: Seq<u64>) -> Seq<u8> {
    le8(instance) + le8(round) + le8(level) + enc_u64_list(vals)
}

/// Encodes a gadget payload.
pub fn encode_mvba_payload(instance: u64, round: u64, level: u64, vals: &Vec<u64>) -> (r: Vec<u8>)
    requires
        vals@.len() < 0x1_0000_0000,
    ensures
        r@ =~= mvba_payload(instance, round, level, vals@),
{
    let mut out: Vec<u8> = Vec::new();
    push_le8(&mut out, instance);
    push_le8(&mut out, round);
    push_le8(&mut out, level);
    push_u64_list(&mut out, vals);
    out
}

/// Decodes a gadget payload; `None` when malformed. Decoding an encoded
/// payload restores it.
pub fn decode_mvba_payload(b: &Vec<u8>) -> (r: Option<(u64, u64, u64, Vec<u64>)>)
    ensures
        r is Some ==> mvba_payload(r->Some_0.0, r->Some_0.1, r->Some_0.2, r->Some_0.3@) =~= b@,
{
    if b.len() < 24 {
        return None;
    }
    let instance = read_le8(b, 0);
    let round = read_le8(b, 8);
    let level = read_le8(b, 16);
    let vals = match read_u64_list_exact(b, 24) {
        Some(v) => v,
        None => {
            return None;
        },
    };
    proof {
        crate::codec::lemma_le_bytes_of_de(b@.subrange(0, 8));
        crate::codec::lemma_le_bytes_of_de(b@.subrange(8, 16));
        crate::codec::lemma_le_bytes_of_de(b@.subrange(16, 24));
        assert(mvba_payload(instance, round, level, vals@) =~= b@);
    }
    Some((instance, round, level, vals))
}

/// Copies a value list.
fn copy_u64s(v: &Vec<u64>) -> (r: Vec<u64>)
    ensures
        r@ =~= v@,
{
    let mut r: Vec<u64> = Vec::new();
    let mut i: usize = 0;
    while i < v.len()
        invariant
            i <= v@.len(),
            r@ =~= v@.take(i as int),
        decreases v@.len() - i,
    {
        r.push(v[i]);
        proof {
            assert(v@.take(i + 1) =~= v@.take(i as int).push(v@[i as int]));
        }
        i = i + 1;
    }
    proof {
        assert(v@.take(v@.len() as int) =~= v@);
    }
    r
}

} // verus!
