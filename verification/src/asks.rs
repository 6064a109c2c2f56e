//! Asynchronous key sharing: the rank oracle's verifiable secret sharing.
//!
//! The dealer shares a secret with a degree-`t` polynomial and commits to
//! every share with a hashed nonce under a single tree root; the root goes
//! through an embedded echo/ready broadcast so that all parties settle on
//! one commitment. Reconstruction interpolates any `t + 1` shares whose
//! claimed root matches the settled one, then re-derives all shares and
//! recommits: a root mismatch is dealer equivocation and the reconstructed
//! secret is replaced by zero.
//!
//! Hashing and the tree live in the surrounding crypto layer: the state
//! machine hands out what must be hashed and compares the returned roots.
//! Each instance carries one secret — the rank oracle only ever deals one
//! per dealer — and reconstruction can go to everyone or to one party.

use vstd::prelude::*;
use crate::Params;
use crate::bmap::{BMap, bytes_eq, has_bkey, bval_of};
use crate::field::{poly_eval, poly_eval_at, interpolate_eval, lagrange_at, fe_zero, fe_zero_spec, is_fe};
use crate::party::{members_below, PartyMap, PartySet};

verus! {

/// What a key-sharing handler asks the surrounding loop to do.
pub enum AsksAction {
    /// Broadcast an echo for this commitment root.
    EchoRoot { instance: u64, root: Vec<u8> },
    /// Broadcast a ready for this commitment root.
    ReadyRoot { instance: u64, root: Vec<u8> },
    /// The sharing phase terminated locally: tell the requester.
    ShareTerminated { instance: u64 },
    /// Send the own share and nonce, to everyone or to one party.
    SendShares { instance: u64, target: Option<usize>, share: Vec<u8>, nonce: Vec<u8> },
    /// Hash each `(share, nonce)` pair and return the tree root over the
    /// commitments, so equivocation can be detected.
    RecomputeRoot { instance: u64, shares: Vec<Vec<u8>>, nonces: Vec<Vec<u8>> },
    /// Reconstruction finished with this secret (zero on detected malice).
    Reconstructed { instance: u64, secret: Vec<u8> },
}

/// One sharing instance.
pub struct AsksState {
    /// The dealer.
    pub origin: usize,
    /// Whether reconstruction goes to everyone.
    pub reconstruct_to_all: bool,
    /// The own share and nonce, once the dealer's package arrived.
    pub my_share: Option<(Vec<u8>, Vec<u8>)>,
    /// Echo senders per root.
    pub echos: BMap<PartySet>,
    /// Ready senders per root.
    pub readys: BMap<PartySet>,
    /// The root whose echoes reached the quorum; the ready went out for it.
    pub echo_root: Option<Vec<u8>>,
    /// The settled commitment root.
    pub root: Option<Vec<u8>>,
    /// Sharing phase terminated.
    pub terminated: bool,
    /// Reconstruction shares per sender.
    pub recon_shares: PartyMap<(Vec<u8>, Vec<u8>)>,
    /// The interpolated secret, pending the commitment re-check.
    pub pending_secret: Option<Vec<u8>>,
    /// Reconstruction finished; nothing further is emitted.
    pub recon_done: bool,
}

impl AsksState {
    pub open spec fn wf(&self, params: Params) -> bool {
        &&& self.echos.wf()
        &&& self.readys.wf()
        &&& forall|k: Seq<u8>| #[trigger] has_bkey(self.echos.entries@, k) ==>
                bval_of(self.echos.entries@, k).spec_n() == params.n
        &&& forall|k: Seq<u8>| #[trigger] has_bkey(self.readys.entries@, k) ==>
                bval_of(self.readys.entries@, k).spec_n() == params.n
        &&& self.recon_shares.spec_n() == params.n
        &&& forall|p: int| #[trigger] self.recon_shares.spec_has(p) ==> {
            &&& is_fe(self.recon_shares.spec_get(p).0@)
            &&& is_fe(self.recon_shares.spec_get(p).1@)
        }
        &&& (self.pending_secret is Some ==> is_fe(self.pending_secret->Some_0@))
    }

    pub fn new(params: &Params, origin: usize, reconstruct_to_all: bool) -> (r: AsksState)
        requires
            params.valid(),
        ensures
            r.wf(*params),
            r.origin == origin,
            r.reconstruct_to_all == reconstruct_to_all,
            !r.terminated,
            !r.recon_done,
            r.my_share is None,
            r.root is None,
            r.pending_secret is None,
    {
        AsksState {
            origin,
            reconstruct_to_all,
            my_share: None,
            echos: BMap::new(),
            readys: BMap::new(),
            echo_root: None,
            root: None,
            terminated: false,
            recon_shares: PartyMap::empty(params.n),
            pending_secret: None,
            recon_done: false,
        }
    }

    /// The dealer's package arrived and its commitment proof checked out in
    /// the crypto layer: keep the share and echo the root. The first
    /// package is kept.
    pub fn on_init(&mut self, params: &Params, instance: u64, share: Vec<u8>, nonce: Vec<u8>, root: Vec<u8>)
        -> (r: Vec<AsksAction>)
        requires
            params.valid(),
            old(self).wf(*params),
            is_fe(share@),
            is_fe(nonce@),
        ensures
            final(self).wf(*params),
            old(self).my_share is Some ==> *final(self) == *old(self) && r@.len() == 0,
            !(old(self).my_share is Some) ==> {
                &&& final(self).my_share == Some((share, nonce))
                &&& r@.len() == 1
                &&& (r@[0] matches AsksAction::EchoRoot { instance: i2, root: rt }
                    && i2 == instance && rt@ == root@)
            },
    {
        let mut r: Vec<AsksAction> = Vec::new();
        if self.my_share.is_some() {
            return r;
        }
        self.my_share = Some((share, nonce));
        r.push(AsksAction::EchoRoot { instance, root });
        r
    }

    /// Tallies an echo for `root`: the quorum settles the root and sends
    /// the ready; echoes from all parties terminate early. Duplicates
    /// change nothing.
    pub fn on_echo(&mut self, params: &Params, instance: u64, sender: usize, root: Vec<u8>)
        -> (r: Vec<AsksAction>)
        requires
            params.valid(),
            old(self).wf(*params),
            (sender as int) < params.n,
        ensures
            final(self).wf(*params),
            old(self).terminated ==> *final(self) == *old(self) && r@.len() == 0,
            !old(self).terminated && old(self).echoed(root@, sender as int) ==>
                *final(self) == *old(self) && r@.len() == 0,
            !old(self).terminated && !old(self).echoed(root@, sender as int) ==> {
                &&& final(self).echoed(root@, sender as int)
                &&& final(self).echo_count(root@) == old(self).echo_count(root@) + 1
                &&& (final(self).echo_count(root@) == params.spec_quorum() ==> {
                    &&& final(self).echo_root is Some && final(self).echo_root->Some_0@ == root@
                    &&& final(self).root is Some && final(self).root->Some_0@ == root@
                    &&& r@.len() == 1
                    &&& (r@[0] matches AsksAction::ReadyRoot { instance: i2, root: rt }
                        && i2 == instance && rt@ == root@)
                })
                &&& (final(self).echo_count(root@) == params.n
                        && params.spec_quorum() != params.n ==> {
                    &&& (old(self).echo_root is Some ==>
                        final(self).terminated
                        && r@ =~= seq![AsksAction::ShareTerminated { instance }])
                })
            },
    {
        let mut r: Vec<AsksAction> = Vec::new();
        if self.terminated {
            return r;
        }
        match self.echos.get(&root) {
            Some(s) => {
                if s.contains(sender) {
                    return r;
                }
            },
            None => {},
        }
        let mut set = match self.echos.take(&root) {
            Some(s) => s,
            None => PartySet::empty(params.n),
        };
        set.insert(sender);
        let cnt = set.count();
        self.echos.set(crate::vaba::copy_bytes(&root), set);
        if cnt == params.quorum() {
            self.echo_root = Some(crate::vaba::copy_bytes(&root));
            self.root = Some(crate::vaba::copy_bytes(&root));
            r.push(AsksAction::ReadyRoot { instance, root });
        } else if cnt == params.n {
            if self.echo_root.is_some() {
                self.terminated = true;
                r.push(AsksAction::ShareTerminated { instance });
            }
        }
        r
    }

    /// Whether `sender` echoed `root`.
    pub open spec fn echoed(&self, root: Seq<u8>, sender: int) -> bool {
        has_bkey(self.echos.entries@, root)
            && bval_of(self.echos.entries@, root).spec_contains(sender)
    }

    pub open spec fn echo_count(&self, root: Seq<u8>) -> nat {
        if has_bkey(self.echos.entries@, root) {
            bval_of(self.echos.entries@, root).spec_count()
        } else {
            0
        }
    }

    /// Whether `sender` sent a ready for `root`.
    pub open spec fn readied(&self, root: Seq<u8>, sender: int) -> bool {
        has_bkey(self.readys.entries@, root)
            && bval_of(self.readys.entries@, root).spec_contains(sender)
    }

    pub open spec fn ready_count(&self, root: Seq<u8>) -> nat {
        if has_bkey(self.readys.entries@, root) {
            bval_of(self.readys.entries@, root).spec_count()
        } else {
            0
        }
    }

    /// Tallies a ready for `root`: `t + 1` matching readies amplify unless
    /// the own ready already went out for this root; a quorum terminates
    /// the sharing phase. Duplicates change nothing.
    pub fn on_ready(&mut self, params: &Params, instance: u64, sender: usize, root: Vec<u8>)
        -> (r: Vec<AsksAction>)
        requires
            params.valid(),
            old(self).wf(*params),
            (sender as int) < params.n,
        ensures
            final(self).wf(*params),
            old(self).terminated ==> *final(self) == *old(self) && r@.len() == 0,
            !old(self).terminated && old(self).readied(root@, sender as int) ==>
                *final(self) == *old(self) && r@.len() == 0,
            !old(self).terminated && !old(self).readied(root@, sender as int) ==> {
                &&& final(self).readied(root@, sender as int)
                &&& final(self).ready_count(root@) == old(self).ready_count(root@) + 1
                &&& (final(self).ready_count(root@) >= params.spec_quorum() ==> {
                    &&& final(self).terminated
                    &&& final(self).root is Some && final(self).root->Some_0@ == root@
                    &&& r@ =~= seq![AsksAction::ShareTerminated { instance }]
                })
                &&& (final(self).ready_count(root@) == params.spec_low()
                        && final(self).ready_count(root@) < params.spec_quorum() ==> {
                    &&& !final(self).terminated
                    &&& (old(self).echo_root is Some && old(self).echo_root->Some_0@ == root@
                        ==> r@.len() == 0)
                    &&& (!(old(self).echo_root is Some && old(self).echo_root->Some_0@ == root@)
                        ==> r@.len() == 1
                            && (r@[0] matches AsksAction::ReadyRoot { instance: i2, root: rt }
                                && i2 == instance && rt@ == root@))
                })
                &&& (final(self).ready_count(root@) != params.spec_low()
                        && final(self).ready_count(root@) < params.spec_quorum() ==> {
                    &&& !final(self).terminated
                    &&& r@.len() == 0
                })
            },
    {
        let mut r: Vec<AsksAction> = Vec::new();
        if self.terminated {
            return r;
        }
        match self.readys.get(&root) {
            Some(s) => {
                if s.contains(sender) {
                    return r;
                }
            },
            None => {},
        }
        let mut set = match self.readys.take(&root) {
            Some(s) => s,
            None => PartySet::empty(params.n),
        };
        set.insert(sender);
        let cnt = set.count();
        self.readys.set(crate::vaba::copy_bytes(&root), set);
        if cnt >= params.quorum() {
            self.terminated = true;
            self.root = Some(root);
            r.push(AsksAction::ShareTerminated { instance });
        } else if cnt == params.low() {
            let send_ready = match &self.echo_root {
                Some(er) => !bytes_eq(er, &root),
                None => true,
            };
            if send_ready {
                r.push(AsksAction::ReadyRoot { instance, root });
            }
        }
        r
    }

    /// A reconstruction request: publish the own share, to everyone or to
    /// the requesting party. Without the dealer's package nothing is sent.
    pub fn reconstruct_request(&self, params: &Params, instance: u64, target: Option<usize>)
        -> (r: Vec<AsksAction>)
        requires
            params.valid(),
            self.wf(*params),
        ensures
            self.my_share is None ==> r@.len() == 0,
            self.my_share is Some ==> {
                &&& r@.len() == 1
                &&& (r@[0] matches AsksAction::SendShares { instance: i2, target: t2, share, nonce }
                    && i2 == instance && t2 == target
                    && share@ == self.my_share->Some_0.0@
                    && nonce@ == self.my_share->Some_0.1@)
            },
    {
        let mut r: Vec<AsksAction> = Vec::new();
        match &self.my_share {
            Some(pair) => {
                r.push(AsksAction::SendShares {
                    instance,
                    target,
                    share: crate::vaba::copy_bytes(&pair.0),
                    nonce: crate::vaba::copy_bytes(&pair.1),
                });
            },
            None => {},
        }
        r
    }

    /// The evaluation points of the collected reconstruction shares, in
    /// sender order: party `p` holds the share at point `p + 1`.
    pub open spec fn recon_points(&self) -> Seq<u64> {
        self.recon_shares.holders().map_values(|d: usize| (d + 1) as u64)
    }

    /// The collected share encodings, in sender order.
    pub open spec fn recon_share_vals(&self) -> Seq<Seq<u8>> {
        self.recon_shares.holders().map_values(|d: usize|
            self.recon_shares.spec_get(d as int).0@)
    }

    /// The collected nonce encodings, in sender order.
    pub open spec fn recon_nonce_vals(&self) -> Seq<Seq<u8>> {
        self.recon_shares.holders().map_values(|d: usize|
            self.recon_shares.spec_get(d as int).1@)
    }

    /// A peer's reconstruction share: dropped unless the sharing settled on
    /// a root here, the claimed root matches it, and the encodings are
    /// canonical. At `t + 1` shares the secret interpolates and all `n`
    /// shares are re-derived for the commitment re-check.
    pub fn on_reconstruct_share(
        &mut self,
        params: &Params,
        instance: u64,
        sender: usize,
        share: Vec<u8>,
        nonce: Vec<u8>,
        claimed_root: Vec<u8>,
    ) -> (r: Vec<AsksAction>)
        requires
            params.valid(),
            old(self).wf(*params),
            (sender as int) < params.n,
        ensures
            final(self).wf(*params),
            old(self).root is None ==> *final(self) == *old(self) && r@.len() == 0,
            old(self).root is Some && old(self).root->Some_0@ != claimed_root@ ==>
                *final(self) == *old(self) && r@.len() == 0,
            share@.len() != 32 || nonce@.len() != 32 ==>
                *final(self) == *old(self) && r@.len() == 0,
            old(self).recon_shares.spec_has(sender as int) ==>
                *final(self) == *old(self) && r@.len() == 0,
            final(self).recon_done == old(self).recon_done,
            forall|j: int| 0 <= j < r@.len() ==> (#[trigger] r@[j]) is RecomputeRoot,
            old(self).root is Some && old(self).root->Some_0@ == claimed_root@
                && share@.len() == 32 && nonce@.len() == 32
                && !old(self).recon_shares.spec_has(sender as int) ==> {
                &&& final(self).recon_shares.spec_has(sender as int)
                &&& final(self).recon_shares.spec_get(sender as int).0@ == share@
                &&& final(self).recon_shares.spec_get(sender as int).1@ == nonce@
                &&& final(self).recon_shares.spec_count()
                    == old(self).recon_shares.spec_count() + 1
                &&& (final(self).recon_shares.spec_count() == params.spec_low()
                        && old(self).pending_secret is None ==> {
                    &&& final(self).pending_secret is Some
                    &&& final(self).pending_secret->Some_0@ == lagrange_at(
                        final(self).recon_points(), final(self).recon_share_vals(), 0)
                    &&& r@.len() == 1
                    &&& (r@[0] matches AsksAction::RecomputeRoot {
                            instance: i2, shares: rs, nonces: rn }
                        && i2 == instance
                        && rs@.len() == params.n && rn@.len() == params.n
                        && (forall|i: int| 0 <= i < params.n ==>
                            (#[trigger] rs@[i]@) == lagrange_at(final(self).recon_points(),
                                final(self).recon_share_vals(), (i + 1) as u64))
                        && (forall|i: int| 0 <= i < params.n ==>
                            (#[trigger] rn@[i]@) == lagrange_at(final(self).recon_points(),
                                final(self).recon_nonce_vals(), (i + 1) as u64)))
                })
                &&& (!(final(self).recon_shares.spec_count() == params.spec_low()
                        && old(self).pending_secret is None) ==> {
                    &&& r@.len() == 0
                    &&& final(self).pending_secret == old(self).pending_secret
                })
            },
    {
        let mut r: Vec<AsksAction> = Vec::new();
        let root_ok = match &self.root {
            Some(rt) => bytes_eq(rt, &claimed_root),
            None => false,
        };
        if !root_ok {
            return r;
        }
        if share.len() != 32 || nonce.len() != 32 {
            return r;
        }
        if self.recon_shares.has(sender) {
            return r;
        }
        self.recon_shares.set(sender, (share, nonce));
        let cnt = self.recon_shares.count();
        if cnt == params.low() && self.pending_secret.is_none() {
            // interpolate the share and nonce polynomials
            let mut points: Vec<u64> = Vec::new();
            let mut shares: Vec<Vec<u8>> = Vec::new();
            let mut nonces: Vec<Vec<u8>> = Vec::new();
            let mut p: usize = 0;
            while p < params.n
                invariant
                    p <= params.n,
                    params.valid(),
                    self.wf(*params),
                    points@.len() == shares@.len(),
                    points@.len() == nonces@.len(),
                    points@ =~= members_below(self.recon_shares.occupancy(), p as int)
                        .map_values(|d: usize| (d + 1) as u64),
                    shares@.map_values(|v: Vec<u8>| v@) =~=
                        members_below(self.recon_shares.occupancy(), p as int)
                            .map_values(|d: usize| self.recon_shares.spec_get(d as int).0@),
                    nonces@.map_values(|v: Vec<u8>| v@) =~=
                        members_below(self.recon_shares.occupancy(), p as int)
                            .map_values(|d: usize| self.recon_shares.spec_get(d as int).1@),
                    forall|a: int, b: int| 0 <= a < b < points@.len() ==>
                        points@[a] != points@[b],
                    forall|a: int| 0 <= a < points@.len() ==>
                        1 <= #[trigger] points@[a] <= p,
                    forall|a: int| 0 <= a < shares@.len() ==> is_fe(#[trigger] shares@[a]@),
                    forall|a: int| 0 <= a < nonces@.len() ==> is_fe(#[trigger] nonces@[a]@),
                decreases params.n - p,
            {
                let ghost occ = self.recon_shares.occupancy();
                match self.recon_shares.get(p) {
                    Some(pair) => {
                        let ghost plen = points@.len() as int;
                        points.push((p + 1) as u64);
                        shares.push(crate::vaba::copy_bytes(&pair.0));
                        nonces.push(crate::vaba::copy_bytes(&pair.1));
                        proof {
                            assert(points@[plen] == (p + 1) as u64);
                            assert(members_below(occ, p + 1) =~=
                                members_below(occ, p as int).push(p));
                            assert(points@ =~= members_below(occ, p + 1)
                                .map_values(|d: usize| (d + 1) as u64));
                            assert(shares@.drop_last() =~= shares@.take(plen));
                            assert(shares@[plen]@
                                == self.recon_shares.spec_get(p as int).0@);
                            assert(nonces@[plen]@
                                == self.recon_shares.spec_get(p as int).1@);
                            assert(shares@.map_values(|v: Vec<u8>| v@) =~=
                                members_below(occ, p as int).map_values(|d: usize|
                                    self.recon_shares.spec_get(d as int).0@)
                                .push(self.recon_shares.spec_get(p as int).0@));
                            assert(shares@.map_values(|v: Vec<u8>| v@) =~=
                                members_below(occ, p + 1).map_values(|d: usize|
                                    self.recon_shares.spec_get(d as int).0@));
                            assert(nonces@.map_values(|v: Vec<u8>| v@) =~=
                                members_below(occ, p as int).map_values(|d: usize|
                                    self.recon_shares.spec_get(d as int).1@)
                                .push(self.recon_shares.spec_get(p as int).1@));
                            assert(nonces@.map_values(|v: Vec<u8>| v@) =~=
                                members_below(occ, p + 1).map_values(|d: usize|
                                    self.recon_shares.spec_get(d as int).1@));
                        }
                    },
                    None => {
                        proof {
                            assert(members_below(occ, p + 1) =~=
                                members_below(occ, p as int));
                        }
                    },
                }
                p = p + 1;
            }
            proof {
                assert(points@ =~= self.recon_points());
                assert(shares@.map_values(|v: Vec<u8>| v@) =~= self.recon_share_vals());
                assert(nonces@.map_values(|v: Vec<u8>| v@) =~= self.recon_nonce_vals());
                crate::party::lemma_members_below_count(
                    self.recon_shares.occupancy(), params.n as int);
                assert(self.recon_shares.occupancy().take(params.n as int)
                    =~= self.recon_shares.occupancy());
            }
            if points.len() > 0 {
                let secret = interpolate_eval(&points, &shares, 0);
                self.pending_secret = Some(secret);
                // re-derive every share and nonce for the commitment check
                let mut all_shares: Vec<Vec<u8>> = Vec::new();
                let mut all_nonces: Vec<Vec<u8>> = Vec::new();
                let mut i: usize = 0;
                while i < params.n
                    invariant
                        i <= params.n,
                        params.valid(),
                        points@.len() == shares@.len(),
                        points@.len() == nonces@.len(),
                        points@.len() >= 1,
                        forall|a: int, b: int| 0 <= a < b < points@.len() ==>
                            points@[a] != points@[b],
                        forall|a: int| 0 <= a < shares@.len() ==>
                            is_fe(#[trigger] shares@[a]@),
                        forall|a: int| 0 <= a < nonces@.len() ==>
                            is_fe(#[trigger] nonces@[a]@),
                        all_shares@.len() == i,
                        all_nonces@.len() == i,
                        forall|k: int| 0 <= k < i ==> (#[trigger] all_shares@[k]@) ==
                            lagrange_at(points@, shares@.map_values(|v: Vec<u8>| v@),
                                (k + 1) as u64),
                        forall|k: int| 0 <= k < i ==> (#[trigger] all_nonces@[k]@) ==
                            lagrange_at(points@, nonces@.map_values(|v: Vec<u8>| v@),
                                (k + 1) as u64),
                    decreases params.n - i,
                {
                    all_shares.push(interpolate_eval(&points, &shares, (i + 1) as u64));
                    all_nonces.push(interpolate_eval(&points, &nonces, (i + 1) as u64));
                    i = i + 1;
                }
                r.push(AsksAction::RecomputeRoot { instance, shares: all_shares, nonces: all_nonces });
            }
        }
        r
    }

    /// The crypto layer recomputed the tree root over the re-derived
    /// commitments: a match releases the interpolated secret, a mismatch is
    /// dealer equivocation and releases zero. Emitted exactly once.
    pub fn on_recomputed_root(&mut self, params: &Params, instance: u64, recomputed: Vec<u8>)
        -> (r: Vec<AsksAction>)
        requires
            params.valid(),
            old(self).wf(*params),
        ensures
            final(self).wf(*params),
            old(self).recon_done ==> *final(self) == *old(self) && r@.len() == 0,
            old(self).pending_secret is None ==> *final(self) == *old(self) && r@.len() == 0,
            old(self).root is None ==> *final(self) == *old(self) && r@.len() == 0,
            !old(self).recon_done && old(self).pending_secret is Some && old(self).root is Some ==> {
                &&& final(self).recon_done
                &&& r@.len() == 1
                &&& (old(self).root->Some_0@ == recomputed@ ==>
                    (r@[0] matches AsksAction::Reconstructed { instance: i2, secret }
                        && i2 == instance && secret@ == old(self).pending_secret->Some_0@))
                &&& (old(self).root->Some_0@ != recomputed@ ==>
                    (r@[0] matches AsksAction::Reconstructed { instance: i2, secret }
                        && i2 == instance && secret@ == fe_zero_spec()))
            },
    {
        let mut r: Vec<AsksAction> = Vec::new();
        if self.recon_done {
            return r;
        }
        let pending = match &self.pending_secret {
            Some(s) => crate::vaba::copy_bytes(s),
            None => {
                return r;
            },
        };
        let matches_root = match &self.root {
            Some(rt) => bytes_eq(rt, &recomputed),
            None => {
                return r;
            },
        };
        self.recon_done = true;
        let secret = if matches_root {
            pending
        } else {
            fe_zero()
        };
        r.push(AsksAction::Reconstructed { instance, secret });
        r
    }
}

/// The dealer's side of a sharing: the shares of the secret polynomial at
/// the evaluation points `1 ..= n`, derived from the coefficient list
/// (constant term first: the secret itself).
pub fn make_shares(params: &Params, coeffs: &Vec<Vec<u8>>) -> (r: Vec<Vec<u8>>)
    requires
        params.valid(),
        forall|i: int| 0 <= i < coeffs@.len() ==> is_fe(#[trigger] coeffs@[i]@),
    ensures
        r@.len() == params.n,
        forall|i: int| 0 <= i < params.n ==> #[trigger] r@[i]@ ==
            poly_eval_at(coeffs@.map_values(|c: Vec<u8>| c@), (i + 1) as u64),
        forall|i: int| 0 <= i < params.n ==> is_fe(#[trigger] r@[i]@),
    {
    let mut r: Vec<Vec<u8>> = Vec::new();
    let mut i: usize = 0;
    while i < params.n
        invariant
            i <= params.n,
            params.valid(),
            forall|k: int| 0 <= k < coeffs@.len() ==> is_fe(#[trigger] coeffs@[k]@),
            r@.len() == i,
            forall|k: int| 0 <= k < i ==> #[trigger] r@[k]@ ==
                poly_eval_at(coeffs@.map_values(|c: Vec<u8>| c@), (k + 1) as u64),
            forall|k: int| 0 <= k < i ==> is_fe(#[trigger] r@[k]@),
        decreases params.n - i,
    {
        r.push(poly_eval(coeffs, (i + 1) as u64));
        i = i + 1;
    }
    r
}

} // verus!
