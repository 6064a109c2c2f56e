//! Binary Byzantine agreement, one instance per leader election round.
//!
//! Each round exchanges three echo types. A value needs `t + 1` matching
//! first echoes to be re-echoed and `n - t` to become witnessed; a
//! witnessed value is echoed at the second level, and two witnessed values
//! short-circuit to the third level with their midpoint. A quorum of
//! third-level echoes releases this round's coin share; the reconstructed
//! coin either confirms the witnessed value — terminating — or carries its
//! own bit into the next round. Values outside the protocol's domain
//! (0, 1, 2) are malformed and dropped.

use vstd::prelude::*;
use crate::Params;
use crate::field::{interpolate_at_zero, lagrange_at, is_fe};
use crate::party::{members_below, PartyMap, PartySet};
use crate::vmap::{VMap, has_key, val_of};

verus! {

/// What a round handler asks the surrounding loop to do.
pub enum BaaAction {
    /// Broadcast a first-level echo of `value`.
    Echo1 { value: u64, instance: u64, round: u64 },
    /// Broadcast a second-level echo.
    Echo2 { value: u64, instance: u64, round: u64 },
    /// Broadcast a third-level echo.
    Echo3 { value: u64, instance: u64, round: u64 },
    /// Broadcast this round's coin share.
    CoinShare { share: Vec<u8>, instance: u64, round: u64 },
    /// The instance decided `value`.
    Decide { value: u64, instance: u64 },
}

/// Tallies of one value within a round: its echo senders at the two levels
/// and the two send-once latches.
pub struct ValState {
    pub value: u64,
    pub echo1: PartySet,
    pub echo2: PartySet,
    pub echo1_sent: bool,
    pub echo2_sent: bool,
}

/// One round of one agreement instance.
pub struct RoundStateBin {
    /// The tallies of the values seen this round (at most the two the
    /// domain allows to be witnessed).
    pub state: Vec<ValState>,
    /// Values witnessed by a quorum of first-level echoes.
    pub echo1vals: Vec<u64>,
    /// Values that reached a quorum of second-level echoes.
    pub echo2vals: Vec<u64>,
    /// Third-level echo value per sender.
    pub echo3vals: PartyMap<u64>,
    /// Set once the own third-level echo went out.
    pub echo3sent: bool,
    /// The value a quorum of third-level echoes settled on.
    pub termval: Option<u64>,
    /// Coin share per sender, canonically encoded.
    pub coin_shares: PartyMap<Vec<u8>>,
}

/// The protocol's value domain: a bit, or the midpoint that stands for
/// "both bits witnessed".
pub open spec fn val_ok(v: u64) -> bool {
    v <= 2
}

/// Whether some tally carries `v`.
pub open spec fn val_has(s: Seq<ValState>, v: u64) -> bool
    decreases s.len(),
{
    if s.len() == 0 {
        false
    } else {
        s.last().value == v || val_has(s.drop_last(), v)
    }
}

/// The last tally carrying `v`.
pub open spec fn val_entry(s: Seq<ValState>, v: u64) -> ValState
    recommends
        val_has(s, v),
    decreases s.len(),
{
    if s.len() == 0 {
        arbitrary()
    } else if s.last().value == v {
        s.last()
    } else {
        val_entry(s.drop_last(), v)
    }
}

/// With distinct values, the tally at a scan hit is the tally of its value.
pub proof fn lemma_val_found(s: Seq<ValState>, i: int)
    requires
        0 <= i < s.len(),
        forall|a: int, b: int| 0 <= a < b < s.len() ==>
            (#[trigger] s[a]).value != (#[trigger] s[b]).value,
    ensures
        val_has(s, s[i].value),
        val_entry(s, s[i].value) == s[i],
    decreases s.len(),
{
    if i < s.len() - 1 {
        lemma_val_found(s.drop_last(), i);
    }
}

/// No tally carries `v` when a full scan found none.
pub proof fn lemma_val_absent(s: Seq<ValState>, v: u64)
    requires
        forall|i: int| 0 <= i < s.len() ==> (#[trigger] s[i]).value != v,
    ensures
        !val_has(s, v),
    decreases s.len(),
{
    if s.len() > 0 {
        lemma_val_absent(s.drop_last(), v);
    }
}

/// Replacing one tally with one of the same value touches no other value.
pub proof fn lemma_val_update(s: Seq<ValState>, i: int, e: ValState)
    requires
        0 <= i < s.len(),
        forall|a: int, b: int| 0 <= a < b < s.len() ==>
            (#[trigger] s[a]).value != (#[trigger] s[b]).value,
        e.value == s[i].value,
    ensures
        forall|w: u64| #[trigger] val_has(s.update(i, e), w) == val_has(s, w),
        val_entry(s.update(i, e), s[i].value) == e,
        forall|w: u64| w != s[i].value && val_has(s, w) ==>
            #[trigger] val_entry(s.update(i, e), w) == val_entry(s, w),
    decreases s.len(),
{
    if i == s.len() - 1 {
        assert(s.update(i, e).drop_last() =~= s.drop_last());
        assert forall|w: u64| #[trigger] val_has(s.update(i, e), w) == val_has(s, w) by {
            if w != e.value {
                assert(val_has(s.update(i, e), w) == val_has(s.drop_last(), w));
            }
        }
    } else {
        assert(s.drop_last()[i] == s[i]);
        assert(s[s.len() - 1].value != s[i].value);
        assert(s.update(i, e).drop_last() =~= s.drop_last().update(i, e));
        assert(s.update(i, e).last() == s.last());
        lemma_val_update(s.drop_last(), i, e);
        assert forall|w: u64| #[trigger] val_has(s.update(i, e), w) == val_has(s, w) by {
            assert(val_has(s.drop_last().update(i, e), w) == val_has(s.drop_last(), w));
            assert(val_has(s.update(i, e).drop_last(), w)
                == val_has(s.drop_last(), w));
        }
        assert(val_entry(s.update(i, e), s[i].value) == e) by {
            assert(val_entry(s.drop_last().update(i, e), s.drop_last()[i].value) == e);
            assert(s.update(i, e).last().value != s[i].value);
        }
        assert forall|w: u64| w != s[i].value && val_has(s, w) implies
            #[trigger] val_entry(s.update(i, e), w) == val_entry(s, w) by {
            if s.last().value != w {
                assert(val_has(s.drop_last(), w));
                assert(val_entry(s.drop_last().update(i, e), w) == val_entry(s.drop_last(), w));
            }
        }
    }
}

impl RoundStateBin {
    pub open spec fn wf(&self, params: Params) -> bool {
        &&& self.state@.len() <= 3
        &&& forall|i: int| 0 <= i < self.state@.len() ==> {
            &&& (#[trigger] self.state@[i]).echo1.spec_n() == params.n
            &&& self.state@[i].echo2.spec_n() == params.n
            &&& val_ok(self.state@[i].value)
        }
        &&& forall|i: int, j: int| 0 <= i < j < self.state@.len() ==>
            (#[trigger] self.state@[i]).value != (#[trigger] self.state@[j]).value
        &&& self.echo3vals.spec_n() == params.n
        &&& self.coin_shares.spec_n() == params.n
        &&& forall|p: int| #[trigger] self.coin_shares.spec_has(p) ==>
                is_fe(self.coin_shares.spec_get(p)@)
        &&& self.echo1vals@.len() <= 3
        &&& forall|i: int| 0 <= i < self.echo1vals@.len() ==> val_ok(#[trigger] self.echo1vals@[i])
        &&& forall|i: int, j: int| 0 <= i < j < self.echo1vals@.len() ==>
                self.echo1vals@[i] != self.echo1vals@[j]
    }

    /// First-level echo senders of `v`.
    pub open spec fn echoed1(&self, v: u64, sender: int) -> bool {
        val_has(self.state@, v) && val_entry(self.state@, v).echo1.spec_contains(sender)
    }

    pub open spec fn echo1_count(&self, v: u64) -> nat {
        if val_has(self.state@, v) {
            val_entry(self.state@, v).echo1.spec_count()
        } else {
            0
        }
    }

    /// Second-level echo senders of `v`.
    pub open spec fn echoed2(&self, v: u64, sender: int) -> bool {
        val_has(self.state@, v) && val_entry(self.state@, v).echo2.spec_contains(sender)
    }

    pub open spec fn echo2_count(&self, v: u64) -> nat {
        if val_has(self.state@, v) {
            val_entry(self.state@, v).echo2.spec_count()
        } else {
            0
        }
    }

    /// Whether the own first-level re-echo of `v` went out.
    pub open spec fn sent1(&self, v: u64) -> bool {
        val_has(self.state@, v) && val_entry(self.state@, v).echo1_sent
    }

    /// Whether `v` was recorded witnessed (its second-level echo went out).
    pub open spec fn sent2(&self, v: u64) -> bool {
        val_has(self.state@, v) && val_entry(self.state@, v).echo2_sent
    }

    /// The value a quorum of third-level echoes settles on: the witnessed
    /// value when it is unique, else the midpoint of the two.
    pub open spec fn settle_val(vals: Seq<u64>) -> u64 {
        if vals.len() == 1 {
            vals[0]
        } else if vals.len() >= 2 {
            ((vals[0] + vals[1]) / 2) as u64
        } else {
            0
        }
    }

    /// The coin-share evaluation points, in sender order.
    pub open spec fn coin_points(&self) -> Seq<u64> {
        self.coin_shares.holders().map_values(|d: usize| d as u64)
    }

    /// The coin-share encodings, in sender order.
    pub open spec fn coin_vals(&self) -> Seq<Seq<u8>> {
        self.coin_shares.holders().map_values(|d: usize|
            self.coin_shares.spec_get(d as int)@)
    }

    /// The reconstructed coin's bit: the parity of the leading byte of the
    /// interpolation of the shares at zero.
    pub open spec fn coin_is_even(&self) -> bool {
        lagrange_at(self.coin_points(), self.coin_vals(), 0)[0] % 2 == 0
    }

    pub fn new(n: usize) -> (r: RoundStateBin)
        ensures
            forall|p: Params| p.n == n ==> r.wf(p),
            r.state@.len() == 0,
            r.echo1vals@.len() == 0,
            r.echo2vals@.len() == 0,
            r.termval is None,
            !r.echo3sent,
            forall|p: int| 0 <= p < n ==> !r.echo3vals.spec_has(p) && !r.coin_shares.spec_has(p),
    {
        RoundStateBin {
            state: Vec::new(),
            echo1vals: Vec::new(),
            echo2vals: Vec::new(),
            echo3vals: PartyMap::empty(n),
            echo3sent: false,
            termval: None,
            coin_shares: PartyMap::empty(n),
        }
    }

    /// The tally index of `value`, creating it when absent and there is
    /// room (the domain has three values, so three slots never overflow).
    fn val_index(&mut self, params: &Params, value: u64) -> (r: usize)
        requires
            params.valid(),
            old(self).wf(*params),
            val_ok(value),
        ensures
            final(self).wf(*params),
            (r as int) < final(self).state@.len(),
            final(self).state@[r as int].value == value,
            val_has(final(self).state@, value),
            val_entry(final(self).state@, value) == final(self).state@[r as int],
            final(self).state@[r as int].echo1.spec_count() == old(self).echo1_count(value),
            final(self).state@[r as int].echo2.spec_count() == old(self).echo2_count(value),
            final(self).state@[r as int].echo1_sent == old(self).sent1(value),
            final(self).state@[r as int].echo2_sent == old(self).sent2(value),
            forall|s: int| final(self).state@[r as int].echo1.spec_contains(s)
                == old(self).echoed1(value, s),
            forall|s: int| final(self).state@[r as int].echo2.spec_contains(s)
                == old(self).echoed2(value, s),
            forall|w: u64| w != value ==> #[trigger] val_has(final(self).state@, w)
                == val_has(old(self).state@, w),
            forall|w: u64| w != value && val_has(old(self).state@, w) ==>
                #[trigger] val_entry(final(self).state@, w) == val_entry(old(self).state@, w),
            final(self).echo1vals == old(self).echo1vals,
            final(self).echo2vals == old(self).echo2vals,
            final(self).echo3vals == old(self).echo3vals,
            final(self).echo3sent == old(self).echo3sent,
            final(self).termval == old(self).termval,
            final(self).coin_shares == old(self).coin_shares,
            forall|i: int| 0 <= i < old(self).state@.len() ==>
                final(self).state@[i] == old(self).state@[i],
            final(self).state@.len() >= old(self).state@.len(),
    {
        let mut i: usize = 0;
        while i < self.state.len()
            invariant
                i <= self.state@.len(),
                self == old(self),
                self.wf(*params),
                params.valid(),
                forall|j: int| 0 <= j < i ==> (#[trigger] self.state@[j]).value != value,
            decreases self.state@.len() - i,
        {
            if self.state[i].value == value {
                proof {
                    lemma_val_found(self.state@, i as int);
                }
                return i;
            }
            i = i + 1;
        }
        proof {
            lemma_three_values(self.state@, value);
            lemma_val_absent(self.state@, value);
        }
        let ghost s0 = self.state@;
        self.state.push(ValState {
            value,
            echo1: PartySet::empty(params.n),
            echo2: PartySet::empty(params.n),
            echo1_sent: false,
            echo2_sent: false,
        });
        proof {
            assert(self.state@.last().value == value);
            assert(self.state@.drop_last() =~= s0);
            assert(val_entry(self.state@, value) == self.state@.last());
            assert forall|w: u64| w != value implies #[trigger] val_has(self.state@, w)
                == val_has(s0, w) by {
            }
            assert forall|w: u64| w != value && val_has(s0, w) implies
                #[trigger] val_entry(self.state@, w) == val_entry(s0, w) by {
            }
        }
        self.state.len() - 1
    }

    /// Records `value` as witnessed, once.
    fn push_echo1val(&mut self, value: u64)
        requires
            old(self).echo1vals@.len() <= 3,
            val_ok(value),
            forall|i: int| 0 <= i < old(self).echo1vals@.len() ==>
                val_ok(#[trigger] old(self).echo1vals@[i]),
            forall|i: int, j: int| 0 <= i < j < old(self).echo1vals@.len() ==>
                old(self).echo1vals@[i] != old(self).echo1vals@[j],
        ensures
            *final(self) == (RoundStateBin { echo1vals: final(self).echo1vals, ..*old(self) }),
            final(self).echo1vals@.len() <= 3,
            forall|i: int| 0 <= i < final(self).echo1vals@.len() ==>
                val_ok(#[trigger] final(self).echo1vals@[i]),
            forall|i: int, j: int| 0 <= i < j < final(self).echo1vals@.len() ==>
                final(self).echo1vals@[i] != final(self).echo1vals@[j],
            old(self).echo1vals@.contains(value) ==> final(self).echo1vals == old(self).echo1vals,
            !old(self).echo1vals@.contains(value) ==>
                final(self).echo1vals@ == old(self).echo1vals@.push(value),
            final(self).echo1vals@.contains(value),
            forall|v: u64| old(self).echo1vals@.contains(v) ==>
                final(self).echo1vals@.contains(v),
    {
        let mut i: usize = 0;
        while i < self.echo1vals.len()
            invariant
                i <= self.echo1vals@.len(),
                self == old(self),
                self.echo1vals@.len() <= 3,
                val_ok(value),
                forall|j: int| 0 <= j < self.echo1vals@.len() ==>
                    val_ok(#[trigger] self.echo1vals@[j]),
                forall|a: int, b: int| 0 <= a < b < self.echo1vals@.len() ==>
                    self.echo1vals@[a] != self.echo1vals@[b],
                forall|j: int| 0 <= j < i ==> self.echo1vals@[j] != value,
            decreases self.echo1vals@.len() - i,
        {
            if self.echo1vals[i] == value {
                proof {
                    assert(self.echo1vals@.contains(value));
                }
                return;
            }
            i = i + 1;
        }
        proof {
            assert(!old(self).echo1vals@.contains(value));
            if self.echo1vals@.len() == 3 {
                let s = self.echo1vals@;
                assert(s[0] != s[1] && s[0] != s[2] && s[1] != s[2]);
                assert(val_ok(s[0]) && val_ok(s[1]) && val_ok(s[2]));
                assert(s[0] != value && s[1] != value && s[2] != value);
                assert(false);
            }
        }
        self.echo1vals.push(value);
        proof {
            assert(self.echo1vals@.last() == value);
            assert(self.echo1vals@.contains(value));
            assert forall|v: u64| old(self).echo1vals@.contains(v) implies
                self.echo1vals@.contains(v) by {
                let j = choose|j: int| 0 <= j < old(self).echo1vals@.len()
                    && #[trigger] old(self).echo1vals@[j] == v;
                assert(self.echo1vals@[j] == v);
            }
        }
    }

    /// Handles a first-level echo: `t + 1` matching echoes re-echo the
    /// value once; a quorum makes it witnessed — two witnessed values send
    /// the third-level midpoint, one sends the second-level echo.
    /// Returns the first-, second- and third-level echoes to send.
    pub fn add_echo(&mut self, params: &Params, value: u64, sender: usize)
        -> (r: (Option<u64>, Option<u64>, Option<u64>))
        requires
            params.valid(),
            old(self).wf(*params),
            val_ok(value),
            (sender as int) < params.n,
        ensures
            final(self).wf(*params),
            final(self).termval == old(self).termval,
            final(self).echo3sent == old(self).echo3sent,
            final(self).coin_shares == old(self).coin_shares,
            final(self).echo3vals == old(self).echo3vals,
            final(self).echo2vals == old(self).echo2vals,
            final(self).echoed1(value, sender as int),
            final(self).echo1_count(value) == old(self).echo1_count(value)
                + (if old(self).echoed1(value, sender as int) { 0nat } else { 1nat }),
            final(self).echo2_count(value) == old(self).echo2_count(value),
            forall|s: int| final(self).echoed2(value, s) == old(self).echoed2(value, s),
            forall|w: u64| w != value ==> #[trigger] final(self).echo1_count(w)
                == old(self).echo1_count(w),
            forall|w: u64, s: int| w != value ==> #[trigger] final(self).echoed1(w, s)
                == old(self).echoed1(w, s),
            forall|w: u64| w != value ==> #[trigger] final(self).sent1(w) == old(self).sent1(w)
                && #[trigger] final(self).sent2(w) == old(self).sent2(w),
            ({
                let c = final(self).echo1_count(value);
                let amplify = c >= params.spec_low() && !old(self).sent1(value);
                let witness = !amplify && c >= params.spec_quorum() && !old(self).sent2(value);
                &&& (amplify ==> {
                    &&& r == (Some(value), None::<u64>, None::<u64>)
                    &&& final(self).sent1(value)
                    &&& final(self).sent2(value) == old(self).sent2(value)
                    &&& final(self).echo1vals == old(self).echo1vals
                })
                &&& (witness ==> {
                    &&& r.0 is None
                    &&& final(self).sent2(value)
                    &&& final(self).sent1(value) == old(self).sent1(value)
                    &&& final(self).echo1vals@.contains(value)
                    &&& (old(self).echo1vals@.contains(value) ==>
                        final(self).echo1vals == old(self).echo1vals)
                    &&& (!old(self).echo1vals@.contains(value) ==>
                        final(self).echo1vals@ == old(self).echo1vals@.push(value))
                    &&& (final(self).echo1vals@.len() == 2 ==>
                        r.1 is None && r.2 == Some((((final(self).echo1vals@[0]
                            + final(self).echo1vals@[1]) / 2) as u64)))
                    &&& (final(self).echo1vals@.len() != 2 ==>
                        r.2 is None && r.1 == Some(value))
                })
                &&& (!amplify && !witness ==> {
                    &&& r == (None::<u64>, None::<u64>, None::<u64>)
                    &&& final(self).sent1(value) == old(self).sent1(value)
                    &&& final(self).sent2(value) == old(self).sent2(value)
                    &&& final(self).echo1vals == old(self).echo1vals
                })
            }),
    {
        let idx = self.val_index(params, value);
        let ghost s0 = self.state@;
        let mut entry = self.state.remove(idx);
        let ghost entry0 = entry;
        entry.echo1.insert(sender);
        let cnt = entry.echo1.count();
        let mut r0: Option<u64> = None;
        let mut r1: Option<u64> = None;
        let mut r2: Option<u64> = None;
        if cnt >= params.low() && !entry.echo1_sent {
            r0 = Some(value);
            entry.echo1_sent = true;
        } else if cnt >= params.quorum() && !entry.echo2_sent {
            self.push_echo1val(value);
            if self.echo1vals.len() == 2 {
                let mid = (self.echo1vals[0] + self.echo1vals[1]) / 2;
                r2 = Some(mid);
            } else {
                r1 = Some(value);
            }
            entry.echo2_sent = true;
        }
        self.state.insert(idx, entry);
        proof {
            assert(self.state@ =~= s0.update(idx as int, entry));
            lemma_val_update(s0, idx as int, entry);
            assert(val_entry(self.state@, value) == entry);
            assert forall|i: int, j: int| 0 <= i < j < self.state@.len() implies
                (#[trigger] self.state@[i]).value != (#[trigger] self.state@[j]).value by {
                assert(self.state@[i].value == s0[i].value);
                assert(self.state@[j].value == s0[j].value);
            }
        }
        (r0, r1, r2)
    }

    /// Handles a second-level echo: a quorum for the value sends the own
    /// third-level echo, once across all values.
    pub fn add_echo2(&mut self, params: &Params, value: u64, sender: usize) -> (r: Option<u64>)
        requires
            params.valid(),
            old(self).wf(*params),
            val_ok(value),
            (sender as int) < params.n,
        ensures
            final(self).wf(*params),
            final(self).termval == old(self).termval,
            final(self).coin_shares == old(self).coin_shares,
            final(self).echo3vals == old(self).echo3vals,
            final(self).echo1vals == old(self).echo1vals,
            final(self).echoed2(value, sender as int),
            final(self).echo2_count(value) == old(self).echo2_count(value)
                + (if old(self).echoed2(value, sender as int) { 0nat } else { 1nat }),
            final(self).echo1_count(value) == old(self).echo1_count(value),
            forall|s: int| final(self).echoed1(value, s) == old(self).echoed1(value, s),
            final(self).sent1(value) == old(self).sent1(value),
            final(self).sent2(value) == old(self).sent2(value),
            forall|w: u64| w != value ==> #[trigger] final(self).echo2_count(w)
                == old(self).echo2_count(w),
            forall|w: u64, s: int| w != value ==> #[trigger] final(self).echoed2(w, s)
                == old(self).echoed2(w, s),
            final(self).echo2_count(value) >= params.spec_quorum() ==> {
                &&& final(self).echo2vals@ == old(self).echo2vals@.push(value)
                &&& (old(self).echo3sent ==> r is None && final(self).echo3sent)
                &&& (!old(self).echo3sent ==> r == Some(value) && final(self).echo3sent)
            },
            final(self).echo2_count(value) < params.spec_quorum() ==> {
                &&& r is None
                &&& final(self).echo3sent == old(self).echo3sent
                &&& final(self).echo2vals == old(self).echo2vals
            },
            r is Some ==> r == Some(value) && !old(self).echo3sent && final(self).echo3sent,
            r is None ==> final(self).echo3sent == old(self).echo3sent,
    {
        let idx = self.val_index(params, value);
        let ghost s0 = self.state@;
        let mut entry = self.state.remove(idx);
        entry.echo2.insert(sender);
        let cnt = entry.echo2.count();
        let mut r: Option<u64> = None;
        if cnt >= params.quorum() {
            self.echo2vals.push(value);
            if !self.echo3sent {
                r = Some(value);
                self.echo3sent = true;
            }
        }
        self.state.insert(idx, entry);
        proof {
            assert(self.state@ =~= s0.update(idx as int, entry));
            lemma_val_update(s0, idx as int, entry);
            assert(val_entry(self.state@, value) == entry);
            assert forall|i: int, j: int| 0 <= i < j < self.state@.len() implies
                (#[trigger] self.state@[i]).value != (#[trigger] self.state@[j]).value by {
                assert(self.state@[i].value == s0[i].value);
                assert(self.state@[j].value == s0[j].value);
            }
        }
        (r)
    }

    /// Handles a third-level echo: at a quorum of them the round settles —
    /// on the witnessed value if it is unique, else on the midpoint — and
    /// the coin share may go out. A duplicate sender changes nothing.
    /// Returns whether the round has settled.
    pub fn add_echo3(&mut self, params: &Params, value: u64, sender: usize) -> (r: bool)
        requires
            params.valid(),
            old(self).wf(*params),
            val_ok(value),
            (sender as int) < params.n,
        ensures
            final(self).wf(*params),
            final(self).coin_shares == old(self).coin_shares,
            final(self).echo1vals == old(self).echo1vals,
            old(self).echo3vals.spec_has(sender as int) ==> {
                &&& *final(self) == *old(self)
                &&& r == (old(self).termval is Some)
            },
            !old(self).echo3vals.spec_has(sender as int) ==> {
                &&& final(self).echo3vals.spec_has(sender as int)
                &&& final(self).echo3vals.spec_get(sender as int) == value
                &&& final(self).echo3vals.spec_count()
                    == old(self).echo3vals.spec_count() + 1
                &&& (final(self).echo3vals.spec_count() >= params.spec_quorum()
                        && old(self).termval is None ==>
                    final(self).termval == Some(Self::settle_val(old(self).echo1vals@)))
                &&& (final(self).echo3vals.spec_count() < params.spec_quorum() ==>
                    final(self).termval == old(self).termval)
            },
            r == (final(self).termval is Some),
            old(self).termval is Some ==> final(self).termval == old(self).termval,
    {
        if self.echo3vals.has(sender) {
            return self.termval.is_some();
        }
        self.echo3vals.set(sender, value);
        let cnt = self.echo3vals.count();
        if cnt >= params.quorum() && self.termval.is_none() {
            if self.echo1vals.len() == 1 {
                self.termval = Some(self.echo1vals[0]);
            } else if self.echo1vals.len() >= 2 {
                self.termval = Some((self.echo1vals[0] + self.echo1vals[1]) / 2);
            } else {
                self.termval = Some(0);
            }
            return true;
        }
        self.termval.is_some()
    }

    /// Stores a coin share; the first share per sender is kept.
    pub fn add_partial_coin(&mut self, params: &Params, sender: usize, share: Vec<u8>)
        requires
            params.valid(),
            old(self).wf(*params),
            (sender as int) < params.n,
            is_fe(share@),
        ensures
            final(self).wf(*params),
            old(self).coin_shares.spec_has(sender as int) ==> *final(self) == *old(self),
            final(self).coin_shares.spec_has(sender as int),
            *final(self) == (RoundStateBin { coin_shares: final(self).coin_shares, ..*old(self) }),
    {
        if self.coin_shares.has(sender) {
            return;
        }
        self.coin_shares.set(sender, share);
    }

    pub fn contains_coin(&self, params: &Params, sender: usize) -> (r: bool)
        requires
            self.wf(*params),
            (sender as int) < params.n,
        ensures
            r == self.coin_shares.spec_has(sender as int),
    {
        self.coin_shares.has(sender)
    }

    /// Reconstructs the coin from `t + 1` shares and decides: terminate on
    /// a witnessed value that matches the coin's bit, else carry the coin's
    /// bit — or the unique witnessed value — into the next round.
    /// `None` while the shares or the settled value are missing.
    pub fn aggregate_p_coins(&mut self, params: &Params) -> (r: Option<(bool, u64)>)
        requires
            params.valid(),
            old(self).wf(*params),
        ensures
            final(self).wf(*params),
            *final(self) == *old(self),
            old(self).coin_shares.spec_count() < params.spec_low() ==> r is None,
            old(self).termval is None ==> r is None,
            r is Some ==> old(self).termval is Some && val_ok(r->Some_0.1)
                && (r->Some_0.0 ==> r->Some_0.1 == old(self).termval->Some_0),
            old(self).coin_shares.spec_count() >= params.spec_low()
                && old(self).termval is Some ==> {
                let tv = old(self).termval->Some_0;
                let even = old(self).coin_is_even();
                &&& ((tv == 2 && even) || (tv == 0 && !even) ==> r == Some((true, tv)))
                &&& (!((tv == 2 && even) || (tv == 0 && !even)) ==> {
                    &&& (old(self).echo1vals@.len() >= 2 ==>
                        r == Some((false, if even { 2u64 } else { 0u64 })))
                    &&& (old(self).echo1vals@.len() == 1 ==>
                        r == Some((false, old(self).echo1vals@[0])))
                    &&& (old(self).echo1vals@.len() == 0 ==>
                        r == Some((false, if even { 2u64 } else { 0u64 })))
                })
            },
    {
        let cnt = self.coin_shares.count();
        if cnt < params.low() {
            return None;
        }
        let mut points: Vec<u64> = Vec::new();
        let mut shares: Vec<Vec<u8>> = Vec::new();
        let mut p: usize = 0;
        while p < params.n
            invariant
                p <= params.n,
                params.valid(),
                self.wf(*params),
                *self == *old(self),
                points@.len() == shares@.len(),
                points@ =~= members_below(self.coin_shares.occupancy(), p as int)
                    .map_values(|d: usize| d as u64),
                shares@.map_values(|v: Vec<u8>| v@) =~=
                    members_below(self.coin_shares.occupancy(), p as int)
                        .map_values(|d: usize| self.coin_shares.spec_get(d as int)@),
                forall|a: int, b: int| 0 <= a < b < points@.len() ==> points@[a] != points@[b],
                forall|a: int| 0 <= a < points@.len() ==> (#[trigger] points@[a] as int) < p,
                forall|a: int| 0 <= a < shares@.len() ==> is_fe(#[trigger] shares@[a]@),
            decreases params.n - p,
        {
            let ghost occ = self.coin_shares.occupancy();
            let ghost plen = points@.len() as int;
            match self.coin_shares.get(p) {
                Some(s) => {
                    points.push(p as u64);
                    shares.push(crate::vaba::copy_bytes(s));
                    proof {
                        assert(points@[plen] == p as u64);
                        assert(shares@[plen]@ == self.coin_shares.spec_get(p as int)@);
                        assert(members_below(occ, p + 1) =~=
                            members_below(occ, p as int).push(p));
                        assert(points@ =~= members_below(occ, p + 1)
                            .map_values(|d: usize| d as u64));
                        assert(shares@.map_values(|v: Vec<u8>| v@) =~=
                            members_below(occ, p as int).map_values(|d: usize|
                                self.coin_shares.spec_get(d as int)@)
                            .push(self.coin_shares.spec_get(p as int)@));
                        assert(shares@.map_values(|v: Vec<u8>| v@) =~=
                            members_below(occ, p + 1).map_values(|d: usize|
                                self.coin_shares.spec_get(d as int)@));
                    }
                },
                None => {
                    proof {
                        assert(members_below(occ, p + 1) =~= members_below(occ, p as int));
                    }
                },
            }
            p = p + 1;
        }
        proof {
            assert(points@ =~= self.coin_points());
            assert(shares@.map_values(|v: Vec<u8>| v@) =~= self.coin_vals());
            crate::party::lemma_members_below_count(
                self.coin_shares.occupancy(), params.n as int);
            assert(self.coin_shares.occupancy().take(params.n as int)
                =~= self.coin_shares.occupancy());
        }
        if points.len() == 0 {
            return None;
        }
        let coin = interpolate_at_zero(&points, &shares);
        let even = coin[0] % 2 == 0;
        proof {
            assert(coin@ == lagrange_at(self.coin_points(), self.coin_vals(), 0));
            assert(even == self.coin_is_even());
        }
        match &self.termval {
            Some(tv) => {
                let tv = *tv;
                if (tv == 2 && even) || (tv == 0 && !even) {
                    Some((true, tv))
                } else {
                    if self.echo1vals.len() >= 2 {
                        if even {
                            Some((false, 2))
                        } else {
                            Some((false, 0))
                        }
                    } else if self.echo1vals.len() == 1 {
                        let v = self.echo1vals[0];
                        Some((false, v))
                    } else {
                        Some((false, if even { 2 } else { 0 }))
                    }
                }
            },
            None => None,
        }
    }
}

/// Among tallies of pairwise-distinct values from a three-value domain, a
/// fourth value cannot appear.
proof fn lemma_three_values(s: Seq<ValState>, v: u64)
    requires
        s.len() <= 3,
        forall|i: int| 0 <= i < s.len() ==> val_ok((#[trigger] s[i]).value),
        forall|i: int, j: int| 0 <= i < j < s.len() ==>
            (#[trigger] s[i]).value != (#[trigger] s[j]).value,
        forall|i: int| 0 <= i < s.len() ==> (#[trigger] s[i]).value != v,
        val_ok(v),
    ensures
        s.len() < 3,
{
    if s.len() == 3 {
        assert(s[0].value != s[1].value && s[0].value != s[2].value && s[1].value != s[2].value);
    }
}

/// One agreement instance: its rounds, the rounds already decided past,
/// the preloaded coin shares (one per round), and the decided latch.
pub struct BaaInstance {
    /// Per round, the tallies.
    pub rounds: VMap<RoundStateBin>,
    /// Rounds whose coin already moved this instance on.
    pub done_rounds: VMap<bool>,
    /// The preloaded coin shares, consumed one per round.
    pub coin_shares: Vec<Vec<u8>>,
    /// Set once the instance decided; no second decision is emitted.
    pub decided: bool,
}

impl BaaInstance {
    pub open spec fn wf(&self, params: Params) -> bool {
        &&& self.rounds.wf()
        &&& self.done_rounds.wf()
        &&& forall|k: u64| #[trigger] has_key(self.rounds.entries@, k) ==>
                val_of(self.rounds.entries@, k).wf(params)
        &&& forall|i: int| 0 <= i < self.coin_shares@.len() ==>
                is_fe(#[trigger] self.coin_shares@[i]@)
    }

    pub fn new(coin_shares: Vec<Vec<u8>>) -> (r: BaaInstance)
        requires
            forall|i: int| 0 <= i < coin_shares@.len() ==>
                is_fe(#[trigger] coin_shares@[i]@),
        ensures
            forall|p: Params| r.wf(p),
            !r.decided,
    {
        BaaInstance {
            rounds: VMap::new(),
            done_rounds: VMap::new(),
            coin_shares,
            decided: false,
        }
    }

    /// The tally of `round`, created on first reference.
    fn round_mut_prepare(&mut self, params: &Params, round: u64) -> (r: RoundStateBin)
        requires
            params.valid(),
            old(self).wf(*params),
        ensures
            r.wf(*params),
            final(self).wf(*params),
            final(self).decided == old(self).decided,
            final(self).done_rounds == old(self).done_rounds,
            final(self).coin_shares == old(self).coin_shares,
    {
        match self.rounds.take(round) {
            Some(st) => st,
            None => RoundStateBin::new(params.n),
        }
    }

    /// Emits this round's coin share once the round settled, then decides
    /// or advances with the reconstructed coin.
    fn maybe_coin_and_advance(
        &mut self,
        params: &Params,
        mut st: RoundStateBin,
        myid: usize,
        instance: u64,
        round: u64,
        settled: bool,
        out: &mut Vec<BaaAction>,
    )
        requires
            params.valid(),
            old(self).wf(*params),
            st.wf(*params),
            (myid as int) < params.n,
            round < 0x1000_0000,
        ensures
            final(self).wf(*params),
            final(self).decided ==> old(self).decided
                || exists|j: int| 0 <= j < final(out)@.len()
                    && (#[trigger] final(out)@[j]) is Decide,
            old(self).decided ==> final(self).decided,
            final(out)@.len() >= old(out)@.len(),
            forall|j: int| 0 <= j < old(out)@.len() ==>
                #[trigger] final(out)@[j] == old(out)@[j],
            forall|j: int| old(out)@.len() <= j < final(out)@.len() ==>
                ((#[trigger] final(out)@[j]) matches BaaAction::CoinShare {
                    share, instance: i2, round: rd } ==>
                    rd == round && i2 == instance
                    && (round as int) < old(self).coin_shares@.len()
                    && share@ == old(self).coin_shares@[round as int]@),
    {
        let mut terminate: Option<(bool, u64)> = None;
        if settled && !st.contains_coin(params, myid) && self.coin_shares.len() > 0 {
            if (round as usize) < self.coin_shares.len() {
                let share = crate::vaba::copy_bytes(&self.coin_shares[round as usize]);
                out.push(BaaAction::CoinShare {
                    share: crate::vaba::copy_bytes(&share), instance, round });
                st.add_partial_coin(params, myid, share);
                terminate = st.aggregate_p_coins(params);
            }
        }
        self.rounds.set(round, st);
        match terminate {
            Some((done, v)) => {
                self.advance(params, myid, instance, round, done, v, out);
            },
            None => {},
        }
    }

    /// Moves past `round`: decide `v` when the coin confirmed it, else
    /// start the next round by echoing `v` there.
    fn advance(
        &mut self,
        params: &Params,
        myid: usize,
        instance: u64,
        round: u64,
        done: bool,
        v: u64,
        out: &mut Vec<BaaAction>,
    )
        requires
            params.valid(),
            old(self).wf(*params),
            (myid as int) < params.n,
            round < 0x1000_0000,
        ensures
            final(self).wf(*params),
            final(self).decided ==> old(self).decided
                || exists|j: int| 0 <= j < final(out)@.len()
                    && (#[trigger] final(out)@[j]) is Decide,
            old(self).decided ==> final(self).decided && *final(self) == *old(self)
                && *final(out) == *old(out),
            final(out)@.len() >= old(out)@.len(),
            forall|j: int| 0 <= j < old(out)@.len() ==>
                #[trigger] final(out)@[j] == old(out)@[j],
            !old(self).decided ==> {
                &&& has_key(final(self).done_rounds.entries@, round)
                &&& val_of(final(self).done_rounds.entries@, round)
                &&& (done ==> final(self).decided
                    && final(out)@ == old(out)@.push(BaaAction::Decide { value: v, instance }))
                &&& (!done ==> !final(self).decided
                    && final(out)@ == old(out)@.push(BaaAction::Echo1 {
                        value: v, instance, round: (round + 1) as u64 }))
            },
            forall|j: int| old(out)@.len() <= j < final(out)@.len() ==>
                !((#[trigger] final(out)@[j]) is CoinShare),
    {
        if self.decided {
            return;
        }
        self.done_rounds.set(round, true);
        if done {
            self.decided = true;
            let ghost olen = out@.len() as int;
            out.push(BaaAction::Decide { value: v, instance });
            proof {
                assert(out@[olen] is Decide);
            }
        } else {
            out.push(BaaAction::Echo1 { value: v, instance, round: round + 1 });
        }
    }

    /// Handles a first-level echo for `round`. A value outside the domain
    /// is dropped; after the instance decided, everything is.
    pub fn process_echo1(
        &mut self,
        params: &Params,
        myid: usize,
        instance: u64,
        round: u64,
        value: u64,
        sender: usize,
    ) -> (r: Vec<BaaAction>)
        requires
            params.valid(),
            old(self).wf(*params),
            (myid as int) < params.n,
            (sender as int) < params.n,
            round < 0x1000_0000,
        ensures
            final(self).wf(*params),
            old(self).decided ==> *final(self) == *old(self) && r@.len() == 0,
            !val_ok(value) ==> *final(self) == *old(self) && r@.len() == 0,
            !old(self).decided && val_ok(value)
                && has_key(old(self).done_rounds.entries@, round)
                && val_of(old(self).done_rounds.entries@, round) ==>
                *final(self) == *old(self) && r@.len() == 0,
            final(self).decided ==> old(self).decided
                || exists|j: int| 0 <= j < r@.len() && (#[trigger] r@[j]) is Decide,
            forall|j: int| 0 <= j < r@.len() ==>
                ((#[trigger] r@[j]) matches BaaAction::CoinShare {
                    share, instance: i2, round: rd } ==>
                    rd == round && i2 == instance
                    && (round as int) < old(self).coin_shares@.len()
                    && share@ == old(self).coin_shares@[round as int]@),
    {
        let mut out: Vec<BaaAction> = Vec::new();
        if self.decided {
            return out;
        }
        if value > 2 {
            return out;
        }
        if self.done_rounds.contains(round) {
            return out;
        }
        let mut st = self.round_mut_prepare(params, round);
        let (e1, e2, e3) = st.add_echo(params, value, sender);
        let mut settled = false;
        match e1 {
            Some(v) => {
                out.push(BaaAction::Echo1 { value: v, instance, round });
                let (_x1, x2, x3) = st.add_echo(params, v, myid);
                match x2 {
                    Some(v2) => {
                        out.push(BaaAction::Echo2 { value: v2, instance, round });
                    },
                    None => {},
                }
                match x3 {
                    Some(v3) => {
                        out.push(BaaAction::Echo3 { value: v3, instance, round });
                        settled = st.add_echo3(params, v3, myid);
                    },
                    None => {},
                }
            },
            None => {},
        }
        match e2 {
            Some(v) => {
                out.push(BaaAction::Echo2 { value: v, instance, round });
                let e3b = st.add_echo2(params, v, myid);
                match e3b {
                    Some(v3) => {
                        out.push(BaaAction::Echo3 { value: v3, instance, round });
                        settled = st.add_echo3(params, v3, myid);
                    },
                    None => {},
                }
            },
            None => {},
        }
        match e3 {
            Some(v) => {
                out.push(BaaAction::Echo3 { value: v, instance, round });
                settled = st.add_echo3(params, v, myid);
            },
            None => {},
        }
        self.maybe_coin_and_advance(params, st, myid, instance, round, settled, &mut out);
        out
    }

    /// Handles a second-level echo for `round`.
    pub fn process_echo2(
        &mut self,
        params: &Params,
        myid: usize,
        instance: u64,
        round: u64,
        value: u64,
        sender: usize,
    ) -> (r: Vec<BaaAction>)
        requires
            params.valid(),
            old(self).wf(*params),
            (myid as int) < params.n,
            (sender as int) < params.n,
            round < 0x1000_0000,
        ensures
            final(self).wf(*params),
            old(self).decided ==> *final(self) == *old(self) && r@.len() == 0,
            !val_ok(value) ==> *final(self) == *old(self) && r@.len() == 0,
            !old(self).decided && val_ok(value)
                && has_key(old(self).done_rounds.entries@, round)
                && val_of(old(self).done_rounds.entries@, round) ==>
                *final(self) == *old(self) && r@.len() == 0,
            final(self).decided ==> old(self).decided
                || exists|j: int| 0 <= j < r@.len() && (#[trigger] r@[j]) is Decide,
            forall|j: int| 0 <= j < r@.len() ==>
                ((#[trigger] r@[j]) matches BaaAction::CoinShare {
                    share, instance: i2, round: rd } ==>
                    rd == round && i2 == instance
                    && (round as int) < old(self).coin_shares@.len()
                    && share@ == old(self).coin_shares@[round as int]@),
    {
        let mut out: Vec<BaaAction> = Vec::new();
        if self.decided {
            return out;
        }
        if value > 2 {
            return out;
        }
        if self.done_rounds.contains(round) {
            return out;
        }
        let mut st = self.round_mut_prepare(params, round);
        let e3 = st.add_echo2(params, value, sender);
        let mut settled = false;
        match e3 {
            Some(v3) => {
                out.push(BaaAction::Echo3 { value: v3, instance, round });
                settled = st.add_echo3(params, v3, myid);
            },
            None => {},
        }
        self.maybe_coin_and_advance(params, st, myid, instance, round, settled, &mut out);
        out
    }

    /// Handles a third-level echo for `round`.
    pub fn process_echo3(
        &mut self,
        params: &Params,
        myid: usize,
        instance: u64,
        round: u64,
        value: u64,
        sender: usize,
    ) -> (r: Vec<BaaAction>)
        requires
            params.valid(),
            old(self).wf(*params),
            (myid as int) < params.n,
            (sender as int) < params.n,
            round < 0x1000_0000,
        ensures
            final(self).wf(*params),
            old(self).decided ==> *final(self) == *old(self) && r@.len() == 0,
            !val_ok(value) ==> *final(self) == *old(self) && r@.len() == 0,
            !old(self).decided && val_ok(value)
                && has_key(old(self).done_rounds.entries@, round)
                && val_of(old(self).done_rounds.entries@, round) ==>
                *final(self) == *old(self) && r@.len() == 0,
            final(self).decided ==> old(self).decided
                || exists|j: int| 0 <= j < r@.len() && (#[trigger] r@[j]) is Decide,
            forall|j: int| 0 <= j < r@.len() ==>
                ((#[trigger] r@[j]) matches BaaAction::CoinShare {
                    share, instance: i2, round: rd } ==>
                    rd == round && i2 == instance
                    && (round as int) < old(self).coin_shares@.len()
                    && share@ == old(self).coin_shares@[round as int]@),
    {
        let mut out: Vec<BaaAction> = Vec::new();
        if self.decided {
            return out;
        }
        if value > 2 {
            return out;
        }
        if self.done_rounds.contains(round) {
            return out;
        }
        let mut st = self.round_mut_prepare(params, round);
        let settled = st.add_echo3(params, value, sender);
        self.maybe_coin_and_advance(params, st, myid, instance, round, settled, &mut out);
        out
    }

    /// Handles a peer's coin share for `round`: a share that is not a
    /// canonical field encoding is dropped; at `t + 1` shares the coin
    /// reconstructs and the instance decides or advances.
    pub fn process_coin_share(
        &mut self,
        params: &Params,
        myid: usize,
        instance: u64,
        round: u64,
        share: Vec<u8>,
        sender: usize,
    ) -> (r: Vec<BaaAction>)
        requires
            params.valid(),
            old(self).wf(*params),
            (myid as int) < params.n,
            (sender as int) < params.n,
            round < 0x1000_0000,
        ensures
            final(self).wf(*params),
            old(self).decided ==> *final(self) == *old(self) && r@.len() == 0,
            share@.len() != 32 ==> *final(self) == *old(self) && r@.len() == 0,
            !old(self).decided && share@.len() == 32
                && has_key(old(self).done_rounds.entries@, round)
                && val_of(old(self).done_rounds.entries@, round) ==>
                *final(self) == *old(self) && r@.len() == 0,
            final(self).decided ==> old(self).decided
                || exists|j: int| 0 <= j < r@.len() && (#[trigger] r@[j]) is Decide,
            forall|j: int| 0 <= j < r@.len() ==> !((#[trigger] r@[j]) is CoinShare),
    {
        let mut out: Vec<BaaAction> = Vec::new();
        if self.decided {
            return out;
        }
        if share.len() != 32 {
            return out;
        }
        if self.done_rounds.contains(round) {
            return out;
        }
        let mut st = self.round_mut_prepare(params, round);
        let mut terminate: Option<(bool, u64)> = None;
        let cs_count = st.coin_shares.count();
        if cs_count < params.low() {
            st.add_partial_coin(params, sender, share);
            terminate = st.aggregate_p_coins(params);
        }
        self.rounds.set(round, st);
        match terminate {
            Some((done, v)) => {
                self.advance(params, myid, instance, round, done, v, &mut out);
            },
            None => {},
        }
        out
    }

    /// Starts a round by echoing `value` there, or decides when the round
    /// before it already confirmed the value.
    pub fn start_round(
        &mut self,
        params: &Params,
        instance: u64,
        round: u64,
        value: u64,
        terminate: bool,
    ) -> (r: Vec<BaaAction>)
        requires
            params.valid(),
            old(self).wf(*params),
        ensures
            final(self).wf(*params),
            old(self).decided ==> *final(self) == *old(self) && r@.len() == 0,
            !old(self).decided && !terminate ==>
                r@ =~= seq![BaaAction::Echo1 { value, instance, round }]
                && final(self).decided == old(self).decided,
            !old(self).decided && terminate ==> final(self).decided
                && r@ =~= seq![BaaAction::Decide { value, instance }],
    {
        let mut out: Vec<BaaAction> = Vec::new();
        if self.decided {
            return out;
        }
        if terminate {
            self.decided = true;
            out.push(BaaAction::Decide { value, instance });
        } else {
            out.push(BaaAction::Echo1 { value, instance, round });
        }
        out
    }
}

} // verus!
