//! Reliable agreement: one-shot agreement on a small integer.
//!
//! Each party echoes its input; a quorum of `n - t` matching echoes sends a
//! ready; `t + 1` matching readies amplify; `n - t` matching readies — or,
//! as a shortcut, echoes from all `n` parties — deliver. Duplicate messages
//! from one sender in one phase leave the state unchanged and emit nothing,
//! so a replayed envelope is harmless.

use vstd::prelude::*;
use crate::Params;
use crate::party::PartySet;
use crate::vmap::{VMap, has_key, val_of};

verus! {

/// What an agreement handler asks the surrounding loop to do.
pub enum RaAction {
    /// Broadcast an echo for `value`.
    Echo { value: u64 },
    /// Broadcast a ready for `value`.
    Ready { value: u64 },
    /// The instance terminated with `value`: hand it to the requester.
    Deliver { value: u64 },
}

/// One agreement instance.
pub struct RaState {
    /// The party this instance decides about.
    pub rep: usize,
    /// Echo senders per value.
    pub echos: VMap<PartySet>,
    /// Ready senders per value.
    pub readys: VMap<PartySet>,
    /// The value whose echoes reached the quorum, once one did; a ready was
    /// sent for it, which suppresses the amplification resend.
    pub echo_done: Option<u64>,
    pub terminated: bool,
}

impl RaState {
    pub open spec fn wf(&self, params: Params) -> bool {
        &&& self.echos.wf()
        &&& self.readys.wf()
        &&& forall|k: u64| #[trigger] has_key(self.echos.entries@, k) ==>
                val_of(self.echos.entries@, k).spec_n() == params.n
        &&& forall|k: u64| #[trigger] has_key(self.readys.entries@, k) ==>
                val_of(self.readys.entries@, k).spec_n() == params.n
    }

    /// Whether `sender` echoed `value`.
    pub open spec fn echoed(&self, value: u64, sender: int) -> bool {
        has_key(self.echos.entries@, value)
            && val_of(self.echos.entries@, value).spec_contains(sender)
    }

    /// Whether `sender` sent a ready for `value`.
    pub open spec fn readied(&self, value: u64, sender: int) -> bool {
        has_key(self.readys.entries@, value)
            && val_of(self.readys.entries@, value).spec_contains(sender)
    }

    pub open spec fn echo_count(&self, value: u64) -> nat {
        if has_key(self.echos.entries@, value) {
            val_of(self.echos.entries@, value).spec_count()
        } else {
            0
        }
    }

    pub open spec fn ready_count(&self, value: u64) -> nat {
        if has_key(self.readys.entries@, value) {
            val_of(self.readys.entries@, value).spec_count()
        } else {
            0
        }
    }

    pub fn new(rep: usize) -> (r: RaState)
        ensures
            r.rep == rep,
            !r.terminated,
            r.echo_done is None,
            forall|v: u64, s: int| !r.echoed(v, s) && !r.readied(v, s),
            forall|p: Params| r.wf(p),
    {
        RaState {
            rep,
            echos: VMap::new(),
            readys: VMap::new(),
            echo_done: None,
            terminated: false,
        }
    }

    /// Adds `sender` to the echo senders of `value`; reports whether it was
    /// new and the resulting tally.
    fn add_echo(&mut self, params: &Params, value: u64, sender: usize) -> (r: (bool, usize))
        requires
            params.valid(),
            old(self).wf(*params),
            (sender as int) < params.n,
        ensures
            final(self).wf(*params),
            r.0 == !old(self).echoed(value, sender as int),
            !r.0 ==> *final(self) == *old(self),
            final(self).echoed(value, sender as int),
            r.1 == final(self).echo_count(value),
            final(self).echo_count(value) ==
                old(self).echo_count(value) + (if r.0 { 1nat } else { 0nat }),
            forall|v: u64, s: int| !(v == value && s == sender) ==>
                #[trigger] final(self).echoed(v, s) == old(self).echoed(v, s),
            forall|v: u64| v != value ==> #[trigger] final(self).echo_count(v) == old(self).echo_count(v),
            final(self).readys == old(self).readys,
            final(self).echo_done == old(self).echo_done,
            final(self).terminated == old(self).terminated,
            final(self).rep == old(self).rep,
    {
        match self.echos.get(value) {
            Some(s) => {
                if s.contains(sender) {
                    let c = s.count();
                    return (false, c);
                }
            },
            None => {},
        }
        let mut set = match self.echos.take(value) {
            Some(s) => s,
            None => PartySet::empty(params.n),
        };
        set.insert(sender);
        let cnt = set.count();
        self.echos.set(value, set);
        (true, cnt)
    }

    /// Adds `sender` to the ready senders of `value`, as `add_echo` does.
    fn add_ready(&mut self, params: &Params, value: u64, sender: usize) -> (r: (bool, usize))
        requires
            params.valid(),
            old(self).wf(*params),
            (sender as int) < params.n,
        ensures
            final(self).wf(*params),
            r.0 == !old(self).readied(value, sender as int),
            !r.0 ==> *final(self) == *old(self),
            final(self).readied(value, sender as int),
            r.1 == final(self).ready_count(value),
            final(self).ready_count(value) ==
                old(self).ready_count(value) + (if r.0 { 1nat } else { 0nat }),
            forall|v: u64, s: int| !(v == value && s == sender) ==>
                #[trigger] final(self).readied(v, s) == old(self).readied(v, s),
            forall|v: u64| v != value ==> #[trigger] final(self).ready_count(v) == old(self).ready_count(v),
            final(self).echos == old(self).echos,
            final(self).echo_done == old(self).echo_done,
            final(self).terminated == old(self).terminated,
            final(self).rep == old(self).rep,
    {
        match self.readys.get(value) {
            Some(s) => {
                if s.contains(sender) {
                    let c = s.count();
                    return (false, c);
                }
            },
            None => {},
        }
        let mut set = match self.readys.take(value) {
            Some(s) => s,
            None => PartySet::empty(params.n),
        };
        set.insert(sender);
        let cnt = set.count();
        self.readys.set(value, set);
        (true, cnt)
    }

    /// Starts the instance with this party's input: record the own echo and
    /// broadcast it. A terminated instance ignores the request.
    pub fn init(&mut self, params: &Params, myid: usize, value: u64) -> (r: Vec<RaAction>)
        requires
            params.valid(),
            old(self).wf(*params),
            (myid as int) < params.n,
        ensures
            final(self).wf(*params),
            old(self).terminated ==> *final(self) == *old(self) && r@.len() == 0,
            !old(self).terminated ==> {
                &&& final(self).echoed(value, myid as int)
                &&& r@ =~= seq![RaAction::Echo { value }]
                &&& final(self).terminated == old(self).terminated
            },
    {
        let mut r: Vec<RaAction> = Vec::new();
        if self.terminated {
            return r;
        }
        let (_fresh, _cnt) = self.add_echo(params, value, myid);
        r.push(RaAction::Echo { value });
        r
    }

    /// Handles an echo for `value` from `sender`. A duplicate, or anything
    /// after termination, changes nothing. A fresh echo that completes the
    /// `n - t` quorum sends the ready; echoes from all `n` parties deliver.
    pub fn process_echo(&mut self, params: &Params, value: u64, sender: usize) -> (r: Vec<RaAction>)
        requires
            params.valid(),
            old(self).wf(*params),
            (sender as int) < params.n,
        ensures
            final(self).wf(*params),
            old(self).terminated ==> *final(self) == *old(self) && r@.len() == 0,
            !old(self).terminated && old(self).echoed(value, sender as int) ==>
                *final(self) == *old(self) && r@.len() == 0,
            !old(self).terminated && !old(self).echoed(value, sender as int) ==> {
                &&& final(self).echoed(value, sender as int)
                &&& final(self).echo_count(value) == old(self).echo_count(value) + 1
                &&& final(self).readys == old(self).readys
                &&& (final(self).echo_count(value) == params.spec_quorum() ==> {
                    &&& final(self).echo_done == Some(value)
                    &&& r@ =~= seq![RaAction::Ready { value }]
                    &&& !final(self).terminated
                })
                &&& (final(self).echo_count(value) != params.spec_quorum()
                        && final(self).echo_count(value) == params.n ==> {
                    &&& final(self).terminated
                    &&& r@ =~= seq![RaAction::Deliver { value }]
                })
                &&& (final(self).echo_count(value) != params.spec_quorum()
                        && final(self).echo_count(value) != params.n ==> {
                    &&& !final(self).terminated
                    &&& final(self).echo_done == old(self).echo_done
                    &&& r@.len() == 0
                })
            },
    {
        let mut r: Vec<RaAction> = Vec::new();
        if self.terminated {
            return r;
        }
        let (fresh, cnt) = self.add_echo(params, value, sender);
        if !fresh {
            return r;
        }
        if cnt == params.quorum() {
            self.echo_done = Some(value);
            r.push(RaAction::Ready { value });
        } else if cnt == params.n {
            self.terminated = true;
            r.push(RaAction::Deliver { value });
        }
        r
    }

    /// Handles a ready for `value` from `sender`: `t + 1` matching readies
    /// amplify unless the quorum ready already went out; `n - t` deliver.
    pub fn process_ready(&mut self, params: &Params, value: u64, sender: usize) -> (r: Vec<RaAction>)
        requires
            params.valid(),
            old(self).wf(*params),
            (sender as int) < params.n,
        ensures
            final(self).wf(*params),
            old(self).terminated ==> *final(self) == *old(self) && r@.len() == 0,
            !old(self).terminated && old(self).readied(value, sender as int) ==>
                *final(self) == *old(self) && r@.len() == 0,
            !old(self).terminated && !old(self).readied(value, sender as int) ==> {
                &&& final(self).readied(value, sender as int)
                &&& final(self).ready_count(value) == old(self).ready_count(value) + 1
                &&& final(self).echos == old(self).echos
                &&& final(self).echo_done == old(self).echo_done
                &&& (final(self).ready_count(value) == params.spec_low() ==> {
                    &&& !final(self).terminated
                    &&& (old(self).echo_done is Some ==> r@.len() == 0)
                    &&& (old(self).echo_done is None ==> r@ =~= seq![RaAction::Ready { value }])
                })
                &&& (final(self).ready_count(value) != params.spec_low()
                        && final(self).ready_count(value) >= params.spec_quorum() ==> {
                    &&& final(self).terminated
                    &&& r@ =~= seq![RaAction::Deliver { value }]
                })
                &&& (final(self).ready_count(value) != params.spec_low()
                        && final(self).ready_count(value) < params.spec_quorum() ==> {
                    &&& !final(self).terminated
                    &&& r@.len() == 0
                })
            },
    {
        let mut r: Vec<RaAction> = Vec::new();
        if self.terminated {
            return r;
        }
        let (fresh, cnt) = self.add_ready(params, value, sender);
        if !fresh {
            return r;
        }
        if cnt == params.low() {
            if self.echo_done.is_none() {
                r.push(RaAction::Ready { value });
            }
        } else if cnt >= params.quorum() {
            self.terminated = true;
            r.push(RaAction::Deliver { value });
        }
        r
    }
}

/// Splits a service-level instance identifier into the representative party
/// and the per-party instance number, the two having been packed as
/// `rep * threshold + instance`.
pub fn replica_from_inst_id(threshold: usize, instance_id: usize) -> (r: (usize, usize))
    requires
        threshold >= 1,
    ensures
        r.0 == instance_id as int / threshold as int,
        r.1 == instance_id as int % threshold as int,
{
    (instance_id / threshold, instance_id % threshold)
}

} // verus!
