//! Asynchronous common subset (ACS): the agreement engine and its
//! sub-protocols, written as verified state machines.
//!
//! Each sub-protocol — reliable broadcast of the key-sharing layer,
//! reliable agreement, asynchronous key sharing, gather, binary Byzantine
//! agreement, the VABA iteration and the multi-valued termination gadget —
//! is a pure transition system: a handler takes the owning state and one
//! event, mutates the state, and returns the actions (messages to send,
//! sub-protocol requests, outputs) that the surrounding event loop must
//! perform. Nothing here does I/O.

pub mod acs;
pub mod asks;
pub mod baa;
pub mod bmap;
pub mod codec;
pub mod field;
pub mod gather;
pub mod laws;
pub mod mvba;
pub mod party;
pub mod ra;
pub mod vaba;
pub mod vmap;

use vstd::prelude::*;

verus! {

/// The execution parameters: `n` parties, at most `t` of them faulty.
#[derive(Clone, Copy)]
pub struct Params {
    pub n: usize,
    pub t: usize,
}

impl Params {
    /// The classical resilience bound `n >= 3t + 1`, with `n` kept small
    /// enough that the thresholds cannot overflow.
    pub open spec fn valid(&self) -> bool {
        &&& self.n >= 3 * self.t + 1
        &&& self.n <= 0xffff
    }

    /// `n - t`: the quorum threshold.
    pub open spec fn spec_quorum(&self) -> int {
        self.n - self.t
    }

    pub fn quorum(&self) -> (r: usize)
        requires
            self.valid(),
        ensures
            r == self.spec_quorum(),
    {
        self.n - self.t
    }

    /// `t + 1`: the amplification threshold.
    pub open spec fn spec_low(&self) -> int {
        self.t + 1
    }

    pub fn low(&self) -> (r: usize)
        requires
            self.valid(),
        ensures
            r == self.spec_low(),
    {
        self.t + 1
    }
}

} // verus!
