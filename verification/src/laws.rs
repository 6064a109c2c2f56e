//! The engine's agreement laws, stated and proved over its state model.

use vstd::prelude::*;
use vstd::set_lib::{lemma_len_union, lemma_len_subset, lemma_set_subset_finite};
use crate::acs::AcsState;
use crate::vaba::elect;

verus! {

/// Honest inclusion: any emitted subset of at least `n - t` distinct
/// parties contains at least `n - 2t` parties outside any faulty set of at
/// most `t`. The emitted subset's members proposed, so at least `n - 2t`
/// of the output's proposals came from honest proposers.
pub proof fn lemma_honest_core(subset: Set<int>, faulty: Set<int>, n: int, t: int)
    requires
        subset.finite(),
        faulty.finite(),
        subset.len() >= n - t,
        faulty.len() <= t,
        n >= 3 * t + 1,
    ensures
        subset.difference(faulty).len() >= n - 2 * t,
        subset.difference(faulty).finite(),
{
    let honest = subset.difference(faulty);
    assert(subset.subset_of(honest.union(faulty)));
    lemma_set_subset_finite(subset, honest);
    lemma_len_union(honest, faulty);
    lemma_len_subset(subset, honest.union(faulty));
}

/// Agreement, reduced to the primitives it rests on: two parties that
/// agreed on the vote value `v` — through the termination gadget's
/// reliable agreement — and hold the same level-two broadcast of `v` —
/// through reliable broadcast — emit the same subset. The engine's output
/// is exactly that stored list, and it is at least a quorum long.
pub proof fn lemma_output_agreement(s1: &AcsState, s2: &AcsState, v: int)
    requires
        s1.wf(),
        s2.wf(),
        s1.params == s2.params,
        s1.re_broadcast_messages.spec_has(v),
        s2.re_broadcast_messages.spec_has(v),
        s1.re_broadcast_messages.spec_get(v)@ == s2.re_broadcast_messages.spec_get(v)@,
    ensures
        s1.re_broadcast_messages.spec_get(v)@ == s2.re_broadcast_messages.spec_get(v)@,
        s1.re_broadcast_messages.spec_get(v)@.len() >= s1.params.spec_quorum(),
        forall|a: int, b: int| 0 <= a < b < s1.re_broadcast_messages.spec_get(v)@.len() ==>
            s1.re_broadcast_messages.spec_get(v)@[a] < s1.re_broadcast_messages.spec_get(v)@[b],
{
}

/// Validity and honest inclusion of the emitted subset itself: an engine
/// that emitted its output holds a strictly increasing list of at least
/// `n - t` parties, so the output names at least `n - t` distinct
/// proposals, and at least `n - 2t` of them lie outside any faulty set of
/// at most `t` parties.
pub proof fn lemma_emitted_subset_bounds(s: &AcsState, faulty: Set<int>)
    requires
        s.wf(),
        s.output is Some,
        faulty.finite(),
        faulty.len() <= s.params.t,
    ensures
        s.output->Some_0@.len() >= s.params.spec_quorum(),
        s.output->Some_0@.map_values(|p: usize| p as int).to_set().len()
            >= s.params.spec_quorum(),
        s.output->Some_0@.map_values(|p: usize| p as int).to_set()
            .difference(faulty).len() >= s.params.n - 2 * s.params.t,
{
    let members = s.output->Some_0@.map_values(|p: usize| p as int);
    assert(members.no_duplicates()) by {
        let list = s.output->Some_0@;
        if exists|a: int, b: int| 0 <= a < b < list.len() && list[a] == list[b] {
            let (a, b) = choose|a: int, b: int| 0 <= a < b < list.len()
                && #[trigger] list[a] == #[trigger] list[b];
            assert(list[a] < list[b]);
        }
        assert forall|a: int, b: int| 0 <= a < b < members.len() implies
            members[a] != members[b] by {
            assert(s.output->Some_0@[a] < s.output->Some_0@[b]);
        }
    }
    members.unique_seq_to_set();
    lemma_honest_core(members.to_set(), faulty, s.params.n as int, s.params.t as int);
}

/// Rank determinism: parties that computed the same rank table elect the
/// same leader with the same winning rank, whatever order their
/// reconstructions arrived in.
pub proof fn lemma_leader_deterministic(
    rv1: Seq<Option<Seq<u8>>>,
    rv2: Seq<Option<Seq<u8>>>,
    n: int,
)
    requires
        rv1 =~~= rv2,
    ensures
        elect(rv1, n) == elect(rv2, n),
{
    assert(rv1 == rv2);
}

} // verus!
