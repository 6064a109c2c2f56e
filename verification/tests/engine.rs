//! The whole engine, driven through the happy path with the smallest valid
//! parameters, with one silent party, under equivocation floods, and with
//! duplicated deliveries.

use acs_core::Params;
use acs_core::acs::AcsState;
use acs_core::codec::{RbcInterface, push_u64_list, push_be8};
use acs_core::vaba::AcsAction;

fn params4() -> Params {
    Params { n: 4, t: 1 }
}

fn fe_bytes(v: u8) -> Vec<u8> {
    let mut b = vec![0u8; 32];
    b[31] = v;
    b
}

fn l2_frame(list: &[u64]) -> Vec<u8> {
    let mut msg: Vec<u8> = Vec::new();
    push_u64_list(&mut msg, &list.to_vec());
    RbcInterface { id: 2, msg }.encode()
}

fn vote_frame(endorsed: u64) -> Vec<u8> {
    let mut msg: Vec<u8> = Vec::new();
    push_be8(&mut msg, endorsed);
    RbcInterface { id: 4, msg }.encode()
}

/// Runs party 0 through a full execution in which party 3 stays silent:
/// the happy path over `{0, 1, 2}`. Returns the state, the emitted
/// output, and the envelopes that can be replayed.
fn run_happy_path() -> (AcsState, Vec<usize>, Vec<Vec<u8>>) {
    let params = params4();
    let mut st = AcsState::new(params, 0);
    let mut envelopes: Vec<Vec<u8>> = Vec::new();

    // proposal sharings of parties 0..2 terminate: the level-one quorum
    for p in 0..3usize {
        let acts = st.process_termination_event(p);
        if p == 2 {
            assert!(acts.iter().any(|a| matches!(a, AcsAction::RbcSend { .. })));
        }
    }
    // level-two lists from the three live parties
    for p in 0..3usize {
        let frame = l2_frame(&[0, 1, 2]);
        envelopes.push(frame.clone());
        st.process_ctrbc_event(p, &frame);
    }
    assert!(st.vaba_started);
    assert!(st.accepted_witnesses.count() >= 3);

    // two key sharings terminate: the own PRE-broadcast goes out
    let mut pre_frame: Option<Vec<u8>> = None;
    for dealer in 0..2usize {
        for a in st.process_asks_termination(1, dealer) {
            if let AcsAction::RbcSend { payload } = a {
                pre_frame = Some(payload);
            }
        }
    }
    let pre_frame = pre_frame.expect("the second sharing releases the PRE-broadcast");

    // the three live parties agree on that PRE-broadcast content
    for p in 0..3usize {
        envelopes.push(pre_frame.clone());
        st.process_ctrbc_event(p, &pre_frame);
    }
    // their reliable agreements terminate; gather round one starts
    let mut gather1: Option<Vec<usize>> = None;
    for p in 0..3usize {
        for a in st.process_ra_termination(1, p, 1) {
            if let AcsAction::GatherEcho { indices, .. } = a {
                gather1 = Some(indices);
            }
        }
    }
    let gather1 = gather1.expect("a quorum of agreements starts gather");
    assert_eq!(gather1, vec![0, 1, 2]);

    // first-round gather echoes from the live parties
    let mut gather2: Option<Vec<usize>> = None;
    for p in 0..3usize {
        for a in st.process_gather_echo(1, p, gather1.clone()) {
            if let AcsAction::GatherEcho2 { indices, .. } = a {
                gather2 = Some(indices);
            }
        }
    }
    let gather2 = gather2.expect("a quorum of first-round echoes starts round two");
    assert_eq!(gather2, vec![0, 1, 2]);

    // second-round gather echoes: reconstruction of the sharings begins
    let mut recon_dealers: Vec<usize> = Vec::new();
    for p in 0..3usize {
        for a in st.process_gather_echo2(1, p, gather2.clone()) {
            if let AcsAction::AsksReconstruct { dealer, .. } = a {
                recon_dealers.push(dealer);
            }
        }
    }
    assert_eq!(recon_dealers, vec![0, 1]);

    // the two sharings reconstruct: the ranks complete, the leader is the
    // lowest party on the tie, and the vote goes out
    let mut vote_payload: Option<Vec<u8>> = None;
    for dealer in 0..2usize {
        for a in st.process_asks_reconstruction_result(1, dealer, fe_bytes(5)) {
            if let AcsAction::RbcSend { payload } = a {
                vote_payload = Some(payload);
            }
        }
    }
    let vote_payload = vote_payload.expect("complete ranks elect and vote");
    assert_eq!(st.vaba.elected_leader, Some(0));
    assert_eq!(vote_payload, vote_frame(0));

    // matching votes from the quorum: the termination gadget starts
    let mut gadget = false;
    for p in 0..3usize {
        envelopes.push(vote_payload.clone());
        for a in st.process_ctrbc_event(p, &vote_payload) {
            if let AcsAction::RaStart { rep, value, .. } = a {
                assert_eq!(rep, 4);
                assert_eq!(value, 0);
                gadget = true;
            }
        }
    }
    assert!(gadget);

    // the gadget's agreement terminates: the subset is emitted
    let mut output: Option<Vec<usize>> = None;
    for a in st.process_ra_termination(1, 4, 0) {
        if let AcsAction::Output { subset } = a {
            output = Some(subset);
        }
    }
    let output = output.expect("the gadget emits the agreed subset");
    (st, output, envelopes)
}

#[test]
fn happy_path_emits_the_common_subset() {
    let (st, output, _) = run_happy_path();
    assert_eq!(output, vec![0, 1, 2]);
    // validity: at least n - t members
    assert!(output.len() >= 3);
    assert_eq!(st.output, Some(vec![0, 1, 2]));
}

#[test]
fn output_is_emitted_exactly_once() {
    let (mut st, _, _) = run_happy_path();
    // the gadget's termination replayed: no second output
    let acts = st.process_ra_termination(1, 4, 0);
    assert!(acts.iter().all(|a| !matches!(a, AcsAction::Output { .. })));
    assert_eq!(st.output, Some(vec![0, 1, 2]));
}

#[test]
fn replayed_envelopes_change_nothing() {
    let (mut st, _, envelopes) = run_happy_path();
    let witnesses_before = st.accepted_witnesses.count();
    let leader_before = st.vaba.elected_leader;
    for (i, frame) in envelopes.iter().enumerate() {
        let acts = st.process_ctrbc_event(i % 3, frame);
        assert!(acts.iter().all(|a| !matches!(a, AcsAction::Output { .. })));
    }
    assert_eq!(st.accepted_witnesses.count(), witnesses_before);
    assert_eq!(st.vaba.elected_leader, leader_before);
    assert_eq!(st.output, Some(vec![0, 1, 2]));
}

#[test]
fn two_parties_with_the_same_view_agree() {
    // the deliveries reach two parties in the same global execution: both
    // emit the same subset
    let (_, out1, _) = run_happy_path();
    let (_, out2, _) = run_happy_path();
    assert_eq!(out1, out2);
}

#[test]
fn equivocating_pre_broadcast_flood_is_harmless() {
    let params = params4();
    let mut st = AcsState::new(params, 0);
    for p in 0..3usize {
        st.process_termination_event(p);
    }
    for p in 0..3usize {
        let frame = l2_frame(&[0, 1, 2]);
        st.process_ctrbc_event(p, &frame);
    }
    let before = st.accepted_witnesses.count();
    assert!(before >= 3);
    // the faulty party floods with equivocating level-two lists
    for k in 0..10u64 {
        let frame = l2_frame(&[k % 2, 2, 3]);
        st.process_ctrbc_event(3, &frame);
    }
    // the honest witness tally is untouched
    assert!(st.accepted_witnesses.count() >= before);
}

#[test]
fn short_witness_lists_are_rejected() {
    // a list below the quorum cannot enter the level-two table, so no
    // emitted subset can be shorter than n - t
    let params = params4();
    let mut st = AcsState::new(params, 0);
    for p in 0..3usize {
        st.process_termination_event(p);
    }
    let frame = l2_frame(&[1]);
    st.process_ctrbc_event(2, &frame);
    assert!(!st.re_broadcast_messages.has(2));
    // and so is one that is not strictly increasing
    let frame2 = l2_frame(&[0, 0, 1]);
    st.process_ctrbc_event(2, &frame2);
    assert!(!st.re_broadcast_messages.has(2));
}

#[test]
fn malformed_frames_are_ignored_by_the_engine() {
    let params = params4();
    let mut st = AcsState::new(params, 0);
    let acts = st.process_ctrbc_event(1, &vec![1u8, 2, 3]);
    assert!(acts.is_empty());
}

fn pre_frame(pre: u64, dealers: &[u64]) -> Vec<u8> {
    let mut msg: Vec<u8> = Vec::new();
    acs_core::codec::push_le8(&mut msg, pre);
    push_u64_list(&mut msg, &dealers.to_vec());
    acs_core::codec::push_pair_list(&mut msg, &Vec::new());
    RbcInterface { id: 3, msg }.encode()
}

#[test]
fn permuted_deliveries_reach_the_same_subset() {
    // the same envelopes as the happy path, delivered in a different
    // order: PRE-broadcasts arrive before any witness is accepted and wait
    // in the unvalidated table until their dependencies clear
    let params = params4();
    let mut st = AcsState::new(params, 0);

    // PRE-broadcasts first: witness 0 not yet accepted, dealers 0 and 1
    // not yet terminated
    let pre = pre_frame(0, &[0, 1]);
    for p in 0..3usize {
        st.process_ctrbc_event(p, &pre);
    }
    assert_eq!(st.vaba.validated.count(), 0);

    // the level-one and level-two broadcasts clear the witness dependency
    for p in 0..3usize {
        st.process_termination_event(p);
    }
    for p in 0..3usize {
        let frame = l2_frame(&[0, 1, 2]);
        st.process_ctrbc_event(p, &frame);
    }
    // the sharings clear the dealer dependency: the votes promote
    for dealer in 0..2usize {
        st.process_asks_termination(1, dealer);
    }
    assert_eq!(st.vaba.validated.count(), 3);

    // the rest in the usual order
    let mut gather1: Option<Vec<usize>> = None;
    for p in 0..3usize {
        for a in st.process_ra_termination(1, p, 1) {
            if let AcsAction::GatherEcho { indices, .. } = a {
                gather1 = Some(indices);
            }
        }
    }
    let gather1 = gather1.expect("gather starts after the agreements");
    let mut gather2: Option<Vec<usize>> = None;
    for p in 0..3usize {
        for a in st.process_gather_echo(1, p, gather1.clone()) {
            if let AcsAction::GatherEcho2 { indices, .. } = a {
                gather2 = Some(indices);
            }
        }
    }
    let gather2 = gather2.expect("round two starts after round one");
    for p in 0..3usize {
        st.process_gather_echo2(1, p, gather2.clone());
    }
    let mut vote_payload: Option<Vec<u8>> = None;
    for dealer in 0..2usize {
        for a in st.process_asks_reconstruction_result(1, dealer, fe_bytes(5)) {
            if let AcsAction::RbcSend { payload } = a {
                vote_payload = Some(payload);
            }
        }
    }
    let vote_payload = vote_payload.expect("the ranks complete");
    for p in 0..3usize {
        st.process_ctrbc_event(p, &vote_payload);
    }
    let mut output: Option<Vec<usize>> = None;
    for a in st.process_ra_termination(1, 4, 0) {
        if let AcsAction::Output { subset } = a {
            output = Some(subset);
        }
    }
    // the permutation did not change the agreed subset
    assert_eq!(output, Some(vec![0, 1, 2]));
}
