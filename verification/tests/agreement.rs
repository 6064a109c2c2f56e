//! Reliable agreement, binary agreement across rounds, and the
//! multi-valued termination gadget.

use acs_core::Params;
use acs_core::ra::{RaAction, RaState, replica_from_inst_id};
use acs_core::baa::{BaaAction, BaaInstance};
use acs_core::mvba::{MvbaAction, MvbaState, round_tag};

fn params4() -> Params {
    Params { n: 4, t: 1 }
}

fn fe_const(msb: u8, lsb: u8) -> Vec<u8> {
    let mut b = vec![0u8; 32];
    b[0] = msb;
    b[31] = lsb;
    b
}

#[test]
fn ra_delivers_on_ready_quorum() {
    let params = params4();
    let mut st = RaState::new(2);
    let acts = st.init(&params, 0, 1);
    assert!(matches!(acts[0], RaAction::Echo { value: 1 }));
    // echoes from the quorum send the ready
    let mut saw_ready = false;
    for sender in 1..3usize {
        for a in st.process_echo(&params, 1, sender) {
            if matches!(a, RaAction::Ready { value: 1 }) {
                saw_ready = true;
            }
        }
    }
    assert!(saw_ready);
    // readies from the quorum deliver
    let mut delivered = None;
    for sender in 0..3usize {
        for a in st.process_ready(&params, 1, sender) {
            if let RaAction::Deliver { value } = a {
                delivered = Some(value);
            }
        }
    }
    assert_eq!(delivered, Some(1));
    assert!(st.terminated);
}

#[test]
fn ra_duplicates_change_nothing() {
    let params = params4();
    let mut st = RaState::new(0);
    st.process_echo(&params, 1, 1);
    let before_count = st.echos.entries.len();
    // the same envelope again: no action, same tallies
    let acts = st.process_echo(&params, 1, 1);
    assert!(acts.is_empty());
    assert_eq!(st.echos.entries.len(), before_count);
}

#[test]
fn ra_amplifies_on_low_threshold() {
    let params = params4();
    let mut st = RaState::new(0);
    // two readies (t + 1) without a prior quorum of echoes: amplify
    let a1 = st.process_ready(&params, 7, 1);
    assert!(a1.is_empty());
    let a2 = st.process_ready(&params, 7, 2);
    assert!(matches!(a2[0], RaAction::Ready { value: 7 }));
}

#[test]
fn instance_id_split() {
    let (rep, inst) = replica_from_inst_id(10000, 30042);
    assert_eq!(rep, 3);
    assert_eq!(inst, 42);
}

/// Delivers the own broadcasts back to the instance, as the transport
/// loopback does, and records what came out.
struct BaaLog {
    coin_rounds: Vec<u64>,
    next_round_echo: Option<(u64, u64)>,
    decided: Option<u64>,
}

fn pump_baa(inst: &mut BaaInstance, params: &Params, acts: Vec<BaaAction>, log: &mut BaaLog) {
    let mut queue: Vec<BaaAction> = acts;
    while let Some(a) = queue.pop() {
        match a {
            BaaAction::Echo1 { value, round, .. } => {
                if round > 0 {
                    log.next_round_echo = Some((value, round));
                }
                queue.extend(inst.process_echo1(params, 0, 9, round, value, 0));
            },
            BaaAction::Echo2 { value, round, .. } => {
                queue.extend(inst.process_echo2(params, 0, 9, round, value, 0));
            },
            BaaAction::Echo3 { value, round, .. } => {
                queue.extend(inst.process_echo3(params, 0, 9, round, value, 0));
            },
            BaaAction::CoinShare { round, .. } => {
                log.coin_rounds.push(round);
            },
            BaaAction::Decide { value, .. } => {
                log.decided = Some(value);
            },
        }
    }
}

/// Drives one round of binary agreement at party 0, with every other
/// party echoing `value` at all three levels.
fn drive_baa_round(
    inst: &mut BaaInstance,
    params: &Params,
    round: u64,
    value: u64,
    log: &mut BaaLog,
) {
    for sender in 1..4usize {
        let acts = inst.process_echo1(params, 0, 9, round, value, sender);
        pump_baa(inst, params, acts, log);
    }
    for sender in 1..3usize {
        let acts = inst.process_echo2(params, 0, 9, round, value, sender);
        pump_baa(inst, params, acts, log);
    }
    for sender in 1..3usize {
        let acts = inst.process_echo3(params, 0, 9, round, value, sender);
        pump_baa(inst, params, acts, log);
    }
}

#[test]
fn baa_advances_on_disagreeing_coin_and_decides_next_round() {
    let params = params4();
    // round 0's coin is odd (leading byte 1): it disagrees with the
    // witnessed value 2; round 1's coin is even and confirms it
    let odd = fe_const(1, 0);
    let even = fe_const(0, 5);
    let mut inst = BaaInstance::new(vec![odd.clone(), even.clone()]);
    let mut log = BaaLog { coin_rounds: Vec::new(), next_round_echo: None, decided: None };

    drive_baa_round(&mut inst, &params, 0, 2, &mut log);
    assert!(log.coin_rounds.contains(&0));
    // a peer's share completes t + 1: the coin reconstructs odd, the
    // protocol advances to round 1 carrying the witnessed value
    let acts = inst.process_coin_share(&params, 0, 9, 0, odd.clone(), 1);
    pump_baa(&mut inst, &params, acts, &mut log);
    assert_eq!(log.next_round_echo, Some((2, 1)));
    assert!(!inst.decided);

    drive_baa_round(&mut inst, &params, 1, 2, &mut log);
    assert!(log.coin_rounds.contains(&1));
    let acts = inst.process_coin_share(&params, 0, 9, 1, even.clone(), 1);
    pump_baa(&mut inst, &params, acts, &mut log);
    assert_eq!(log.decided, Some(2));
    assert!(inst.decided);

    // nothing more comes out after the decision
    let after = inst.process_echo1(&params, 0, 9, 1, 2, 3);
    assert!(after.is_empty());
}

#[test]
fn baa_drops_malformed_values() {
    let params = params4();
    let mut inst = BaaInstance::new(vec![fe_const(0, 1)]);
    let acts = inst.process_echo1(&params, 0, 9, 0, 77, 1);
    assert!(acts.is_empty());
}

fn drive_mvba(seed_lsb: u8) -> (MvbaState, Vec<MvbaAction>) {
    let params = params4();
    let coin = fe_const(0, seed_lsb);
    let mut st = MvbaState::new(params, 0, vec![coin.clone(); 8]);
    let mut all: Vec<MvbaAction> = Vec::new();
    all.extend(st.start_round(3, 0, Some(10)));
    // level-one broadcasts of parties 0..3 terminate
    for p in 0..4usize {
        all.extend(st.process_l1_rbc_termination(3, 0, p, 10 + p as u64));
    }
    // level-two lists from a quorum
    for p in 0..4usize {
        all.extend(st.process_l2_rbc_termination(3, 0, p, vec![0, 1, 2]));
    }
    // witness messages from a quorum
    for p in 0..3usize {
        all.extend(st.process_incoming_l3_witness(3, 0, vec![0, 1, 2], p));
    }
    // the own broadcast loops back, then a peer's share completes t + 1
    all.extend(st.process_incoming_leader_coin(3, 0, coin.clone(), 0));
    all.extend(st.process_incoming_leader_coin(3, 0, coin.clone(), 1));
    (st, all)
}

#[test]
fn mvba_round_elects_and_outputs() {
    let (mut st, acts) = drive_mvba(9);
    // the coin released the verdict about the drawn leader
    let mut tag_decision = None;
    for a in &acts {
        if let MvbaAction::BaStart { tag, decision, .. } = a {
            tag_decision = Some((*tag, *decision));
        }
    }
    let (tag, decision) = tag_decision.expect("the coin must fire the verdict");
    assert_eq!(tag, round_tag(3, 0));
    // every party's level-two list was received, so the leader is approved
    assert_eq!(decision, 2);
    let fin = st.process_ba_termination(tag, decision);
    let mut output = None;
    for a in &fin {
        if let MvbaAction::Output { values, .. } = a {
            output = Some(values.clone());
        }
    }
    // the output is the leader's level-one values: 10 + party, over [0,1,2]
    assert_eq!(output, Some(vec![10, 11, 12]));
    assert!(st.output.is_some());
    // a replayed verdict emits no second output
    let again = st.process_ba_termination(tag, decision);
    assert!(again.iter().all(|a| !matches!(a, MvbaAction::Output { .. })));
}

#[test]
fn mvba_leader_draw_is_deterministic() {
    let (st1, _) = drive_mvba(9);
    let (st2, _) = drive_mvba(9);
    let l1 = st1.rounds.get(0).and_then(|r| r.leader);
    let l2 = st2.rounds.get(0).and_then(|r| r.leader);
    assert!(l1.is_some());
    assert_eq!(l1, l2);
    let l = l1.unwrap();
    assert!(l < 4);
}
