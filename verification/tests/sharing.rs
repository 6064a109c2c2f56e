//! The key-sharing machine: dealing, the root broadcast, reconstruction,
//! and the zero substitution on dealer equivocation.

use acs_core::Params;
use acs_core::asks::{AsksAction, AsksState, make_shares};
use acs_core::field::{fe_sum, fe_zero, fe_greater};

fn params4() -> Params {
    Params { n: 4, t: 1 }
}

fn fe_bytes(v: u8) -> Vec<u8> {
    let mut b = vec![0u8; 32];
    b[31] = v;
    b
}

#[test]
fn field_sum_of_small_encodings() {
    // 1 + 2 = 3 in the field, on canonical encodings
    let xs = vec![fe_bytes(1), fe_bytes(2)];
    let s = fe_sum(&xs);
    assert_eq!(s, fe_bytes(3));
}

#[test]
fn field_comparison_is_numeric() {
    assert!(fe_greater(&fe_bytes(5), &fe_bytes(3)));
    assert!(!fe_greater(&fe_bytes(3), &fe_bytes(5)));
    assert!(!fe_greater(&fe_bytes(4), &fe_bytes(4)));
    assert!(fe_greater(&fe_bytes(1), &fe_zero()));
}

/// Settles the sharing on `root` by a quorum of echoes.
fn settle_root(st: &mut AsksState, params: &Params, root: &Vec<u8>) {
    for sender in 0..3usize {
        st.on_echo(params, 7, sender, root.clone());
    }
    assert!(st.root.is_some());
}

#[test]
fn share_and_reconstruct_round_trip() {
    // dealing: secret 42, one random-looking coefficient (degree t = 1)
    let params = params4();
    let coeffs = vec![fe_bytes(42), fe_bytes(17)];
    let shares = make_shares(&params, &coeffs);
    let nonce_coeffs = vec![fe_bytes(9), fe_bytes(4)];
    let nonces = make_shares(&params, &nonce_coeffs);
    assert_eq!(shares.len(), 4);

    let root = fe_bytes(0xAA);
    let mut st = AsksState::new(&params, 0, true);
    settle_root(&mut st, &params, &root);

    // two shares (t + 1) reconstruct the secret
    let acts0 = st.on_reconstruct_share(&params, 7, 0, shares[0].clone(), nonces[0].clone(), root.clone());
    assert!(acts0.is_empty());
    let acts1 = st.on_reconstruct_share(&params, 7, 1, shares[1].clone(), nonces[1].clone(), root.clone());
    assert_eq!(acts1.len(), 1);
    match &acts1[0] {
        AsksAction::RecomputeRoot { shares: all_shares, nonces: all_nonces, .. } => {
            // the re-derived shares agree with the dealt ones
            assert_eq!(all_shares, &shares);
            assert_eq!(all_nonces, &nonces);
        },
        _ => panic!("expected the commitment re-check"),
    }

    // the crypto layer confirms the root: the secret comes out
    let fin = st.on_recomputed_root(&params, 7, root.clone());
    assert_eq!(fin.len(), 1);
    match &fin[0] {
        AsksAction::Reconstructed { secret, .. } => {
            assert_eq!(secret, &fe_bytes(42));
        },
        _ => panic!("expected the reconstruction result"),
    }
}

#[test]
fn equivocating_dealer_reconstructs_to_zero() {
    // the recomputed root does not match the settled one: zero comes out
    let params = params4();
    let coeffs = vec![fe_bytes(42), fe_bytes(17)];
    let shares = make_shares(&params, &coeffs);
    let nonces = make_shares(&params, &vec![fe_bytes(9), fe_bytes(4)]);

    let root = fe_bytes(0xAA);
    let mut st = AsksState::new(&params, 0, true);
    settle_root(&mut st, &params, &root);
    st.on_reconstruct_share(&params, 7, 0, shares[0].clone(), nonces[0].clone(), root.clone());
    st.on_reconstruct_share(&params, 7, 1, shares[1].clone(), nonces[1].clone(), root.clone());

    let other_root = fe_bytes(0xBB);
    let fin = st.on_recomputed_root(&params, 7, other_root);
    assert_eq!(fin.len(), 1);
    match &fin[0] {
        AsksAction::Reconstructed { secret, .. } => {
            assert_eq!(secret, &fe_zero());
        },
        _ => panic!("expected the reconstruction result"),
    }
    // and it is emitted exactly once
    let again = st.on_recomputed_root(&params, 7, root);
    assert!(again.is_empty());
}

#[test]
fn mismatched_claimed_root_is_dropped() {
    let params = params4();
    let root = fe_bytes(0xAA);
    let mut st = AsksState::new(&params, 7, true);
    settle_root(&mut st, &params, &root);
    let wrong = fe_bytes(0xCC);
    let acts = st.on_reconstruct_share(&params, 7, 0, fe_bytes(1), fe_bytes(2), wrong);
    assert!(acts.is_empty());
}

#[test]
fn sharing_terminates_on_ready_quorum() {
    let params = params4();
    let root = fe_bytes(0x55);
    let mut st = AsksState::new(&params, 3, true);
    let mut done = false;
    for sender in 0..3usize {
        let acts = st.on_ready(&params, 9, sender, root.clone());
        for a in acts {
            if let AsksAction::ShareTerminated { instance } = a {
                assert_eq!(instance, 9);
                done = true;
            }
        }
    }
    assert!(done);
    assert!(st.terminated);
    // later messages change nothing
    let acts = st.on_ready(&params, 9, 3, root);
    assert!(acts.is_empty());
}
