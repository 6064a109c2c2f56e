//! The byte codecs against the reference serializer and the std encodings.

use acs_core::codec::{RbcInterface, push_le8, push_be8, push_u64_list, read_u64_list_exact, read_be8};

#[test]
fn interface_encode_decode_identity() {
    let iface = RbcInterface { id: 3, msg: vec![9, 8, 7, 6, 5] };
    let bytes = iface.encode();
    let back = RbcInterface::decode(&bytes).expect("well-formed frame");
    assert_eq!(back.id, 3);
    assert_eq!(back.msg, vec![9, 8, 7, 6, 5]);
}

#[test]
fn interface_empty_payload_round_trip() {
    let iface = RbcInterface { id: 1, msg: Vec::new() };
    let bytes = iface.encode();
    let back = RbcInterface::decode(&bytes).expect("well-formed frame");
    assert_eq!(back.id, 1);
    assert!(back.msg.is_empty());
}

#[test]
fn interface_matches_reference_serializer() {
    // the interface record serializes exactly as the reference serializer
    // writes the corresponding (id, msg) record
    let msg: Vec<u8> = vec![1, 2, 3, 4];
    let iface = RbcInterface { id: 2, msg: msg.clone() };
    let ours = iface.encode();
    let reference = bincode::serialize(&(2u64, msg)).unwrap();
    assert_eq!(ours, reference);
}

#[test]
fn u64_list_matches_reference_serializer() {
    let xs: Vec<u64> = vec![0, 1, 2, 7];
    let mut ours: Vec<u8> = Vec::new();
    push_u64_list(&mut ours, &xs);
    let reference = bincode::serialize(&xs).unwrap();
    assert_eq!(ours, reference);
}

#[test]
fn u64_list_read_back() {
    let xs: Vec<u64> = vec![5, 6, 7];
    let mut bytes: Vec<u8> = Vec::new();
    push_u64_list(&mut bytes, &xs);
    let back = read_u64_list_exact(&bytes, 0).expect("well-formed list");
    assert_eq!(back, xs);
}

#[test]
fn le8_matches_std() {
    let mut ours: Vec<u8> = Vec::new();
    push_le8(&mut ours, 0x0102_0304_0506_0708);
    assert_eq!(ours, 0x0102_0304_0506_0708u64.to_le_bytes().to_vec());
}

#[test]
fn be8_matches_std() {
    let mut ours: Vec<u8> = Vec::new();
    push_be8(&mut ours, 0xdead_beef_0102_0304);
    assert_eq!(ours, 0xdead_beef_0102_0304u64.to_be_bytes().to_vec());
    let back = read_be8(&ours, 0);
    assert_eq!(back, 0xdead_beef_0102_0304);
}

#[test]
fn malformed_frames_are_rejected() {
    // too short for the two header words
    assert!(RbcInterface::decode(&vec![0u8; 15]).is_none());
    // length word does not match the remainder
    let iface = RbcInterface { id: 1, msg: vec![1, 2, 3] };
    let mut bytes = iface.encode();
    bytes.push(0);
    assert!(RbcInterface::decode(&bytes).is_none());
}
