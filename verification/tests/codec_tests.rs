use pinggraph::codec::{
    checksum, decode_echo_reply, encode_packet, folded_word_sum, verify_checksum, PACKET_LEN,
};

#[test]
fn checksum_of_single_word() {
    // One word 0x0102: the checksum is its one's complement.
    let data = vec![0x01u8, 0x02u8];
    assert_eq!(checksum(&data), 0xFEFD);
}

#[test]
fn checksum_pads_odd_trailing_byte() {
    // A lone byte counts as the high half of a word.
    let data = vec![0x01u8];
    assert_eq!(checksum(&data), 0xFEFF);
}

#[test]
fn checksum_folds_carries() {
    // 0xFFFF + 0xFFFF = 0x1FFFE folds to 0xFFFF, whose complement is 0.
    let data = vec![0xFFu8, 0xFFu8, 0xFFu8, 0xFFu8];
    assert_eq!(folded_word_sum(&data), 0xFFFF);
    assert_eq!(checksum(&data), 0x0000);
}

#[test]
fn checksum_of_empty_buffer() {
    let data: Vec<u8> = vec![];
    assert_eq!(folded_word_sum(&data), 0);
    assert_eq!(checksum(&data), 0xFFFF);
}

#[test]
fn verification_identity_holds_after_insertion() {
    // Compute the checksum over a buffer whose checksum slot is zero, put
    // it back in, and the folded word sum must verify to 0xFFFF.
    let zeroed = vec![0x12u8, 0x34u8, 0x00u8, 0x00u8, 0xABu8, 0xCDu8];
    let cs = checksum(&zeroed);
    let patched = vec![0x12u8, 0x34u8, (cs >> 8) as u8, (cs & 0xFF) as u8, 0xABu8, 0xCDu8];
    assert!(verify_checksum(&patched));
    // The unpatched buffer does not verify.
    assert!(!verify_checksum(&zeroed));
}

#[test]
fn packet_layout_and_checksum() {
    let p = encode_packet(7, 0x1234);
    assert_eq!(p.len(), PACKET_LEN);
    assert_eq!(p[0], 8); // echo request
    assert_eq!(p[1], 0); // code
    assert_eq!(p[4], 0x12);
    assert_eq!(p[5], 0x34);
    assert_eq!(p[6], 0x00);
    assert_eq!(p[7], 0x07);
    assert_eq!(&p[8..17], b"RustPing!");
    for b in &p[17..] {
        assert_eq!(*b, 0);
    }
    // The checksum field is filled and the whole datagram verifies.
    assert!(p[2] != 0 || p[3] != 0);
    assert!(verify_checksum(&p));
}

#[test]
fn decoding_an_echo_reply() {
    // Type 0, code 0, checksum, identifier 0x1234, sequence 7.
    let reply = vec![0u8, 0, 0xAB, 0xCD, 0x12, 0x34, 0x00, 0x07, 0x52];
    assert_eq!(decode_echo_reply(&reply), Some((0x1234, 7)));
}

#[test]
fn decoding_rejects_other_messages() {
    // An echo request (type 8) is not a reply.
    let request = encode_packet(7, 0x1234);
    assert_eq!(decode_echo_reply(&request), None);
    // A destination-unreachable message (type 3) is not a reply.
    let unreachable = vec![3u8, 0, 0, 0, 0, 0, 0, 0];
    assert_eq!(decode_echo_reply(&unreachable), None);
    // A truncated datagram is not a reply.
    let short = vec![0u8, 0, 0, 0];
    assert_eq!(decode_echo_reply(&short), None);
}

#[test]
fn packet_checksum_differs_per_sequence() {
    let a = encode_packet(0, 500);
    let b = encode_packet(1, 500);
    assert!(verify_checksum(&a));
    assert!(verify_checksum(&b));
    assert!((a[2], a[3]) != (b[2], b[3]));
}
