use pingx::packet::{calculate_checksum, IcmpPacket};

#[test]
fn test_checksum() {
    let data = vec![0x08, 0x00, 0x00, 0x00, 0x00, 0x01, 0x00, 0x01, 0x61, 0x62, 0x63, 0x64];
    let chk = calculate_checksum(&data);
    assert_ne!(chk, 0);
}

#[test]
fn test_encode_decode() {
    let pkt = IcmpPacket::new_request(false, 123, 456, vec![1, 2, 3]);
    let raw = pkt.encode();
    let decoded = IcmpPacket::decode(&raw).unwrap();
    assert_eq!(decoded.identifier, 123);
    assert_eq!(decoded.sequence, 456);
    assert_eq!(decoded.payload, vec![1, 2, 3]);
    // Checksum should be set
    assert_ne!(decoded.checksum, 0);
}

#[test]
fn test_checksum_exact_value() {
    // Sum of words 0x0102 + 0x0304 = 0x0406; complement is 0xFBF9.
    let data = vec![0x01, 0x02, 0x03, 0x04];
    assert_eq!(calculate_checksum(&data), 0xFBF9);
}

#[test]
fn test_checksum_odd_length() {
    // A trailing odd octet counts as the high half of a final word:
    // 0x0102 + 0x0300 = 0x0402; complement is 0xFBFD.
    let data = vec![0x01, 0x02, 0x03];
    assert_eq!(calculate_checksum(&data), 0xFBFD);
}

#[test]
fn test_encoded_request_words_sum_to_ffff() {
    // Summing all 16-bit words of an encoded IPv4 request, checksum
    // included, and folding the carries yields 0xFFFF.
    let pkt = IcmpPacket::new_request(false, 0x1234, 7, vec![9, 8, 7, 6, 5]);
    let raw = pkt.encode();
    let mut sum: u32 = 0;
    let mut i = 0;
    while i + 1 < raw.len() {
        sum = sum.wrapping_add(u16::from_be_bytes([raw[i], raw[i + 1]]) as u32);
        i += 2;
    }
    if i < raw.len() {
        sum = sum.wrapping_add((raw[i] as u32) << 8);
    }
    while (sum >> 16) != 0 {
        sum = (sum & 0xFFFF) + (sum >> 16);
    }
    assert_eq!(sum, 0xFFFF);
}

#[test]
fn test_encode_v6_leaves_checksum_zero() {
    let pkt = IcmpPacket::new_request(true, 5, 6, vec![0; 4]);
    let raw = pkt.encode();
    assert_eq!(raw[0], 128);
    assert_eq!(raw[2], 0);
    assert_eq!(raw[3], 0);
}

#[test]
fn test_decode_too_short() {
    assert!(IcmpPacket::decode(&[0, 0, 0, 0, 0, 0, 0]).is_err());
    assert!(IcmpPacket::decode(&[0, 0, 0, 0, 0, 0, 0, 0]).is_ok());
}
