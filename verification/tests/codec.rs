//! Frame codec behaviour: round trips, checksum arithmetic, and the
//! errors decoding reports.

use xbee::packet::{calculate_checksum, Packet, PacketError};

fn sample_packet(dest: u32, payload: &[u8]) -> Packet {
    let mut sequence: u32 = 41;
    Packet::new(dest, payload, &mut sequence)
}

#[test]
fn checksum_matches_the_formula() {
    // 0 + 2 + 1 + length 1 + byte 'C' (67) = 71.
    assert_eq!(calculate_checksum(0, 2, 1, b"C"), 71);
}

#[test]
fn checksum_truncates_to_sixteen_bits() {
    // 0xffff_0000 + 0x0001_0000 wraps away entirely; only the low
    // sixteen bits of the sum survive.
    assert_eq!(calculate_checksum(0xffff_0000, 0x0001_0000, 0, b""), 0);
    assert_eq!(calculate_checksum(0xffff_ffff, 1, 0, b""), 0);
}

#[test]
fn checksum_is_order_insensitive() {
    // The additive sum cannot tell two payload orders apart.
    assert_eq!(
        calculate_checksum(7, 8, 9, b"AB"),
        calculate_checksum(7, 8, 9, b"BA")
    );
}

#[test]
fn encode_then_decode_returns_the_packet() {
    let packet = sample_packet(0x01020304, b"hello modem");
    let frame = packet.as_bytes();
    let decoded = Packet::from_data(&frame).expect("a valid frame must decode");
    assert_eq!(decoded.origin, packet.origin);
    assert_eq!(decoded.dest, packet.dest);
    assert_eq!(decoded.packet_id, packet.packet_id);
    assert_eq!(decoded.checksum, packet.checksum);
    assert_eq!(decoded.length, packet.length);
    assert_eq!(decoded.data, packet.data);
}

#[test]
fn encode_then_decode_with_empty_payload() {
    let packet = sample_packet(5, b"");
    let frame = packet.as_bytes();
    assert_eq!(frame.len(), 17);
    let decoded = Packet::from_data(&frame).expect("a valid empty frame must decode");
    assert_eq!(decoded.length, 0);
    assert_eq!(decoded.data, Vec::<u8>::new());
}

#[test]
fn encode_then_decode_with_largest_payload() {
    let payload = [0x55u8; 255];
    let packet = sample_packet(9, &payload);
    let frame = packet.as_bytes();
    assert_eq!(frame.len(), 17 + 255);
    let decoded = Packet::from_data(&frame).expect("the largest frame must decode");
    assert_eq!(decoded.length, 255);
    assert_eq!(decoded.data, payload.to_vec());
}

#[test]
fn frame_layout_is_sync_then_fields_little_endian() {
    let mut sequence: u32 = 0;
    let packet = Packet::new(0x0a0b0c0d, b"C", &mut sequence);
    let frame = packet.as_bytes();
    assert_eq!(frame[0], 0xa3);
    assert_eq!(frame[1], 0xff);
    assert_eq!(&frame[2..6], &[0, 0, 0, 0]);
    assert_eq!(&frame[6..10], &[0x0d, 0x0c, 0x0b, 0x0a]);
    assert_eq!(&frame[10..14], &[1, 0, 0, 0]);
    let checksum = (0x0a0b0c0du64 + 1 + 1 + 67) % 0x10000;
    assert_eq!(frame[14] as u64, checksum % 256);
    assert_eq!(frame[15] as u64, checksum / 256);
    assert_eq!(frame[16], 1);
    assert_eq!(&frame[17..], b"C");
}

#[test]
fn tampering_one_payload_byte_is_caught() {
    let packet = sample_packet(3, b"payload");
    let frame = packet.as_bytes();
    for i in 17..frame.len() {
        let mut tampered = frame.clone();
        tampered[i] = tampered[i].wrapping_add(1);
        match Packet::from_data(&tampered) {
            Err(PacketError::InvalidChecksum) => {}
            other => panic!("tampering byte {} gave {:?}", i, other),
        }
    }
}

#[test]
fn swapping_two_unequal_payload_bytes_is_not_caught() {
    // The additive checksum is order-insensitive, so a swap of two
    // different payload bytes still decodes; the payload comes back
    // swapped. This collision class is part of the wire format.
    let packet = sample_packet(3, b"AB");
    let mut frame = packet.as_bytes();
    frame.swap(17, 18);
    let decoded = Packet::from_data(&frame).expect("a swap preserves the sum");
    assert_eq!(decoded.data, b"BA".to_vec());
}

#[test]
fn decoding_fewer_than_thirteen_bytes_is_incomplete() {
    for len in 0..13usize {
        let raw = vec![0u8; len];
        match Packet::from_data(&raw) {
            Err(PacketError::IncompleteFrame) => {}
            other => panic!("{} bytes gave {:?}", len, other),
        }
    }
}

#[test]
fn decoding_a_truncated_frame_is_incomplete() {
    let packet = sample_packet(3, b"four");
    let frame = packet.as_bytes();
    for len in 0..frame.len() {
        match Packet::from_data(&frame[..len]) {
            Err(PacketError::IncompleteFrame) => {}
            other => panic!("{} of {} bytes gave {:?}", len, frame.len(), other),
        }
    }
}

#[test]
fn trailing_bytes_after_the_frame_are_ignored() {
    let packet = sample_packet(3, b"x");
    let mut frame = packet.as_bytes();
    frame.extend_from_slice(b"junk after the frame");
    let decoded = Packet::from_data(&frame).expect("trailing bytes are ignored");
    assert_eq!(decoded.data, b"x".to_vec());
}

#[test]
fn consecutive_packets_carry_strictly_increasing_ids() {
    let mut sequence: u32 = 0;
    let first = Packet::new(1, b"a", &mut sequence);
    let second = Packet::new(1, b"b", &mut sequence);
    let third = Packet::new(1, b"c", &mut sequence);
    assert_eq!(first.packet_id, 1);
    assert_eq!(second.packet_id, 2);
    assert_eq!(third.packet_id, 3);
    assert!(first.packet_id < second.packet_id);
    assert!(second.packet_id < third.packet_id);
}

#[test]
fn new_packets_are_valid_and_origin_zero() {
    let mut sequence: u32 = 7;
    let packet = Packet::new(0xdead, b"abc", &mut sequence);
    assert_eq!(sequence, 8);
    assert_eq!(packet.origin, 0);
    assert_eq!(packet.dest, 0xdead);
    assert_eq!(packet.packet_id, 8);
    assert_eq!(packet.length, 3);
    assert!(packet.is_valid());
}

#[test]
fn default_packet_is_all_zero_and_valid() {
    let packet = Packet::default();
    assert_eq!(packet.origin, 0);
    assert_eq!(packet.dest, 0);
    assert_eq!(packet.packet_id, 0);
    assert_eq!(packet.checksum, 0);
    assert_eq!(packet.length, 0);
    assert!(packet.data().is_empty());
    assert!(packet.is_valid());
}

#[test]
fn is_valid_spots_a_corrupted_checksum() {
    let mut packet = sample_packet(2, b"C");
    assert!(packet.is_valid());
    packet.checksum = packet.checksum.wrapping_add(1);
    assert!(!packet.is_valid());
}
