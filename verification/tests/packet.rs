use crazyflie_link::{ConnectionStatus, Packet};

#[test]
fn new_keeps_fields() {
    let p = Packet::new(0xF, 2, vec![1, 2, 3]);
    assert_eq!(p.get_port(), 0xF);
    assert_eq!(p.get_channel(), 2);
    assert_eq!(p.get_data(), &vec![1, 2, 3]);
}

#[test]
fn header_is_pppp11cc() {
    assert_eq!(Packet::new(0xF, 0, vec![]).get_header(), 0xFC);
    assert_eq!(Packet::new(0x0, 0, vec![]).get_header(), 0x0C);
    assert_eq!(Packet::new(0x3, 1, vec![]).get_header(), 0x3D);
    assert_eq!(Packet::new(0xF, 3, vec![]).get_header(), 0xFF);
}

#[test]
fn header_masks_out_of_range_fields() {
    // Only the low four bits of the port and the low two of the channel go on the wire.
    assert_eq!(Packet::new(0x1F, 0x07, vec![]).get_header(), 0xFF);
    assert_eq!(Packet::new(0x10, 0x04, vec![]).get_header(), 0x0C);
}

#[test]
fn new_from_header_reads_port_and_channel() {
    let p = Packet::new_from_header(0xF3);
    assert_eq!(p.get_port(), 0xF);
    assert_eq!(p.get_channel(), 3);
    assert!(p.get_data().is_empty());
    // The header of that packet is the byte with the legacy bits set.
    assert_eq!(p.get_header(), 0xF3 | 0x0C);
}

#[test]
fn from_wire_bytes() {
    let p = Packet::from(vec![0x5E, 10, 20]);
    assert_eq!(p.get_port(), 5);
    assert_eq!(p.get_channel(), 2);
    assert_eq!(p.get_data(), &vec![10, 20]);
}

#[test]
fn to_vec_is_header_then_data() {
    let p = Packet::new(0x2, 1, vec![0xAA, 0xBB]);
    assert_eq!(p.to_vec(), vec![0x2D, 0xAA, 0xBB]);
}

#[test]
fn wire_roundtrip() {
    for port in 0..16u8 {
        for channel in 0..4u8 {
            let p = Packet::new(port, channel, vec![port, channel, 7]);
            let q = Packet::from(p.to_vec());
            assert_eq!(q.get_port(), port);
            assert_eq!(q.get_channel(), channel);
            assert_eq!(q.get_data(), &vec![port, channel, 7]);
        }
    }
}

#[test]
fn wire_reencode_needs_legacy_bits() {
    assert_eq!(Packet::from(vec![0xFC, 1]).to_vec(), vec![0xFC, 1]);
    // Without the legacy bits the re-encoded header differs.
    assert_eq!(Packet::from(vec![0xF0, 1]).to_vec(), vec![0xFC, 1]);
}

#[test]
fn append_data_moves_bytes() {
    let mut p = Packet::new(1, 0, vec![1]);
    let mut more = vec![2, 3];
    p.append_data(&mut more);
    assert_eq!(p.get_data(), &vec![1, 2, 3]);
    assert!(more.is_empty());
    assert_eq!(p.to_vec(), vec![0x1C, 1, 2, 3]);
}

#[test]
fn packet_text() {
    let p = Packet::new(15, 0, vec![1, 2]);
    assert_eq!(p.to_string(), "(ch: 0, port: 15, data: 1)");
    let q = Packet::new(255, 123, vec![200]);
    assert_eq!(q.to_string(), "(ch: 123, port: 255, data: 200)");
}

#[test]
fn close_reason_of_status() {
    let closed = ConnectionStatus::Disconnected("Connection timeout".to_string());
    assert_eq!(closed.close_reason(), "Connection timeout");
    assert_eq!(ConnectionStatus::Connected.close_reason(), "Still connected!");
    assert_eq!(ConnectionStatus::Connecting.close_reason(), "Still connected!");
}
