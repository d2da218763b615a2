use crazyflie_link::Packet;
use crazyflie_link::link::{
    link_timed_out, safelink_accepted, safelink_request, ConnectionFlags, RadioLink,
    EMPTY_PACKET_BEFORE_RELAX,
};

fn all_flags() -> ConnectionFlags {
    ConnectionFlags::safelink().union(ConnectionFlags::ackfilter())
}

#[test]
fn flags_bits() {
    assert_eq!(ConnectionFlags::empty().bits(), 0);
    assert_eq!(ConnectionFlags::safelink().bits(), 1);
    assert_eq!(ConnectionFlags::ackfilter().bits(), 2);
    let mut f = all_flags();
    assert_eq!(f.bits(), 3);
    assert!(f.contains(ConnectionFlags::safelink()));
    f.remove(ConnectionFlags::safelink());
    assert!(!f.contains(ConnectionFlags::safelink()));
    assert!(f.contains(ConnectionFlags::ackfilter()));
    assert!(!f.use_safelink());
    f.insert(ConnectionFlags::safelink());
    assert!(f.use_safelink());
}

#[test]
fn handshake() {
    assert_eq!(safelink_request(), vec![0xff, 0x05, 0x01]);
    assert!(safelink_accepted(true, &[0xff, 0x05, 0x01]));
    assert!(!safelink_accepted(false, &[0xff, 0x05, 0x01]));
    assert!(!safelink_accepted(true, &[0xff, 0x05]));
    assert!(!safelink_accepted(true, &[0xff, 0x05, 0x01, 0x00]));
}

#[test]
fn timeout() {
    assert!(!link_timed_out(999));
    assert!(link_timed_out(1000));
}

#[test]
fn safe_packets_carry_counters() {
    let mut link = RadioLink::new(all_flags(), true);
    // First packet: both counters at zero, bits 2 and 3 cleared.
    let out = link.next_packet(Some(vec![0xFF, 1]));
    assert_eq!(out, vec![0xF3, 1]);
    // Acknowledged with a fresh payload (bit 2 = down counter 0).
    let outcome = link.on_ack(true, vec![0x30, 9]);
    assert!(outcome.acked);
    assert_eq!(outcome.delivered, Some(vec![0x30, 9]));
    // Next packet: up counter 1, down counter 1.
    let out = link.next_packet(Some(vec![0xF0, 2]));
    assert_eq!(out, vec![0xF0 | 0x08 | 0x04, 2]);
}

#[test]
fn repeated_ack_is_dropped() {
    let mut link = RadioLink::new(all_flags(), true);
    link.next_packet(None);
    let first = link.on_ack(true, vec![0x30, 9]);
    assert_eq!(first.delivered, Some(vec![0x30, 9]));
    link.next_packet(None);
    // Same payload again: its bit 2 no longer matches the down counter.
    let second = link.on_ack(true, vec![0x30, 9]);
    assert!(second.acked);
    assert_eq!(second.delivered, None);
}

#[test]
fn lost_packet_is_resent() {
    let mut link = RadioLink::new(all_flags(), false);
    let out = link.next_packet(Some(vec![0x30, 5]));
    assert_eq!(out, vec![0x30, 5]);
    let outcome = link.on_ack(false, vec![]);
    assert!(!outcome.acked);
    assert!(!link.needs_uplink_packet());
    // The uplink is not consulted while resending.
    let out = link.next_packet(Some(vec![0x30, 6]));
    assert_eq!(out, vec![0x30, 5]);
    link.on_ack(true, vec![]);
    assert!(link.needs_uplink_packet());
    assert_eq!(link.next_packet(None), vec![0xff]);
}

#[test]
fn empty_ack_filtering() {
    let mut filtered = RadioLink::new(ConnectionFlags::ackfilter(), false);
    filtered.next_packet(None);
    assert_eq!(filtered.on_ack(true, vec![]).delivered, None);

    let mut unfiltered = RadioLink::new(ConnectionFlags::empty(), false);
    unfiltered.next_packet(None);
    assert_eq!(unfiltered.on_ack(true, vec![]).delivered, Some(vec![0xFF]));
}

#[test]
fn preprocess_under_safelink() {
    let link = RadioLink::new(all_flags(), true);
    let mut empty_header = vec![0xF3];
    assert!(!link.preprocess_ack(&mut empty_header, true));
    let mut payload = vec![0x3C, 1];
    assert!(link.preprocess_ack(&mut payload, true));
    assert_eq!(payload, vec![0x30, 1]);
    let mut nothing: Vec<u8> = vec![];
    assert!(!link.preprocess_ack(&mut nothing, true));
}

#[test]
fn empty_acks_counted_until_relax() {
    let mut link = RadioLink::new(all_flags(), false);
    for _ in 0..(EMPTY_PACKET_BEFORE_RELAX + 5) {
        link.next_packet(None);
        let outcome = link.on_ack(true, vec![]);
        assert!(outcome.acked);
        assert_eq!(outcome.delivered, None);
    }
}

#[test]
fn send_packet_safe_stamps_header() {
    let link = RadioLink::new(all_flags(), true);
    assert_eq!(link.send_packet_safe(vec![0xFF, 1, 2]), vec![0xF3, 1, 2]);
}

#[test]
fn stamped_packet_keeps_port_and_channel() {
    let mut link = RadioLink::new(all_flags(), true);
    let original = Packet::new(0x7, 2, vec![4, 5]);
    let out = link.next_packet(Some(original.to_vec()));
    // Both counters are zero: the legacy bits are cleared on the air.
    assert_eq!(out, vec![0x72, 4, 5]);
    let read = Packet::from(out);
    assert_eq!(read.get_port(), 7);
    assert_eq!(read.get_channel(), 2);
    assert_eq!(read.get_data(), &vec![4, 5]);
}

#[test]
fn handed_payload_reads_as_same_packet() {
    let link = RadioLink::new(all_flags(), true);
    let mut payload = vec![0x5E, 9];
    assert!(link.preprocess_ack(&mut payload, true));
    let read = Packet::from(payload);
    assert_eq!((read.get_port(), read.get_channel()), (5, 2));
}
