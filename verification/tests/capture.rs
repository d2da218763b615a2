use crazyflie_link::capture::{capture_header, CAPTURE_HEADER_LEN, DIRECTION_RX, LINK_TYPE_RADIO};
use crazyflie_link::text::{parse_decimal, push_decimal, str_eq};
use crazyflie_link::usb::{is_crazyflie_device, received_usb_packet};

#[test]
fn capture_header_layout() {
    let h = capture_header(
        LINK_TYPE_RADIO,
        DIRECTION_RX,
        &[0xE7; 5],
        80,
        "serial",
        0x0102030405060708,
        &[1, 2, 3],
    );
    assert_eq!(h.len(), CAPTURE_HEADER_LEN);
    assert_eq!(h[0], 1);
    assert_eq!(h[1], 1);
    assert_eq!(&h[2..7], &[0xE7; 5]);
    assert_eq!(&h[7..14], &[0; 7]);
    assert_eq!(h[14], 80);
    assert_eq!(&h[15..21], b"serial");
    assert_eq!(&h[21..31], &[0; 10]);
    assert_eq!(&h[31..39], &[8, 7, 6, 5, 4, 3, 2, 1]);
    assert_eq!(&h[39..41], &[3, 0]);
}

#[test]
fn capture_header_truncates() {
    let long_address = [9u8; 20];
    let long_serial = "0123456789abcdefXYZ";
    let data = vec![0u8; 70000];
    let h = capture_header(2, 0, &long_address, 0, long_serial, 0, &data);
    assert_eq!(&h[2..14], &[9; 12]);
    assert_eq!(&h[15..31], b"0123456789abcdef");
    assert_eq!(&h[39..41], &((70000 % 65536) as u16).to_le_bytes());
}

#[test]
fn decimal_text() {
    let mut s = String::from("x=");
    push_decimal(&mut s, 0);
    assert_eq!(s, "x=0");
    let mut s = String::new();
    push_decimal(&mut s, 18446744073709551615);
    assert_eq!(s, "18446744073709551615");
}

#[test]
fn decimal_parse() {
    assert_eq!(parse_decimal("125", 255), Some(125));
    assert_eq!(parse_decimal("+7", 255), Some(7));
    assert_eq!(parse_decimal("007", 255), Some(7));
    assert_eq!(parse_decimal("256", 255), None);
    assert_eq!(parse_decimal("", 255), None);
    assert_eq!(parse_decimal("+", 255), None);
    assert_eq!(parse_decimal("-1", 255), None);
    assert_eq!(parse_decimal(" 1", 255), None);
    assert_eq!(parse_decimal("18446744073709551615", u64::MAX), Some(u64::MAX));
    assert_eq!(parse_decimal("18446744073709551616", u64::MAX), None);
    // The same as std's parsing.
    for s in ["0", "255", "256", "+1", "-0", "1a", "99999999999999999999"] {
        assert_eq!(parse_decimal(s, 255).map(|v| v as u8), s.parse::<u8>().ok());
    }
}

#[test]
fn text_equality() {
    assert!(str_eq("radio", "radio"));
    assert!(!str_eq("radio", "Radio"));
    assert!(!str_eq("radio", "radios"));
}

#[test]
fn usb_device_and_packets() {
    assert!(is_crazyflie_device(0x0483, 0x5740));
    assert!(!is_crazyflie_device(0x0483, 0x5741));
    let buf = [1u8, 2, 3, 4];
    assert_eq!(received_usb_packet(&buf, 0), None);
    assert_eq!(received_usb_packet(&buf, 2), Some(vec![1, 2]));
}
