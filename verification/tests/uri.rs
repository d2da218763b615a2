use crazyflie_link::uri::{
    pad_address, parse_radio_uri, parse_radio_uri_parts, parse_usb_uri, parse_usb_uri_parts,
    radio_uri, scan_uris, selected_uri, target_of_this_kind, usb_uri, UrlParts,
};
use crazyflie_link::Error;

fn parts(scheme: &str, domain: Option<&str>, path: Option<Vec<&str>>, query: Vec<(&str, &str)>) -> UrlParts {
    UrlParts {
        scheme: scheme.to_string(),
        domain: domain.map(|d| d.to_string()),
        path: path.map(|p| p.iter().map(|s| s.to_string()).collect()),
        query: query.iter().map(|(k, v)| (k.to_string(), v.to_string())).collect(),
    }
}

#[test]
fn radio_uri_default_flags() {
    let (radio, channel, address, flags) = parse_radio_uri("radio://0/80/2M/E7E7E7E7E7").unwrap();
    assert_eq!(radio, 0);
    assert_eq!(channel, 80);
    assert_eq!(address, [0xE7; 5]);
    assert_eq!(flags.bits(), 3);
}

#[test]
fn radio_uri_options() {
    let (_, _, _, flags) = parse_radio_uri("radio://1/10/2M/E7E7E7E7E7?safelink=0").unwrap();
    assert_eq!(flags.bits(), 2);
    let (radio, _, _, flags) =
        parse_radio_uri("radio://1/10/2M/E7E7E7E7E7?safelink=0&ackfilter=0").unwrap();
    assert_eq!(radio, 1);
    assert_eq!(flags.bits(), 0);
    let (_, _, _, flags) = parse_radio_uri("radio://0/10/2M/E7E7E7E7E7?ackfilter=1&other=0").unwrap();
    assert_eq!(flags.bits(), 3);
}

#[test]
fn radio_uri_short_address_is_padded() {
    let (_, _, address, _) = parse_radio_uri("radio://0/0/2M/e7").unwrap();
    assert_eq!(address, [0, 0, 0, 0, 0xE7]);
}

#[test]
fn radio_uri_errors() {
    assert!(matches!(parse_radio_uri("usb://0"), Err(Error::InvalidUriScheme)));
    assert!(matches!(parse_radio_uri("not a uri"), Err(Error::InvalidUri)));
    assert!(matches!(parse_radio_uri("radio://x/80/2M/E7E7E7E7E7"), Err(Error::InvalidUri)));
    assert!(matches!(parse_radio_uri("radio://0/80/2M"), Err(Error::InvalidUri)));
    assert!(matches!(parse_radio_uri("radio://0/300/2M/E7E7E7E7E7"), Err(Error::InvalidUri)));
    assert!(matches!(parse_radio_uri("radio://0/126/2M/E7E7E7E7E7"), Err(Error::CrazyradioError(_))));
    assert!(matches!(parse_radio_uri("radio://0/80/2M/E7E7E7E7E7E7"), Err(Error::InvalidUri)));
    assert!(matches!(parse_radio_uri("radio://0/80/2M/E7E7G7E7E7"), Err(Error::InvalidUri)));
}

#[test]
fn radio_uri_from_parts() {
    let p = parts("radio", Some("2"), Some(vec!["125", "2M", "0102030405"]), vec![("ackfilter", "0")]);
    let (radio, channel, address, flags) = parse_radio_uri_parts(&p).unwrap();
    assert_eq!((radio, channel, address, flags.bits()), (2, 125, [1, 2, 3, 4, 5], 1));
    let p = parts("radio", Some("+2"), Some(vec!["+7", "2M", "ff"]), vec![]);
    let (radio, channel, address, _) = parse_radio_uri_parts(&p).unwrap();
    assert_eq!((radio, channel, address), (2, 7, [0, 0, 0, 0, 0xFF]));
    let p = parts("radio", None, Some(vec!["1", "2M", "ff"]), vec![]);
    assert!(matches!(parse_radio_uri_parts(&p), Err(Error::InvalidUri)));
    let p = parts("radio", Some("0"), None, vec![]);
    assert!(matches!(parse_radio_uri_parts(&p), Err(Error::InvalidUri)));
    let p = parts("Radio", Some("0"), Some(vec!["1", "2M", "ff"]), vec![]);
    assert!(matches!(parse_radio_uri_parts(&p), Err(Error::InvalidUriScheme)));
}

#[test]
fn usb_uri_parsing() {
    assert_eq!(parse_usb_uri("usb://0123456789").unwrap(), "0123456789");
    assert!(matches!(parse_usb_uri("radio://0/80/2M/E7E7E7E7E7"), Err(Error::InvalidUriScheme)));
    assert!(matches!(parse_usb_uri("usb://0123/path"), Err(Error::InvalidUri)));
    let p = parts("usb", None, None, vec![]);
    assert!(matches!(parse_usb_uri_parts(&p), Err(Error::InvalidUri)));
    let p = parts("usb", Some("abc"), None, vec![]);
    assert_eq!(parse_usb_uri_parts(&p).unwrap(), "abc");
}

#[test]
fn scan_uri_format() {
    assert_eq!(radio_uri(80, &[0xE7; 5]), "radio://0/80/2M/E7E7E7E7E7");
    assert_eq!(radio_uri(0, &[0x01, 0x23, 0x45, 0x67, 0x89]), "radio://0/0/2M/0123456789");
    let uris = scan_uris(&vec![2, 125], &[0xab, 0xcd, 0xef, 0x00, 0x11]);
    assert_eq!(uris, vec!["radio://0/2/2M/ABCDEF0011", "radio://0/125/2M/ABCDEF0011"]);
}

#[test]
fn scan_uri_reads_back() {
    for channel in [0u8, 1, 80, 125] {
        let address = [0x12, 0x34, 0x56, 0x78, 0x9a];
        let (radio, c, a, flags) = parse_radio_uri(&radio_uri(channel, &address)).unwrap();
        assert_eq!((radio, c, a, flags.bits()), (0, channel, address, 3));
    }
}

#[test]
fn selected_uri_turns_options_off() {
    let uri = selected_uri("radio://0/80/2M/E7E7E7E7E7");
    assert_eq!(uri, "radio://0/80/2M/E7E7E7E7E7?safelink=0&ackfilter=0");
    let (_, _, _, flags) = parse_radio_uri(&uri).unwrap();
    assert_eq!(flags.bits(), 0);
}

#[test]
fn address_padding() {
    assert_eq!(pad_address("E7"), "00000000E7");
    assert_eq!(pad_address("E7E7E7E7E7"), "E7E7E7E7E7");
    assert_eq!(pad_address("E7E7E7E7E7E7"), "E7E7E7E7E7E7");
}

#[test]
fn connector_answers() {
    assert!(matches!(target_of_this_kind(parse_usb_uri("radio://0/80/2M/E7E7E7E7E7")), Ok(None)));
    assert!(matches!(target_of_this_kind(parse_usb_uri("usb://abc")), Ok(Some(ref s)) if s == "abc"));
    assert!(matches!(target_of_this_kind(parse_radio_uri("radio://0/80")), Err(Error::InvalidUri)));
}

#[test]
fn usb_uri_reads_back() {
    let uri = usb_uri("0123ABC");
    assert_eq!(uri, "usb://0123ABC");
    assert_eq!(parse_usb_uri(&uri).unwrap(), "0123ABC");
}
