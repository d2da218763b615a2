use vstd::prelude::*;
use crazyradio::Error as RadioError;
use crate::error::Error;
use crate::link::ConnectionFlags;
use crate::text::{all_digits, decimal, digit_value, digits_value, is_digit, parse_decimal, parse_unsigned, push_char, push_decimal, str_eq};

verus! {

/// The parts of a parsed URL that link URIs are made of.
pub struct UrlParts {
    /// The scheme, such as `radio` or `usb`.
    pub scheme: String,
    /// The host, when it is a domain name.
    pub domain: Option<String>,
    /// The segments of the path after its leading `/`, or `None` when the path
    /// does not start with `/`.
    pub path: Option<Vec<String>>,
    /// The decoded key-value pairs of the query, in order.
    pub query: Vec<(String, String)>,
}

/// The mathematical content of [`UrlParts`].
pub struct UrlPartsView {
    pub scheme: Seq<char>,
    pub domain: Option<Seq<char>>,
    pub path: Option<Seq<Seq<char>>>,
    pub query: Seq<(Seq<char>, Seq<char>)>,
}

impl View for UrlParts {
    type V = UrlPartsView;

    open spec fn view(&self) -> UrlPartsView {
        UrlPartsView {
            scheme: self.scheme@,
            domain: match self.domain {
                Some(d) => Some(d@),
                None => None,
            },
            path: match self.path {
                Some(p) => Some(p@.map_values(|s: String| s@)),
                None => None,
            },
            query: self.query@.map_values(|kv: (String, String)| (kv.0@, kv.1@)),
        }
    }
}

/// The parts of the URL that `url::Url::parse` reads from a text, or `None`
/// where it refuses the text.
pub uninterp spec fn url_parts(uri: Seq<char>) -> Option<UrlPartsView>;

/// Parses a URL.
///
/// Calls `url::Url::parse` and copies out its scheme, its domain, its path
/// segments and its decoded query pairs. The result is what `url_parts`
/// names; nothing more is claimed of the URL parser.
#[verifier::external_body]
fn parse_url(uri: &str) -> (res: Option<UrlParts>)
    ensures
        match res {
            Some(p) => url_parts(uri@) == Some(p@),
            None => url_parts(uri@) is None,
        },
{
    let u = url::Url::parse(uri).ok()?;
    Some(UrlParts {
        scheme: u.scheme().to_owned(),
        domain: u.domain().map(str::to_owned),
        path: u.path_segments().map(|p| p.map(str::to_owned).collect()),
        query: u.query_pairs().map(|(k, v)| (k.into_owned(), v.into_owned())).collect(),
    })
}

/// The number of the highest radio channel.
pub open spec fn max_channel() -> nat {
    125
}

/// Checks a radio channel number.
///
/// Calls `crazyradio::Channel::from_number`, which accepts the numbers 0 to
/// 125 and refuses any other with `Error::InvalidArgument`, and gives back the
/// number of the channel made.
#[verifier::external_body]
fn radio_channel(number: u8) -> (res: Result<u8, RadioError>)
    ensures
        res is Ok <==> number <= max_channel(),
        res matches Ok(c) ==> c == number,
{
    crazyradio::Channel::from_number(number).map(u8::from)
}

/// The value of a hexadecimal digit, in either case.
pub open spec fn hex_value(c: char) -> Option<nat> {
    if '0' <= c <= '9' {
        Some((c as int - 48) as nat)
    } else if 'a' <= c <= 'f' {
        Some((c as int - 97 + 10) as nat)
    } else if 'A' <= c <= 'F' {
        Some((c as int - 65 + 10) as nat)
    } else {
        None
    }
}

/// The five bytes written by ten hexadecimal digits, high digit first; `None`
/// for any other text.
pub open spec fn hex_address(s: Seq<char>) -> Option<Seq<u8>> {
    if s.len() == 10 && forall|i: int| 0 <= i < 10 ==> (#[trigger] hex_value(s[i])) is Some {
        Some(
            Seq::new(
                5,
                |i: int| (hex_value(s[2 * i]).unwrap() * 16 + hex_value(s[2 * i + 1]).unwrap()) as u8,
            ),
        )
    } else {
        None
    }
}

/// Decodes a radio address written in hexadecimal.
///
/// Calls `<[u8; 5] as hex::FromHex>::from_hex` on the bytes of `text`. It
/// succeeds exactly on ten hexadecimal digits (of either case), each pair
/// giving one byte, high digit first.
#[verifier::external_body]
fn hex_decode_address(text: &str) -> (res: Option<[u8; 5]>)
    ensures
        res is Some <==> hex_address(text@) is Some,
        res matches Some(a) ==> a@ == hex_address(text@).unwrap(),
{
    <[u8; 5] as hex::FromHex>::from_hex(text).ok()
}

/// The upper-case hexadecimal digit of a value below 16.
pub open spec fn hex_digit_upper(d: nat) -> char
    recommends
        d < 16,
{
    if d < 10 {
        ((48 + d) as u8) as char
    } else {
        ((55 + d) as u8) as char
    }
}

/// Bytes written in upper-case hexadecimal, two digits per byte, high digit first.
pub open spec fn hex_upper(bytes: Seq<u8>) -> Seq<char>
    decreases bytes.len(),
{
    if bytes.len() == 0 {
        Seq::empty()
    } else {
        seq![hex_digit_upper(bytes[0] as nat / 16), hex_digit_upper(bytes[0] as nat % 16)]
            + hex_upper(bytes.drop_first())
    }
}

/// Writes bytes in upper-case hexadecimal.
///
/// Calls `hex::encode_upper`: each byte becomes two digits from
/// `0123456789ABCDEF`, its high four bits first.
#[verifier::external_body]
fn hex_encode_upper(data: &[u8]) -> (s: String)
    ensures
        s@ == hex_upper(data@),
{
    hex::encode_upper(data)
}

/// An address text padded on the left with `0` to ten characters.
pub open spec fn padded_address(s: Seq<char>) -> Seq<char> {
    if s.len() >= 10 {
        s
    } else {
        Seq::new((10 - s.len()) as nat, |i: int| '0') + s
    }
}

/// Pads an address text on the left with `0` to ten characters.
pub fn pad_address(s: &str) -> (r: String)
    ensures
        r@ == padded_address(s@),
{
    let n: usize = s.unicode_len();
    let mut r = String::new();
    if n < 10 {
        let mut i: usize = n;
        while i < 10
            invariant
                n <= i <= 10,
                n == s@.len(),
                r@ == Seq::new((i - n) as nat, |j: int| '0'),
            decreases 10 - i,
        {
            push_char(&mut r, '0');
            i = i + 1;
            assert(r@ =~= Seq::new((i - n) as nat, |j: int| '0'));
        }
    }
    r.append(s);
    assert(r@ =~= padded_address(s@));
    r
}

/// Whether the query sets `key` to `0`.
pub open spec fn query_clears(query: Seq<(Seq<char>, Seq<char>)>, key: Seq<char>) -> bool {
    exists|i: int| 0 <= i < query.len() && (#[trigger] query[i]).0 == key && query[i].1 == "0"@
}

/// The option bits made of a Safelink choice and an acknowledgement filtering choice.
pub open spec fn flag_bits(safelink: bool, ackfilter: bool) -> u32 {
    (if safelink { 1u32 } else { 0u32 }) | (if ackfilter { 2u32 } else { 0u32 })
}

/// The options of a radio URI: Safelink and acknowledgement filtering, each
/// unless the query sets it to `0`.
pub open spec fn query_flags(query: Seq<(Seq<char>, Seq<char>)>) -> u32 {
    flag_bits(!query_clears(query, "safelink"@), !query_clears(query, "ackfilter"@))
}

proof fn lemma_flag_bits(s: bool, a: bool)
    ensures
        flag_bits(s, a) & !1u32 == flag_bits(false, a),
        flag_bits(s, a) & !2u32 == flag_bits(s, false),
        flag_bits(s, a) == (1u32 | 2u32) ==> s && a,
{
    assert(3u32 & !1u32 == 2u32) by (bit_vector);
    assert(2u32 & !1u32 == 2u32) by (bit_vector);
    assert(1u32 & !1u32 == 0u32) by (bit_vector);
    assert(0u32 & !1u32 == 0u32) by (bit_vector);
    assert(3u32 & !2u32 == 1u32) by (bit_vector);
    assert(2u32 & !2u32 == 0u32) by (bit_vector);
    assert(1u32 & !2u32 == 1u32) by (bit_vector);
    assert(0u32 & !2u32 == 0u32) by (bit_vector);
    assert(1u32 | 2u32 == 3u32) by (bit_vector);
    assert(1u32 | 0u32 == 1u32) by (bit_vector);
    assert(0u32 | 2u32 == 2u32) by (bit_vector);
    assert(0u32 | 0u32 == 0u32) by (bit_vector);
}

/// What a radio URI stands for.
pub enum RadioUriOutcome {
    /// The radio dongle number, the channel, the address and the option bits.
    Valid(usize, u8, Seq<u8>, u32),
    /// The URI names another kind of link.
    OtherScheme,
    /// The URI is malformed.
    Malformed,
    /// The channel number is above the highest channel.
    BadChannel,
}

/// What a parsed radio URI, `radio://<dongle>/<channel>/<rate>/<address>?<options>`,
/// stands for. The address is up to ten hexadecimal digits, padded on the left
/// with zeros.
pub open spec fn radio_uri_outcome(p: UrlPartsView) -> RadioUriOutcome {
    if p.scheme != "radio"@ {
        RadioUriOutcome::OtherScheme
    } else if p.domain is None || parse_unsigned(p.domain.unwrap(), usize::MAX as nat) is None {
        RadioUriOutcome::Malformed
    } else if p.path is None || p.path.unwrap().len() != 3 {
        RadioUriOutcome::Malformed
    } else if parse_unsigned(p.path.unwrap()[0], 255) is None {
        RadioUriOutcome::Malformed
    } else if parse_unsigned(p.path.unwrap()[0], 255).unwrap() > max_channel() {
        RadioUriOutcome::BadChannel
    } else if hex_address(padded_address(p.path.unwrap()[2])) is None {
        RadioUriOutcome::Malformed
    } else {
        RadioUriOutcome::Valid(
            parse_unsigned(p.domain.unwrap(), usize::MAX as nat).unwrap() as usize,
            parse_unsigned(p.path.unwrap()[0], 255).unwrap() as u8,
            hex_address(padded_address(p.path.unwrap()[2])).unwrap(),
            query_flags(p.query),
        )
    }
}

/// Whether the result of reading a radio URI is what the URI stands for.
pub open spec fn radio_uri_result(
    res: Result<(usize, u8, [u8; 5], ConnectionFlags), Error>,
    outcome: RadioUriOutcome,
) -> bool {
    match outcome {
        RadioUriOutcome::Valid(radio, channel, address, flags) => match res {
            Ok((r, c, a, f)) => r == radio && c == channel && a@ == address && f@ == flags,
            Err(_) => false,
        },
        RadioUriOutcome::OtherScheme => res matches Err(Error::InvalidUriScheme),
        RadioUriOutcome::Malformed => res matches Err(Error::InvalidUri),
        RadioUriOutcome::BadChannel => res matches Err(Error::CrazyradioError(_)),
    }
}

/// Reads the dongle number, channel, address and options of a parsed radio URI.
pub fn parse_radio_uri_parts(parts: &UrlParts) -> (res: Result<
    (usize, u8, [u8; 5], ConnectionFlags),
    Error,
>)
    ensures
        radio_uri_result(res, radio_uri_outcome(parts@)),
        res matches Ok((_, _, _, f)) ==> {
            &&& (f@ & 1u32 == 0) <==> parts@.query.contains(("safelink"@, "0"@))
            &&& (f@ & 2u32 == 0) <==> parts@.query.contains(("ackfilter"@, "0"@))
            &&& f@ & !3u32 == 0
        },
{
    if !str_eq(parts.scheme.as_str(), "radio") {
        return Err(Error::InvalidUriScheme);
    }
    let radio: usize = match &parts.domain {
        Some(d) => match parse_decimal(d.as_str(), usize::MAX as u64) {
            Some(v) => v as usize,
            None => {
                return Err(Error::InvalidUri);
            },
        },
        None => {
            return Err(Error::InvalidUri);
        },
    };
    let path: &Vec<String> = match &parts.path {
        Some(p) => p,
        None => {
            return Err(Error::InvalidUri);
        },
    };
    if path.len() != 3 {
        return Err(Error::InvalidUri);
    }
    let ghost segments = parts@.path.unwrap();
    assert(segments[0] == path@[0]@ && segments[2] == path@[2]@);
    let number: u8 = match parse_decimal(path[0].as_str(), 255) {
        Some(v) => v as u8,
        None => {
            return Err(Error::InvalidUri);
        },
    };
    let channel: u8 = match radio_channel(number) {
        Ok(c) => c,
        Err(e) => {
            return Err(Error::CrazyradioError(e));
        },
    };
    let addr_str: &str = path[2].as_str();
    if addr_str.len() > 10 {
        proof {
            let s = addr_str@;
            if hex_address(padded_address(s)) is Some {
                let padded = padded_address(s);
                assert(forall|i: int| 0 <= i < s.len() ==> s[i] == padded[i + 10 - s.len()]);
                assert(forall|i: int| 0 <= i < 10 ==> (#[trigger] hex_value(padded[i])) is Some);
                assert(vstd::utf8::is_ascii_chars(s)) by {
                    assert forall|i: int| 0 <= i < s.len() implies '\0' <= #[trigger] s[i] <= '\u{7f}' by {
                        assert(hex_value(padded[i + 10 - s.len()]) is Some);
                    }
                }
                vstd::utf8::is_ascii_chars_encode_utf8(s);
            }
        }
        return Err(Error::InvalidUri);
    }
    let padded = pad_address(addr_str);
    let address: [u8; 5] = match hex_decode_address(padded.as_str()) {
        Some(a) => a,
        None => {
            return Err(Error::InvalidUri);
        },
    };
    let mut flags = ConnectionFlags::safelink().union(ConnectionFlags::ackfilter());
    let ghost q = parts@.query;
    proof {
        lemma_flag_bits(true, true);
        assert(q.subrange(0, 0) =~= Seq::<(Seq<char>, Seq<char>)>::empty());
    }
    let mut i: usize = 0;
    while i < parts.query.len()
        invariant
            i <= parts.query@.len(),
            q == parts@.query,
            q.len() == parts.query@.len(),
            flags@ == query_flags(q.subrange(0, i as int)),
        decreases parts.query@.len() - i,
    {
        let ghost pre = q.subrange(0, i as int);
        let ghost next = q.subrange(0, i + 1);
        assert(next == pre.push(q[i as int]));
        assert(q[i as int] == (parts.query@[i as int].0@, parts.query@[i as int].1@));
        let key: &str = parts.query[i].0.as_str();
        let value: &str = parts.query[i].1.as_str();
        let is_safelink = str_eq(key, "safelink");
        let is_ackfilter = str_eq(key, "ackfilter");
        let is_zero = str_eq(value, "0");
        proof {
            let s = !query_clears(pre, "safelink"@);
            let a = !query_clears(pre, "ackfilter"@);
            lemma_flag_bits(s, a);
            assert(forall|j: int| 0 <= j < pre.len() ==> next[j] == pre[j]);
            assert(query_clears(next, "safelink"@) == (query_clears(pre, "safelink"@) || (is_safelink && is_zero))) by {
                if is_safelink && is_zero {
                    assert(next[i as int].0 == "safelink"@ && next[i as int].1 == "0"@);
                }
                if query_clears(next, "safelink"@) && !query_clears(pre, "safelink"@) {
                    let j = choose|j: int| 0 <= j < next.len() && (#[trigger] next[j]).0 == "safelink"@ && next[j].1 == "0"@;
                    assert(j == i);
                }
            }
            assert(query_clears(next, "ackfilter"@) == (query_clears(pre, "ackfilter"@) || (is_ackfilter && is_zero))) by {
                if is_ackfilter && is_zero {
                    assert(next[i as int].0 == "ackfilter"@ && next[i as int].1 == "0"@);
                }
                if query_clears(next, "ackfilter"@) && !query_clears(pre, "ackfilter"@) {
                    let j = choose|j: int| 0 <= j < next.len() && (#[trigger] next[j]).0 == "ackfilter"@ && next[j].1 == "0"@;
                    assert(j == i);
                }
            }
        }
        if is_safelink {
            if is_zero {
                flags.remove(ConnectionFlags::safelink());
            }
        } else if is_ackfilter {
            if is_zero {
                flags.remove(ConnectionFlags::ackfilter());
            }
        }
        proof {
            if is_safelink {
                reveal_strlit("safelink");
                reveal_strlit("ackfilter");
                assert("safelink"@.len() != "ackfilter"@.len());
                assert(!is_ackfilter);
            }
            let s = !query_clears(pre, "safelink"@);
            let a = !query_clears(pre, "ackfilter"@);
            lemma_flag_bits(false, a);
            lemma_flag_bits(s, false);
        }
        i = i + 1;
    }
    assert(q.subrange(0, i as int) == q);
    proof {
        lemma_query_flags_by_pairs(q);
    }
    Ok((radio, channel, address, flags))
}

/// Reads the dongle number, channel, address and options of a radio URI,
/// such as `radio://0/80/2M/E7E7E7E7E7?safelink=0`.
pub fn parse_radio_uri(uri: &str) -> (res: Result<(usize, u8, [u8; 5], ConnectionFlags), Error>)
    ensures
        match url_parts(uri@) {
            Some(p) => radio_uri_result(res, radio_uri_outcome(p)),
            None => res matches Err(Error::InvalidUri),
        },
{
    match parse_url(uri) {
        Some(parts) => parse_radio_uri_parts(&parts),
        None => Err(Error::InvalidUri),
    }
}

/// What reading a parsed USB URI, `usb://<serial>`, gives: the serial
/// number, or the error for another scheme or a malformed URI.
pub open spec fn usb_uri_result(res: Result<String, Error>, p: UrlPartsView) -> bool {
    if p.scheme != "usb"@ {
        res matches Err(Error::InvalidUriScheme)
    } else if p.domain is None || p.path is Some {
        res matches Err(Error::InvalidUri)
    } else {
        match res {
            Ok(serial) => serial@ == p.domain.unwrap(),
            Err(_) => false,
        }
    }
}

/// Reads the serial number of a parsed USB URI.
pub fn parse_usb_uri_parts(parts: &UrlParts) -> (res: Result<String, Error>)
    ensures
        usb_uri_result(res, parts@),
{
    if !str_eq(parts.scheme.as_str(), "usb") {
        return Err(Error::InvalidUriScheme);
    }
    let serial: &String = match &parts.domain {
        Some(d) => d,
        None => {
            return Err(Error::InvalidUri);
        },
    };
    if parts.path.is_some() {
        return Err(Error::InvalidUri);
    }
    Ok(serial.clone())
}

/// Reads the serial number of a USB URI, such as `usb://0123456789abcdef`.
pub fn parse_usb_uri(uri: &str) -> (res: Result<String, Error>)
    ensures
        match url_parts(uri@) {
            Some(p) => usb_uri_result(res, p),
            None => res matches Err(Error::InvalidUri),
        },
{
    match parse_url(uri) {
        Some(parts) => parse_usb_uri_parts(&parts),
        None => Err(Error::InvalidUri),
    }
}

/// The answer of one kind of link to a URI it has read: the URI's target
/// when the URI is of its kind, `None` when the URI names another kind of
/// link, and the error of any other malformed URI.
pub fn target_of_this_kind<T>(parsed: Result<T, Error>) -> (r: Result<Option<T>, Error>)
    ensures
        match parsed {
            Ok(t) => r matches Ok(Some(u)) && u == t,
            Err(Error::InvalidUriScheme) => r matches Ok(None),
            Err(e) => r matches Err(f) && f == e,
        },
{
    match parsed {
        Ok(t) => Ok(Some(t)),
        Err(Error::InvalidUriScheme) => Ok(None),
        Err(e) => Err(e),
    }
}

/// The URI of a Crazyflie found on a channel of the first radio dongle at 2 Mbit/s.
pub open spec fn radio_uri_text(channel: u8, address: Seq<u8>) -> Seq<char> {
    "radio://0/"@ + decimal(channel as nat) + "/2M/"@ + hex_upper(address)
}

/// The URI of a Crazyflie found on a channel of the first radio dongle, such
/// as `radio://0/80/2M/E7E7E7E7E7`.
pub fn radio_uri(channel: u8, address: &[u8; 5]) -> (uri: String)
    ensures
        uri@ == radio_uri_text(channel, address@),
{
    let mut uri = String::new();
    uri.append("radio://0/");
    push_decimal(&mut uri, channel as u64);
    uri.append("/2M/");
    let hex = hex_encode_upper(address.as_slice());
    uri.append(hex.as_str());
    uri
}

/// The URIs of the Crazyflies found by a scan on the given channels.
pub fn scan_uris(channels: &Vec<u8>, address: &[u8; 5]) -> (uris: Vec<String>)
    ensures
        uris@.len() == channels@.len(),
        forall|i: int| 0 <= i < channels@.len() ==> #[trigger] uris@[i]@ == radio_uri_text(
            channels@[i],
            address@,
        ),
{
    let mut uris: Vec<String> = Vec::new();
    let mut i: usize = 0;
    while i < channels.len()
        invariant
            i <= channels@.len(),
            uris@.len() == i,
            forall|j: int| 0 <= j < i ==> #[trigger] uris@[j]@ == radio_uri_text(
                channels@[j],
                address@,
            ),
        decreases channels@.len() - i,
    {
        uris.push(radio_uri(channels[i], address));
        i = i + 1;
    }
    uris
}

/// The URI of a Crazyflie plugged in over USB with the given serial number.
pub fn usb_uri(serial: &str) -> (uri: String)
    ensures
        uri@ == "usb://"@ + serial@,
{
    let mut uri = String::from_str("usb://");
    uri.append(serial);
    uri
}

/// The URI under which a Crazyflie that answered a scan of `uri` is opened:
/// without Safelink and without acknowledgement filtering.
pub fn selected_uri(uri: &str) -> (r: String)
    ensures
        r@ == uri@ + "?safelink=0&ackfilter=0"@,
{
    let mut r = String::from_str(uri);
    r.append("?safelink=0&ackfilter=0");
    r
}

proof fn lemma_decimal_digits(n: nat)
    ensures
        decimal(n).len() > 0,
        all_digits(decimal(n)),
        digits_value(decimal(n)) == n,
        decimal(n)[0] != '+',
    decreases n,
{
    if n >= 10 {
        lemma_decimal_digits(n / 10);
        let s = decimal(n);
        assert(s.drop_last() == decimal(n / 10));
        assert(digit_value(s.last()) == n % 10);
        assert(digits_value(s) == digits_value(s.drop_last()) * 10 + digit_value(s.last()));
        assert(digits_value(s.drop_last()) == n / 10);
        assert((n / 10) * 10 + n % 10 == n) by (nonlinear_arith);
        assert forall|i: int| 0 <= i < s.len() implies is_digit(#[trigger] s[i]) by {
            if i < s.len() - 1 {
                assert(s[i] == decimal(n / 10)[i]);
            }
        }
    } else {
        assert(digit_value(decimal(n).last()) == n);
        assert(decimal(n).drop_last() =~= Seq::<char>::empty());
        assert(digits_value(decimal(n).drop_last()) == 0);
        assert(digits_value(decimal(n)) == digits_value(decimal(n).drop_last()) * 10 + digit_value(decimal(n).last()));
    }
}

/// A number written in decimal reads back as itself.
pub proof fn lemma_decimal_reads_back(n: nat, max: nat)
    requires
        n <= max,
    ensures
        parse_unsigned(decimal(n), max) == Some(n),
{
    lemma_decimal_digits(n);
}

proof fn lemma_hex_digit_value(d: nat)
    requires
        d < 16,
    ensures
        hex_value(hex_digit_upper(d)) == Some(d),
{
}

proof fn lemma_hex_upper_len(bytes: Seq<u8>)
    ensures
        hex_upper(bytes).len() == 2 * bytes.len(),
        forall|i: int|
            0 <= i < bytes.len() ==> #[trigger] hex_upper(bytes)[2 * i] == hex_digit_upper(
                bytes[i] as nat / 16,
            ) && hex_upper(bytes)[2 * i + 1] == hex_digit_upper(bytes[i] as nat % 16),
    decreases bytes.len(),
{
    if bytes.len() > 0 {
        lemma_hex_upper_len(bytes.drop_first());
        let rest = bytes.drop_first();
        assert forall|i: int| 0 <= i < bytes.len() implies #[trigger] hex_upper(bytes)[2 * i]
            == hex_digit_upper(bytes[i] as nat / 16) && hex_upper(bytes)[2 * i + 1]
            == hex_digit_upper(bytes[i] as nat % 16) by {
            if i > 0 {
                assert(bytes[i] == rest[i - 1]);
                assert(hex_upper(rest)[2 * (i - 1)] == hex_digit_upper(rest[i - 1] as nat / 16));
            }
        }
    }
}

/// An address written in upper-case hexadecimal reads back as itself.
pub proof fn lemma_hex_address_reads_back(address: Seq<u8>)
    requires
        address.len() == 5,
    ensures
        padded_address(hex_upper(address)) == hex_upper(address),
        hex_address(hex_upper(address)) == Some(address),
{
    lemma_hex_upper_len(address);
    let s = hex_upper(address);
    assert forall|i: int| 0 <= i < 10 implies (#[trigger] hex_value(s[i])) is Some by {
        let j: int = i / 2;
        if i % 2 == 0 {
            assert(s[2 * j] == hex_digit_upper(address[j] as nat / 16));
            lemma_hex_digit_value(address[j] as nat / 16);
        } else {
            assert(s[2 * j] == hex_digit_upper(address[j] as nat / 16));
            assert(i == 2 * j + 1);
            assert(s[2 * j + 1] == hex_digit_upper(address[j] as nat % 16));
            lemma_hex_digit_value(address[j] as nat % 16);
        }
    }
    let decoded = hex_address(s).unwrap();
    assert forall|j: int| 0 <= j < 5 implies decoded[j] == address[j] by {
        assert(s[2 * j] == hex_digit_upper(address[j] as nat / 16));
        lemma_hex_digit_value(address[j] as nat / 16);
        lemma_hex_digit_value(address[j] as nat % 16);
    }
    assert(decoded =~= address);
}

/// The URI that a scan reports for a channel and an address, once split into
/// its URL parts (`radio`, host `0`, path `<channel>/2M/<ADDRESS>`, no query),
/// reads back as the first dongle, that channel, that address, and Safelink
/// with acknowledgement filtering.
pub proof fn lemma_scan_uri_reads_back(channel: u8, address: Seq<u8>)
    requires
        channel <= max_channel(),
        address.len() == 5,
    ensures
        radio_uri_outcome(
            UrlPartsView {
                scheme: "radio"@,
                domain: Some(decimal(0)),
                path: Some(seq![decimal(channel as nat), "2M"@, hex_upper(address)]),
                query: Seq::empty(),
            },
        ) == RadioUriOutcome::Valid(0, channel, address, flag_bits(true, true)),
{
    lemma_decimal_reads_back(0, usize::MAX as nat);
    lemma_decimal_reads_back(channel as nat, 255);
    lemma_hex_address_reads_back(address);
}

/// The options of a URI made by [`selected_uri`] turn off both Safelink and
/// acknowledgement filtering.
pub proof fn lemma_selected_uri_options(query: Seq<(Seq<char>, Seq<char>)>)
    requires
        query == seq![("safelink"@, "0"@), ("ackfilter"@, "0"@)],
    ensures
        query_flags(query) == 0,
{
    assert(query[0].0 == "safelink"@ && query[0].1 == "0"@);
    assert(query[1].0 == "ackfilter"@ && query[1].1 == "0"@);
    assert(query_clears(query, "safelink"@));
    assert(query_clears(query, "ackfilter"@));
    assert(0u32 | 0u32 == 0u32) by (bit_vector);
}

/// The data-rate segment of a radio URI is read and ignored: replacing it
/// changes nothing in what the URI stands for.
pub proof fn lemma_rate_segment_ignored(p: UrlPartsView, rate: Seq<char>)
    requires
        p.path is Some,
        p.path.unwrap().len() == 3,
    ensures
        radio_uri_outcome(p) == radio_uri_outcome(
            UrlPartsView { path: Some(p.path.unwrap().update(1, rate)), ..p },
        ),
{
    let path = p.path.unwrap();
    assert(path.update(1, rate)[0] == path[0]);
    assert(path.update(1, rate)[2] == path[2]);
}

/// A radio URI with a valid dongle number, three path segments, a channel of
/// at most 125 and an address of at most ten hexadecimal digits stands for
/// that dongle, channel and address, whatever its rate segment holds.
pub proof fn lemma_valid_radio_uri(p: UrlPartsView)
    requires
        p.scheme == "radio"@,
        p.domain is Some,
        parse_unsigned(p.domain.unwrap(), usize::MAX as nat) is Some,
        p.path is Some,
        p.path.unwrap().len() == 3,
        parse_unsigned(p.path.unwrap()[0], 255) is Some,
        parse_unsigned(p.path.unwrap()[0], 255).unwrap() <= max_channel(),
        hex_address(padded_address(p.path.unwrap()[2])) is Some,
    ensures
        radio_uri_outcome(p) matches RadioUriOutcome::Valid(radio, channel, address, _)
            && radio == parse_unsigned(p.domain.unwrap(), usize::MAX as nat).unwrap()
            && channel == parse_unsigned(p.path.unwrap()[0], 255).unwrap()
            && address == hex_address(padded_address(p.path.unwrap()[2])).unwrap(),
{
}

proof fn lemma_query_clears_contains(query: Seq<(Seq<char>, Seq<char>)>, key: Seq<char>)
    ensures
        query_clears(query, key) <==> query.contains((key, "0"@)),
{
    if query_clears(query, key) {
        let i = choose|i: int| 0 <= i < query.len() && (#[trigger] query[i]).0 == key && query[i].1 == "0"@;
        assert(query[i] == (key, "0"@));
    }
    if query.contains((key, "0"@)) {
        let i = choose|i: int| 0 <= i < query.len() && query[i] == (key, "0"@);
        assert(query[i].0 == key && query[i].1 == "0"@);
    }
}

/// The options read from a query: Safelink (bit 0) is off exactly when some
/// pair is `safelink=0`, acknowledgement filtering (bit 1) is off exactly when
/// some pair is `ackfilter=0`, and no other bit is ever set.
pub proof fn lemma_query_flags_by_pairs(query: Seq<(Seq<char>, Seq<char>)>)
    ensures
        (query_flags(query) & 1u32 == 0) <==> query.contains(("safelink"@, "0"@)),
        (query_flags(query) & 2u32 == 0) <==> query.contains(("ackfilter"@, "0"@)),
        query_flags(query) & !3u32 == 0,
{
    lemma_query_clears_contains(query, "safelink"@);
    lemma_query_clears_contains(query, "ackfilter"@);
    assert(3u32 & 1u32 == 1u32 && 3u32 & 2u32 == 2u32 && 3u32 & !3u32 == 0u32) by (bit_vector);
    assert(2u32 & 1u32 == 0u32 && 2u32 & 2u32 == 2u32 && 2u32 & !3u32 == 0u32) by (bit_vector);
    assert(1u32 & 1u32 == 1u32 && 1u32 & 2u32 == 0u32 && 1u32 & !3u32 == 0u32) by (bit_vector);
    assert(0u32 & 1u32 == 0u32 && 0u32 & 2u32 == 0u32 && 0u32 & !3u32 == 0u32) by (bit_vector);
    assert(1u32 | 2u32 == 3u32 && 1u32 | 0u32 == 1u32 && 0u32 | 2u32 == 2u32 && 0u32 | 0u32
        == 0u32) by (bit_vector);
}

/// The options read from a query do not depend on the order of its pairs:
/// two queries holding the same pairs give the same options.
pub proof fn lemma_query_order_irrelevant(
    first: Seq<(Seq<char>, Seq<char>)>,
    second: Seq<(Seq<char>, Seq<char>)>,
)
    requires
        forall|pair: (Seq<char>, Seq<char>)| first.contains(pair) <==> second.contains(pair),
    ensures
        query_flags(first) == query_flags(second),
{
    lemma_query_clears_contains(first, "safelink"@);
    lemma_query_clears_contains(first, "ackfilter"@);
    lemma_query_clears_contains(second, "safelink"@);
    lemma_query_clears_contains(second, "ackfilter"@);
}

} // verus!
