use vstd::prelude::*;
use vstd::string::StringSliceAdditionalSpecFns;
use vstd::arithmetic::power::{lemma_pow_positive, pow};
use vstd::arithmetic::div_mod::lemma_div_denominator;

verus! {

/// Link type of a packet captured on a radio connection.
pub const LINK_TYPE_RADIO: u8 = 1;

/// Link type of a packet captured on a USB connection.
pub const LINK_TYPE_USB: u8 = 2;

/// Direction of a packet sent to the Crazyflie.
pub const DIRECTION_TX: u8 = 0;

/// Direction of a packet received from the Crazyflie.
pub const DIRECTION_RX: u8 = 1;

/// Length in bytes of the header that precedes each captured packet.
pub const CAPTURE_HEADER_LEN: usize = 41;

/// A field of fixed width: the first bytes of `bytes` that fit, then zeros.
pub open spec fn fixed_field(bytes: Seq<u8>, width: nat) -> Seq<u8> {
    if bytes.len() >= width {
        bytes.take(width as int)
    } else {
        bytes + Seq::new((width - bytes.len()) as nat, |i: int| 0u8)
    }
}

/// The `n` lowest bytes of a number, least significant first.
pub open spec fn le_bytes(v: nat, n: nat) -> Seq<u8>
    decreases n,
{
    if n == 0 {
        Seq::empty()
    } else {
        seq![(v % 256) as u8] + le_bytes(v / 256, (n - 1) as nat)
    }
}

/// The capture header of a packet: link type, direction, the address in 12
/// bytes, the channel, the serial number in 16 bytes, the timestamp in
/// microseconds in 8 bytes and the packet length in 2 bytes, both little endian.
pub open spec fn capture_header_bytes(
    link_type: u8,
    direction: u8,
    address: Seq<u8>,
    channel: u8,
    serial: Seq<u8>,
    timestamp_us: u64,
    data_len: nat,
) -> Seq<u8> {
    seq![link_type, direction] + fixed_field(address, 12) + seq![channel] + fixed_field(serial, 16)
        + le_bytes(timestamp_us as nat, 8) + le_bytes(data_len % 65536, 2)
}

fn push_fixed_field(out: &mut Vec<u8>, bytes: &[u8], width: usize)
    ensures
        final(out)@ == old(out)@ + fixed_field(bytes@, width as nat),
{
    let n: usize = if bytes.len() < width {
        bytes.len()
    } else {
        width
    };
    let mut i: usize = 0;
    while i < width
        invariant
            i <= width,
            n <= width,
            n <= bytes@.len(),
            n == bytes@.len() || n == width,
            out@ == old(out)@ + fixed_field(bytes@, width as nat).take(i as int),
        decreases width - i,
    {
        let b: u8 = if i < n {
            bytes[i]
        } else {
            0
        };
        assert(b == fixed_field(bytes@, width as nat)[i as int]);
        out.push(b);
        i = i + 1;
        assert(fixed_field(bytes@, width as nat).take(i as int) =~= fixed_field(bytes@, width as nat).take(i - 1).push(b));
    }
    assert(fixed_field(bytes@, width as nat).take(width as int) =~= fixed_field(bytes@, width as nat));
}

fn push_le_bytes(out: &mut Vec<u8>, v: u64, n: usize)
    ensures
        final(out)@ == old(out)@ + le_bytes(v as nat, n as nat),
    decreases n,
{
    if n > 0 {
        out.push((v % 256) as u8);
        push_le_bytes(out, v / 256, n - 1);
        assert(le_bytes(v as nat, n as nat) == seq![(v % 256) as u8] + le_bytes((v / 256) as nat, (n - 1) as nat));
        assert(out@ =~= old(out)@ + le_bytes(v as nat, n as nat));
    } else {
        assert(out@ =~= old(out)@ + le_bytes(v as nat, n as nat));
    }
}

/// The header sent before a captured packet `data`: link type, direction,
/// address (cut or padded to 12 bytes), channel, the bytes of the serial
/// number (cut or padded to 16), the timestamp and the length of `data`
/// (modulo 65536), both little endian.
pub fn capture_header(
    link_type: u8,
    direction: u8,
    address: &[u8],
    channel: u8,
    serial: &str,
    timestamp_us: u64,
    data: &[u8],
) -> (header: Vec<u8>)
    ensures
        header@ == capture_header_bytes(
            link_type,
            direction,
            address@,
            channel,
            serial.spec_bytes(),
            timestamp_us,
            data@.len(),
        ),
        header@.len() == CAPTURE_HEADER_LEN,
        header@[0] == link_type,
        header@[1] == direction,
        header@[14] == channel,
        header@[39] == (data@.len() % 256) as u8,
        header@[40] == ((data@.len() / 256) % 256) as u8,
{
    let mut header: Vec<u8> = Vec::new();
    header.push(link_type);
    header.push(direction);
    push_fixed_field(&mut header, address, 12);
    header.push(channel);
    push_fixed_field(&mut header, serial.as_bytes(), 16);
    push_le_bytes(&mut header, timestamp_us, 8);
    push_le_bytes(&mut header, (data.len() % 65536) as u64, 2);
    assert(header@ =~= capture_header_bytes(
        link_type,
        direction,
        address@,
        channel,
        serial.spec_bytes(),
        timestamp_us,
        data@.len(),
    ));
    proof {
        lemma_le_bytes_len(timestamp_us as nat, 8);
        lemma_le_bytes_len(data@.len() % 65536, 2);
        lemma_capture_header_fields(link_type, direction, address@, channel, serial.spec_bytes(), timestamp_us, data@.len());
    }
    header
}

proof fn lemma_le_bytes_len(v: nat, n: nat)
    ensures
        le_bytes(v, n).len() == n,
    decreases n,
{
    if n > 0 {
        lemma_le_bytes_len(v / 256, (n - 1) as nat);
    }
}

/// Byte `i` of `n` little-endian bytes of `v` is the `i`-th base-256 digit of `v`.
pub proof fn lemma_le_bytes_digit(v: nat, n: nat, i: nat)
    requires
        i < n,
    ensures
        le_bytes(v, n)[i as int] == ((v as int / pow(256, i)) % 256) as u8,
    decreases n,
{
    reveal(pow);
    if i == 0 {
        assert(pow(256, 0) == 1);
    } else {
        lemma_le_bytes_digit(v / 256, (n - 1) as nat, (i - 1) as nat);
        lemma_le_bytes_len(v, n);
        lemma_le_bytes_len(v / 256, (n - 1) as nat);
        assert(le_bytes(v, n)[i as int] == le_bytes(v / 256, (n - 1) as nat)[i - 1]);
        lemma_pow_positive(256, (i - 1) as nat);
        lemma_div_denominator(v as int, 256, pow(256, (i - 1) as nat));
        assert(pow(256, i) == 256 * pow(256, (i - 1) as nat));
    }
}

/// The fields of a capture header, byte by byte: byte 0 is the link type,
/// byte 1 the direction, bytes 2 to 13 the address (cut or zero-padded),
/// byte 14 the channel, bytes 15 to 30 the serial number (cut or
/// zero-padded), bytes 31 to 38 the base-256 digits of the timestamp, least
/// significant first, and bytes 39 and 40 those of the packet length modulo
/// 65536.
pub proof fn lemma_capture_header_fields(
    link_type: u8,
    direction: u8,
    address: Seq<u8>,
    channel: u8,
    serial: Seq<u8>,
    timestamp_us: u64,
    data_len: nat,
)
    ensures
        ({
            let h = capture_header_bytes(link_type, direction, address, channel, serial, timestamp_us, data_len);
            &&& h.len() == 41
            &&& h[0] == link_type
            &&& h[1] == direction
            &&& forall|i: int| 0 <= i < 12 ==> #[trigger] h[2 + i] == (if i < address.len() { address[i] } else { 0u8 })
            &&& h[14] == channel
            &&& forall|i: int| 0 <= i < 16 ==> #[trigger] h[15 + i] == (if i < serial.len() { serial[i] } else { 0u8 })
            &&& forall|i: nat| i < 8 ==> #[trigger] h[31 + i as int] == ((timestamp_us as int / pow(256, i)) % 256) as u8
            &&& h[39] == (data_len % 256) as u8
            &&& h[40] == ((data_len / 256) % 256) as u8
        }),
{
    let h = capture_header_bytes(link_type, direction, address, channel, serial, timestamp_us, data_len);
    let a = fixed_field(address, 12);
    let s = fixed_field(serial, 16);
    let t = le_bytes(timestamp_us as nat, 8);
    let l = le_bytes(data_len % 65536, 2);
    lemma_le_bytes_len(timestamp_us as nat, 8);
    lemma_le_bytes_len(data_len % 65536, 2);
    assert(a.len() == 12 && s.len() == 16);
    assert(h == seq![link_type, direction] + a + seq![channel] + s + t + l);
    assert forall|i: int| 0 <= i < 12 implies #[trigger] h[2 + i] == (if i < address.len() { address[i] } else { 0u8 }) by {
        assert(h[2 + i] == a[i]);
    }
    assert forall|i: int| 0 <= i < 16 implies #[trigger] h[15 + i] == (if i < serial.len() { serial[i] } else { 0u8 }) by {
        assert(h[15 + i] == s[i]);
    }
    assert forall|i: nat| i < 8 implies #[trigger] h[31 + i as int] == ((timestamp_us as int / pow(256, i)) % 256) as u8 by {
        assert(h[31 + i as int] == t[i as int]);
        lemma_le_bytes_digit(timestamp_us as nat, 8, i);
    }
    assert(h[39] == l[0] && h[40] == l[1]);
    lemma_le_bytes_digit(data_len % 65536, 2, 0);
    lemma_le_bytes_digit(data_len % 65536, 2, 1);
    reveal(pow);
    assert(pow(256, 0) == 1);
    assert(pow(256, 1) == 256) by {
        assert(pow(256, 0) == 1);
    }
    assert(((data_len % 65536) / 256) % 256 == (data_len / 256) % 256) by (nonlinear_arith);
    assert((data_len % 65536) % 256 == data_len % 256) by (nonlinear_arith);
}

} // verus!
