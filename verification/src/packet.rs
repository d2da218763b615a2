use vstd::prelude::*;
use crate::text::{decimal, push_decimal};

verus! {

/// A CRTP packet: a port, a channel and a payload.
pub struct Packet {
    port: u8,
    channel: u8,
    data: Vec<u8>,
}

/// The mathematical content of a [`Packet`].
pub struct PacketView {
    pub port: u8,
    pub channel: u8,
    pub data: Seq<u8>,
}

impl View for Packet {
    type V = PacketView;

    closed spec fn view(&self) -> PacketView {
        PacketView { port: self.port, channel: self.channel, data: self.data@ }
    }
}

/// The header byte on the wire, `pppp11cc`: the low two bits of the channel,
/// the two legacy bits set, and the low four bits of the port on top.
pub open spec fn header_byte(port: u8, channel: u8) -> u8 {
    (0x0Cu8 | (channel & 0x03u8)) | ((port << 4u8) & 0xF0u8)
}

/// The port read back from a header byte.
pub open spec fn header_port(header: u8) -> u8 {
    (header & 0xF0u8) >> 4u8
}

/// The channel read back from a header byte.
pub open spec fn header_channel(header: u8) -> u8 {
    header & 0x03u8
}

/// The bytes of a packet on the wire: its header byte, then its payload.
pub open spec fn wire_bytes(p: PacketView) -> Seq<u8> {
    seq![header_byte(p.port, p.channel)] + p.data
}

/// The packet that a non-empty byte sequence from the wire stands for.
pub open spec fn decode_wire(bytes: Seq<u8>) -> PacketView
    recommends
        bytes.len() > 0,
{
    PacketView {
        port: header_port(bytes[0]),
        channel: header_channel(bytes[0]),
        data: bytes.drop_first(),
    }
}

/// The text describing a packet: its channel, its port and the first byte of its payload.
pub open spec fn packet_text(p: PacketView) -> Seq<char>
    recommends
        p.data.len() > 0,
{
    "(ch: "@ + decimal(p.channel as nat) + ", port: "@ + decimal(p.port as nat) + ", data: "@
        + decimal(p.data[0] as nat) + ")"@
}

impl Packet {
    /// A packet with the given port, channel and payload, stored as given.
    pub fn new(port: u8, channel: u8, data: Vec<u8>) -> (p: Packet)
        ensures
            p@ == (PacketView { port, channel, data: data@ }),
    {
        Packet { port, channel, data }
    }

    /// An empty packet whose port and channel are read from a header byte.
    pub fn new_from_header(header: u8) -> (p: Packet)
        ensures
            p@ == (PacketView {
                port: header_port(header),
                channel: header_channel(header),
                data: Seq::empty(),
            }),
    {
        Packet { port: (header & 0xF0) >> 4, channel: header & 0x03, data: Vec::new() }
    }

    /// The packet that a byte vector received from the wire stands for.
    pub fn from(v: Vec<u8>) -> (p: Packet)
        requires
            v@.len() > 0,
        ensures
            p@ == decode_wire(v@),
    {
        let mut data = v;
        let header: u8 = data.remove(0);
        Packet { port: (header & 0xF0) >> 4, channel: header & 0x03, data }
    }

    pub fn get_channel(&self) -> (c: u8)
        ensures
            c == self@.channel,
    {
        self.channel
    }

    pub fn get_port(&self) -> (p: u8)
        ensures
            p == self@.port,
    {
        self.port
    }

    pub fn get_data(&self) -> (d: &Vec<u8>)
        ensures
            d@ == self@.data,
    {
        &self.data
    }

    /// Moves the bytes of `v` to the end of the payload, leaving `v` empty.
    pub fn append_data(&mut self, v: &mut Vec<u8>)
        ensures
            final(self)@ == (PacketView {
                port: old(self)@.port,
                channel: old(self)@.channel,
                data: old(self)@.data + old(v)@,
            }),
            final(v)@ == Seq::<u8>::empty(),
    {
        self.data.append(v);
    }

    /// The header byte of this packet on the wire.
    pub fn get_header(&self) -> (h: u8)
        ensures
            h == header_byte(self@.port, self@.channel),
    {
        let mut header: u8 = 0x3 << 2;
        assert(header == 0x0Cu8) by (bit_vector)
            requires
                header == 0x3u8 << 2u8,
        ;
        header |= self.channel & 0x03;
        header | (self.port << 4) & 0xF0
    }

    /// The text describing this packet, such as `(ch: 0, port: 15, data: 1)`.
    pub fn to_string(&self) -> (s: String)
        requires
            self@.data.len() > 0,
        ensures
            s@ == packet_text(self@),
    {
        let mut s = String::new();
        s.append("(ch: ");
        push_decimal(&mut s, self.channel as u64);
        s.append(", port: ");
        push_decimal(&mut s, self.port as u64);
        s.append(", data: ");
        push_decimal(&mut s, self.data[0] as u64);
        s.append(")");
        s
    }

    /// The bytes of this packet on the wire.
    pub fn to_vec(&self) -> (v: Vec<u8>)
        ensures
            v@ == wire_bytes(self@),
    {
        let mut vec: Vec<u8> = Vec::new();
        vec.push(self.get_header());
        let mut i: usize = 0;
        while i < self.data.len()
            invariant
                i <= self.data@.len(),
                vec@ == seq![header_byte(self@.port, self@.channel)] + self.data@.subrange(0, i as int),
            decreases self.data@.len() - i,
        {
            vec.push(self.data[i]);
            i = i + 1;
            assert(self.data@.subrange(0, i as int) == self.data@.subrange(0, i - 1).push(self.data@[i - 1]));
        }
        assert(self.data@.subrange(0, i as int) == self.data@);
        vec
    }
}

/// The header byte always carries the two legacy bits, whatever the port and channel.
pub proof fn lemma_header_legacy_bits(port: u8, channel: u8)
    ensures
        header_byte(port, channel) & 0x0Cu8 == 0x0Cu8,
{
    assert(((0x0Cu8 | (channel & 0x03u8)) | ((port << 4u8) & 0xF0u8)) & 0x0Cu8 == 0x0Cu8)
        by (bit_vector);
}

/// A packet read from the wire always has a port below 16 and a channel below 4.
pub proof fn lemma_decoded_fields_in_range(bytes: Seq<u8>)
    requires
        bytes.len() > 0,
    ensures
        decode_wire(bytes).port < 16,
        decode_wire(bytes).channel < 4,
{
    let h: u8 = bytes[0];
    assert((h & 0xF0u8) >> 4u8 < 16u8 && h & 0x03u8 < 4u8) by (bit_vector);
}

/// Writing a packet to the wire and reading it back gives the same packet, for
/// every port that fits in four bits and every channel that fits in two.
pub proof fn lemma_wire_roundtrip(p: PacketView)
    requires
        p.port < 16,
        p.channel < 4,
    ensures
        decode_wire(wire_bytes(p)) == p,
{
    let port: u8 = p.port;
    let channel: u8 = p.channel;
    assert(header_port(header_byte(port, channel)) == port
        && header_channel(header_byte(port, channel)) == channel) by (bit_vector)
        requires
            port < 16u8,
            channel < 4u8,
    ;
    assert(wire_bytes(p).drop_first() =~= p.data);
}

/// Reading bytes from the wire and writing the packet back gives the same bytes
/// exactly when the first byte has its two legacy bits set.
pub proof fn lemma_wire_reencode(bytes: Seq<u8>)
    requires
        bytes.len() > 0,
    ensures
        (wire_bytes(decode_wire(bytes)) == bytes) <==> (bytes[0] & 0x0Cu8 == 0x0Cu8),
{
    let h: u8 = bytes[0];
    assert((header_byte(header_port(h), header_channel(h)) == h) <==> (h & 0x0Cu8 == 0x0Cu8))
        by (bit_vector);
    if bytes[0] & 0x0Cu8 == 0x0Cu8 {
        assert(wire_bytes(decode_wire(bytes)) =~= bytes);
    } else {
        assert(wire_bytes(decode_wire(bytes))[0] != bytes[0]);
    }
}

/// The header of the packet made from a header byte is that byte with the two
/// legacy bits set.
pub proof fn lemma_header_from_header(header: u8)
    ensures
        header_byte(header_port(header), header_channel(header)) == header | 0x0Cu8,
{
    assert(header_byte(header_port(header), header_channel(header)) == header | 0x0Cu8)
        by (bit_vector);
}

/// Appending bytes to a packet appends them to its wire form.
pub proof fn lemma_append_extends_wire(p: PacketView, extra: Seq<u8>)
    ensures
        wire_bytes(PacketView { port: p.port, channel: p.channel, data: p.data + extra })
            == wire_bytes(p) + extra,
{
    assert(wire_bytes(PacketView { port: p.port, channel: p.channel, data: p.data + extra })
        =~= wire_bytes(p) + extra);
}

} // verus!
