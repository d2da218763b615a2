use vstd::prelude::*;
use crate::packet::{decode_wire, header_channel, header_port};

verus! {

/// The bit of [`ConnectionFlags`] that asks for Safelink.
pub open spec fn safelink_bit() -> u32 {
    1
}

/// The bit of [`ConnectionFlags`] that asks to drop empty acknowledgements.
pub open spec fn ackfilter_bit() -> u32 {
    2
}

/// The options of a radio connection, as a set of bits.
#[derive(Clone, Copy, Debug)]
pub struct ConnectionFlags {
    bits: u32,
}

impl View for ConnectionFlags {
    type V = u32;

    closed spec fn view(&self) -> u32 {
        self.bits
    }
}

impl ConnectionFlags {
    /// No option.
    pub fn empty() -> (f: ConnectionFlags)
        ensures
            f@ == 0,
    {
        ConnectionFlags { bits: 0 }
    }

    /// Safelink only.
    pub fn safelink() -> (f: ConnectionFlags)
        ensures
            f@ == safelink_bit(),
    {
        ConnectionFlags { bits: 1 }
    }

    /// Acknowledgement filtering only.
    pub fn ackfilter() -> (f: ConnectionFlags)
        ensures
            f@ == ackfilter_bit(),
    {
        ConnectionFlags { bits: 2 }
    }

    pub fn bits(&self) -> (b: u32)
        ensures
            b == self@,
    {
        self.bits
    }

    /// The options of both sets.
    pub fn union(self, other: ConnectionFlags) -> (f: ConnectionFlags)
        ensures
            f@ == self@ | other@,
    {
        ConnectionFlags { bits: self.bits | other.bits }
    }

    /// Whether every option of `other` is set here.
    pub fn contains(&self, other: ConnectionFlags) -> (r: bool)
        ensures
            r == (self@ & other@ == other@),
    {
        self.bits & other.bits == other.bits
    }

    /// Sets the options of `other`.
    pub fn insert(&mut self, other: ConnectionFlags)
        ensures
            final(self)@ == old(self)@ | other@,
    {
        self.bits = self.bits | other.bits;
    }

    /// Clears the options of `other`.
    pub fn remove(&mut self, other: ConnectionFlags)
        ensures
            final(self)@ == old(self)@ & !other@,
    {
        self.bits = self.bits & !other.bits;
    }

    /// Whether Safelink is asked for.
    pub fn use_safelink(&self) -> (r: bool)
        ensures
            r == (self@ & safelink_bit() == safelink_bit()),
    {
        self.contains(ConnectionFlags::safelink())
    }
}

/// How many times the Safelink handshake is tried before the link goes on without it.
pub const SAFELINK_HANDSHAKE_ATTEMPTS: u32 = 10;

/// How many empty acknowledgements are counted before the link relaxes polling.
pub const EMPTY_PACKET_BEFORE_RELAX: u32 = 10;

/// How long, in milliseconds, a link may go without any acknowledgement.
pub const LINK_TIMEOUT_MS: u64 = 1000;

/// The packet that asks the Crazyflie to reset Safelink; the Crazyflie echoes it back.
pub open spec fn safelink_request_bytes() -> Seq<u8> {
    seq![0xffu8, 0x05u8, 0x01u8]
}

/// A header byte carrying the Safelink counters: bit 3 holds the up counter,
/// bit 2 the down counter, the other bits are kept.
pub open spec fn stamped_header(header: u8, up: u8, down: u8) -> u8 {
    (header & 0xF3u8) | ((up << 3u8) | (down << 2u8))
}

/// Whether a Safelink acknowledgement brings a new payload: it was received,
/// it is not empty, and its bit 2 matches the down counter.
pub open spec fn safe_ack_accepted(down: u8, received: bool, payload: Seq<u8>) -> bool {
    received && payload.len() > 0 && (payload[0] & 0x04u8) >> 2u8 == down
}

/// Whether an acknowledgement payload is handed to the receiver, and the
/// payload so handed.
pub open spec fn preprocessed_ack(flags: u32, payload: Seq<u8>, safelink: bool) -> (bool, Seq<u8>) {
    if safelink {
        if payload.len() > 0 && payload[0] & 0xF3u8 != 0xF3u8 {
            (true, payload.update(0, payload[0] & 0xF3u8))
        } else {
            (false, payload)
        }
    } else if payload.len() > 0 {
        (true, payload)
    } else if flags & ackfilter_bit() != ackfilter_bit() {
        (true, seq![0xFFu8])
    } else {
        (false, payload)
    }
}

/// Whether a link that has gone `elapsed_ms` milliseconds without an
/// acknowledgement has timed out.
pub fn link_timed_out(elapsed_ms: u64) -> (r: bool)
    ensures
        r == (elapsed_ms >= LINK_TIMEOUT_MS),
{
    elapsed_ms >= LINK_TIMEOUT_MS
}

/// The packet of the Safelink handshake.
pub fn safelink_request() -> (v: Vec<u8>)
    ensures
        v@ == safelink_request_bytes(),
{
    let mut v: Vec<u8> = Vec::new();
    v.push(0xff);
    v.push(0x05);
    v.push(0x01);
    v
}

/// Whether the reply to a handshake packet enables Safelink: the packet was
/// acknowledged and echoed back.
pub fn safelink_accepted(ack_received: bool, payload: &[u8]) -> (r: bool)
    ensures
        r == (ack_received && payload@ == safelink_request_bytes()),
{
    let r = ack_received && payload.len() == 3 && payload[0] == 0xff && payload[1] == 0x05
        && payload[2] == 0x01;
    assert(r ==> payload@ =~= safelink_request_bytes());
    r
}

/// What the radio link does with the outcome of one radio transaction.
pub struct AckOutcome {
    /// Whether the Crazyflie acknowledged the packet.
    pub acked: bool,
    /// The payload to hand to the receiver, if any.
    pub delivered: Option<Vec<u8>>,
}

/// The state of a radio link between transactions.
pub struct RadioLink {
    flags: ConnectionFlags,
    safelink: bool,
    safelink_up_ctr: u8,
    safelink_down_ctr: u8,
    needs_resend: bool,
    n_empty_packets: u32,
    packet: Vec<u8>,
}

/// The mathematical content of a [`RadioLink`].
pub struct RadioLinkView {
    pub flags: u32,
    pub safelink: bool,
    pub up: u8,
    pub down: u8,
    pub needs_resend: bool,
    pub n_empty_packets: u32,
    pub packet: Seq<u8>,
}

impl View for RadioLink {
    type V = RadioLinkView;

    closed spec fn view(&self) -> RadioLinkView {
        RadioLinkView {
            flags: self.flags@,
            safelink: self.safelink,
            up: self.safelink_up_ctr,
            down: self.safelink_down_ctr,
            needs_resend: self.needs_resend,
            n_empty_packets: self.n_empty_packets,
            packet: self.packet@,
        }
    }
}

impl RadioLinkView {
    /// The counters are single bits, the count of empty acknowledgements stops
    /// one past the relax threshold, and under Safelink the current packet has a header.
    pub open spec fn wf(self) -> bool {
        &&& self.up <= 1
        &&& self.down <= 1
        &&& self.n_empty_packets <= EMPTY_PACKET_BEFORE_RELAX + 1
        &&& self.safelink ==> self.packet.len() > 0
    }

    /// The packet put on the air for the current packet.
    pub open spec fn outgoing(self) -> Seq<u8> {
        if self.safelink {
            self.packet.update(0, stamped_header(self.packet[0], self.up, self.down))
        } else {
            self.packet
        }
    }
}

impl RadioLink {
    /// A link with the given options, with or without Safelink, whose counters
    /// start at zero and whose first packet is the empty `0xff` poll.
    pub fn new(flags: ConnectionFlags, safelink: bool) -> (link: RadioLink)
        ensures
            link@ == (RadioLinkView {
                flags: flags@,
                safelink,
                up: 0,
                down: 0,
                needs_resend: false,
                n_empty_packets: 0,
                packet: seq![0xffu8],
            }),
            link@.wf(),
    {
        let mut packet: Vec<u8> = Vec::new();
        packet.push(0xff);
        RadioLink {
            flags,
            safelink,
            safelink_up_ctr: 0,
            safelink_down_ctr: 0,
            needs_resend: false,
            n_empty_packets: 0,
            packet,
        }
    }

    /// Whether Safelink is asked for by the link's options.
    pub fn use_safelink(&self) -> (r: bool)
        ensures
            r == (self@.flags & safelink_bit() == safelink_bit()),
    {
        self.flags.use_safelink()
    }

    /// Whether the next transaction sends a new packet, so that one may be
    /// taken from the uplink queue; otherwise the last one is sent again.
    pub fn needs_uplink_packet(&self) -> (r: bool)
        ensures
            r == !self@.needs_resend,
    {
        !self.needs_resend
    }

    /// A packet with the Safelink counters written into its header.
    pub fn send_packet_safe(&self, packet: Vec<u8>) -> (out: Vec<u8>)
        requires
            packet@.len() > 0,
        ensures
            out@ == packet@.update(0, stamped_header(packet@[0], self@.up, self@.down)),
    {
        let mut packet = packet;
        let header: u8 = (packet[0] & 0xF3) | ((self.safelink_up_ctr << 3) | (self.safelink_down_ctr << 2));
        packet.set(0, header);
        packet
    }

    /// Chooses the packet of the next transaction and returns the bytes to put
    /// on the air. A new packet is the one taken from the uplink queue, or the
    /// empty `0xff` poll when the queue was empty; after a lost packet the last
    /// packet is sent again.
    pub fn next_packet(&mut self, uplink: Option<Vec<u8>>) -> (out: Vec<u8>)
        requires
            old(self)@.wf(),
            old(self)@.safelink && !old(self)@.needs_resend ==> (uplink matches Some(p) ==> p@.len() > 0),
        ensures
            final(self)@.wf(),
            final(self)@ == (RadioLinkView {
                packet: if old(self)@.needs_resend {
                    old(self)@.packet
                } else {
                    match uplink {
                        Some(p) => p@,
                        None => seq![0xffu8],
                    }
                },
                ..old(self)@
            }),
            out@ == final(self)@.outgoing(),
    {
        if !self.needs_resend {
            self.packet = match uplink {
                Some(p) => p,
                None => {
                    let mut p: Vec<u8> = Vec::new();
                    p.push(0xff);
                    p
                },
            };
        }
        let current = self.packet.clone();
        assert(current@ == self.packet@);
        if self.safelink {
            self.send_packet_safe(current)
        } else {
            current
        }
    }

    /// Updates the Safelink counters after a transaction and returns the payload
    /// that is kept: the up counter flips when the packet was acknowledged; the
    /// down counter flips when the acknowledgement brings a new payload, and any
    /// other payload (a repeated one) is dropped.
    pub fn process_safe_ack(&mut self, ack_received: bool, payload: Vec<u8>) -> (kept: Vec<u8>)
        requires
            old(self)@.wf(),
        ensures
            final(self)@.wf(),
            final(self)@ == (RadioLinkView {
                up: if ack_received { (1 - old(self)@.up) as u8 } else { old(self)@.up },
                down: if safe_ack_accepted(old(self)@.down, ack_received, payload@) {
                    (1 - old(self)@.down) as u8
                } else {
                    old(self)@.down
                },
                ..old(self)@
            }),
            kept@ == if safe_ack_accepted(old(self)@.down, ack_received, payload@) {
                payload@
            } else {
                Seq::<u8>::empty()
            },
            ack_received && payload@.len() > 0 && ((payload@[0] & 0x04u8 != 0) == (old(self)@.down
                == 1)) ==> kept@ == payload@ && final(self)@.down == 1 - old(self)@.down,
            !(ack_received && payload@.len() > 0 && ((payload@[0] & 0x04u8 != 0) == (old(self)@.down
                == 1))) ==> kept@.len() == 0 && final(self)@.down == old(self)@.down,
    {
        proof {
            lemma_ack_acceptance(old(self)@.down, ack_received, payload@);
        }
        let mut payload = payload;
        if ack_received {
            self.safelink_up_ctr = 1 - self.safelink_up_ctr;
        }
        if ack_received && payload.len() > 0 && (payload[0] & 0x04) >> 2 == self.safelink_down_ctr {
            self.safelink_down_ctr = 1 - self.safelink_down_ctr;
        } else {
            payload.clear();
        }
        payload
    }

    /// Decides whether an acknowledgement payload is handed to the receiver.
    /// Under Safelink a payload counts only if its header is not the empty
    /// `0xF3` pattern, and its counter bits are cleared. Without Safelink any
    /// payload counts, and an empty one counts as `0xff` unless acknowledgement
    /// filtering is set.
    pub fn preprocess_ack(&self, payload: &mut Vec<u8>, safelink: bool) -> (handle: bool)
        ensures
            (handle, final(payload)@) == preprocessed_ack(self@.flags, old(payload)@, safelink),
            !safelink && old(payload)@.len() > 0 ==> handle && final(payload)@ == old(payload)@,
            !safelink && old(payload)@.len() == 0 ==> (handle <==> self@.flags & 2u32 == 0),
    {
        proof {
            lemma_empty_ack_without_safelink(self@.flags);
        }
        if safelink {
            if payload.len() > 0 && payload[0] & 0xF3 != 0xF3 {
                let first: u8 = payload[0] & 0xF3;
                payload.set(0, first);
                return true;
            }
            return false;
        }
        if payload.len() > 0 {
            return true;
        }
        if !self.flags.contains(ConnectionFlags::ackfilter()) {
            let mut single: Vec<u8> = Vec::new();
            single.push(0xFF);
            *payload = single;
            return true;
        }
        false
    }

    /// Takes the outcome of a transaction. An acknowledged packet is done with;
    /// its payload, once processed, is handed on or counted as empty. A lost
    /// packet is sent again by the next transaction.
    pub fn on_ack(&mut self, ack_received: bool, payload: Vec<u8>) -> (outcome: AckOutcome)
        requires
            old(self)@.wf(),
        ensures
            final(self)@.wf(),
            outcome.acked == ack_received,
            ({
                let o = old(self)@;
                let accepted = o.safelink && safe_ack_accepted(o.down, ack_received, payload@);
                let kept = if !o.safelink {
                    payload@
                } else if accepted {
                    payload@
                } else {
                    Seq::<u8>::empty()
                };
                let (handle, handed) = preprocessed_ack(o.flags, kept, o.safelink);
                &&& final(self)@.up == (if o.safelink && ack_received { (1 - o.up) as u8 } else { o.up })
                &&& final(self)@.down == (if accepted { (1 - o.down) as u8 } else { o.down })
                &&& final(self)@.needs_resend == !ack_received
                &&& final(self)@.n_empty_packets == (if ack_received && !handle
                    && o.n_empty_packets <= EMPTY_PACKET_BEFORE_RELAX {
                    (o.n_empty_packets + 1) as u32
                } else {
                    o.n_empty_packets
                })
                &&& final(self)@.flags == o.flags
                &&& final(self)@.safelink == o.safelink
                &&& final(self)@.packet == o.packet
                &&& outcome.delivered matches Some(d) ==> ack_received && handle && d@ == handed
                &&& outcome.delivered is None ==> !(ack_received && handle)
            }),
    {
        let kept = if self.safelink {
            self.process_safe_ack(ack_received, payload)
        } else {
            payload
        };
        if ack_received {
            self.needs_resend = false;
            let mut handed = kept;
            let safelink = self.safelink;
            let handle = self.preprocess_ack(&mut handed, safelink);
            if handle {
                AckOutcome { acked: true, delivered: Some(handed) }
            } else {
                if self.n_empty_packets > EMPTY_PACKET_BEFORE_RELAX {
                    // Nothing came back for a while: polling is relaxed.
                } else {
                    self.n_empty_packets = self.n_empty_packets + 1;
                }
                AckOutcome { acked: true, delivered: None }
            }
        } else {
            self.needs_resend = true;
            AckOutcome { acked: false, delivered: None }
        }
    }
}

/// Writing the Safelink counters into a header byte keeps its port and
/// channel, so the packet read back from the wire is unchanged.
pub proof fn lemma_stamp_keeps_packet(bytes: Seq<u8>, up: u8, down: u8)
    requires
        bytes.len() > 0,
        up <= 1,
        down <= 1,
    ensures
        decode_wire(bytes.update(0, stamped_header(bytes[0], up, down))) == decode_wire(bytes),
{
    let h: u8 = bytes[0];
    assert(header_port(stamped_header(h, up, down)) == header_port(h)
        && header_channel(stamped_header(h, up, down)) == header_channel(h)) by (bit_vector)
        requires
            up <= 1u8,
            down <= 1u8,
    ;
    assert(bytes.update(0, stamped_header(h, up, down)).drop_first() =~= bytes.drop_first());
}

/// A stamped header carries the up counter in bit 3 and the down counter in
/// bit 2, and keeps every other bit.
pub proof fn lemma_stamp_carries_counters(header: u8, up: u8, down: u8)
    requires
        up <= 1,
        down <= 1,
    ensures
        (stamped_header(header, up, down) >> 3u8) & 1u8 == up,
        (stamped_header(header, up, down) >> 2u8) & 1u8 == down,
        stamped_header(header, up, down) & 0xF3u8 == header & 0xF3u8,
{
    assert((stamped_header(header, up, down) >> 3u8) & 1u8 == up
        && (stamped_header(header, up, down) >> 2u8) & 1u8 == down
        && stamped_header(header, up, down) & 0xF3u8 == header & 0xF3u8) by (bit_vector)
        requires
            up <= 1u8,
            down <= 1u8,
    ;
}

/// A payload accepted under Safelink is dropped if the same acknowledgement
/// comes again: accepting it flipped the down counter.
pub proof fn lemma_repeated_ack_dropped(down: u8, payload: Seq<u8>)
    requires
        down <= 1,
        safe_ack_accepted(down, true, payload),
    ensures
        !safe_ack_accepted((1 - down) as u8, true, payload),
{
}

/// Under Safelink, each acknowledged packet flips the up counter, so the next
/// packet put on the air carries the other value in bit 3 of its header.
pub proof fn lemma_acked_packets_alternate(link: RadioLinkView, next: Seq<u8>)
    requires
        link.wf(),
        link.safelink,
        next.len() > 0,
    ensures
        ({
            let after = RadioLinkView { up: (1 - link.up) as u8, packet: next, ..link };
            (after.outgoing()[0] >> 3u8) & 1u8 != (link.outgoing()[0] >> 3u8) & 1u8
        }),
{
    lemma_stamp_carries_counters(link.packet[0], link.up, link.down);
    lemma_stamp_carries_counters(next[0], (1 - link.up) as u8, link.down);
}

/// Under Safelink a payload handed to the receiver has its counter bits
/// cleared, and is read as a packet of the same port, channel and data as the
/// payload that came over the air.
pub proof fn lemma_safelink_handed_payload(flags: u32, payload: Seq<u8>)
    requires
        preprocessed_ack(flags, payload, true).0,
    ensures
        preprocessed_ack(flags, payload, true).1[0] & 0x0Cu8 == 0,
        decode_wire(preprocessed_ack(flags, payload, true).1) == decode_wire(payload),
{
    let h: u8 = payload[0];
    assert((h & 0xF3u8) & 0x0Cu8 == 0 && header_port(h & 0xF3u8) == header_port(h)
        && header_channel(h & 0xF3u8) == header_channel(h)) by (bit_vector);
    assert(preprocessed_ack(flags, payload, true).1.drop_first() =~= payload.drop_first());
}

/// Without Safelink and without acknowledgement filtering, every payload is
/// handed to the receiver, an empty one as the single byte `0xff`.
pub proof fn lemma_unfiltered_acks_all_handed(flags: u32, payload: Seq<u8>)
    requires
        flags & ackfilter_bit() != ackfilter_bit(),
    ensures
        preprocessed_ack(flags, payload, false).0,
        preprocessed_ack(flags, payload, false).1 == (if payload.len() > 0 {
            payload
        } else {
            seq![0xFFu8]
        }),
{
}

/// After inserting options they are contained; after removing non-empty
/// options they are not.
pub proof fn lemma_insert_remove_contains(flags: u32, other: u32)
    ensures
        (flags | other) & other == other,
        other != 0 ==> (flags & !other) & other != other,
{
    assert((flags | other) & other == other) by (bit_vector);
    assert(other != 0 ==> (flags & !other) & other != other) by (bit_vector);
}

/// Under Safelink, whether an acknowledged payload is new depends on bit 2 of
/// its first byte and on nothing else in the payload.
pub proof fn lemma_ack_acceptance_reads_only_bit_2(
    down: u8,
    received: bool,
    payload: Seq<u8>,
    other: Seq<u8>,
)
    requires
        payload.len() > 0,
        other.len() > 0,
        payload[0] & 0x04u8 == other[0] & 0x04u8,
    ensures
        safe_ack_accepted(down, received, payload) == safe_ack_accepted(down, received, other),
{
    let a = payload[0];
    let b = other[0];
    assert(a & 0x04u8 == b & 0x04u8 ==> (a & 0x04u8) >> 2u8 == (b & 0x04u8) >> 2u8) by (bit_vector);
}

/// Under Safelink, an acknowledged non-empty payload is taken as new exactly
/// when bit 2 of its first byte is set as the down counter is; an
/// unacknowledged or empty one never is.
pub proof fn lemma_ack_acceptance(down: u8, received: bool, payload: Seq<u8>)
    requires
        down <= 1,
    ensures
        safe_ack_accepted(down, received, payload) <==> (received && payload.len() > 0 && ((
        payload[0] & 0x04u8 != 0) == (down == 1))),
{
    if payload.len() > 0 {
        let a = payload[0];
        assert(down <= 1u8 ==> (((a & 0x04u8) >> 2u8 == down) <==> ((a & 0x04u8 != 0) == (down
            == 1u8)))) by (bit_vector);
    }
}

/// Two payloads accepted one after the other (the down counter flipped in
/// between) differ in bit 2 of their first byte.
pub proof fn lemma_fresh_payloads_alternate_bit_2(down: u8, first: Seq<u8>, second: Seq<u8>)
    requires
        down <= 1,
        safe_ack_accepted(down, true, first),
        safe_ack_accepted((1 - down) as u8, true, second),
    ensures
        first[0] & 0x04u8 != second[0] & 0x04u8,
{
    let a = first[0];
    let b = second[0];
    assert(down <= 1u8 && (a & 0x04u8) >> 2u8 == down && (b & 0x04u8) >> 2u8 == (1u8 - down) as u8
        ==> a & 0x04u8 != b & 0x04u8) by (bit_vector);
}

/// Without Safelink, a non-empty acknowledgement payload is always handed to
/// the receiver unchanged, whatever the options.
pub proof fn lemma_nonempty_ack_handed_without_safelink(flags: u32, payload: Seq<u8>)
    requires
        payload.len() > 0,
    ensures
        preprocessed_ack(flags, payload, false) == (true, payload),
{
}

/// Without Safelink, an empty acknowledgement is handed on (as `0xff`)
/// exactly when acknowledgement filtering is off.
pub proof fn lemma_empty_ack_without_safelink(flags: u32)
    ensures
        preprocessed_ack(flags, Seq::empty(), false).0 <==> (flags & 2u32 == 0),
{
    assert((flags & 2u32 != 2u32) <==> (flags & 2u32 == 0)) by (bit_vector);
}

/// Without Safelink, whether an acknowledgement is handed on and what is
/// handed on do not depend on the options for a non-empty payload; the
/// options only decide about empty ones.
pub proof fn lemma_options_only_decide_empty_acks(flags: u32, other: u32, payload: Seq<u8>)
    requires
        payload.len() > 0,
    ensures
        preprocessed_ack(flags, payload, false) == preprocessed_ack(other, payload, false),
{
}

/// Under Safelink, a payload is handed on exactly when it is not empty and
/// its header, counter bits aside, is not the all-ones "nothing to say"
/// pattern; the options play no part.
pub proof fn lemma_safelink_handing(flags: u32, other: u32, payload: Seq<u8>)
    ensures
        preprocessed_ack(flags, payload, true).0 <==> (payload.len() > 0 && payload[0] | 0x0Cu8
            != 0xFFu8),
        preprocessed_ack(flags, payload, true) == preprocessed_ack(other, payload, true),
{
    if payload.len() > 0 {
        let a = payload[0];
        assert((a & 0xF3u8 != 0xF3u8) <==> (a | 0x0Cu8 != 0xFFu8)) by (bit_vector);
    }
}

} // verus!
