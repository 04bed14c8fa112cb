//! Physical packets: the fixed header that precedes every packet on the
//! wire, and the segmentation of a logical message body into packets bounded
//! by the negotiated maximum packet size.
//!
//! A logical message of `L` body bytes travels as `ceil(L / (M - 8))`
//! physical packets when `L` exceeds one packet's capacity (`M` being the
//! negotiated maximum size and 8 the header size), else as one packet.
//! Exactly the last packet is marked end-of-message.

use vstd::arithmetic::div_mod::{
    lemma_fundamental_div_mod, lemma_fundamental_div_mod_converse,
};
use vstd::prelude::*;

use crate::bytesutil::{
    push_bytes, push_u16_be, read_u16_be, spec_u16_be, spec_u16_from_be,
};

verus! {

/// Size in bytes of the fixed header preceding every physical packet.
pub const HEADER_SIZE: usize = 8;

/// The logical type tag of a message, stored in the first header byte.
#[derive(Clone, Copy, Debug, PartialEq, Eq, Structural)]
pub enum PacketKind {
    /// A SQL batch request.
    SqlBatch,
    /// A remote-procedure-call request.
    RpcRequest,
    /// The generic server response (a token stream).
    TabularResult,
    /// The credentialed login message.
    Login,
    /// The pre-login negotiation message.
    PreLogin,
}

impl PacketKind {
    /// The wire byte of this kind.
    pub open spec fn spec_to_byte(self) -> u8 {
        match self {
            PacketKind::SqlBatch => 0x01,
            PacketKind::RpcRequest => 0x03,
            PacketKind::TabularResult => 0x04,
            PacketKind::Login => 0x10,
            PacketKind::PreLogin => 0x12,
        }
    }

    /// Encodes this kind as its wire byte.
    pub fn to_byte(self) -> (r: u8)
        ensures
            r == self.spec_to_byte(),
    {
        match self {
            PacketKind::SqlBatch => 0x01,
            PacketKind::RpcRequest => 0x03,
            PacketKind::TabularResult => 0x04,
            PacketKind::Login => 0x10,
            PacketKind::PreLogin => 0x12,
        }
    }

    /// The kind encoded by `b`, or nothing for an unassigned byte.
    pub open spec fn spec_from_byte(b: u8) -> Option<PacketKind> {
        if b == 0x01 {
            Some(PacketKind::SqlBatch)
        } else if b == 0x03 {
            Some(PacketKind::RpcRequest)
        } else if b == 0x04 {
            Some(PacketKind::TabularResult)
        } else if b == 0x10 {
            Some(PacketKind::Login)
        } else if b == 0x12 {
            Some(PacketKind::PreLogin)
        } else {
            None
        }
    }

    /// Decodes a wire byte back into a kind.
    pub fn from_byte(b: u8) -> (r: Option<PacketKind>)
        ensures
            r == PacketKind::spec_from_byte(b),
    {
        if b == 0x01 {
            Some(PacketKind::SqlBatch)
        } else if b == 0x03 {
            Some(PacketKind::RpcRequest)
        } else if b == 0x04 {
            Some(PacketKind::TabularResult)
        } else if b == 0x10 {
            Some(PacketKind::Login)
        } else if b == 0x12 {
            Some(PacketKind::PreLogin)
        } else {
            None
        }
    }
}

/// Encoding then decoding a packet kind gives the kind back.
pub proof fn lemma_packet_kind_roundtrip(k: PacketKind)
    ensures
        PacketKind::spec_from_byte(k.spec_to_byte()) == Some(k),
{
}

/// The status byte of a physical packet: either more packets of the same
/// logical message follow, or this is the last one.
#[derive(Clone, Copy, Debug, PartialEq, Eq, Structural)]
pub enum PacketStatus {
    /// More packets of this logical message follow.
    NormalMessage,
    /// This packet ends the logical message.
    EndOfMessage,
}

impl PacketStatus {
    /// The wire byte of this status.
    pub open spec fn spec_to_byte(self) -> u8 {
        match self {
            PacketStatus::NormalMessage => 0x00,
            PacketStatus::EndOfMessage => 0x01,
        }
    }

    /// Encodes this status as its wire byte.
    pub fn to_byte(self) -> (r: u8)
        ensures
            r == self.spec_to_byte(),
    {
        match self {
            PacketStatus::NormalMessage => 0x00,
            PacketStatus::EndOfMessage => 0x01,
        }
    }

    /// The status encoded by `b`, or nothing for an unassigned byte.
    pub open spec fn spec_from_byte(b: u8) -> Option<PacketStatus> {
        if b == 0x00 {
            Some(PacketStatus::NormalMessage)
        } else if b == 0x01 {
            Some(PacketStatus::EndOfMessage)
        } else {
            None
        }
    }

    /// Decodes a wire byte back into a status.
    pub fn from_byte(b: u8) -> (r: Option<PacketStatus>)
        ensures
            r == PacketStatus::spec_from_byte(b),
    {
        if b == 0x00 {
            Some(PacketStatus::NormalMessage)
        } else if b == 0x01 {
            Some(PacketStatus::EndOfMessage)
        } else {
            None
        }
    }
}

/// The fixed-size header preceding every physical packet: type tag, status,
/// total length (header and body, big endian), session id, packet id, and a
/// reserved window byte.
#[derive(Clone, Copy, Debug, PartialEq, Eq, Structural)]
pub struct PacketHeader {
    pub kind: PacketKind,
    pub status: PacketStatus,
    pub length: u16,
    pub session: u16,
    pub id: u8,
    pub window: u8,
}

impl PacketHeader {
    /// A fresh header for a tabular-result packet covering only itself.
    pub fn new() -> (r: PacketHeader)
        ensures
            r.kind == PacketKind::TabularResult,
            r.status == PacketStatus::EndOfMessage,
            r.length == HEADER_SIZE,
            r.session == 0,
            r.id == 0,
            r.window == 0,
    {
        PacketHeader {
            kind: PacketKind::TabularResult,
            status: PacketStatus::EndOfMessage,
            length: 8,
            session: 0,
            id: 0,
            window: 0,
        }
    }

    /// The eight wire bytes of this header.
    pub open spec fn spec_encode(self) -> Seq<u8> {
        seq![self.kind.spec_to_byte(), self.status.spec_to_byte()] + spec_u16_be(self.length)
            + spec_u16_be(self.session) + seq![self.id, self.window]
    }

    /// Appends the eight wire bytes of this header to `out`.
    pub fn encode_onto(&self, out: &mut Vec<u8>)
        ensures
            final(out)@ == old(out)@ + self.spec_encode(),
            self.spec_encode().len() == HEADER_SIZE,
    {
        out.push(self.kind.to_byte());
        out.push(self.status.to_byte());
        push_u16_be(out, self.length);
        push_u16_be(out, self.session);
        out.push(self.id);
        out.push(self.window);
        assert(out@ =~= old(out)@ + self.spec_encode());
    }

    /// The header encoded at `pos` in `bytes`, or nothing if the type or
    /// status byte is unassigned.
    pub open spec fn spec_decode_at(bytes: Seq<u8>, pos: int) -> Option<PacketHeader> {
        match (
            PacketKind::spec_from_byte(bytes[pos]),
            PacketStatus::spec_from_byte(bytes[pos + 1]),
        ) {
            (Some(kind), Some(status)) => Some(
                PacketHeader {
                    kind,
                    status,
                    length: spec_u16_from_be(bytes[pos + 2], bytes[pos + 3]),
                    session: spec_u16_from_be(bytes[pos + 4], bytes[pos + 5]),
                    id: bytes[pos + 6],
                    window: bytes[pos + 7],
                },
            ),
            _ => None,
        }
    }

    /// Decodes the header stored at `pos` in `bytes`.
    pub fn decode_at(bytes: &Vec<u8>, pos: usize) -> (r: Option<PacketHeader>)
        requires
            pos + HEADER_SIZE <= bytes@.len(),
        ensures
            r == PacketHeader::spec_decode_at(bytes@, pos as int),
    {
        let n = bytes.len();
        let kind = PacketKind::from_byte(bytes[pos]);
        let status = PacketStatus::from_byte(bytes[pos + 1]);
        match (kind, status) {
            (Some(kind), Some(status)) => Some(
                PacketHeader {
                    kind,
                    status,
                    length: read_u16_be(bytes, pos + 2),
                    session: read_u16_be(bytes, pos + 4),
                    id: bytes[pos + 6],
                    window: bytes[pos + 7],
                },
            ),
            _ => None,
        }
    }
}

/// Encoding then decoding a header gives the header back.
pub proof fn lemma_header_roundtrip(h: PacketHeader)
    ensures
        PacketHeader::spec_decode_at(h.spec_encode(), 0) == Some(h),
{
    crate::bytesutil::lemma_u16_be_roundtrip(h.length);
    crate::bytesutil::lemma_u16_be_roundtrip(h.session);
}

/// One physical packet: a header and the body bytes it covers.
#[derive(Clone, Debug)]
pub struct PhysicalPacket {
    pub header: PacketHeader,
    pub payload: Vec<u8>,
}

impl PhysicalPacket {
    /// The full wire form: header bytes followed by the payload.
    pub open spec fn spec_wire(self) -> Seq<u8> {
        self.header.spec_encode() + self.payload@
    }

    /// Encodes this packet into its full wire form.
    pub fn to_wire(&self) -> (r: Vec<u8>)
        ensures
            r@ == self.spec_wire(),
    {
        let mut out: Vec<u8> = Vec::new();
        self.header.encode_onto(&mut out);
        push_bytes(&mut out, self.payload.as_slice());
        out
    }
}

/// A packet's wire form reads back as its own header followed by its
/// payload: what `to_wire` writes, the receive side's header decode and
/// body extraction recover exactly.
pub proof fn lemma_packet_wire_roundtrip(p: PhysicalPacket)
    ensures
        p.spec_wire().len() == HEADER_SIZE + p.payload@.len(),
        PacketHeader::spec_decode_at(p.spec_wire(), 0) == Some(p.header),
        p.spec_wire().skip(HEADER_SIZE as int) =~= p.payload@,
{
    lemma_header_roundtrip(p.header);
    let enc = p.header.spec_encode();
    let wire = p.spec_wire();
    assert forall|j: int| 0 <= j < 8 implies #[trigger] wire[j] == enc[j] by {}
}

// ---------------------------------------------------------------------------
// Segmentation
// ---------------------------------------------------------------------------

/// The body chunks a message of these bytes is split into, given a per-packet
/// body capacity `cap`: full chunks of `cap` bytes, then the remainder.
/// An empty body still travels as one (empty) chunk.
pub open spec fn spec_split_bodies(body: Seq<u8>, cap: int) -> Seq<Seq<u8>>
    recommends
        cap >= 1,
    decreases body.len(),
{
    if cap < 1 || body.len() <= cap {
        seq![body]
    } else {
        seq![body.take(cap)] + spec_split_bodies(body.skip(cap), cap)
    }
}

/// The concatenation of a sequence of chunks.
pub open spec fn spec_concat(chunks: Seq<Seq<u8>>) -> Seq<u8>
    decreases chunks.len(),
{
    if chunks.len() == 0 {
        Seq::empty()
    } else {
        chunks[0] + spec_concat(chunks.drop_first())
    }
}

/// Splitting then concatenating gives the original body back.
pub proof fn lemma_split_concat(body: Seq<u8>, cap: int)
    requires
        cap >= 1,
    ensures
        spec_concat(spec_split_bodies(body, cap)) == body,
    decreases body.len(),
{
    if cap < 1 || body.len() <= cap {
        let chunks = spec_split_bodies(body, cap);
        assert(chunks[0] == body);
        assert(chunks.drop_first() =~= Seq::<Seq<u8>>::empty());
        assert(spec_concat(chunks.drop_first()) == Seq::<u8>::empty());
        assert(spec_concat(chunks) =~= body);
    } else {
        lemma_split_concat(body.skip(cap), cap);
        let chunks = spec_split_bodies(body, cap);
        assert(chunks.drop_first() =~= spec_split_bodies(body.skip(cap), cap));
        assert(spec_concat(chunks) =~= body.take(cap) + body.skip(cap));
        assert(body.take(cap) + body.skip(cap) =~= body);
    }
}

/// Every chunk fits the capacity, and none but possibly the last is short.
pub proof fn lemma_split_sizes(body: Seq<u8>, cap: int)
    requires
        cap >= 1,
    ensures
        forall|i: int|
            0 <= i < spec_split_bodies(body, cap).len() ==> #[trigger] spec_split_bodies(
                body,
                cap,
            )[i].len() <= cap,
        forall|i: int|
            0 <= i < spec_split_bodies(body, cap).len() - 1 ==> #[trigger] spec_split_bodies(
                body,
                cap,
            )[i].len() == cap,
    decreases body.len(),
{
    let chunks = spec_split_bodies(body, cap);
    if body.len() <= cap {
        assert(chunks[0] == body);
    } else {
        lemma_split_sizes(body.skip(cap), cap);
        let rest = spec_split_bodies(body.skip(cap), cap);
        assert forall|i: int| 0 <= i < chunks.len() implies (#[trigger] chunks[i]).len()
            <= cap by {
            if i == 0 {
                assert(chunks[0] == body.take(cap));
            } else {
                assert(chunks[i] == rest[i - 1]);
            }
        }
        assert forall|i: int| 0 <= i < chunks.len() - 1 implies (#[trigger] chunks[i]).len()
            == cap by {
            if i == 0 {
                assert(chunks[0] == body.take(cap));
            } else {
                assert(chunks[i] == rest[i - 1]);
            }
        }
    }
}

/// Adding the denominator to a nonnegative numerator raises the quotient
/// by exactly one.
proof fn lemma_div_plus_denominator(x: int, d: int)
    requires
        x >= 0,
        d > 0,
    ensures
        (x + d) / d == x / d + 1,
{
    lemma_fundamental_div_mod(x, d);
    vstd::arithmetic::div_mod::lemma_mod_bound(x, d);
    assert((x / d + 1) * d == (x / d) * d + d) by (nonlinear_arith);
    assert(x + d == (x / d + 1) * d + x % d) by (nonlinear_arith)
        requires
            x == d * (x / d) + x % d,
            (x / d + 1) * d == (x / d) * d + d,
    ;
    lemma_fundamental_div_mod_converse(x + d, d, x / d + 1, x % d);
}

/// The number of packets: one if the body fits a single packet, else the
/// byte count divided by the capacity, rounded up.
pub proof fn lemma_split_count(body: Seq<u8>, cap: int)
    requires
        cap >= 1,
    ensures
        body.len() <= cap ==> spec_split_bodies(body, cap).len() == 1,
        body.len() > cap ==> spec_split_bodies(body, cap).len() == (body.len() + cap - 1) / cap,
    decreases body.len(),
{
    if body.len() > cap {
        lemma_split_count(body.skip(cap), cap);
        let rest = body.skip(cap);
        lemma_div_plus_denominator(body.len() - 1, cap);
        if rest.len() <= cap {
            lemma_div_plus_denominator(body.len() - 1 - cap, cap);
            assert((body.len() - 1 - cap) / cap == 0) by {
                vstd::arithmetic::div_mod::lemma_basic_div(body.len() - 1 - cap, cap);
            }
        }
    }
}

/// The packet id stamped on the `i`-th packet of a run starting at `first`:
/// ids cycle through `0..254`, 255 never being used.
pub open spec fn spec_packet_id(first: u8, i: int) -> u8
    recommends
        first < 255,
        i >= 0,
{
    ((first + i) % 255) as u8
}

/// Consecutive packets of a run carry consecutive ids modulo 255: no gaps
/// and no repeats within fewer than 255 packets.
pub proof fn lemma_packet_ids_consecutive(first: u8, i: int)
    requires
        first < 255,
        i >= 0,
    ensures
        spec_packet_id(first, i + 1) == (spec_packet_id(first, i) + 1) % 255,
        spec_packet_id(first, i) < 255,
{
    let a = first + i;
    vstd::arithmetic::div_mod::lemma_mod_adds(a, 1, 255);
    vstd::arithmetic::div_mod::lemma_mod_bound(a, 255);
    vstd::arithmetic::div_mod::lemma_mod_bound(a + 1, 255);
    if a % 255 + 1 < 255 {
        vstd::arithmetic::div_mod::lemma_small_mod((a % 255 + 1) as nat, 255);
    }
}

/// Within a run of fewer than 255 packets the allocated ids never repeat:
/// with `lemma_packet_ids_consecutive`, the ids of one connection's packets
/// are `first, first + 1, ...` modulo 255, gapless and repeat-free until
/// they wrap.
pub proof fn lemma_packet_ids_distinct(first: u8, i: int, j: int)
    requires
        first < 255,
        0 <= i < j,
        j - i < 255,
    ensures
        spec_packet_id(first, i) != spec_packet_id(first, j),
{
    let a = first + i;
    let b = first + j;
    lemma_fundamental_div_mod(a, 255);
    lemma_fundamental_div_mod(b, 255);
    if a % 255 == b % 255 {
        assert(b - a == 255 * (b / 255 - a / 255)) by (nonlinear_arith)
            requires
                a == 255 * (a / 255) + a % 255,
                b == 255 * (b / 255) + b % 255,
                a % 255 == b % 255,
        ;
        assert(false) by (nonlinear_arith)
            requires
                b - a == 255 * (b / 255 - a / 255),
                0 < b - a < 255,
        ;
    }
}

/// Splits a logical message into physical packets bounded by `max_size`.
///
/// Each packet's body is a chunk of `spec_split_bodies`; packet `i` carries
/// id `(first_id + i) % 255`; exactly the last packet is marked
/// end-of-message; every length field counts header and chunk.
pub fn frame_message(
    kind: PacketKind,
    body: &Vec<u8>,
    max_size: u16,
    first_id: u8,
) -> (r: Vec<PhysicalPacket>)
    requires
        max_size > HEADER_SIZE,
        first_id < 255,
    ensures
        ({
            let cap = max_size - HEADER_SIZE;
            let chunks = spec_split_bodies(body@, cap as int);
            &&& r@.len() == chunks.len()
            &&& forall|i: int| 0 <= i < r@.len() ==> (#[trigger] r@[i]).payload@ == chunks[i]
            &&& forall|i: int|
                0 <= i < r@.len() ==> (#[trigger] r@[i]).header == (PacketHeader {
                    kind,
                    status: if i == r@.len() - 1 {
                        PacketStatus::EndOfMessage
                    } else {
                        PacketStatus::NormalMessage
                    },
                    length: (HEADER_SIZE + chunks[i].len()) as u16,
                    session: 0,
                    id: spec_packet_id(first_id, i),
                    window: 0,
                })
        }),
{
    let cap: usize = max_size as usize - HEADER_SIZE;
    let ghost g_chunks = spec_split_bodies(body@, cap as int);
    let mut r: Vec<PhysicalPacket> = Vec::new();
    let mut offset: usize = 0;
    let mut next_id: u8 = first_id;
    let mut done = false;
    let len = body.len();
    proof {
        assert(g_chunks.skip(0) =~= g_chunks);
        assert(body@.skip(0) =~= body@);
    }
    while !done
        invariant
            cap == max_size - HEADER_SIZE,
            1 <= cap,
            cap + HEADER_SIZE <= u16::MAX,
            first_id < 255,
            next_id < 255,
            len == body@.len(),
            offset <= len,
            g_chunks == spec_split_bodies(body@, cap as int),
            next_id == spec_packet_id(first_id, r@.len() as int),
            done ==> r@.len() == g_chunks.len(),
            !done ==> g_chunks.skip(r@.len() as int) == spec_split_bodies(
                body@.skip(offset as int),
                cap as int,
            ),
            !done ==> r@.len() < g_chunks.len(),
            forall|i: int| 0 <= i < r@.len() ==> (#[trigger] r@[i]).payload@ == g_chunks[i],
            forall|i: int|
                0 <= i < r@.len() ==> (#[trigger] r@[i]).header == (PacketHeader {
                    kind,
                    status: if i == g_chunks.len() - 1 {
                        PacketStatus::EndOfMessage
                    } else {
                        PacketStatus::NormalMessage
                    },
                    length: (HEADER_SIZE + g_chunks[i].len()) as u16,
                    session: 0,
                    id: spec_packet_id(first_id, i),
                    window: 0,
                }),
        decreases len - offset + (if done { 0int } else { 1int }),
    {
        let remaining = len - offset;
        let last = remaining <= cap;
        let take_now = if last {
            remaining
        } else {
            cap
        };
        let chunk = crate::bytesutil::copy_range(body, offset, take_now);
        let ghost idx = r@.len() as int;
        proof {
            let rest = body@.skip(offset as int);
            assert(g_chunks.skip(idx)[0] == g_chunks[idx]);
            if last {
                assert(spec_split_bodies(rest, cap as int) == seq![rest]);
                assert(g_chunks.skip(idx).len() == 1);
                assert(g_chunks[idx] =~= chunk@);
            } else {
                assert(g_chunks[idx] == rest.take(cap as int));
                assert(g_chunks[idx] =~= chunk@);
                assert(g_chunks.skip(idx).drop_first() =~= g_chunks.skip(idx + 1));
                assert(spec_split_bodies(rest, cap as int).drop_first() =~= spec_split_bodies(
                    rest.skip(cap as int),
                    cap as int,
                ));
                assert(rest.skip(cap as int) =~= body@.skip(offset + cap));
            }
        }
        let header = PacketHeader {
            kind,
            status: if last {
                PacketStatus::EndOfMessage
            } else {
                PacketStatus::NormalMessage
            },
            length: (HEADER_SIZE + take_now) as u16,
            session: 0,
            id: next_id,
            window: 0,
        };
        r.push(PhysicalPacket { header, payload: chunk });
        proof {
            lemma_packet_ids_consecutive(first_id, idx);
        }
        next_id = (next_id + 1) % 255;
        offset = offset + take_now;
        done = last;
    }
    r
}

/// Concatenates the payloads of a packet run back into one body, in arrival
/// order: the receive-side inverse of `frame_message`.
pub fn reassemble_payloads(packets: &Vec<PhysicalPacket>) -> (r: Vec<u8>)
    ensures
        r@ == spec_concat(packets@.map_values(|p: PhysicalPacket| p.payload@)),
{
    let n = packets.len();
    let ghost chunks = packets@.map_values(|p: PhysicalPacket| p.payload@);
    let mut out: Vec<u8> = Vec::new();
    let mut i: usize = 0;
    proof {
        assert(chunks.skip(0) =~= chunks);
        assert(Seq::<u8>::empty() + spec_concat(chunks) =~= spec_concat(chunks));
    }
    while i < n
        invariant
            n == packets@.len(),
            chunks == packets@.map_values(|p: PhysicalPacket| p.payload@),
            i <= n,
            out@ + spec_concat(chunks.skip(i as int)) == spec_concat(chunks),
        decreases n - i,
    {
        proof {
            assert(chunks.skip(i as int)[0] == chunks[i as int]);
            assert(chunks.skip(i as int).drop_first() =~= chunks.skip(i + 1));
        }
        push_bytes(&mut out, packets[i].payload.as_slice());
        i = i + 1;
    }
    proof {
        assert(chunks.skip(n as int) =~= Seq::<Seq<u8>>::empty());
        assert(out@ + spec_concat(chunks.skip(n as int)) =~= out@);
    }
    out
}

/// Framing then reassembling yields the original body exactly, in
/// `ceil(L / (M - 8))` packets when the body exceeds one packet's capacity
/// and one packet otherwise, with exactly the last marked end-of-message
/// (the statuses being fixed by `frame_message`'s contract).
pub proof fn lemma_segmentation_roundtrip(body: Seq<u8>, max_size: u16)
    requires
        max_size > HEADER_SIZE,
    ensures
        ({
            let cap = max_size - HEADER_SIZE;
            let chunks = spec_split_bodies(body, cap as int);
            &&& spec_concat(chunks) == body
            &&& body.len() <= cap ==> chunks.len() == 1
            &&& body.len() > cap ==> chunks.len() == (body.len() + cap - 1) / (cap as int)
        }),
{
    let cap = max_size - HEADER_SIZE;
    lemma_split_concat(body, cap as int);
    lemma_split_count(body, cap as int);
}

} // verus!
