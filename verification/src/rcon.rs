//! Source RCON engine tolerant of how Counter-Strike 2 talks: replies split
//! across packets, packets past the classic size cap, unsolicited console
//! output on authenticated connections, and both shapes of auth answer.
//!
//! The engine is transport-agnostic: it runs over anything that implements
//! [`Wire`].

use vstd::prelude::*;
use vstd::bytes::*;
use vstd::string::StringSliceAdditionalSpecFns;

use crate::text::{cat, decimal, decode_lossy, u64_text, utf8_lossy};

verus! {

pub const TYPE_RESPONSE_VALUE: i32 = 0;
pub const TYPE_EXEC_COMMAND: i32 = 2;
pub const TYPE_AUTH_RESPONSE: i32 = 2;
pub const TYPE_AUTH: i32 = 3;

/// Well past anything CS2 sends, small enough to bound memory.
pub const MAX_PACKET_BODY: usize = 8388608;
pub const MAX_TOTAL_OUTPUT: usize = 8388608;
pub const MAX_PACKETS_PER_EXCHANGE: usize = 256;

pub const RECV_CHUNK: u32 = 61440;
/// First-response patience.
pub const FIRST_RESPONSE_TIMEOUT_MS: u32 = 5000;
/// Idle gap that ends a response once something has arrived.
pub const IDLE_TIMEOUT_MS: u32 = 600;

pub struct RecvChunk {
    pub data: Vec<u8>,
    pub timeout: bool,
}

/// One TCP-like byte stream. `recv` returns an empty timeout chunk when the
/// deadline passes without data.
///
/// `reads` is the transcript of the chunks `recv` has handed back, in order
/// (an empty chunk for a timeout), and `writes` the transcript of the byte
/// strings `send` has accepted. The engine's contracts speak of them.
/// Every implementation must meet these `ensures`; a verified wire keeps
/// ghost transcripts and overrides both. A wire written in plain Rust keeps
/// the provided (empty) transcripts and does not meet them, so for such a
/// wire the engine's stream guarantees describe the calls it makes but are
/// not proved of it.
pub trait Wire {
    closed spec fn reads(&self) -> Seq<Seq<u8>> {
        Seq::empty()
    }

    closed spec fn writes(&self) -> Seq<Seq<u8>> {
        Seq::empty()
    }

    fn send(&mut self, data: &[u8]) -> (r: Result<(), String>)
        ensures
            final(self).reads() == old(self).reads(),
            r is Ok ==> final(self).writes() == old(self).writes().push(data@),
            r is Err ==> final(self).writes() == old(self).writes();

    fn recv(&mut self, max_bytes: u32, timeout_ms: u32) -> (r: Result<RecvChunk, String>)
        ensures
            final(self).writes() == old(self).writes(),
            r matches Ok(c) ==> final(self).reads() == old(self).reads().push(c.data@),
            r is Err ==> final(self).reads() == old(self).reads();
}

/// The chunks appended to a transcript since `before`, joined into one
/// byte string.
pub open spec fn bytes_since(before: Seq<Seq<u8>>, after: Seq<Seq<u8>>) -> Seq<u8> {
    after.skip(before.len() as int).flatten_alt()
}

/// `after` is `before` with more entries behind it.
pub open spec fn extends<T>(before: Seq<T>, after: Seq<T>) -> bool {
    before.len() <= after.len() && after.take(before.len() as int) == before
}

proof fn lemma_flatten_push(s: Seq<Seq<u8>>, x: Seq<u8>)
    ensures
        s.push(x).flatten_alt() == s.flatten_alt() + x,
{
    assert(s.push(x).drop_last() =~= s);
}

/// The frames a session has sent since `sent0`, against a wire whose
/// writes grew by the same frames.
proof fn lemma_sent_since(sent0: Seq<Seq<u8>>, sent1: Seq<Seq<u8>>, w0: Seq<Seq<u8>>, w1: Seq<Seq<u8>>)
    ensures
        (sent1 == sent0 && w1 == w0) ==> w1 == w0 + sent1.skip(sent0.len() as int),
        forall|f: Seq<u8>| (sent1 == sent0.push(f) && w1 == w0.push(f))
            ==> w1 == w0 + sent1.skip(sent0.len() as int),
{
    assert(sent0.skip(sent0.len() as int) =~= Seq::<Seq<u8>>::empty());
    assert(w0 + Seq::<Seq<u8>>::empty() =~= w0);
    assert forall|f: Seq<u8>| (sent1 == sent0.push(f) && w1 == w0.push(f))
        implies w1 == w0 + sent1.skip(sent0.len() as int) by {
        if sent1 == sent0.push(f) {
            assert(sent1.skip(sent0.len() as int) =~= seq![f]);
            assert(w0.push(f) =~= w0 + seq![f]);
        }
    }
}

proof fn lemma_flatten_concat(x: Seq<Seq<u8>>, y: Seq<Seq<u8>>)
    ensures
        (x + y).flatten_alt() == x.flatten_alt() + y.flatten_alt(),
    decreases y.len(),
{
    if y.len() == 0 {
        assert(x + y =~= x);
        assert(x.flatten_alt() + y.flatten_alt() =~= x.flatten_alt());
    } else {
        lemma_flatten_concat(x, y.drop_last());
        assert((x + y).drop_last() =~= x + y.drop_last());
        assert((x + y).last() == y.last());
        assert(x.flatten_alt() + y.drop_last().flatten_alt() + y.last()
            =~= x.flatten_alt() + (y.drop_last().flatten_alt() + y.last()));
    }
}

/// Bytes read over two stretches of a wire's life are the bytes of the
/// first followed by those of the second.
proof fn lemma_bytes_since_trans(a: Seq<Seq<u8>>, b: Seq<Seq<u8>>, c: Seq<Seq<u8>>)
    requires
        extends(a, b),
        extends(b, c),
    ensures
        extends(a, c),
        bytes_since(a, c) == bytes_since(a, b) + bytes_since(b, c),
{
    assert(c.take(a.len() as int) =~= b.take(a.len() as int));
    assert(c.skip(a.len() as int) =~= b.skip(a.len() as int) + c.skip(b.len() as int)) by {
        assert forall|k: int| 0 <= k < b.len() - a.len() implies c.skip(a.len() as int)[k] == b.skip(a.len() as int)[k] by {
            assert(c.take(b.len() as int)[a.len() + k] == b[a.len() + k]);
        }
    }
    lemma_flatten_concat(b.skip(a.len() as int), c.skip(b.len() as int));
}

proof fn lemma_bytes_since_push(before: Seq<Seq<u8>>, after: Seq<Seq<u8>>, x: Seq<u8>)
    requires
        extends(before, after),
    ensures
        extends(before, after.push(x)),
        bytes_since(before, after.push(x)) == bytes_since(before, after) + x,
{
    assert(after.push(x).skip(before.len() as int) =~= after.skip(before.len() as int).push(x));
    lemma_flatten_push(after.skip(before.len() as int), x);
    assert(after.push(x).take(before.len() as int) =~= after.take(before.len() as int));
}

#[derive(Debug, Clone, PartialEq, Eq)]
pub struct Packet {
    pub id: i32,
    pub ptype: i32,
    pub body: Vec<u8>,
}

/// The wire form of a packet: little-endian size (id + type + body + two
/// terminating nulls), id and type, the body, and two null bytes.
pub open spec fn packet_bytes(id: i32, ptype: i32, body: Seq<u8>) -> Seq<u8> {
    spec_u32_to_le_bytes((body.len() + 10) as u32) + spec_u32_to_le_bytes(id as u32)
        + spec_u32_to_le_bytes(ptype as u32) + body + seq![0u8, 0u8]
}

pub fn encode_packet(id: i32, ptype: i32, body: &[u8]) -> (out: Vec<u8>)
    requires
        body@.len() + 10 <= u32::MAX,
    ensures
        out@ == packet_bytes(id, ptype, body@),
{
    let size: u32 = (body.len() + 10) as u32;
    let mut out = u32_to_le_bytes(size);
    let mut idb = u32_to_le_bytes(id as u32);
    let mut tyb = u32_to_le_bytes(ptype as u32);
    out.append(&mut idb);
    out.append(&mut tyb);
    let mut i: usize = 0;
    let ghost head = out@;
    while i < body.len()
        invariant
            i <= body@.len(),
            out@ == head + body@.take(i as int),
        decreases body@.len() - i,
    {
        out.push(body[i]);
        assert(body@.take(i + 1) == body@.take(i as int).push(body@[i as int]));
        i = i + 1;
    }
    out.push(0);
    out.push(0);
    assert(body@.take(body@.len() as int) == body@);
    assert(out@ =~= packet_bytes(id, ptype, body@));
    out
}

/// The size field at the front of a buffer holding at least four bytes.
pub open spec fn size_field(buf: Seq<u8>) -> u32 {
    spec_u32_from_le_bytes(buf.subrange(0, 4))
}

pub open spec fn size_ok(size: u32) -> bool {
    10 <= size && size <= MAX_PACKET_BODY + 10
}

/// What the front of a buffer holds: `None` while it is too short for the
/// frame it announces; otherwise id, type, body and the bytes consumed.
/// Meaningful when the size field is valid.
pub open spec fn frame_of(buf: Seq<u8>) -> Option<(i32, i32, Seq<u8>, int)> {
    if buf.len() < 4 || buf.len() < 4 + size_field(buf) {
        None
    } else {
        let size = size_field(buf) as int;
        let body_end = 4 + size - (if size >= 12 { 2int } else { 0int });
        let end = if body_end > 12 { body_end } else { 12int };
        Some((
            spec_u32_from_le_bytes(buf.subrange(4, 8)) as i32,
            spec_u32_from_le_bytes(buf.subrange(8, 12)) as i32,
            buf.subrange(12, end),
            4 + size,
        ))
    }
}

fn read_u32_at(buf: &[u8], at: usize) -> (x: u32)
    requires
        at + 4 <= buf@.len(),
    ensures
        x == spec_u32_from_le_bytes(buf@.subrange(at as int, at + 4)),
{
    let four = vec![buf[at], buf[at + 1], buf[at + 2], buf[at + 3]];
    assert(four@ =~= buf@.subrange(at as int, at + 4));
    u32_from_le_bytes(four.as_slice())
}

/// Parses one packet off the front of `buf`; returns the bytes consumed.
/// `Ok(None)` means incomplete: wait for more bytes.
pub fn try_parse_packet(buf: &[u8]) -> (r: Result<Option<(Packet, usize)>, String>)
    ensures
        match r {
            Err(e) => buf@.len() >= 4 && !size_ok(size_field(buf@))
                && e@ == "invalid rcon packet size "@ + decimal(size_field(buf@) as nat),
            Ok(None) => buf@.len() < 4 || (size_ok(size_field(buf@)) && frame_of(buf@) is None),
            Ok(Some((p, n))) => {
                &&& buf@.len() >= 4
                &&& size_ok(size_field(buf@))
                &&& frame_of(buf@) == Some((p.id, p.ptype, p.body@, n as int))
            },
        },
{
    if buf.len() < 4 {
        return Ok(None);
    }
    let size = read_u32_at(buf, 0);
    if !(10 <= size && size as usize <= MAX_PACKET_BODY + 10) {
        return Err(cat("invalid rcon packet size ", u64_text(size as u64).as_str()));
    }
    let size = size as usize;
    if buf.len() < 4 + size {
        return Ok(None);
    }
    let id = read_u32_at(buf, 4) as i32;
    let ptype = read_u32_at(buf, 8) as i32;
    let body_end: usize = 4 + size - if size >= 12 { 2 } else { 0 };
    let end = if body_end > 12 { body_end } else { 12 };
    let mut body: Vec<u8> = Vec::new();
    let mut i: usize = 12;
    while i < end
        invariant
            12 <= i <= end <= buf@.len(),
            body@ == buf@.subrange(12, i as int),
        decreases end - i,
    {
        body.push(buf[i]);
        assert(buf@.subrange(12, i + 1) == buf@.subrange(12, i as int).push(buf@[i as int]));
        i = i + 1;
    }
    Ok(Some((Packet { id, ptype, body }, 4 + size)))
}

/// Decoding what [`encode_packet`] produced gives the packet back, whatever
/// bytes follow it: the frame announces its own length. (A body shorter than
/// two bytes is not given back: the decoder only strips the terminating nulls
/// from frames of twelve bytes or more.)
pub proof fn lemma_decode_encoded(id: i32, ptype: i32, body: Seq<u8>, rest: Seq<u8>)
    requires
        2 <= body.len() <= MAX_PACKET_BODY,
    ensures
        size_ok(size_field(packet_bytes(id, ptype, body) + rest)),
        frame_of(packet_bytes(id, ptype, body) + rest) == Some((id, ptype, body, body.len() + 14int)),
{
    lemma_auto_spec_u32_to_from_le_bytes();
    let b = packet_bytes(id, ptype, body) + rest;
    let size = (body.len() + 10) as u32;
    assert(b.subrange(0, 4) == spec_u32_to_le_bytes(size));
    assert(b.subrange(4, 8) == spec_u32_to_le_bytes(id as u32));
    assert(b.subrange(8, 12) == spec_u32_to_le_bytes(ptype as u32));
    assert(((id as u32) as i32) == id) by (bit_vector);
    assert(((ptype as u32) as i32) == ptype) by (bit_vector);
    assert(b.subrange(12, 12 + body.len() as int) == body);
    assert(size_field(b) == size);
    assert(size as int == body.len() + 10);
    assert(spec_u32_from_le_bytes(b.subrange(4, 8)) == id as u32);
    assert(spec_u32_from_le_bytes(b.subrange(8, 12)) == ptype as u32);
    assert(spec_u32_from_le_bytes(b.subrange(4, 8)) as i32 == id);
    assert(spec_u32_from_le_bytes(b.subrange(8, 12)) as i32 == ptype);
    assert(b.len() >= 4 + size_field(b));
    let sz = size_field(b) as int;
    let body_end = 4 + sz - (if sz >= 12 { 2int } else { 0int });
    assert(body_end == body.len() + 12);
    let end = if body_end > 12 { body_end } else { 12int };
    assert(b.subrange(12, end) == body);
}


/// `f` is exactly one frame, announcing its own length, that decodes to
/// `p` (id, type, body).
pub open spec fn decodes_to(f: Seq<u8>, p: (i32, i32, Seq<u8>)) -> bool {
    &&& f.len() >= 4
    &&& size_ok(size_field(f))
    &&& frame_of(f) == Some((p.0, p.1, p.2, f.len() as int))
}

/// A frame found at the front of a buffer is, cut off there, one whole
/// frame that decodes the same.
proof fn lemma_frame_prefix(buf: Seq<u8>, id: i32, ptype: i32, body: Seq<u8>, n: int)
    requires
        buf.len() >= 4,
        size_ok(size_field(buf)),
        frame_of(buf) == Some((id, ptype, body, n)),
    ensures
        14 <= n <= buf.len(),
        decodes_to(buf.take(n), (id, ptype, body)),
{
    let f = buf.take(n);
    assert(f.subrange(0, 4) =~= buf.subrange(0, 4));
    assert(f.subrange(4, 8) =~= buf.subrange(4, 8));
    assert(f.subrange(8, 12) =~= buf.subrange(8, 12));
    let size = size_field(buf) as int;
    let body_end = 4 + size - (if size >= 12 { 2int } else { 0int });
    let end = if body_end > 12 { body_end } else { 12int };
    assert(f.subrange(12, end) =~= buf.subrange(12, end));
}


/// One packet as the engine saw it: id, type and body; `None` stands for a
/// read that went idle for its whole timeout.
pub type Delivery = Option<(i32, i32, Seq<u8>)>;

/// The packets among a run of deliveries, idle gaps left out.
pub open spec fn packets(log: Seq<Delivery>) -> Seq<(i32, i32, Seq<u8>)>
    decreases log.len(),
{
    if log.len() == 0 {
        Seq::empty()
    } else {
        let rest = packets(log.drop_last());
        match log.last() {
            Some(p) => rest.push(p),
            None => rest,
        }
    }
}

proof fn lemma_packets_push(log: Seq<Delivery>, d: Delivery)
    ensures
        packets(log.push(d)) == match d {
            Some(p) => packets(log).push(p),
            None => packets(log),
        },
{
    assert(log.push(d).drop_last() =~= log);
}

/// Byte-stream reassembly buffer, carried across reads on one connection.
/// Its ghost logs record every packet (or idle gap) handed to the engine and
/// every frame the engine sent.
pub struct Session {
    buf: Vec<u8>,
    received: Ghost<Seq<Delivery>>,
    sent: Ghost<Seq<Seq<u8>>>,
    failures: Ghost<nat>,
    waits: Ghost<Seq<u32>>,
    stream: Ghost<Seq<u8>>,
    framed: Ghost<Seq<Seq<u8>>>,
}

impl Session {
    /// Every packet (or idle gap) handed to the engine so far.
    pub closed spec fn log(&self) -> Seq<Delivery> {
        self.received@
    }

    /// Every frame the engine has sent so far.
    pub closed spec fn frames_sent(&self) -> Seq<Seq<u8>> {
        self.sent@
    }

    /// How many transport failures (a failed send or read, or a frame with
    /// an impossible size) the engine has met so far.
    pub closed spec fn faults(&self) -> nat {
        self.failures@
    }

    /// For each entry of [`Session::log`], the read timeout (ms) in effect
    /// when the engine took it.
    pub closed spec fn waited(&self) -> Seq<u32> {
        self.waits@
    }

    /// Every byte read off the wire on this connection, in order.
    pub closed spec fn stream(&self) -> Seq<u8> {
        self.stream@
    }

    /// The bytes of each frame taken off the stream so far, one entry per
    /// delivered packet.
    pub closed spec fn frames(&self) -> Seq<Seq<u8>> {
        self.framed@
    }

    /// Bytes read but not yet part of a whole frame.
    pub closed spec fn pending(&self) -> Seq<u8> {
        self.buf@
    }

    /// Reassembly is faithful: the stream is the delivered frames one after
    /// another, then the pending bytes; each frame decodes, on its own, to
    /// the packet delivered for it.
    pub open spec fn wf(&self) -> bool {
        &&& self.stream() == self.frames().flatten_alt() + self.pending()
        &&& packets(self.log()).len() == self.frames().len()
        &&& forall|i: int| 0 <= i < self.frames().len()
            ==> decodes_to(#[trigger] self.frames()[i], packets(self.log())[i])
    }
}

impl Default for Session {
    fn default() -> (s: Session)
        ensures
            s.log() == Seq::<Delivery>::empty(),
            s.frames_sent() == Seq::<Seq<u8>>::empty(),
            s.faults() == 0,
            s.waited() == Seq::<u32>::empty(),
            s.stream() == Seq::<u8>::empty(),
            s.wf(),
    {
        let s = Session {
            buf: Vec::new(),
            received: Ghost(Seq::empty()),
            sent: Ghost(Seq::empty()),
            failures: Ghost(0),
            waits: Ghost(Seq::empty()),
            stream: Ghost(Seq::empty()),
            framed: Ghost(Seq::empty()),
        };
        assert(s.frames().flatten_alt() + s.pending() =~= Seq::<u8>::empty());
        s
    }
}

pub open spec fn delivery_of(p: Packet) -> Delivery {
    Some((p.id, p.ptype, p.body@))
}

const BUF_LIMIT: usize = 8388622;

impl Session {
    /// Next packet: drains the buffer first, then reads with `timeout_ms`.
    /// `Ok(None)` means the wire went idle for the full timeout (or handed
    /// back nothing at all).
    fn next_packet<W: Wire>(&mut self, wire: &mut W, timeout_ms: u32) -> (r: Result<Option<Packet>, String>)
        requires
            old(self).wf(),
        ensures
            final(self).wf(),
            final(self).frames_sent() == old(self).frames_sent(),
            final(wire).writes() == old(wire).writes(),
            extends(old(wire).reads(), final(wire).reads()),
            final(self).stream() == old(self).stream() + bytes_since(old(wire).reads(), final(wire).reads()),
            match r {
                Ok(Some(p)) => final(self).log() == old(self).log().push(delivery_of(p))
                    && final(self).faults() == old(self).faults()
                    && final(self).waited() == old(self).waited().push(timeout_ms),
                Ok(None) => final(self).log() == old(self).log().push(None)
                    && final(self).faults() == old(self).faults()
                    && final(self).waited() == old(self).waited().push(timeout_ms),
                Err(_) => final(self).log() == old(self).log()
                    && final(self).faults() == old(self).faults() + 1
                    && final(self).waited() == old(self).waited(),
            },
    {
        proof {
            assert(old(wire).reads().skip(old(wire).reads().len() as int) =~= Seq::<Seq<u8>>::empty());
            assert(old(wire).reads().take(old(wire).reads().len() as int) =~= old(wire).reads());
            assert(self.stream@ + Seq::<Seq<u8>>::empty().flatten_alt() =~= self.stream@);
        }
        loop
            invariant
                self.wf(),
                self.received@ == old(self).log(),
                self.sent@ == old(self).frames_sent(),
                self.failures@ == old(self).faults(),
                self.waits@ == old(self).waited(),
                wire.writes() == old(wire).writes(),
                extends(old(wire).reads(), wire.reads()),
                self.stream@ == old(self).stream() + bytes_since(old(wire).reads(), wire.reads()),
            decreases (if self.buf@.len() < BUF_LIMIT { BUF_LIMIT - self.buf@.len() } else { 0 }),
        {
            match try_parse_packet(self.buf.as_slice()) {
                Err(e) => {
                    proof {
                        self.failures@ = self.failures@ + 1;
                    }
                    return Err(e);
                },
                Ok(Some((packet, consumed))) => {
                    let ghost whole = self.buf@;
                    proof {
                        lemma_frame_prefix(whole, packet.id, packet.ptype, packet.body@, consumed as int);
                    }
                    let mut rest: Vec<u8> = Vec::new();
                    let mut i: usize = consumed;
                    while i < self.buf.len()
                        invariant
                            consumed <= i <= self.buf@.len(),
                            self.buf@ == whole,
                            rest@ == whole.subrange(consumed as int, i as int),
                        decreases self.buf@.len() - i,
                    {
                        rest.push(self.buf[i]);
                        assert(whole.subrange(consumed as int, i + 1)
                            == whole.subrange(consumed as int, i as int).push(whole[i as int]));
                        i = i + 1;
                    }
                    self.buf = rest;
                    proof {
                        let f = whole.take(consumed as int);
                        let old_frames = self.framed@;
                        lemma_packets_push(self.received@, delivery_of(packet));
                        lemma_flatten_push(old_frames, f);
                        assert(f + self.buf@ =~= whole);
                        assert(old_frames.flatten_alt() + f + self.buf@ =~= old_frames.flatten_alt() + whole);
                        self.framed@ = old_frames.push(f);
                        self.received@ = self.received@.push(delivery_of(packet));
                        self.waits@ = self.waits@.push(timeout_ms);
                        assert forall|k: int| 0 <= k < self.frames().len()
                            implies decodes_to(#[trigger] self.frames()[k], packets(self.log())[k]) by {
                            if k < old_frames.len() {
                                assert(self.frames()[k] == old_frames[k]);
                            }
                        }
                    }
                    return Ok(Some(packet));
                },
                Ok(None) => {},
            }
            proof {
                if self.buf@.len() >= 4 {
                    assert(self.buf@.len() < 4 + size_field(self.buf@));
                }
            }
            let ghost reads_before = wire.reads();
            let chunk = match wire.recv(RECV_CHUNK, timeout_ms) {
                Ok(c) => c,
                Err(e) => {
                    proof {
                        self.failures@ = self.failures@ + 1;
                    }
                    return Err(e);
                },
            };
            proof {
                lemma_bytes_since_push(old(wire).reads(), reads_before, chunk.data@);
                assert(old(self).stream() + (bytes_since(old(wire).reads(), reads_before) + chunk.data@)
                    =~= self.stream@ + chunk.data@);
                assert(self.framed@.flatten_alt() + (self.buf@ + chunk.data@)
                    =~= self.stream@ + chunk.data@);
                self.stream@ = self.stream@ + chunk.data@;
            }
            if chunk.data.len() == 0 {
                proof {
                    lemma_packets_push(self.received@, None);
                    assert(self.buf@ + chunk.data@ =~= self.buf@);
                    self.received@ = self.received@.push(None);
                    self.waits@ = self.waits@.push(timeout_ms);
                }
                return Ok(None);
            }
            let mut data = chunk.data;
            self.buf.append(&mut data);
        }
    }

    fn send_frame<W: Wire>(&mut self, wire: &mut W, frame: Vec<u8>) -> (r: Result<(), String>)
        requires
            old(self).wf(),
        ensures
            final(self).wf(),
            final(self).stream() == old(self).stream(),
            final(wire).reads() == old(wire).reads(),
            r is Ok ==> final(wire).writes() == old(wire).writes().push(frame@),
            r is Err ==> final(wire).writes() == old(wire).writes(),
            final(self).log() == old(self).log(),
            final(self).waited() == old(self).waited(),
            r is Ok ==> final(self).frames_sent() == old(self).frames_sent().push(frame@)
                && final(self).faults() == old(self).faults(),
            r is Err ==> final(self).frames_sent() == old(self).frames_sent()
                && final(self).faults() == old(self).faults() + 1,
    {
        if let Err(e) = wire.send(frame.as_slice()) {
            proof {
                self.failures@ = self.failures@ + 1;
            }
            return Err(e);
        }
        proof {
            self.sent@ = self.sent@.push(frame@);
        }
        Ok(())
    }
}

/// The first request id a connection hands out, and where ids wrap.
pub const FIRST_REQUEST_ID: i32 = 100;
pub const LAST_REQUEST_ID: i32 = 268435440;

/// The id after `id`: ids count up from [`FIRST_REQUEST_ID`] and wrap far
/// below the sign bit, so counting from there an id is never -1, the
/// auth-failure answer.
pub fn next_request_id(id: i32) -> (r: i32)
    ensures
        r == if id > LAST_REQUEST_ID { FIRST_REQUEST_ID as int } else { id + 1 },
        id >= FIRST_REQUEST_ID ==> FIRST_REQUEST_ID <= r <= LAST_REQUEST_ID + 1,
{
    if id > LAST_REQUEST_ID { FIRST_REQUEST_ID } else { id + 1 }
}

#[derive(Debug, PartialEq, Eq)]
pub enum AuthOutcome {
    Accepted,
    BadPassword,
}

/// Where an authentication exchange stands after the given deliveries:
/// 0 still waiting, 1 accepted, 2 refused, 3 the server went silent.
pub open spec fn auth_status(ev: Seq<Delivery>, request_id: i32) -> int
    decreases ev.len(),
{
    if ev.len() == 0 {
        0
    } else {
        let before = auth_status(ev.drop_last(), request_id);
        if before != 0 {
            before
        } else {
            match ev.last() {
                Some((id, ptype, _)) => if ptype == TYPE_AUTH_RESPONSE {
                    if id == request_id { 1 } else { 2 }
                } else {
                    0
                },
                None => 3,
            }
        }
    }
}

/// Authenticates. Skips any RESPONSE_VALUE packets before the AUTH_RESPONSE
/// (classic srcds sends an empty one; CS2 may not). The answer is decided by
/// the first AUTH_RESPONSE: its id equal to the request id means accepted.
pub fn authenticate<W: Wire>(wire: &mut W, session: &mut Session, password: &str, request_id: i32)
    -> (r: Result<AuthOutcome, String>)
    requires
        password.spec_bytes().len() + 10 <= u32::MAX,
        old(session).wf(),
    ensures
        final(session).wf(),
        extends(old(wire).reads(), final(wire).reads()),
        final(session).stream() == old(session).stream() + bytes_since(old(wire).reads(), final(wire).reads()),
        final(wire).writes() == old(wire).writes() + final(session).frames_sent().skip(old(session).frames_sent().len() as int),
        final(session).log().len() >= old(session).log().len(),
        final(session).log().take(old(session).log().len() as int) == old(session).log(),
        ({
            let ev = final(session).log().skip(old(session).log().len() as int);
            let st = auth_status(ev, request_id);
            let failed = final(session).faults() > old(session).faults();
            &&& ev.len() <= MAX_PACKETS_PER_EXCHANGE
            &&& final(session).faults() <= old(session).faults() + 1
            &&& final(session).waited().len() == old(session).waited().len() + ev.len()
            &&& final(session).waited().take(old(session).waited().len() as int) == old(session).waited()
            &&& forall|j: int| old(session).waited().len() <= j < final(session).waited().len()
                ==> #[trigger] final(session).waited()[j] == FIRST_RESPONSE_TIMEOUT_MS
            &&& (r == Ok::<AuthOutcome, String>(AuthOutcome::Accepted) <==> st == 1)
            &&& (r == Ok::<AuthOutcome, String>(AuthOutcome::BadPassword) <==> st == 2)
            &&& failed ==> r is Err
            &&& !failed ==> (r is Err <==> (st == 3 || (st == 0 && ev.len() == MAX_PACKETS_PER_EXCHANGE)))
        }),
        r is Ok ==> final(session).frames_sent() == old(session).frames_sent().push(
            packet_bytes(request_id, TYPE_AUTH, password.spec_bytes()),
        ),
        final(session).frames_sent() == old(session).frames_sent().push(packet_bytes(request_id, TYPE_AUTH, password.spec_bytes()))
            || (final(session).frames_sent() == old(session).frames_sent() && final(session).log() == old(session).log() && r is Err),
{
    let ghost start = session.received@;
    let frame = encode_packet(request_id, TYPE_AUTH, password.as_bytes());
    let sent = session.send_frame(wire, frame);
    proof {
        lemma_sent_since(old(session).frames_sent(), session.sent@, old(wire).writes(), wire.writes());
        assert(old(wire).reads().skip(old(wire).reads().len() as int) =~= Seq::<Seq<u8>>::empty());
        assert(old(wire).reads().take(old(wire).reads().len() as int) =~= old(wire).reads());
        assert(session.stream@ + Seq::<Seq<u8>>::empty().flatten_alt() =~= session.stream@);
    }
    if let Err(e) = sent {
        return Err(e);
    }
    let ghost sent_after = session.sent@;
    assert(sent_after == old(session).frames_sent().push(
        packet_bytes(request_id, TYPE_AUTH, password.spec_bytes())));
    let mut n: usize = 0;
    assert(session.received@.skip(start.len() as int) =~= Seq::<Delivery>::empty());
    while n < MAX_PACKETS_PER_EXCHANGE
        invariant
            n <= MAX_PACKETS_PER_EXCHANGE,
            session.sent@ == sent_after,
            start == old(session).log(),
            sent_after == old(session).frames_sent().push(
                packet_bytes(request_id, TYPE_AUTH, password.spec_bytes())),
            session.received@.len() == start.len() + n,
            session.received@.take(start.len() as int) == start,
            auth_status(session.received@.skip(start.len() as int), request_id) == 0,
            session.faults() == old(session).faults(),
            session.waited().len() == old(session).waited().len() + n,
            session.waited().take(old(session).waited().len() as int) == old(session).waited(),
            forall|j: int| old(session).waited().len() <= j < session.waited().len()
                ==> #[trigger] session.waited()[j] == FIRST_RESPONSE_TIMEOUT_MS,
            session.wf(),
            wire.writes() == old(wire).writes() + session.sent@.skip(old(session).frames_sent().len() as int),
            extends(old(wire).reads(), wire.reads()),
            session.stream@ == old(session).stream() + bytes_since(old(wire).reads(), wire.reads()),
        decreases MAX_PACKETS_PER_EXCHANGE - n,
    {
        let ghost before = session.received@;
        let ghost reads_before = wire.reads();
        let ghost stream_before = session.stream@;
        let res = session.next_packet(wire, FIRST_RESPONSE_TIMEOUT_MS);
        proof {
            lemma_bytes_since_trans(old(wire).reads(), reads_before, wire.reads());
            assert(old(session).stream() + bytes_since(old(wire).reads(), reads_before)
                + bytes_since(reads_before, wire.reads())
                =~= old(session).stream() + bytes_since(old(wire).reads(), wire.reads()));
        }
        let next = match res {
            Ok(x) => x,
            Err(e) => {
                return Err(e);
            },
        };
        proof {
            assert(session.received@.take(start.len() as int) == start);
            assert(session.received@.skip(start.len() as int).drop_last()
                == before.skip(start.len() as int));
        }
        match next {
            Some(packet) => {
                if packet.ptype == TYPE_AUTH_RESPONSE {
                    if packet.id == request_id {
                        return Ok(AuthOutcome::Accepted);
                    } else {
                        return Ok(AuthOutcome::BadPassword);
                    }
                }
            },
            None => {
                return Err(String::from_str("server did not answer the auth request"));
            },
        }
        n = n + 1;
    }
    Err(String::from_str("no auth response among the first packets"))
}

/// Where a command exchange stands after the given deliveries, with the
/// output collected so far and whether any output or the marker echo has
/// arrived. Status 0 still reading, 1 complete, 2 the server never
/// answered, 3 the output went past its cap.
pub open spec fn exec_state(ev: Seq<Delivery>, request_id: i32, marker_id: i32) -> (int, Seq<u8>, bool, bool)
    decreases ev.len(),
{
    if ev.len() == 0 {
        (0, Seq::<u8>::empty(), false, false)
    } else {
        let (st, out, any, marker) = exec_state(ev.drop_last(), request_id, marker_id);
        if st != 0 {
            (st, out, any, marker)
        } else {
            match ev.last() {
                Some((id, ptype, body)) => if id == marker_id {
                    if any { (1, out, any, marker) } else { (0, out, any, true) }
                } else if id == request_id && ptype == TYPE_RESPONSE_VALUE {
                    if out.len() + body.len() > MAX_TOTAL_OUTPUT {
                        (3, out, any, marker)
                    } else {
                        (0, out + body, true, marker)
                    }
                } else {
                    (0, out, any, marker)
                },
                None => if any || marker { (1, out, any, marker) } else { (2, out, any, marker) },
            }
        }
    }
}

/// Runs one command and returns its full (possibly multi-packet) output.
///
/// An end-marker request (an empty RESPONSE_VALUE the server echoes back in
/// order) delimits the response; servers that do not echo it are handled by
/// the idle-gap fallback. Packets with foreign ids are skipped.
pub fn execute<W: Wire>(
    wire: &mut W,
    session: &mut Session,
    command: &str,
    request_id: i32,
    marker_id: i32,
) -> (r: Result<String, String>)
    requires
        command.spec_bytes().len() + 10 <= u32::MAX,
        old(session).wf(),
    ensures
        final(session).wf(),
        extends(old(wire).reads(), final(wire).reads()),
        final(session).stream() == old(session).stream() + bytes_since(old(wire).reads(), final(wire).reads()),
        final(wire).writes() == old(wire).writes() + final(session).frames_sent().skip(old(session).frames_sent().len() as int),
        final(session).log().len() >= old(session).log().len(),
        final(session).log().take(old(session).log().len() as int) == old(session).log(),
        ({
            let ev = final(session).log().skip(old(session).log().len() as int);
            let st = exec_state(ev, request_id, marker_id);
            let failed = final(session).faults() > old(session).faults();
            &&& ev.len() <= MAX_PACKETS_PER_EXCHANGE
            &&& final(session).faults() <= old(session).faults() + 1
            &&& final(session).waited().len() == old(session).waited().len() + ev.len()
            &&& final(session).waited().take(old(session).waited().len() as int) == old(session).waited()
            &&& forall|j: int| 0 <= j < ev.len() ==> #[trigger] final(session).waited()[old(session).waited().len() + j]
                == (if exec_state(ev.take(j), request_id, marker_id).2 || exec_state(ev.take(j), request_id, marker_id).3 {
                    IDLE_TIMEOUT_MS
                } else {
                    FIRST_RESPONSE_TIMEOUT_MS
                })
            &&& r matches Ok(s) ==> {
                &&& st.0 == 1 || (st.0 == 0 && ev.len() == MAX_PACKETS_PER_EXCHANGE)
                &&& s@ == utf8_lossy(st.1)
            }
            &&& (r is Err <==> (failed || st.0 >= 2))
        }),
        r is Ok ==> final(session).frames_sent() == old(session).frames_sent().push(
            packet_bytes(request_id, TYPE_EXEC_COMMAND, command.spec_bytes()),
        ).push(packet_bytes(marker_id, TYPE_RESPONSE_VALUE, Seq::<u8>::empty())),
        final(session).frames_sent() == old(session).frames_sent().push(packet_bytes(request_id, TYPE_EXEC_COMMAND, command.spec_bytes()))
                .push(packet_bytes(marker_id, TYPE_RESPONSE_VALUE, Seq::<u8>::empty()))
            || (final(session).log() == old(session).log() && r is Err && (
                final(session).frames_sent() == old(session).frames_sent()
                || final(session).frames_sent() == old(session).frames_sent().push(packet_bytes(request_id, TYPE_EXEC_COMMAND, command.spec_bytes())))),
{
    let ghost start = session.received@;
    proof {
        assert(old(wire).reads().skip(old(wire).reads().len() as int) =~= Seq::<Seq<u8>>::empty());
        assert(old(wire).reads().take(old(wire).reads().len() as int) =~= old(wire).reads());
        assert(session.stream@ + Seq::<Seq<u8>>::empty().flatten_alt() =~= session.stream@);
    }
    let frame = encode_packet(request_id, TYPE_EXEC_COMMAND, command.as_bytes());
    let ghost frame_view = frame@;
    let sent = session.send_frame(wire, frame);
    proof {
        lemma_sent_since(old(session).frames_sent(), session.sent@, old(wire).writes(), wire.writes());
    }
    if let Err(e) = sent {
        return Err(e);
    }
    let ghost sent_mid = session.sent@;
    let ghost writes_mid = wire.writes();
    let empty: Vec<u8> = Vec::new();
    let marker = encode_packet(marker_id, TYPE_RESPONSE_VALUE, empty.as_slice());
    let ghost marker_view = marker@;
    let sent = session.send_frame(wire, marker);
    proof {
        lemma_sent_since(old(session).frames_sent(), session.sent@, old(wire).writes(), wire.writes());
        if sent is Ok {
            assert(session.sent@.skip(old(session).frames_sent().len() as int)
                =~= seq![frame_view, marker_view]);
        } else {
            assert(session.sent@.skip(old(session).frames_sent().len() as int) =~= seq![frame_view]);
        }
        assert(wire.writes() =~= old(wire).writes() + session.sent@.skip(old(session).frames_sent().len() as int));
    }
    if let Err(e) = sent {
        return Err(e);
    }
    let ghost sent_after = session.sent@;
    assert(sent_after == old(session).frames_sent().push(
        packet_bytes(request_id, TYPE_EXEC_COMMAND, command.spec_bytes()),
    ).push(packet_bytes(marker_id, TYPE_RESPONSE_VALUE, Seq::<u8>::empty())));

    let mut output: Vec<u8> = Vec::new();
    let mut received_any = false;
    let mut marker_seen = false;
    let mut n: usize = 0;
    assert(session.received@.skip(start.len() as int) =~= Seq::<Delivery>::empty());
    while n < MAX_PACKETS_PER_EXCHANGE
        invariant
            n <= MAX_PACKETS_PER_EXCHANGE,
            session.sent@ == sent_after,
            start == old(session).log(),
            sent_after == old(session).frames_sent().push(
                packet_bytes(request_id, TYPE_EXEC_COMMAND, command.spec_bytes()),
            ).push(packet_bytes(marker_id, TYPE_RESPONSE_VALUE, Seq::<u8>::empty())),
            output@.len() <= MAX_TOTAL_OUTPUT,
            session.received@.len() == start.len() + n,
            session.received@.take(start.len() as int) == start,
            exec_state(session.received@.skip(start.len() as int), request_id, marker_id)
                == (0int, output@, received_any, marker_seen),
            session.faults() == old(session).faults(),
            session.waited().len() == old(session).waited().len() + n,
            session.waited().take(old(session).waited().len() as int) == old(session).waited(),
            forall|j: int| 0 <= j < n ==> #[trigger] session.waited()[old(session).waited().len() + j]
                == (if exec_state(session.received@.skip(start.len() as int).take(j), request_id, marker_id).2
                    || exec_state(session.received@.skip(start.len() as int).take(j), request_id, marker_id).3 {
                    IDLE_TIMEOUT_MS
                } else {
                    FIRST_RESPONSE_TIMEOUT_MS
                }),
            session.wf(),
            wire.writes() == old(wire).writes() + session.sent@.skip(old(session).frames_sent().len() as int),
            extends(old(wire).reads(), wire.reads()),
            session.stream@ == old(session).stream() + bytes_since(old(wire).reads(), wire.reads()),
        decreases MAX_PACKETS_PER_EXCHANGE - n,
    {
        let timeout_ms = if received_any || marker_seen {
            IDLE_TIMEOUT_MS
        } else {
            FIRST_RESPONSE_TIMEOUT_MS
        };
        let ghost before = session.received@;
        let ghost w_before = session.waited();
        let ghost reads_before = wire.reads();
        let res = session.next_packet(wire, timeout_ms);
        proof {
            lemma_bytes_since_trans(old(wire).reads(), reads_before, wire.reads());
            assert(old(session).stream() + bytes_since(old(wire).reads(), reads_before)
                + bytes_since(reads_before, wire.reads())
                =~= old(session).stream() + bytes_since(old(wire).reads(), wire.reads()));
        }
        let next = match res {
            Ok(x) => x,
            Err(e) => {
                return Err(e);
            },
        };
        proof {
            assert(session.received@.take(start.len() as int) == start);
            assert(session.received@.skip(start.len() as int).drop_last()
                == before.skip(start.len() as int));
            let w0 = old(session).waited().len();
            let ev0 = before.skip(start.len() as int);
            let ev2 = session.received@.skip(start.len() as int);
            assert(ev0.len() == n);
            assert forall|j: int| 0 <= j < n + 1 implies #[trigger] session.waited()[w0 + j]
                == (if exec_state(ev2.take(j), request_id, marker_id).2 || exec_state(ev2.take(j), request_id, marker_id).3 {
                    IDLE_TIMEOUT_MS
                } else {
                    FIRST_RESPONSE_TIMEOUT_MS
                }) by {
                assert(ev2.take(j) =~= ev0.take(j));
                if j == n {
                    assert(ev0.take(j) =~= ev0);
                } else {
                    assert(session.waited()[w0 + j] == w_before[w0 + j]);
                }
            }
            assert(session.waited().take(w0 as int) =~= w_before.take(w0 as int));
        }
        match next {
            Some(packet) => {
                if packet.id == marker_id {
                    if received_any {
                        return Ok(decode_lossy(output.as_slice()));
                    }
                    marker_seen = true;
                } else if packet.id == request_id && packet.ptype == TYPE_RESPONSE_VALUE {
                    received_any = true;
                    if packet.body.len() > MAX_TOTAL_OUTPUT - output.len() {
                        return Err(String::from_str("response exceeds the output cap"));
                    }
                    let mut body = packet.body;
                    output.append(&mut body);
                }
            },
            None => {
                if received_any || marker_seen {
                    return Ok(decode_lossy(output.as_slice()));
                }
                return Err(String::from_str("server did not answer the command"));
            },
        }
        n = n + 1;
    }
    Ok(decode_lossy(output.as_slice()))
}

} // verus!
