//! RCON wire framing.
//!
//! Each packet travels as a little-endian 32-bit length (of everything that
//! follows), a little-endian 32-bit request identifier, a little-endian
//! 32-bit packet type, the body as a null-terminated byte string, and one
//! additional terminating byte. A receiver must buffer raw socket bytes
//! until a whole frame is present before decoding.

use vstd::prelude::*;

verus! {

use vstd::bytes::{
    lemma_auto_spec_u32_to_from_le_bytes, spec_u32_from_le_bytes, spec_u32_to_le_bytes,
    u32_from_le_bytes, u32_to_le_bytes,
};
use vstd::slice::slice_subrange;

/// Packet type of an authentication request.
pub const TYPE_AUTH: u32 = 3;

/// Packet type of the server's reply to an authentication request.
pub const TYPE_AUTH_RESPONSE: u32 = 2;

/// Packet type of a command-execution request.
pub const TYPE_EXEC_COMMAND: u32 = 2;

/// Packet type of the server's reply to an executed command.
pub const TYPE_COMMAND_RESPONSE: u32 = 0;

/// One RCON packet: request identifier, packet type, and body.
pub struct Packet {
    pub id: u32,
    pub ptype: u32,
    pub body: Vec<u8>,
}

impl Packet {
    /// A packet that can be framed: the body carries no NUL byte (it is
    /// sent null-terminated) and fits the 32-bit length prefix.
    pub open spec fn wf(self) -> bool {
        &&& forall|i: int| 0 <= i < self.body@.len() ==> self.body@[i] != 0u8
        &&& self.body@.len() + 10 <= u32::MAX
    }
}

/// The bytes that follow the length prefix: identifier, type, body, NUL,
/// and the extra terminating NUL.
pub open spec fn spec_payload(p: Packet) -> Seq<u8> {
    spec_u32_to_le_bytes(p.id) + spec_u32_to_le_bytes(p.ptype) + p.body@ + seq![0u8, 0u8]
}

/// A whole frame: the payload's length as little-endian 32 bits, then the
/// payload itself.
pub open spec fn spec_frame(p: Packet) -> Seq<u8> {
    spec_u32_to_le_bytes((p.body@.len() + 10) as u32) + spec_payload(p)
}

/// Where each part of a payload sits, and that the two terminators are in
/// place.
pub proof fn lemma_payload_parts(p: Packet)
    ensures
        spec_payload(p).len() == p.body@.len() + 10,
        spec_payload(p).subrange(0, 4) == spec_u32_to_le_bytes(p.id),
        spec_payload(p).subrange(4, 8) == spec_u32_to_le_bytes(p.ptype),
        spec_payload(p).subrange(8, spec_payload(p).len() - 2) == p.body@,
        spec_payload(p)[spec_payload(p).len() - 2] == 0u8,
        spec_payload(p)[spec_payload(p).len() - 1] == 0u8,
{
    lemma_auto_spec_u32_to_from_le_bytes();
    let s = spec_payload(p);
    assert(s.subrange(0, 4) =~= spec_u32_to_le_bytes(p.id));
    assert(s.subrange(4, 8) =~= spec_u32_to_le_bytes(p.ptype));
    assert(s.subrange(8, s.len() - 2) =~= p.body@);
}

/// Law: a payload determines its packet. Two well-formed packets with the
/// same payload agree in identifier, type and body, so decoding is
/// unambiguous.
pub proof fn lemma_payload_injective(p: Packet, q: Packet)
    requires
        spec_payload(p) == spec_payload(q),
    ensures
        p.id == q.id,
        p.ptype == q.ptype,
        p.body@ == q.body@,
{
    lemma_auto_spec_u32_to_from_le_bytes();
    lemma_payload_parts(p);
    lemma_payload_parts(q);
    assert(p.body@.len() == q.body@.len());
    assert(spec_u32_to_le_bytes(p.id) == spec_u32_to_le_bytes(q.id));
    assert(spec_u32_from_le_bytes(spec_u32_to_le_bytes(p.id)) == spec_u32_from_le_bytes(
        spec_u32_to_le_bytes(q.id),
    ));
    assert(spec_u32_to_le_bytes(p.ptype) == spec_u32_to_le_bytes(q.ptype));
    assert(spec_u32_from_le_bytes(spec_u32_to_le_bytes(p.ptype)) == spec_u32_from_le_bytes(
        spec_u32_to_le_bytes(q.ptype),
    ));
}

/// Encodes a packet as the frame that carries it on the wire.
pub fn encode_packet(p: &Packet) -> (out: Vec<u8>)
    requires
        p.wf(),
    ensures
        out@ == spec_frame(*p),
{
    proof {
        lemma_auto_spec_u32_to_from_le_bytes();
    }
    let len: u32 = (p.body.len() + 10) as u32;
    let mut out = u32_to_le_bytes(len);
    let mut id_bytes = u32_to_le_bytes(p.id);
    out.append(&mut id_bytes);
    let mut type_bytes = u32_to_le_bytes(p.ptype);
    out.append(&mut type_bytes);
    let mut i: usize = 0;
    while i < p.body.len()
        invariant
            i <= p.body@.len(),
            out@ == spec_u32_to_le_bytes((p.body@.len() + 10) as u32) + spec_u32_to_le_bytes(p.id)
                + spec_u32_to_le_bytes(p.ptype) + p.body@.subrange(0, i as int),
        decreases p.body@.len() - i,
    {
        out.push(p.body[i]);
        proof {
            assert(p.body@.subrange(0, i + 1) =~= p.body@.subrange(0, i as int).push(p.body@[i as int]));
        }
        i = i + 1;
    }
    out.push(0);
    out.push(0);
    proof {
        assert(p.body@.subrange(0, p.body@.len() as int) =~= p.body@);
        assert(out@ =~= spec_frame(*p));
    }
    out
}

/// Decodes the payload of one frame (the bytes after the length prefix).
/// It succeeds exactly on the payload of a well-formed packet, and returns
/// that packet.
pub fn decode_payload(buf: &[u8]) -> (r: Option<Packet>)
    ensures
        match r {
            Some(p) => p.wf() && buf@ == spec_payload(p),
            None => forall|p: Packet| p.wf() ==> buf@ != spec_payload(p),
        },
{
    proof {
        lemma_auto_spec_u32_to_from_le_bytes();
    }
    let n = buf.len();
    if n < 10 {
        proof {
            assert forall|p: Packet| p.wf() implies buf@ != spec_payload(p) by {
                lemma_payload_parts(p);
            }
        }
        return None;
    }
    if n - 10 > (u32::MAX - 10) as usize {
        proof {
            assert forall|p: Packet| p.wf() implies buf@ != spec_payload(p) by {
                lemma_payload_parts(p);
            }
        }
        return None;
    }
    if buf[n - 2] != 0 || buf[n - 1] != 0 {
        proof {
            assert forall|p: Packet| p.wf() implies buf@ != spec_payload(p) by {
                lemma_payload_parts(p);
            }
        }
        return None;
    }
    let id = u32_from_le_bytes(slice_subrange(buf, 0, 4));
    let ptype = u32_from_le_bytes(slice_subrange(buf, 4, 8));
    let mut body: Vec<u8> = Vec::new();
    let mut i: usize = 8;
    while i < n - 2
        invariant
            8 <= i <= n - 2,
            n == buf@.len(),
            10 <= n,
            body@ == buf@.subrange(8, i as int),
            forall|j: int| 0 <= j < body@.len() ==> body@[j] != 0u8,
        decreases n - i,
    {
        let c = buf[i];
        if c == 0 {
            proof {
                assert forall|p: Packet| p.wf() implies buf@ != spec_payload(p) by {
                    lemma_payload_parts(p);
                    if buf@ == spec_payload(p) {
                        assert(p.body@ == buf@.subrange(8, n - 2));
                        assert(p.body@[i - 8] == buf@[i as int]);
                    }
                }
            }
            return None;
        }
        body.push(c);
        proof {
            assert(buf@.subrange(8, i + 1) =~= buf@.subrange(8, i as int).push(buf@[i as int]));
        }
        i = i + 1;
    }
    let p = Packet { id, ptype, body };
    proof {
        lemma_payload_parts(p);
        assert(spec_u32_to_le_bytes(p.id) =~= buf@.subrange(0, 4));
        assert(spec_u32_to_le_bytes(p.ptype) =~= buf@.subrange(4, 8));
        assert(buf@ =~= spec_payload(p));
    }
    Some(p)
}

/// A frame is complete at the head of `buf`: the length prefix is there,
/// and so are all the payload bytes it declares.
pub open spec fn frame_ready(buf: Seq<u8>) -> bool {
    buf.len() >= 4 && buf.len() - 4 >= spec_u32_from_le_bytes(buf.subrange(0, 4))
}

/// Length the head frame's prefix declares for its payload.
pub open spec fn frame_len(buf: Seq<u8>) -> int {
    spec_u32_from_le_bytes(buf.subrange(0, 4)) as int
}

/// Buffers raw socket bytes until a whole frame is present, so that a
/// packet is only decoded once exactly its declared bytes have arrived.
pub struct RecvBuffer {
    data: Vec<u8>,
}

impl View for RecvBuffer {
    type V = Seq<u8>;

    closed spec fn view(&self) -> Seq<u8> {
        self.data@
    }
}

impl RecvBuffer {
    /// An empty receive buffer.
    pub fn new() -> (r: RecvBuffer)
        ensures
            r@ == Seq::<u8>::empty(),
    {
        RecvBuffer { data: Vec::new() }
    }

    /// Appends one socket read's bytes to the buffer.
    pub fn push_bytes(&mut self, chunk: &[u8])
        ensures
            final(self)@ == old(self)@ + chunk@,
    {
        let mut i: usize = 0;
        while i < chunk.len()
            invariant
                i <= chunk@.len(),
                self@ == old(self)@ + chunk@.subrange(0, i as int),
            decreases chunk@.len() - i,
        {
            self.data.push(chunk[i]);
            proof {
                assert(chunk@.subrange(0, i + 1) =~= chunk@.subrange(0, i as int).push(chunk@[i as int]));
            }
            i = i + 1;
        }
        proof {
            assert(chunk@.subrange(0, chunk@.len() as int) =~= chunk@);
        }
    }

    /// When a whole frame is buffered, removes it and returns its payload;
    /// otherwise leaves the buffer as it is.
    pub fn take_frame(&mut self) -> (r: Option<Vec<u8>>)
        ensures
            match r {
                Some(payload) => {
                    &&& frame_ready(old(self)@)
                    &&& payload@ == old(self)@.subrange(4, 4 + frame_len(old(self)@))
                    &&& final(self)@ == old(self)@.skip(4 + frame_len(old(self)@))
                },
                None => final(self)@ == old(self)@ && !frame_ready(old(self)@),
            },
    {
        if self.data.len() < 4 {
            return None;
        }
        let declared = u32_from_le_bytes(slice_subrange(self.data.as_slice(), 0, 4));
        let need = declared as usize;
        if self.data.len() - 4 < need {
            return None;
        }
        let end: usize = 4 + need;
        let mut payload: Vec<u8> = Vec::new();
        let mut i: usize = 4;
        while i < end
            invariant
                end == 4 + need,
                4 <= i <= 4 + need,
                4 + need <= self@.len(),
                self@ == old(self)@,
                need == frame_len(old(self)@),
                payload@ == self@.subrange(4, i as int),
            decreases 4 + need - i,
        {
            payload.push(self.data[i]);
            proof {
                assert(self@.subrange(4, i + 1) =~= self@.subrange(4, i as int).push(self@[i as int]));
            }
            i = i + 1;
        }
        let mut rest: Vec<u8> = Vec::new();
        let mut j: usize = end;
        while j < self.data.len()
            invariant
                4 + need <= j <= self@.len(),
                self@ == old(self)@,
                need == frame_len(old(self)@),
                rest@ == self@.subrange(4 + need as int, j as int),
            decreases self@.len() - j,
        {
            rest.push(self.data[j]);
            proof {
                assert(self@.subrange(4 + need as int, j + 1) =~= self@.subrange(4 + need as int, j as int).push(self@[j as int]));
            }
            j = j + 1;
        }
        proof {
            assert(rest@ =~= old(self)@.skip(4 + frame_len(old(self)@)));
        }
        self.data = rest;
        Some(payload)
    }
}

/// Law: framing round-trips. An encoded frame, however many later bytes
/// sit behind it in the receive buffer, is complete, yields exactly the
/// packet's payload, and leaves exactly the later bytes behind.
pub proof fn lemma_frame_round_trip(p: Packet, rest: Seq<u8>)
    requires
        p.wf(),
    ensures
        frame_ready(spec_frame(p) + rest),
        (spec_frame(p) + rest).subrange(4, 4 + frame_len(spec_frame(p) + rest)) == spec_payload(p),
        (spec_frame(p) + rest).skip(4 + frame_len(spec_frame(p) + rest)) == rest,
{
    lemma_auto_spec_u32_to_from_le_bytes();
    lemma_payload_parts(p);
    let buf = spec_frame(p) + rest;
    assert(buf.subrange(0, 4) =~= spec_u32_to_le_bytes((p.body@.len() + 10) as u32));
    assert(frame_len(buf) == p.body@.len() + 10);
    assert(buf.subrange(4, 4 + frame_len(buf)) =~= spec_payload(p));
    assert(buf.skip(4 + frame_len(buf)) =~= rest);
}

} // verus!
