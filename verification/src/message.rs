//! The peer wire messages: the length-prefixed framing, the sixteen-odd
//! message kinds, and the proof that frames round-trip.

use vstd::prelude::*;

verus! {

use crate::handshake::{push_bytes, WireError};

/// The four bytes of `n` in network order.
pub open spec fn u32_be(n: u32) -> Seq<u8> {
    seq![(n >> 24) as u8, ((n >> 16) & 0xff) as u8, ((n >> 8) & 0xff) as u8, (n & 0xff) as u8]
}

/// The two bytes of `n` in network order.
pub open spec fn u16_be(n: u16) -> Seq<u8> {
    seq![((n >> 8) & 0xff) as u8, (n & 0xff) as u8]
}

/// The number a four-byte network-order field holds.
pub open spec fn u32_from_be(b0: u8, b1: u8, b2: u8, b3: u8) -> u32 {
    ((b0 as u32) << 24) | ((b1 as u32) << 16) | ((b2 as u32) << 8) | (b3 as u32)
}

/// The number a two-byte network-order field holds.
pub open spec fn u16_from_be(b0: u8, b1: u8) -> u16 {
    ((b0 as u16) << 8) | (b1 as u16)
}

/// Network order round-trips.
pub proof fn lemma_u32_be_round_trip(n: u32)
    ensures
        u32_from_be(u32_be(n)[0], u32_be(n)[1], u32_be(n)[2], u32_be(n)[3]) == n,
{
    assert((((n >> 24) as u8 as u32) << 24) | ((((n >> 16) & 0xff) as u8 as u32) << 16) | ((((n
        >> 8) & 0xff) as u8 as u32) << 8) | ((n & 0xff) as u8 as u32) == n) by (bit_vector);
}

/// Network order round-trips for ports.
pub proof fn lemma_u16_be_round_trip(n: u16)
    ensures
        u16_from_be(u16_be(n)[0], u16_be(n)[1]) == n,
{
    assert(((((n >> 8) & 0xff) as u8 as u16) << 8) | ((n & 0xff) as u8 as u16) == n)
        by (bit_vector);
}

/// Append the four network-order bytes of `n`.
pub fn push_u32_be(out: &mut Vec<u8>, n: u32)
    ensures
        final(out)@ == old(out)@ + u32_be(n),
{
    out.push((n >> 24) as u8);
    out.push(((n >> 16) & 0xff) as u8);
    out.push(((n >> 8) & 0xff) as u8);
    out.push((n & 0xff) as u8);
    proof {
        assert(out@ =~= old(out)@ + u32_be(n));
    }
}

/// Append the two network-order bytes of `n`.
pub fn push_u16_be(out: &mut Vec<u8>, n: u16)
    ensures
        final(out)@ == old(out)@ + u16_be(n),
{
    out.push(((n >> 8) & 0xff) as u8);
    out.push((n & 0xff) as u8);
    proof {
        assert(out@ =~= old(out)@ + u16_be(n));
    }
}

/// Read a four-byte network-order field at `off`.
pub fn read_u32_be(s: &[u8], off: usize) -> (r: u32)
    requires
        off + 4 <= s@.len(),
    ensures
        r == u32_from_be(s@[off as int], s@[off + 1], s@[off + 2], s@[off + 3]),
{
    let n = s.len();
    ((s[off] as u32) << 24) | ((s[off + 1] as u32) << 16) | ((s[off + 2] as u32) << 8) | (s[off
        + 3] as u32)
}

/// Read a two-byte network-order field at `off`.
pub fn read_u16_be(s: &[u8], off: usize) -> (r: u16)
    requires
        off + 2 <= s@.len(),
    ensures
        r == u16_from_be(s@[off as int], s@[off + 1]),
{
    let n = s.len();
    ((s[off] as u16) << 8) | (s[off + 1] as u16)
}

/// A block of a piece, as carried by a `Piece` message.
#[derive(Debug, PartialEq, Eq)]
pub struct Piece {
    pub index: u32,
    pub begin: u32,
    pub block: Vec<u8>,
}

/// Model of a `Piece`.
#[verifier::ext_equal]
pub struct SpecPiece {
    pub index: u32,
    pub begin: u32,
    pub block: Seq<u8>,
}

impl View for Piece {
    type V = SpecPiece;

    open spec fn view(&self) -> SpecPiece {
        SpecPiece { index: self.index, begin: self.begin, block: self.block@ }
    }
}

/// A peer wire message. Unknown ids are preserved, not fatal.
#[derive(Debug, PartialEq, Eq)]
pub enum Message {
    KeepAlive,
    Choke,
    Unchoke,
    Interested,
    NotInterested,
    Have(u32),
    Bitfield(Vec<u8>),
    Request { index: u32, begin: u32, length: u32 },
    Piece(Piece),
    Cancel { index: u32, begin: u32, length: u32 },
    Port(u16),
    Extended { id: u8, payload: Vec<u8> },
    Unknown { id: u8, payload: Vec<u8> },
}

/// Model of a `Message`.
#[verifier::ext_equal]
pub enum SpecMessage {
    KeepAlive,
    Choke,
    Unchoke,
    Interested,
    NotInterested,
    Have(u32),
    Bitfield(Seq<u8>),
    Request { index: u32, begin: u32, length: u32 },
    Piece(SpecPiece),
    Cancel { index: u32, begin: u32, length: u32 },
    Port(u16),
    Extended { id: u8, payload: Seq<u8> },
    Unknown { id: u8, payload: Seq<u8> },
}

impl View for Message {
    type V = SpecMessage;

    open spec fn view(&self) -> SpecMessage {
        match self {
            Message::KeepAlive => SpecMessage::KeepAlive,
            Message::Choke => SpecMessage::Choke,
            Message::Unchoke => SpecMessage::Unchoke,
            Message::Interested => SpecMessage::Interested,
            Message::NotInterested => SpecMessage::NotInterested,
            Message::Have(i) => SpecMessage::Have(*i),
            Message::Bitfield(b) => SpecMessage::Bitfield(b@),
            Message::Request { index, begin, length } => SpecMessage::Request {
                index: *index,
                begin: *begin,
                length: *length,
            },
            Message::Piece(p) => SpecMessage::Piece(p@),
            Message::Cancel { index, begin, length } => SpecMessage::Cancel {
                index: *index,
                begin: *begin,
                length: *length,
            },
            Message::Port(p) => SpecMessage::Port(*p),
            Message::Extended { id, payload } => SpecMessage::Extended {
                id: *id,
                payload: payload@,
            },
            Message::Unknown { id, payload } => SpecMessage::Unknown {
                id: *id,
                payload: payload@,
            },
        }
    }
}

impl SpecMessage {
    /// A message the framing layer can carry: payloads fit a 32-bit length
    /// prefix, and an `Unknown` id really is unknown.
    pub open spec fn wf(self) -> bool {
        match self {
            SpecMessage::Bitfield(b) => b.len() + 1 <= u32::MAX,
            SpecMessage::Piece(p) => p.block.len() + 9 <= u32::MAX,
            SpecMessage::Extended { payload, .. } => payload.len() + 2 <= u32::MAX,
            SpecMessage::Unknown { id, payload } => payload.len() + 1 <= u32::MAX && id != 0 && id
                != 1 && id != 2 && id != 3 && id != 4 && id != 5 && id != 6 && id != 7 && id != 8
                && id != 9 && id != 20,
            _ => true,
        }
    }
}

/// The id and body of a message: what stands after the length prefix.
pub open spec fn spec_payload(m: SpecMessage) -> Seq<u8> {
    match m {
        SpecMessage::KeepAlive => Seq::empty(),
        SpecMessage::Choke => seq![0u8],
        SpecMessage::Unchoke => seq![1u8],
        SpecMessage::Interested => seq![2u8],
        SpecMessage::NotInterested => seq![3u8],
        SpecMessage::Have(i) => seq![4u8] + u32_be(i),
        SpecMessage::Bitfield(b) => seq![5u8] + b,
        SpecMessage::Request { index, begin, length } => seq![6u8] + u32_be(index) + u32_be(begin)
            + u32_be(length),
        SpecMessage::Piece(p) => seq![7u8] + u32_be(p.index) + u32_be(p.begin) + p.block,
        SpecMessage::Cancel { index, begin, length } => seq![8u8] + u32_be(index) + u32_be(begin)
            + u32_be(length),
        SpecMessage::Port(p) => seq![9u8] + u16_be(p),
        SpecMessage::Extended { id, payload } => seq![20u8] + seq![id] + payload,
        SpecMessage::Unknown { id, payload } => seq![id] + payload,
    }
}

/// A whole frame: 32-bit network-order payload length, then the payload.
pub open spec fn spec_frame(m: SpecMessage) -> Seq<u8> {
    u32_be(spec_payload(m).len() as u32) + spec_payload(m)
}

/// Parse a frame payload (the bytes after the length prefix).
pub open spec fn spec_parse_payload(p: Seq<u8>) -> Result<SpecMessage, WireError> {
    if p.len() == 0 {
        Ok(SpecMessage::KeepAlive)
    } else {
        let id = p[0];
        let rest = p.subrange(1, p.len() as int);
        if id == 0 {
            if rest.len() == 0 {
                Ok(SpecMessage::Choke)
            } else {
                Err(WireError::MalformedMessage { id })
            }
        } else if id == 1 {
            if rest.len() == 0 {
                Ok(SpecMessage::Unchoke)
            } else {
                Err(WireError::MalformedMessage { id })
            }
        } else if id == 2 {
            if rest.len() == 0 {
                Ok(SpecMessage::Interested)
            } else {
                Err(WireError::MalformedMessage { id })
            }
        } else if id == 3 {
            if rest.len() == 0 {
                Ok(SpecMessage::NotInterested)
            } else {
                Err(WireError::MalformedMessage { id })
            }
        } else if id == 4 {
            if rest.len() == 4 {
                Ok(SpecMessage::Have(u32_from_be(rest[0], rest[1], rest[2], rest[3])))
            } else {
                Err(WireError::MalformedMessage { id })
            }
        } else if id == 5 {
            Ok(SpecMessage::Bitfield(rest))
        } else if id == 6 {
            if rest.len() == 12 {
                Ok(
                    SpecMessage::Request {
                        index: u32_from_be(rest[0], rest[1], rest[2], rest[3]),
                        begin: u32_from_be(rest[4], rest[5], rest[6], rest[7]),
                        length: u32_from_be(rest[8], rest[9], rest[10], rest[11]),
                    },
                )
            } else {
                Err(WireError::MalformedMessage { id })
            }
        } else if id == 7 {
            if rest.len() >= 8 {
                Ok(
                    SpecMessage::Piece(
                        SpecPiece {
                            index: u32_from_be(rest[0], rest[1], rest[2], rest[3]),
                            begin: u32_from_be(rest[4], rest[5], rest[6], rest[7]),
                            block: rest.subrange(8, rest.len() as int),
                        },
                    ),
                )
            } else {
                Err(WireError::MalformedMessage { id })
            }
        } else if id == 8 {
            if rest.len() == 12 {
                Ok(
                    SpecMessage::Cancel {
                        index: u32_from_be(rest[0], rest[1], rest[2], rest[3]),
                        begin: u32_from_be(rest[4], rest[5], rest[6], rest[7]),
                        length: u32_from_be(rest[8], rest[9], rest[10], rest[11]),
                    },
                )
            } else {
                Err(WireError::MalformedMessage { id })
            }
        } else if id == 9 {
            if rest.len() == 2 {
                Ok(SpecMessage::Port(u16_from_be(rest[0], rest[1])))
            } else {
                Err(WireError::MalformedMessage { id })
            }
        } else if id == 20 {
            if rest.len() >= 1 {
                Ok(
                    SpecMessage::Extended {
                        id: rest[0],
                        payload: rest.subrange(1, rest.len() as int),
                    },
                )
            } else {
                Err(WireError::MalformedMessage { id })
            }
        } else {
            Ok(SpecMessage::Unknown { id, payload: rest })
        }
    }
}

impl Message {
    pub fn keep_alive() -> (r: Self)
        ensures
            r@ == SpecMessage::KeepAlive,
    {
        Message::KeepAlive
    }

    pub fn choke() -> (r: Self)
        ensures
            r@ == SpecMessage::Choke,
    {
        Message::Choke
    }

    pub fn unchoke() -> (r: Self)
        ensures
            r@ == SpecMessage::Unchoke,
    {
        Message::Unchoke
    }

    pub fn interested() -> (r: Self)
        ensures
            r@ == SpecMessage::Interested,
    {
        Message::Interested
    }

    pub fn not_interested() -> (r: Self)
        ensures
            r@ == SpecMessage::NotInterested,
    {
        Message::NotInterested
    }

    pub fn have(piece_index: u32) -> (r: Self)
        ensures
            r@ == SpecMessage::Have(piece_index),
    {
        Message::Have(piece_index)
    }

    pub fn bitfield(bitfield: Vec<u8>) -> (r: Self)
        ensures
            r@ == SpecMessage::Bitfield(bitfield@),
    {
        Message::Bitfield(bitfield)
    }

    pub fn request(index: u32, begin: u32, length: u32) -> (r: Self)
        ensures
            r@ == (SpecMessage::Request { index, begin, length }),
    {
        Message::Request { index, begin, length }
    }

    pub fn piece(index: u32, begin: u32, block: Vec<u8>) -> (r: Self)
        ensures
            r@ == SpecMessage::Piece(SpecPiece { index, begin, block: block@ }),
    {
        Message::Piece(Piece { index, begin, block })
    }

    pub fn cancel(index: u32, begin: u32, length: u32) -> (r: Self)
        ensures
            r@ == (SpecMessage::Cancel { index, begin, length }),
    {
        Message::Cancel { index, begin, length }
    }

    pub fn port(port: u16) -> (r: Self)
        ensures
            r@ == SpecMessage::Port(port),
    {
        Message::Port(port)
    }

    pub fn unknown(id: u8, payload: Vec<u8>) -> (r: Self)
        ensures
            r@ == (SpecMessage::Unknown { id, payload: payload@ }),
    {
        Message::Unknown { id, payload }
    }

    /// The number of bytes the whole frame of this message takes: four for
    /// the length prefix plus the payload.
    pub fn len(&self) -> (r: usize)
        requires
            self@.wf(),
            4 + spec_payload(self@).len() <= usize::MAX,
        ensures
            r == 4 + spec_payload(self@).len(),
    {
        match self {
            Message::KeepAlive => 4,
            Message::Choke | Message::Unchoke | Message::Interested | Message::NotInterested => 5,
            Message::Have(_) => 9,
            Message::Bitfield(b) => 5 + b.len(),
            Message::Request { .. } | Message::Cancel { .. } => 17,
            Message::Piece(p) => 13 + p.block.len(),
            Message::Port(_) => 7,
            Message::Extended { payload, .. } => 6 + payload.len(),
            Message::Unknown { payload, .. } => 5 + payload.len(),
        }
    }

    /// Append the whole frame of this message: length prefix, id, body.
    pub fn extend_bytes(&self, bytes: &mut Vec<u8>)
        requires
            self@.wf(),
        ensures
            final(bytes)@ == old(bytes)@ + spec_frame(self@),
    {
        match self {
            Message::KeepAlive => {
                push_u32_be(bytes, 0);
                proof {
                    assert(bytes@ =~= old(bytes)@ + spec_frame(self@));
                }
            }
            Message::Choke => {
                push_u32_be(bytes, 1);
                bytes.push(0);
                proof {
                    assert(bytes@ =~= old(bytes)@ + spec_frame(self@));
                }
            }
            Message::Unchoke => {
                push_u32_be(bytes, 1);
                bytes.push(1);
                proof {
                    assert(bytes@ =~= old(bytes)@ + spec_frame(self@));
                }
            }
            Message::Interested => {
                push_u32_be(bytes, 1);
                bytes.push(2);
                proof {
                    assert(bytes@ =~= old(bytes)@ + spec_frame(self@));
                }
            }
            Message::NotInterested => {
                push_u32_be(bytes, 1);
                bytes.push(3);
                proof {
                    assert(bytes@ =~= old(bytes)@ + spec_frame(self@));
                }
            }
            Message::Have(i) => {
                push_u32_be(bytes, 5);
                bytes.push(4);
                push_u32_be(bytes, *i);
                proof {
                    assert(bytes@ =~= old(bytes)@ + spec_frame(self@));
                }
            }
            Message::Bitfield(b) => {
                push_u32_be(bytes, b.len() as u32 + 1);
                bytes.push(5);
                push_bytes(bytes, b.as_slice());
                proof {
                    assert(bytes@ =~= old(bytes)@ + spec_frame(self@));
                }
            }
            Message::Request { index, begin, length } => {
                push_u32_be(bytes, 13);
                bytes.push(6);
                push_u32_be(bytes, *index);
                push_u32_be(bytes, *begin);
                push_u32_be(bytes, *length);
                proof {
                    assert(bytes@ =~= old(bytes)@ + spec_frame(self@));
                }
            }
            Message::Piece(p) => {
                push_u32_be(bytes, p.block.len() as u32 + 9);
                bytes.push(7);
                push_u32_be(bytes, p.index);
                push_u32_be(bytes, p.begin);
                push_bytes(bytes, p.block.as_slice());
                proof {
                    assert(bytes@ =~= old(bytes)@ + spec_frame(self@));
                }
            }
            Message::Cancel { index, begin, length } => {
                push_u32_be(bytes, 13);
                bytes.push(8);
                push_u32_be(bytes, *index);
                push_u32_be(bytes, *begin);
                push_u32_be(bytes, *length);
                proof {
                    assert(bytes@ =~= old(bytes)@ + spec_frame(self@));
                }
            }
            Message::Port(p) => {
                push_u32_be(bytes, 3);
                bytes.push(9);
                push_u16_be(bytes, *p);
                proof {
                    assert(bytes@ =~= old(bytes)@ + spec_frame(self@));
                }
            }
            Message::Extended { id, payload } => {
                push_u32_be(bytes, payload.len() as u32 + 2);
                bytes.push(20);
                bytes.push(*id);
                push_bytes(bytes, payload.as_slice());
                proof {
                    assert(bytes@ =~= old(bytes)@ + spec_frame(self@));
                }
            }
            Message::Unknown { id, payload } => {
                push_u32_be(bytes, payload.len() as u32 + 1);
                bytes.push(*id);
                push_bytes(bytes, payload.as_slice());
                proof {
                    assert(bytes@ =~= old(bytes)@ + spec_frame(self@));
                }
            }
        }
    }

    /// The whole frame of this message as a fresh vector.
    pub fn to_bytes(&self) -> (r: Vec<u8>)
        requires
            self@.wf(),
        ensures
            r@ == spec_frame(self@),
    {
        let mut out: Vec<u8> = Vec::new();
        self.extend_bytes(&mut out);
        out
    }

    /// Parse a frame payload (the bytes after the length prefix). An empty
    /// payload is a keep-alive; an unknown id is preserved, not fatal.
    pub fn from_bytes(payload: &[u8]) -> (r: Result<Message, WireError>)
        requires
            payload@.len() <= u32::MAX,
        ensures
            match r {
                Ok(m) => spec_parse_payload(payload@) == Ok::<SpecMessage, WireError>(m@)
                    && m@.wf(),
                Err(e) => spec_parse_payload(payload@) == Err::<SpecMessage, WireError>(e),
            },
    {
        let n = payload.len();
        if n == 0 {
            return Ok(Message::KeepAlive);
        }
        let id = payload[0];
        let ghost rest = payload@.subrange(1, payload@.len() as int);
        proof {
            assert(rest.len() == n - 1);
            assert(forall|j: int| 0 <= j < rest.len() ==> rest[j] == payload@[j + 1]);
        }
        if id == 0 || id == 1 || id == 2 || id == 3 {
            if n != 1 {
                return Err(WireError::MalformedMessage { id });
            }
            if id == 0 {
                Ok(Message::Choke)
            } else if id == 1 {
                Ok(Message::Unchoke)
            } else if id == 2 {
                Ok(Message::Interested)
            } else {
                Ok(Message::NotInterested)
            }
        } else if id == 4 {
            if n != 5 {
                return Err(WireError::MalformedMessage { id });
            }
            Ok(Message::Have(read_u32_be(payload, 1)))
        } else if id == 5 {
            let b = vstd::slice::slice_to_vec(vstd::slice::slice_subrange(payload, 1, n));
            Ok(Message::Bitfield(b))
        } else if id == 6 {
            if n != 13 {
                return Err(WireError::MalformedMessage { id });
            }
            Ok(
                Message::Request {
                    index: read_u32_be(payload, 1),
                    begin: read_u32_be(payload, 5),
                    length: read_u32_be(payload, 9),
                },
            )
        } else if id == 7 {
            if n < 9 {
                return Err(WireError::MalformedMessage { id });
            }
            let block = vstd::slice::slice_to_vec(vstd::slice::slice_subrange(payload, 9, n));
            proof {
                assert(block@ =~= rest.subrange(8, rest.len() as int));
            }
            Ok(
                Message::Piece(
                    Piece {
                        index: read_u32_be(payload, 1),
                        begin: read_u32_be(payload, 5),
                        block,
                    },
                ),
            )
        } else if id == 8 {
            if n != 13 {
                return Err(WireError::MalformedMessage { id });
            }
            Ok(
                Message::Cancel {
                    index: read_u32_be(payload, 1),
                    begin: read_u32_be(payload, 5),
                    length: read_u32_be(payload, 9),
                },
            )
        } else if id == 9 {
            if n != 3 {
                return Err(WireError::MalformedMessage { id });
            }
            Ok(Message::Port(read_u16_be(payload, 1)))
        } else if id == 20 {
            if n < 2 {
                return Err(WireError::MalformedMessage { id });
            }
            let p = vstd::slice::slice_to_vec(vstd::slice::slice_subrange(payload, 2, n));
            proof {
                assert(p@ =~= rest.subrange(1, rest.len() as int));
            }
            Ok(Message::Extended { id: payload[1], payload: p })
        } else {
            let p = vstd::slice::slice_to_vec(vstd::slice::slice_subrange(payload, 1, n));
            Ok(Message::Unknown { id, payload: p })
        }
    }
}

impl DeepView for Message {
    type V = SpecMessage;

    open spec fn deep_view(&self) -> SpecMessage {
        self.view()
    }
}

/// Parse a whole stream of frames from `pos` to the end. A stream ending
/// inside a frame is reported as the transport having closed early.
pub open spec fn spec_parse_frames(s: Seq<u8>, pos: int) -> Result<Seq<SpecMessage>, WireError>
    decreases s.len() - pos,
{
    if pos < 0 || pos > s.len() {
        Err(WireError::PeerClosed)
    } else if pos == s.len() {
        Ok(Seq::empty())
    } else if pos + 4 > s.len() {
        Err(WireError::PeerClosed)
    } else {
        let len = u32_from_be(s[pos], s[pos + 1], s[pos + 2], s[pos + 3]) as int;
        if pos + 4 + len > s.len() {
            Err(WireError::PeerClosed)
        } else {
            match spec_parse_payload(s.subrange(pos + 4, pos + 4 + len)) {
                Err(e) => Err(e),
                Ok(m) => match spec_parse_frames(s, pos + 4 + len) {
                    Err(e) => Err(e),
                    Ok(rest) => Ok(seq![m] + rest),
                },
            }
        }
    }
}

/// Decode the frames of `s` from `pos` on.
fn frames_from(s: &[u8], pos: usize) -> (r: Result<Vec<Message>, WireError>)
    requires
        pos <= s@.len(),
    ensures
        match r {
            Ok(out) => spec_parse_frames(s@, pos as int) == Ok::<Seq<SpecMessage>, WireError>(
                out.deep_view(),
            ),
            Err(e) => spec_parse_frames(s@, pos as int) == Err::<Seq<SpecMessage>, WireError>(e),
        },
    decreases s@.len() - pos,
{
    let n = s.len();
    if pos == n {
        let out: Vec<Message> = Vec::new();
        proof {
            assert(out.deep_view() =~= Seq::<SpecMessage>::empty());
        }
        return Ok(out);
    }
    if n - pos < 4 {
        return Err(WireError::PeerClosed);
    }
    let len = read_u32_be(s, pos) as usize;
    if len > n - pos - 4 {
        return Err(WireError::PeerClosed);
    }
    let payload = vstd::slice::slice_subrange(s, pos + 4, pos + 4 + len);
    match Message::from_bytes(payload) {
        Err(e) => Err(e),
        Ok(m) => match frames_from(s, pos + 4 + len) {
            Err(e) => Err(e),
            Ok(mut out) => {
                let ghost tailv = out.deep_view();
                out.insert(0, m);
                proof {
                    assert(out.deep_view() =~= seq![m@] + tailv);
                }
                Ok(out)
            }
        },
    }
}

/// Decode a whole stream of concatenated frames.
pub fn decode_frames(s: &[u8]) -> (r: Result<Vec<Message>, WireError>)
    ensures
        match r {
            Ok(out) => spec_parse_frames(s@, 0) == Ok::<Seq<SpecMessage>, WireError>(
                out.deep_view(),
            ),
            Err(e) => spec_parse_frames(s@, 0) == Err::<Seq<SpecMessage>, WireError>(e),
        },
{
    frames_from(s, 0)
}

/// What a read buffer holds: a whole frame, or not yet enough bytes.
pub open spec fn spec_try_frame(s: Seq<u8>) -> Result<Option<(SpecMessage, int)>, WireError> {
    if s.len() < 4 {
        Ok(None)
    } else {
        let len = u32_from_be(s[0], s[1], s[2], s[3]) as int;
        if 4 + len > s.len() {
            Ok(None)
        } else {
            match spec_parse_payload(s.subrange(4, 4 + len)) {
                Err(e) => Err(e),
                Ok(m) => Ok(Some((m, 4 + len))),
            }
        }
    }
}

/// Take one frame off the front of a read buffer: the message and the bytes
/// it consumed, or nothing when the buffer does not yet hold a whole frame.
pub fn try_parse_frame(buf: &[u8]) -> (r: Result<Option<(Message, usize)>, WireError>)
    ensures
        match r {
            Ok(Some((m, consumed))) => spec_try_frame(buf@) == Ok::<
                Option<(SpecMessage, int)>,
                WireError,
            >(Some((m@, consumed as int))) && m@.wf(),
            Ok(None) => spec_try_frame(buf@) == Ok::<Option<(SpecMessage, int)>, WireError>(None),
            Err(e) => spec_try_frame(buf@) == Err::<Option<(SpecMessage, int)>, WireError>(e),
        },
{
    let n = buf.len();
    if n < 4 {
        return Ok(None);
    }
    let len = read_u32_be(buf, 0) as usize;
    if len > n - 4 {
        return Ok(None);
    }
    let payload = vstd::slice::slice_subrange(buf, 4, 4 + len);
    match Message::from_bytes(payload) {
        Err(e) => Err(e),
        Ok(m) => Ok(Some((m, 4 + len))),
    }
}

/// The concatenated frames of a sequence of messages.
pub open spec fn spec_frames_bytes(ms: Seq<SpecMessage>) -> Seq<u8>
    decreases ms,
{
    if ms.len() == 0 {
        Seq::empty()
    } else {
        spec_frame(ms[0]) + spec_frames_bytes(ms.subrange(1, ms.len() as int))
    }
}

/// A well-formed message's payload parses back to the message.
pub proof fn lemma_payload_round_trip(m: SpecMessage)
    requires
        m.wf(),
    ensures
        spec_parse_payload(spec_payload(m)) == Ok::<SpecMessage, WireError>(m),
{
    let p = spec_payload(m);
    match m {
        SpecMessage::KeepAlive => {}
        SpecMessage::Choke => {
            assert(p.subrange(1, 1) =~= Seq::<u8>::empty());
        }
        SpecMessage::Unchoke => {
            assert(p.subrange(1, 1) =~= Seq::<u8>::empty());
        }
        SpecMessage::Interested => {
            assert(p.subrange(1, 1) =~= Seq::<u8>::empty());
        }
        SpecMessage::NotInterested => {
            assert(p.subrange(1, 1) =~= Seq::<u8>::empty());
        }
        SpecMessage::Have(i) => {
            assert(p.subrange(1, p.len() as int) =~= u32_be(i));
            lemma_u32_be_round_trip(i);
        }
        SpecMessage::Bitfield(b) => {
            assert(p.subrange(1, p.len() as int) =~= b);
        }
        SpecMessage::Request { index, begin, length } => {
            let rest = p.subrange(1, p.len() as int);
            assert(rest =~= u32_be(index) + u32_be(begin) + u32_be(length));
            lemma_u32_be_round_trip(index);
            lemma_u32_be_round_trip(begin);
            lemma_u32_be_round_trip(length);
        }
        SpecMessage::Piece(piece) => {
            let rest = p.subrange(1, p.len() as int);
            assert(rest =~= u32_be(piece.index) + u32_be(piece.begin) + piece.block);
            lemma_u32_be_round_trip(piece.index);
            lemma_u32_be_round_trip(piece.begin);
            assert(rest.subrange(8, rest.len() as int) =~= piece.block);
        }
        SpecMessage::Cancel { index, begin, length } => {
            let rest = p.subrange(1, p.len() as int);
            assert(rest =~= u32_be(index) + u32_be(begin) + u32_be(length));
            lemma_u32_be_round_trip(index);
            lemma_u32_be_round_trip(begin);
            lemma_u32_be_round_trip(length);
        }
        SpecMessage::Port(port) => {
            assert(p.subrange(1, p.len() as int) =~= u16_be(port));
            lemma_u16_be_round_trip(port);
        }
        SpecMessage::Extended { id, payload } => {
            let rest = p.subrange(1, p.len() as int);
            assert(rest =~= seq![id] + payload);
            assert(rest.subrange(1, rest.len() as int) =~= payload);
        }
        SpecMessage::Unknown { id, payload } => {
            assert(p.subrange(1, p.len() as int) =~= payload);
        }
    }
}

/// Concatenated frames of well-formed messages parse back to exactly those
/// messages, in order.
pub proof fn lemma_frames_round_trip(ms: Seq<SpecMessage>, s: Seq<u8>, pos: int)
    requires
        forall|i: int| 0 <= i < ms.len() ==> (#[trigger] ms[i]).wf(),
        0 <= pos <= s.len(),
        s.subrange(pos, s.len() as int) == spec_frames_bytes(ms),
    ensures
        spec_parse_frames(s, pos) == Ok::<Seq<SpecMessage>, WireError>(ms),
    decreases ms,
{
    if ms.len() == 0 {
        assert(s.len() - pos == 0);
        assert(ms =~= Seq::<SpecMessage>::empty());
    } else {
        let m0 = ms[0];
        let payload = spec_payload(m0);
        let plen = payload.len() as int;
        let frame = spec_frame(m0);
        let tail = ms.subrange(1, ms.len() as int);
        assert(spec_frames_bytes(ms) == frame + spec_frames_bytes(tail));
        assert forall|j: int| 0 <= j < s.len() - pos implies s[pos + j] == spec_frames_bytes(
            ms,
        )[j] by {
            assert(s.subrange(pos, s.len() as int)[j] == s[pos + j]);
        }
        // The length prefix holds the payload length.
        assert(payload.len() <= u32::MAX);
        lemma_u32_be_round_trip(payload.len() as u32);
        assert(s.subrange(pos, s.len() as int)[0] == s[pos + 0]);
        assert(s.subrange(pos, s.len() as int)[1] == s[pos + 1]);
        assert(s.subrange(pos, s.len() as int)[2] == s[pos + 2]);
        assert(s.subrange(pos, s.len() as int)[3] == s[pos + 3]);
        assert(s[pos] == u32_be(payload.len() as u32)[0]);
        assert(s[pos + 1] == u32_be(payload.len() as u32)[1]);
        assert(s[pos + 2] == u32_be(payload.len() as u32)[2]);
        assert(s[pos + 3] == u32_be(payload.len() as u32)[3]);
        assert(u32_from_be(s[pos], s[pos + 1], s[pos + 2], s[pos + 3]) as int == plen);
        // The payload bytes stand right after it.
        assert(s.subrange(pos + 4, pos + 4 + plen) =~= payload) by {
            assert forall|j: int| 0 <= j < plen implies s.subrange(pos + 4, pos + 4 + plen)[j]
                == payload[j] by {
                assert(s[pos + (4 + j)] == spec_frames_bytes(ms)[4 + j]);
                assert(spec_frames_bytes(ms)[4 + j] == frame[4 + j]);
            }
        }
        lemma_payload_round_trip(m0);
        // The remaining frames stand after the payload.
        assert forall|i: int| 0 <= i < tail.len() implies (#[trigger] tail[i]).wf() by {
            assert(tail[i] == ms[i + 1]);
        }
        assert(s.subrange(pos + 4 + plen, s.len() as int) =~= spec_frames_bytes(tail)) by {
            assert forall|j: int| 0 <= j < s.len() - pos - 4 - plen implies s.subrange(
                pos + 4 + plen,
                s.len() as int,
            )[j] == spec_frames_bytes(tail)[j] by {
                assert(s[pos + (4 + plen + j)] == spec_frames_bytes(ms)[4 + plen + j]);
            }
        }
        lemma_frames_round_trip(tail, s, pos + 4 + plen);
        assert(seq![m0] + tail =~= ms);
    }
}

/// The frames of a sequence of well-formed messages decode back to the same
/// sequence.
pub proof fn lemma_frame_stream_round_trip(ms: Seq<SpecMessage>)
    requires
        forall|i: int| 0 <= i < ms.len() ==> (#[trigger] ms[i]).wf(),
    ensures
        spec_parse_frames(spec_frames_bytes(ms), 0) == Ok::<Seq<SpecMessage>, WireError>(ms),
{
    let s = spec_frames_bytes(ms);
    assert(s.subrange(0, s.len() as int) =~= s);
    lemma_frames_round_trip(ms, s, 0);
}

} // verus!
