//! The peer wire handshake: the 68-byte exchange that opens every session,
//! and the extension flags carried in its reserved field.

use vstd::prelude::*;

verus! {

/// An error of the peer wire layer.
#[derive(Clone, Copy, Debug, PartialEq, Eq)]
pub enum WireError {
    /// The remote handshake was the wrong size or had the wrong protocol
    /// string.
    InvalidHandshake,
    /// The remote handshake named another swarm.
    InfoHashMismatch { expected: [u8; 20], received: [u8; 20] },
    /// A frame whose payload length is invalid for its message id.
    MalformedMessage { id: u8 },
    /// A bitfield arriving after the first non-keep-alive message.
    UnexpectedBitfield,
    /// No inbound frame arrived within the allowed idle period.
    PeerTimeout,
    /// The transport ended, possibly inside a frame.
    PeerClosed,
}

impl WireError {
    /// A short description of the error.
    pub fn message(&self) -> (r: &'static str)
        ensures
            r@ == self.spec_message(),
    {
        match self {
            WireError::InvalidHandshake => "the peer returned an invalid handshake",
            WireError::InfoHashMismatch { .. } => "wrong info hash returned by peer",
            WireError::MalformedMessage { .. } => "invalid payload length for the message id",
            WireError::UnexpectedBitfield => "a bitfield arrived after other traffic",
            WireError::PeerTimeout => "no frame arrived within the allowed idle period",
            WireError::PeerClosed => "the transport ended",
        }
    }

    /// The description `message` returns for each variant.
    pub open spec fn spec_message(&self) -> Seq<char> {
        match self {
            WireError::InvalidHandshake => "the peer returned an invalid handshake"@,
            WireError::InfoHashMismatch { .. } => "wrong info hash returned by peer"@,
            WireError::MalformedMessage { .. } => "invalid payload length for the message id"@,
            WireError::UnexpectedBitfield => "a bitfield arrived after other traffic"@,
            WireError::PeerTimeout => "no frame arrived within the allowed idle period"@,
            WireError::PeerClosed => "the transport ended"@,
        }
    }
}

/// The fixed protocol string `"BitTorrent protocol"`.
pub open spec fn pstr_bytes() -> Seq<u8> {
    seq![
        66u8, 105u8, 116u8, 84u8, 111u8, 114u8, 114u8, 101u8, 110u8, 116u8, 32u8, 112u8, 114u8,
        111u8, 116u8, 111u8, 99u8, 111u8, 108u8,
    ]
}

/// The bytes of a handshake: length-prefixed protocol string, reserved
/// flags, info-hash, peer id — 68 bytes in all.
pub open spec fn spec_handshake_bytes(
    reserved: Seq<u8>,
    info_hash: Seq<u8>,
    peer_id: Seq<u8>,
) -> Seq<u8> {
    seq![19u8] + pstr_bytes() + reserved + info_hash + peer_id
}

/// Is `s` a well-formed handshake?
pub open spec fn spec_handshake_ok(s: Seq<u8>) -> bool {
    &&& s.len() == 68
    &&& s[0] == 19
    &&& s.subrange(1, 20) == pstr_bytes()
}

/// Copy eight bytes out of `s` at `off`.
fn read_8(s: &[u8], off: usize) -> (r: [u8; 8])
    requires
        off + 8 <= s@.len(),
    ensures
        r@ == s@.subrange(off as int, off + 8),
{
    let mut a = [0u8; 8];
    let slen = s.len();
    proof {
        assert(s@.len() <= usize::MAX);
    }
    let mut i: usize = 0;
    while i < 8
        invariant
            i <= 8,
            off + 8 <= s@.len(),
            s@.len() <= usize::MAX,
            a@.len() == 8,
            forall|j: int| 0 <= j < i ==> a@[j] == s@[off + j],
        decreases 8 - i,
    {
        a[i] = s[off + i];
        i = i + 1;
    }
    proof {
        assert(a@ =~= s@.subrange(off as int, off + 8));
    }
    a
}

/// Copy twenty bytes out of `s` at `off`.
fn read_20(s: &[u8], off: usize) -> (r: [u8; 20])
    requires
        off + 20 <= s@.len(),
    ensures
        r@ == s@.subrange(off as int, off + 20),
{
    let mut a = [0u8; 20];
    let slen = s.len();
    proof {
        assert(s@.len() <= usize::MAX);
    }
    let mut i: usize = 0;
    while i < 20
        invariant
            i <= 20,
            off + 20 <= s@.len(),
            s@.len() <= usize::MAX,
            a@.len() == 20,
            forall|j: int| 0 <= j < i ==> a@[j] == s@[off + j],
        decreases 20 - i,
    {
        a[i] = s[off + i];
        i = i + 1;
    }
    proof {
        assert(a@ =~= s@.subrange(off as int, off + 20));
    }
    a
}

/// Append an array's bytes to a vector.
pub(crate) fn push_bytes(out: &mut Vec<u8>, s: &[u8])
    ensures
        final(out)@ == old(out)@ + s@,
{
    let mut v = vstd::slice::slice_to_vec(s);
    out.append(&mut v);
}

/// The handshake either side sends before any other bytes.
#[derive(Clone, Copy, Debug, PartialEq, Eq)]
pub struct Handshake {
    pub reserved_bytes: [u8; 8],
    pub info_hash: [u8; 20],
    pub peer_id: [u8; 20],
}

/// What the remote handshake tells about the peer: its id and the
/// extensions its reserved flags advertise.
#[derive(Clone, Copy, Debug, PartialEq, Eq)]
pub struct PeerInfo {
    pub peer_id: [u8; 20],
    pub extension_protocol: bool,
    pub fast_extension: bool,
    pub dht_extension: bool,
}

/// The extension-protocol bit: byte 5, mask 0x10.
pub open spec fn spec_extension_protocol(reserved: Seq<u8>) -> bool {
    reserved[5] & 0x10 != 0
}

/// The fast-extension bit: the 0x04 bit of the last byte.
pub open spec fn spec_fast_extension(reserved: Seq<u8>) -> bool {
    reserved[7] & 0x04 != 0
}

/// The DHT bit: the lowest bit of the last byte.
pub open spec fn spec_dht_extension(reserved: Seq<u8>) -> bool {
    reserved[7] & 0x01 != 0
}

impl Handshake {
    /// Assemble a handshake from its three fields.
    pub fn new(reserved_bytes: [u8; 8], info_hash: [u8; 20], peer_id: [u8; 20]) -> (r: Self)
        ensures
            r.reserved_bytes == reserved_bytes,
            r.info_hash == info_hash,
            r.peer_id == peer_id,
    {
        Handshake { reserved_bytes, info_hash, peer_id }
    }

    /// The 68 bytes of this handshake as sent on the wire.
    pub fn as_bytes(&self) -> (r: Vec<u8>)
        ensures
            r@ == spec_handshake_bytes(
                self.reserved_bytes@,
                self.info_hash@,
                self.peer_id@,
            ),
            r@.len() == 68,
            spec_handshake_ok(r@),
    {
        let mut out: Vec<u8> = Vec::new();
        out.push(19);
        out.push(66);
        out.push(105);
        out.push(116);
        out.push(84);
        out.push(111);
        out.push(114);
        out.push(114);
        out.push(101);
        out.push(110);
        out.push(116);
        out.push(32);
        out.push(112);
        out.push(114);
        out.push(111);
        out.push(116);
        out.push(111);
        out.push(99);
        out.push(111);
        out.push(108);
        push_bytes(&mut out, self.reserved_bytes.as_slice());
        push_bytes(&mut out, self.info_hash.as_slice());
        push_bytes(&mut out, self.peer_id.as_slice());
        proof {
            assert(out@ =~= spec_handshake_bytes(
                self.reserved_bytes@,
                self.info_hash@,
                self.peer_id@,
            ));
            assert(out@.subrange(1, 20) =~= pstr_bytes());
        }
        out
    }

    /// The 68 bytes of this handshake, consuming it.
    pub fn to_bytes(self) -> (r: Vec<u8>)
        ensures
            r@ == spec_handshake_bytes(self.reserved_bytes@, self.info_hash@, self.peer_id@),
            r@.len() == 68,
    {
        self.as_bytes()
    }

    /// Parse a received handshake: the length prefix must be 19 and the
    /// protocol string must match exactly.
    pub fn from_bytes(bytes: &[u8]) -> (r: Result<Handshake, WireError>)
        ensures
            match r {
                Ok(h) => spec_handshake_ok(bytes@) && h.reserved_bytes@ == bytes@.subrange(20, 28)
                    && h.info_hash@ == bytes@.subrange(28, 48) && h.peer_id@ == bytes@.subrange(
                    48,
                    68,
                ),
                Err(e) => !spec_handshake_ok(bytes@) && e == WireError::InvalidHandshake,
            },
    {
        if bytes.len() != 68 {
            return Err(WireError::InvalidHandshake);
        }
        if bytes[0] != 19 {
            return Err(WireError::InvalidHandshake);
        }
        let pstr = vstd::slice::slice_subrange(bytes, 1, 20);
        let mut expected: Vec<u8> = Vec::new();
        expected.push(66);
        expected.push(105);
        expected.push(116);
        expected.push(84);
        expected.push(111);
        expected.push(114);
        expected.push(114);
        expected.push(101);
        expected.push(110);
        expected.push(116);
        expected.push(32);
        expected.push(112);
        expected.push(114);
        expected.push(111);
        expected.push(116);
        expected.push(111);
        expected.push(99);
        expected.push(111);
        expected.push(108);
        proof {
            assert(expected@ =~= pstr_bytes());
        }
        if !crate::value::bytes_equal(pstr, expected.as_slice()) {
            return Err(WireError::InvalidHandshake);
        }
        Ok(
            Handshake {
                reserved_bytes: read_8(bytes, 20),
                info_hash: read_20(bytes, 28),
                peer_id: read_20(bytes, 48),
            },
        )
    }

    /// The peer description this handshake carries: peer id and the three
    /// extension flags read from the reserved bytes.
    pub fn peer_info(&self) -> (r: PeerInfo)
        ensures
            r.peer_id == self.peer_id,
            r.extension_protocol == spec_extension_protocol(self.reserved_bytes@),
            r.fast_extension == spec_fast_extension(self.reserved_bytes@),
            r.dht_extension == spec_dht_extension(self.reserved_bytes@),
    {
        PeerInfo {
            peer_id: self.peer_id,
            extension_protocol: self.reserved_bytes[5] & 0x10 != 0,
            fast_extension: self.reserved_bytes[7] & 0x04 != 0,
            dht_extension: self.reserved_bytes[7] & 0x01 != 0,
        }
    }

    /// Validate a remote handshake against the info-hash this side sent:
    /// accepted exactly when the hashes agree.
    pub fn verify_remote(&self, expected_info_hash: &[u8; 20]) -> (r: Result<PeerInfo, WireError>)
        ensures
            match r {
                Ok(info) => self.info_hash@ == expected_info_hash@ && info.peer_id == self.peer_id
                    && info.extension_protocol == spec_extension_protocol(self.reserved_bytes@)
                    && info.fast_extension == spec_fast_extension(self.reserved_bytes@)
                    && info.dht_extension == spec_dht_extension(self.reserved_bytes@),
                Err(e) => self.info_hash@ != expected_info_hash@ && e == (
                WireError::InfoHashMismatch {
                    expected: *expected_info_hash,
                    received: self.info_hash,
                }),
            },
    {
        if crate::value::bytes_equal(self.info_hash.as_slice(), expected_info_hash.as_slice()) {
            proof {
                assert(self.info_hash@ =~= expected_info_hash@);
            }
            Ok(self.peer_info())
        } else {
            Err(
                WireError::InfoHashMismatch {
                    expected: *expected_info_hash,
                    received: self.info_hash,
                },
            )
        }
    }
}

/// A built handshake parses back to its three fields, whatever the reserved
/// flags: both sides decode each other's flags exactly.
pub proof fn lemma_handshake_round_trip(reserved: Seq<u8>, info_hash: Seq<u8>, peer_id: Seq<u8>)
    requires
        reserved.len() == 8,
        info_hash.len() == 20,
        peer_id.len() == 20,
    ensures
        spec_handshake_ok(spec_handshake_bytes(reserved, info_hash, peer_id)),
        spec_handshake_bytes(reserved, info_hash, peer_id).subrange(20, 28) == reserved,
        spec_handshake_bytes(reserved, info_hash, peer_id).subrange(28, 48) == info_hash,
        spec_handshake_bytes(reserved, info_hash, peer_id).subrange(48, 68) == peer_id,
{
    let s = spec_handshake_bytes(reserved, info_hash, peer_id);
    assert(s.subrange(1, 20) =~= pstr_bytes());
    assert(s.subrange(20, 28) =~= reserved);
    assert(s.subrange(28, 48) =~= info_hash);
    assert(s.subrange(48, 68) =~= peer_id);
}

} // verus!
