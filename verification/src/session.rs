//! The per-peer session state: the four choke/interest flags, their
//! transitions, bitfield validation, and the session builder.

use vstd::prelude::*;

verus! {

use crate::handshake::WireError;
use crate::message::{Message, SpecMessage};

/// The four flags of a peer session, initially
/// `(true, false, true, false)`.
#[derive(Clone, Copy, Debug, PartialEq, Eq, Structural)]
pub struct Status {
    /// Are we choking the remote peer?
    pub am_choking: bool,
    /// Are we interested in the remote peer?
    pub am_interested: bool,
    /// Is the remote peer choking us?
    pub peer_choking: bool,
    /// Is the remote peer interested in us?
    pub peer_interested: bool,
}

/// The flags after this side sends `m`.
pub open spec fn spec_apply_send(st: Status, m: SpecMessage) -> Status {
    match m {
        SpecMessage::Choke => Status { am_choking: true, ..st },
        SpecMessage::Unchoke => Status { am_choking: false, ..st },
        SpecMessage::Interested => Status { am_interested: true, ..st },
        SpecMessage::NotInterested => Status { am_interested: false, ..st },
        _ => st,
    }
}

/// The flags after this side receives `m`.
pub open spec fn spec_apply_receive(st: Status, m: SpecMessage) -> Status {
    match m {
        SpecMessage::Choke => Status { peer_choking: true, ..st },
        SpecMessage::Unchoke => Status { peer_choking: false, ..st },
        SpecMessage::Interested => Status { peer_interested: true, ..st },
        SpecMessage::NotInterested => Status { peer_interested: false, ..st },
        _ => st,
    }
}

impl Status {
    /// The initial state of a fresh session.
    pub fn new() -> (r: Self)
        ensures
            r.am_choking == true,
            r.am_interested == false,
            r.peer_choking == true,
            r.peer_interested == false,
    {
        Status { am_choking: true, am_interested: false, peer_choking: true, peer_interested: false }
    }

    /// Record an outbound message.
    pub fn on_send(&mut self, m: &Message)
        ensures
            *final(self) == spec_apply_send(*old(self), m@),
    {
        match m {
            Message::Choke => self.am_choking = true,
            Message::Unchoke => self.am_choking = false,
            Message::Interested => self.am_interested = true,
            Message::NotInterested => self.am_interested = false,
            _ => {}
        }
    }

    /// Record an inbound message.
    pub fn on_receive(&mut self, m: &Message)
        ensures
            *final(self) == spec_apply_receive(*old(self), m@),
    {
        match m {
            Message::Choke => self.peer_choking = true,
            Message::Unchoke => self.peer_choking = false,
            Message::Interested => self.peer_interested = true,
            Message::NotInterested => self.peer_interested = false,
            _ => {}
        }
    }

    /// Start choking the remote peer; says whether a `Choke` message is owed
    /// (it is, exactly when this side was not already choking).
    pub fn choke(&mut self) -> (send: bool)
        ensures
            *final(self) == spec_apply_send(*old(self), SpecMessage::Choke),
            send == !old(self).am_choking,
    {
        let send = !self.am_choking;
        self.am_choking = true;
        send
    }

    /// Stop choking the remote peer; a message is owed exactly when this
    /// side was choking.
    pub fn unchoke(&mut self) -> (send: bool)
        ensures
            *final(self) == spec_apply_send(*old(self), SpecMessage::Unchoke),
            send == old(self).am_choking,
    {
        let send = self.am_choking;
        self.am_choking = false;
        send
    }

    /// Declare interest; a message is owed exactly when this side was not
    /// interested.
    pub fn interested(&mut self) -> (send: bool)
        ensures
            *final(self) == spec_apply_send(*old(self), SpecMessage::Interested),
            send == !old(self).am_interested,
    {
        let send = !self.am_interested;
        self.am_interested = true;
        send
    }

    /// Withdraw interest; a message is owed exactly when this side was
    /// interested.
    pub fn not_interested(&mut self) -> (send: bool)
        ensures
            *final(self) == spec_apply_send(*old(self), SpecMessage::NotInterested),
            send == old(self).am_interested,
    {
        let send = self.am_interested;
        self.am_interested = false;
        send
    }
}

/// Sending `Choke` and then `Unchoke` leaves `am_choking` false again, and
/// a second `Unchoke` changes nothing; the other flags are untouched.
pub proof fn lemma_choke_unchoke(st: Status)
    ensures
        spec_apply_send(spec_apply_send(st, SpecMessage::Choke), SpecMessage::Unchoke).am_choking
            == false,
        spec_apply_send(spec_apply_send(st, SpecMessage::Unchoke), SpecMessage::Unchoke)
            == spec_apply_send(st, SpecMessage::Unchoke),
        spec_apply_send(st, SpecMessage::Choke).am_interested == st.am_interested,
        spec_apply_send(st, SpecMessage::Choke).peer_choking == st.peer_choking,
        spec_apply_send(st, SpecMessage::Choke).peer_interested == st.peer_interested,
{
}

/// The bit for piece `i` in a byte-packed bitfield, most significant bit
/// first.
pub open spec fn spec_bit(bytes: Seq<u8>, i: int) -> bool {
    (bytes[i / 8] >> ((7 - i % 8) as u8)) & 1 == 1
}

/// Does the bitfield claim piece `i`?
pub fn bitfield_get(bytes: &[u8], i: usize) -> (r: bool)
    requires
        i < bytes@.len() * 8,
    ensures
        r == spec_bit(bytes@, i as int),
{
    let n = bytes.len();
    let b = bytes[i / 8];
    let sh = (i % 8) as u8;
    (b >> (7 - sh)) & 1 == 1
}

/// A bitfield is valid for `piece_count` pieces when it holds at least that
/// many bits and every trailing bit beyond them is zero.
pub open spec fn spec_valid_bitfield(bytes: Seq<u8>, piece_count: int) -> bool {
    &&& bytes.len() * 8 >= piece_count
    &&& forall|i: int| piece_count <= i < bytes.len() * 8 ==> !spec_bit(bytes, i)
}

/// Check a received bitfield against the torrent's piece count.
pub fn validate_bitfield(bytes: &[u8], piece_count: usize) -> (r: bool)
    requires
        bytes@.len() * 8 <= usize::MAX,
    ensures
        r == spec_valid_bitfield(bytes@, piece_count as int),
{
    let n = bytes.len();
    let total = n * 8;
    if total < piece_count {
        return false;
    }
    let mut i = piece_count;
    while i < total
        invariant
            piece_count <= i <= total,
            total == bytes@.len() * 8,
            forall|k: int| piece_count <= k < i ==> !spec_bit(bytes@, k),
        decreases total - i,
    {
        if bitfield_get(bytes, i) {
            return false;
        }
        i = i + 1;
    }
    true
}

/// Relies on `rand::random`: twelve bytes from the thread-local generator.
/// Nothing is promised of their values.
#[verifier::external_body]
fn random_tail() -> (r: [u8; 12]) {
    rand::random::<[u8; 12]>()
}

/// A fresh peer id: `-`, a two-byte client code, a four-byte version, `-`,
/// and twelve random bytes.
pub fn peer_id(client_id: &[u8; 2], version: &[u8; 4]) -> (r: [u8; 20])
    ensures
        r@[0] == 45,
        r@.subrange(1, 3) == client_id@,
        r@.subrange(3, 7) == version@,
        r@[7] == 45,
{
    let tail = random_tail();
    let mut a = [0u8; 20];
    a[0] = 45;
    a[1] = client_id[0];
    a[2] = client_id[1];
    a[3] = version[0];
    a[4] = version[1];
    a[5] = version[2];
    a[6] = version[3];
    a[7] = 45;
    let mut i: usize = 0;
    while i < 12
        invariant
            i <= 12,
            a@.len() == 20,
            a@[0] == 45,
            a@[1] == client_id@[0],
            a@[2] == client_id@[1],
            a@[3] == version@[0],
            a@[4] == version@[1],
            a@[5] == version@[2],
            a@[6] == version@[3],
            a@[7] == 45,
        decreases 12 - i,
    {
        a[8 + i] = tail[i];
        i = i + 1;
    }
    proof {
        assert(a@.subrange(1, 3) =~= client_id@);
        assert(a@.subrange(3, 7) =~= version@);
    }
    a
}

/// A per-peer session: the four flags, plus whether any non-keep-alive
/// message has arrived (a bitfield after that is a protocol violation).
#[derive(Clone, Copy, Debug, PartialEq, Eq)]
pub struct Session {
    pub status: Status,
    pub got_message: bool,
    pub peer_id: [u8; 20],
}

impl Session {
    /// Begin configuring a session.
    pub fn builder() -> (r: SessionBuilder)
        ensures
            r.keep_alive_secs == 120,
    {
        SessionBuilder::new()
    }

    /// A fresh session around a completed handshake.
    pub fn new(peer_id: [u8; 20]) -> (r: Session)
        ensures
            r.status == (Status {
                am_choking: true,
                am_interested: false,
                peer_choking: true,
                peer_interested: false,
            }),
            r.got_message == false,
            r.peer_id == peer_id,
    {
        Session { status: Status::new(), got_message: false, peer_id }
    }

    /// Dispatch an inbound message: flags are updated per the transition
    /// table, and a bitfield after the first non-keep-alive message is
    /// refused.
    pub fn on_receive(&mut self, m: &Message) -> (r: Result<(), WireError>)
        ensures
            final(self).peer_id == old(self).peer_id,
            match r {
                Ok(()) => !(m@ is Bitfield && old(self).got_message) && final(self).status
                    == spec_apply_receive(old(self).status, m@) && final(self).got_message == (
                old(self).got_message || !(m@ is KeepAlive)),
                Err(e) => m@ is Bitfield && old(self).got_message && e
                    == WireError::UnexpectedBitfield && *final(self) == *old(self),
            },
    {
        match m {
            Message::Bitfield(_) => {
                if self.got_message {
                    return Err(WireError::UnexpectedBitfield);
                }
            }
            _ => {}
        }
        self.status.on_receive(m);
        match m {
            Message::KeepAlive => {}
            _ => {
                self.got_message = true;
            }
        }
        Ok(())
    }

    /// Record an outbound message.
    pub fn on_send(&mut self, m: &Message)
        ensures
            final(self).status == spec_apply_send(old(self).status, m@),
            final(self).got_message == old(self).got_message,
            final(self).peer_id == old(self).peer_id,
    {
        self.status.on_send(m);
    }
}

/// Configuration gathered before a session is connected.
#[derive(Clone, Copy, Debug, PartialEq, Eq)]
pub struct SessionBuilder {
    pub peer_id: [u8; 20],
    pub keep_alive_secs: u64,
}

impl SessionBuilder {
    /// A builder with a fresh peer id and the recommended two-minute
    /// keep-alive interval.
    pub fn new() -> (r: Self)
        ensures
            r.keep_alive_secs == 120,
    {
        let client_id: [u8; 2] = [76, 69];
        let version: [u8; 4] = [48, 48, 48, 49];
        SessionBuilder { peer_id: peer_id(&client_id, &version), keep_alive_secs: 120 }
    }

    /// Set the keep-alive interval, in seconds.
    pub fn keep_alive_interval(self, secs: u64) -> (r: Self)
        ensures
            r.keep_alive_secs == secs,
            r.peer_id == self.peer_id,
    {
        SessionBuilder { keep_alive_secs: secs, ..self }
    }

    /// Set the peer id to announce.
    pub fn peer_id(self, peer_id: [u8; 20]) -> (r: Self)
        ensures
            r.peer_id == peer_id,
            r.keep_alive_secs == self.keep_alive_secs,
    {
        SessionBuilder { peer_id, ..self }
    }

    /// The session this configuration describes, once the handshake has
    /// produced the remote peer's id.
    pub fn session(self, remote_peer_id: [u8; 20]) -> (r: Session)
        ensures
            r.status == (Status {
                am_choking: true,
                am_interested: false,
                peer_choking: true,
                peer_interested: false,
            }),
            r.got_message == false,
            r.peer_id == remote_peer_id,
    {
        Session::new(remote_peer_id)
    }
}

} // verus!
