//! The UDP tracker protocol: the connect and announce packets, byte-exact,
//! and the response parsing with transaction-id checking. The sockets, the
//! timeouts and the retries live with the caller.

use vstd::prelude::*;

verus! {

use crate::message::{push_u16_be, push_u32_be, read_u16_be, read_u32_be, u16_be, u16_from_be,
    u32_be, u32_from_be};
use crate::tracker::{spec_compact_v4, PeerAddr, SpecPeerAddr, TrackerError};
use crate::handshake::push_bytes;

/// The eight bytes of `n` in network order.
pub open spec fn u64_be(n: u64) -> Seq<u8> {
    seq![
        (n >> 56) as u8,
        ((n >> 48) & 0xff) as u8,
        ((n >> 40) & 0xff) as u8,
        ((n >> 32) & 0xff) as u8,
        ((n >> 24) & 0xff) as u8,
        ((n >> 16) & 0xff) as u8,
        ((n >> 8) & 0xff) as u8,
        (n & 0xff) as u8,
    ]
}

/// The number an eight-byte network-order field holds.
pub open spec fn u64_from_be_at(s: Seq<u8>, off: int) -> u64 {
    ((s[off] as u64) << 56) | ((s[off + 1] as u64) << 48) | ((s[off + 2] as u64) << 40) | ((s[off
        + 3] as u64) << 32) | ((s[off + 4] as u64) << 24) | ((s[off + 5] as u64) << 16) | ((s[off
        + 6] as u64) << 8) | (s[off + 7] as u64)
}

/// Append the eight network-order bytes of `n`.
pub fn push_u64_be(out: &mut Vec<u8>, n: u64)
    ensures
        final(out)@ == old(out)@ + u64_be(n),
{
    out.push((n >> 56) as u8);
    out.push(((n >> 48) & 0xff) as u8);
    out.push(((n >> 40) & 0xff) as u8);
    out.push(((n >> 32) & 0xff) as u8);
    out.push(((n >> 24) & 0xff) as u8);
    out.push(((n >> 16) & 0xff) as u8);
    out.push(((n >> 8) & 0xff) as u8);
    out.push((n & 0xff) as u8);
    proof {
        assert(out@ =~= old(out)@ + u64_be(n));
    }
}

/// Read an eight-byte network-order field at `off`.
pub fn read_u64_be(s: &[u8], off: usize) -> (r: u64)
    requires
        off + 8 <= s@.len(),
    ensures
        r == u64_from_be_at(s@, off as int),
{
    let n = s.len();
    ((s[off] as u64) << 56) | ((s[off + 1] as u64) << 48) | ((s[off + 2] as u64) << 40) | ((s[off
        + 3] as u64) << 32) | ((s[off + 4] as u64) << 24) | ((s[off + 5] as u64) << 16) | ((s[off
        + 6] as u64) << 8) | (s[off + 7] as u64)
}

/// The action field of a UDP tracker packet.
#[derive(Clone, Copy, Debug, PartialEq, Eq, Structural)]
pub enum Actions {
    Connect,
    Announce,
    Scrape,
    Error,
}

impl Actions {
    /// The wire code of this action.
    pub fn code(&self) -> (r: u32)
        ensures
            r == spec_action_code(*self),
    {
        match self {
            Actions::Connect => 0,
            Actions::Announce => 1,
            Actions::Scrape => 2,
            Actions::Error => 3,
        }
    }

    /// The action a wire code names, or a malformed-response error for any
    /// other code.
    pub fn try_from(value: u32) -> (r: Result<Actions, TrackerError>)
        ensures
            match r {
                Ok(a) => value <= 3 && spec_action_code(a) == value,
                Err(e) => value > 3 && e == TrackerError::MalformedResponse,
            },
    {
        if value == 0 {
            Ok(Actions::Connect)
        } else if value == 1 {
            Ok(Actions::Announce)
        } else if value == 2 {
            Ok(Actions::Scrape)
        } else if value == 3 {
            Ok(Actions::Error)
        } else {
            Err(TrackerError::MalformedResponse)
        }
    }
}

/// The wire code of an action.
pub open spec fn spec_action_code(a: Actions) -> u32 {
    match a {
        Actions::Connect => 0,
        Actions::Announce => 1,
        Actions::Scrape => 2,
        Actions::Error => 3,
    }
}

/// The sixteen bytes of a connect request: magic, action zero, and the
/// caller's transaction id.
pub open spec fn spec_connect_request(transaction_id: u32) -> Seq<u8> {
    u64_be(0x41727101980u64) + u32_be(0) + u32_be(transaction_id)
}

/// Build a connect request around a transaction id the caller drew.
pub fn build_connect_request(transaction_id: u32) -> (r: Vec<u8>)
    ensures
        r@ == spec_connect_request(transaction_id),
        r@.len() == 16,
{
    let mut out: Vec<u8> = Vec::new();
    push_u64_be(&mut out, 0x41727101980u64);
    push_u32_be(&mut out, 0);
    push_u32_be(&mut out, transaction_id);
    proof {
        assert(out@ =~= spec_connect_request(transaction_id));
    }
    out
}

/// What a connect round trip yields.
#[derive(Clone, Copy, Debug, PartialEq, Eq, Structural)]
pub struct ConnectResponse {
    pub action: Actions,
    pub transaction_id: u32,
    pub connection_id: u64,
}

/// Why a UDP response was refused: the model of a `TrackerError` from this
/// protocol, carrying the tracker's reason as a byte sequence.
#[verifier::ext_equal]
pub enum SpecUdpError {
    TransactionMismatch,
    Failure { reason: Seq<u8> },
    MalformedResponse,
}

/// Does a `TrackerError` stand for this model?
pub open spec fn udp_error_matches(e: TrackerError, m: SpecUdpError) -> bool {
    match m {
        SpecUdpError::TransactionMismatch => e == TrackerError::TransactionMismatch,
        SpecUdpError::Failure { reason } => e matches TrackerError::Failure { reason: r }
            && r@ == reason,
        SpecUdpError::MalformedResponse => e == TrackerError::MalformedResponse,
    }
}

/// How a connect response is judged: too short is malformed; a transaction
/// id other than the one sent is a mismatch; action three carries the
/// tracker's reason; any other non-zero action is malformed; else the
/// connection id is taken from bytes eight to sixteen.
pub open spec fn spec_connect_response(s: Seq<u8>, expected_tid: u32) -> Result<
    u64,
    SpecUdpError,
> {
    if s.len() < 8 {
        Err(SpecUdpError::MalformedResponse)
    } else {
        let action = u32_from_be(s[0], s[1], s[2], s[3]);
        let tid = u32_from_be(s[4], s[5], s[6], s[7]);
        if tid != expected_tid {
            Err(SpecUdpError::TransactionMismatch)
        } else if action == 3 {
            Err(SpecUdpError::Failure { reason: s.subrange(8, s.len() as int) })
        } else if action != 0 {
            Err(SpecUdpError::MalformedResponse)
        } else if s.len() < 16 {
            Err(SpecUdpError::MalformedResponse)
        } else {
            Ok(u64_from_be_at(s, 8))
        }
    }
}

/// Parse a connect response against the transaction id that was sent.
pub fn parse_connect_response(resp: &[u8], expected_tid: u32) -> (r: Result<
    ConnectResponse,
    TrackerError,
>)
    ensures
        match r {
            Ok(c) => spec_connect_response(resp@, expected_tid) == Ok::<u64, SpecUdpError>(
                c.connection_id,
            ) && c.action == Actions::Connect && c.transaction_id == expected_tid,
            Err(e) => spec_connect_response(resp@, expected_tid) matches Err(m)
                && udp_error_matches(e, m),
        },
{
    let n = resp.len();
    if n < 8 {
        return Err(TrackerError::MalformedResponse);
    }
    let action = read_u32_be(resp, 0);
    let tid = read_u32_be(resp, 4);
    if tid != expected_tid {
        return Err(TrackerError::TransactionMismatch);
    }
    if action == 3 {
        let reason = vstd::slice::slice_to_vec(vstd::slice::slice_subrange(resp, 8, n));
        return Err(TrackerError::Failure { reason });
    }
    if action != 0 {
        return Err(TrackerError::MalformedResponse);
    }
    if n < 16 {
        return Err(TrackerError::MalformedResponse);
    }
    let connection_id = read_u64_be(resp, 8);
    Ok(ConnectResponse { action: Actions::Connect, transaction_id: tid, connection_id })
}

/// The 98 bytes of an announce request: connection id, action one, the
/// transaction id, the hashes, the counters, the event code, the address
/// override, the key, the desired peer count and the listen port.
pub open spec fn spec_announce_request(
    connection_id: u64,
    transaction_id: u32,
    info_hash: Seq<u8>,
    peer_id: Seq<u8>,
    downloaded: u64,
    left: u64,
    uploaded: u64,
    event: u32,
    ip: u32,
    key: u32,
    num_want: i32,
    port: u16,
) -> Seq<u8> {
    u64_be(connection_id) + u32_be(1) + u32_be(transaction_id) + info_hash + peer_id + u64_be(
        downloaded,
    ) + u64_be(left) + u64_be(uploaded) + u32_be(event) + u32_be(ip) + u32_be(key) + u32_be(
        num_want as u32,
    ) + u16_be(port)
}

/// Build an announce request. The transaction id and key are drawn by the
/// caller; the event code is zero for none, one for completed, two for
/// started, three for stopped.
pub fn build_announce_request(
    connection_id: u64,
    transaction_id: u32,
    info_hash: &[u8; 20],
    peer_id: &[u8; 20],
    downloaded: u64,
    left: u64,
    uploaded: u64,
    event: u32,
    ip: u32,
    key: u32,
    num_want: i32,
    port: u16,
) -> (r: Vec<u8>)
    ensures
        r@ == spec_announce_request(
            connection_id,
            transaction_id,
            info_hash@,
            peer_id@,
            downloaded,
            left,
            uploaded,
            event,
            ip,
            key,
            num_want,
            port,
        ),
        r@.len() == 98,
{
    let mut out: Vec<u8> = Vec::new();
    push_u64_be(&mut out, connection_id);
    push_u32_be(&mut out, 1);
    push_u32_be(&mut out, transaction_id);
    push_bytes(&mut out, info_hash.as_slice());
    push_bytes(&mut out, peer_id.as_slice());
    push_u64_be(&mut out, downloaded);
    push_u64_be(&mut out, left);
    push_u64_be(&mut out, uploaded);
    push_u32_be(&mut out, event);
    push_u32_be(&mut out, ip);
    push_u32_be(&mut out, key);
    push_u32_be(&mut out, num_want as u32);
    push_u16_be(&mut out, port);
    proof {
        assert(out@ =~= spec_announce_request(
            connection_id,
            transaction_id,
            info_hash@,
            peer_id@,
            downloaded,
            left,
            uploaded,
            event,
            ip,
            key,
            num_want,
            port,
        ));
    }
    out
}

/// What a UDP announce round trip yields.
#[derive(Debug, PartialEq, Eq)]
pub struct AnnounceResponse {
    pub action: Actions,
    pub transaction_id: u32,
    pub interval: u32,
    pub leechers: u32,
    pub seeders: u32,
    pub peers: Vec<PeerAddr>,
}

/// How a UDP announce response is judged, mirroring the connect judgement;
/// the peers are six-byte records from byte twenty on.
pub open spec fn spec_udp_announce_response(s: Seq<u8>, expected_tid: u32) -> Result<
    (u32, u32, u32, Seq<SpecPeerAddr>),
    SpecUdpError,
> {
    if s.len() < 8 {
        Err(SpecUdpError::MalformedResponse)
    } else {
        let action = u32_from_be(s[0], s[1], s[2], s[3]);
        let tid = u32_from_be(s[4], s[5], s[6], s[7]);
        if tid != expected_tid {
            Err(SpecUdpError::TransactionMismatch)
        } else if action == 3 {
            Err(SpecUdpError::Failure { reason: s.subrange(8, s.len() as int) })
        } else if action != 1 {
            Err(SpecUdpError::MalformedResponse)
        } else if s.len() < 20 {
            Err(SpecUdpError::MalformedResponse)
        } else if (s.len() - 20) % 6 != 0 {
            Err(SpecUdpError::MalformedResponse)
        } else {
            Ok(
                (
                    u32_from_be(s[8], s[9], s[10], s[11]),
                    u32_from_be(s[12], s[13], s[14], s[15]),
                    u32_from_be(s[16], s[17], s[18], s[19]),
                    spec_compact_v4(s.subrange(20, s.len() as int)),
                ),
            )
        }
    }
}

/// Parse a UDP announce response against the transaction id that was sent.
pub fn parse_announce_response(resp: &[u8], expected_tid: u32) -> (r: Result<
    AnnounceResponse,
    TrackerError,
>)
    ensures
        match r {
            Ok(a) => spec_udp_announce_response(resp@, expected_tid) matches Ok(t) && t.0
                == a.interval && t.1 == a.leechers && t.2 == a.seeders && t.3
                == a.peers.deep_view() && a.action == Actions::Announce && a.transaction_id
                == expected_tid,
            Err(e) => spec_udp_announce_response(resp@, expected_tid) matches Err(m)
                && udp_error_matches(e, m),
        },
{
    let n = resp.len();
    if n < 8 {
        return Err(TrackerError::MalformedResponse);
    }
    let action = read_u32_be(resp, 0);
    let tid = read_u32_be(resp, 4);
    if tid != expected_tid {
        return Err(TrackerError::TransactionMismatch);
    }
    if action == 3 {
        let reason = vstd::slice::slice_to_vec(vstd::slice::slice_subrange(resp, 8, n));
        return Err(TrackerError::Failure { reason });
    }
    if action != 1 {
        return Err(TrackerError::MalformedResponse);
    }
    if n < 20 {
        return Err(TrackerError::MalformedResponse);
    }
    if (n - 20) % 6 != 0 {
        return Err(TrackerError::MalformedResponse);
    }
    let interval = read_u32_be(resp, 8);
    let leechers = read_u32_be(resp, 12);
    let seeders = read_u32_be(resp, 16);
    let compact = vstd::slice::slice_subrange(resp, 20, n);
    match crate::tracker::parse_compact_peers_v4(compact) {
        Ok(peers) => Ok(
            AnnounceResponse {
                action: Actions::Announce,
                transaction_id: tid,
                interval,
                leechers,
                seeders,
                peers,
            },
        ),
        Err(_) => Err(TrackerError::MalformedResponse),
    }
}

} // verus!
