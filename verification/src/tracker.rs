//! The tracker announce client: the HTTP query string, the compact and
//! structured peer formats, and the announce response mapping.

use vstd::prelude::*;

verus! {

use crate::digits::{dec_rep, u64_to_decimal};
use crate::keys::{key_interval, key_interval_bytes, key_ip, key_ip_bytes, key_peers,
    key_peers6, key_peers6_bytes, key_peers_bytes, key_port, key_port_bytes};
use crate::message::{read_u16_be, u16_from_be};
use crate::value::{dict_lookup, spec_lookup, view_list, view_pairs, view_value, ByteString,
    IntegerKind, SpecValue, Value};
use crate::decode::{decode, spec_decode};

/// An error of the tracker layer.
#[derive(Debug, PartialEq, Eq)]
pub enum TrackerError {
    /// The transport failed (refused, unreachable, reset).
    Transport,
    /// The round trip took longer than the caller allowed.
    TimedOut,
    /// A response carried a transaction id other than the one sent.
    TransactionMismatch,
    /// The tracker answered with an error action and a reason.
    Failure { reason: Vec<u8> },
    /// A response that does not follow the announce format.
    MalformedResponse,
    /// No tier of the announce list could be reached.
    UnreachableAnnounce,
}

impl TrackerError {
    /// A short description of the error.
    pub fn message(&self) -> (r: &'static str)
        ensures
            r@ == self.spec_message(),
    {
        match self {
            TrackerError::Transport => "the transport failed",
            TrackerError::TimedOut => "the tracker round trip timed out",
            TrackerError::TransactionMismatch => "the response carries another transaction id",
            TrackerError::Failure { .. } => "the tracker reported an error",
            TrackerError::MalformedResponse => "the response does not follow the announce format",
            TrackerError::UnreachableAnnounce => "no announce tier could be reached",
        }
    }

    /// The description `message` returns for each variant.
    pub open spec fn spec_message(&self) -> Seq<char> {
        match self {
            TrackerError::Transport => "the transport failed"@,
            TrackerError::TimedOut => "the tracker round trip timed out"@,
            TrackerError::TransactionMismatch => "the response carries another transaction id"@,
            TrackerError::Failure { .. } => "the tracker reported an error"@,
            TrackerError::MalformedResponse => "the response does not follow the announce format"@,
            TrackerError::UnreachableAnnounce => "no announce tier could be reached"@,
        }
    }
}

/// The announce event, when one is reported.
#[derive(Clone, Copy, Debug, PartialEq, Eq, Structural)]
pub enum Event {
    Started,
    Completed,
    Stopped,
    /// Reported as a plain periodic announce.
    Empty,
}

/// The query value of an event.
pub open spec fn spec_event_name(e: Event) -> Seq<u8> {
    match e {
        Event::Started => lit_started(),
        Event::Completed => lit_completed(),
        Event::Stopped => lit_stopped(),
        Event::Empty => lit_empty(),
    }
}

/// One announce call: what the tracker is told.
#[derive(Clone, Copy, Debug, PartialEq, Eq)]
pub struct AnnounceRequest {
    /// The 20-byte SHA-1 of the bencoded info dictionary.
    pub info_hash: [u8; 20],
    /// The 20-byte id this downloader chose for itself.
    pub peer_id: [u8; 20],
    /// An optional address override for this peer.
    pub ip: Option<[u8; 4]>,
    /// The port this peer listens on.
    pub port: u16,
    /// Total bytes uploaded so far.
    pub uploaded: u64,
    /// Total bytes downloaded so far.
    pub downloaded: u64,
    /// Bytes still owed.
    pub left: u64,
    /// The event, if this announce reports one.
    pub event: Option<Event>,
    /// Ask for the compact peer format.
    pub compact: bool,
    /// Desired number of peers, when the default is not wanted.
    pub numwant: Option<u16>,
}

/// A hexadecimal digit, upper case.
pub open spec fn hex_digit(n: u8) -> u8 {
    if n < 10 {
        (48 + n) as u8
    } else {
        (55 + n) as u8
    }
}

/// Byte-wise percent encoding: every byte as `%HH`, even printable ASCII,
/// as reference clients send the info-hash and peer id.
pub open spec fn pct_encoded(bytes: Seq<u8>) -> Seq<u8>
    decreases bytes,
{
    if bytes.len() == 0 {
        Seq::empty()
    } else {
        seq![37u8, hex_digit(bytes[0] / 16), hex_digit(bytes[0] % 16)] + pct_encoded(
            bytes.subrange(1, bytes.len() as int),
        )
    }
}

/// Percent-encode the bytes of `s` from `i` on.
fn pct_from(s: &[u8], i: usize, out: &mut Vec<u8>)
    requires
        i <= s@.len(),
    ensures
        final(out)@ == old(out)@ + pct_encoded(s@.subrange(i as int, s@.len() as int)),
    decreases s@.len() - i,
{
    let n = s.len();
    let ghost rest = s@.subrange(i as int, s@.len() as int);
    if i >= n {
        proof {
            assert(rest =~= Seq::<u8>::empty());
        }
        return ;
    }
    let b = s[i];
    out.push(37);
    let hi = b / 16;
    let lo = b % 16;
    out.push(if hi < 10 { 48 + hi } else { 55 + hi });
    out.push(if lo < 10 { 48 + lo } else { 55 + lo });
    pct_from(s, i + 1, out);
    proof {
        assert(rest[0] == s@[i as int]);
        assert(rest.subrange(1, rest.len() as int) =~= s@.subrange(i + 1, s@.len() as int));
        assert(out@ =~= old(out)@ + pct_encoded(rest));
    }
}

/// Percent-encode a byte string.
pub fn percent_encode(bytes: &[u8]) -> (r: Vec<u8>)
    ensures
        r@ == pct_encoded(bytes@),
{
    let mut out: Vec<u8> = Vec::new();
    proof {
        assert(bytes@.subrange(0, bytes@.len() as int) =~= bytes@);
    }
    pct_from(bytes, 0, &mut out);
    out
}

/// The query text `"info_hash="`.
pub open spec fn lit_info_hash() -> Seq<u8> {
    seq![105u8, 110u8, 102u8, 111u8, 95u8, 104u8, 97u8, 115u8, 104u8, 61u8]
}

fn push_lit_info_hash(out: &mut Vec<u8>)
    ensures
        final(out)@ == old(out)@ + lit_info_hash(),
{
    out.push(105);
    out.push(110);
    out.push(102);
    out.push(111);
    out.push(95);
    out.push(104);
    out.push(97);
    out.push(115);
    out.push(104);
    out.push(61);
    proof {
        assert(out@ =~= old(out)@ + lit_info_hash());
    }
}

/// The query text `"&peer_id="`.
pub open spec fn lit_amp_peer_id() -> Seq<u8> {
    seq![38u8, 112u8, 101u8, 101u8, 114u8, 95u8, 105u8, 100u8, 61u8]
}

fn push_lit_amp_peer_id(out: &mut Vec<u8>)
    ensures
        final(out)@ == old(out)@ + lit_amp_peer_id(),
{
    out.push(38);
    out.push(112);
    out.push(101);
    out.push(101);
    out.push(114);
    out.push(95);
    out.push(105);
    out.push(100);
    out.push(61);
    proof {
        assert(out@ =~= old(out)@ + lit_amp_peer_id());
    }
}

/// The query text `"&port="`.
pub open spec fn lit_amp_port() -> Seq<u8> {
    seq![38u8, 112u8, 111u8, 114u8, 116u8, 61u8]
}

fn push_lit_amp_port(out: &mut Vec<u8>)
    ensures
        final(out)@ == old(out)@ + lit_amp_port(),
{
    out.push(38);
    out.push(112);
    out.push(111);
    out.push(114);
    out.push(116);
    out.push(61);
    proof {
        assert(out@ =~= old(out)@ + lit_amp_port());
    }
}

/// The query text `"&uploaded="`.
pub open spec fn lit_amp_uploaded() -> Seq<u8> {
    seq![38u8, 117u8, 112u8, 108u8, 111u8, 97u8, 100u8, 101u8, 100u8, 61u8]
}

fn push_lit_amp_uploaded(out: &mut Vec<u8>)
    ensures
        final(out)@ == old(out)@ + lit_amp_uploaded(),
{
    out.push(38);
    out.push(117);
    out.push(112);
    out.push(108);
    out.push(111);
    out.push(97);
    out.push(100);
    out.push(101);
    out.push(100);
    out.push(61);
    proof {
        assert(out@ =~= old(out)@ + lit_amp_uploaded());
    }
}

/// The query text `"&downloaded="`.
pub open spec fn lit_amp_downloaded() -> Seq<u8> {
    seq![38u8, 100u8, 111u8, 119u8, 110u8, 108u8, 111u8, 97u8, 100u8, 101u8, 100u8, 61u8]
}

fn push_lit_amp_downloaded(out: &mut Vec<u8>)
    ensures
        final(out)@ == old(out)@ + lit_amp_downloaded(),
{
    out.push(38);
    out.push(100);
    out.push(111);
    out.push(119);
    out.push(110);
    out.push(108);
    out.push(111);
    out.push(97);
    out.push(100);
    out.push(101);
    out.push(100);
    out.push(61);
    proof {
        assert(out@ =~= old(out)@ + lit_amp_downloaded());
    }
}

/// The query text `"&left="`.
pub open spec fn lit_amp_left() -> Seq<u8> {
    seq![38u8, 108u8, 101u8, 102u8, 116u8, 61u8]
}

fn push_lit_amp_left(out: &mut Vec<u8>)
    ensures
        final(out)@ == old(out)@ + lit_amp_left(),
{
    out.push(38);
    out.push(108);
    out.push(101);
    out.push(102);
    out.push(116);
    out.push(61);
    proof {
        assert(out@ =~= old(out)@ + lit_amp_left());
    }
}

/// The query text `"&compact="`.
pub open spec fn lit_amp_compact() -> Seq<u8> {
    seq![38u8, 99u8, 111u8, 109u8, 112u8, 97u8, 99u8, 116u8, 61u8]
}

fn push_lit_amp_compact(out: &mut Vec<u8>)
    ensures
        final(out)@ == old(out)@ + lit_amp_compact(),
{
    out.push(38);
    out.push(99);
    out.push(111);
    out.push(109);
    out.push(112);
    out.push(97);
    out.push(99);
    out.push(116);
    out.push(61);
    proof {
        assert(out@ =~= old(out)@ + lit_amp_compact());
    }
}

/// The query text `"&event="`.
pub open spec fn lit_amp_event() -> Seq<u8> {
    seq![38u8, 101u8, 118u8, 101u8, 110u8, 116u8, 61u8]
}

fn push_lit_amp_event(out: &mut Vec<u8>)
    ensures
        final(out)@ == old(out)@ + lit_amp_event(),
{
    out.push(38);
    out.push(101);
    out.push(118);
    out.push(101);
    out.push(110);
    out.push(116);
    out.push(61);
    proof {
        assert(out@ =~= old(out)@ + lit_amp_event());
    }
}

/// The query text `"&ip="`.
pub open spec fn lit_amp_ip() -> Seq<u8> {
    seq![38u8, 105u8, 112u8, 61u8]
}

fn push_lit_amp_ip(out: &mut Vec<u8>)
    ensures
        final(out)@ == old(out)@ + lit_amp_ip(),
{
    out.push(38);
    out.push(105);
    out.push(112);
    out.push(61);
    proof {
        assert(out@ =~= old(out)@ + lit_amp_ip());
    }
}

/// The query text `"&numwant="`.
pub open spec fn lit_amp_numwant() -> Seq<u8> {
    seq![38u8, 110u8, 117u8, 109u8, 119u8, 97u8, 110u8, 116u8, 61u8]
}

fn push_lit_amp_numwant(out: &mut Vec<u8>)
    ensures
        final(out)@ == old(out)@ + lit_amp_numwant(),
{
    out.push(38);
    out.push(110);
    out.push(117);
    out.push(109);
    out.push(119);
    out.push(97);
    out.push(110);
    out.push(116);
    out.push(61);
    proof {
        assert(out@ =~= old(out)@ + lit_amp_numwant());
    }
}

/// The query text `"started"`.
pub open spec fn lit_started() -> Seq<u8> {
    seq![115u8, 116u8, 97u8, 114u8, 116u8, 101u8, 100u8]
}

fn push_lit_started(out: &mut Vec<u8>)
    ensures
        final(out)@ == old(out)@ + lit_started(),
{
    out.push(115);
    out.push(116);
    out.push(97);
    out.push(114);
    out.push(116);
    out.push(101);
    out.push(100);
    proof {
        assert(out@ =~= old(out)@ + lit_started());
    }
}

/// The query text `"completed"`.
pub open spec fn lit_completed() -> Seq<u8> {
    seq![99u8, 111u8, 109u8, 112u8, 108u8, 101u8, 116u8, 101u8, 100u8]
}

fn push_lit_completed(out: &mut Vec<u8>)
    ensures
        final(out)@ == old(out)@ + lit_completed(),
{
    out.push(99);
    out.push(111);
    out.push(109);
    out.push(112);
    out.push(108);
    out.push(101);
    out.push(116);
    out.push(101);
    out.push(100);
    proof {
        assert(out@ =~= old(out)@ + lit_completed());
    }
}

/// The query text `"stopped"`.
pub open spec fn lit_stopped() -> Seq<u8> {
    seq![115u8, 116u8, 111u8, 112u8, 112u8, 101u8, 100u8]
}

fn push_lit_stopped(out: &mut Vec<u8>)
    ensures
        final(out)@ == old(out)@ + lit_stopped(),
{
    out.push(115);
    out.push(116);
    out.push(111);
    out.push(112);
    out.push(112);
    out.push(101);
    out.push(100);
    proof {
        assert(out@ =~= old(out)@ + lit_stopped());
    }
}

/// The query text `"empty"`.
pub open spec fn lit_empty() -> Seq<u8> {
    seq![101u8, 109u8, 112u8, 116u8, 121u8]
}

fn push_lit_empty(out: &mut Vec<u8>)
    ensures
        final(out)@ == old(out)@ + lit_empty(),
{
    out.push(101);
    out.push(109);
    out.push(112);
    out.push(116);
    out.push(121);
    proof {
        assert(out@ =~= old(out)@ + lit_empty());
    }
}


/// Append the decimal digits of `n`.
fn push_dec(out: &mut Vec<u8>, n: u64)
    ensures
        final(out)@ == old(out)@ + dec_rep(n as nat),
{
    let mut d = u64_to_decimal(n);
    out.append(&mut d);
}

/// The fixed part of the announce query: `info_hash` and `peer_id`
/// byte-wise percent-encoded, the counters in decimal, and the compact flag.
pub open spec fn spec_query_base(r: AnnounceRequest) -> Seq<u8> {
    lit_info_hash() + pct_encoded(r.info_hash@) + lit_amp_peer_id() + pct_encoded(r.peer_id@)
        + lit_amp_port() + dec_rep(r.port as nat) + lit_amp_uploaded() + dec_rep(
        r.uploaded as nat,
    ) + lit_amp_downloaded() + dec_rep(r.downloaded as nat) + lit_amp_left() + dec_rep(
        r.left as nat,
    ) + lit_amp_compact() + (if r.compact {
        seq![49u8]
    } else {
        seq![48u8]
    })
}

/// The event parameter, when one is reported.
pub open spec fn spec_query_event(prefix: Seq<u8>, r: AnnounceRequest) -> Seq<u8> {
    match r.event {
        None => prefix,
        Some(e) => prefix + lit_amp_event() + spec_event_name(e),
    }
}

/// The address override, when one is given, as a dotted quad.
pub open spec fn spec_query_ip(prefix: Seq<u8>, r: AnnounceRequest) -> Seq<u8> {
    match r.ip {
        None => prefix,
        Some(ip) => prefix + lit_amp_ip() + dec_rep(ip@[0] as nat) + seq![46u8] + dec_rep(
            ip@[1] as nat,
        ) + seq![46u8] + dec_rep(ip@[2] as nat) + seq![46u8] + dec_rep(ip@[3] as nat),
    }
}

/// The desired peer count, when one is given.
pub open spec fn spec_query_numwant(prefix: Seq<u8>, r: AnnounceRequest) -> Seq<u8> {
    match r.numwant {
        None => prefix,
        Some(n) => prefix + lit_amp_numwant() + dec_rep(n as nat),
    }
}

/// The whole announce query string.
pub open spec fn spec_query(r: AnnounceRequest) -> Seq<u8> {
    spec_query_numwant(spec_query_ip(spec_query_event(spec_query_base(r), r), r), r)
}

impl AnnounceRequest {
    /// The query string of this announce, ready to append to the announce
    /// URL.
    #[verifier::rlimit(100)]
    pub fn query_string(&self) -> (r: Vec<u8>)
        ensures
            r@ == spec_query(*self),
    {
        let mut out: Vec<u8> = Vec::new();
        push_lit_info_hash(&mut out);
        proof {
            assert(out@ =~= lit_info_hash());
        }
        pct_from(self.info_hash.as_slice(), 0, &mut out);
        push_lit_amp_peer_id(&mut out);
        pct_from(self.peer_id.as_slice(), 0, &mut out);
        push_lit_amp_port(&mut out);
        push_dec(&mut out, self.port as u64);
        push_lit_amp_uploaded(&mut out);
        push_dec(&mut out, self.uploaded);
        push_lit_amp_downloaded(&mut out);
        push_dec(&mut out, self.downloaded);
        push_lit_amp_left(&mut out);
        push_dec(&mut out, self.left);
        push_lit_amp_compact(&mut out);
        if self.compact {
            out.push(49);
        } else {
            out.push(48);
        }
        proof {
            assert(self.info_hash@.subrange(0, self.info_hash@.len() as int)
                =~= self.info_hash@);
            assert(self.peer_id@.subrange(0, self.peer_id@.len() as int) =~= self.peer_id@);
            assert(out@ =~= spec_query_base(*self));
        }
        let ghost base = out@;
        match self.event {
            None => {}
            Some(e) => {
                push_lit_amp_event(&mut out);
                match e {
                    Event::Started => push_lit_started(&mut out),
                    Event::Completed => push_lit_completed(&mut out),
                    Event::Stopped => push_lit_stopped(&mut out),
                    Event::Empty => push_lit_empty(&mut out),
                }
            }
        }
        proof {
            assert(out@ == spec_query_event(base, *self));
        }
        let ghost with_ev = out@;
        match self.ip {
            None => {}
            Some(ip) => {
                push_lit_amp_ip(&mut out);
                push_dec(&mut out, ip[0] as u64);
                out.push(46);
                push_dec(&mut out, ip[1] as u64);
                out.push(46);
                push_dec(&mut out, ip[2] as u64);
                out.push(46);
                push_dec(&mut out, ip[3] as u64);
            }
        }
        proof {
            assert(out@ =~= spec_query_ip(with_ev, *self));
        }
        let ghost with_addr = out@;
        match self.numwant {
            None => {}
            Some(n) => {
                push_lit_amp_numwant(&mut out);
                push_dec(&mut out, n as u64);
            }
        }
        proof {
            assert(out@ == spec_query_numwant(with_addr, *self));
        }
        out
    }
}

/// A peer the tracker reported.
#[derive(Debug, PartialEq, Eq)]
pub enum PeerAddr {
    /// A four-byte address and port, from the compact format.
    V4 { ip: [u8; 4], port: u16 },
    /// A sixteen-byte address and port, from the compact `peers6` format.
    V6 { ip: [u8; 16], port: u16 },
    /// A host as the tracker spelled it, from the structured format; left
    /// for the caller to resolve.
    Named { host: Vec<u8>, port: u16 },
}

/// Model of a `PeerAddr`.
#[verifier::ext_equal]
pub enum SpecPeerAddr {
    V4 { ip: Seq<u8>, port: u16 },
    V6 { ip: Seq<u8>, port: u16 },
    Named { host: Seq<u8>, port: u16 },
}

impl View for PeerAddr {
    type V = SpecPeerAddr;

    open spec fn view(&self) -> SpecPeerAddr {
        match self {
            PeerAddr::V4 { ip, port } => SpecPeerAddr::V4 { ip: ip@, port: *port },
            PeerAddr::V6 { ip, port } => SpecPeerAddr::V6 { ip: ip@, port: *port },
            PeerAddr::Named { host, port } => SpecPeerAddr::Named { host: host@, port: *port },
        }
    }
}

impl DeepView for PeerAddr {
    type V = SpecPeerAddr;

    open spec fn deep_view(&self) -> SpecPeerAddr {
        self.view()
    }
}

/// The peers a compact IPv4 byte string holds: one per six bytes, four of
/// address and two of port, network order.
pub open spec fn spec_compact_v4(b: Seq<u8>) -> Seq<SpecPeerAddr> {
    Seq::new(
        b.len() / 6,
        |k: int| SpecPeerAddr::V4 {
            ip: b.subrange(6 * k, 6 * k + 4),
            port: u16_from_be(b[6 * k + 4], b[6 * k + 5]),
        },
    )
}

/// The peers a compact IPv6 byte string holds: one per eighteen bytes.
pub open spec fn spec_compact_v6(b: Seq<u8>) -> Seq<SpecPeerAddr> {
    Seq::new(
        b.len() / 18,
        |k: int| SpecPeerAddr::V6 {
            ip: b.subrange(18 * k, 18 * k + 16),
            port: u16_from_be(b[18 * k + 16], b[18 * k + 17]),
        },
    )
}

/// Copy four bytes out of `s` at `off`.
fn read_4(s: &[u8], off: usize) -> (r: [u8; 4])
    requires
        off + 4 <= s@.len(),
    ensures
        r@ == s@.subrange(off as int, off + 4),
{
    let n = s.len();
    let a: [u8; 4] = [s[off], s[off + 1], s[off + 2], s[off + 3]];
    proof {
        assert(a@ =~= s@.subrange(off as int, off + 4));
    }
    a
}

/// Copy sixteen bytes out of `s` at `off`.
fn read_16(s: &[u8], off: usize) -> (r: [u8; 16])
    requires
        off + 16 <= s@.len(),
    ensures
        r@ == s@.subrange(off as int, off + 16),
{
    let n = s.len();
    let mut a = [0u8; 16];
    let mut i: usize = 0;
    while i < 16
        invariant
            i <= 16,
            off + 16 <= s@.len(),
            s@.len() <= usize::MAX,
            a@.len() == 16,
            forall|j: int| 0 <= j < i ==> a@[j] == s@[off + j],
        decreases 16 - i,
    {
        a[i] = s[off + i];
        i = i + 1;
    }
    proof {
        assert(a@ =~= s@.subrange(off as int, off + 16));
    }
    a
}

/// Decode a compact IPv4 peer string: exactly one peer per six bytes, or a
/// malformed-response error when the length is no multiple of six.
pub fn parse_compact_peers_v4(peers: &[u8]) -> (r: Result<Vec<PeerAddr>, TrackerError>)
    ensures
        match r {
            Ok(out) => peers@.len() % 6 == 0 && out.deep_view() == spec_compact_v4(peers@)
                && out@.len() == peers@.len() / 6,
            Err(e) => peers@.len() % 6 != 0 && e == TrackerError::MalformedResponse,
        },
{
    let n = peers.len();
    if n % 6 != 0 {
        return Err(TrackerError::MalformedResponse);
    }
    let count = n / 6;
    proof {
        vstd::arithmetic::div_mod::lemma_fundamental_div_mod(n as int, 6);
    }
    let mut out: Vec<PeerAddr> = Vec::new();
    let mut k: usize = 0;
    while k < count
        invariant
            k <= count,
            count == peers@.len() / 6,
            6 * count == peers@.len(),
            peers@.len() <= usize::MAX,
            peers@.len() % 6 == 0,
            out@.len() == k,
            forall|j: int| 0 <= j < k ==> out.deep_view()[j] == spec_compact_v4(peers@)[j],
        decreases count - k,
    {
        let base = 6 * k;
        let ip = read_4(peers, base);
        let port = read_u16_be(peers, base + 4);
        let ghost prev_deep = out.deep_view();
        let ghost prev_vec = out@;
        out.push(PeerAddr::V4 { ip, port });
        proof {
            assert(spec_compact_v4(peers@)[k as int] == (SpecPeerAddr::V4 {
                ip: peers@.subrange(6 * (k as int), 6 * (k as int) + 4),
                port: u16_from_be(peers@[6 * (k as int) + 4], peers@[6 * (k as int) + 5]),
            }));
            assert forall|j: int| 0 <= j <= k implies out.deep_view()[j] == spec_compact_v4(
                peers@,
            )[j] by {
                if j < k {
                    assert(out.deep_view()[j] == out@[j].deep_view());
                    assert(out@[j] == prev_vec[j]);
                    assert(prev_deep[j] == prev_vec[j].deep_view());
                    assert(prev_deep[j] == spec_compact_v4(peers@)[j]);
                } else {
                    assert(out.deep_view()[j] =~= spec_compact_v4(peers@)[j]);
                }
            }
        }
        k = k + 1;
    }
    proof {
        assert(out.deep_view() =~= spec_compact_v4(peers@));
    }
    Ok(out)
}

/// Decode a compact IPv6 peer string: exactly one peer per eighteen bytes.
pub fn parse_compact_peers_v6(peers: &[u8]) -> (r: Result<Vec<PeerAddr>, TrackerError>)
    ensures
        match r {
            Ok(out) => peers@.len() % 18 == 0 && out.deep_view() == spec_compact_v6(peers@)
                && out@.len() == peers@.len() / 18,
            Err(e) => peers@.len() % 18 != 0 && e == TrackerError::MalformedResponse,
        },
{
    let n = peers.len();
    if n % 18 != 0 {
        return Err(TrackerError::MalformedResponse);
    }
    let count = n / 18;
    proof {
        vstd::arithmetic::div_mod::lemma_fundamental_div_mod(n as int, 18);
    }
    let mut out: Vec<PeerAddr> = Vec::new();
    let mut k: usize = 0;
    while k < count
        invariant
            k <= count,
            count == peers@.len() / 18,
            18 * count == peers@.len(),
            peers@.len() <= usize::MAX,
            peers@.len() % 18 == 0,
            out@.len() == k,
            forall|j: int| 0 <= j < k ==> out.deep_view()[j] == spec_compact_v6(peers@)[j],
        decreases count - k,
    {
        let base = 18 * k;
        let ip = read_16(peers, base);
        let port = read_u16_be(peers, base + 16);
        let ghost prev_deep = out.deep_view();
        let ghost prev_vec = out@;
        out.push(PeerAddr::V6 { ip, port });
        proof {
            assert(spec_compact_v6(peers@)[k as int] == (SpecPeerAddr::V6 {
                ip: peers@.subrange(18 * (k as int), 18 * (k as int) + 16),
                port: u16_from_be(peers@[18 * (k as int) + 16], peers@[18 * (k as int) + 17]),
            }));
            assert forall|j: int| 0 <= j <= k implies out.deep_view()[j] == spec_compact_v6(
                peers@,
            )[j] by {
                if j < k {
                    assert(out.deep_view()[j] == out@[j].deep_view());
                    assert(out@[j] == prev_vec[j]);
                    assert(prev_deep[j] == prev_vec[j].deep_view());
                    assert(prev_deep[j] == spec_compact_v6(peers@)[j]);
                } else {
                    assert(out.deep_view()[j] =~= spec_compact_v6(peers@)[j]);
                }
            }
        }
        k = k + 1;
    }
    proof {
        assert(out.deep_view() =~= spec_compact_v6(peers@));
    }
    Ok(out)
}

/// One peer dictionary of the structured format: `ip` a byte string, `port`
/// an integer in port range.
pub open spec fn spec_peer_dict(v: SpecValue) -> Result<SpecPeerAddr, TrackerError> {
    match v {
        SpecValue::Dict(d) => {
            let host = match spec_lookup(d, key_ip()) {
                Some(SpecValue::Bytes(h)) => Ok(h),
                _ => Err(TrackerError::MalformedResponse),
            };
            match host {
                Err(e) => Err(e),
                Ok(host) => match spec_lookup(d, key_port()) {
                    Some(SpecValue::Int(p)) => if 0 <= p <= u16::MAX {
                        Ok(SpecPeerAddr::Named { host, port: p as u16 })
                    } else {
                        Err(TrackerError::MalformedResponse)
                    },
                    _ => Err(TrackerError::MalformedResponse),
                },
            }
        }
        _ => Err(TrackerError::MalformedResponse),
    }
}

/// The peers of a structured peer list.
pub open spec fn spec_peer_dicts(l: Seq<SpecValue>) -> Result<Seq<SpecPeerAddr>, TrackerError>
    decreases l,
{
    if l.len() == 0 {
        Ok(Seq::empty())
    } else {
        match spec_peer_dict(l[0]) {
            Err(e) => Err(e),
            Ok(p) => match spec_peer_dicts(l.subrange(1, l.len() as int)) {
                Err(e) => Err(e),
                Ok(rest) => Ok(seq![p] + rest),
            },
        }
    }
}

/// The `peers` value of an announce response: either a compact byte string
/// or a list of peer dictionaries.
pub open spec fn spec_peers_value(v: SpecValue) -> Result<Seq<SpecPeerAddr>, TrackerError> {
    match v {
        SpecValue::Bytes(b) => if b.len() % 6 == 0 {
            Ok(spec_compact_v4(b))
        } else {
            Err(TrackerError::MalformedResponse)
        },
        SpecValue::List(l) => spec_peer_dicts(l),
        _ => Err(TrackerError::MalformedResponse),
    }
}

/// Read one structured peer dictionary.
fn peer_from_value(v: &Value) -> (r: Result<PeerAddr, TrackerError>)
    ensures
        match r {
            Ok(p) => spec_peer_dict(v@) == Ok::<SpecPeerAddr, TrackerError>(p@),
            Err(e) => spec_peer_dict(v@) == Err::<SpecPeerAddr, TrackerError>(e),
        },
{
    let d = match v {
        Value::Dictionary(d) => d,
        _ => {
            return Err(TrackerError::MalformedResponse);
        }
    };
    let host = match dict_lookup(d, key_ip_bytes().as_slice()) {
        Some(Value::ByteString(h)) => vstd::slice::slice_to_vec(h.bytes.as_slice()),
        _ => {
            return Err(TrackerError::MalformedResponse);
        }
    };
    let port = match dict_lookup(d, key_port_bytes().as_slice()) {
        Some(Value::Integer(n)) => match n.inner {
            IntegerKind::Positive(x) => if x <= 65535 {
                x as u16
            } else {
                return Err(TrackerError::MalformedResponse);
            },
            IntegerKind::Negative(x) => if 0 <= x && x <= 65535 {
                x as u16
            } else {
                return Err(TrackerError::MalformedResponse);
            },
        },
        _ => {
            return Err(TrackerError::MalformedResponse);
        }
    };
    Ok(PeerAddr::Named { host, port })
}

/// Read the elements of `l` from `i` on, each a peer dictionary.
fn peers_from(l: &Vec<Value>, i: usize) -> (r: Result<Vec<PeerAddr>, TrackerError>)
    requires
        i <= l@.len(),
    ensures
        match r {
            Ok(out) => spec_peer_dicts(view_list(l@.subrange(i as int, l@.len() as int))) == Ok::<
                Seq<SpecPeerAddr>,
                TrackerError,
            >(out.deep_view()),
            Err(e) => spec_peer_dicts(view_list(l@.subrange(i as int, l@.len() as int))) == Err::<
                Seq<SpecPeerAddr>,
                TrackerError,
            >(e),
        },
    decreases l@.len() - i,
{
    let ghost rest = l@.subrange(i as int, l@.len() as int);
    if i >= l.len() {
        proof {
            assert(rest =~= Seq::<Value>::empty());
        }
        let out: Vec<PeerAddr> = Vec::new();
        proof {
            assert(out.deep_view() =~= Seq::<SpecPeerAddr>::empty());
        }
        return Ok(out);
    }
    proof {
        assert(rest[0] == l@[i as int]);
        assert(rest.subrange(1, rest.len() as int) =~= l@.subrange(i + 1, l@.len() as int));
        let vl = view_list(rest);
        assert(vl == seq![view_value(l@[i as int])] + view_list(
            l@.subrange(i + 1, l@.len() as int),
        ));
        assert(vl[0] == view_value(l@[i as int]));
        assert(vl.subrange(1, vl.len() as int) =~= view_list(l@.subrange(i + 1, l@.len() as int)));
    }
    let p = match peer_from_value(&l[i]) {
        Ok(p) => p,
        Err(e) => {
            return Err(e);
        }
    };
    match peers_from(l, i + 1) {
        Err(e) => Err(e),
        Ok(mut out) => {
            let ghost tailv = out.deep_view();
            out.insert(0, p);
            proof {
                assert(out.deep_view() =~= seq![p@] + tailv);
            }
            Ok(out)
        }
    }
}

/// Model of an `AnnounceResponse`.
#[verifier::ext_equal]
pub struct SpecAnnounceResponse {
    pub interval: u64,
    pub peers: Seq<SpecPeerAddr>,
}

/// What an HTTP announce returned: the re-announce interval and the peers,
/// from `peers` (either format) followed by any `peers6`.
#[derive(Debug, PartialEq, Eq)]
pub struct AnnounceResponse {
    pub interval: u64,
    pub peers: Vec<PeerAddr>,
}

impl View for AnnounceResponse {
    type V = SpecAnnounceResponse;

    open spec fn view(&self) -> SpecAnnounceResponse {
        SpecAnnounceResponse { interval: self.interval, peers: self.peers.deep_view() }
    }
}

/// An announce response read from a value: `interval` is required, `peers`
/// may be compact or structured, `peers6` compact.
pub open spec fn spec_announce_value(v: SpecValue) -> Result<SpecAnnounceResponse, TrackerError> {
    match v {
        SpecValue::Dict(d) => {
            let interval = match spec_lookup(d, key_interval()) {
                Some(SpecValue::Int(i)) => if 0 <= i <= u64::MAX {
                    Ok(i as u64)
                } else {
                    Err(TrackerError::MalformedResponse)
                },
                _ => Err(TrackerError::MalformedResponse),
            };
            match interval {
                Err(e) => Err(e),
                Ok(interval) => {
                    let peers = match spec_lookup(d, key_peers()) {
                        None => Ok(Seq::<SpecPeerAddr>::empty()),
                        Some(pv) => spec_peers_value(pv),
                    };
                    match peers {
                        Err(e) => Err(e),
                        Ok(peers) => {
                            let more = match spec_lookup(d, key_peers6()) {
                                None => Ok(Seq::<SpecPeerAddr>::empty()),
                                Some(SpecValue::Bytes(b)) => if b.len() % 18 == 0 {
                                    Ok(spec_compact_v6(b))
                                } else {
                                    Err(TrackerError::MalformedResponse)
                                },
                                Some(_) => Err(TrackerError::MalformedResponse),
                            };
                            match more {
                                Err(e) => Err(e),
                                Ok(more) => Ok(
                                    SpecAnnounceResponse { interval, peers: peers + more },
                                ),
                            }
                        }
                    }
                }
            }
        }
        _ => Err(TrackerError::MalformedResponse),
    }
}

/// A whole announce response body read onto the record.
pub open spec fn spec_parse_announce(s: Seq<u8>) -> Result<SpecAnnounceResponse, TrackerError> {
    match spec_decode(s) {
        Err(_) => Err(TrackerError::MalformedResponse),
        Ok(v) => spec_announce_value(v),
    }
}

impl AnnounceResponse {
    /// Read an announce response from a decoded value.
    pub fn from_value(v: &Value) -> (r: Result<AnnounceResponse, TrackerError>)
        ensures
            match r {
                Ok(a) => spec_announce_value(v@) == Ok::<SpecAnnounceResponse, TrackerError>(a@),
                Err(e) => spec_announce_value(v@) == Err::<SpecAnnounceResponse, TrackerError>(e),
            },
    {
        let d = match v {
            Value::Dictionary(d) => d,
            _ => {
                return Err(TrackerError::MalformedResponse);
            }
        };
        let interval = match dict_lookup(d, key_interval_bytes().as_slice()) {
            Some(Value::Integer(n)) => match n.inner {
                IntegerKind::Positive(x) => x,
                IntegerKind::Negative(x) => if x >= 0 {
                    x as u64
                } else {
                    return Err(TrackerError::MalformedResponse);
                },
            },
            _ => {
                return Err(TrackerError::MalformedResponse);
            }
        };
        let mut peers: Vec<PeerAddr> = Vec::new();
        match dict_lookup(d, key_peers_bytes().as_slice()) {
            None => {
                proof {
                    assert(peers.deep_view() =~= Seq::<SpecPeerAddr>::empty());
                }
            }
            Some(pv) => match pv {
                Value::ByteString(b) => match parse_compact_peers_v4(b.bytes.as_slice()) {
                    Ok(p) => {
                        peers = p;
                    }
                    Err(e) => {
                        return Err(e);
                    }
                },
                Value::List(l) => {
                    proof {
                        assert(l@.subrange(0, l@.len() as int) =~= l@);
                    }
                    match peers_from(l, 0) {
                        Ok(p) => {
                            peers = p;
                        }
                        Err(e) => {
                            return Err(e);
                        }
                    }
                }
                _ => {
                    return Err(TrackerError::MalformedResponse);
                }
            },
        }
        let ghost first = peers.deep_view();
        match dict_lookup(d, key_peers6_bytes().as_slice()) {
            None => {
                proof {
                    assert(first + Seq::<SpecPeerAddr>::empty() =~= first);
                }
            }
            Some(pv) => match pv {
                Value::ByteString(b) => match parse_compact_peers_v6(b.bytes.as_slice()) {
                    Ok(mut p) => {
                        let ghost morev = p.deep_view();
                        peers.append(&mut p);
                        proof {
                            assert(peers.deep_view() =~= first + morev);
                        }
                    }
                    Err(e) => {
                        return Err(e);
                    }
                },
                _ => {
                    return Err(TrackerError::MalformedResponse);
                }
            },
        }
        let a = AnnounceResponse { interval, peers };
        proof {
            assert(spec_announce_value(v@) == Ok::<SpecAnnounceResponse, TrackerError>(a@));
        }
        Ok(a)
    }

    /// Decode a whole announce response body.
    pub fn parse(bytes: &[u8]) -> (r: Result<AnnounceResponse, TrackerError>)
        ensures
            match r {
                Ok(a) => spec_parse_announce(bytes@) == Ok::<SpecAnnounceResponse, TrackerError>(
                    a@,
                ),
                Err(e) => spec_parse_announce(bytes@) == Err::<SpecAnnounceResponse, TrackerError>(
                    e,
                ),
            },
    {
        match decode(bytes) {
            Err(_) => Err(TrackerError::MalformedResponse),
            Ok(v) => AnnounceResponse::from_value(&v),
        }
    }
}

} // verus!
