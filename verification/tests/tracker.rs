//! The tracker formats on concrete bytes: the announce query string, the
//! compact peer formats, the response mapping and the UDP packets.

use leech::client::{
    build_announce_request, build_connect_request, parse_announce_response,
    parse_connect_response, Actions,
};
use leech::tracker::{
    parse_compact_peers_v4, parse_compact_peers_v6, percent_encode, PeerAddr,
};
use leech::{AnnounceRequest, AnnounceResponse, Event, TrackerError};

#[test]
fn percent_encoding_is_bytewise() {
    // Every byte becomes %HH, even printable ASCII.
    assert_eq!(percent_encode(b"az"), b"%61%7A".to_vec());
    assert_eq!(percent_encode(&[0x00, 0xff]), b"%00%FF".to_vec());
    assert_eq!(percent_encode(b""), b"".to_vec());
}

#[test]
fn announce_query_string() {
    let req = AnnounceRequest {
        info_hash: [0xab; 20],
        peer_id: [0x2d; 20],
        ip: None,
        port: 6881,
        uploaded: 1,
        downloaded: 2,
        left: 30,
        event: Some(Event::Started),
        compact: true,
        numwant: Some(50),
    };
    let q = String::from_utf8(req.query_string()).unwrap();
    let mut expected = String::from("info_hash=");
    expected.push_str(&"%AB".repeat(20));
    expected.push_str("&peer_id=");
    expected.push_str(&"%2D".repeat(20));
    expected.push_str("&port=6881&uploaded=1&downloaded=2&left=30&compact=1");
    expected.push_str("&event=started&numwant=50");
    assert_eq!(q, expected);
}

#[test]
fn announce_query_options() {
    let req = AnnounceRequest {
        info_hash: [0x00; 20],
        peer_id: [0x00; 20],
        ip: Some([10, 0, 0, 7]),
        port: 1,
        uploaded: 0,
        downloaded: 0,
        left: 0,
        event: None,
        compact: false,
        numwant: None,
    };
    let q = String::from_utf8(req.query_string()).unwrap();
    let mut expected = String::from("info_hash=");
    expected.push_str(&"%00".repeat(20));
    expected.push_str("&peer_id=");
    expected.push_str(&"%00".repeat(20));
    expected.push_str("&port=1&uploaded=0&downloaded=0&left=0&compact=0&ip=10.0.0.7");
    assert_eq!(q, expected);
}

#[test]
fn compact_peers_v4() {
    // One six-byte record: 127.0.0.1:6881.
    let peers = parse_compact_peers_v4(b"\x7f\x00\x00\x01\x1a\xe1").unwrap();
    assert_eq!(peers, vec![PeerAddr::V4 { ip: [127, 0, 0, 1], port: 6881 }]);

    // N records give exactly N peers.
    let two = parse_compact_peers_v4(&[1, 2, 3, 4, 0, 80, 9, 8, 7, 6, 0x1f, 0x90]).unwrap();
    assert_eq!(
        two,
        vec![
            PeerAddr::V4 { ip: [1, 2, 3, 4], port: 80 },
            PeerAddr::V4 { ip: [9, 8, 7, 6], port: 8080 },
        ]
    );
    assert_eq!(parse_compact_peers_v4(&[]).unwrap(), vec![]);
    assert_eq!(
        parse_compact_peers_v4(&[1, 2, 3]).unwrap_err(),
        TrackerError::MalformedResponse
    );
}

#[test]
fn compact_peers_v6() {
    let mut record = vec![0u8; 16];
    record[15] = 1;
    record.extend_from_slice(&[0x1a, 0xe1]);
    let mut two = record.clone();
    two.extend_from_slice(&record);
    let peers = parse_compact_peers_v6(&two).unwrap();
    assert_eq!(peers.len(), 2);
    let mut ip = [0u8; 16];
    ip[15] = 1;
    assert_eq!(peers[0], PeerAddr::V6 { ip, port: 6881 });
    assert_eq!(
        parse_compact_peers_v6(&[0u8; 17]).unwrap_err(),
        TrackerError::MalformedResponse
    );
}

#[test]
fn announce_response_compact() {
    let body = b"d8:intervali1800e5:peers6:\x7f\x00\x00\x01\x1a\xe1e";
    let resp = AnnounceResponse::parse(body).unwrap();
    assert_eq!(resp.interval, 1800);
    assert_eq!(resp.peers, vec![PeerAddr::V4 { ip: [127, 0, 0, 1], port: 6881 }]);
}

#[test]
fn announce_response_structured() {
    let body = b"d8:intervali60e5:peersld2:ip9:host.test4:porti81eeee";
    let resp = AnnounceResponse::parse(body).unwrap();
    assert_eq!(resp.interval, 60);
    assert_eq!(
        resp.peers,
        vec![PeerAddr::Named { host: b"host.test".to_vec(), port: 81 }]
    );
}

#[test]
fn announce_response_peers6() {
    let mut body = b"d8:intervali60e5:peers6:\x01\x02\x03\x04\x00\x50".to_vec();
    body.extend_from_slice(b"6:peers618:");
    let mut rec = vec![0u8; 16];
    rec[0] = 0xfe;
    body.extend_from_slice(&rec);
    body.extend_from_slice(&[0, 80]);
    body.push(b'e');
    let resp = AnnounceResponse::parse(&body).unwrap();
    assert_eq!(resp.peers.len(), 2);
    assert!(matches!(resp.peers[0], PeerAddr::V4 { .. }));
    assert!(matches!(resp.peers[1], PeerAddr::V6 { .. }));
}

#[test]
fn announce_response_errors() {
    // Missing interval.
    assert_eq!(
        AnnounceResponse::parse(b"de").unwrap_err(),
        TrackerError::MalformedResponse
    );
    // Not bencode at all.
    assert_eq!(
        AnnounceResponse::parse(b"hello").unwrap_err(),
        TrackerError::MalformedResponse
    );
    // Compact peers of a broken length.
    assert_eq!(
        AnnounceResponse::parse(b"d8:intervali60e5:peers5:aaaaae").unwrap_err(),
        TrackerError::MalformedResponse
    );
}

#[test]
fn udp_connect_round_trip() {
    let req = build_connect_request(0x01020304);
    assert_eq!(
        req,
        vec![0, 0, 4, 0x17, 0x27, 0x10, 0x19, 0x80, 0, 0, 0, 0, 1, 2, 3, 4]
    );

    // [action=0, echoed id, connection id]
    let resp = [0, 0, 0, 0, 1, 2, 3, 4, 9, 9, 9, 9, 9, 9, 9, 9];
    let c = parse_connect_response(&resp, 0x01020304).unwrap();
    assert_eq!(c.action, Actions::Connect);
    assert_eq!(c.transaction_id, 0x01020304);
    assert_eq!(c.connection_id, 0x0909090909090909);

    // The transaction id must match.
    assert_eq!(
        parse_connect_response(&resp, 7).unwrap_err(),
        TrackerError::TransactionMismatch
    );
    // Action 3 surfaces the tracker's reason.
    let mut err = vec![0, 0, 0, 3, 1, 2, 3, 4];
    err.extend_from_slice(b"full");
    assert_eq!(
        parse_connect_response(&err, 0x01020304).unwrap_err(),
        TrackerError::Failure { reason: b"full".to_vec() }
    );
    assert_eq!(
        parse_connect_response(&resp[..12], 0x01020304).unwrap_err(),
        TrackerError::MalformedResponse
    );
}

#[test]
fn udp_announce_round_trip() {
    let req = build_announce_request(
        0x1111111111111111,
        0x22222222,
        &[3u8; 20],
        &[4u8; 20],
        10,
        20,
        30,
        2,
        0,
        0x55555555,
        -1,
        6881,
    );
    assert_eq!(req.len(), 98);
    assert_eq!(&req[0..8], &[0x11; 8]);
    assert_eq!(&req[8..12], &[0, 0, 0, 1]);
    assert_eq!(&req[12..16], &[0x22; 4]);
    assert_eq!(&req[16..36], &[3u8; 20]);
    assert_eq!(&req[36..56], &[4u8; 20]);
    assert_eq!(&req[56..64], &[0, 0, 0, 0, 0, 0, 0, 10]);
    assert_eq!(&req[64..72], &[0, 0, 0, 0, 0, 0, 0, 20]);
    assert_eq!(&req[72..80], &[0, 0, 0, 0, 0, 0, 0, 30]);
    assert_eq!(&req[80..84], &[0, 0, 0, 2]);
    assert_eq!(&req[84..88], &[0, 0, 0, 0]);
    assert_eq!(&req[88..92], &[0x55; 4]);
    assert_eq!(&req[92..96], &[0xff; 4]);  // num_want = -1
    assert_eq!(&req[96..98], &[0x1a, 0xe1]);

    let mut resp = vec![0, 0, 0, 1, 0x22, 0x22, 0x22, 0x22];
    resp.extend_from_slice(&[0, 0, 7, 8]);  // interval
    resp.extend_from_slice(&[0, 0, 0, 5]);  // leechers
    resp.extend_from_slice(&[0, 0, 0, 6]);  // seeders
    resp.extend_from_slice(b"\x7f\x00\x00\x01\x1a\xe1");
    let a = parse_announce_response(&resp, 0x22222222).unwrap();
    assert_eq!(a.action, Actions::Announce);
    assert_eq!(a.interval, 0x0708);
    assert_eq!(a.leechers, 5);
    assert_eq!(a.seeders, 6);
    assert_eq!(a.peers, vec![PeerAddr::V4 { ip: [127, 0, 0, 1], port: 6881 }]);

    assert_eq!(
        parse_announce_response(&resp, 3).unwrap_err(),
        TrackerError::TransactionMismatch
    );
}

#[test]
fn action_codes() {
    assert_eq!(Actions::Connect.code(), 0);
    assert_eq!(Actions::Announce.code(), 1);
    assert_eq!(Actions::Scrape.code(), 2);
    assert_eq!(Actions::Error.code(), 3);
    assert_eq!(Actions::try_from(0).unwrap(), Actions::Connect);
    assert_eq!(Actions::try_from(3).unwrap(), Actions::Error);
    assert_eq!(
        Actions::try_from(9).unwrap_err(),
        TrackerError::MalformedResponse
    );
}
