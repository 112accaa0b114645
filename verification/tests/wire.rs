//! The peer wire on concrete bytes: the handshake, the message framing,
//! the session state machine and the extended handshake.

use leech::error::FieldName;
use leech::extended::ExtendedHandshake;
use leech::message::{decode_frames, try_parse_frame, Piece};
use leech::session::{bitfield_get, peer_id, validate_bitfield};
use leech::{DecodingError, Handshake, Message, Session, SessionBuilder, Status, WireError};

#[test]
fn handshake_bytes() {
    // Reserved flags 0x0000000000100004: extension protocol and fast
    // extension set, DHT clear.
    let reserved = [0u8, 0, 0, 0, 0, 0x10, 0, 0x04];
    let info_hash = [7u8; 20];
    let peer = [9u8; 20];
    let h = Handshake::new(reserved, info_hash, peer);
    let bytes = h.as_bytes();
    assert_eq!(bytes.len(), 68);
    assert_eq!(bytes[0], 19);
    assert_eq!(&bytes[1..20], b"BitTorrent protocol");
    assert_eq!(&bytes[20..28], &reserved);
    assert_eq!(&bytes[28..48], &info_hash);
    assert_eq!(&bytes[48..68], &peer);

    // The remote side decodes the same flags.
    let parsed = Handshake::from_bytes(&bytes).unwrap();
    assert_eq!(parsed, h);
    let info = parsed.peer_info();
    assert!(info.extension_protocol);
    assert!(info.fast_extension);
    assert!(!info.dht_extension);
    assert_eq!(info.peer_id, peer);
}

#[test]
fn handshake_validation() {
    let h = Handshake::new([0u8; 8], [7u8; 20], [9u8; 20]);
    let mut bytes = h.as_bytes();
    bytes[5] = b'X';
    assert_eq!(
        Handshake::from_bytes(&bytes).unwrap_err(),
        WireError::InvalidHandshake
    );
    assert_eq!(
        Handshake::from_bytes(&bytes[..67]).unwrap_err(),
        WireError::InvalidHandshake
    );

    // Info-hashes match exactly when equal.
    let expected = [7u8; 20];
    assert!(h.verify_remote(&expected).is_ok());
    let other = [8u8; 20];
    assert_eq!(
        h.verify_remote(&other).unwrap_err(),
        WireError::InfoHashMismatch { expected: other, received: [7u8; 20] }
    );
}

#[test]
fn message_frames() {
    assert_eq!(Message::keep_alive().to_bytes(), vec![0, 0, 0, 0]);
    assert_eq!(Message::choke().to_bytes(), vec![0, 0, 0, 1, 0]);
    assert_eq!(Message::unchoke().to_bytes(), vec![0, 0, 0, 1, 1]);
    assert_eq!(Message::interested().to_bytes(), vec![0, 0, 0, 1, 2]);
    assert_eq!(Message::not_interested().to_bytes(), vec![0, 0, 0, 1, 3]);
    assert_eq!(Message::have(7).to_bytes(), vec![0, 0, 0, 5, 4, 0, 0, 0, 7]);
    assert_eq!(
        Message::request(1, 2, 3).to_bytes(),
        vec![0, 0, 0, 13, 6, 0, 0, 0, 1, 0, 0, 0, 2, 0, 0, 0, 3]
    );
    assert_eq!(
        Message::piece(1, 2, vec![0xaa, 0xbb]).to_bytes(),
        vec![0, 0, 0, 11, 7, 0, 0, 0, 1, 0, 0, 0, 2, 0xaa, 0xbb]
    );
    assert_eq!(
        Message::cancel(1, 2, 3).to_bytes(),
        vec![0, 0, 0, 13, 8, 0, 0, 0, 1, 0, 0, 0, 2, 0, 0, 0, 3]
    );
    assert_eq!(Message::port(6881).to_bytes(), vec![0, 0, 0, 3, 9, 0x1a, 0xe1]);
    assert_eq!(
        Message::bitfield(vec![0xa0]).to_bytes(),
        vec![0, 0, 0, 2, 5, 0xa0]
    );
    let m = Message::Extended { id: 1, payload: vec![b'd', b'e'] };
    assert_eq!(m.to_bytes(), vec![0, 0, 0, 4, 20, 1, b'd', b'e']);
    assert_eq!(m.len(), 8);
    assert_eq!(Message::keep_alive().len(), 4);
    assert_eq!(Message::have(7).len(), 9);
}

#[test]
fn message_parsing() {
    // Receive [0,0,0,0] -> keep-alive.
    assert_eq!(
        try_parse_frame(&[0, 0, 0, 0]).unwrap(),
        Some((Message::KeepAlive, 4))
    );
    // Receive [0,0,0,5, 4, 0,0,0,7] -> Have(7).
    assert_eq!(
        try_parse_frame(&[0, 0, 0, 5, 4, 0, 0, 0, 7]).unwrap(),
        Some((Message::Have(7), 9))
    );
    // Receive [0,0,0,1, 1] -> Unchoke.
    assert_eq!(
        try_parse_frame(&[0, 0, 0, 1, 1]).unwrap(),
        Some((Message::Unchoke, 5))
    );
    // A buffer without a whole frame yet.
    assert_eq!(try_parse_frame(&[0, 0, 0]).unwrap(), None);
    assert_eq!(try_parse_frame(&[0, 0, 0, 5, 4]).unwrap(), None);

    assert_eq!(Message::from_bytes(&[]).unwrap(), Message::KeepAlive);
    assert_eq!(
        Message::from_bytes(&[4, 0, 0]).unwrap_err(),
        WireError::MalformedMessage { id: 4 }
    );
    assert_eq!(
        Message::from_bytes(&[0, 1]).unwrap_err(),
        WireError::MalformedMessage { id: 0 }
    );
    assert_eq!(
        Message::from_bytes(&[99, 1, 2]).unwrap(),
        Message::Unknown { id: 99, payload: vec![1, 2] }
    );
    assert_eq!(
        Message::from_bytes(&[7, 0, 0, 0, 1, 0, 0, 0, 2, 9]).unwrap(),
        Message::Piece(Piece { index: 1, begin: 2, block: vec![9] })
    );
}

#[test]
fn frame_stream_round_trip() {
    // Concatenated frames decode back to the same sequence of messages.
    let messages = vec![
        Message::unchoke(),
        Message::have(3),
        Message::bitfield(vec![0x80]),
        Message::piece(0, 0, vec![1, 2, 3]),
        Message::keep_alive(),
        Message::port(6881),
    ];
    let mut stream = Vec::new();
    for m in &messages {
        stream.extend_from_slice(&m.to_bytes());
    }
    let decoded = decode_frames(&stream).unwrap();
    assert_eq!(decoded, messages);

    // A stream cut inside a frame reports the transport closing early.
    assert_eq!(
        decode_frames(&stream[..stream.len() - 1]).unwrap_err(),
        WireError::PeerClosed
    );
}

#[test]
fn status_transitions() {
    let mut st = Status::new();
    assert!(st.am_choking && !st.am_interested && st.peer_choking && !st.peer_interested);

    // Choke then unchoke returns am_choking to false; a second unchoke
    // changes nothing.
    assert!(!st.choke());  // already choking: no message owed
    assert!(st.unchoke());
    assert!(!st.am_choking);
    assert!(!st.unchoke());
    assert!(!st.am_choking);
    assert!(st.choke());
    assert!(st.am_choking);

    assert!(st.interested());
    assert!(st.am_interested);
    assert!(!st.interested());
    assert!(st.not_interested());
    assert!(!st.am_interested);

    st.on_receive(&Message::Unchoke);
    assert!(!st.peer_choking);
    st.on_receive(&Message::Interested);
    assert!(st.peer_interested);
    st.on_receive(&Message::Choke);
    assert!(st.peer_choking);
    st.on_receive(&Message::NotInterested);
    assert!(!st.peer_interested);
    // Data messages leave the flags alone.
    st.on_receive(&Message::Have(1));
    assert!(st.peer_choking && !st.peer_interested);
}

#[test]
fn session_bitfield_rule() {
    let mut s = Session::new([1u8; 20]);
    // A bitfield right after the handshake is fine.
    assert!(s.on_receive(&Message::bitfield(vec![0x80])).is_ok());
    // Receiving Unchoke updates the flags.
    assert!(s.on_receive(&Message::Unchoke).is_ok());
    assert!(!s.status.peer_choking);
    // A second bitfield after other traffic is a violation.
    assert_eq!(
        s.on_receive(&Message::bitfield(vec![0x80])).unwrap_err(),
        WireError::UnexpectedBitfield
    );
    // Keep-alives do not count as traffic.
    let mut s = Session::new([1u8; 20]);
    assert!(s.on_receive(&Message::KeepAlive).is_ok());
    assert!(s.on_receive(&Message::bitfield(vec![0x80])).is_ok());
}

#[test]
fn bitfield_validation() {
    // 0xa0 = bits 1,0,1,0,0,0,0,0 (most significant first).
    assert!(bitfield_get(&[0xa0], 0));
    assert!(!bitfield_get(&[0xa0], 1));
    assert!(bitfield_get(&[0xa0], 2));
    assert!(validate_bitfield(&[0xa0], 3));
    assert!(!validate_bitfield(&[0xa0], 2));  // bit 2 is set but past the count
    assert!(!validate_bitfield(&[0xa0], 9));  // too short
    assert!(validate_bitfield(&[0xa0, 0x00], 9));
    assert!(validate_bitfield(&[], 0));
}

#[test]
fn session_builder() {
    let b = Session::builder();
    assert_eq!(b.keep_alive_secs, 120);
    let b = b.keep_alive_interval(60).peer_id([5u8; 20]);
    assert_eq!(b.keep_alive_secs, 60);
    assert_eq!(b.peer_id, [5u8; 20]);
    let s = b.session([6u8; 20]);
    assert_eq!(s.peer_id, [6u8; 20]);
    assert!(!s.got_message);

    let b2 = SessionBuilder::new();
    assert_eq!(&b2.peer_id[0..8], b"-LE0001-");
    let id = peer_id(b"AB", b"1234");
    assert_eq!(&id[0..8], b"-AB1234-");
}

#[test]
fn extended_handshake_decoding() {
    let payload = b"d1:md11:ut_metadatai3e6:ut_pexi1ee13:metadata_sizei512e1:pi6881e1:v4:test6:yourip4:\x7f\x00\x00\x01e";
    let h = ExtendedHandshake::decode(payload).unwrap();
    assert_eq!(
        h.messages,
        vec![("ut_metadata".to_string(), 3), ("ut_pex".to_string(), 1)]
    );
    assert_eq!(h.port, Some(6881));
    assert_eq!(h.version.as_deref(), Some("test"));
    assert_eq!(h.yourip, Some(vec![127, 0, 0, 1]));
    assert_eq!(h.metadata_size, Some(512));
    assert_eq!(h.reqq, None);

    // The extension-name map is required.
    assert_eq!(
        ExtendedHandshake::decode(b"d1:pi1ee").unwrap_err(),
        DecodingError::MissingField { field: FieldName::MessageIds }
    );
}
