//! The metainfo model on concrete torrents: parsing, the info slice, and
//! the info-hash computed both ways.

use sha1::{Digest, Sha1};

use leech::error::{DecodingError, Error, FieldName, Shape};
use leech::metainfo::{info_hash_from_slice, info_slice, FileKind, MetaInfo};

/// A single-file torrent:
/// `announce = "http://t/"`, `info = d6:lengthi11e4:name5:hello12:piece
/// lengthi16384e6:pieces20:<20 zero bytes>e`.
fn single_file_torrent() -> Vec<u8> {
    let mut raw = Vec::new();
    raw.extend_from_slice(b"d8:announce9:http://t/4:info");
    raw.extend_from_slice(b"d6:lengthi11e4:name5:hello12:piece lengthi16384e6:pieces20:");
    raw.extend_from_slice(&[0u8; 20]);
    raw.extend_from_slice(b"ee");
    raw
}

#[test]
fn parse_single_file() {
    let raw = single_file_torrent();
    let m = MetaInfo::parse(&raw).unwrap();
    assert_eq!(m.announce.as_deref(), Some("http://t/"));
    assert_eq!(m.info.name, "hello");
    assert_eq!(m.info.piece_length, 16384);
    assert_eq!(m.info.pieces, vec![0u8; 20]);
    assert_eq!(m.info.private, None);
    assert_eq!(
        m.info.files,
        FileKind::SingleFile { length: 11, md5sum: None }
    );
    assert_eq!(m.length(), 11);
}

#[test]
fn info_hash_matches_raw_slice() {
    // The info-hash is the SHA-1 of the info substring exactly as stored,
    // whether taken from the raw slice or from the re-encoded record.
    let raw = single_file_torrent();
    let (a, b) = info_slice(&raw).unwrap();
    let expected_slice = &raw[a..b];
    assert_eq!(expected_slice[0], b'd');
    assert_eq!(*expected_slice.last().unwrap(), b'e');

    let mut hasher = Sha1::new();
    hasher.update(expected_slice);
    let expected: [u8; 20] = hasher.finalize().into();

    assert_eq!(info_hash_from_slice(&raw).unwrap(), expected);
    let m = MetaInfo::parse(&raw).unwrap();
    assert_eq!(m.info_hash(), expected);
}

#[test]
fn parse_multi_file() {
    let mut raw = Vec::new();
    raw.extend_from_slice(b"d4:infod5:filesl");
    raw.extend_from_slice(b"d6:lengthi5e4:pathl1:a2:bcee");
    raw.extend_from_slice(b"d6:lengthi7e4:pathl1:deee");
    raw.extend_from_slice(b"4:name3:dir12:piece lengthi32768e6:pieces20:");
    raw.extend_from_slice(&[1u8; 20]);
    raw.extend_from_slice(b"ee");
    let m = MetaInfo::parse(&raw).unwrap();
    match &m.info.files {
        FileKind::MultiFile { files } => {
            assert_eq!(files.len(), 2);
            assert_eq!(files[0].length, 5);
            assert_eq!(files[0].path, vec!["a".to_string(), "bc".to_string()]);
            assert_eq!(files[1].length, 7);
            assert_eq!(files[1].path, vec!["d".to_string()]);
        }
        _ => panic!("expected a multi-file layout"),
    }
    assert_eq!(m.length(), 12);
}

#[test]
fn unknown_keys_are_skipped() {
    let mut raw = Vec::new();
    raw.extend_from_slice(b"d5:added3:yes4:infod6:lengthi1e4:name1:x6:marker0:");
    raw.extend_from_slice(b"12:piece lengthi1e6:pieces0:ee");
    let m = MetaInfo::parse(&raw).unwrap();
    assert_eq!(m.info.name, "x");
    assert_eq!(m.announce, None);
}

#[test]
fn metainfo_errors() {
    // No info key.
    assert_eq!(
        MetaInfo::parse(b"d8:announce9:http://t/e").unwrap_err(),
        DecodingError::MissingField { field: FieldName::Info }
    );
    // Not a dictionary at top level.
    assert_eq!(
        MetaInfo::parse(b"le").unwrap_err(),
        DecodingError::TypeMismatch { expected: Shape::Dictionary, actual: Shape::List }
    );
    // Structural failure is surfaced as such.
    assert_eq!(
        MetaInfo::parse(b"d").unwrap_err(),
        DecodingError::Structure(Error::UnexpectedEnd)
    );
    // Pieces must be a whole number of 20-byte digests.
    assert_eq!(
        MetaInfo::parse(b"d4:infod6:lengthi1e4:name1:x12:piece lengthi1e6:pieces3:abcee")
            .unwrap_err(),
        DecodingError::PiecesLengthNotMultipleOf20
    );
    // A missing required field inside info.
    assert_eq!(
        MetaInfo::parse(b"d4:infod4:name1:x12:piece lengthi1e6:pieces0:ee").unwrap_err(),
        DecodingError::MissingField { field: FieldName::Length }
    );
    // A name that is not UTF-8.
    let mut raw = Vec::new();
    raw.extend_from_slice(b"d4:infod6:lengthi1e4:name1:");
    raw.push(0xff);
    raw.extend_from_slice(b"12:piece lengthi1e6:pieces0:ee");
    assert_eq!(MetaInfo::parse(&raw).unwrap_err(), DecodingError::Utf8);
}

#[test]
fn integer_range_errors() {
    // A private flag outside a byte.
    assert_eq!(
        MetaInfo::parse(
            b"d4:infod6:lengthi1e4:name1:x12:piece lengthi1e6:pieces0:7:privatei300eee"
        )
        .unwrap_err(),
        DecodingError::IntegerOutOfRange
    );
    // A negative length.
    assert_eq!(
        MetaInfo::parse(b"d4:infod6:lengthi-1e4:name1:x12:piece lengthi1e6:pieces0:ee")
            .unwrap_err(),
        DecodingError::IntegerOutOfRange
    );
}

#[test]
fn utf8_text_is_decoded() {
    // A multi-byte UTF-8 name survives the mapping exactly.
    let mut raw = Vec::new();
    raw.extend_from_slice(b"d4:infod6:lengthi1e4:name6:");
    raw.extend_from_slice("h\u{e9}llo".as_bytes());
    raw.extend_from_slice(b"12:piece lengthi1e6:pieces0:ee");
    let m = MetaInfo::parse(&raw).unwrap();
    assert_eq!(m.info.name, "h\u{e9}llo");
}

#[test]
fn info_slice_errors() {
    assert_eq!(
        info_slice(b"d8:announce9:http://t/e").unwrap_err(),
        DecodingError::MissingField { field: FieldName::Info }
    );
    assert_eq!(
        info_slice(b"i3e").unwrap_err(),
        DecodingError::TypeMismatch { expected: Shape::Dictionary, actual: Shape::Integer }
    );
    assert_eq!(
        info_slice(b"d4:infoi3ee0:").unwrap_err(),
        DecodingError::Structure(Error::TrailingBytes)
    );
}

#[test]
fn optional_fields_round_through() {
    let mut raw = Vec::new();
    raw.extend_from_slice(b"d13:announce-listll9:http://a/9:http://b/el9:http://c/ee");
    raw.extend_from_slice(b"7:comment2:hi10:created by4:test13:creation datei99e");
    raw.extend_from_slice(b"4:infod6:lengthi1e4:name1:x12:piece lengthi1e6:pieces0:7:privatei1ee");
    raw.extend_from_slice(b"8:url-listl9:http://u/ee");
    let m = MetaInfo::parse(&raw).unwrap();
    assert_eq!(
        m.announce_list,
        Some(vec![
            vec!["http://a/".to_string(), "http://b/".to_string()],
            vec!["http://c/".to_string()],
        ])
    );
    assert_eq!(m.comment.as_deref(), Some("hi"));
    assert_eq!(m.created_by.as_deref(), Some("test"));
    assert_eq!(m.creation_date, Some(99));
    assert_eq!(m.info.private, Some(1));
    assert_eq!(m.url_list, Some(vec!["http://u/".to_string()]));
    assert_eq!(m.length(), 1);
}
