//! The bencode codec on concrete inputs: the decode scenarios, the errors,
//! and byte-exact round trips.

use leech::error::Error;
use leech::value::IntegerKind;
use leech::{decode, decode_prefix, encode, skip_value, ByteString, Deserializer, Integer, Value};

fn bs(s: &[u8]) -> ByteString {
    ByteString::from(s.to_vec())
}

fn text(s: &str) -> Value {
    Value::ByteString(bs(s.as_bytes()))
}

fn num(n: i64) -> Value {
    Value::Integer(Integer::from_i64(n))
}

#[test]
fn decode_integers() {
    assert_eq!(decode(b"i42e").unwrap(), num(42));
    assert_eq!(decode(b"i-1e").unwrap(), num(-1));
    assert_eq!(decode(b"i0e").unwrap(), num(0));
    assert_eq!(decode(b"i-0e").unwrap_err(), Error::NegativeZero);
    assert_eq!(decode(b"i03e").unwrap_err(), Error::LeadingZero);
    assert_eq!(decode(b"i-03e").unwrap_err(), Error::NegativeZero);
}

#[test]
fn decode_integer_bounds() {
    // The largest value held: 2^64 - 1.
    let v = decode(b"i18446744073709551615e").unwrap();
    match &v {
        Value::Integer(i) => {
            assert_eq!(i.as_u64(), Some(u64::MAX));
            assert_eq!(i.as_i64(), None);
            assert!(!i.is_i64());
            assert!(i.is_u64());
        }
        _ => panic!("not an integer"),
    }
    // The smallest: -(2^63).
    let v = decode(b"i-9223372036854775808e").unwrap();
    match &v {
        Value::Integer(i) => {
            assert_eq!(i.as_i64(), Some(i64::MIN));
            assert_eq!(i.as_u64(), None);
            assert!(i.is_i64());
            assert!(!i.is_u64());
        }
        _ => panic!("not an integer"),
    }
    // One past either bound.
    assert_eq!(decode(b"i18446744073709551616e").unwrap_err(), Error::OutOfBound);
    assert_eq!(decode(b"i-9223372036854775809e").unwrap_err(), Error::OutOfBound);
}

#[test]
fn decode_byte_strings() {
    assert_eq!(decode(b"4:spam").unwrap(), text("spam"));
    assert_eq!(decode(b"0:").unwrap(), text(""));
    assert_eq!(decode(b"5:ab").unwrap_err(), Error::EofInString);
    assert_eq!(decode(b"04:spam").unwrap_err(), Error::LeadingZero);
}

#[test]
fn decode_lists_and_dictionaries() {
    assert_eq!(
        decode(b"l4:spami42ee").unwrap(),
        Value::List(vec![text("spam"), num(42)])
    );
    assert_eq!(
        decode(b"d3:bari2e3:fooi1ee").unwrap(),
        Value::Dictionary(vec![(bs(b"bar"), num(2)), (bs(b"foo"), num(1))])
    );
    assert_eq!(decode(b"le").unwrap(), Value::List(vec![]));
    assert_eq!(decode(b"de").unwrap(), Value::Dictionary(vec![]));
}

#[test]
fn decode_structural_errors() {
    assert_eq!(decode(b"").unwrap_err(), Error::UnexpectedEnd);
    assert_eq!(decode(b"i42").unwrap_err(), Error::UnexpectedEnd);
    assert_eq!(decode(b"l4:spam").unwrap_err(), Error::UnexpectedEnd);
    assert_eq!(
        decode(b"x").unwrap_err(),
        Error::UnexpectedToken { found: b'x', index: 0 }
    );
    assert_eq!(
        decode(b"i1x").unwrap_err(),
        Error::UnexpectedToken { found: b'x', index: 2 }
    );
    assert_eq!(decode(b"i1ee").unwrap_err(), Error::TrailingBytes);
    // A dictionary key must be a byte string.
    assert_eq!(
        decode(b"di1ei2ee").unwrap_err(),
        Error::UnexpectedToken { found: b'i', index: 1 }
    );
}

#[test]
fn encode_decode_byte_exact() {
    // Decoding and re-encoding reproduces a valid stream byte for byte.
    for raw in [
        &b"i42e"[..],
        b"i-1e",
        b"4:spam",
        b"0:",
        b"l4:spami42ee",
        b"d3:bari2e3:fooi1ee",
        b"d4:infod6:lengthi11e4:name5:helloee",
        b"li-3ei0el0:ee",
    ] {
        let v = decode(raw).unwrap();
        assert_eq!(encode(&v), raw.to_vec());
    }
}

#[test]
fn decode_encode_identity() {
    // Encoding and decoding gives the value back.
    let v = Value::Dictionary(vec![
        (bs(b"a"), Value::List(vec![num(-7), text(""), num(u64::MAX as i64)])),
        (bs(b"b"), Value::Dictionary(vec![])),
        (bs(b"c"), text("spam")),
    ]);
    let bytes = encode(&v);
    assert_eq!(decode(&bytes).unwrap(), v);
}

#[test]
fn dictionary_order_is_preserved() {
    // The codec keeps pairs in stream order, even out of sorted order, so
    // an opaque sub-document re-encodes exactly.
    let raw = b"d3:fooi1e3:bari2ee";
    let v = decode(raw).unwrap();
    assert_eq!(
        v,
        Value::Dictionary(vec![(bs(b"foo"), num(1)), (bs(b"bar"), num(2))])
    );
    assert_eq!(encode(&v), raw.to_vec());
}

#[test]
fn canonical_checking() {
    let sorted = Value::Dictionary(vec![(bs(b"bar"), num(2)), (bs(b"foo"), num(1))]);
    assert!(sorted.is_canonical());
    assert_eq!(sorted.to_bencode().unwrap(), b"d3:bari2e3:fooi1ee".to_vec());

    let unsorted = Value::Dictionary(vec![(bs(b"foo"), num(1)), (bs(b"bar"), num(2))]);
    assert!(!unsorted.is_canonical());
    assert_eq!(unsorted.to_bencode().unwrap_err(), Error::UnsortedKeys);

    // Duplicate keys are not strictly ascending either.
    let dup = Value::Dictionary(vec![(bs(b"a"), num(1)), (bs(b"a"), num(2))]);
    assert!(!dup.is_canonical());
}

#[test]
fn deserialize_and_serialize_dictionary() {
    // A dictionary of five keys encodes with its pairs as stored — here in
    // ascending order — and decodes back to the same pairs.
    let keys = [b"a", b"b", b"c", b"d", b"e"];
    let pairs: Vec<(ByteString, Value)> = keys
        .iter()
        .map(|k| (bs(&k[..]), Value::Integer(Integer::from_u64(10))))
        .collect();
    let v = Value::Dictionary(pairs);
    assert!(v.is_canonical());
    let bytes = encode(&v);
    assert_eq!(bytes, b"d1:ai10e1:bi10e1:ci10e1:di10e1:ei10ee".to_vec());
    assert_eq!(decode(&bytes).unwrap(), v);
}

#[test]
fn prefix_and_skip() {
    let raw = b"i42etrailing";
    let (v, used) = decode_prefix(raw).unwrap();
    assert_eq!(v, num(42));
    assert_eq!(used, 4);
    assert_eq!(skip_value(raw, 0).unwrap(), 4);
    assert_eq!(skip_value(b"d3:bari2e3:fooi1ee", 0).unwrap(), 18);
    assert_eq!(skip_value(b"d3:bari2e3:fooi1ee", 1).unwrap(), 6);
}

#[test]
fn deserializer_cursor() {
    let mut de = Deserializer::from_bytes(b"i42e4:spam".to_vec());
    assert_eq!(de.peek_byte().unwrap(), b'i');
    assert_eq!(de.next_byte().unwrap(), b'i');
    let n = de.parse_integer().unwrap();
    assert_eq!(n.as_i64(), Some(42));
    let s = de.parse_byte_string().unwrap();
    assert_eq!(s, bs(b"spam"));
    assert!(de.finish().is_ok());

    let mut de = Deserializer::from_bytes(b"0:extra".to_vec());
    let s = de.parse_byte_string().unwrap();
    assert_eq!(s, bs(b""));
    assert_eq!(de.finish().unwrap_err(), Error::TrailingBytes);

    let mut de = Deserializer::from_bytes(b"le".to_vec());
    let v = de.parse_value().unwrap();
    assert_eq!(v, Value::List(vec![]));
}

#[test]
fn integer_representation() {
    let pos = Integer::from_i64(5);
    assert!(matches!(pos.inner, IntegerKind::Positive(5)));
    let neg = Integer::from_i64(-5);
    assert!(matches!(neg.inner, IntegerKind::Negative(-5)));
    assert_eq!(Integer::from_u64(7).as_i64(), Some(7));
    assert_eq!(encode(&Value::Integer(Integer::from_u64(u64::MAX))),
        b"i18446744073709551615e".to_vec());
    assert_eq!(encode(&Value::Integer(Integer::from_i64(i64::MIN))),
        b"i-9223372036854775808e".to_vec());
}

#[test]
fn error_messages() {
    assert_eq!(Error::unexpected_token(b'x', 3),
        Error::UnexpectedToken { found: b'x', index: 3 });
    assert_eq!(Error::TrailingBytes.message(), "trailing bytes");
    assert_eq!(Error::NegativeZero.message(),
        "negative zero is not a valid bencode number");
}

#[test]
fn byte_string_helpers() {
    let b = ByteString::new();
    assert_eq!(b.len(), 0);
    let b = ByteString::with_capacity(8);
    assert_eq!(b.len(), 0);
    let b = ByteString::from(vec![1u8, 2, 3]);
    assert_eq!(b.len(), 3);
    assert_eq!(b.into_vec(), vec![1u8, 2, 3]);
}

#[test]
fn value_accessors() {
    assert_eq!(decode(b"4:spam").unwrap().byte_string(), Some(bs(b"spam")));
    assert_eq!(decode(b"4:spam").unwrap().integer(), None);
    assert_eq!(
        decode(b"i7e").unwrap().integer().and_then(|i| i.as_u64()),
        Some(7)
    );
    assert_eq!(decode(b"le").unwrap().list(), Some(vec![]));
    assert_eq!(decode(b"de").unwrap().dictionary(), Some(vec![]));
    assert_eq!(decode(b"de").unwrap().list(), None);
}
