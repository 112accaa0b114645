//! The extended handshake of the extension protocol: the bencoded dictionary
//! both peers send as the first `Extended` message when both advertise the
//! extension-protocol bit.

use vstd::prelude::*;

verus! {

use vstd::utf8::{decode_utf8, valid_utf8};
use crate::decode::{decode, spec_decode};
use crate::error::{DecodingError, FieldName, Shape};
use crate::keys::{
    key_m, key_m_bytes, key_metadata_size, key_metadata_size_bytes, key_p, key_p_bytes, key_reqq,
    key_reqq_bytes, key_v, key_v_bytes, key_yourip, key_yourip_bytes,
};
use crate::metainfo::{parse_bytes_value, parse_text, shape, shape_of, value_to_bytes,
    value_to_text};
use crate::text::bytes_to_string;
use crate::value::{
    dict_lookup, spec_lookup, view_pairs, ByteString, IntegerKind, SpecValue, Value,
};

/// Model of an `ExtendedHandshake`.
#[verifier::ext_equal]
pub struct SpecExtendedHandshake {
    pub messages: Seq<(Seq<char>, u32)>,
    pub port: Option<u16>,
    pub version: Option<Seq<char>>,
    pub yourip: Option<Seq<u8>>,
    pub reqq: Option<u32>,
    pub metadata_size: Option<u32>,
}

/// An integer read as a port number.
pub open spec fn parse_u16_value(v: SpecValue) -> Result<u16, DecodingError> {
    match v {
        SpecValue::Int(i) => if 0 <= i <= u16::MAX {
            Ok(i as u16)
        } else {
            Err(DecodingError::IntegerOutOfRange)
        },
        _ => Err(DecodingError::TypeMismatch { expected: Shape::Integer, actual: shape_of(v) }),
    }
}

/// An integer read as an unsigned 32-bit count.
pub open spec fn parse_u32_value(v: SpecValue) -> Result<u32, DecodingError> {
    match v {
        SpecValue::Int(i) => if 0 <= i <= u32::MAX {
            Ok(i as u32)
        } else {
            Err(DecodingError::IntegerOutOfRange)
        },
        _ => Err(DecodingError::TypeMismatch { expected: Shape::Integer, actual: shape_of(v) }),
    }
}

/// The extension-name map: every pair of the dictionary in order, each key
/// UTF-8 text and each value a message id.
pub open spec fn parse_ext_pairs(d: Seq<(Seq<u8>, SpecValue)>) -> Result<
    Seq<(Seq<char>, u32)>,
    DecodingError,
>
    decreases d,
{
    if d.len() == 0 {
        Ok(Seq::empty())
    } else {
        if !valid_utf8(d[0].0) {
            Err(DecodingError::Utf8)
        } else {
            match parse_u32_value(d[0].1) {
                Err(e) => Err(e),
                Ok(n) => match parse_ext_pairs(d.subrange(1, d.len() as int)) {
                    Err(e) => Err(e),
                    Ok(rest) => Ok(seq![(decode_utf8(d[0].0), n)] + rest),
                },
            }
        }
    }
}

/// An extended handshake read from a value: the `m` map is required, the
/// rest optional; unknown keys are skipped.
pub open spec fn parse_ext_value(v: SpecValue) -> Result<SpecExtendedHandshake, DecodingError> {
    match v {
        SpecValue::Dict(d) => {
            let messages = match spec_lookup(d, key_m()) {
                None => Err(DecodingError::MissingField { field: FieldName::MessageIds }),
                Some(mv) => match mv {
                    SpecValue::Dict(md) => parse_ext_pairs(md),
                    _ => Err(
                        DecodingError::TypeMismatch {
                            expected: Shape::Dictionary,
                            actual: shape_of(mv),
                        },
                    ),
                },
            };
            match messages {
                Err(e) => Err(e),
                Ok(messages) => {
                    let port = match spec_lookup(d, key_p()) {
                        None => Ok(None),
                        Some(x) => match parse_u16_value(x) {
                            Err(e) => Err(e),
                            Ok(p) => Ok(Some(p)),
                        },
                    };
                    match port {
                        Err(e) => Err(e),
                        Ok(port) => parse_ext_tail(d, messages, port),
                    }
                }
            }
        }
        _ => Err(DecodingError::TypeMismatch { expected: Shape::Dictionary, actual: shape_of(v) }),
    }
}

/// The optional keys of the extended handshake after `m` and `p`.
pub open spec fn parse_ext_tail(
    d: Seq<(Seq<u8>, SpecValue)>,
    messages: Seq<(Seq<char>, u32)>,
    port: Option<u16>,
) -> Result<SpecExtendedHandshake, DecodingError> {
    let version = match spec_lookup(d, key_v()) {
        None => Ok(None),
        Some(x) => match parse_text(x) {
            Err(e) => Err(e),
            Ok(s) => Ok(Some(s)),
        },
    };
    match version {
        Err(e) => Err(e),
        Ok(version) => {
            let yourip = match spec_lookup(d, key_yourip()) {
                None => Ok(None),
                Some(x) => match parse_bytes_value(x) {
                    Err(e) => Err(e),
                    Ok(b) => Ok(Some(b)),
                },
            };
            match yourip {
                Err(e) => Err(e),
                Ok(yourip) => {
                    let reqq = match spec_lookup(d, key_reqq()) {
                        None => Ok(None),
                        Some(x) => match parse_u32_value(x) {
                            Err(e) => Err(e),
                            Ok(n) => Ok(Some(n)),
                        },
                    };
                    match reqq {
                        Err(e) => Err(e),
                        Ok(reqq) => {
                            let metadata_size = match spec_lookup(d, key_metadata_size()) {
                                None => Ok(None),
                                Some(x) => match parse_u32_value(x) {
                                    Err(e) => Err(e),
                                    Ok(n) => Ok(Some(n)),
                                },
                            };
                            match metadata_size {
                                Err(e) => Err(e),
                                Ok(metadata_size) => Ok(
                                    SpecExtendedHandshake {
                                        messages,
                                        port,
                                        version,
                                        yourip,
                                        reqq,
                                        metadata_size,
                                    },
                                ),
                            }
                        }
                    }
                }
            }
        }
    }
}

/// A whole extended-handshake payload read onto the record.
pub open spec fn spec_parse_extended(s: Seq<u8>) -> Result<
    SpecExtendedHandshake,
    DecodingError,
> {
    match spec_decode(s) {
        Err(e) => Err(DecodingError::Structure(e)),
        Ok(v) => parse_ext_value(v),
    }
}

/// The dictionary both peers exchange as extended message zero.
#[derive(Debug, PartialEq, Eq)]
pub struct ExtendedHandshake {
    /// The `m` key: extension name to local message id, in stream order.
    pub messages: Vec<(String, u32)>,
    /// The `p` key: the sender's listen port.
    pub port: Option<u16>,
    /// The `v` key: the sender's client and version.
    pub version: Option<String>,
    /// The `yourip` key: the receiver's address as the sender sees it, four
    /// or sixteen raw bytes.
    pub yourip: Option<Vec<u8>>,
    /// The `reqq` key: the request queue depth.
    pub reqq: Option<u32>,
    /// The `metadata_size` key of the metadata extension.
    pub metadata_size: Option<u32>,
}

impl View for ExtendedHandshake {
    type V = SpecExtendedHandshake;

    open spec fn view(&self) -> SpecExtendedHandshake {
        SpecExtendedHandshake {
            messages: self.messages.deep_view(),
            port: self.port,
            version: self.version.deep_view(),
            yourip: match self.yourip {
                None => None,
                Some(ref b) => Some(b@),
            },
            reqq: self.reqq,
            metadata_size: self.metadata_size,
        }
    }
}

/// Read a value as a port number.
fn value_to_u16(v: &Value) -> (r: Result<u16, DecodingError>)
    ensures
        match r {
            Ok(n) => parse_u16_value(v@) == Ok::<u16, DecodingError>(n),
            Err(e) => parse_u16_value(v@) == Err::<u16, DecodingError>(e),
        },
{
    match v {
        Value::Integer(n) => match n.inner {
            IntegerKind::Positive(x) => if x <= 65535 {
                Ok(x as u16)
            } else {
                Err(DecodingError::IntegerOutOfRange)
            },
            IntegerKind::Negative(x) => if 0 <= x && x <= 65535 {
                Ok(x as u16)
            } else {
                Err(DecodingError::IntegerOutOfRange)
            },
        },
        _ => Err(DecodingError::TypeMismatch { expected: Shape::Integer, actual: shape(v) }),
    }
}

/// Read a value as an unsigned 32-bit count.
pub(crate) fn value_to_u32(v: &Value) -> (r: Result<u32, DecodingError>)
    ensures
        match r {
            Ok(n) => parse_u32_value(v@) == Ok::<u32, DecodingError>(n),
            Err(e) => parse_u32_value(v@) == Err::<u32, DecodingError>(e),
        },
{
    match v {
        Value::Integer(n) => match n.inner {
            IntegerKind::Positive(x) => if x <= 0xffff_ffff {
                Ok(x as u32)
            } else {
                Err(DecodingError::IntegerOutOfRange)
            },
            IntegerKind::Negative(x) => if 0 <= x && x <= 0xffff_ffff {
                Ok(x as u32)
            } else {
                Err(DecodingError::IntegerOutOfRange)
            },
        },
        _ => Err(DecodingError::TypeMismatch { expected: Shape::Integer, actual: shape(v) }),
    }
}

/// Read the extension-name map from `i` on.
fn ext_pairs_from(d: &Vec<(ByteString, Value)>, i: usize) -> (r: Result<
    Vec<(String, u32)>,
    DecodingError,
>)
    requires
        i <= d@.len(),
    ensures
        match r {
            Ok(out) => parse_ext_pairs(view_pairs(d@).subrange(i as int, d@.len() as int)) == Ok::<
                Seq<(Seq<char>, u32)>,
                DecodingError,
            >(out.deep_view()),
            Err(e) => parse_ext_pairs(view_pairs(d@).subrange(i as int, d@.len() as int)) == Err::<
                Seq<(Seq<char>, u32)>,
                DecodingError,
            >(e),
        },
    decreases d@.len() - i,
{
    proof {
        crate::value::lemma_view_pairs(d@);
    }
    let ghost rest = view_pairs(d@).subrange(i as int, d@.len() as int);
    if i >= d.len() {
        proof {
            assert(rest =~= Seq::<(Seq<u8>, SpecValue)>::empty());
        }
        let out: Vec<(String, u32)> = Vec::new();
        proof {
            assert(out.deep_view() =~= Seq::<(Seq<char>, u32)>::empty());
        }
        return Ok(out);
    }
    proof {
        assert(rest[0] == view_pairs(d@)[i as int]);
        assert(rest.subrange(1, rest.len() as int) =~= view_pairs(d@).subrange(
            i + 1,
            d@.len() as int,
        ));
    }
    let keybytes = vstd::slice::slice_to_vec(d[i].0.bytes.as_slice());
    let name = match bytes_to_string(keybytes) {
        Some(s) => s,
        None => {
            return Err(DecodingError::Utf8);
        }
    };
    let id = match value_to_u32(&d[i].1) {
        Ok(n) => n,
        Err(e) => {
            return Err(e);
        }
    };
    match ext_pairs_from(d, i + 1) {
        Err(e) => Err(e),
        Ok(mut out) => {
            let ghost tailv = out.deep_view();
            out.insert(0, (name, id));
            proof {
                assert(out.deep_view() =~= seq![(name@, id)] + tailv);
            }
            Ok(out)
        }
    }
}

impl ExtendedHandshake {
    /// Read an extended handshake from a decoded value.
    pub fn from_value(v: &Value) -> (r: Result<ExtendedHandshake, DecodingError>)
        ensures
            match r {
                Ok(h) => parse_ext_value(v@) == Ok::<SpecExtendedHandshake, DecodingError>(h@),
                Err(e) => parse_ext_value(v@) == Err::<SpecExtendedHandshake, DecodingError>(e),
            },
    {
        let d = match v {
            Value::Dictionary(d) => d,
            _ => {
                return Err(
                    DecodingError::TypeMismatch { expected: Shape::Dictionary, actual: shape(v) },
                );
            }
        };
        let messages = match dict_lookup(d, key_m_bytes().as_slice()) {
            None => {
                return Err(DecodingError::MissingField { field: FieldName::MessageIds });
            }
            Some(mv) => match mv {
                Value::Dictionary(md) => {
                    proof {
                        assert(view_pairs(md@).subrange(0, md@.len() as int) =~= view_pairs(md@))
                            by {
                            crate::value::lemma_view_pairs(md@);
                        }
                    }
                    match ext_pairs_from(md, 0) {
                        Ok(m) => m,
                        Err(e) => {
                            return Err(e);
                        }
                    }
                }
                _ => {
                    return Err(
                        DecodingError::TypeMismatch {
                            expected: Shape::Dictionary,
                            actual: shape(mv),
                        },
                    );
                }
            },
        };
        let port = match dict_lookup(d, key_p_bytes().as_slice()) {
            None => None,
            Some(x) => match value_to_u16(x) {
                Ok(p) => Some(p),
                Err(e) => {
                    return Err(e);
                }
            },
        };
        let version = match dict_lookup(d, key_v_bytes().as_slice()) {
            None => None,
            Some(x) => match value_to_text(x) {
                Ok(s) => Some(s),
                Err(e) => {
                    return Err(e);
                }
            },
        };
        let yourip = match dict_lookup(d, key_yourip_bytes().as_slice()) {
            None => None,
            Some(x) => match value_to_bytes(x) {
                Ok(b) => Some(b),
                Err(e) => {
                    return Err(e);
                }
            },
        };
        let reqq = match dict_lookup(d, key_reqq_bytes().as_slice()) {
            None => None,
            Some(x) => match value_to_u32(x) {
                Ok(n) => Some(n),
                Err(e) => {
                    return Err(e);
                }
            },
        };
        let metadata_size = match dict_lookup(d, key_metadata_size_bytes().as_slice()) {
            None => None,
            Some(x) => match value_to_u32(x) {
                Ok(n) => Some(n),
                Err(e) => {
                    return Err(e);
                }
            },
        };
        let h = ExtendedHandshake { messages, port, version, yourip, reqq, metadata_size };
        proof {
            assert(parse_ext_value(v@) == Ok::<SpecExtendedHandshake, DecodingError>(h@));
        }
        Ok(h)
    }

    /// Decode a whole extended-handshake payload.
    pub fn decode(payload: &[u8]) -> (r: Result<ExtendedHandshake, DecodingError>)
        ensures
            match r {
                Ok(h) => spec_parse_extended(payload@) == Ok::<
                    SpecExtendedHandshake,
                    DecodingError,
                >(h@),
                Err(e) => spec_parse_extended(payload@) == Err::<
                    SpecExtendedHandshake,
                    DecodingError,
                >(e),
            },
    {
        match decode(payload) {
            Err(e) => Err(DecodingError::Structure(e)),
            Ok(v) => ExtendedHandshake::from_value(&v),
        }
    }
}

} // verus!
