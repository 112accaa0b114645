//! The metainfo model: the typed view over a decoded torrent document, the
//! mapping from bencode values onto it, and the info-hash helpers.

use sha1::Digest;
use vstd::prelude::*;

verus! {

use vstd::utf8::{decode_utf8, valid_utf8};
use crate::error::{DecodingError, FieldName, Shape};
use crate::keys::{
    key_announce, key_announce_bytes, key_announce_list, key_announce_list_bytes, key_comment,
    key_comment_bytes, key_created_by, key_created_by_bytes, key_creation_date,
    key_creation_date_bytes, key_encoding, key_encoding_bytes, key_files, key_files_bytes,
    key_httpseeds, key_httpseeds_bytes, key_info, key_info_bytes, key_length, key_length_bytes,
    key_md5sum, key_md5sum_bytes, key_name, key_name_bytes, key_path, key_path_bytes,
    key_piece_length, key_piece_length_bytes, key_pieces, key_pieces_bytes, key_private,
    key_private_bytes, key_source, key_source_bytes, key_url_list, key_url_list_bytes,
};
use crate::text::bytes_to_string;
use crate::value::{
    bytes_equal, dict_lookup, spec_lookup, view_list, view_pairs, view_value, ByteString, Integer, IntegerKind,
    SpecValue, Value,
};
use crate::decode::{
    decode, decode_string_at, lemma_parse_bounds, lemma_parse_string_bounds, parse_at,
    parse_pairs, skip_value, spec_decode,
};
use crate::encode::spec_encode;
use vstd::utf8::encode_utf8;
use vstd::string::StrSliceExecFns;

/// Which of the four shapes a value has.
pub open spec fn shape_of(v: SpecValue) -> Shape {
    match v {
        SpecValue::Bytes(_) => Shape::ByteString,
        SpecValue::Int(_) => Shape::Integer,
        SpecValue::List(_) => Shape::List,
        SpecValue::Dict(_) => Shape::Dictionary,
    }
}

/// The shape of a value.
pub fn shape(v: &Value) -> (r: Shape)
    ensures
        r == shape_of(v@),
{
    match v {
        Value::ByteString(_) => Shape::ByteString,
        Value::Integer(_) => Shape::Integer,
        Value::List(_) => Shape::List,
        Value::Dictionary(_) => Shape::Dictionary,
    }
}

// ---------------------------------------------------------------------------
// The mathematical model of the records.

/// Model of a `File` record.
#[verifier::ext_equal]
pub struct SpecFile {
    pub length: u64,
    pub md5sum: Option<Seq<char>>,
    pub path: Seq<Seq<char>>,
}

/// Model of a `FileKind`.
#[verifier::ext_equal]
pub enum SpecFileKind {
    Single { length: u64, md5sum: Option<Seq<char>> },
    Multi { files: Seq<SpecFile> },
}

/// Model of an `Info` record.
#[verifier::ext_equal]
pub struct SpecInfo {
    pub name: Seq<char>,
    pub piece_length: u64,
    pub pieces: Seq<u8>,
    pub private: Option<u8>,
    pub source: Option<Seq<char>>,
    pub files: SpecFileKind,
}

/// Model of a `MetaInfo` record.
#[verifier::ext_equal]
pub struct SpecMetaInfo {
    pub announce: Option<Seq<char>>,
    pub announce_list: Option<Seq<Seq<Seq<char>>>>,
    pub comment: Option<Seq<char>>,
    pub created_by: Option<Seq<char>>,
    pub creation_date: Option<u64>,
    pub encoding: Option<Seq<char>>,
    pub http_seeds: Option<Seq<Seq<char>>>,
    pub info: SpecInfo,
    pub url_list: Option<Seq<Seq<char>>>,
}

// ---------------------------------------------------------------------------
// Specification of the mapping from values onto records.

/// A byte string read as UTF-8 text.
pub open spec fn parse_text(v: SpecValue) -> Result<Seq<char>, DecodingError> {
    match v {
        SpecValue::Bytes(b) => if valid_utf8(b) {
            Ok(decode_utf8(b))
        } else {
            Err(DecodingError::Utf8)
        },
        _ => Err(
            DecodingError::TypeMismatch { expected: Shape::ByteString, actual: shape_of(v) },
        ),
    }
}

/// An integer read as an unsigned 64-bit count.
pub open spec fn parse_u64_value(v: SpecValue) -> Result<u64, DecodingError> {
    match v {
        SpecValue::Int(i) => if 0 <= i <= u64::MAX {
            Ok(i as u64)
        } else {
            Err(DecodingError::IntegerOutOfRange)
        },
        _ => Err(DecodingError::TypeMismatch { expected: Shape::Integer, actual: shape_of(v) }),
    }
}

/// An integer read as a flag byte.
pub open spec fn parse_u8_value(v: SpecValue) -> Result<u8, DecodingError> {
    match v {
        SpecValue::Int(i) => if 0 <= i <= 255 {
            Ok(i as u8)
        } else {
            Err(DecodingError::IntegerOutOfRange)
        },
        _ => Err(DecodingError::TypeMismatch { expected: Shape::Integer, actual: shape_of(v) }),
    }
}

/// A byte string kept as raw bytes.
pub open spec fn parse_bytes_value(v: SpecValue) -> Result<Seq<u8>, DecodingError> {
    match v {
        SpecValue::Bytes(b) => Ok(b),
        _ => Err(
            DecodingError::TypeMismatch { expected: Shape::ByteString, actual: shape_of(v) },
        ),
    }
}

/// The elements of a list, each read as text.
pub open spec fn parse_texts(l: Seq<SpecValue>) -> Result<Seq<Seq<char>>, DecodingError>
    decreases l,
{
    if l.len() == 0 {
        Ok(Seq::empty())
    } else {
        match parse_text(l[0]) {
            Err(e) => Err(e),
            Ok(s) => match parse_texts(l.subrange(1, l.len() as int)) {
                Err(e) => Err(e),
                Ok(rest) => Ok(seq![s] + rest),
            },
        }
    }
}

/// A list of text strings.
pub open spec fn parse_text_list(v: SpecValue) -> Result<Seq<Seq<char>>, DecodingError> {
    match v {
        SpecValue::List(l) => parse_texts(l),
        _ => Err(DecodingError::TypeMismatch { expected: Shape::List, actual: shape_of(v) }),
    }
}

/// The elements of a list, each itself a list of text strings.
pub open spec fn parse_text_lists(l: Seq<SpecValue>) -> Result<Seq<Seq<Seq<char>>>, DecodingError>
    decreases l,
{
    if l.len() == 0 {
        Ok(Seq::empty())
    } else {
        match parse_text_list(l[0]) {
            Err(e) => Err(e),
            Ok(s) => match parse_text_lists(l.subrange(1, l.len() as int)) {
                Err(e) => Err(e),
                Ok(rest) => Ok(seq![s] + rest),
            },
        }
    }
}

/// A list of lists of text strings: the announce tiers.
pub open spec fn parse_tiers(v: SpecValue) -> Result<Seq<Seq<Seq<char>>>, DecodingError> {
    match v {
        SpecValue::List(l) => parse_text_lists(l),
        _ => Err(DecodingError::TypeMismatch { expected: Shape::List, actual: shape_of(v) }),
    }
}

/// A file record read from a dictionary: `length` required, `md5sum`
/// optional, `path` required; unknown keys are skipped.
pub open spec fn parse_file_value(v: SpecValue) -> Result<SpecFile, DecodingError> {
    match v {
        SpecValue::Dict(d) => {
            let length = match spec_lookup(d, key_length()) {
                None => Err(DecodingError::MissingField { field: FieldName::Length }),
                Some(x) => parse_u64_value(x),
            };
            match length {
                Err(e) => Err(e),
                Ok(length) => {
                    let md5sum = match spec_lookup(d, key_md5sum()) {
                        None => Ok(None),
                        Some(x) => match parse_text(x) {
                            Err(e) => Err(e),
                            Ok(s) => Ok(Some(s)),
                        },
                    };
                    match md5sum {
                        Err(e) => Err(e),
                        Ok(md5sum) => match spec_lookup(d, key_path()) {
                            None => Err(DecodingError::MissingField { field: FieldName::Path }),
                            Some(x) => match parse_text_list(x) {
                                Err(e) => Err(e),
                                Ok(path) => Ok(SpecFile { length, md5sum, path }),
                            },
                        },
                    }
                }
            }
        }
        _ => Err(DecodingError::TypeMismatch { expected: Shape::Dictionary, actual: shape_of(v) }),
    }
}

/// The elements of a list, each a file record.
pub open spec fn parse_files(l: Seq<SpecValue>) -> Result<Seq<SpecFile>, DecodingError>
    decreases l,
{
    if l.len() == 0 {
        Ok(Seq::empty())
    } else {
        match parse_file_value(l[0]) {
            Err(e) => Err(e),
            Ok(f) => match parse_files(l.subrange(1, l.len() as int)) {
                Err(e) => Err(e),
                Ok(rest) => Ok(seq![f] + rest),
            },
        }
    }
}

/// The info dictionary read onto an `Info` record. The file layout is chosen
/// by the presence of the `files` key; unknown keys are skipped.
pub open spec fn parse_info_value(v: SpecValue) -> Result<SpecInfo, DecodingError> {
    match v {
        SpecValue::Dict(d) => {
            let name = match spec_lookup(d, key_name()) {
                None => Err(DecodingError::MissingField { field: FieldName::Name }),
                Some(x) => parse_text(x),
            };
            match name {
                Err(e) => Err(e),
                Ok(name) => {
                    let piece_length = match spec_lookup(d, key_piece_length()) {
                        None => Err(DecodingError::MissingField { field: FieldName::PieceLength }),
                        Some(x) => parse_u64_value(x),
                    };
                    match piece_length {
                        Err(e) => Err(e),
                        Ok(piece_length) => {
                            let pieces = match spec_lookup(d, key_pieces()) {
                                None => Err(
                                    DecodingError::MissingField { field: FieldName::Pieces },
                                ),
                                Some(x) => parse_bytes_value(x),
                            };
                            match pieces {
                                Err(e) => Err(e),
                                Ok(pieces) => if pieces.len() % 20 != 0 {
                                    Err(DecodingError::PiecesLengthNotMultipleOf20)
                                } else {
                                    parse_info_tail(d, name, piece_length, pieces)
                                },
                            }
                        }
                    }
                }
            }
        }
        _ => Err(DecodingError::TypeMismatch { expected: Shape::Dictionary, actual: shape_of(v) }),
    }
}

/// The optional keys of the info dictionary and the file layout.
pub open spec fn parse_info_tail(
    d: Seq<(Seq<u8>, SpecValue)>,
    name: Seq<char>,
    piece_length: u64,
    pieces: Seq<u8>,
) -> Result<SpecInfo, DecodingError> {
    let private = match spec_lookup(d, key_private()) {
        None => Ok(None),
        Some(x) => match parse_u8_value(x) {
            Err(e) => Err(e),
            Ok(p) => Ok(Some(p)),
        },
    };
    match private {
        Err(e) => Err(e),
        Ok(private) => {
            let source = match spec_lookup(d, key_source()) {
                None => Ok(None),
                Some(x) => match parse_text(x) {
                    Err(e) => Err(e),
                    Ok(s) => Ok(Some(s)),
                },
            };
            match source {
                Err(e) => Err(e),
                Ok(source) => match parse_file_kind(d) {
                    Err(e) => Err(e),
                    Ok(files) => Ok(
                        SpecInfo { name, piece_length, pieces, private, source, files },
                    ),
                },
            }
        }
    }
}

/// The file layout: `files` when present, else `length` and `md5sum`.
pub open spec fn parse_file_kind(d: Seq<(Seq<u8>, SpecValue)>) -> Result<
    SpecFileKind,
    DecodingError,
> {
    match spec_lookup(d, key_files()) {
        Some(fv) => match fv {
            SpecValue::List(l) => match parse_files(l) {
                Err(e) => Err(e),
                Ok(files) => Ok(SpecFileKind::Multi { files }),
            },
            _ => Err(
                DecodingError::TypeMismatch { expected: Shape::List, actual: shape_of(fv) },
            ),
        },
        None => {
            let length = match spec_lookup(d, key_length()) {
                None => Err(DecodingError::MissingField { field: FieldName::Length }),
                Some(x) => parse_u64_value(x),
            };
            match length {
                Err(e) => Err(e),
                Ok(length) => {
                    let md5sum = match spec_lookup(d, key_md5sum()) {
                        None => Ok(None),
                        Some(x) => match parse_text(x) {
                            Err(e) => Err(e),
                            Ok(s) => Ok(Some(s)),
                        },
                    };
                    match md5sum {
                        Err(e) => Err(e),
                        Ok(md5sum) => Ok(SpecFileKind::Single { length, md5sum }),
                    }
                }
            }
        }
    }
}

/// The whole torrent dictionary read onto a `MetaInfo` record. Unknown keys
/// are skipped; only `info` is required.
pub open spec fn parse_meta_value(v: SpecValue) -> Result<SpecMetaInfo, DecodingError> {
    match v {
        SpecValue::Dict(d) => {
            let announce = match spec_lookup(d, key_announce()) {
                None => Ok(None),
                Some(x) => match parse_text(x) {
                    Err(e) => Err(e),
                    Ok(s) => Ok(Some(s)),
                },
            };
            match announce {
                Err(e) => Err(e),
                Ok(announce) => {
                    let announce_list = match spec_lookup(d, key_announce_list()) {
                        None => Ok(None),
                        Some(x) => match parse_tiers(x) {
                            Err(e) => Err(e),
                            Ok(t) => Ok(Some(t)),
                        },
                    };
                    match announce_list {
                        Err(e) => Err(e),
                        Ok(announce_list) => parse_meta_tail(d, announce, announce_list),
                    }
                }
            }
        }
        _ => Err(DecodingError::TypeMismatch { expected: Shape::Dictionary, actual: shape_of(v) }),
    }
}

/// The remaining keys of the torrent dictionary.
pub open spec fn parse_meta_tail(
    d: Seq<(Seq<u8>, SpecValue)>,
    announce: Option<Seq<char>>,
    announce_list: Option<Seq<Seq<Seq<char>>>>,
) -> Result<SpecMetaInfo, DecodingError> {
    let comment = match spec_lookup(d, key_comment()) {
        None => Ok(None),
        Some(x) => match parse_text(x) {
            Err(e) => Err(e),
            Ok(s) => Ok(Some(s)),
        },
    };
    match comment {
        Err(e) => Err(e),
        Ok(comment) => {
            let created_by = match spec_lookup(d, key_created_by()) {
                None => Ok(None),
                Some(x) => match parse_text(x) {
                    Err(e) => Err(e),
                    Ok(s) => Ok(Some(s)),
                },
            };
            match created_by {
                Err(e) => Err(e),
                Ok(created_by) => {
                    let creation_date = match spec_lookup(d, key_creation_date()) {
                        None => Ok(None),
                        Some(x) => match parse_u64_value(x) {
                            Err(e) => Err(e),
                            Ok(n) => Ok(Some(n)),
                        },
                    };
                    match creation_date {
                        Err(e) => Err(e),
                        Ok(creation_date) => {
                            let encoding = match spec_lookup(d, key_encoding()) {
                                None => Ok(None),
                                Some(x) => match parse_text(x) {
                                    Err(e) => Err(e),
                                    Ok(s) => Ok(Some(s)),
                                },
                            };
                            match encoding {
                                Err(e) => Err(e),
                                Ok(encoding) => {
                                    let http_seeds = match spec_lookup(d, key_httpseeds()) {
                                        None => Ok(None),
                                        Some(x) => match parse_text_list(x) {
                                            Err(e) => Err(e),
                                            Ok(s) => Ok(Some(s)),
                                        },
                                    };
                                    match http_seeds {
                                        Err(e) => Err(e),
                                        Ok(http_seeds) => {
                                            let info = match spec_lookup(d, key_info()) {
                                                None => Err(
                                                    DecodingError::MissingField {
                                                        field: FieldName::Info,
                                                    },
                                                ),
                                                Some(x) => parse_info_value(x),
                                            };
                                            match info {
                                                Err(e) => Err(e),
                                                Ok(info) => {
                                                    let url_list = match spec_lookup(
                                                        d,
                                                        key_url_list(),
                                                    ) {
                                                        None => Ok(None),
                                                        Some(x) => match parse_text_list(x) {
                                                            Err(e) => Err(e),
                                                            Ok(s) => Ok(Some(s)),
                                                        },
                                                    };
                                                    match url_list {
                                                        Err(e) => Err(e),
                                                        Ok(url_list) => Ok(
                                                            SpecMetaInfo {
                                                                announce,
                                                                announce_list,
                                                                comment,
                                                                created_by,
                                                                creation_date,
                                                                encoding,
                                                                http_seeds,
                                                                info,
                                                                url_list,
                                                            },
                                                        ),
                                                    }
                                                }
                                            }
                                        }
                                    }
                                }
                            }
                        }
                    }
                }
            }
        }
    }
}

/// A whole torrent document read onto a `MetaInfo` record.
pub open spec fn spec_parse_meta(s: Seq<u8>) -> Result<SpecMetaInfo, DecodingError> {
    match spec_decode(s) {
        Err(e) => Err(DecodingError::Structure(e)),
        Ok(v) => parse_meta_value(v),
    }
}

// ---------------------------------------------------------------------------
// The executable records.

/// One file of a multi-file torrent.
#[derive(Debug, PartialEq, Eq)]
pub struct File {
    pub length: u64,
    pub md5sum: Option<String>,
    pub path: Vec<String>,
}

impl View for File {
    type V = SpecFile;

    open spec fn view(&self) -> SpecFile {
        SpecFile {
            length: self.length,
            md5sum: self.md5sum.deep_view(),
            path: self.path.deep_view(),
        }
    }
}

impl DeepView for File {
    type V = SpecFile;

    open spec fn deep_view(&self) -> SpecFile {
        self.view()
    }
}

/// The file layout of a torrent: one file, or a list of files.
#[derive(Debug, PartialEq, Eq)]
pub enum FileKind {
    SingleFile { length: u64, md5sum: Option<String> },
    MultiFile { files: Vec<File> },
}

impl View for FileKind {
    type V = SpecFileKind;

    open spec fn view(&self) -> SpecFileKind {
        match self {
            FileKind::SingleFile { length, md5sum } => SpecFileKind::Single {
                length: *length,
                md5sum: md5sum.deep_view(),
            },
            FileKind::MultiFile { files } => SpecFileKind::Multi { files: files.deep_view() },
        }
    }
}

/// The info dictionary of a torrent.
#[derive(Debug, PartialEq, Eq)]
pub struct Info {
    pub name: String,
    pub piece_length: u64,
    pub pieces: Vec<u8>,
    pub private: Option<u8>,
    pub source: Option<String>,
    pub files: FileKind,
}

impl View for Info {
    type V = SpecInfo;

    open spec fn view(&self) -> SpecInfo {
        SpecInfo {
            name: self.name.deep_view(),
            piece_length: self.piece_length,
            pieces: self.pieces@,
            private: self.private,
            source: self.source.deep_view(),
            files: self.files@,
        }
    }
}

/// A whole torrent document.
#[derive(Debug, PartialEq, Eq)]
pub struct MetaInfo {
    pub announce: Option<String>,
    pub announce_list: Option<Vec<Vec<String>>>,
    pub comment: Option<String>,
    pub created_by: Option<String>,
    pub creation_date: Option<u64>,
    pub encoding: Option<String>,
    pub http_seeds: Option<Vec<String>>,
    pub info: Info,
    pub url_list: Option<Vec<String>>,
}

impl View for MetaInfo {
    type V = SpecMetaInfo;

    open spec fn view(&self) -> SpecMetaInfo {
        SpecMetaInfo {
            announce: self.announce.deep_view(),
            announce_list: self.announce_list.deep_view(),
            comment: self.comment.deep_view(),
            created_by: self.created_by.deep_view(),
            creation_date: self.creation_date,
            encoding: self.encoding.deep_view(),
            http_seeds: self.http_seeds.deep_view(),
            info: self.info@,
            url_list: self.url_list.deep_view(),
        }
    }
}

// ---------------------------------------------------------------------------
// The executable mapping.

/// Read a value as UTF-8 text.
pub fn value_to_text(v: &Value) -> (r: Result<String, DecodingError>)
    ensures
        match r {
            Ok(s) => parse_text(v@) == Ok::<Seq<char>, DecodingError>(s@),
            Err(e) => parse_text(v@) == Err::<Seq<char>, DecodingError>(e),
        },
{
    match v {
        Value::ByteString(b) => {
            let bytes = vstd::slice::slice_to_vec(b.bytes.as_slice());
            match bytes_to_string(bytes) {
                Some(s) => Ok(s),
                None => Err(DecodingError::Utf8),
            }
        }
        _ => Err(DecodingError::TypeMismatch { expected: Shape::ByteString, actual: shape(v) }),
    }
}

/// Read a value as an unsigned 64-bit count.
pub fn value_to_u64(v: &Value) -> (r: Result<u64, DecodingError>)
    ensures
        match r {
            Ok(n) => parse_u64_value(v@) == Ok::<u64, DecodingError>(n),
            Err(e) => parse_u64_value(v@) == Err::<u64, DecodingError>(e),
        },
{
    match v {
        Value::Integer(n) => match n.inner {
            IntegerKind::Positive(x) => Ok(x),
            IntegerKind::Negative(x) => if x >= 0 {
                Ok(x as u64)
            } else {
                Err(DecodingError::IntegerOutOfRange)
            },
        },
        _ => Err(DecodingError::TypeMismatch { expected: Shape::Integer, actual: shape(v) }),
    }
}

/// Read a value as a flag byte.
pub fn value_to_u8(v: &Value) -> (r: Result<u8, DecodingError>)
    ensures
        match r {
            Ok(n) => parse_u8_value(v@) == Ok::<u8, DecodingError>(n),
            Err(e) => parse_u8_value(v@) == Err::<u8, DecodingError>(e),
        },
{
    match v {
        Value::Integer(n) => match n.inner {
            IntegerKind::Positive(x) => if x <= 255 {
                Ok(x as u8)
            } else {
                Err(DecodingError::IntegerOutOfRange)
            },
            IntegerKind::Negative(x) => if 0 <= x && x <= 255 {
                Ok(x as u8)
            } else {
                Err(DecodingError::IntegerOutOfRange)
            },
        },
        _ => Err(DecodingError::TypeMismatch { expected: Shape::Integer, actual: shape(v) }),
    }
}

/// Read a value as raw bytes.
pub fn value_to_bytes(v: &Value) -> (r: Result<Vec<u8>, DecodingError>)
    ensures
        match r {
            Ok(b) => parse_bytes_value(v@) == Ok::<Seq<u8>, DecodingError>(b@),
            Err(e) => parse_bytes_value(v@) == Err::<Seq<u8>, DecodingError>(e),
        },
{
    match v {
        Value::ByteString(b) => Ok(vstd::slice::slice_to_vec(b.bytes.as_slice())),
        _ => Err(DecodingError::TypeMismatch { expected: Shape::ByteString, actual: shape(v) }),
    }
}

/// Read the elements of `l` from `i` on, each as text.
fn texts_from(l: &Vec<Value>, i: usize) -> (r: Result<Vec<String>, DecodingError>)
    requires
        i <= l@.len(),
    ensures
        match r {
            Ok(out) => parse_texts(view_list(l@.subrange(i as int, l@.len() as int))) == Ok::<
                Seq<Seq<char>>,
                DecodingError,
            >(out.deep_view()),
            Err(e) => parse_texts(view_list(l@.subrange(i as int, l@.len() as int))) == Err::<
                Seq<Seq<char>>,
                DecodingError,
            >(e),
        },
    decreases l@.len() - i,
{
    let ghost rest = l@.subrange(i as int, l@.len() as int);
    if i >= l.len() {
        proof {
            assert(rest =~= Seq::<Value>::empty());
        }
        let out: Vec<String> = Vec::new();
        proof {
            assert(out.deep_view() =~= Seq::<Seq<char>>::empty());
        }
        return Ok(out);
    }
    proof {
        assert(rest[0] == l@[i as int]);
        assert(rest.subrange(1, rest.len() as int) =~= l@.subrange(i + 1, l@.len() as int));
        let vl = view_list(rest);
        assert(vl == seq![view_value(l@[i as int])] + view_list(
            l@.subrange(i + 1, l@.len() as int),
        ));
        assert(vl[0] == view_value(l@[i as int]));
        assert(vl.subrange(1, vl.len() as int) =~= view_list(l@.subrange(i + 1, l@.len() as int)));
    }
    let s = match value_to_text(&l[i]) {
        Ok(s) => s,
        Err(e) => {
            return Err(e);
        }
    };
    match texts_from(l, i + 1) {
        Err(e) => Err(e),
        Ok(mut out) => {
            let ghost tailv = out.deep_view();
            out.insert(0, s);
            proof {
                assert(out.deep_view() =~= seq![s@] + tailv);
            }
            Ok(out)
        }
    }
}

/// Read a value as a list of text strings.
pub fn value_to_text_list(v: &Value) -> (r: Result<Vec<String>, DecodingError>)
    ensures
        match r {
            Ok(out) => parse_text_list(v@) == Ok::<Seq<Seq<char>>, DecodingError>(out.deep_view()),
            Err(e) => parse_text_list(v@) == Err::<Seq<Seq<char>>, DecodingError>(e),
        },
{
    match v {
        Value::List(l) => {
            proof {
                assert(l@.subrange(0, l@.len() as int) =~= l@);
            }
            texts_from(l, 0)
        }
        _ => Err(DecodingError::TypeMismatch { expected: Shape::List, actual: shape(v) }),
    }
}

/// Read the elements of `l` from `i` on, each as a list of text strings.
fn text_lists_from(l: &Vec<Value>, i: usize) -> (r: Result<Vec<Vec<String>>, DecodingError>)
    requires
        i <= l@.len(),
    ensures
        match r {
            Ok(out) => parse_text_lists(view_list(l@.subrange(i as int, l@.len() as int))) == Ok::<
                Seq<Seq<Seq<char>>>,
                DecodingError,
            >(out.deep_view()),
            Err(e) => parse_text_lists(view_list(l@.subrange(i as int, l@.len() as int)))
                == Err::<Seq<Seq<Seq<char>>>, DecodingError>(e),
        },
    decreases l@.len() - i,
{
    let ghost rest = l@.subrange(i as int, l@.len() as int);
    if i >= l.len() {
        proof {
            assert(rest =~= Seq::<Value>::empty());
        }
        let out: Vec<Vec<String>> = Vec::new();
        proof {
            assert(out.deep_view() =~= Seq::<Seq<Seq<char>>>::empty());
        }
        return Ok(out);
    }
    proof {
        assert(rest[0] == l@[i as int]);
        assert(rest.subrange(1, rest.len() as int) =~= l@.subrange(i + 1, l@.len() as int));
        let vl = view_list(rest);
        assert(vl == seq![view_value(l@[i as int])] + view_list(
            l@.subrange(i + 1, l@.len() as int),
        ));
        assert(vl[0] == view_value(l@[i as int]));
        assert(vl.subrange(1, vl.len() as int) =~= view_list(l@.subrange(i + 1, l@.len() as int)));
    }
    let s = match value_to_text_list(&l[i]) {
        Ok(s) => s,
        Err(e) => {
            return Err(e);
        }
    };
    match text_lists_from(l, i + 1) {
        Err(e) => Err(e),
        Ok(mut out) => {
            let ghost tailv = out.deep_view();
            out.insert(0, s);
            proof {
                assert(out.deep_view() =~= seq![s.deep_view()] + tailv);
            }
            Ok(out)
        }
    }
}

/// Read a value as the announce tiers: a list of lists of text strings.
pub fn value_to_tiers(v: &Value) -> (r: Result<Vec<Vec<String>>, DecodingError>)
    ensures
        match r {
            Ok(out) => parse_tiers(v@) == Ok::<Seq<Seq<Seq<char>>>, DecodingError>(
                out.deep_view(),
            ),
            Err(e) => parse_tiers(v@) == Err::<Seq<Seq<Seq<char>>>, DecodingError>(e),
        },
{
    match v {
        Value::List(l) => {
            proof {
                assert(l@.subrange(0, l@.len() as int) =~= l@);
            }
            text_lists_from(l, 0)
        }
        _ => Err(DecodingError::TypeMismatch { expected: Shape::List, actual: shape(v) }),
    }
}

impl File {
    /// Read one file record from a value.
    pub fn from_value(v: &Value) -> (r: Result<File, DecodingError>)
        ensures
            match r {
                Ok(f) => parse_file_value(v@) == Ok::<SpecFile, DecodingError>(f@),
                Err(e) => parse_file_value(v@) == Err::<SpecFile, DecodingError>(e),
            },
    {
        let d = match v {
            Value::Dictionary(d) => d,
            _ => {
                return Err(
                    DecodingError::TypeMismatch { expected: Shape::Dictionary, actual: shape(v) },
                );
            }
        };
        let length = match dict_lookup(d, key_length_bytes().as_slice()) {
            None => {
                return Err(DecodingError::MissingField { field: FieldName::Length });
            }
            Some(x) => match value_to_u64(x) {
                Ok(n) => n,
                Err(e) => {
                    return Err(e);
                }
            },
        };
        let md5sum = match dict_lookup(d, key_md5sum_bytes().as_slice()) {
            None => None,
            Some(x) => match value_to_text(x) {
                Ok(s) => Some(s),
                Err(e) => {
                    return Err(e);
                }
            },
        };
        let path = match dict_lookup(d, key_path_bytes().as_slice()) {
            None => {
                return Err(DecodingError::MissingField { field: FieldName::Path });
            }
            Some(x) => match value_to_text_list(x) {
                Ok(p) => p,
                Err(e) => {
                    return Err(e);
                }
            },
        };
        let f = File { length, md5sum, path };
        proof {
            assert(parse_file_value(v@) == Ok::<SpecFile, DecodingError>(f@));
        }
        Ok(f)
    }
}

/// Read the elements of `l` from `i` on, each a file record.
fn files_from(l: &Vec<Value>, i: usize) -> (r: Result<Vec<File>, DecodingError>)
    requires
        i <= l@.len(),
    ensures
        match r {
            Ok(out) => parse_files(view_list(l@.subrange(i as int, l@.len() as int))) == Ok::<
                Seq<SpecFile>,
                DecodingError,
            >(out.deep_view()),
            Err(e) => parse_files(view_list(l@.subrange(i as int, l@.len() as int))) == Err::<
                Seq<SpecFile>,
                DecodingError,
            >(e),
        },
    decreases l@.len() - i,
{
    let ghost rest = l@.subrange(i as int, l@.len() as int);
    if i >= l.len() {
        proof {
            assert(rest =~= Seq::<Value>::empty());
        }
        let out: Vec<File> = Vec::new();
        proof {
            assert(out.deep_view() =~= Seq::<SpecFile>::empty());
        }
        return Ok(out);
    }
    proof {
        assert(rest[0] == l@[i as int]);
        assert(rest.subrange(1, rest.len() as int) =~= l@.subrange(i + 1, l@.len() as int));
        let vl = view_list(rest);
        assert(vl == seq![view_value(l@[i as int])] + view_list(
            l@.subrange(i + 1, l@.len() as int),
        ));
        assert(vl[0] == view_value(l@[i as int]));
        assert(vl.subrange(1, vl.len() as int) =~= view_list(l@.subrange(i + 1, l@.len() as int)));
    }
    let f = match File::from_value(&l[i]) {
        Ok(f) => f,
        Err(e) => {
            return Err(e);
        }
    };
    match files_from(l, i + 1) {
        Err(e) => Err(e),
        Ok(mut out) => {
            let ghost tailv = out.deep_view();
            out.insert(0, f);
            proof {
                assert(out.deep_view() =~= seq![f@] + tailv);
            }
            Ok(out)
        }
    }
}

impl Info {
    /// Read the info dictionary from a value.
    pub fn from_value(v: &Value) -> (r: Result<Info, DecodingError>)
        ensures
            match r {
                Ok(info) => parse_info_value(v@) == Ok::<SpecInfo, DecodingError>(info@),
                Err(e) => parse_info_value(v@) == Err::<SpecInfo, DecodingError>(e),
            },
    {
        let d = match v {
            Value::Dictionary(d) => d,
            _ => {
                return Err(
                    DecodingError::TypeMismatch { expected: Shape::Dictionary, actual: shape(v) },
                );
            }
        };
        let name = match dict_lookup(d, key_name_bytes().as_slice()) {
            None => {
                return Err(DecodingError::MissingField { field: FieldName::Name });
            }
            Some(x) => match value_to_text(x) {
                Ok(s) => s,
                Err(e) => {
                    return Err(e);
                }
            },
        };
        let piece_length = match dict_lookup(d, key_piece_length_bytes().as_slice()) {
            None => {
                return Err(DecodingError::MissingField { field: FieldName::PieceLength });
            }
            Some(x) => match value_to_u64(x) {
                Ok(n) => n,
                Err(e) => {
                    return Err(e);
                }
            },
        };
        let pieces = match dict_lookup(d, key_pieces_bytes().as_slice()) {
            None => {
                return Err(DecodingError::MissingField { field: FieldName::Pieces });
            }
            Some(x) => match value_to_bytes(x) {
                Ok(b) => b,
                Err(e) => {
                    return Err(e);
                }
            },
        };
        if pieces.len() % 20 != 0 {
            return Err(DecodingError::PiecesLengthNotMultipleOf20);
        }
        let private = match dict_lookup(d, key_private_bytes().as_slice()) {
            None => None,
            Some(x) => match value_to_u8(x) {
                Ok(p) => Some(p),
                Err(e) => {
                    return Err(e);
                }
            },
        };
        let source = match dict_lookup(d, key_source_bytes().as_slice()) {
            None => None,
            Some(x) => match value_to_text(x) {
                Ok(s) => Some(s),
                Err(e) => {
                    return Err(e);
                }
            },
        };
        let files = match dict_lookup(d, key_files_bytes().as_slice()) {
            Some(fv) => match fv {
                Value::List(l) => {
                    proof {
                        assert(l@.subrange(0, l@.len() as int) =~= l@);
                    }
                    match files_from(l, 0) {
                        Ok(files) => FileKind::MultiFile { files },
                        Err(e) => {
                            return Err(e);
                        }
                    }
                }
                _ => {
                    return Err(
                        DecodingError::TypeMismatch { expected: Shape::List, actual: shape(fv) },
                    );
                }
            },
            None => {
                let length = match dict_lookup(d, key_length_bytes().as_slice()) {
                    None => {
                        return Err(DecodingError::MissingField { field: FieldName::Length });
                    }
                    Some(x) => match value_to_u64(x) {
                        Ok(n) => n,
                        Err(e) => {
                            return Err(e);
                        }
                    },
                };
                let md5sum = match dict_lookup(d, key_md5sum_bytes().as_slice()) {
                    None => None,
                    Some(x) => match value_to_text(x) {
                        Ok(s) => Some(s),
                        Err(e) => {
                            return Err(e);
                        }
                    },
                };
                FileKind::SingleFile { length, md5sum }
            }
        };
        let info = Info { name, piece_length, pieces, private, source, files };
        proof {
            assert(parse_info_value(v@) == Ok::<SpecInfo, DecodingError>(info@));
        }
        Ok(info)
    }
}

impl MetaInfo {
    /// Read a whole torrent dictionary from a value.
    pub fn from_value(v: &Value) -> (r: Result<MetaInfo, DecodingError>)
        ensures
            match r {
                Ok(m) => parse_meta_value(v@) == Ok::<SpecMetaInfo, DecodingError>(m@),
                Err(e) => parse_meta_value(v@) == Err::<SpecMetaInfo, DecodingError>(e),
            },
    {
        let d = match v {
            Value::Dictionary(d) => d,
            _ => {
                return Err(
                    DecodingError::TypeMismatch { expected: Shape::Dictionary, actual: shape(v) },
                );
            }
        };
        let announce = match dict_lookup(d, key_announce_bytes().as_slice()) {
            None => None,
            Some(x) => match value_to_text(x) {
                Ok(s) => Some(s),
                Err(e) => {
                    return Err(e);
                }
            },
        };
        let announce_list = match dict_lookup(d, key_announce_list_bytes().as_slice()) {
            None => None,
            Some(x) => match value_to_tiers(x) {
                Ok(t) => Some(t),
                Err(e) => {
                    return Err(e);
                }
            },
        };
        let comment = match dict_lookup(d, key_comment_bytes().as_slice()) {
            None => None,
            Some(x) => match value_to_text(x) {
                Ok(s) => Some(s),
                Err(e) => {
                    return Err(e);
                }
            },
        };
        let created_by = match dict_lookup(d, key_created_by_bytes().as_slice()) {
            None => None,
            Some(x) => match value_to_text(x) {
                Ok(s) => Some(s),
                Err(e) => {
                    return Err(e);
                }
            },
        };
        let creation_date = match dict_lookup(d, key_creation_date_bytes().as_slice()) {
            None => None,
            Some(x) => match value_to_u64(x) {
                Ok(n) => Some(n),
                Err(e) => {
                    return Err(e);
                }
            },
        };
        let encoding = match dict_lookup(d, key_encoding_bytes().as_slice()) {
            None => None,
            Some(x) => match value_to_text(x) {
                Ok(s) => Some(s),
                Err(e) => {
                    return Err(e);
                }
            },
        };
        let http_seeds = match dict_lookup(d, key_httpseeds_bytes().as_slice()) {
            None => None,
            Some(x) => match value_to_text_list(x) {
                Ok(s) => Some(s),
                Err(e) => {
                    return Err(e);
                }
            },
        };
        let info = match dict_lookup(d, key_info_bytes().as_slice()) {
            None => {
                return Err(DecodingError::MissingField { field: FieldName::Info });
            }
            Some(x) => match Info::from_value(x) {
                Ok(i) => i,
                Err(e) => {
                    return Err(e);
                }
            },
        };
        let url_list = match dict_lookup(d, key_url_list_bytes().as_slice()) {
            None => None,
            Some(x) => match value_to_text_list(x) {
                Ok(s) => Some(s),
                Err(e) => {
                    return Err(e);
                }
            },
        };
        let m = MetaInfo {
            announce,
            announce_list,
            comment,
            created_by,
            creation_date,
            encoding,
            http_seeds,
            info,
            url_list,
        };
        proof {
            assert(parse_meta_value(v@) == Ok::<SpecMetaInfo, DecodingError>(m@));
        }
        Ok(m)
    }

    /// Decode and map a whole torrent document.
    pub fn parse(bytes: &[u8]) -> (r: Result<MetaInfo, DecodingError>)
        ensures
            match r {
                Ok(m) => spec_parse_meta(bytes@) == Ok::<SpecMetaInfo, DecodingError>(m@),
                Err(e) => spec_parse_meta(bytes@) == Err::<SpecMetaInfo, DecodingError>(e),
            },
    {
        match decode(bytes) {
            Err(e) => Err(DecodingError::Structure(e)),
            Ok(v) => MetaInfo::from_value(&v),
        }
    }
}

// ---------------------------------------------------------------------------
// Re-encoding the info dictionary, and the info-hash.

/// The name of what `sha1::Sha1` computes: the SHA-1 digest of a byte
/// sequence. A function of the input alone.
pub uninterp spec fn sha1_of(bytes: Seq<u8>) -> Seq<u8>;

/// Relies on the `sha1` crate (RustCrypto): the 20-byte digest of the input,
/// a function of the input bytes alone, named `sha1_of`.
#[verifier::external_body]
pub(crate) fn sha1_digest(bytes: &[u8]) -> (r: [u8; 20])
    ensures
        r@ == sha1_of(bytes@),
{
    let mut hasher = sha1::Sha1::new();
    hasher.update(bytes);
    hasher.finalize().into()
}

/// Text as a bencode byte-string value.
pub open spec fn spec_text_value(s: Seq<char>) -> SpecValue {
    SpecValue::Bytes(encode_utf8(s))
}

/// Texts as a sequence of bencode byte-string values.
pub open spec fn spec_text_values(ts: Seq<Seq<char>>) -> Seq<SpecValue>
    decreases ts,
{
    if ts.len() == 0 {
        Seq::empty()
    } else {
        seq![spec_text_value(ts[0])] + spec_text_values(ts.subrange(1, ts.len() as int))
    }
}

/// The canonical bencode pairs of a file record: `length`, `md5sum` when
/// set, `path` — keys in ascending byte order.
pub open spec fn spec_file_pairs(f: SpecFile) -> Seq<(Seq<u8>, SpecValue)> {
    seq![(key_length(), SpecValue::Int(f.length as int))] + (match f.md5sum {
        None => Seq::empty(),
        Some(s) => seq![(key_md5sum(), spec_text_value(s))],
    }) + seq![(key_path(), SpecValue::List(spec_text_values(f.path)))]
}

/// A file record as a bencode dictionary.
pub open spec fn spec_file_value(f: SpecFile) -> SpecValue {
    SpecValue::Dict(spec_file_pairs(f))
}

/// File records as a sequence of bencode dictionaries.
pub open spec fn spec_files_values(fs: Seq<SpecFile>) -> Seq<SpecValue>
    decreases fs,
{
    if fs.len() == 0 {
        Seq::empty()
    } else {
        seq![spec_file_value(fs[0])] + spec_files_values(fs.subrange(1, fs.len() as int))
    }
}

/// The canonical bencode pairs of an info record, keys in ascending byte
/// order: the layout keys, then `name`, `piece length`, `pieces`, and the
/// optional `private` and `source`.
pub open spec fn spec_info_pairs(si: SpecInfo) -> Seq<(Seq<u8>, SpecValue)> {
    (match si.files {
        SpecFileKind::Multi { files } => seq![
            (key_files(), SpecValue::List(spec_files_values(files))),
        ],
        SpecFileKind::Single { length, md5sum } => seq![
            (key_length(), SpecValue::Int(length as int)),
        ] + (match md5sum {
            None => Seq::empty(),
            Some(s) => seq![(key_md5sum(), spec_text_value(s))],
        }),
    }) + seq![(key_name(), spec_text_value(si.name))] + seq![
        (key_piece_length(), SpecValue::Int(si.piece_length as int)),
    ] + seq![(key_pieces(), SpecValue::Bytes(si.pieces))] + (match si.private {
        None => Seq::empty(),
        Some(p) => seq![(key_private(), SpecValue::Int(p as int))],
    }) + (match si.source {
        None => Seq::empty(),
        Some(s) => seq![(key_source(), spec_text_value(s))],
    })
}

/// An info record as a bencode dictionary.
pub open spec fn spec_info_value(si: SpecInfo) -> SpecValue {
    SpecValue::Dict(spec_info_pairs(si))
}

/// Texts as a vector of byte-string values.
fn texts_to_values(ts: &Vec<String>, i: usize) -> (r: Vec<Value>)
    requires
        i <= ts@.len(),
    ensures
        view_list(r@) == spec_text_values(ts.deep_view().subrange(i as int, ts@.len() as int)),
        forall|j: int| 0 <= j < r@.len() ==> (#[trigger] r@[j]).wf(),
    decreases ts@.len() - i,
{
    let ghost rest = ts.deep_view().subrange(i as int, ts@.len() as int);
    if i >= ts.len() {
        let r: Vec<Value> = Vec::new();
        proof {
            assert(rest =~= Seq::<Seq<char>>::empty());
            assert(view_list(r@) =~= spec_text_values(rest));
        }
        return r;
    }
    let b = ts[i].as_str().as_bytes_vec();
    let head = Value::ByteString(ByteString::from(b));
    let mut tail = texts_to_values(ts, i + 1);
    let ghost tailseq = tail@;
    tail.insert(0, head);
    proof {
        assert(rest[0] == ts@[i as int].deep_view());
        assert(rest.subrange(1, rest.len() as int) =~= ts.deep_view().subrange(
            i + 1,
            ts@.len() as int,
        ));
        assert(tail@[0] == head);
        assert(tail@.subrange(1, tail@.len() as int) =~= tailseq);
        assert(view_list(tail@) == seq![view_value(head)] + view_list(tailseq));
        assert(view_list(tail@) =~= spec_text_values(rest));
    }
    tail
}

impl File {
    /// This file record as a bencode dictionary, keys in canonical order.
    pub fn to_value(&self) -> (r: Value)
        ensures
            view_value(r) == spec_file_value(self@),
            r.wf(),
    {
        let mut pairs: Vec<(ByteString, Value)> = Vec::new();
        pairs.push(
            (ByteString::from(key_length_bytes()), Value::Integer(Integer::from_u64(self.length))),
        );
        match &self.md5sum {
            None => {}
            Some(s) => {
                pairs.push(
                    (
                        ByteString::from(key_md5sum_bytes()),
                        Value::ByteString(ByteString::from(s.as_str().as_bytes_vec())),
                    ),
                );
            }
        }
        proof {
            assert(self.path@.len() == self.path.deep_view().len());
        }
        let path = texts_to_values(&self.path, 0);
        let pathv = Value::List(path);
        proof {
            assert(pathv.wf());
        }
        pairs.push((ByteString::from(key_path_bytes()), pathv));
        let r = Value::Dictionary(pairs);
        proof {
            assert forall|j: int| 0 <= j < pairs@.len() implies (#[trigger] pairs@[j]).1.wf()
            by {}
            assert(self.path.deep_view().subrange(0, self.path.deep_view().len() as int)
                =~= self.path.deep_view());
            reveal_with_fuel(view_pairs, 5);
            assert(view_pairs(pairs@) =~= spec_file_pairs(self@));
        }
        r
    }
}

/// File records as a vector of bencode dictionaries.
fn files_to_values(fs: &Vec<File>, i: usize) -> (r: Vec<Value>)
    requires
        i <= fs@.len(),
    ensures
        view_list(r@) == spec_files_values(fs.deep_view().subrange(i as int, fs@.len() as int)),
        forall|j: int| 0 <= j < r@.len() ==> (#[trigger] r@[j]).wf(),
    decreases fs@.len() - i,
{
    let ghost rest = fs.deep_view().subrange(i as int, fs@.len() as int);
    if i >= fs.len() {
        let r: Vec<Value> = Vec::new();
        proof {
            assert(rest =~= Seq::<SpecFile>::empty());
            assert(view_list(r@) =~= spec_files_values(rest));
        }
        return r;
    }
    let head = fs[i].to_value();
    let mut tail = files_to_values(fs, i + 1);
    let ghost tailseq = tail@;
    tail.insert(0, head);
    proof {
        assert(rest[0] == fs@[i as int].deep_view());
        assert(rest.subrange(1, rest.len() as int) =~= fs.deep_view().subrange(
            i + 1,
            fs@.len() as int,
        ));
        assert(tail@[0] == head);
        assert(tail@.subrange(1, tail@.len() as int) =~= tailseq);
        assert(view_list(tail@) == seq![view_value(head)] + view_list(tailseq));
        assert(view_list(tail@) =~= spec_files_values(rest));
    }
    tail
}

impl Info {
    /// This info record as a bencode dictionary, keys in canonical order:
    /// re-encoding it yields the byte stream whose SHA-1 is the info-hash.
    pub fn to_value(&self) -> (r: Value)
        ensures
            view_value(r) == spec_info_value(self@),
            r.wf(),
    {
        let mut pairs: Vec<(ByteString, Value)> = Vec::new();
        match &self.files {
            FileKind::MultiFile { files } => {
                proof {
                    assert(files@.len() == files.deep_view().len());
                }
                let fl = files_to_values(files, 0);
                proof {
                    assert(files.deep_view().subrange(0, files.deep_view().len() as int)
                        =~= files.deep_view());
                }
                let flv = Value::List(fl);
                proof {
                    assert(flv.wf());
                }
                pairs.push((ByteString::from(key_files_bytes()), flv));
            }
            FileKind::SingleFile { length, md5sum } => {
                pairs.push(
                    (
                        ByteString::from(key_length_bytes()),
                        Value::Integer(Integer::from_u64(*length)),
                    ),
                );
                match md5sum {
                    None => {}
                    Some(s) => {
                        pairs.push(
                            (
                                ByteString::from(key_md5sum_bytes()),
                                Value::ByteString(ByteString::from(s.as_str().as_bytes_vec())),
                            ),
                        );
                    }
                }
            }
        }
        pairs.push(
            (
                ByteString::from(key_name_bytes()),
                Value::ByteString(ByteString::from(self.name.as_str().as_bytes_vec())),
            ),
        );
        pairs.push(
            (
                ByteString::from(key_piece_length_bytes()),
                Value::Integer(Integer::from_u64(self.piece_length)),
            ),
        );
        let pieces = vstd::slice::slice_to_vec(self.pieces.as_slice());
        pairs.push(
            (ByteString::from(key_pieces_bytes()), Value::ByteString(ByteString::from(pieces))),
        );
        match self.private {
            None => {}
            Some(p) => {
                pairs.push(
                    (
                        ByteString::from(key_private_bytes()),
                        Value::Integer(Integer::from_u64(p as u64)),
                    ),
                );
            }
        }
        match &self.source {
            None => {}
            Some(s) => {
                pairs.push(
                    (
                        ByteString::from(key_source_bytes()),
                        Value::ByteString(ByteString::from(s.as_str().as_bytes_vec())),
                    ),
                );
            }
        }
        let r = Value::Dictionary(pairs);
        proof {
            assert forall|j: int| 0 <= j < pairs@.len() implies (#[trigger] pairs@[j]).1.wf()
            by {}
            reveal_with_fuel(view_pairs, 9);
            assert(view_pairs(pairs@) =~= spec_info_pairs(self@));
        }
        r
    }
}

// ---------------------------------------------------------------------------
// The info slice, the info-hash, and the total length.

/// Why `info_slice` refuses an input, if it does.
pub open spec fn spec_info_slice_check(s: Seq<u8>) -> Option<DecodingError> {
    match spec_decode(s) {
        Err(e) => Some(DecodingError::Structure(e)),
        Ok(v) => match v {
            SpecValue::Dict(d) => match spec_lookup(d, key_info()) {
                Some(_) => None,
                None => Some(DecodingError::MissingField { field: FieldName::Info }),
            },
            _ => Some(
                DecodingError::TypeMismatch { expected: Shape::Dictionary, actual: shape_of(v) },
            ),
        },
    }
}

/// Walk the dictionary pairs at `pos`, returning the byte span of the value
/// under `key` (the last occurrence winning).
fn find_pair_span(s: &[u8], pos: usize, key: &[u8]) -> (r: Result<
    Option<(usize, usize)>,
    crate::error::Error,
>)
    ensures
        match r {
            Ok(o) => parse_pairs(s@, pos as int) is Ok && match o {
                Some((a, b)) => {
                    &&& a <= b <= s@.len()
                    &&& parse_at(s@, a as int) is Ok
                    &&& parse_at(s@, a as int)->Ok_0.1 == b as int
                    &&& spec_lookup(parse_pairs(s@, pos as int)->Ok_0.0, key@) == Some(
                        parse_at(s@, a as int)->Ok_0.0,
                    )
                },
                None => spec_lookup(parse_pairs(s@, pos as int)->Ok_0.0, key@) is None,
            },
            Err(e) => parse_pairs(s@, pos as int) == Err::<(Seq<(Seq<u8>, SpecValue)>, int), crate::error::Error>(e),
        },
    decreases s@.len() - pos,
{
    if pos >= s.len() {
        return Err(crate::error::Error::UnexpectedEnd);
    }
    let c = s[pos];
    if c == 101 {
        return Ok(None);
    }
    if c < 48 || c > 57 {
        return Err(crate::error::Error::UnexpectedToken { found: c, index: pos });
    }
    match decode_string_at(s, pos) {
        Err(e) => Err(e),
        Ok((k, p2)) => {
            proof {
                lemma_parse_string_bounds(s@, pos as int);
            }
            match skip_value(s, p2) {
                Err(e) => Err(e),
                Ok(p3) => {
                    proof {
                        lemma_parse_bounds(s@, p2 as int);
                    }
                    match find_pair_span(s, p3, key) {
                        Err(e) => Err(e),
                        Ok(o) => {
                            let ghost whole = parse_pairs(s@, pos as int)->Ok_0.0;
                            let ghost v = parse_at(s@, p2 as int)->Ok_0.0;
                            let ghost tail = parse_pairs(s@, p3 as int)->Ok_0.0;
                            proof {
                                assert(whole == seq![(k@, v)] + tail);
                                assert(whole[0] == (k@, v));
                                assert(whole.subrange(1, whole.len() as int) =~= tail);
                            }
                            match o {
                                Some(span) => Ok(Some(span)),
                                None => {
                                    if bytes_equal(k.bytes.as_slice(), key) {
                                        Ok(Some((p2, p3)))
                                    } else {
                                        Ok(None)
                                    }
                                }
                            }
                        }
                    }
                }
            }
        }
    }
}

/// The byte range of the `info` value inside a whole torrent document: the
/// untouched slice whose SHA-1 is the swarm's identity.
pub fn info_slice(raw: &[u8]) -> (r: Result<(usize, usize), DecodingError>)
    ensures
        match r {
            Ok((a, b)) => {
                &&& spec_info_slice_check(raw@) is None
                &&& a <= b <= raw@.len()
                &&& parse_at(raw@, a as int) is Ok
                &&& parse_at(raw@, a as int)->Ok_0.1 == b as int
                &&& (spec_decode(raw@) matches Ok(SpecValue::Dict(d)) && spec_lookup(
                    d,
                    key_info(),
                ) == Some(parse_at(raw@, a as int)->Ok_0.0))
                &&& raw@.subrange(a as int, b as int) == spec_encode(
                    parse_at(raw@, a as int)->Ok_0.0,
                )
            },
            Err(e) => spec_info_slice_check(raw@) == Some(e),
        },
{
    match crate::decode::decode_prefix(raw) {
        Err(e) => Err(DecodingError::Structure(e)),
        Ok((v, n)) => {
            if n != raw.len() {
                return Err(DecodingError::Structure(crate::error::Error::TrailingBytes));
            }
            match &v {
                Value::Dictionary(_) => {
                    let key = key_info_bytes();
                    match find_pair_span(raw, 1, key.as_slice()) {
                        Err(_) => {
                            // A whole-document parse succeeded, so the pair
                            // walk cannot fail; this branch is dead.
                            proof {
                                assert(false);
                            }
                            Err(DecodingError::MissingField { field: FieldName::Info })
                        }
                        Ok(None) => Err(DecodingError::MissingField { field: FieldName::Info }),
                        Ok(Some((a, b))) => {
                            proof {
                                crate::laws::lemma_parse_exact(raw@, a as int);
                            }
                            Ok((a, b))
                        }
                    }
                }
                _ => Err(
                    DecodingError::TypeMismatch { expected: Shape::Dictionary, actual: shape(&v) },
                ),
            }
        }
    }
}

/// The SHA-1 of the raw `info` slice of a whole torrent document.
pub fn info_hash_from_slice(raw: &[u8]) -> (r: Result<[u8; 20], DecodingError>)
    ensures
        match r {
            Ok(h) => spec_info_slice_check(raw@) is None && (spec_decode(raw@) matches Ok(
                SpecValue::Dict(d),
            ) && h@ == sha1_of(spec_encode(spec_lookup(d, key_info())->Some_0))),
            Err(e) => spec_info_slice_check(raw@) == Some(e),
        },
{
    match info_slice(raw) {
        Err(e) => Err(e),
        Ok((a, b)) => {
            let sub = vstd::slice::slice_subrange(raw, a, b);
            Ok(sha1_digest(sub))
        }
    }
}

/// The sum of the lengths of a sequence of file records.
pub open spec fn sum_file_lengths(fs: Seq<SpecFile>) -> int
    decreases fs,
{
    if fs.len() == 0 {
        0
    } else {
        fs[0].length + sum_file_lengths(fs.subrange(1, fs.len() as int))
    }
}

/// The sum of file lengths is never negative.
pub proof fn lemma_sum_file_lengths_nonneg(fs: Seq<SpecFile>)
    ensures
        sum_file_lengths(fs) >= 0,
    decreases fs,
{
    if fs.len() > 0 {
        lemma_sum_file_lengths_nonneg(fs.subrange(1, fs.len() as int));
    }
}

/// The number of payload bytes a torrent describes.
pub open spec fn spec_total_length(fk: SpecFileKind) -> int {
    match fk {
        SpecFileKind::Single { length, .. } => length as int,
        SpecFileKind::Multi { files } => sum_file_lengths(files),
    }
}

/// The sum of the lengths of `fs` from `i` on.
fn sum_lengths_from(fs: &Vec<File>, i: usize) -> (r: u64)
    requires
        i <= fs@.len(),
        sum_file_lengths(fs.deep_view().subrange(i as int, fs@.len() as int)) <= u64::MAX,
    ensures
        r as int == sum_file_lengths(fs.deep_view().subrange(i as int, fs@.len() as int)),
    decreases fs@.len() - i,
{
    let ghost rest = fs.deep_view().subrange(i as int, fs@.len() as int);
    if i >= fs.len() {
        proof {
            assert(rest =~= Seq::<SpecFile>::empty());
        }
        return 0;
    }
    proof {
        assert(rest[0] == fs@[i as int].deep_view());
        assert(rest.subrange(1, rest.len() as int) =~= fs.deep_view().subrange(
            i + 1,
            fs@.len() as int,
        ));
        lemma_sum_file_lengths_nonneg(rest.subrange(1, rest.len() as int));
    }
    let tail = sum_lengths_from(fs, i + 1);
    fs[i].length + tail
}

/// Hashing the raw info slice equals hashing the re-encoding of the decoded
/// info value: the info-hash does not depend on which of the two is taken.
pub proof fn lemma_info_hash_stable(raw: Seq<u8>, a: int, b: int)
    requires
        0 <= a <= b <= raw.len(),
        parse_at(raw, a) is Ok,
        parse_at(raw, a)->Ok_0.1 == b,
    ensures
        sha1_of(raw.subrange(a, b)) == sha1_of(spec_encode(parse_at(raw, a)->Ok_0.0)),
{
    crate::laws::lemma_parse_exact(raw, a);
}

impl MetaInfo {
    /// The SHA-1 of the canonical re-encoding of the info dictionary.
    pub fn info_hash(&self) -> (r: [u8; 20])
        ensures
            r@ == sha1_of(spec_encode(spec_info_value(self.info@))),
    {
        let v = self.info.to_value();
        let bytes = crate::encode::encode(&v);
        sha1_digest(bytes.as_slice())
    }

    /// The number of payload bytes the torrent describes: the sole file
    /// length, or the sum over all files.
    pub fn length(&self) -> (r: u64)
        requires
            spec_total_length(self.info@.files) <= u64::MAX,
        ensures
            r as int == spec_total_length(self.info@.files),
    {
        match &self.info.files {
            FileKind::SingleFile { length, .. } => *length,
            FileKind::MultiFile { files } => {
                proof {
                    assert(files.deep_view().subrange(0, files.deep_view().len() as int)
                        =~= files.deep_view());
                    assert(files@.len() == files.deep_view().len());
                }
                sum_lengths_from(files, 0)
            }
        }
    }
}

} // verus!
