//! The bencode encoder: the specification of the byte stream a value stands
//! for, and the executable encoder proved to produce exactly those bytes.
//!
//! Dictionary pairs are written in the order in which they are held, so a
//! decoded document re-encodes byte for byte. A compliant document has its
//! keys in strictly ascending byte order; `Value::is_canonical` checks that,
//! and `Value::to_bencode` refuses a value that violates it.

use vstd::prelude::*;

verus! {

use vstd::string::StringSliceAdditionalSpecFns;
use crate::digits::{dec_rep, u64_to_decimal};
use crate::error::Error;
use crate::value::{
    ByteString, Integer, IntegerKind, SpecValue, Value, view_list, view_pairs, view_value,
};

/// The bytes of one encoded value.
pub open spec fn spec_encode(v: SpecValue) -> Seq<u8>
    decreases v,
{
    match v {
        SpecValue::Bytes(b) => spec_encode_bytes(b),
        SpecValue::Int(i) => seq![105u8] + spec_int_rep(i) + seq![101u8],
        SpecValue::List(l) => seq![108u8] + spec_encode_items(l) + seq![101u8],
        SpecValue::Dict(d) => seq![100u8] + spec_encode_pairs(d) + seq![101u8],
    }
}

/// The bytes of an encoded byte string: decimal length, `:`, payload.
pub open spec fn spec_encode_bytes(b: Seq<u8>) -> Seq<u8> {
    dec_rep(b.len()) + seq![58u8] + b
}

/// The decimal digits of an integer, with a sign for negative values.
pub open spec fn spec_int_rep(i: int) -> Seq<u8> {
    if i < 0 {
        seq![45u8] + dec_rep((-i) as nat)
    } else {
        dec_rep(i as nat)
    }
}

/// The concatenated encodings of list elements.
pub open spec fn spec_encode_items(l: Seq<SpecValue>) -> Seq<u8>
    decreases l,
{
    if l.len() == 0 {
        Seq::empty()
    } else {
        spec_encode(l[0]) + spec_encode_items(l.subrange(1, l.len() as int))
    }
}

/// The concatenated encodings of dictionary pairs, each a byte-string key
/// followed by its value.
pub open spec fn spec_encode_pairs(d: Seq<(Seq<u8>, SpecValue)>) -> Seq<u8>
    decreases d,
{
    if d.len() == 0 {
        Seq::empty()
    } else {
        spec_encode_bytes(d[0].0) + spec_encode(d[0].1) + spec_encode_pairs(
            d.subrange(1, d.len() as int),
        )
    }
}

/// Strict lexicographic byte order on key strings.
pub open spec fn lex_lt(a: Seq<u8>, b: Seq<u8>) -> bool
    decreases a.len(),
{
    if b.len() == 0 {
        false
    } else if a.len() == 0 {
        true
    } else if a[0] < b[0] {
        true
    } else if a[0] > b[0] {
        false
    } else {
        lex_lt(a.subrange(1, a.len() as int), b.subrange(1, b.len() as int))
    }
}

impl SpecValue {
    /// Keys of every dictionary in the value stand in strictly ascending
    /// byte order: what a compliant encoder must produce.
    pub open spec fn canonical(self) -> bool
        decreases self,
    {
        match self {
            SpecValue::Bytes(_) => true,
            SpecValue::Int(_) => true,
            SpecValue::List(l) => spec_canonical_items(l),
            SpecValue::Dict(d) => spec_canonical_pairs(d),
        }
    }
}

/// Are all elements canonical?
pub open spec fn spec_canonical_items(l: Seq<SpecValue>) -> bool
    decreases l,
{
    if l.len() == 0 {
        true
    } else {
        l[0].canonical() && spec_canonical_items(l.subrange(1, l.len() as int))
    }
}

/// Are all values canonical and the keys in strictly ascending order?
pub open spec fn spec_canonical_pairs(d: Seq<(Seq<u8>, SpecValue)>) -> bool
    decreases d,
{
    if d.len() == 0 {
        true
    } else {
        d[0].1.canonical() && (d.len() < 2 || lex_lt(d[0].0, d[1].0)) && spec_canonical_pairs(
            d.subrange(1, d.len() as int),
        )
    }
}

/// Is `a` strictly before `b` in byte order?
pub fn lex_less(a: &[u8], b: &[u8]) -> (r: bool)
    ensures
        r == lex_lt(a@, b@),
{
    let mut i: usize = 0;
    proof {
        assert(a@.subrange(0, a@.len() as int) =~= a@);
        assert(b@.subrange(0, b@.len() as int) =~= b@);
    }
    loop
        invariant
            i <= a@.len(),
            i <= b@.len(),
            lex_lt(a@, b@) == lex_lt(a@.subrange(i as int, a@.len() as int), b@.subrange(i as int, b@.len() as int)),
        decreases a@.len() - i,
    {
        let ghost sa = a@.subrange(i as int, a@.len() as int);
        let ghost sb = b@.subrange(i as int, b@.len() as int);
        if i >= b.len() {
            return false;
        }
        if i >= a.len() {
            return true;
        }
        proof {
            assert(sa[0] == a@[i as int]);
            assert(sb[0] == b@[i as int]);
        }
        if a[i] < b[i] {
            return true;
        }
        if a[i] > b[i] {
            return false;
        }
        proof {
            assert(sa.subrange(1, sa.len() as int) =~= a@.subrange(i + 1, a@.len() as int));
            assert(sb.subrange(1, sb.len() as int) =~= b@.subrange(i + 1, b@.len() as int));
        }
        i = i + 1;
    }
}

/// Are all elements of `l` from `i` on canonical?
fn canonical_items(l: &Vec<Value>, i: usize) -> (r: bool)
    requires
        i <= l@.len(),
    ensures
        r == spec_canonical_items(view_list(l@.subrange(i as int, l@.len() as int))),
    decreases l@, l@.len() - i,
{
    let ghost rest = l@.subrange(i as int, l@.len() as int);
    if i >= l.len() {
        proof {
            assert(rest =~= Seq::<Value>::empty());
        }
        return true;
    }
    proof {
        assert(rest[0] == l@[i as int]);
        assert(rest.subrange(1, rest.len() as int) =~= l@.subrange(i + 1, l@.len() as int));
        let vl = view_list(rest);
        assert(vl == seq![view_value(l@[i as int])] + view_list(
            l@.subrange(i + 1, l@.len() as int),
        ));
        assert(vl[0] == view_value(l@[i as int]));
        assert(vl.subrange(1, vl.len() as int) =~= view_list(l@.subrange(i + 1, l@.len() as int)));
    }
    if !l[i].is_canonical() {
        return false;
    }
    canonical_items(l, i + 1)
}

/// Are all values of `d` from `i` on canonical, and the keys from `i` on in
/// strictly ascending byte order?
fn canonical_pairs(d: &Vec<(ByteString, Value)>, i: usize) -> (r: bool)
    requires
        i <= d@.len(),
    ensures
        r == spec_canonical_pairs(view_pairs(d@.subrange(i as int, d@.len() as int))),
    decreases d@, d@.len() - i,
{
    let ghost rest = d@.subrange(i as int, d@.len() as int);
    if i >= d.len() {
        proof {
            assert(rest =~= Seq::<(ByteString, Value)>::empty());
        }
        return true;
    }
    proof {
        assert(rest[0] == d@[i as int]);
        assert(rest.subrange(1, rest.len() as int) =~= d@.subrange(i + 1, d@.len() as int));
        let vp = view_pairs(rest);
        assert(vp == seq![(d@[i as int].0@, view_value(d@[i as int].1))] + view_pairs(
            d@.subrange(i + 1, d@.len() as int),
        ));
        assert(vp[0] == (d@[i as int].0@, view_value(d@[i as int].1)));
        assert(vp.subrange(1, vp.len() as int) =~= view_pairs(
            d@.subrange(i + 1, d@.len() as int),
        ));
        if i + 1 < d@.len() {
            assert(vp[1] == view_pairs(d@.subrange(i + 1, d@.len() as int))[0]);
            assert(view_pairs(d@.subrange(i + 1, d@.len() as int))[0] == (
                d@.subrange(i + 1, d@.len() as int)[0].0@,
                view_value(d@.subrange(i + 1, d@.len() as int)[0].1),
            ));
            assert(d@.subrange(i + 1, d@.len() as int)[0] == d@[i + 1]);
        }
    }
    if !d[i].1.is_canonical() {
        return false;
    }
    if i + 1 < d.len() {
        if !lex_less(d[i].0.bytes.as_slice(), d[i + 1].0.bytes.as_slice()) {
            return false;
        }
    }
    canonical_pairs(d, i + 1)
}

impl Value {
    /// Are the keys of every dictionary in this value in strictly ascending
    /// byte order, as a compliant encoder must emit them?
    pub fn is_canonical(&self) -> (r: bool)
        ensures
            r == self@.canonical(),
        decreases *self, 0int,
    {
        match self {
            Value::ByteString(_) => true,
            Value::Integer(_) => true,
            Value::List(l) => {
                proof {
                    assert(l@.subrange(0, l@.len() as int) =~= l@);
                }
                canonical_items(l, 0)
            }
            Value::Dictionary(d) => {
                proof {
                    assert(d@.subrange(0, d@.len() as int) =~= d@);
                }
                canonical_pairs(d, 0)
            }
        }
    }

    /// Encode this value as a compliant document: refused with
    /// `UnsortedKeys` exactly when some dictionary's keys are not in
    /// strictly ascending byte order.
    pub fn to_bencode(&self) -> (r: Result<Vec<u8>, Error>)
        requires
            self.wf(),
        ensures
            match r {
                Ok(bytes) => self@.canonical() && bytes@ == spec_encode(self@),
                Err(e) => !self@.canonical() && e == Error::UnsortedKeys,
            },
    {
        if self.is_canonical() {
            Ok(encode(self))
        } else {
            Err(Error::UnsortedKeys)
        }
    }
}

/// Append the encoding of a byte-string token (length, `:`, payload).
fn push_string_token(out: &mut Vec<u8>, payload: &[u8])
    ensures
        final(out)@ == old(out)@ + spec_encode_bytes(payload@),
{
    let mut digits = u64_to_decimal(payload.len() as u64);
    out.append(&mut digits);
    out.push(58);
    let mut p = vstd::slice::slice_to_vec(payload);
    out.append(&mut p);
}

/// Encode the elements of `l` from `i` on, followed by nothing.
fn encode_items_from(l: &Vec<Value>, i: usize, out: &mut Vec<u8>)
    requires
        i <= l@.len(),
        forall|j: int| 0 <= j < l@.len() ==> (#[trigger] l@[j]).wf(),
    ensures
        final(out)@ == old(out)@ + spec_encode_items(view_list(l@.subrange(i as int, l@.len() as int))),
    decreases l@, l@.len() - i,
{
    if i >= l.len() {
        proof {
            assert(l@.subrange(i as int, l@.len() as int) =~= Seq::<Value>::empty());
        }
        return ;
    }
    encode_value_into(&l[i], out);
    encode_items_from(l, i + 1, out);
    proof {
        let rest = l@.subrange(i as int, l@.len() as int);
        assert(rest[0] == l@[i as int]);
        assert(rest.subrange(1, rest.len() as int) =~= l@.subrange(i + 1, l@.len() as int));
        let vl = view_list(rest);
        let tailv = view_list(l@.subrange(i + 1, l@.len() as int));
        assert(vl == seq![view_value(l@[i as int])] + tailv);
        assert(vl[0] == view_value(l@[i as int]));
        assert(vl.subrange(1, vl.len() as int) =~= tailv);
        assert(spec_encode_items(vl) == spec_encode(vl[0]) + spec_encode_items(
            vl.subrange(1, vl.len() as int),
        ));
        assert(out@ =~= old(out)@ + spec_encode_items(vl));
    }
}

/// Encode the pairs of `d` from `i` on.
fn encode_pairs_from(d: &Vec<(ByteString, Value)>, i: usize, out: &mut Vec<u8>)
    requires
        i <= d@.len(),
        forall|j: int| 0 <= j < d@.len() ==> (#[trigger] d@[j]).1.wf(),
    ensures
        final(out)@ == old(out)@ + spec_encode_pairs(view_pairs(d@.subrange(i as int, d@.len() as int))),
    decreases d@, d@.len() - i,
{
    if i >= d.len() {
        proof {
            assert(d@.subrange(i as int, d@.len() as int) =~= Seq::<(ByteString, Value)>::empty());
        }
        return ;
    }
    push_string_token(out, d[i].0.bytes.as_slice());
    encode_value_into(&d[i].1, out);
    encode_pairs_from(d, i + 1, out);
    proof {
        let rest = d@.subrange(i as int, d@.len() as int);
        assert(rest[0] == d@[i as int]);
        assert(rest.subrange(1, rest.len() as int) =~= d@.subrange(i + 1, d@.len() as int));
        let vp = view_pairs(rest);
        let tailv = view_pairs(d@.subrange(i + 1, d@.len() as int));
        assert(vp == seq![(d@[i as int].0@, view_value(d@[i as int].1))] + tailv);
        assert(vp[0] == (d@[i as int].0@, view_value(d@[i as int].1)));
        assert(vp.subrange(1, vp.len() as int) =~= tailv);
        assert(spec_encode_pairs(vp) == spec_encode_bytes(vp[0].0) + spec_encode(vp[0].1)
            + spec_encode_pairs(vp.subrange(1, vp.len() as int)));
        assert(out@ =~= old(out)@ + spec_encode_pairs(vp));
    }
}

/// Append the encoding of one value.
fn encode_value_into(v: &Value, out: &mut Vec<u8>)
    requires
        v.wf(),
    ensures
        final(out)@ == old(out)@ + spec_encode(v@),
    decreases *v, 0int,
{
    match v {
        Value::ByteString(b) => {
            push_string_token(out, b.bytes.as_slice());
        }
        Value::Integer(n) => {
            out.push(105);
            match n.inner {
                IntegerKind::Negative(x) => {
                    out.push(45);
                    let mag: u64 = if x == i64::MIN {
                        0x8000_0000_0000_0000u64
                    } else {
                        (-x) as u64
                    };
                    let mut digits = u64_to_decimal(mag);
                    out.append(&mut digits);
                }
                IntegerKind::Positive(x) => {
                    let mut digits = u64_to_decimal(x);
                    out.append(&mut digits);
                }
            }
            out.push(101);
            proof {
                assert(out@ =~= old(out)@ + spec_encode(v@));
            }
        }
        Value::List(l) => {
            proof {
                assert(forall|j: int| 0 <= j < l@.len() ==> (#[trigger] l@[j]).wf());
            }
            out.push(108);
            encode_items_from(l, 0, out);
            out.push(101);
            proof {
                assert(l@.subrange(0, l@.len() as int) =~= l@);
                assert(out@ =~= old(out)@ + spec_encode(v@));
            }
        }
        Value::Dictionary(d) => {
            proof {
                assert(forall|j: int| 0 <= j < d@.len() ==> (#[trigger] d@[j]).1.wf());
            }
            out.push(100);
            encode_pairs_from(d, 0, out);
            out.push(101);
            proof {
                assert(d@.subrange(0, d@.len() as int) =~= d@);
                assert(out@ =~= old(out)@ + spec_encode(v@));
            }
        }
    }
}

/// Encode one value: the byte stream it stands for. Dictionary pairs are
/// written in stored order.
pub fn encode(v: &Value) -> (r: Vec<u8>)
    requires
        v.wf(),
    ensures
        r@ == spec_encode(v@),
{
    let mut out: Vec<u8> = Vec::new();
    encode_value_into(v, &mut out);
    out
}

/// A single bencode token, as handed to `Encoder::emit_token`.
pub enum Token {
    ByteString(Vec<u8>),
    Integer(Vec<u8>),
    ListStart,
    DictionaryStart,
    End,
}

/// An encoder accumulating a bencode byte stream.
pub struct Encoder {
    pub bytes: Vec<u8>,
}

impl Encoder {
    /// A fresh encoder with an empty output.
    pub fn new() -> (r: Encoder)
        ensures
            r.bytes@ == Seq::<u8>::empty(),
    {
        Encoder { bytes: Vec::new() }
    }

    /// Append one raw token. An `Integer` token's digits are written as
    /// given; the caller is answerable for their shape.
    pub fn emit_token(&mut self, token: Token)
        ensures
            final(self).bytes@ == match token {
                Token::ByteString(b) => old(self).bytes@ + spec_encode_bytes(b@),
                Token::Integer(digits) => old(self).bytes@ + seq![105u8] + digits@ + seq![101u8],
                Token::ListStart => old(self).bytes@ + seq![108u8],
                Token::DictionaryStart => old(self).bytes@ + seq![100u8],
                Token::End => old(self).bytes@ + seq![101u8],
            },
    {
        match token {
            Token::ByteString(b) => {
                push_string_token(&mut self.bytes, b.as_slice());
            }
            Token::Integer(mut digits) => {
                let ghost ds = digits@;
                self.bytes.push(105);
                self.bytes.append(&mut digits);
                self.bytes.push(101);
                proof {
                    assert(self.bytes@ =~= old(self).bytes@ + seq![105u8] + ds + seq![101u8]);
                }
            }
            Token::ListStart => self.bytes.push(108),
            Token::DictionaryStart => self.bytes.push(100),
            Token::End => self.bytes.push(101),
        }
    }

    /// Append the encoding of a whole value.
    pub fn emit(&mut self, value: &Value)
        requires
            value.wf(),
        ensures
            final(self).bytes@ == old(self).bytes@ + spec_encode(value@),
    {
        encode_value_into(value, &mut self.bytes);
    }

    /// Append a byte-string token holding the bytes of `value`.
    pub fn emit_byte_string(&mut self, value: &str)
        ensures
            final(self).bytes@ == old(self).bytes@ + spec_encode_bytes(value.spec_bytes()),
    {
        push_string_token(&mut self.bytes, value.as_bytes());
    }

    /// Append a byte-string token.
    pub fn emit_byte_array(&mut self, value: &[u8])
        ensures
            final(self).bytes@ == old(self).bytes@ + spec_encode_bytes(value@),
    {
        push_string_token(&mut self.bytes, value);
    }

    /// Append an integer token.
    pub fn emit_integer(&mut self, integer: &Integer)
        requires
            integer.wf(),
        ensures
            final(self).bytes@ == old(self).bytes@ + spec_encode(SpecValue::Int(integer@)),
    {
        encode_value_into(&Value::Integer(*integer), &mut self.bytes);
    }

    /// Append a whole list.
    pub fn emit_list(&mut self, items: &Vec<Value>)
        requires
            forall|j: int| 0 <= j < items@.len() ==> (#[trigger] items@[j]).wf(),
        ensures
            final(self).bytes@ == old(self).bytes@ + spec_encode(
                SpecValue::List(view_list(items@)),
            ),
    {
        self.bytes.push(108);
        encode_items_from(items, 0, &mut self.bytes);
        self.bytes.push(101);
        proof {
            assert(items@.subrange(0, items@.len() as int) =~= items@);
            assert(self.bytes@ =~= old(self).bytes@ + spec_encode(
                SpecValue::List(view_list(items@)),
            ));
        }
    }

    /// Append a whole dictionary, pairs in stored order.
    pub fn emit_dictionary(&mut self, pairs: &Vec<(ByteString, Value)>)
        requires
            forall|j: int| 0 <= j < pairs@.len() ==> (#[trigger] pairs@[j]).1.wf(),
        ensures
            final(self).bytes@ == old(self).bytes@ + spec_encode(
                SpecValue::Dict(view_pairs(pairs@)),
            ),
    {
        self.bytes.push(100);
        encode_pairs_from(pairs, 0, &mut self.bytes);
        self.bytes.push(101);
        proof {
            assert(pairs@.subrange(0, pairs@.len() as int) =~= pairs@);
            assert(self.bytes@ =~= old(self).bytes@ + spec_encode(
                SpecValue::Dict(view_pairs(pairs@)),
            ));
        }
    }

    /// Append one key/value pair of a dictionary under construction.
    pub fn emit_pair(&mut self, key: &[u8], value: &Value)
        requires
            value.wf(),
        ensures
            final(self).bytes@ == old(self).bytes@ + spec_encode_bytes(key@) + spec_encode(value@),
    {
        push_string_token(&mut self.bytes, key);
        encode_value_into(value, &mut self.bytes);
    }

    /// Hand out the accumulated bytes.
    pub fn into_bytes(self) -> (r: Vec<u8>)
        ensures
            r@ == self.bytes@,
    {
        self.bytes
    }
}

} // verus!
