//! The bencode data model: byte strings, integers, lists and dictionaries,
//! together with the mathematical model used by every contract of the codec.

use vstd::prelude::*;

verus! {

/// Mathematical model of a bencode value.
///
/// Dictionaries are modelled as a sequence of key/value pairs in the order in
/// which they stand in the byte stream: the codec preserves that order so that
/// a decoded document can be re-encoded byte for byte.
#[verifier::ext_equal]
pub enum SpecValue {
    Bytes(Seq<u8>),
    Int(int),
    List(Seq<SpecValue>),
    Dict(Seq<(Seq<u8>, SpecValue)>),
}

/// The smallest integer this implementation holds: `-(2^63)`.
pub open spec fn int_min() -> int {
    -0x8000_0000_0000_0000
}

/// The largest integer this implementation holds: `2^64 - 1`.
pub open spec fn int_max() -> int {
    0xffff_ffff_ffff_ffff
}

impl SpecValue {
    /// Every integer in the value lies in the range the implementation holds.
    pub open spec fn wf(self) -> bool
        decreases self,
    {
        match self {
            SpecValue::Bytes(_) => true,
            SpecValue::Int(i) => int_min() <= i <= int_max(),
            SpecValue::List(l) => forall|i: int| 0 <= i < l.len() ==> (#[trigger] l[i]).wf(),
            SpecValue::Dict(d) => forall|i: int| 0 <= i < d.len() ==> (#[trigger] d[i]).1.wf(),
        }
    }
}

/// Wrapper around `Vec<u8>` holding the payload of a bencode byte string.
/// The bytes are opaque: no character encoding is assumed.
#[derive(Clone, Debug, PartialEq, Eq)]
pub struct ByteString {
    pub bytes: Vec<u8>,
}

impl View for ByteString {
    type V = Seq<u8>;

    open spec fn view(&self) -> Seq<u8> {
        self.bytes@
    }
}

impl ByteString {
    /// Construct a new, empty `ByteString`.
    pub fn new() -> (r: Self)
        ensures
            r@ == Seq::<u8>::empty(),
    {
        ByteString { bytes: Vec::new() }
    }

    /// Construct a new, empty `ByteString` with the given capacity.
    pub fn with_capacity(cap: usize) -> (r: Self)
        ensures
            r@ == Seq::<u8>::empty(),
    {
        ByteString { bytes: Vec::with_capacity(cap) }
    }

    /// Wrap existing bytes in a `ByteString`.
    pub fn from(bytes: Vec<u8>) -> (r: Self)
        ensures
            r@ == bytes@,
    {
        ByteString { bytes }
    }

    /// Unwrap the vector of bytes underlying this `ByteString`.
    pub fn into_vec(self) -> (r: Vec<u8>)
        ensures
            r@ == self@,
    {
        self.bytes
    }

    pub fn len(&self) -> (r: usize)
        ensures
            r == self@.len(),
    {
        self.bytes.len()
    }
}

/// A bencode integer.
///
/// The format allows arbitrary magnitude; this implementation restricts the
/// range to what `i64` and `u64` can hold together, `-(2^63) ..= 2^64 - 1`.
/// The representation is canonical: values below zero are held as `Negative`,
/// all others as `Positive`.
#[derive(Clone, Copy, Debug, PartialEq, Eq)]
pub struct Integer {
    pub inner: IntegerKind,
}

#[derive(Clone, Copy, Debug, PartialEq, Eq)]
pub enum IntegerKind {
    Negative(i64),
    Positive(u64),
}

impl View for Integer {
    type V = int;

    open spec fn view(&self) -> int {
        match self.inner {
            IntegerKind::Negative(n) => n as int,
            IntegerKind::Positive(n) => n as int,
        }
    }
}

impl Integer {
    /// The canonical-representation invariant: `Negative` holds only values
    /// below zero.
    pub open spec fn wf(&self) -> bool {
        match self.inner {
            IntegerKind::Negative(n) => n < 0,
            IntegerKind::Positive(_) => true,
        }
    }

    /// Wrap a signed value, normalising non-negative values to `Positive`.
    pub fn from_i64(value: i64) -> (r: Self)
        ensures
            r@ == value as int,
            r.wf(),
    {
        if value < 0 {
            Integer { inner: IntegerKind::Negative(value) }
        } else {
            Integer { inner: IntegerKind::Positive(value as u64) }
        }
    }

    /// Wrap an unsigned value.
    pub fn from_u64(value: u64) -> (r: Self)
        ensures
            r@ == value as int,
            r.wf(),
    {
        Integer { inner: IntegerKind::Positive(value) }
    }

    /// Does the value fit in an `i64`?
    pub fn is_i64(&self) -> (r: bool)
        ensures
            r == (i64::MIN <= self@ <= i64::MAX),
    {
        match self.inner {
            IntegerKind::Positive(n) => n <= i64::MAX as u64,
            IntegerKind::Negative(_) => true,
        }
    }

    /// Is the value non-negative (and thus representable as `u64`)?
    pub fn is_u64(&self) -> (r: bool)
        requires
            self.wf(),
        ensures
            r == (self@ >= 0),
    {
        matches!(self.inner, IntegerKind::Positive(_))
    }

    /// The value as an `i64`, or `None` if it does not fit.
    pub fn as_i64(&self) -> (r: Option<i64>)
        ensures
            match r {
                Some(n) => n as int == self@,
                None => self@ > i64::MAX,
            },
    {
        match self.inner {
            IntegerKind::Negative(n) => Some(n),
            IntegerKind::Positive(n) => {
                if n <= i64::MAX as u64 {
                    Some(n as i64)
                } else {
                    None
                }
            }
        }
    }

    /// The value as a `u64`, or `None` if it is negative.
    pub fn as_u64(&self) -> (r: Option<u64>)
        requires
            self.wf(),
        ensures
            match r {
                Some(n) => n as int == self@,
                None => self@ < 0,
            },
    {
        match self.inner {
            IntegerKind::Positive(n) => Some(n),
            IntegerKind::Negative(_) => None,
        }
    }
}

/// A bencode value: the four kinds of the format, as decoded from or encoded
/// into a byte stream. Dictionary pairs are kept in stream order.
#[derive(Debug, PartialEq, Eq)]
pub enum Value {
    ByteString(ByteString),
    Integer(Integer),
    List(Vec<Value>),
    Dictionary(Vec<(ByteString, Value)>),
}

/// The model of an executable `Value`.
pub open spec fn view_value(v: Value) -> SpecValue
    decreases v,
{
    match v {
        Value::ByteString(b) => SpecValue::Bytes(b@),
        Value::Integer(i) => SpecValue::Int(i@),
        Value::List(l) => SpecValue::List(view_list(l@)),
        Value::Dictionary(d) => SpecValue::Dict(view_pairs(d@)),
    }
}

/// The models of the elements of a list, in order.
pub open spec fn view_list(l: Seq<Value>) -> Seq<SpecValue>
    decreases l,
{
    if l.len() == 0 {
        Seq::empty()
    } else {
        seq![view_value(l[0])] + view_list(l.subrange(1, l.len() as int))
    }
}

/// The models of the pairs of a dictionary, in stream order.
pub open spec fn view_pairs(d: Seq<(ByteString, Value)>) -> Seq<(Seq<u8>, SpecValue)>
    decreases d,
{
    if d.len() == 0 {
        Seq::empty()
    } else {
        seq![(d[0].0@, view_value(d[0].1))] + view_pairs(d.subrange(1, d.len() as int))
    }
}

impl View for Value {
    type V = SpecValue;

    open spec fn view(&self) -> SpecValue {
        view_value(*self)
    }
}

impl Value {
    /// The payload, when the value is a byte string.
    pub fn byte_string(self) -> (r: Option<ByteString>)
        ensures
            match r {
                Some(b) => self@ == SpecValue::Bytes(b@),
                None => !(self@ is Bytes),
            },
    {
        match self {
            Value::ByteString(b) => Some(b),
            _ => None,
        }
    }

    /// The integer, when the value is one.
    pub fn integer(self) -> (r: Option<Integer>)
        ensures
            match r {
                Some(i) => self@ == SpecValue::Int(i@),
                None => !(self@ is Int),
            },
    {
        match self {
            Value::Integer(i) => Some(i),
            _ => None,
        }
    }

    /// The elements, when the value is a list.
    pub fn list(self) -> (r: Option<Vec<Value>>)
        ensures
            match r {
                Some(l) => self@ == SpecValue::List(view_list(l@)),
                None => !(self@ is List),
            },
    {
        match self {
            Value::List(l) => Some(l),
            _ => None,
        }
    }

    /// The pairs, when the value is a dictionary.
    pub fn dictionary(self) -> (r: Option<Vec<(ByteString, Value)>>)
        ensures
            match r {
                Some(d) => self@ == SpecValue::Dict(view_pairs(d@)),
                None => !(self@ is Dict),
            },
    {
        match self {
            Value::Dictionary(d) => Some(d),
            _ => None,
        }
    }
}

/// `view_list` maps each element to its model, in place.
pub proof fn lemma_view_list(l: Seq<Value>)
    ensures
        view_list(l).len() == l.len(),
        forall|i: int| 0 <= i < l.len() ==> view_list(l)[i] == view_value(#[trigger] l[i]),
    decreases l,
{
    if l.len() > 0 {
        let tail = l.subrange(1, l.len() as int);
        lemma_view_list(tail);
        assert forall|i: int| 0 <= i < l.len() implies view_list(l)[i] == view_value(
            #[trigger] l[i],
        ) by {
            if i > 0 {
                assert(view_list(l)[i] == view_list(tail)[i - 1]);
                assert(tail[i - 1] == l[i]);
            }
        }
    }
}

/// `view_pairs` maps each pair to its model, in place.
pub proof fn lemma_view_pairs(d: Seq<(ByteString, Value)>)
    ensures
        view_pairs(d).len() == d.len(),
        forall|i: int| 0 <= i < d.len() ==> view_pairs(d)[i] == ((#[trigger] d[i]).0@,
        view_value(d[i].1)),
    decreases d,
{
    if d.len() > 0 {
        let tail = d.subrange(1, d.len() as int);
        lemma_view_pairs(tail);
        assert forall|i: int| 0 <= i < d.len() implies view_pairs(d)[i] == ((#[trigger] d[i]).0@,
        view_value(d[i].1)) by {
            if i > 0 {
                assert(view_pairs(d)[i] == view_pairs(tail)[i - 1]);
                assert(tail[i - 1] == d[i]);
            }
        }
    }
}

/// The value under `key` in a dictionary, the last occurrence winning, as the
/// typed mapping layer reads dictionaries.
pub open spec fn spec_lookup(d: Seq<(Seq<u8>, SpecValue)>, key: Seq<u8>) -> Option<SpecValue>
    decreases d,
{
    if d.len() == 0 {
        None
    } else {
        let rest = spec_lookup(d.subrange(1, d.len() as int), key);
        if rest is Some {
            rest
        } else if d[0].0 == key {
            Some(d[0].1)
        } else {
            None
        }
    }
}

/// Are the two byte slices equal?
pub fn bytes_equal(a: &[u8], b: &[u8]) -> (r: bool)
    ensures
        r == (a@ == b@),
{
    if a.len() != b.len() {
        proof {
            assert(a@ != b@);
        }
        return false;
    }
    let mut i: usize = 0;
    while i < a.len()
        invariant
            i <= a@.len(),
            a@.len() == b@.len(),
            forall|j: int| 0 <= j < i ==> a@[j] == b@[j],
        decreases a@.len() - i,
    {
        if a[i] != b[i] {
            return false;
        }
        i = i + 1;
    }
    proof {
        assert(a@ =~= b@);
    }
    true
}

/// Look a key up in a dictionary's pairs; the last occurrence wins.
pub fn dict_lookup<'a>(d: &'a Vec<(ByteString, Value)>, key: &[u8]) -> (r: Option<&'a Value>)
    ensures
        match r {
            Some(v) => spec_lookup(view_pairs(d@), key@) == Some(v@),
            None => spec_lookup(view_pairs(d@), key@) is None,
        },
{
    proof {
        lemma_view_pairs(d@);
    }
    let ghost whole = view_pairs(d@);
    let mut i = d.len();
    proof {
        assert(whole.subrange(0, i as int) =~= whole);
    }
    loop
        invariant
            i <= d@.len(),
            whole == view_pairs(d@),
            whole.len() == d@.len(),
            forall|j: int| 0 <= j < d@.len() ==> whole[j] == ((#[trigger] d@[j]).0@, view_value(
                d@[j].1,
            )),
            spec_lookup(whole, key@) == spec_lookup(whole.subrange(0, i as int), key@),
        decreases i,
    {
        if i == 0 {
            proof {
                assert(whole.subrange(0, 0) =~= Seq::<(Seq<u8>, SpecValue)>::empty());
            }
            return None;
        }
        i = i - 1;
        let ghost prefix = whole.subrange(0, i as int);
        proof {
            assert(whole.subrange(0, i + 1) =~= prefix.push(whole[i as int]));
            lemma_lookup_snoc(prefix, whole[i as int], key@);
        }
        if bytes_equal(d[i].0.bytes.as_slice(), key) {
            return Some(&d[i].1);
        }
    }
}

/// Appending a pair shadows earlier occurrences of its key.
pub proof fn lemma_lookup_snoc(d: Seq<(Seq<u8>, SpecValue)>, p: (Seq<u8>, SpecValue), key: Seq<u8>)
    ensures
        spec_lookup(d.push(p), key) == if p.0 == key {
            Some(p.1)
        } else {
            spec_lookup(d, key)
        },
    decreases d,
{
    if d.len() == 0 {
        assert(d.push(p)[0] == p);
        assert(d.push(p).subrange(1, 1) =~= Seq::<(Seq<u8>, SpecValue)>::empty());
        assert(spec_lookup(Seq::<(Seq<u8>, SpecValue)>::empty(), key) is None);
    } else {
        assert(d.push(p).subrange(1, d.len() as int + 1) =~= d.subrange(1, d.len() as int).push(p));
        lemma_lookup_snoc(d.subrange(1, d.len() as int), p, key);
        assert(d.push(p)[0] == d[0]);
    }
}

impl Value {
    /// Every integer held anywhere in the value is canonically represented.
    pub open spec fn wf(self) -> bool
        decreases self,
    {
        match self {
            Value::ByteString(_) => true,
            Value::Integer(i) => i.wf(),
            Value::List(l) => forall|i: int| 0 <= i < l@.len() ==> (#[trigger] l@[i]).wf(),
            Value::Dictionary(d) => forall|i: int|
                0 <= i < d@.len() ==> (#[trigger] d@[i]).1.wf(),
        }
    }
}

} // verus!
