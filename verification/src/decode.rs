//! The bencode decoder: a specification-level parser that defines the
//! grammar exactly, and the executable decoder proved to match it.
//!
//! The grammar (one value):
//! - integer: `i` digits `e`, no leading zero except the literal `0`, no `-0`;
//! - byte string: decimal length (no leading zero except `0`), `:`, payload;
//! - list: `l` values `e`;
//! - dictionary: `d` (byte-string key, value) pairs `e`.
//!
//! The parser is strict: whatever it accepts re-encodes to exactly the bytes
//! it consumed, which is what lets the info dictionary be hashed from either
//! the raw slice or a re-encoding.

use vstd::prelude::*;

verus! {

use vstd::slice::{slice_subrange, slice_to_vec};
use crate::digits::{
    dec_val, digit_run_end, is_digit, lemma_dec_val_lower, lemma_digit_run_end,
    lemma_pow10_monotone, pow10,
};
use crate::error::Error;
use crate::value::{
    ByteString, Integer, IntegerKind, SpecValue, Value, int_max, int_min, view_list, view_pairs,
    view_value,
};

/// Parse one value at `pos`. Returns the value and the position just past it.
pub open spec fn parse_at(s: Seq<u8>, pos: int) -> Result<(SpecValue, int), Error>
    decreases s.len() - pos, 1int,
{
    if pos < 0 || pos >= s.len() {
        Err(Error::UnexpectedEnd)
    } else if s[pos] == 105 {  // 'i'
        match parse_int_body(s, pos + 1) {
            Ok((n, p2)) => Ok((SpecValue::Int(n), p2)),
            Err(e) => Err(e),
        }
    } else if is_digit(s[pos]) {
        match parse_string_at(s, pos) {
            Ok((b, p2)) => Ok((SpecValue::Bytes(b), p2)),
            Err(e) => Err(e),
        }
    } else if s[pos] == 108 {  // 'l'
        match parse_items(s, pos + 1) {
            Ok((items, p2)) => Ok((SpecValue::List(items), p2)),
            Err(e) => Err(e),
        }
    } else if s[pos] == 100 {  // 'd'
        match parse_pairs(s, pos + 1) {
            Ok((pairs, p2)) => Ok((SpecValue::Dict(pairs), p2)),
            Err(e) => Err(e),
        }
    } else {
        Err(Error::UnexpectedToken { found: s[pos], index: pos as usize })
    }
}

/// Parse the digits and closing `e` of an integer, `pos` standing just after
/// the opening `i`.
pub open spec fn parse_int_body(s: Seq<u8>, pos: int) -> Result<(int, int), Error> {
    if pos < 0 || pos >= s.len() {
        Err(Error::UnexpectedEnd)
    } else {
        let neg = s[pos] == 45;  // '-'
        let dpos = if neg { pos + 1 } else { pos };
        if dpos >= s.len() {
            Err(Error::UnexpectedEnd)
        } else if !is_digit(s[dpos]) {
            Err(Error::UnexpectedToken { found: s[dpos], index: dpos as usize })
        } else if s[dpos] == 48 {  // '0'
            if neg {
                Err(Error::NegativeZero)
            } else if dpos + 1 >= s.len() {
                Err(Error::UnexpectedEnd)
            } else if is_digit(s[dpos + 1]) {
                Err(Error::LeadingZero)
            } else if s[dpos + 1] != 101 {  // 'e'
                Err(Error::UnexpectedToken { found: s[dpos + 1], index: (dpos + 1) as usize })
            } else {
                Ok((0, dpos + 2))
            }
        } else {
            let end = digit_run_end(s, dpos);
            if end >= s.len() {
                Err(Error::UnexpectedEnd)
            } else if s[end] != 101 {  // 'e'
                Err(Error::UnexpectedToken { found: s[end], index: end as usize })
            } else {
                let mag = dec_val(s.subrange(dpos, end)) as int;
                let v: int = if neg { -mag } else { mag };
                if v < int_min() || v > int_max() {
                    Err(Error::OutOfBound)
                } else {
                    Ok((v, end + 1))
                }
            }
        }
    }
}

/// Parse a byte string at `pos`, which must hold a digit: decimal length,
/// `:`, payload.
pub open spec fn parse_string_at(s: Seq<u8>, pos: int) -> Result<(Seq<u8>, int), Error> {
    let end = digit_run_end(s, pos);
    if s[pos] == 48 && end > pos + 1 {
        Err(Error::LeadingZero)
    } else if end >= s.len() {
        Err(Error::UnexpectedEnd)
    } else if s[end] != 58 {  // ':'
        Err(Error::UnexpectedToken { found: s[end], index: end as usize })
    } else {
        let len = dec_val(s.subrange(pos, end)) as int;
        if end + 1 + len > s.len() {
            Err(Error::EofInString)
        } else {
            Ok((s.subrange(end + 1, end + 1 + len), end + 1 + len))
        }
    }
}

/// Parse list elements up to and including the closing `e`.
pub open spec fn parse_items(s: Seq<u8>, pos: int) -> Result<(Seq<SpecValue>, int), Error>
    decreases s.len() - pos, 2int,
{
    if pos < 0 || pos >= s.len() {
        Err(Error::UnexpectedEnd)
    } else if s[pos] == 101 {  // 'e'
        Ok((Seq::empty(), pos + 1))
    } else {
        match parse_at(s, pos) {
            Err(e) => Err(e),
            Ok((v, p2)) => if pos < p2 <= s.len() {
                match parse_items(s, p2) {
                    Err(e) => Err(e),
                    Ok((rest, p3)) => Ok((seq![v] + rest, p3)),
                }
            } else {
                // A successful parse always consumes at least one byte, so
                // this branch is never reached; see `lemma_parse_bounds`.
                Err(Error::UnexpectedEnd)
            },
        }
    }
}

/// Parse dictionary pairs up to and including the closing `e`. Keys must be
/// byte strings.
pub open spec fn parse_pairs(s: Seq<u8>, pos: int) -> Result<
    (Seq<(Seq<u8>, SpecValue)>, int),
    Error,
>
    decreases s.len() - pos, 2int,
{
    if pos < 0 || pos >= s.len() {
        Err(Error::UnexpectedEnd)
    } else if s[pos] == 101 {  // 'e'
        Ok((Seq::empty(), pos + 1))
    } else if !is_digit(s[pos]) {
        Err(Error::UnexpectedToken { found: s[pos], index: pos as usize })
    } else {
        match parse_string_at(s, pos) {
            Err(e) => Err(e),
            Ok((k, p2)) => if pos < p2 <= s.len() {
                match parse_at(s, p2) {
                    Err(e) => Err(e),
                    Ok((v, p3)) => if p2 < p3 <= s.len() {
                        match parse_pairs(s, p3) {
                            Err(e) => Err(e),
                            Ok((rest, p4)) => Ok((seq![(k, v)] + rest, p4)),
                        }
                    } else {
                        Err(Error::UnexpectedEnd)
                    },
                }
            } else {
                Err(Error::UnexpectedEnd)
            },
        }
    }
}

/// Decode a whole input: one value, nothing left over.
pub open spec fn spec_decode(s: Seq<u8>) -> Result<SpecValue, Error> {
    match parse_at(s, 0) {
        Err(e) => Err(e),
        Ok((v, n)) => if n == s.len() {
            Ok(v)
        } else {
            Err(Error::TrailingBytes)
        },
    }
}

/// Bounds for `parse_int_body`: a success lands strictly past `pos` and
/// inside the input.
pub proof fn lemma_parse_int_bounds(s: Seq<u8>, pos: int)
    ensures
        parse_int_body(s, pos) matches Ok((_, p2)) ==> pos < p2 <= s.len(),
{
    if 0 <= pos < s.len() {
        let neg = s[pos] == 45;
        let dpos = if neg { pos + 1 } else { pos };
        if dpos < s.len() && is_digit(s[dpos]) {
            lemma_digit_run_end(s, dpos);
        }
    }
}

/// Bounds for `parse_string_at` under the condition `parse_at` calls it.
pub proof fn lemma_parse_string_bounds(s: Seq<u8>, pos: int)
    requires
        0 <= pos < s.len(),
        is_digit(s[pos]),
    ensures
        parse_string_at(s, pos) matches Ok((b, p2)) ==> pos < p2 <= s.len() && b.len() <= p2 - pos,
{
    lemma_digit_run_end(s, pos);
}

/// A successful parse of a value lands strictly past where it started and
/// inside the input.
pub proof fn lemma_parse_bounds(s: Seq<u8>, pos: int)
    ensures
        parse_at(s, pos) matches Ok((_, p2)) ==> pos < p2 <= s.len(),
    decreases s.len() - pos, 3int,
{
    if 0 <= pos < s.len() {
        if s[pos] == 105 {
            lemma_parse_int_bounds(s, pos + 1);
        } else if is_digit(s[pos]) {
            lemma_parse_string_bounds(s, pos);
        } else if s[pos] == 108 || s[pos] == 100 {
            lemma_parse_seq_bounds(s, pos + 1);
        }
    }
}

/// Find the end of the run of ASCII digits starting at `pos`.
fn scan_digits(s: &[u8], pos: usize) -> (r: usize)
    requires
        pos <= s@.len(),
    ensures
        r as int == digit_run_end(s@, pos as int),
        pos <= r <= s@.len(),
{
    proof {
        lemma_digit_run_end(s@, pos as int);
    }
    let mut cur = pos;
    loop
        invariant
            pos <= cur <= s@.len(),
            digit_run_end(s@, cur as int) == digit_run_end(s@, pos as int),
        decreases s@.len() - cur,
    {
        if cur < s.len() && 48 <= s[cur] && s[cur] <= 57 {
            cur = cur + 1;
        } else {
            return cur;
        }
    }
}

/// Read the value of the digit run `s[pos..end]`, which must be at most 20
/// digits, into an accumulator wide enough never to overflow.
fn read_digits(s: &[u8], pos: usize, end: usize) -> (r: u128)
    requires
        pos <= end <= s@.len(),
        end - pos <= 20,
        forall|i: int| pos <= i < end ==> is_digit(#[trigger] s@[i]),
    ensures
        r as nat == dec_val(s@.subrange(pos as int, end as int)),
{
    proof {
        reveal_with_fuel(pow10, 21);
        assert(pow10(20) == 100_000_000_000_000_000_000);
    }
    let mut acc: u128 = 0;
    let mut j = pos;
    assert(s@.subrange(pos as int, pos as int) =~= Seq::<u8>::empty());
    while j < end
        invariant
            pos <= j <= end <= s@.len(),
            end - pos <= 20,
            forall|i: int| pos <= i < end ==> is_digit(#[trigger] s@[i]),
            acc as nat == dec_val(s@.subrange(pos as int, j as int)),
            (acc as nat) < pow10((j - pos) as nat),
            pow10(20) == 100_000_000_000_000_000_000,
        decreases end - j,
    {
        proof {
            lemma_pow10_monotone((j - pos) as nat, 19);
            reveal_with_fuel(pow10, 21);
            assert(pow10(19) * 10 == pow10(20));
            let prefix = s@.subrange(pos as int, j as int);
            let extended = s@.subrange(pos as int, j as int + 1);
            assert(extended.drop_last() =~= prefix);
            assert(extended.last() == s@[j as int]);
            vstd::arithmetic::mul::lemma_mul_inequality(
                acc as int,
                pow10((j - pos) as nat) as int,
                10,
            );
        }
        acc = acc * 10 + ((s[j] - 48) as u128);
        j = j + 1;
    }
    assert(s@.subrange(pos as int, j as int) =~= s@.subrange(pos as int, end as int));
    acc
}

/// Decode the digits and closing `e` of an integer, `pos` standing just after
/// the opening `i`.
fn decode_int_body(s: &[u8], pos: usize) -> (r: Result<(Integer, usize), Error>)
    ensures
        match r {
            Ok((n, p2)) => parse_int_body(s@, pos as int) == Ok::<(int, int), Error>(
                (n@, p2 as int),
            ) && n.wf(),
            Err(e) => parse_int_body(s@, pos as int) == Err::<(int, int), Error>(e),
        },
{
    if pos >= s.len() {
        return Err(Error::UnexpectedEnd);
    }
    let neg = s[pos] == 45;
    let dpos = if neg { pos + 1 } else { pos };
    if dpos >= s.len() {
        return Err(Error::UnexpectedEnd);
    }
    let first = s[dpos];
    if first < 48 || first > 57 {
        return Err(Error::UnexpectedToken { found: first, index: dpos });
    }
    if first == 48 {
        if neg {
            return Err(Error::NegativeZero);
        }
        if dpos + 1 >= s.len() {
            return Err(Error::UnexpectedEnd);
        }
        let next = s[dpos + 1];
        if 48 <= next && next <= 57 {
            return Err(Error::LeadingZero);
        }
        if next != 101 {
            return Err(Error::UnexpectedToken { found: next, index: dpos + 1 });
        }
        return Ok((Integer::from_u64(0), dpos + 2));
    }
    let end = scan_digits(s, dpos);
    proof {
        lemma_digit_run_end(s@, dpos as int);
    }
    if end >= s.len() {
        return Err(Error::UnexpectedEnd);
    }
    if s[end] != 101 {
        return Err(Error::UnexpectedToken { found: s[end], index: end });
    }
    let ghost ds = s@.subrange(dpos as int, end as int);
    let ghost mag = dec_val(ds);
    if end - dpos > 20 {
        // At least 21 digits with no leading zero: past either bound.
        proof {
            lemma_dec_val_lower(ds);
            lemma_pow10_monotone(20, (ds.len() - 1) as nat);
            reveal_with_fuel(pow10, 21);
            assert(pow10(20) == 100_000_000_000_000_000_000);
        }
        return Err(Error::OutOfBound);
    }
    let acc = read_digits(s, dpos, end);
    proof {
        assert(acc as nat == mag);
    }
    if neg {
        proof {
            assert forall|j: int| 0 <= j < ds.len() implies is_digit(#[trigger] ds[j]) by {
                assert(ds[j] == s@[dpos + j]);
            }
            assert(ds[0] == s@[dpos as int]);
            lemma_dec_val_lower(ds);
            crate::digits::lemma_pow10_pos((ds.len() - 1) as nat);
        }
        if acc > 0x8000_0000_0000_0000u128 {
            return Err(Error::OutOfBound);
        }
        let m = acc as u64;
        let i: i64 = if m == 0x8000_0000_0000_0000u64 {
            i64::MIN
        } else {
            -(m as i64)
        };
        Ok((Integer { inner: IntegerKind::Negative(i) }, end + 1))
    } else {
        if acc > 0xffff_ffff_ffff_ffffu128 {
            return Err(Error::OutOfBound);
        }
        Ok((Integer::from_u64(acc as u64), end + 1))
    }
}

/// Decode a byte string at `pos`, which must hold a digit.
pub(crate) fn decode_string_at(s: &[u8], pos: usize) -> (r: Result<(ByteString, usize), Error>)
    requires
        pos < s@.len(),
        is_digit(s@[pos as int]),
    ensures
        match r {
            Ok((b, p2)) => parse_string_at(s@, pos as int) == Ok::<(Seq<u8>, int), Error>(
                (b@, p2 as int),
            ),
            Err(e) => parse_string_at(s@, pos as int) == Err::<(Seq<u8>, int), Error>(e),
        },
{
    let end = scan_digits(s, pos);
    proof {
        lemma_digit_run_end(s@, pos as int);
    }
    if s[pos] == 48 && end > pos + 1 {
        return Err(Error::LeadingZero);
    }
    if end >= s.len() {
        return Err(Error::UnexpectedEnd);
    }
    if s[end] != 58 {
        return Err(Error::UnexpectedToken { found: s[end], index: end });
    }
    let ghost ds = s@.subrange(pos as int, end as int);
    let ghost len = dec_val(ds);
    if end - pos > 20 {
        // At least 21 digits with no leading zero: longer than any input.
        proof {
            lemma_dec_val_lower(ds);
            lemma_pow10_monotone(20, (ds.len() - 1) as nat);
            reveal_with_fuel(pow10, 21);
            assert(pow10(20) == 100_000_000_000_000_000_000);
        }
        return Err(Error::EofInString);
    }
    let acc = read_digits(s, pos, end);
    if acc > (s.len() - (end + 1)) as u128 {
        return Err(Error::EofInString);
    }
    let n = acc as usize;
    let payload = slice_to_vec(slice_subrange(s, end + 1, end + 1 + n));
    Ok((ByteString::from(payload), end + 1 + n))
}

/// Decode one value at `pos`.
fn decode_value_at(s: &[u8], pos: usize) -> (r: Result<(Value, usize), Error>)
    ensures
        match r {
            Ok((v, p2)) => parse_at(s@, pos as int) == Ok::<(SpecValue, int), Error>(
                (v@, p2 as int),
            ) && v.wf(),
            Err(e) => parse_at(s@, pos as int) == Err::<(SpecValue, int), Error>(e),
        },
    decreases s@.len() - pos, 1int,
{
    if pos >= s.len() {
        return Err(Error::UnexpectedEnd);
    }
    let c = s[pos];
    if c == 105 {
        match decode_int_body(s, pos + 1) {
            Ok((n, p2)) => Ok((Value::Integer(n), p2)),
            Err(e) => Err(e),
        }
    } else if 48 <= c && c <= 57 {
        match decode_string_at(s, pos) {
            Ok((b, p2)) => Ok((Value::ByteString(b), p2)),
            Err(e) => Err(e),
        }
    } else if c == 108 {
        match decode_items_at(s, pos + 1) {
            Ok((items, p2)) => Ok((Value::List(items), p2)),
            Err(e) => Err(e),
        }
    } else if c == 100 {
        match decode_pairs_at(s, pos + 1) {
            Ok((pairs, p2)) => Ok((Value::Dictionary(pairs), p2)),
            Err(e) => Err(e),
        }
    } else {
        Err(Error::UnexpectedToken { found: c, index: pos })
    }
}

/// Decode list elements up to and including the closing `e`.
fn decode_items_at(s: &[u8], pos: usize) -> (r: Result<(Vec<Value>, usize), Error>)
    ensures
        match r {
            Ok((items, p2)) => parse_items(s@, pos as int) == Ok::<(Seq<SpecValue>, int), Error>(
                (view_list(items@), p2 as int),
            ) && (forall|i: int| 0 <= i < items@.len() ==> (#[trigger] items@[i]).wf()),
            Err(e) => parse_items(s@, pos as int) == Err::<(Seq<SpecValue>, int), Error>(e),
        },
    decreases s@.len() - pos, 2int,
{
    if pos >= s.len() {
        return Err(Error::UnexpectedEnd);
    }
    if s[pos] == 101 {
        let items: Vec<Value> = Vec::new();
        return Ok((items, pos + 1));
    }
    match decode_value_at(s, pos) {
        Err(e) => Err(e),
        Ok((v, p2)) => {
            proof {
                lemma_parse_bounds(s@, pos as int);
            }
            match decode_items_at(s, p2) {
                Err(e) => Err(e),
                Ok((mut rest, p3)) => {
                    let ghost tail = rest@;
                    rest.insert(0, v);
                    proof {
                        assert(rest@[0] == v);
                        assert(rest@.subrange(1, rest@.len() as int) =~= tail);
                        assert(view_list(rest@) == seq![view_value(v)] + view_list(tail));
                    }
                    Ok((rest, p3))
                }
            }
        }
    }
}

/// Decode dictionary pairs up to and including the closing `e`.
fn decode_pairs_at(s: &[u8], pos: usize) -> (r: Result<(Vec<(ByteString, Value)>, usize), Error>)
    ensures
        match r {
            Ok((pairs, p2)) => parse_pairs(s@, pos as int) == Ok::<
                (Seq<(Seq<u8>, SpecValue)>, int),
                Error,
            >((view_pairs(pairs@), p2 as int)) && (forall|i: int|
                0 <= i < pairs@.len() ==> (#[trigger] pairs@[i]).1.wf()),
            Err(e) => parse_pairs(s@, pos as int) == Err::<(Seq<(Seq<u8>, SpecValue)>, int), Error>(
                e,
            ),
        },
    decreases s@.len() - pos, 2int,
{
    if pos >= s.len() {
        return Err(Error::UnexpectedEnd);
    }
    let c = s[pos];
    if c == 101 {
        let pairs: Vec<(ByteString, Value)> = Vec::new();
        return Ok((pairs, pos + 1));
    }
    if c < 48 || c > 57 {
        return Err(Error::UnexpectedToken { found: c, index: pos });
    }
    match decode_string_at(s, pos) {
        Err(e) => Err(e),
        Ok((k, p2)) => {
            proof {
                lemma_parse_string_bounds(s@, pos as int);
            }
            match decode_value_at(s, p2) {
                Err(e) => Err(e),
                Ok((v, p3)) => {
                    proof {
                        lemma_parse_bounds(s@, p2 as int);
                    }
                    match decode_pairs_at(s, p3) {
                        Err(e) => Err(e),
                        Ok((mut rest, p4)) => {
                            let ghost tail = rest@;
                            rest.insert(0, (k, v));
                            proof {
                                assert(rest@[0] == (k, v));
                                assert(rest@.subrange(1, rest@.len() as int) =~= tail);
                                assert(view_pairs(rest@) == seq![(k@, view_value(v))]
                                    + view_pairs(tail));
                            }
                            Ok((rest, p4))
                        }
                    }
                }
            }
        }
    }
}

/// Decode one value from the front of `bytes`: the value and the offset just
/// past it. Bytes after that offset are not looked at.
pub fn decode_prefix(bytes: &[u8]) -> (r: Result<(Value, usize), Error>)
    ensures
        match r {
            Ok((v, n)) => parse_at(bytes@, 0) == Ok::<(SpecValue, int), Error>((v@, n as int))
                && v.wf(),
            Err(e) => parse_at(bytes@, 0) == Err::<(SpecValue, int), Error>(e),
        },
{
    decode_value_at(bytes, 0)
}

/// Decode `bytes` as exactly one value: trailing input is an error.
pub fn decode(bytes: &[u8]) -> (r: Result<Value, Error>)
    ensures
        match r {
            Ok(v) => spec_decode(bytes@) == Ok::<SpecValue, Error>(v@) && v.wf(),
            Err(e) => spec_decode(bytes@) == Err::<SpecValue, Error>(e),
        },
{
    match decode_value_at(bytes, 0) {
        Err(e) => Err(e),
        Ok((v, n)) => if n == bytes.len() {
            Ok(v)
        } else {
            Err(Error::TrailingBytes)
        },
    }
}

/// Advance past the value standing at `pos` without keeping it: the offset
/// just past that value.
pub fn skip_value(bytes: &[u8], pos: usize) -> (r: Result<usize, Error>)
    ensures
        match r {
            Ok(n) => parse_at(bytes@, pos as int) is Ok && parse_at(bytes@, pos as int)->Ok_0.1
                == n as int,
            Err(e) => parse_at(bytes@, pos as int) == Err::<(SpecValue, int), Error>(e),
        },
{
    match decode_value_at(bytes, pos) {
        Err(e) => Err(e),
        Ok((_, n)) => Ok(n),
    }
}

/// A cursor over a byte buffer, consuming bencode tokens from the front.
pub struct Deserializer {
    pub bytes: Vec<u8>,
    pub index: usize,
}

impl Deserializer {
    /// The cursor stands inside (or just past) the buffer.
    pub open spec fn wf(&self) -> bool {
        self.index <= self.bytes@.len()
    }

    /// Create a new deserializer over `bytes`.
    pub fn from_bytes(bytes: Vec<u8>) -> (r: Self)
        ensures
            r.bytes@ == bytes@,
            r.index == 0,
            r.wf(),
    {
        Deserializer { bytes, index: 0 }
    }

    /// The next byte, advancing past it; `UnexpectedEnd` at the end.
    pub fn next_byte(&mut self) -> (r: Result<u8, Error>)
        requires
            old(self).wf(),
        ensures
            final(self).bytes@ == old(self).bytes@,
            final(self).wf(),
            match r {
                Ok(b) => old(self).index < old(self).bytes@.len() && b == old(self).bytes@[old(
                    self,
                ).index as int] && final(self).index == old(self).index + 1,
                Err(e) => old(self).index == old(self).bytes@.len() && e
                    == Error::UnexpectedEnd && final(self).index == old(self).index,
            },
    {
        if self.index < self.bytes.len() {
            let b = self.bytes[self.index];
            self.index = self.index + 1;
            Ok(b)
        } else {
            Err(Error::UnexpectedEnd)
        }
    }

    /// The next byte without advancing.
    pub fn peek_byte(&self) -> (r: Result<u8, Error>)
        requires
            self.wf(),
        ensures
            match r {
                Ok(b) => self.index < self.bytes@.len() && b == self.bytes@[self.index as int],
                Err(e) => self.index == self.bytes@.len() && e == Error::UnexpectedEnd,
            },
    {
        if self.index < self.bytes.len() {
            Ok(self.bytes[self.index])
        } else {
            Err(Error::UnexpectedEnd)
        }
    }

    /// Advance the cursor by one byte.
    pub fn advance(&mut self)
        requires
            old(self).index < old(self).bytes@.len(),
        ensures
            final(self).bytes@ == old(self).bytes@,
            final(self).index == old(self).index + 1,
            final(self).wf(),
    {
        proof {
            assert(self.bytes@.len() == self.bytes.len());
        }
        self.index = self.index + 1;
    }

    /// Check that the whole buffer was consumed.
    pub fn finish(&self) -> (r: Result<(), Error>)
        ensures
            match r {
                Ok(()) => self.index >= self.bytes@.len(),
                Err(e) => self.index < self.bytes@.len() && e == Error::TrailingBytes,
            },
    {
        if self.bytes.len() > self.index {
            Err(Error::TrailingBytes)
        } else {
            Ok(())
        }
    }

    /// Parse one whole value at the cursor and advance past it.
    pub fn parse_value(&mut self) -> (r: Result<Value, Error>)
        requires
            old(self).wf(),
        ensures
            final(self).bytes@ == old(self).bytes@,
            final(self).wf(),
            match r {
                Ok(v) => parse_at(old(self).bytes@, old(self).index as int) == Ok::<
                    (SpecValue, int),
                    Error,
                >((v@, final(self).index as int)) && v.wf(),
                Err(e) => parse_at(old(self).bytes@, old(self).index as int) == Err::<
                    (SpecValue, int),
                    Error,
                >(e) && final(self).index == old(self).index,
            },
    {
        match decode_value_at(self.bytes.as_slice(), self.index) {
            Err(e) => Err(e),
            Ok((v, n)) => {
                proof {
                    lemma_parse_bounds(self.bytes@, self.index as int);
                }
                self.index = n;
                Ok(v)
            }
        }
    }

    /// Parse a byte string (length, `:`, payload) at the cursor.
    pub fn parse_byte_string(&mut self) -> (r: Result<ByteString, Error>)
        requires
            old(self).wf(),
        ensures
            final(self).bytes@ == old(self).bytes@,
            final(self).wf(),
            match r {
                Ok(b) => old(self).index < old(self).bytes@.len() && is_digit(
                    old(self).bytes@[old(self).index as int],
                ) && parse_string_at(old(self).bytes@, old(self).index as int) == Ok::<
                    (Seq<u8>, int),
                    Error,
                >((b@, final(self).index as int)),
                Err(e) => final(self).index == old(self).index && if old(self).index >= old(
                    self,
                ).bytes@.len() {
                    e == Error::UnexpectedEnd
                } else if !is_digit(old(self).bytes@[old(self).index as int]) {
                    e == (Error::UnexpectedToken {
                        found: old(self).bytes@[old(self).index as int],
                        index: old(self).index,
                    })
                } else {
                    parse_string_at(old(self).bytes@, old(self).index as int) == Err::<
                        (Seq<u8>, int),
                        Error,
                    >(e)
                },
            },
    {
        if self.index >= self.bytes.len() {
            return Err(Error::UnexpectedEnd);
        }
        let c = self.bytes[self.index];
        if c < 48 || c > 57 {
            return Err(Error::UnexpectedToken { found: c, index: self.index });
        }
        match decode_string_at(self.bytes.as_slice(), self.index) {
            Err(e) => Err(e),
            Ok((b, n)) => {
                proof {
                    lemma_parse_string_bounds(self.bytes@, self.index as int);
                }
                self.index = n;
                Ok(b)
            }
        }
    }

    /// Parse the digits and closing `e` of an integer at the cursor; the
    /// caller has already consumed the opening `i`.
    pub fn parse_integer(&mut self) -> (r: Result<Integer, Error>)
        requires
            old(self).wf(),
        ensures
            final(self).bytes@ == old(self).bytes@,
            final(self).wf(),
            match r {
                Ok(n) => parse_int_body(old(self).bytes@, old(self).index as int) == Ok::<
                    (int, int),
                    Error,
                >((n@, final(self).index as int)) && n.wf(),
                Err(e) => parse_int_body(old(self).bytes@, old(self).index as int) == Err::<
                    (int, int),
                    Error,
                >(e) && final(self).index == old(self).index,
            },
    {
        match decode_int_body(self.bytes.as_slice(), self.index) {
            Err(e) => Err(e),
            Ok((n, p2)) => {
                proof {
                    lemma_parse_int_bounds(self.bytes@, self.index as int);
                }
                self.index = p2;
                Ok(n)
            }
        }
    }
}

/// Bounds for `parse_items` and `parse_pairs`.
pub proof fn lemma_parse_seq_bounds(s: Seq<u8>, pos: int)
    ensures
        parse_items(s, pos) matches Ok((_, p2)) ==> pos < p2 <= s.len(),
        parse_pairs(s, pos) matches Ok((_, p2)) ==> pos < p2 <= s.len(),
    decreases s.len() - pos, 4int,
{
    if 0 <= pos < s.len() && s[pos] != 101 {
        // The list path: a value, then the remaining items.
        lemma_parse_bounds(s, pos);
        match parse_at(s, pos) {
            Ok((_, p2)) => lemma_parse_seq_bounds(s, p2),
            Err(_) => (),
        }
        // The dictionary path: a key, a value, then the remaining pairs.
        if is_digit(s[pos]) {
            lemma_parse_string_bounds(s, pos);
            match parse_string_at(s, pos) {
                Ok((_, p2)) => {
                    lemma_parse_bounds(s, p2);
                    match parse_at(s, p2) {
                        Ok((_, p3)) => {
                            if p2 < p3 <= s.len() {
                                lemma_parse_seq_bounds(s, p3);
                            }
                        }
                        Err(_) => (),
                    }
                }
                Err(_) => (),
            }
        }
    }
}

} // verus!
