//! The round-trip laws of the bencode codec.
//!
//! - Decoding an encoded value gives the value back.
//! - Whatever the decoder accepts re-encodes to exactly the bytes it
//!   consumed.

use vstd::prelude::*;

verus! {

use crate::digits::{
    dec_rep, dec_val, digit_run_end, is_digit, lemma_dec_rep, lemma_dec_rep_canon,
    lemma_digit_run_end, lemma_digit_run_end_exact,
};
use crate::decode::{
    parse_at, parse_int_body, parse_items, parse_pairs, parse_string_at, spec_decode,
    lemma_parse_bounds, lemma_parse_int_bounds, lemma_parse_seq_bounds,
    lemma_parse_string_bounds,
};
use crate::encode::{
    spec_encode, spec_encode_bytes, spec_encode_items, spec_encode_pairs, spec_int_rep,
};
use crate::error::Error;
use crate::value::{SpecValue, int_max, int_min};

/// If a slice of `s` equals `e`, each byte of `e` stands at its offset in `s`.
proof fn lemma_bytes_at(s: Seq<u8>, pos: int, e: Seq<u8>, j: int)
    requires
        0 <= pos,
        pos + e.len() <= s.len(),
        s.subrange(pos, pos + e.len() as int) == e,
        0 <= j < e.len(),
    ensures
        s[pos + j] == e[j],
{
    assert(s.subrange(pos, pos + e.len() as int)[j] == s[pos + j]);
}

/// An encoded value is at least two bytes long and starts with `i`, `l`, `d`
/// or a digit — never with `e`, `:` or `-`.
pub proof fn lemma_encode_first_byte(v: SpecValue)
    ensures
        spec_encode(v).len() >= 2,
        is_digit(spec_encode(v)[0]) || spec_encode(v)[0] == 105 || spec_encode(v)[0] == 108
            || spec_encode(v)[0] == 100,
{
    match v {
        SpecValue::Bytes(b) => {
            lemma_dec_rep(b.len());
            assert(spec_encode(v)[0] == dec_rep(b.len())[0]);
        }
        SpecValue::Int(_) => {}
        SpecValue::List(_) => {}
        SpecValue::Dict(_) => {}
    }
}

/// Parsing at the start of an encoded byte string yields exactly that byte
/// string and consumes exactly its encoding.
pub proof fn lemma_parse_string_encoded(b: Seq<u8>, s: Seq<u8>, pos: int)
    requires
        0 <= pos,
        pos + spec_encode_bytes(b).len() <= s.len(),
        s.subrange(pos, pos + spec_encode_bytes(b).len() as int) == spec_encode_bytes(b),
    ensures
        parse_string_at(s, pos) == Ok::<(Seq<u8>, int), Error>(
            (b, pos + spec_encode_bytes(b).len()),
        ),
{
    let e = spec_encode_bytes(b);
    let rep = dec_rep(b.len());
    let dl = rep.len() as int;
    lemma_dec_rep(b.len());
    // The digit run is exactly the length prefix.
    assert forall|i: int| pos <= i < pos + dl implies is_digit(#[trigger] s[i]) by {
        lemma_bytes_at(s, pos, e, i - pos);
    }
    lemma_bytes_at(s, pos, e, dl);
    assert(s[pos + dl] == 58);
    lemma_digit_run_end_exact(s, pos, pos + dl);
    let end = digit_run_end(s, pos);
    assert(end == pos + dl);
    // No leading-zero complaint: a leading zero means the length is zero and
    // the run is a single digit.
    lemma_bytes_at(s, pos, e, 0);
    assert(s[pos] == rep[0]);
    if s[pos] == 48 {
        assert(b.len() == 0);
        assert(dl == 1);
    }
    // The denoted length is the payload length.
    assert(s.subrange(pos, end) =~= rep) by {
        assert forall|j: int| 0 <= j < dl implies s.subrange(pos, end)[j] == rep[j] by {
            lemma_bytes_at(s, pos, e, j);
        }
    }
    assert(dec_val(s.subrange(pos, end)) == b.len());
    // The payload is b.
    assert(s.subrange(end + 1, end + 1 + b.len() as int) =~= b) by {
        assert forall|j: int| 0 <= j < b.len() implies s.subrange(
            end + 1,
            end + 1 + b.len() as int,
        )[j] == b[j] by {
            lemma_bytes_at(s, pos, e, dl + 1 + j);
        }
    }
}

/// Parsing the body of an encoded integer (digits and closing `e`) yields
/// exactly that integer.
pub proof fn lemma_parse_int_encoded(i: int, s: Seq<u8>, pos: int)
    requires
        int_min() <= i <= int_max(),
        0 <= pos,
        pos + spec_int_rep(i).len() + 1 <= s.len(),
        s.subrange(pos, pos + spec_int_rep(i).len() + 1) == spec_int_rep(i) + seq![101u8],
    ensures
        parse_int_body(s, pos) == Ok::<(int, int), Error>((i, pos + spec_int_rep(i).len() + 1)),
{
    let rep = spec_int_rep(i);
    let rl = rep.len() as int;
    let e = rep + seq![101u8];
    lemma_bytes_at(s, pos, e, rl);
    assert(s[pos + rl] == 101);
    lemma_bytes_at(s, pos, e, 0);
    assert(s[pos] == rep[0]);
    if i >= 0 {
        let mag = i as nat;
        lemma_dec_rep(mag);
        assert(rep == dec_rep(mag));
        assert(is_digit(s[pos]));
        if i == 0 {
            assert(rl == 1);
            assert(s[pos] == 48);
            lemma_bytes_at(s, pos, e, 1);
            assert(s[pos + 1] == 101);
        } else {
            assert(s[pos] != 48);
            assert forall|k: int| pos <= k < pos + rl implies is_digit(#[trigger] s[k]) by {
                lemma_bytes_at(s, pos, e, k - pos);
            }
            lemma_digit_run_end_exact(s, pos, pos + rl);
            assert(s.subrange(pos, pos + rl) =~= rep) by {
                assert forall|j: int| 0 <= j < rl implies s.subrange(pos, pos + rl)[j] == rep[j]
                by {
                    lemma_bytes_at(s, pos, e, j);
                }
            }
            assert(dec_val(s.subrange(pos, pos + rl)) == mag);
        }
    } else {
        let mag = (-i) as nat;
        lemma_dec_rep(mag);
        assert(rep == seq![45u8] + dec_rep(mag));
        assert(s[pos] == 45);
        let dpos = pos + 1;
        lemma_bytes_at(s, pos, e, 1);
        assert(s[dpos] == dec_rep(mag)[0]);
        assert(is_digit(s[dpos]));
        assert(s[dpos] != 48);
        assert forall|k: int| dpos <= k < pos + rl implies is_digit(#[trigger] s[k]) by {
            lemma_bytes_at(s, pos, e, k - pos);
            assert(e[k - pos] == dec_rep(mag)[k - dpos]);
        }
        lemma_digit_run_end_exact(s, dpos, pos + rl);
        assert(s.subrange(dpos, pos + rl) =~= dec_rep(mag)) by {
            assert forall|j: int| 0 <= j < rl - 1 implies s.subrange(dpos, pos + rl)[j]
                == dec_rep(mag)[j] by {
                lemma_bytes_at(s, pos, e, j + 1);
            }
        }
        assert(dec_val(s.subrange(dpos, pos + rl)) == mag);
    }
}

/// Parsing at the start of an encoded value yields exactly that value and
/// consumes exactly its encoding.
pub proof fn lemma_parse_encoded(v: SpecValue, s: Seq<u8>, pos: int)
    requires
        v.wf(),
        0 <= pos,
        pos + spec_encode(v).len() <= s.len(),
        s.subrange(pos, pos + spec_encode(v).len() as int) == spec_encode(v),
    ensures
        parse_at(s, pos) == Ok::<(SpecValue, int), Error>((v, pos + spec_encode(v).len())),
    decreases v,
{
    let e = spec_encode(v);
    let el = e.len() as int;
    lemma_encode_first_byte(v);
    lemma_bytes_at(s, pos, e, 0);
    match v {
        SpecValue::Bytes(b) => {
            lemma_dec_rep(b.len());
            assert(s[pos] == dec_rep(b.len())[0]);
            lemma_parse_string_encoded(b, s, pos);
        }
        SpecValue::Int(i) => {
            assert(s[pos] == 105);
            assert(s.subrange(pos + 1, pos + el) =~= spec_int_rep(i) + seq![101u8]) by {
                assert forall|j: int| 0 <= j < el - 1 implies s.subrange(pos + 1, pos + el)[j]
                    == (spec_int_rep(i) + seq![101u8])[j] by {
                    lemma_bytes_at(s, pos, e, j + 1);
                }
            }
            lemma_parse_int_encoded(i, s, pos + 1);
        }
        SpecValue::List(l) => {
            assert(s[pos] == 108);
            lemma_bytes_at(s, pos, e, el - 1);
            assert(s[pos + el - 1] == 101);
            assert(s.subrange(pos + 1, pos + el - 1) =~= spec_encode_items(l)) by {
                assert forall|j: int| 0 <= j < el - 2 implies s.subrange(pos + 1, pos + el - 1)[j]
                    == spec_encode_items(l)[j] by {
                    lemma_bytes_at(s, pos, e, j + 1);
                }
            }
            assert(forall|i: int| 0 <= i < l.len() ==> (#[trigger] l[i]).wf()) by {
                assert(SpecValue::List(l).wf());
            }
            lemma_parse_encoded_items(l, s, pos + 1);
        }
        SpecValue::Dict(d) => {
            assert(s[pos] == 100);
            lemma_bytes_at(s, pos, e, el - 1);
            assert(s[pos + el - 1] == 101);
            assert(s.subrange(pos + 1, pos + el - 1) =~= spec_encode_pairs(d)) by {
                assert forall|j: int| 0 <= j < el - 2 implies s.subrange(pos + 1, pos + el - 1)[j]
                    == spec_encode_pairs(d)[j] by {
                    lemma_bytes_at(s, pos, e, j + 1);
                }
            }
            assert(forall|i: int| 0 <= i < d.len() ==> (#[trigger] d[i]).1.wf()) by {
                assert(SpecValue::Dict(d).wf());
            }
            lemma_parse_encoded_pairs(d, s, pos + 1);
        }
    }
}

/// Parsing encoded list elements followed by `e` yields exactly those
/// elements.
pub proof fn lemma_parse_encoded_items(l: Seq<SpecValue>, s: Seq<u8>, pos: int)
    requires
        forall|i: int| 0 <= i < l.len() ==> (#[trigger] l[i]).wf(),
        0 <= pos,
        pos + spec_encode_items(l).len() + 1 <= s.len(),
        s.subrange(pos, pos + spec_encode_items(l).len() as int) == spec_encode_items(l),
        s[pos + spec_encode_items(l).len()] == 101,
    ensures
        parse_items(s, pos) == Ok::<(Seq<SpecValue>, int), Error>(
            (l, pos + spec_encode_items(l).len() + 1),
        ),
    decreases l,
{
    let ei = spec_encode_items(l);
    let il = ei.len() as int;
    if l.len() == 0 {
        assert(l =~= Seq::<SpecValue>::empty());
        assert(s[pos] == 101);
    } else {
        let e0 = spec_encode(l[0]);
        let e0l = e0.len() as int;
        let tail = l.subrange(1, l.len() as int);
        let et = spec_encode_items(tail);
        assert(ei == e0 + et);
        lemma_encode_first_byte(l[0]);
        lemma_bytes_at(s, pos, ei, 0);
        assert(s[pos] == e0[0]);
        assert(s[pos] != 101);
        assert(s.subrange(pos, pos + e0l) =~= e0) by {
            assert forall|j: int| 0 <= j < e0l implies s.subrange(pos, pos + e0l)[j] == e0[j] by {
                lemma_bytes_at(s, pos, ei, j);
            }
        }
        lemma_parse_encoded(l[0], s, pos);
        assert forall|i: int| 0 <= i < tail.len() implies (#[trigger] tail[i]).wf() by {
            assert(tail[i] == l[i + 1]);
        }
        assert(s.subrange(pos + e0l, pos + il) =~= et) by {
            assert forall|j: int| 0 <= j < il - e0l implies s.subrange(pos + e0l, pos + il)[j]
                == et[j] by {
                lemma_bytes_at(s, pos, ei, e0l + j);
            }
        }
        lemma_parse_encoded_items(tail, s, pos + e0l);
        assert(seq![l[0]] + tail =~= l);
    }
}

/// Parsing encoded dictionary pairs followed by `e` yields exactly those
/// pairs.
pub proof fn lemma_parse_encoded_pairs(d: Seq<(Seq<u8>, SpecValue)>, s: Seq<u8>, pos: int)
    requires
        forall|i: int| 0 <= i < d.len() ==> (#[trigger] d[i]).1.wf(),
        0 <= pos,
        pos + spec_encode_pairs(d).len() + 1 <= s.len(),
        s.subrange(pos, pos + spec_encode_pairs(d).len() as int) == spec_encode_pairs(d),
        s[pos + spec_encode_pairs(d).len()] == 101,
    ensures
        parse_pairs(s, pos) == Ok::<(Seq<(Seq<u8>, SpecValue)>, int), Error>(
            (d, pos + spec_encode_pairs(d).len() + 1),
        ),
    decreases d,
{
    let ep = spec_encode_pairs(d);
    let pl = ep.len() as int;
    if d.len() == 0 {
        assert(d =~= Seq::<(Seq<u8>, SpecValue)>::empty());
        assert(s[pos] == 101);
    } else {
        let k = d[0].0;
        let v0 = d[0].1;
        let ek = spec_encode_bytes(k);
        let ekl = ek.len() as int;
        let ev = spec_encode(v0);
        let evl = ev.len() as int;
        let tail = d.subrange(1, d.len() as int);
        let et = spec_encode_pairs(tail);
        assert(ep == ek + ev + et);
        lemma_dec_rep(k.len());
        lemma_bytes_at(s, pos, ep, 0);
        assert(ep[0] == ek[0]);
        assert(ek[0] == dec_rep(k.len())[0]);
        assert(is_digit(s[pos]));
        assert(s[pos] != 101);
        assert(s.subrange(pos, pos + ekl) =~= ek) by {
            assert forall|j: int| 0 <= j < ekl implies s.subrange(pos, pos + ekl)[j] == ek[j] by {
                lemma_bytes_at(s, pos, ep, j);
            }
        }
        lemma_parse_string_encoded(k, s, pos);
        assert(s.subrange(pos + ekl, pos + ekl + evl) =~= ev) by {
            assert forall|j: int| 0 <= j < evl implies s.subrange(pos + ekl, pos + ekl + evl)[j]
                == ev[j] by {
                lemma_bytes_at(s, pos, ep, ekl + j);
                assert(ep[ekl + j] == (ek + ev)[ekl + j]);
            }
        }
        lemma_parse_encoded(v0, s, pos + ekl);
        assert forall|i: int| 0 <= i < tail.len() implies (#[trigger] tail[i]).1.wf() by {
            assert(tail[i] == d[i + 1]);
        }
        assert(s.subrange(pos + ekl + evl, pos + pl) =~= et) by {
            assert forall|j: int| 0 <= j < pl - ekl - evl implies s.subrange(
                pos + ekl + evl,
                pos + pl,
            )[j] == et[j] by {
                lemma_bytes_at(s, pos, ep, ekl + evl + j);
            }
        }
        lemma_parse_encoded_pairs(tail, s, pos + ekl + evl);
        assert(seq![(k, v0)] + tail =~= d);
    }
}

/// An accepted integer body re-encodes to exactly the bytes consumed.
pub proof fn lemma_parse_int_exact(s: Seq<u8>, pos: int)
    ensures
        parse_int_body(s, pos) matches Ok((n, p2)) ==> int_min() <= n <= int_max()
            && spec_int_rep(n) + seq![101u8] == s.subrange(pos, p2),
{
    if parse_int_body(s, pos) is Ok {
        let (n, p2) = parse_int_body(s, pos)->Ok_0;
        let neg = s[pos] == 45;
        let dpos = if neg { pos + 1 } else { pos };
        if s[dpos] == 48 {
            // The literal zero, consumed as `0e`.
            assert(n == 0 && p2 == dpos + 2);
            assert(spec_int_rep(0) == dec_rep(0));
            assert(dec_rep(0) =~= seq![48u8]);
            assert(spec_int_rep(0) + seq![101u8] =~= s.subrange(pos, p2));
        } else {
            let end = digit_run_end(s, dpos);
            lemma_digit_run_end(s, dpos);
            let ds = s.subrange(dpos, end);
            assert(forall|j: int| 0 <= j < ds.len() ==> is_digit(#[trigger] ds[j]));
            assert(ds[0] == s[dpos]);
            lemma_dec_rep_canon(ds);
            let mag = dec_val(ds);
            assert(dec_rep(mag) == ds);
            if neg {
                lemma_dec_rep(mag);
                assert(mag != 0);
                assert(n == -(mag as int) && p2 == end + 1);
                assert(spec_int_rep(n) == seq![45u8] + dec_rep(mag));
                assert(spec_int_rep(n) + seq![101u8] =~= s.subrange(pos, p2));
            } else {
                assert(n == mag as int && p2 == end + 1);
                assert(spec_int_rep(n) == dec_rep(mag));
                assert(spec_int_rep(n) + seq![101u8] =~= s.subrange(pos, p2));
            }
        }
    }
}

/// An accepted byte string re-encodes to exactly the bytes consumed.
pub proof fn lemma_parse_string_exact(s: Seq<u8>, pos: int)
    requires
        0 <= pos < s.len(),
        is_digit(s[pos]),
    ensures
        parse_string_at(s, pos) matches Ok((b, p2)) ==> spec_encode_bytes(b) == s.subrange(
            pos,
            p2,
        ),
{
    if parse_string_at(s, pos) is Ok {
        let (b, p2) = parse_string_at(s, pos)->Ok_0;
        let end = digit_run_end(s, pos);
        lemma_digit_run_end(s, pos);
        let ds = s.subrange(pos, end);
        assert(forall|j: int| 0 <= j < ds.len() ==> is_digit(#[trigger] ds[j]));
        assert(ds[0] == s[pos]);
        assert(ds.len() >= 1);
        lemma_dec_rep_canon(ds);
        let len = dec_val(ds);
        assert(dec_rep(len) == ds);
        assert(b == s.subrange(end + 1, end + 1 + len as int));
        assert(b.len() == len);
        assert(s[end] == 58);
        assert(spec_encode_bytes(b) == dec_rep(len) + seq![58u8] + b);
        assert(spec_encode_bytes(b) =~= s.subrange(pos, p2));
    }
}

/// A tag byte followed by a body that fills the rest of the range is the
/// whole range.
proof fn lemma_wrap_exact(s: Seq<u8>, pos: int, p2: int, tag: u8, body: Seq<u8>)
    requires
        0 <= pos < p2 <= s.len(),
        s[pos] == tag,
        p2 - pos == 1 + body.len(),
        s.subrange(pos + 1, p2) == body,
    ensures
        seq![tag] + body == s.subrange(pos, p2),
{
    assert forall|j: int| 0 <= j < p2 - pos implies s.subrange(pos, p2)[j] == (seq![tag]
        + body)[j] by {
        assert(s.subrange(pos, p2)[j] == s[pos + j]);
        if j > 0 {
            assert(s.subrange(pos + 1, p2)[j - 1] == s[pos + j]);
            assert((seq![tag] + body)[j] == body[j - 1]);
        }
    }
    assert(seq![tag] + body =~= s.subrange(pos, p2));
}

/// An accepted value is well formed and re-encodes to exactly the bytes
/// consumed.
pub proof fn lemma_parse_exact(s: Seq<u8>, pos: int)
    ensures
        parse_at(s, pos) matches Ok((v, p2)) ==> v.wf() && spec_encode(v) == s.subrange(pos, p2),
    decreases s.len() - pos, 3int,
{
    if 0 <= pos < s.len() && parse_at(s, pos) is Ok {
        let (v, p2) = parse_at(s, pos)->Ok_0;
        if s[pos] == 105 {
            lemma_parse_int_bounds(s, pos + 1);
            lemma_parse_int_exact(s, pos + 1);
            let (n, p3) = parse_int_body(s, pos + 1)->Ok_0;
            let body = spec_int_rep(n) + seq![101u8];
            lemma_wrap_exact(s, pos, p2, 105u8, body);
            assert(spec_encode(v) =~= seq![105u8] + body);
        } else if is_digit(s[pos]) {
            lemma_parse_string_exact(s, pos);
        } else if s[pos] == 108 || s[pos] == 100 {
            lemma_parse_seq_bounds(s, pos + 1);
            lemma_parse_exact_seq(s, pos + 1);
            if s[pos] == 108 {
                let (l, p3) = parse_items(s, pos + 1)->Ok_0;
                let body = spec_encode_items(l) + seq![101u8];
                lemma_wrap_exact(s, pos, p2, 108u8, body);
                assert(spec_encode(v) =~= seq![108u8] + body);
            } else {
                let (d, p3) = parse_pairs(s, pos + 1)->Ok_0;
                let body = spec_encode_pairs(d) + seq![101u8];
                lemma_wrap_exact(s, pos, p2, 100u8, body);
                assert(spec_encode(v) =~= seq![100u8] + body);
            }
        }
    }
}

/// Accepted list elements or dictionary pairs, with their closing `e`,
/// re-encode to exactly the bytes consumed.
pub proof fn lemma_parse_exact_seq(s: Seq<u8>, pos: int)
    ensures
        parse_items(s, pos) matches Ok((l, p2)) ==> (forall|i: int|
            0 <= i < l.len() ==> (#[trigger] l[i]).wf()) && spec_encode_items(l) + seq![101u8]
            == s.subrange(pos, p2),
        parse_pairs(s, pos) matches Ok((d, p2)) ==> (forall|i: int|
            0 <= i < d.len() ==> (#[trigger] d[i]).1.wf()) && spec_encode_pairs(d) + seq![101u8]
            == s.subrange(pos, p2),
    decreases s.len() - pos, 4int,
{
    if 0 <= pos < s.len() {
        if s[pos] == 101 {
            assert(parse_items(s, pos) == Ok::<(Seq<SpecValue>, int), Error>(
                (Seq::empty(), pos + 1),
            ));
            assert(spec_encode_items(Seq::<SpecValue>::empty()) + seq![101u8] =~= s.subrange(
                pos,
                pos + 1,
            ));
            assert(spec_encode_pairs(Seq::<(Seq<u8>, SpecValue)>::empty()) + seq![101u8]
                =~= s.subrange(pos, pos + 1));
        } else {
            // The list path.
            lemma_parse_bounds(s, pos);
            lemma_parse_exact(s, pos);
            if parse_items(s, pos) is Ok {
                let (v, p2) = parse_at(s, pos)->Ok_0;
                lemma_parse_seq_bounds(s, p2);
                lemma_parse_exact_seq(s, p2);
                let (rest, p3) = parse_items(s, p2)->Ok_0;
                let l = seq![v] + rest;
                assert forall|i: int| 0 <= i < l.len() implies (#[trigger] l[i]).wf() by {
                    if i > 0 {
                        assert(l[i] == rest[i - 1]);
                    }
                }
                assert(spec_encode_items(l) == spec_encode(v) + spec_encode_items(rest)) by {
                    assert(l[0] == v);
                    assert(l.subrange(1, l.len() as int) =~= rest);
                }
                assert(spec_encode_items(l) + seq![101u8] =~= s.subrange(pos, p3)) by {
                    assert(s.subrange(pos, p3) =~= s.subrange(pos, p2) + s.subrange(p2, p3));
                }
            }
            // The dictionary path.
            if is_digit(s[pos]) && parse_pairs(s, pos) is Ok {
                lemma_parse_string_bounds(s, pos);
                lemma_parse_string_exact(s, pos);
                let (k, p2) = parse_string_at(s, pos)->Ok_0;
                lemma_parse_bounds(s, p2);
                lemma_parse_exact(s, p2);
                let (v, p3) = parse_at(s, p2)->Ok_0;
                lemma_parse_seq_bounds(s, p3);
                lemma_parse_exact_seq(s, p3);
                let (rest, p4) = parse_pairs(s, p3)->Ok_0;
                let d = seq![(k, v)] + rest;
                assert forall|i: int| 0 <= i < d.len() implies (#[trigger] d[i]).1.wf() by {
                    if i > 0 {
                        assert(d[i] == rest[i - 1]);
                    }
                }
                assert(spec_encode_pairs(d) == spec_encode_bytes(k) + spec_encode(v)
                    + spec_encode_pairs(rest)) by {
                    assert(d[0] == (k, v));
                    assert(d.subrange(1, d.len() as int) =~= rest);
                }
                assert(spec_encode_pairs(d) + seq![101u8] =~= s.subrange(pos, p4)) by {
                    assert(s.subrange(pos, p4) =~= s.subrange(pos, p2) + s.subrange(p2, p3)
                        + s.subrange(p3, p4));
                }
            }
        }
    }
}

/// What the decoder accepts re-encodes byte for byte: decoding then encoding
/// reproduces a decodable input exactly.
pub proof fn lemma_encode_decode(s: Seq<u8>)
    ensures
        spec_decode(s) matches Ok(v) ==> v.wf() && spec_encode(v) == s,
{
    lemma_parse_exact(s, 0);
    if spec_decode(s) is Ok {
        assert(s.subrange(0, s.len() as int) =~= s);
    }
}

/// Decoding an encoded well-formed value gives exactly the value back, with
/// nothing left over.
pub proof fn lemma_decode_encode(v: SpecValue)
    requires
        v.wf(),
    ensures
        spec_decode(spec_encode(v)) == Ok::<SpecValue, Error>(v),
{
    let s = spec_encode(v);
    assert(s.subrange(0, s.len() as int) =~= s);
    lemma_parse_encoded(v, s, 0);
}

} // verus!
