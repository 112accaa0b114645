//! Decimal digit strings: the ASCII representation of unsigned numbers used by
//! bencode integers and byte-string length prefixes, with the facts the codec
//! proofs need about them.

use vstd::prelude::*;

verus! {

use vstd::arithmetic::div_mod::{lemma_div_pos_is_pos, lemma_fundamental_div_mod, lemma_fundamental_div_mod_converse};

/// Is `c` an ASCII decimal digit?
pub open spec fn is_digit(c: u8) -> bool {
    48 <= c <= 57
}

/// The canonical decimal representation of `n`: most significant digit first,
/// no leading zero (a single `0` for zero itself).
pub open spec fn dec_rep(n: nat) -> Seq<u8>
    decreases n,
{
    if n < 10 {
        seq![(48 + n) as u8]
    } else {
        dec_rep(n / 10).push((48 + n % 10) as u8)
    }
}

/// The number denoted by a digit string (most significant digit first).
pub open spec fn dec_val(s: Seq<u8>) -> nat
    decreases s.len(),
{
    if s.len() == 0 {
        0
    } else {
        (dec_val(s.drop_last()) * 10 + (s.last() - 48)) as nat
    }
}

/// The position just past the run of digits starting at `pos`.
pub open spec fn digit_run_end(s: Seq<u8>, pos: int) -> int
    decreases s.len() - pos,
{
    if 0 <= pos < s.len() && is_digit(s[pos]) {
        digit_run_end(s, pos + 1)
    } else {
        pos
    }
}

/// What the digit run looks like: it stays inside the input, holds digits
/// only, and ends at the end of the input or just before a non-digit.
pub proof fn lemma_digit_run_end(s: Seq<u8>, pos: int)
    requires
        0 <= pos <= s.len(),
    ensures
        pos <= digit_run_end(s, pos) <= s.len(),
        forall|i: int| pos <= i < digit_run_end(s, pos) ==> is_digit(#[trigger] s[i]),
        digit_run_end(s, pos) == s.len() || !is_digit(s[digit_run_end(s, pos)]),
        0 <= pos < s.len() && is_digit(s[pos]) ==> digit_run_end(s, pos) > pos,
    decreases s.len() - pos,
{
    if 0 <= pos < s.len() && is_digit(s[pos]) {
        lemma_digit_run_end(s, pos + 1);
    }
}

/// A run of digits followed by the end of the input or a non-digit is exactly
/// what `digit_run_end` finds.
pub proof fn lemma_digit_run_end_exact(s: Seq<u8>, pos: int, end: int)
    requires
        0 <= pos <= end <= s.len(),
        forall|i: int| pos <= i < end ==> is_digit(#[trigger] s[i]),
        end == s.len() || !is_digit(s[end]),
    ensures
        digit_run_end(s, pos) == end,
    decreases end - pos,
{
    if pos < end {
        lemma_digit_run_end_exact(s, pos + 1, end);
    }
}

/// Ten to the `k`.
pub open spec fn pow10(k: nat) -> nat
    decreases k,
{
    if k == 0 {
        1
    } else {
        10 * pow10((k - 1) as nat)
    }
}

/// `dec_rep` really denotes `n`, consists of digits only, is non-empty, and
/// has no leading zero unless it is the single digit `0`.
pub proof fn lemma_dec_rep(n: nat)
    ensures
        dec_val(dec_rep(n)) == n,
        dec_rep(n).len() >= 1,
        forall|i: int| 0 <= i < dec_rep(n).len() ==> is_digit(#[trigger] dec_rep(n)[i]),
        dec_rep(n)[0] == 48 <==> n == 0,
        n == 0 ==> dec_rep(n).len() == 1,
    decreases n,
{
    if n < 10 {
        assert(dec_rep(n) == seq![(48 + n) as u8]);
        assert(dec_val(dec_rep(n)) == dec_val(seq![(48 + n) as u8]));
        assert(seq![(48 + n) as u8].drop_last() == Seq::<u8>::empty());
        assert(dec_val(Seq::<u8>::empty()) == 0);
    } else {
        lemma_dec_rep(n / 10);
        lemma_fundamental_div_mod(n as int, 10);
        let s = dec_rep(n);
        assert(s == dec_rep(n / 10).push((48 + n % 10) as u8));
        assert(s.drop_last() == dec_rep(n / 10));
        assert(s.last() == (48 + n % 10) as u8);
        lemma_div_pos_is_pos(n as int, 10);
        assert(s[0] == dec_rep(n / 10)[0]);
    }
}

/// A digit string without a leading zero denotes at least `pow10(len - 1)`.
pub proof fn lemma_dec_val_lower(s: Seq<u8>)
    requires
        forall|i: int| 0 <= i < s.len() ==> is_digit(#[trigger] s[i]),
        s.len() >= 1,
        s[0] != 48,
    ensures
        dec_val(s) >= pow10((s.len() - 1) as nat),
    decreases s.len(),
{
    if s.len() == 1 {
        assert(s.drop_last() == Seq::<u8>::empty());
        assert(dec_val(s) == (s[0] - 48) as nat);
    } else {
        lemma_dec_val_lower(s.drop_last());
        assert(s.drop_last()[0] == s[0]);
        vstd::arithmetic::mul::lemma_mul_inequality(
            pow10((s.len() - 2) as nat) as int,
            dec_val(s.drop_last()) as int,
            10,
        );
    }
}

/// A digit string with no leading zero is the canonical representation of
/// its value.
pub proof fn lemma_dec_rep_canon(s: Seq<u8>)
    requires
        forall|i: int| 0 <= i < s.len() ==> is_digit(#[trigger] s[i]),
        s.len() >= 1,
        s.len() == 1 || s[0] != 48,
    ensures
        dec_rep(dec_val(s)) == s,
    decreases s.len(),
{
    let v = dec_val(s);
    let d = (s.last() - 48) as nat;
    if s.len() == 1 {
        assert(s.drop_last() == Seq::<u8>::empty());
        assert(dec_val(Seq::<u8>::empty()) == 0);
        assert(v == d && v < 10);
        assert(dec_rep(v) =~= s);
    } else {
        let dl = s.drop_last();
        lemma_dec_val_lower(s);
        lemma_pow10_monotone(1, (s.len() - 1) as nat);
        assert(pow10(0) == 1);
        assert(pow10(1) == 10);
        assert(v >= 10);
        assert(v == dec_val(dl) * 10 + d);
        lemma_fundamental_div_mod_converse(v as int, 10, dec_val(dl) as int, d as int);
        assert(v / 10 == dec_val(dl) && v % 10 == d);
        lemma_dec_rep_canon(dl);
        assert(dec_rep(v) == dec_rep(dec_val(dl)).push((48 + d) as u8));
        assert((48 + d) as u8 == s.last());
        assert(dl.push(s.last()) =~= s);
    }
}

/// `pow10` is positive.
pub proof fn lemma_pow10_pos(k: nat)
    ensures
        pow10(k) >= 1,
    decreases k,
{
    if k > 0 {
        lemma_pow10_pos((k - 1) as nat);
    }
}

/// `pow10` is monotone.
pub proof fn lemma_pow10_monotone(j: nat, k: nat)
    requires
        j <= k,
    ensures
        pow10(j) <= pow10(k),
    decreases k,
{
    if j < k {
        lemma_pow10_monotone(j, (k - 1) as nat);
        lemma_pow10_pos((k - 1) as nat);
    }
}

/// The canonical decimal digits of `n`, as ASCII bytes.
pub fn u64_to_decimal(n: u64) -> (r: Vec<u8>)
    ensures
        r@ == dec_rep(n as nat),
    decreases n,
{
    if n < 10 {
        let mut v: Vec<u8> = Vec::new();
        v.push(48 + n as u8);
        v
    } else {
        let mut v = u64_to_decimal(n / 10);
        v.push(48 + (n % 10) as u8);
        v
    }
}

} // verus!
