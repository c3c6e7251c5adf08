//! Decimal numerals on the wire: ASCII digit runs and their values.

use vstd::prelude::*;

verus! {

/// The ASCII digit byte for a value below ten.
pub open spec fn digit_byte(d: nat) -> u8
    recommends
        d < 10,
{
    (0x30 + d) as u8
}

/// True for the ASCII bytes `'0'` through `'9'`.
pub open spec fn is_digit_byte(b: u8) -> bool {
    0x30 <= b <= 0x39
}

/// Every byte of the run is an ASCII digit.
pub open spec fn all_digit_bytes(s: Seq<u8>) -> bool {
    forall|i: int| 0 <= i < s.len() ==> is_digit_byte(s[i])
}

/// The decimal numeral of `n`, most significant digit first; `"0"` for zero.
pub open spec fn dec_rep(n: nat) -> Seq<u8>
    decreases n,
{
    if n < 10 {
        seq![digit_byte(n)]
    } else {
        dec_rep(n / 10).push(digit_byte(n % 10))
    }
}

/// The value of a run of ASCII digits, most significant digit first.
pub open spec fn dec_val(s: Seq<u8>) -> int
    decreases s.len(),
{
    if s.len() == 0 {
        0
    } else {
        dec_val(s.drop_last()) * 10 + (s.last() - 0x30)
    }
}

/// Length of the longest prefix of `s` that consists of ASCII digits.
pub open spec fn digit_span(s: Seq<u8>) -> int
    decreases s.len(),
{
    if s.len() == 0 || !is_digit_byte(s[0]) {
        0
    } else {
        1 + digit_span(s.drop_first())
    }
}

/// A decimal numeral consists of digits only and is never empty.
pub proof fn lemma_dec_rep_digits(n: nat)
    ensures
        all_digit_bytes(dec_rep(n)),
        dec_rep(n).len() >= 1,
    decreases n,
{
    if n >= 10 {
        lemma_dec_rep_digits(n / 10);
    }
}

/// Reading the numeral of `n` back yields `n`.
pub proof fn lemma_dec_val_of_rep(n: nat)
    ensures
        dec_val(dec_rep(n)) == n,
    decreases n,
{
    if n < 10 {
        assert(dec_rep(n).drop_last() =~= Seq::<u8>::empty());
        assert(dec_val(Seq::<u8>::empty()) == 0);
        assert(dec_rep(n).last() == digit_byte(n));
    } else {
        lemma_dec_val_of_rep(n / 10);
        assert(dec_rep(n).drop_last() =~= dec_rep(n / 10));
        assert(dec_rep(n).last() == digit_byte(n % 10));
        assert(n / 10 * 10 + n % 10 == n) by {
            vstd::arithmetic::div_mod::lemma_fundamental_div_mod(n as int, 10);
        }
    }
}

/// The value of a digit run is never negative.
pub proof fn lemma_dec_val_nonneg(s: Seq<u8>)
    requires
        all_digit_bytes(s),
    ensures
        dec_val(s) >= 0,
    decreases s.len(),
{
    if s.len() > 0 {
        assert(all_digit_bytes(s.drop_last()));
        lemma_dec_val_nonneg(s.drop_last());
    }
}

/// Reading one more digit multiplies the value by ten and adds the digit.
pub proof fn lemma_dec_val_take_step(s: Seq<u8>, j: int)
    requires
        0 <= j < s.len(),
    ensures
        dec_val(s.take(j + 1)) == dec_val(s.take(j)) * 10 + (s[j] - 0x30),
{
    assert(s.take(j + 1).drop_last() =~= s.take(j));
    assert(s.take(j + 1).last() == s[j]);
}

/// Extending a digit run never shrinks its value.
pub proof fn lemma_dec_val_prefix_le(s: Seq<u8>, j: int)
    requires
        all_digit_bytes(s),
        0 <= j <= s.len(),
    ensures
        dec_val(s.take(j)) <= dec_val(s),
    decreases s.len() - j,
{
    if j == s.len() {
        assert(s.take(j) =~= s);
    } else {
        lemma_dec_val_take_step(s, j);
        assert(all_digit_bytes(s.take(j)));
        lemma_dec_val_nonneg(s.take(j));
        lemma_dec_val_prefix_le(s, j + 1);
    }
}

/// Appends the decimal numeral of `n` to `buf`.
pub fn push_dec(buf: &mut Vec<u8>, n: u64)
    ensures
        final(buf)@ == old(buf)@ + dec_rep(n as nat),
    decreases n,
{
    if n < 10 {
        buf.push(0x30 + n as u8);
        assert(buf@ =~= old(buf)@ + dec_rep(n as nat));
    } else {
        push_dec(buf, n / 10);
        buf.push(0x30 + (n % 10) as u8);
        assert(buf@ =~= old(buf)@ + dec_rep(n as nat));
    }
}

} // verus!
