//! The wire grammar: the byte-exact encoding of values, the mathematical
//! specification of frame decoding, and the laws relating the two.

use vstd::prelude::*;

use crate::digits::{all_digit_bytes, dec_rep, dec_val, digit_span, is_digit_byte};
use crate::lexi_data::{SimpleString, ValueModel};

verus! {

/// Why a decode failed.  Decoding is total and never panics: every malformed
/// or short input is classified as one of these.
#[derive(Debug, PartialEq, Eq, Clone, Copy)]
pub enum DecodeError {
    /// The leading byte of a frame is not one of the six type sigils.
    IllegalSigil,
    /// The buffer ends before the frame does.
    IncompleteFrame,
    /// A CR or LF is missing where the grammar requires one.
    UnterminatedFrame,
    /// A simple frame carries text outside the closed literal set.
    UnknownSimpleLiteral,
    /// An integer or double payload is not parseable as a number.
    InvalidNumericLiteral,
    /// A length field looks negative.
    NegativeLength,
}

/// Carriage return, one of the two terminator bytes.
pub const CR: u8 = 13;

/// Line feed, the second terminator byte.
pub const LF: u8 = 10;

/// The type sigil of a bulk frame, `$`.
pub const SIG_BULK: u8 = 0x24;

/// The type sigil of an array frame, `*`.
pub const SIG_ARRAY: u8 = 0x2a;

/// The type sigil of an integer frame, `:`.
pub const SIG_INT: u8 = 0x3a;

/// The type sigil of a double frame, `,`.
pub const SIG_DOUBLE: u8 = 0x2c;

/// The type sigil of a simple frame, `+`.
pub const SIG_SIMPLE: u8 = 0x2b;

/// The type sigil of an error frame, and the minus sign, `-`.
pub const SIG_ERROR: u8 = 0x2d;

/// The decimal point, `.`.
pub const DOT: u8 = 0x2e;

/// The two-byte frame terminator, CR LF.
pub open spec fn crlf() -> Seq<u8> {
    seq![CR, LF]
}

/// The bytes of the inline ping frame, `+PING` CR LF.
pub open spec fn ping_frame() -> Seq<u8> {
    seq![SIG_SIMPLE, 0x50u8, 0x49u8, 0x4eu8, 0x47u8, CR, LF]
}

/// The wire text of each simple-frame literal: `OK`, `PONG`, `NONE`.
pub open spec fn simple_text(s: SimpleString) -> Seq<u8> {
    match s {
        SimpleString::Okay => seq![0x4fu8, 0x4bu8],
        SimpleString::Pong => seq![0x50u8, 0x4fu8, 0x4eu8, 0x47u8],
        SimpleString::Nothing => seq![0x4eu8, 0x4fu8, 0x4eu8, 0x45u8],
    }
}

/// The signed decimal text of an integer.
pub open spec fn int_rep(i: int) -> Seq<u8> {
    if i < 0 {
        seq![SIG_ERROR] + dec_rep((-i) as nat)
    } else {
        dec_rep(i as nat)
    }
}

/// The run contains no CR byte.
pub open spec fn no_cr(s: Seq<u8>) -> bool {
    forall|i: int| 0 <= i < s.len() ==> s[i] != CR
}

/// Index of the first CR in the run, or its length if there is none.
pub open spec fn cr_span(s: Seq<u8>) -> int
    decreases s.len(),
{
    if s.len() == 0 || s[0] == CR {
        0
    } else {
        1 + cr_span(s.drop_first())
    }
}

pub proof fn lemma_cr_span_bounds(s: Seq<u8>)
    ensures
        0 <= cr_span(s) <= s.len(),
        forall|j: int| 0 <= j < cr_span(s) ==> s[j] != CR,
        cr_span(s) < s.len() ==> s[cr_span(s)] == CR,
    decreases s.len(),
{
    if !(s.len() == 0 || s[0] == CR) {
        lemma_cr_span_bounds(s.drop_first());
        assert forall|j: int| 0 <= j < cr_span(s) implies s[j] != CR by {
            if j > 0 {
                assert(s.drop_first()[j - 1] == s[j]);
            }
        }
    }
}

/// The span is the unique cut: digits-free of CR before it, CR (or the end) at it.
pub proof fn lemma_cr_span_is(s: Seq<u8>, k: int)
    requires
        0 <= k <= s.len(),
        forall|j: int| 0 <= j < k ==> s[j] != CR,
        k < s.len() ==> s[k] == CR,
    ensures
        cr_span(s) == k,
    decreases s.len(),
{
    if s.len() != 0 && s[0] != CR {
        assert(forall|j: int| 0 <= j < k - 1 ==> s.drop_first()[j] != CR);
        lemma_cr_span_is(s.drop_first(), k - 1);
    }
}

/// The spans compose: a CR-free run followed by a CR (or by nothing)
/// is scanned in full.
pub proof fn lemma_cr_span_concat(a: Seq<u8>, b: Seq<u8>)
    requires
        no_cr(a),
        b.len() == 0 || b[0] == CR,
    ensures
        cr_span(a + b) == a.len(),
{
    assert forall|j: int| 0 <= j < a.len() implies (a + b)[j] != CR by {}
    lemma_cr_span_is(a + b, a.len() as int);
}

pub proof fn lemma_digit_span_bounds(s: Seq<u8>)
    ensures
        0 <= digit_span(s) <= s.len(),
        forall|j: int| 0 <= j < digit_span(s) ==> is_digit_byte(s[j]),
        digit_span(s) < s.len() ==> !is_digit_byte(s[digit_span(s)]),
    decreases s.len(),
{
    if !(s.len() == 0 || !is_digit_byte(s[0])) {
        lemma_digit_span_bounds(s.drop_first());
        assert forall|j: int| 0 <= j < digit_span(s) implies is_digit_byte(s[j]) by {
            if j > 0 {
                assert(s.drop_first()[j - 1] == s[j]);
            }
        }
    }
}

pub proof fn lemma_digit_span_is(s: Seq<u8>, k: int)
    requires
        0 <= k <= s.len(),
        forall|j: int| 0 <= j < k ==> is_digit_byte(s[j]),
        k < s.len() ==> !is_digit_byte(s[k]),
    ensures
        digit_span(s) == k,
    decreases s.len(),
{
    if s.len() != 0 && is_digit_byte(s[0]) {
        assert(forall|j: int| 0 <= j < k - 1 ==> is_digit_byte(s.drop_first()[j]));
        lemma_digit_span_is(s.drop_first(), k - 1);
    }
}

/// A digit run followed by a non-digit (or by nothing) is scanned in full.
pub proof fn lemma_digit_span_concat(a: Seq<u8>, b: Seq<u8>)
    requires
        all_digit_bytes(a),
        b.len() == 0 || !is_digit_byte(b[0]),
    ensures
        digit_span(a + b) == a.len(),
{
    assert forall|j: int| 0 <= j < a.len() implies is_digit_byte((a + b)[j]) by {}
    lemma_digit_span_is(a + b, a.len() as int);
}

/// A well-formed integer payload: an optional minus sign, then one or
/// more digits.
pub open spec fn is_int_text(t: Seq<u8>) -> bool {
    if t.len() >= 1 && t[0] == SIG_ERROR {
        t.len() >= 2 && all_digit_bytes(t.skip(1))
    } else {
        t.len() >= 1 && all_digit_bytes(t)
    }
}

/// The value of a well-formed integer payload.
pub open spec fn int_text_val(t: Seq<u8>) -> int
    recommends
        is_int_text(t),
{
    if t.len() >= 1 && t[0] == SIG_ERROR {
        -dec_val(t.skip(1))
    } else {
        dec_val(t)
    }
}

/// A well-formed double payload: one or more digits, then an optional
/// decimal point followed by one or more digits.
pub open spec fn is_double_text(t: Seq<u8>) -> bool {
    let d = digit_span(t);
    &&& d >= 1
    &&& (d == t.len() || {
        &&& t[d] == DOT
        &&& d + 2 <= t.len()
        &&& all_digit_bytes(t.skip(d + 1))
    })
}

/// The values that the codec can place on the wire and read back.
pub open spec fn wf_value(v: ValueModel) -> bool
    decreases v,
{
    match v {
        ValueModel::Simple(_) => true,
        ValueModel::Int(i) => i64::MIN <= i <= i64::MAX,
        ValueModel::Double(t) => is_double_text(t),
        ValueModel::Bulk(_) => true,
        ValueModel::Error(m) => no_cr(m),
        ValueModel::Array(vs) => forall|i: int| 0 <= i < vs.len() ==> wf_value(#[trigger] vs[i]),
    }
}

/// The byte encoding of a value, one complete frame.
pub open spec fn enc_value(v: ValueModel) -> Seq<u8>
    decreases v,
{
    match v {
        ValueModel::Simple(s) => seq![SIG_SIMPLE] + simple_text(s) + crlf(),
        ValueModel::Int(i) => seq![SIG_INT] + int_rep(i) + crlf(),
        ValueModel::Double(t) => seq![SIG_DOUBLE] + t + crlf(),
        ValueModel::Bulk(b) => seq![SIG_BULK] + dec_rep(b.len()) + crlf() + b + crlf(),
        ValueModel::Error(m) => seq![SIG_ERROR] + m + crlf(),
        ValueModel::Array(vs) => seq![SIG_ARRAY] + dec_rep(vs.len()) + crlf() + enc_items(vs),
    }
}

/// The byte encoding of a run of values, one frame after the other.
pub open spec fn enc_items(vs: Seq<ValueModel>) -> Seq<u8>
    decreases vs,
{
    if vs.len() == 0 {
        Seq::empty()
    } else {
        enc_value(vs[0]) + enc_items(vs.subrange(1, vs.len() as int))
    }
}

/// Reads the decimal length header of a bulk or array frame: the sigil,
/// one or more digits, CR, LF.  Returns the length and the number of
/// bytes consumed.
pub open spec fn parse_len_header(s: Seq<u8>) -> Result<(int, int), DecodeError>
    recommends
        s.len() >= 1,
{
    let t = s.skip(1);
    if t.len() == 0 {
        Err(DecodeError::IncompleteFrame)
    } else if t[0] == SIG_ERROR {
        Err(DecodeError::NegativeLength)
    } else if !is_digit_byte(t[0]) {
        Err(DecodeError::InvalidNumericLiteral)
    } else {
        let d = digit_span(t);
        if d == t.len() {
            Err(DecodeError::IncompleteFrame)
        } else if t[d] != CR {
            Err(DecodeError::UnterminatedFrame)
        } else if d + 1 == t.len() {
            Err(DecodeError::IncompleteFrame)
        } else if t[d + 1] != LF {
            Err(DecodeError::UnterminatedFrame)
        } else {
            Ok((dec_val(t.take(d)), 3 + d))
        }
    }
}

/// Reads the text line of an inline frame: the sigil, the bytes up to the
/// first CR, CR, LF.  Returns the text and the number of bytes consumed.
pub open spec fn parse_line(s: Seq<u8>) -> Result<(Seq<u8>, int), DecodeError>
    recommends
        s.len() >= 1,
{
    let t = s.skip(1);
    let k = cr_span(t);
    if k == t.len() {
        Err(DecodeError::IncompleteFrame)
    } else if k + 1 == t.len() {
        Err(DecodeError::IncompleteFrame)
    } else if t[k + 1] != LF {
        Err(DecodeError::UnterminatedFrame)
    } else {
        Ok((t.take(k), 3 + k))
    }
}

/// What decoding one frame from `s` yields: the value and the number of
/// bytes it occupies, or the error that classifies the malformed input.
/// Trailing bytes after the frame are left untouched.
pub open spec fn spec_parse(s: Seq<u8>) -> Result<(ValueModel, int), DecodeError>
    decreases s.len(), 0int, 0int,
{
    if s.len() == 0 {
        Err(DecodeError::IncompleteFrame)
    } else if s[0] == SIG_BULK {
        match parse_len_header(s) {
            Err(e) => Err(e),
            Ok((n, h)) => {
                if s.len() - h < n {
                    Err(DecodeError::IncompleteFrame)
                } else if s.len() - h - n < 1 {
                    Err(DecodeError::IncompleteFrame)
                } else if s[h + n] != CR {
                    Err(DecodeError::UnterminatedFrame)
                } else if s.len() - h - n < 2 {
                    Err(DecodeError::IncompleteFrame)
                } else if s[h + n + 1] != LF {
                    Err(DecodeError::UnterminatedFrame)
                } else {
                    Ok((ValueModel::Bulk(s.subrange(h, h + n)), h + n + 2))
                }
            },
        }
    } else if s[0] == SIG_ARRAY {
        match parse_len_header(s) {
            Err(e) => Err(e),
            Ok((n, h)) => {
                if !(1 <= h <= s.len()) {
                    // never reached: a header occupies at least three bytes
                    // and ends within `s`; this arm bounds the recursion
                    Err(DecodeError::IncompleteFrame)
                } else if n > s.len() - h {
                    // a frame takes at least one byte, so `n` frames cannot
                    // fit in fewer than `n` bytes
                    Err(DecodeError::IncompleteFrame)
                } else {
                    match spec_parse_items(s.skip(h), n) {
                        Err(e) => Err(e),
                        Ok((vs, c)) => Ok((ValueModel::Array(vs), h + c)),
                    }
                }
            },
        }
    } else if s[0] == SIG_INT {
        match parse_line(s) {
            Err(e) => Err(e),
            Ok((text, c)) => {
                if is_int_text(text) && i64::MIN <= int_text_val(text) <= i64::MAX {
                    Ok((ValueModel::Int(int_text_val(text)), c))
                } else {
                    Err(DecodeError::InvalidNumericLiteral)
                }
            },
        }
    } else if s[0] == SIG_DOUBLE {
        match parse_line(s) {
            Err(e) => Err(e),
            Ok((text, c)) => {
                if is_double_text(text) {
                    Ok((ValueModel::Double(text), c))
                } else {
                    Err(DecodeError::InvalidNumericLiteral)
                }
            },
        }
    } else if s[0] == SIG_SIMPLE {
        match parse_line(s) {
            Err(e) => Err(e),
            Ok((text, c)) => {
                if text =~= simple_text(SimpleString::Okay) {
                    Ok((ValueModel::Simple(SimpleString::Okay), c))
                } else if text =~= simple_text(SimpleString::Pong) {
                    Ok((ValueModel::Simple(SimpleString::Pong), c))
                } else if text =~= simple_text(SimpleString::Nothing) {
                    Ok((ValueModel::Simple(SimpleString::Nothing), c))
                } else {
                    Err(DecodeError::UnknownSimpleLiteral)
                }
            },
        }
    } else if s[0] == SIG_ERROR {
        match parse_line(s) {
            Err(e) => Err(e),
            Ok((text, c)) => Ok((ValueModel::Error(text), c)),
        }
    } else {
        Err(DecodeError::IllegalSigil)
    }
}

/// What decoding `n` consecutive frames from `s` yields: the values in
/// order and the total number of bytes they occupy, or the first error.
pub open spec fn spec_parse_items(s: Seq<u8>, n: int) -> Result<
    (Seq<ValueModel>, int),
    DecodeError,
>
    decreases s.len(), 1int, n,
{
    if n <= 0 {
        Ok((Seq::empty(), 0))
    } else {
        match spec_parse(s) {
            Err(e) => Err(e),
            Ok((v, c)) => {
                if !(1 <= c <= s.len()) {
                    // never reached: a parsed frame occupies at least one
                    // byte of `s`; this arm bounds the recursion
                    Err(DecodeError::IncompleteFrame)
                } else {
                    match spec_parse_items(s.skip(c), n - 1) {
                        Err(e) => Err(e),
                        Ok((vs, c2)) => Ok((seq![v] + vs, c + c2)),
                    }
                }
            },
        }
    }
}

/// Appending a value to a run appends its frame to the run's bytes.
pub proof fn lemma_enc_items_push(vs: Seq<ValueModel>, x: ValueModel)
    ensures
        enc_items(vs.push(x)) == enc_items(vs) + enc_value(x),
    decreases vs,
{
    if vs.len() == 0 {
        assert(vs.push(x)[0] == x);
        assert(vs.push(x).subrange(1, vs.push(x).len() as int) =~= Seq::<ValueModel>::empty());
        assert(enc_items(Seq::<ValueModel>::empty()) =~= Seq::<u8>::empty());
        assert(enc_items(vs.push(x)) =~= enc_items(vs) + enc_value(x));
    } else {
        assert(vs.push(x)[0] == vs[0]);
        let tail = vs.subrange(1, vs.len() as int);
        assert(vs.push(x).subrange(1, vs.push(x).len() as int) =~= tail.push(x));
        lemma_enc_items_push(tail, x);
        assert(enc_items(vs.push(x)) =~= enc_items(vs) + enc_value(x));
    }
}

/// The frames of a two-value run, written out.
pub proof fn lemma_enc_items2(a: ValueModel, b: ValueModel)
    ensures
        enc_items(seq![a, b]) == enc_value(a) + enc_value(b),
{
    assert(seq![a, b].subrange(1, 2) =~= seq![b]);
    assert(seq![b].subrange(1, 1) =~= Seq::<ValueModel>::empty());
    assert(enc_items(Seq::<ValueModel>::empty()) =~= Seq::<u8>::empty());
    assert(enc_items(seq![b]) =~= enc_value(b));
    assert(enc_items(seq![a, b]) =~= enc_value(a) + enc_value(b));
}

/// The frames of a three-value run, written out.
pub proof fn lemma_enc_items3(a: ValueModel, b: ValueModel, c: ValueModel)
    ensures
        enc_items(seq![a, b, c]) == enc_value(a) + enc_value(b) + enc_value(c),
{
    lemma_enc_items2(b, c);
    assert(seq![a, b, c].subrange(1, 3) =~= seq![b, c]);
    assert(enc_items(seq![a, b, c]) =~= enc_value(a) + enc_value(b) + enc_value(c));
}

/// The frames of a four-value run, written out.
pub proof fn lemma_enc_items4(a: ValueModel, b: ValueModel, c: ValueModel, d: ValueModel)
    ensures
        enc_items(seq![a, b, c, d]) == enc_value(a) + enc_value(b) + enc_value(c) + enc_value(d),
{
    lemma_enc_items3(b, c, d);
    assert(seq![a, b, c, d].subrange(1, 4) =~= seq![b, c, d]);
    assert(enc_items(seq![a, b, c, d]) =~= enc_value(a) + enc_value(b) + enc_value(c) + enc_value(
        d,
    ));
}

/// A successful length header sits within `s`, declares a length that is
/// not negative, and occupies at least three bytes.
pub proof fn lemma_len_header_ok(s: Seq<u8>)
    requires
        s.len() >= 1,
    ensures
        parse_len_header(s) matches Ok((n, h)) ==> 3 <= h <= s.len() && n >= 0,
{
    let t = s.skip(1);
    if parse_len_header(s) is Ok {
        lemma_digit_span_bounds(t);
        let d = digit_span(t);
        assert(all_digit_bytes(t.take(d)));
        crate::digits::lemma_dec_val_nonneg(t.take(d));
    }
}

/// A successful line sits within `s`, holds no CR, and occupies the text
/// plus the sigil and the terminator.
pub proof fn lemma_line_ok(s: Seq<u8>)
    requires
        s.len() >= 1,
    ensures
        parse_line(s) matches Ok((text, c)) ==> {
            &&& 3 <= c <= s.len()
            &&& text.len() == c - 3
            &&& no_cr(text)
        },
{
    let t = s.skip(1);
    lemma_cr_span_bounds(t);
}

/// A parsed frame occupies at least three bytes and ends within the input.
pub proof fn lemma_parse_consumed(s: Seq<u8>)
    ensures
        spec_parse(s) matches Ok((v, c)) ==> 3 <= c <= s.len(),
    decreases s.len(), 0int, 0int,
{
    if s.len() == 0 {
    } else if s[0] == SIG_BULK {
        lemma_len_header_ok(s);
    } else if s[0] == SIG_ARRAY {
        lemma_len_header_ok(s);
        match parse_len_header(s) {
            Ok((n, h)) => {
                if 1 <= h <= s.len() && n <= s.len() - h {
                    lemma_parse_items_consumed(s.skip(h), n);
                }
            },
            Err(_) => {},
        }
    } else if s[0] == SIG_INT || s[0] == SIG_DOUBLE || s[0] == SIG_SIMPLE || s[0] == SIG_ERROR {
        lemma_line_ok(s);
    }
}

/// A parsed run of `n` frames yields exactly `n` values and ends within
/// the input.
pub proof fn lemma_parse_items_consumed(s: Seq<u8>, n: int)
    ensures
        spec_parse_items(s, n) matches Ok((vs, c)) ==> {
            &&& 0 <= c <= s.len()
            &&& vs.len() == if n >= 0 { n } else { 0 }
        },
    decreases s.len(), 1int, n,
{
    if n > 0 {
        lemma_parse_consumed(s);
        match spec_parse(s) {
            Ok((v, c)) => {
                if 1 <= c <= s.len() {
                    lemma_parse_items_consumed(s.skip(c), n - 1);
                }
            },
            Err(_) => {},
        }
    }
}

/// A length header made of a sigil, the numeral of `n` and CR LF reads
/// back as `n`, whatever follows it.
pub proof fn lemma_len_header_of_enc(sig: u8, n: nat, rest: Seq<u8>)
    ensures
        parse_len_header(seq![sig] + dec_rep(n) + crlf() + rest) == Ok::<(int, int), DecodeError>(
            (n as int, 3 + dec_rep(n).len() as int),
        ),
{
    let s = seq![sig] + dec_rep(n) + crlf() + rest;
    let t = s.skip(1);
    crate::digits::lemma_dec_rep_digits(n);
    crate::digits::lemma_dec_val_of_rep(n);
    assert(t =~= dec_rep(n) + (crlf() + rest));
    lemma_digit_span_concat(dec_rep(n), crlf() + rest);
    let d = digit_span(t);
    assert(d == dec_rep(n).len());
    assert(is_digit_byte(t[0]));
    assert(t[d] == CR);
    assert(t[d + 1] == LF);
    assert(t.take(d) =~= dec_rep(n));
}

/// A line made of a sigil, CR-free text and CR LF reads back as that text,
/// whatever follows it.
pub proof fn lemma_line_of_enc(sig: u8, text: Seq<u8>, rest: Seq<u8>)
    requires
        no_cr(text),
    ensures
        parse_line(seq![sig] + text + crlf() + rest) == Ok::<(Seq<u8>, int), DecodeError>(
            (text, 3 + text.len() as int),
        ),
{
    let s = seq![sig] + text + crlf() + rest;
    let t = s.skip(1);
    assert(t =~= text + (crlf() + rest));
    lemma_cr_span_concat(text, crlf() + rest);
    let k = cr_span(t);
    assert(k == text.len());
    assert(t[k + 1] == LF);
    assert(t.take(k) =~= text);
}

/// The signed decimal text of an in-range integer is a well-formed
/// integer payload, reads back as the same integer, and holds no CR.
pub proof fn lemma_int_rep_text(i: int)
    ensures
        is_int_text(int_rep(i)),
        int_text_val(int_rep(i)) == i,
        no_cr(int_rep(i)),
{
    if i < 0 {
        crate::digits::lemma_dec_rep_digits((-i) as nat);
        crate::digits::lemma_dec_val_of_rep((-i) as nat);
        assert(int_rep(i).skip(1) =~= dec_rep((-i) as nat));
    } else {
        crate::digits::lemma_dec_rep_digits(i as nat);
        crate::digits::lemma_dec_val_of_rep(i as nat);
        assert(int_rep(i)[0] != SIG_ERROR);
    }
}

/// A well-formed double payload holds no CR.
pub proof fn lemma_double_text_no_cr(t: Seq<u8>)
    requires
        is_double_text(t),
    ensures
        no_cr(t),
{
    lemma_digit_span_bounds(t);
    let d = digit_span(t);
    assert forall|i: int| 0 <= i < t.len() implies t[i] != CR by {
        if i > d {
            assert(is_digit_byte(t.skip(d + 1)[i - d - 1]));
        }
    }
}

/// A frame encoding is never shorter than three bytes.
pub proof fn lemma_enc_value_len(v: ValueModel)
    ensures
        enc_value(v).len() >= 3,
{
    match v {
        ValueModel::Int(i) => {
            if i < 0 {
                crate::digits::lemma_dec_rep_digits((-i) as nat);
            } else {
                crate::digits::lemma_dec_rep_digits(i as nat);
            }
        },
        ValueModel::Bulk(b) => {
            crate::digits::lemma_dec_rep_digits(b.len());
        },
        ValueModel::Array(vs) => {
            crate::digits::lemma_dec_rep_digits(vs.len());
        },
        _ => {},
    }
}

/// A run of `n` frames is never shorter than `n` bytes.
pub proof fn lemma_enc_items_len(vs: Seq<ValueModel>)
    ensures
        enc_items(vs).len() >= vs.len(),
    decreases vs,
{
    if vs.len() > 0 {
        lemma_enc_value_len(vs[0]);
        lemma_enc_items_len(vs.subrange(1, vs.len() as int));
    }
}

/// Decoding the encoding of a well-formed value yields the value back and
/// consumes exactly the frame, whatever bytes follow it.
pub proof fn lemma_parse_enc(v: ValueModel, rest: Seq<u8>)
    requires
        wf_value(v),
    ensures
        spec_parse(enc_value(v) + rest) == Ok::<(ValueModel, int), DecodeError>(
            (v, enc_value(v).len() as int),
        ),
    decreases v, 0int,
{
    let s = enc_value(v) + rest;
    match v {
        ValueModel::Simple(ss) => {
            assert(s =~= seq![SIG_SIMPLE] + simple_text(ss) + crlf() + rest);
            assert(no_cr(simple_text(ss)));
            lemma_line_of_enc(SIG_SIMPLE, simple_text(ss), rest);
            assert(simple_text(SimpleString::Okay)[0] != simple_text(SimpleString::Pong)[0]);
            assert(simple_text(SimpleString::Pong)[0] != simple_text(SimpleString::Nothing)[0]);
            assert(simple_text(SimpleString::Okay).len() != simple_text(
                SimpleString::Nothing,
            ).len());
        },
        ValueModel::Int(i) => {
            assert(s =~= seq![SIG_INT] + int_rep(i) + crlf() + rest);
            lemma_int_rep_text(i);
            lemma_line_of_enc(SIG_INT, int_rep(i), rest);
        },
        ValueModel::Double(t) => {
            assert(s =~= seq![SIG_DOUBLE] + t + crlf() + rest);
            lemma_double_text_no_cr(t);
            lemma_line_of_enc(SIG_DOUBLE, t, rest);
        },
        ValueModel::Error(m) => {
            assert(s =~= seq![SIG_ERROR] + m + crlf() + rest);
            lemma_line_of_enc(SIG_ERROR, m, rest);
        },
        ValueModel::Bulk(b) => {
            let n = b.len() as int;
            let hdr = dec_rep(b.len());
            let h = 3 + hdr.len() as int;
            assert(s =~= seq![SIG_BULK] + hdr + crlf() + (b + crlf() + rest));
            lemma_len_header_of_enc(SIG_BULK, b.len(), b + crlf() + rest);
            assert(s.len() - h - n == 2 + rest.len());
            assert(s.subrange(h, h + n) =~= b);
            assert(s[h + n] == CR);
            assert(s[h + n + 1] == LF);
            assert(enc_value(v).len() == h + n + 2);
        },
        ValueModel::Array(vs) => {
            let n = vs.len() as int;
            let hdr = dec_rep(vs.len());
            let h = 3 + hdr.len() as int;
            assert(s =~= seq![SIG_ARRAY] + hdr + crlf() + (enc_items(vs) + rest));
            lemma_len_header_of_enc(SIG_ARRAY, vs.len(), enc_items(vs) + rest);
            lemma_enc_items_len(vs);
            assert(n <= s.len() - h);
            assert(s.skip(h) =~= enc_items(vs) + rest);
            lemma_parse_enc_items(vs, rest);
            assert(enc_value(v).len() == h + enc_items(vs).len());
        },
    }
}

/// Decoding the encoding of a run of well-formed values yields them back in
/// order, whatever bytes follow the run.
pub proof fn lemma_parse_enc_items(vs: Seq<ValueModel>, rest: Seq<u8>)
    requires
        forall|i: int| 0 <= i < vs.len() ==> wf_value(#[trigger] vs[i]),
    ensures
        spec_parse_items(enc_items(vs) + rest, vs.len() as int) == Ok::<
            (Seq<ValueModel>, int),
            DecodeError,
        >((vs, enc_items(vs).len() as int)),
    decreases vs, 1int,
{
    if vs.len() == 0 {
        assert(enc_items(vs) + rest =~= rest);
        assert(vs =~= Seq::<ValueModel>::empty());
    } else {
        let tail = vs.subrange(1, vs.len() as int);
        let s = enc_items(vs) + rest;
        assert(s =~= enc_value(vs[0]) + (enc_items(tail) + rest));
        lemma_parse_enc(vs[0], enc_items(tail) + rest);
        let c0 = enc_value(vs[0]).len() as int;
        lemma_enc_value_len(vs[0]);
        assert(1 <= c0 <= s.len());
        assert(s.skip(c0) =~= enc_items(tail) + rest);
        lemma_parse_enc_items(tail, rest);
        assert(seq![vs[0]] + tail =~= vs);
        assert(enc_items(vs).len() == c0 + enc_items(tail).len());
    }
}

/// A length header cut short anywhere after its sigil reads as an
/// incomplete frame.
pub proof fn lemma_len_header_trunc(sig: u8, n: nat, k: int)
    requires
        1 <= k < 3 + dec_rep(n).len(),
    ensures
        parse_len_header((seq![sig] + dec_rep(n) + crlf()).take(k)) == Err::<
            (int, int),
            DecodeError,
        >(DecodeError::IncompleteFrame),
{
    let hdr = dec_rep(n);
    crate::digits::lemma_dec_rep_digits(n);
    let s = (seq![sig] + hdr + crlf()).take(k);
    let t = s.skip(1);
    if k - 1 <= hdr.len() {
        assert(t =~= hdr.take(k - 1));
        assert(all_digit_bytes(t));
        lemma_digit_span_is(t, t.len() as int);
        if t.len() > 0 {
            assert(t[0] == hdr[0]);
        }
    } else {
        assert(k == 2 + hdr.len());
        assert(t =~= hdr + seq![CR]);
        lemma_digit_span_concat(hdr, seq![CR]);
        assert(t[0] == hdr[0]);
        assert(digit_span(t) == hdr.len());
        assert(t[hdr.len() as int] == CR);
    }
}

/// A line cut short anywhere after its sigil reads as an incomplete frame.
pub proof fn lemma_line_trunc(sig: u8, text: Seq<u8>, k: int)
    requires
        no_cr(text),
        1 <= k < 3 + text.len(),
    ensures
        parse_line((seq![sig] + text + crlf()).take(k)) == Err::<(Seq<u8>, int), DecodeError>(
            DecodeError::IncompleteFrame,
        ),
{
    let s = (seq![sig] + text + crlf()).take(k);
    let t = s.skip(1);
    if k - 1 <= text.len() {
        assert(t =~= text.take(k - 1));
        assert(no_cr(t));
        lemma_cr_span_is(t, t.len() as int);
    } else {
        assert(k == 2 + text.len());
        assert(t =~= text + seq![CR]);
        lemma_cr_span_concat(text, seq![CR]);
        assert(cr_span(t) == text.len());
    }
}

/// Truncation: a well-formed frame cut short anywhere reads as an
/// incomplete frame, never as a wrong value and never as another error.
pub proof fn lemma_truncation(v: ValueModel, k: int)
    requires
        wf_value(v),
        0 <= k < enc_value(v).len(),
    ensures
        spec_parse(enc_value(v).take(k)) == Err::<(ValueModel, int), DecodeError>(
            DecodeError::IncompleteFrame,
        ),
    decreases v, 0int,
{
    let s = enc_value(v).take(k);
    if k == 0 {
        assert(s =~= Seq::<u8>::empty());
    } else {
        match v {
            ValueModel::Simple(ss) => {
                assert(no_cr(simple_text(ss)));
                assert(s =~= (seq![SIG_SIMPLE] + simple_text(ss) + crlf()).take(k));
                lemma_line_trunc(SIG_SIMPLE, simple_text(ss), k);
                assert(s[0] == SIG_SIMPLE);
            },
            ValueModel::Int(i) => {
                lemma_int_rep_text(i);
                assert(s =~= (seq![SIG_INT] + int_rep(i) + crlf()).take(k));
                lemma_line_trunc(SIG_INT, int_rep(i), k);
                assert(s[0] == SIG_INT);
            },
            ValueModel::Double(t) => {
                lemma_double_text_no_cr(t);
                assert(s =~= (seq![SIG_DOUBLE] + t + crlf()).take(k));
                lemma_line_trunc(SIG_DOUBLE, t, k);
                assert(s[0] == SIG_DOUBLE);
            },
            ValueModel::Error(m) => {
                assert(s =~= (seq![SIG_ERROR] + m + crlf()).take(k));
                lemma_line_trunc(SIG_ERROR, m, k);
                assert(s[0] == SIG_ERROR);
            },
            ValueModel::Bulk(b) => {
                let n = b.len() as int;
                let hdr = dec_rep(b.len());
                let h = 3 + hdr.len() as int;
                crate::digits::lemma_dec_rep_digits(b.len());
                assert(s[0] == SIG_BULK);
                if k < h {
                    assert(s =~= (seq![SIG_BULK] + hdr + crlf()).take(k));
                    lemma_len_header_trunc(SIG_BULK, b.len(), k);
                } else {
                    let body = (b + crlf()).take(k - h);
                    assert(s =~= seq![SIG_BULK] + hdr + crlf() + body);
                    lemma_len_header_of_enc(SIG_BULK, b.len(), body);
                    assert(s.len() == k);
                    if k - h < n {
                    } else if k - h == n {
                    } else {
                        assert(k - h == n + 1);
                        assert(s[h + n] == (b + crlf())[n]);
                        assert(s[h + n] == CR);
                    }
                }
            },
            ValueModel::Array(vs) => {
                let n = vs.len() as int;
                let hdr = dec_rep(vs.len());
                let h = 3 + hdr.len() as int;
                crate::digits::lemma_dec_rep_digits(vs.len());
                assert(s[0] == SIG_ARRAY);
                if k < h {
                    assert(s =~= (seq![SIG_ARRAY] + hdr + crlf()).take(k));
                    lemma_len_header_trunc(SIG_ARRAY, vs.len(), k);
                } else {
                    let body = enc_items(vs).take(k - h);
                    assert(s =~= seq![SIG_ARRAY] + hdr + crlf() + body);
                    lemma_len_header_of_enc(SIG_ARRAY, vs.len(), body);
                    assert(s.len() == k);
                    if n > s.len() - h {
                    } else {
                        assert(s.skip(h) =~= body);
                        lemma_truncation_items(vs, k - h);
                    }
                }
            },
        }
    }
}

/// Truncation for a run of frames: cutting the run short anywhere reads
/// as an incomplete frame.
pub proof fn lemma_truncation_items(vs: Seq<ValueModel>, m: int)
    requires
        forall|i: int| 0 <= i < vs.len() ==> wf_value(#[trigger] vs[i]),
        0 <= m < enc_items(vs).len(),
    ensures
        spec_parse_items(enc_items(vs).take(m), vs.len() as int) == Err::<
            (Seq<ValueModel>, int),
            DecodeError,
        >(DecodeError::IncompleteFrame),
    decreases vs, 1int,
{
    let s = enc_items(vs).take(m);
    let tail = vs.subrange(1, vs.len() as int);
    let e0 = enc_value(vs[0]);
    if m < e0.len() {
        assert(s =~= e0.take(m));
        lemma_truncation(vs[0], m);
    } else {
        let body = enc_items(tail).take(m - e0.len());
        assert(s =~= e0 + body);
        lemma_parse_enc(vs[0], body);
        let c0 = e0.len() as int;
        lemma_enc_value_len(vs[0]);
        assert(1 <= c0 <= s.len());
        assert(s.skip(c0) =~= body);
        lemma_truncation_items(tail, m - c0);
    }
}

/// Rejection: any input whose leading byte is outside the six type sigils
/// is classified as an illegal sigil, whatever follows.
pub proof fn lemma_illegal_sigil(s: Seq<u8>)
    requires
        s.len() >= 1,
        s[0] != SIG_BULK,
        s[0] != SIG_ARRAY,
        s[0] != SIG_INT,
        s[0] != SIG_DOUBLE,
        s[0] != SIG_SIMPLE,
        s[0] != SIG_ERROR,
    ensures
        spec_parse(s) == Err::<(ValueModel, int), DecodeError>(DecodeError::IllegalSigil),
{
}

/// Round trip: decoding the encoding of any well-formed value yields
/// exactly that value, and consumes the whole encoding.
pub proof fn lemma_round_trip(v: ValueModel)
    requires
        wf_value(v),
    ensures
        spec_parse(enc_value(v)) == Ok::<(ValueModel, int), DecodeError>(
            (v, enc_value(v).len() as int),
        ),
{
    assert(enc_value(v) + Seq::<u8>::empty() =~= enc_value(v));
    lemma_parse_enc(v, Seq::empty());
}

} // verus!
