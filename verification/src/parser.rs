//! The frame parser: recursive descent over an already fully buffered byte
//! slice, dispatching on the leading sigil with one byte of lookahead and
//! never backtracking.  Every malformed or short input is classified by a
//! [`DecodeError`]; the parser never panics.
//!
//! Termination is proved outright: every recursive step strictly consumes
//! input, so nesting depth — and with it stack use — is bounded by the
//! size of the buffer a caller hands in.  A caller that wants a hard
//! recursion limit gets one by capping its receive buffer.

use vstd::prelude::*;

use crate::digits::{
    all_digit_bytes, dec_val, digit_span, is_digit_byte, lemma_dec_val_nonneg,
    lemma_dec_val_prefix_le, lemma_dec_val_take_step,
};
use crate::lexi_data::{lemma_models_of_push, models_of, LexiData, SimpleString, ValueModel};
use crate::wire::{
    cr_span, is_double_text, is_int_text, int_text_val, lemma_cr_span_is, lemma_digit_span_is,
    lemma_len_header_ok, lemma_parse_consumed, parse_len_header, parse_line, spec_parse,
    spec_parse_items, DecodeError, CR, DOT, LF, SIG_ARRAY, SIG_BULK, SIG_DOUBLE, SIG_ERROR,
    SIG_INT, SIG_SIMPLE,
};

verus! {

/// True for the ASCII bytes `'0'` through `'9'`.
fn is_digit(b: u8) -> (r: bool)
    ensures
        r == is_digit_byte(b),
{
    0x30 <= b && b <= 0x39
}

/// Advances from `from` over ASCII digits; returns the index of the first
/// non-digit byte, or the length if digits run to the end.
pub(crate) fn scan_digits(input: &[u8], from: usize) -> (j: usize)
    requires
        from <= input@.len(),
    ensures
        from <= j <= input@.len(),
        j - from == digit_span(input@.skip(from as int)),
{
    let len = input.len();
    let mut j = from;
    while j < len && is_digit(input[j])
        invariant
            from <= j <= len,
            len == input@.len(),
            forall|k: int| from <= k < j ==> is_digit_byte(input@[k]),
        decreases len - j,
    {
        j = j + 1;
    }
    proof {
        let t = input@.skip(from as int);
        assert(forall|k: int| 0 <= k < j - from ==> is_digit_byte(t[k]));
        assert(j - from < t.len() ==> !is_digit_byte(t[j - from]));
        lemma_digit_span_is(t, j - from);
    }
    j
}

/// Advances from `from` to the first CR; returns its index, or the length
/// if there is none.
pub(crate) fn scan_cr(input: &[u8], from: usize) -> (j: usize)
    requires
        from <= input@.len(),
    ensures
        from <= j <= input@.len(),
        j - from == cr_span(input@.skip(from as int)),
{
    let len = input.len();
    let mut j = from;
    while j < len && input[j] != CR
        invariant
            from <= j <= len,
            len == input@.len(),
            forall|k: int| from <= k < j ==> input@[k] != CR,
        decreases len - j,
    {
        j = j + 1;
    }
    proof {
        let t = input@.skip(from as int);
        assert(forall|k: int| 0 <= k < j - from ==> t[k] != CR);
        assert(j - from < t.len() ==> t[j - from] == CR);
        lemma_cr_span_is(t, j - from);
    }
    j
}

/// Reads the value of the digit run `input[lo..hi]`, or reports that it
/// does not fit in a `usize`.
fn dec_value_range(input: &[u8], lo: usize, hi: usize) -> (r: Option<usize>)
    requires
        lo <= hi <= input@.len(),
        all_digit_bytes(input@.subrange(lo as int, hi as int)),
    ensures
        match r {
            Some(v) => v as int == dec_val(input@.subrange(lo as int, hi as int)),
            None => dec_val(input@.subrange(lo as int, hi as int)) > usize::MAX,
        },
{
    let ghost t = input@.subrange(lo as int, hi as int);
    let mut acc: usize = 0;
    let mut j = lo;
    proof {
        assert(t.take(0) =~= Seq::<u8>::empty());
    }
    while j < hi
        invariant
            lo <= j <= hi <= input@.len(),
            t == input@.subrange(lo as int, hi as int),
            all_digit_bytes(t),
            acc as int == dec_val(t.take(j - lo)),
        decreases hi - j,
    {
        proof {
            assert(t[j - lo] == input@[j as int]);
            assert(is_digit_byte(input@[j as int]));
            lemma_dec_val_take_step(t, j - lo);
        }
        let d = (input[j] - 0x30) as usize;
        let next = match acc.checked_mul(10) {
            Some(m) => m.checked_add(d),
            None => None,
        };
        match next {
            Some(v) => {
                acc = v;
            },
            None => {
                proof {
                    assert(dec_val(t.take(j - lo + 1)) > usize::MAX);
                    lemma_dec_val_prefix_le(t, j - lo + 1);
                }
                return None;
            },
        }
        j = j + 1;
    }
    proof {
        assert(t.take(hi - lo) =~= t);
    }
    Some(acc)
}

/// Reads the length header of a bulk or array frame starting at `pos`.
/// A declared length too large for `usize` cannot fit in any buffer, so it
/// is reported as an incomplete frame, which is what the grammar yields for
/// it as well.
fn parse_header_at(input: &[u8], pos: usize) -> (r: Result<(usize, usize), DecodeError>)
    requires
        pos < input@.len(),
    ensures
        ({
            let sp = parse_len_header(input@.skip(pos as int));
            match r {
                Ok((n, h)) => {
                    &&& sp == Ok::<(int, int), DecodeError>((n as int, h as int))
                    &&& 3 <= h
                    &&& pos + h <= input@.len()
                },
                Err(e) => match sp {
                    Err(e2) => e == e2,
                    Ok((n2, h2)) => e == DecodeError::IncompleteFrame && n2 > usize::MAX as int,
                },
            }
        }),
{
    let ghost s = input@.skip(pos as int);
    let ghost t = s.skip(1);
    proof {
        assert(t =~= input@.skip(pos as int + 1));
    }
    let len = input.len();
    if pos + 1 == len {
        return Err(DecodeError::IncompleteFrame);
    }
    let b0 = input[pos + 1];
    if b0 == SIG_ERROR {
        return Err(DecodeError::NegativeLength);
    }
    if !is_digit(b0) {
        return Err(DecodeError::InvalidNumericLiteral);
    }
    let j = scan_digits(input, pos + 1);
    proof {
        assert(digit_span(t) == j - (pos + 1));
    }
    if j == len {
        return Err(DecodeError::IncompleteFrame);
    }
    if input[j] != CR {
        proof {
            assert(t[j - (pos + 1)] == input@[j as int]);
        }
        return Err(DecodeError::UnterminatedFrame);
    }
    if j + 1 == len {
        return Err(DecodeError::IncompleteFrame);
    }
    if input[j + 1] != LF {
        proof {
            assert(t[j - pos] == input@[j + 1]);
        }
        return Err(DecodeError::UnterminatedFrame);
    }
    proof {
        assert(t[j - (pos + 1)] == input@[j as int]);
        assert(t[j - pos] == input@[j + 1]);
        assert(input@.subrange(pos + 1, j as int) =~= t.take(j - (pos + 1)));
        crate::wire::lemma_digit_span_bounds(t);
    }
    match dec_value_range(input, pos + 1, j) {
        Some(n) => Ok((n, j + 2 - pos)),
        None => Err(DecodeError::IncompleteFrame),
    }
}

/// Reads the signed decimal text `input[lo..hi]` as an `i64`, or reports
/// that it is not a well-formed, in-range integer payload.
pub(crate) fn parse_int_range(input: &[u8], lo: usize, hi: usize) -> (r: Option<i64>)
    requires
        lo <= hi <= input@.len(),
    ensures
        ({
            let t = input@.subrange(lo as int, hi as int);
            match r {
                Some(v) => {
                    &&& is_int_text(t)
                    &&& i64::MIN <= int_text_val(t) <= i64::MAX
                    &&& v as int == int_text_val(t)
                },
                None => !(is_int_text(t) && i64::MIN <= int_text_val(t) <= i64::MAX),
            }
        }),
{
    let ghost t = input@.subrange(lo as int, hi as int);
    if lo == hi {
        return None;
    }
    let neg = input[lo] == SIG_ERROR;
    let dlo = if neg {
        lo + 1
    } else {
        lo
    };
    if dlo == hi {
        return None;
    }
    let limit: u64 = if neg {
        0x8000_0000_0000_0000u64
    } else {
        0x7fff_ffff_ffff_ffffu64
    };
    let mut acc: u64 = 0;
    let mut k = dlo;
    proof {
        assert(input@.subrange(dlo as int, dlo as int) =~= Seq::<u8>::empty());
    }
    while k < hi
        invariant
            lo <= dlo <= k <= hi <= input@.len(),
            dlo < hi,
            dlo == if neg {
                lo + 1
            } else {
                lo as int
            },
            neg == (input@[lo as int] == SIG_ERROR),
            t == input@.subrange(lo as int, hi as int),
            forall|m: int| dlo <= m < k ==> is_digit_byte(input@[m]),
            acc as int == dec_val(input@.subrange(dlo as int, k as int)),
        decreases hi - k,
    {
        let b = input[k];
        if !is_digit(b) {
            proof {
                if neg {
                    assert(t.skip(1)[k - lo - 1] == input@[k as int]);
                } else {
                    assert(t[k - lo] == input@[k as int]);
                }
            }
            return None;
        }
        proof {
            let digits_so_far = input@.subrange(dlo as int, k + 1);
            assert(digits_so_far.drop_last() =~= input@.subrange(dlo as int, k as int));
            assert(digits_so_far.last() == input@[k as int]);
        }
        let d = (b - 0x30) as u64;
        let stepped = match acc.checked_mul(10) {
            Some(m) => m.checked_add(d),
            None => None,
        };
        match stepped {
            Some(v) => {
                acc = v;
            },
            None => {
                proof {
                    let digits = if neg {
                        t.skip(1)
                    } else {
                        t
                    };
                    assert(dec_val(input@.subrange(dlo as int, k + 1)) > u64::MAX);
                    if all_digit_bytes(digits) {
                        assert(digits =~= input@.subrange(dlo as int, hi as int));
                        assert(digits.take(k + 1 - dlo) =~= input@.subrange(dlo as int, k + 1));
                        lemma_dec_val_prefix_le(digits, k + 1 - dlo);
                    }
                }
                return None;
            },
        }
        k = k + 1;
    }
    proof {
        assert(input@.subrange(dlo as int, hi as int) =~= if neg {
            t.skip(1)
        } else {
            t
        });
        lemma_dec_val_nonneg(input@.subrange(dlo as int, hi as int));
    }
    if acc > limit {
        return None;
    }
    if neg {
        if acc == limit {
            Some(i64::MIN)
        } else {
            Some(-(acc as i64))
        }
    } else {
        Some(acc as i64)
    }
}

/// Decides whether `input[lo..hi]` is a well-formed double payload.
fn is_double_range(input: &[u8], lo: usize, hi: usize) -> (r: bool)
    requires
        lo <= hi <= input@.len(),
    ensures
        r == is_double_text(input@.subrange(lo as int, hi as int)),
{
    let ghost t = input@.subrange(lo as int, hi as int);
    let mut j = lo;
    while j < hi && is_digit(input[j])
        invariant
            lo <= j <= hi <= input@.len(),
            forall|m: int| lo <= m < j ==> is_digit_byte(input@[m]),
        decreases hi - j,
    {
        j = j + 1;
    }
    proof {
        assert(forall|m: int| 0 <= m < j - lo ==> is_digit_byte(t[m]));
        assert(j - lo < t.len() ==> !is_digit_byte(t[j - lo]));
        lemma_digit_span_is(t, j - lo);
    }
    if j == lo {
        return false;
    }
    if j == hi {
        return true;
    }
    if input[j] != DOT {
        proof {
            assert(t[j - lo] == input@[j as int]);
        }
        return false;
    }
    if j + 1 == hi {
        return false;
    }
    let mut f = j + 1;
    while f < hi && is_digit(input[f])
        invariant
            j + 1 <= f <= hi <= input@.len(),
            forall|m: int| j + 1 <= m < f ==> is_digit_byte(input@[m]),
        decreases hi - f,
    {
        f = f + 1;
    }
    if f == hi {
        proof {
            assert forall|m: int| 0 <= m < t.skip(j - lo + 1).len() implies is_digit_byte(
                #[trigger] t.skip(j - lo + 1)[m],
            ) by {
                assert(t.skip(j - lo + 1)[m] == input@[j + 1 + m]);
            }
        }
        true
    } else {
        proof {
            assert(t.skip(j - lo + 1)[f - j - 1] == input@[f as int]);
        }
        false
    }
}

/// Matches the text `input[lo..hi]` against the closed simple-literal set.
#[verifier::rlimit(50)]
#[verifier::spinoff_prover]
fn match_simple(input: &[u8], lo: usize, hi: usize) -> (r: Option<SimpleString>)
    requires
        lo <= hi <= input@.len(),
    ensures
        ({
            let t = input@.subrange(lo as int, hi as int);
            match r {
                Some(ss) => t =~= crate::wire::simple_text(ss),
                None => {
                    &&& !(t =~= crate::wire::simple_text(SimpleString::Okay))
                    &&& !(t =~= crate::wire::simple_text(SimpleString::Pong))
                    &&& !(t =~= crate::wire::simple_text(SimpleString::Nothing))
                },
            }
        }),
{
    let ghost t = input@.subrange(lo as int, hi as int);
    let n = hi - lo;
    if n == 2 && input[lo] == 0x4f && input[lo + 1] == 0x4b {
        proof {
            assert(t =~= crate::wire::simple_text(SimpleString::Okay));
        }
        Some(SimpleString::Okay)
    } else if n == 4 && input[lo] == 0x50 && input[lo + 1] == 0x4f && input[lo + 2] == 0x4e
        && input[lo + 3] == 0x47 {
        proof {
            assert(t =~= crate::wire::simple_text(SimpleString::Pong));
        }
        Some(SimpleString::Pong)
    } else if n == 4 && input[lo] == 0x4e && input[lo + 1] == 0x4f && input[lo + 2] == 0x4e
        && input[lo + 3] == 0x45 {
        proof {
            assert(t =~= crate::wire::simple_text(SimpleString::Nothing));
        }
        Some(SimpleString::Nothing)
    } else {
        None
    }
}

/// Reads the text line of an inline frame starting at `pos`: the bytes up
/// to CR LF.  Returns the end of the text and the position past the line.
fn scan_line_at(input: &[u8], pos: usize) -> (r: Result<(usize, usize), DecodeError>)
    requires
        pos < input@.len(),
    ensures
        ({
            let sp = parse_line(input@.skip(pos as int));
            match r {
                Ok((hi, newpos)) => {
                    &&& pos + 1 <= hi
                    &&& hi + 2 == newpos
                    &&& newpos <= input@.len()
                    &&& sp == Ok::<(Seq<u8>, int), DecodeError>(
                        (input@.subrange(pos + 1, hi as int), newpos - pos),
                    )
                },
                Err(e) => sp == Err::<(Seq<u8>, int), DecodeError>(e),
            }
        }),
{
    let ghost s = input@.skip(pos as int);
    let ghost t = s.skip(1);
    proof {
        assert(t =~= input@.skip(pos as int + 1));
    }
    let len = input.len();
    let j = scan_cr(input, pos + 1);
    proof {
        assert(cr_span(t) == j - (pos + 1));
    }
    if j == len {
        return Err(DecodeError::IncompleteFrame);
    }
    if j + 1 == len {
        return Err(DecodeError::IncompleteFrame);
    }
    if input[j + 1] != LF {
        proof {
            assert(t[j - pos] == input@[j + 1]);
        }
        return Err(DecodeError::UnterminatedFrame);
    }
    proof {
        assert(t[j - pos] == input@[j + 1]);
        assert(t.take(j - (pos + 1)) =~= input@.subrange(pos + 1, j as int));
    }
    Ok((j, j + 2))
}

/// Reads one frame starting at `pos`; on success returns the value and the
/// position just past the frame, on failure the error that classifies the
/// input.  Trailing bytes are left untouched.
#[verifier::loop_isolation(false)]
#[verifier::rlimit(60)]
pub fn parse_at(input: &[u8], pos: usize) -> (r: Result<(LexiData, usize), DecodeError>)
    requires
        pos <= input@.len(),
    ensures
        ({
            let sp = spec_parse(input@.skip(pos as int));
            match r {
                Ok((v, newpos)) => {
                    &&& pos <= newpos <= input@.len()
                    &&& sp == Ok::<(ValueModel, int), DecodeError>((v@, newpos - pos))
                },
                Err(e) => sp == Err::<(ValueModel, int), DecodeError>(e),
            }
        }),
    decreases input@.len() - pos,
{
    let ghost s = input@.skip(pos as int);
    let len = input.len();
    proof {
        assert(input@.len() <= usize::MAX);
    }
    if pos == len {
        return Err(DecodeError::IncompleteFrame);
    }
    let sig = input[pos];
    proof {
        assert(s[0] == input@[pos as int]);
    }
    if sig == SIG_BULK {
        match parse_header_at(input, pos) {
            Err(e) => {
                proof {
                    lemma_len_header_ok(s);
                }
                Err(e)
            },
            Ok((n, h)) => {
                let rem = len - (pos + h);
                if n > rem {
                    return Err(DecodeError::IncompleteFrame);
                }
                let idx = pos + h + n;
                if idx == len {
                    return Err(DecodeError::IncompleteFrame);
                }
                if input[idx] != CR {
                    proof {
                        assert(s[h + n] == input@[idx as int]);
                    }
                    return Err(DecodeError::UnterminatedFrame);
                }
                if idx + 1 == len {
                    return Err(DecodeError::IncompleteFrame);
                }
                if input[idx + 1] != LF {
                    proof {
                        assert(s[h + n + 1] == input@[idx + 1]);
                    }
                    return Err(DecodeError::UnterminatedFrame);
                }
                let payload = vstd::slice::slice_to_vec(
                    vstd::slice::slice_subrange(input, pos + h, idx),
                );
                proof {
                    assert(s[h + n] == input@[idx as int]);
                    assert(s[h + n + 1] == input@[idx + 1]);
                    assert(s.subrange(h as int, h + n) =~= input@.subrange(pos + h, idx as int));
                }
                Ok((LexiData::Bulk(payload), idx + 2))
            },
        }
    } else if sig == SIG_ARRAY {
        match parse_header_at(input, pos) {
            Err(e) => {
                proof {
                    lemma_len_header_ok(s);
                }
                Err(e)
            },
            Ok((n, h)) => {
                let rem = len - (pos + h);
                if n > rem {
                    return Err(DecodeError::IncompleteFrame);
                }
                let mut items: Vec<LexiData> = Vec::new();
                let mut cur = pos + h;
                let mut cnt: usize = 0;
                proof {
                    assert(input@.skip((pos + h) as int) =~= s.skip(h as int));
                    assert(models_of(items@) =~= Seq::<ValueModel>::empty());
                    match spec_parse_items(s.skip(h as int), n as int) {
                        Ok((vs2, c2)) => {
                            assert(models_of(items@) + vs2 =~= vs2);
                        },
                        Err(_) => {},
                    }
                }
                while cnt < n
                    invariant
                        pos + h <= cur <= len,
                        cnt <= n,
                        items@.len() == cnt as int,
                        ({
                            let inner = spec_parse_items(
                                input@.skip(cur as int),
                                n as int - cnt as int,
                            );
                            let whole = spec_parse_items(s.skip(h as int), n as int);
                            match inner {
                                Ok((vs2, c2)) => whole == Ok::<(Seq<ValueModel>, int), DecodeError>(
                                    (models_of(items@) + vs2, (cur - pos - h) + c2),
                                ),
                                Err(e) => whole == Err::<(Seq<ValueModel>, int), DecodeError>(e),
                            }
                        }),
                    decreases n - cnt,
                {
                    match parse_at(input, cur) {
                        Err(e) => {
                            return Err(e);
                        },
                        Ok((v, np)) => {
                            let ghost prev = items@;
                            proof {
                                lemma_parse_consumed(input@.skip(cur as int));
                                assert(input@.skip(cur as int).skip((np - cur) as int)
                                    =~= input@.skip(np as int));
                            }
                            items.push(v);
                            cur = np;
                            cnt = cnt + 1;
                            proof {
                                lemma_models_of_push(prev, v);
                                assert(items@ == prev.push(v));
                                match spec_parse_items(input@.skip(np as int),
                                    n as int - cnt as int) {
                                    Ok((vs3, c3)) => {
                                        assert(models_of(prev) + (seq![v@] + vs3) =~= models_of(
                                            prev,
                                        ).push(v@) + vs3);
                                    },
                                    Err(_) => {},
                                }
                            }
                        },
                    }
                }
                proof {
                    assert(spec_parse_items(input@.skip(cur as int), 0) == Ok::<
                        (Seq<ValueModel>, int),
                        DecodeError,
                    >((Seq::empty(), 0)));
                    match spec_parse_items(s.skip(h as int), n as int) {
                        Ok((vs2, c2)) => {
                            assert(models_of(items@) + Seq::<ValueModel>::empty() =~= models_of(
                                items@,
                            ));
                        },
                        Err(_) => {},
                    }
                }
                Ok((LexiData::Array(items), cur))
            },
        }
    } else if sig == SIG_INT {
        match scan_line_at(input, pos) {
            Err(e) => Err(e),
            Ok((hi, newpos)) => match parse_int_range(input, pos + 1, hi) {
                Some(v) => Ok((LexiData::Int(v), newpos)),
                None => Err(DecodeError::InvalidNumericLiteral),
            },
        }
    } else if sig == SIG_DOUBLE {
        match scan_line_at(input, pos) {
            Err(e) => Err(e),
            Ok((hi, newpos)) => {
                if is_double_range(input, pos + 1, hi) {
                    let payload = vstd::slice::slice_to_vec(
                        vstd::slice::slice_subrange(input, pos + 1, hi),
                    );
                    Ok((LexiData::Double(payload), newpos))
                } else {
                    Err(DecodeError::InvalidNumericLiteral)
                }
            },
        }
    } else if sig == SIG_SIMPLE {
        match scan_line_at(input, pos) {
            Err(e) => Err(e),
            Ok((hi, newpos)) => match match_simple(input, pos + 1, hi) {
                Some(ss) => {
                    proof {
                        let ok_text = crate::wire::simple_text(SimpleString::Okay);
                        let pong_text = crate::wire::simple_text(SimpleString::Pong);
                        let none_text = crate::wire::simple_text(SimpleString::Nothing);
                        assert(ok_text.len() != pong_text.len());
                        assert(ok_text.len() != none_text.len());
                        assert(pong_text[0] != none_text[0]);
                    }
                    Ok((LexiData::Simple(ss), newpos))
                },
                None => Err(DecodeError::UnknownSimpleLiteral),
            },
        }
    } else if sig == SIG_ERROR {
        match scan_line_at(input, pos) {
            Err(e) => Err(e),
            Ok((hi, newpos)) => {
                let payload = vstd::slice::slice_to_vec(
                    vstd::slice::slice_subrange(input, pos + 1, hi),
                );
                Ok((LexiData::Error(payload), newpos))
            },
        }
    } else {
        Err(DecodeError::IllegalSigil)
    }
}

/// One-shot recursive-descent parser over a fully buffered byte slice.
pub struct Parser<'a> {
    input: &'a [u8],
    pos: usize,
}

impl<'a> Parser<'a> {
    /// The bytes the parser was given.
    pub closed spec fn input_seq(&self) -> Seq<u8> {
        self.input@
    }

    /// How many bytes have been consumed so far.
    pub closed spec fn position(&self) -> int {
        self.pos as int
    }

    /// The position never runs past the input.
    pub closed spec fn wf(&self) -> bool {
        self.pos <= self.input@.len()
    }

    /// A parser at the start of `input`.
    pub fn new(input: &'a [u8]) -> (r: Self)
        ensures
            r.input_seq() == input@,
            r.position() == 0,
            r.wf(),
    {
        Parser { input, pos: 0 }
    }

    /// Reads the next frame, advancing past it on success; on failure the
    /// parser does not move and the error classifies the input.
    pub fn parse(&mut self) -> (r: Result<LexiData, DecodeError>)
        requires
            old(self).wf(),
        ensures
            final(self).wf(),
            final(self).input_seq() == old(self).input_seq(),
            ({
                let sp = spec_parse(old(self).input_seq().skip(old(self).position()));
                let moved = final(self).position() - old(self).position();
                match r {
                    Ok(v) => sp matches Ok(p) && p.0 == v@ && p.1 == moved,
                    Err(e) => sp == Err::<(ValueModel, int), DecodeError>(e) && moved == 0,
                }
            }),
    {
        match parse_at(self.input, self.pos) {
            Ok((v, newpos)) => {
                self.pos = newpos;
                Ok(v)
            },
            Err(e) => Err(e),
        }
    }
}

/// Decodes one complete frame from a fully buffered input; bytes after the
/// first frame are ignored.
pub fn decode(input: &[u8]) -> (r: Result<LexiData, DecodeError>)
    ensures
        ({
            let sp = spec_parse(input@);
            match r {
                Ok(v) => sp matches Ok(p) && p.0 == v@,
                Err(e) => sp == Err::<(ValueModel, int), DecodeError>(e),
            }
        }),
{
    proof {
        assert(input@.skip(0) =~= input@);
    }
    let mut p = Parser::new(input);
    p.parse()
}

} // verus!
