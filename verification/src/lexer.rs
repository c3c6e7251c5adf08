//! The token stream: classifies raw bytes into typed lexical tokens with
//! single-token lookahead.

use vstd::prelude::*;

use crate::digits::{digit_span, is_digit_byte};
use crate::token::{Token, TokenModel};
use crate::wire::{cr_span, int_text_val, is_int_text, CR, LF, SIG_ARRAY, SIG_BULK, SIG_INT};

verus! {

/// True for the ASCII bytes `'0'` through `'9'`.
fn is_digit(ch: u8) -> (r: bool)
    ensures
        r == is_digit_byte(ch),
{
    0x30 <= ch && ch <= 0x39
}

/// True for the ASCII letters `a`-`z` and `A`-`Z`.
pub open spec fn is_letter_byte(b: u8) -> bool {
    (0x61 <= b <= 0x7a) || (0x41 <= b <= 0x5a)
}

fn is_letter(ch: u8) -> (r: bool)
    ensures
        r == is_letter_byte(ch),
{
    (0x61 <= ch && ch <= 0x7a) || (0x41 <= ch && ch <= 0x5a)
}

/// The eight big-endian bytes of the two's-complement value of an integer.
pub open spec fn be_bytes64(v: int) -> Seq<u8>
    recommends
        i64::MIN <= v <= i64::MAX,
{
    Seq::new(8, |i: int| (((v as i64) as u64) >> ((8 * (7 - i)) as u64)) as u8)
}

/// What the token stream yields at position `p` of `s`: the token, and the
/// position just past it.  An unrecognized leading byte, like a numeric
/// literal that does not parse, yields `Illegal`; the former does not
/// advance, so the stream stays on the offending byte.
pub open spec fn spec_token(s: Seq<u8>, p: int) -> (TokenModel, int)
    recommends
        0 <= p <= s.len(),
{
    if p >= s.len() {
        (TokenModel::Eof, p)
    } else if s[p] == SIG_ARRAY {
        (TokenModel::ArrayType, p + 1)
    } else if s[p] == SIG_BULK {
        (TokenModel::BulkType, p + 1)
    } else if s[p] == CR {
        (TokenModel::RetCar, p + 1)
    } else if s[p] == LF {
        (TokenModel::NewL, p + 1)
    } else if s[p] == SIG_INT {
        let k = cr_span(s.skip(p + 1));
        let text = s.skip(p + 1).take(k);
        if is_int_text(text) && i64::MIN <= int_text_val(text) <= i64::MAX {
            (TokenModel::Int(be_bytes64(int_text_val(text))), p + 1 + k)
        } else {
            (TokenModel::Illegal, p + 1 + k)
        }
    } else if is_letter_byte(s[p]) {
        let k = cr_span(s.skip(p));
        (TokenModel::Bulk(s.skip(p).take(k)), p + k)
    } else if is_digit_byte(s[p]) {
        let d = digit_span(s.skip(p));
        (TokenModel::Len(s.skip(p).take(d)), p + d)
    } else {
        (TokenModel::Illegal, p)
    }
}

/// Walks a buffered byte run, handing out one token at a time.
pub struct Lexer {
    input: Vec<u8>,
    pos: usize,
}

impl Lexer {
    /// The bytes the lexer was given.
    pub closed spec fn input_seq(&self) -> Seq<u8> {
        self.input@
    }

    /// How many bytes have been consumed so far.
    pub closed spec fn position(&self) -> int {
        self.pos as int
    }

    /// The position never runs past the input.
    pub closed spec fn wf(&self) -> bool {
        self.pos <= self.input@.len()
    }

    /// A lexer at the start of `input`.
    pub fn new(input: Vec<u8>) -> (r: Self)
        ensures
            r.input_seq() == input@,
            r.position() == 0,
            r.wf(),
    {
        Lexer { input, pos: 0 }
    }

    /// Classifies the bytes at the current position as one token and
    /// advances past it.
    pub fn next_token(&mut self) -> (t: Token)
        requires
            old(self).wf(),
        ensures
            final(self).wf(),
            final(self).input_seq() == old(self).input_seq(),
            ({
                let (tm, np) = spec_token(old(self).input_seq(), old(self).position());
                t@ == tm && final(self).position() == np
            }),
    {
        let len = self.input.len();
        if self.pos == len {
            return Token::Eof;
        }
        let ch = self.input[self.pos];
        if ch == SIG_ARRAY {
            self.pos = self.pos + 1;
            Token::ArrayType
        } else if ch == SIG_BULK {
            self.pos = self.pos + 1;
            Token::BulkType
        } else if ch == CR {
            self.pos = self.pos + 1;
            Token::RetCar
        } else if ch == LF {
            self.pos = self.pos + 1;
            Token::NewL
        } else if ch == SIG_INT {
            self.pos = self.pos + 1;
            self.read_int()
        } else if is_letter(ch) {
            let text = self.read_string();
            Token::Bulk(text)
        } else if is_digit(ch) {
            let digits = self.read_len();
            Token::Len(digits)
        } else {
            Token::Illegal
        }
    }

    /// Reads the run of digits starting at the current position.
    fn read_len(&mut self) -> (r: Vec<u8>)
        requires
            old(self).wf(),
        ensures
            final(self).wf(),
            final(self).input_seq() == old(self).input_seq(),
            ({
                let s = old(self).input_seq();
                let p = old(self).position();
                let d = digit_span(s.skip(p));
                r@ == s.skip(p).take(d) && final(self).position() == p + d
            }),
    {
        let j = crate::parser::scan_digits(self.input.as_slice(), self.pos);
        let r = vstd::slice::slice_to_vec(
            vstd::slice::slice_subrange(self.input.as_slice(), self.pos, j),
        );
        proof {
            let s = self.input@;
            let p = self.pos as int;
            assert(s.subrange(p, j as int) =~= s.skip(p).take(j - p));
        }
        self.pos = j;
        r
    }

    /// Reads the text starting at the current position, up to the first CR
    /// or the end of the input.
    fn read_string(&mut self) -> (r: Vec<u8>)
        requires
            old(self).wf(),
        ensures
            final(self).wf(),
            final(self).input_seq() == old(self).input_seq(),
            ({
                let s = old(self).input_seq();
                let p = old(self).position();
                let k = cr_span(s.skip(p));
                r@ == s.skip(p).take(k) && final(self).position() == p + k
            }),
    {
        let j = crate::parser::scan_cr(self.input.as_slice(), self.pos);
        let r = vstd::slice::slice_to_vec(
            vstd::slice::slice_subrange(self.input.as_slice(), self.pos, j),
        );
        proof {
            let s = self.input@;
            let p = self.pos as int;
            assert(s.subrange(p, j as int) =~= s.skip(p).take(j - p));
        }
        self.pos = j;
        r
    }

    /// Reads the signed decimal text up to the first CR and carries its
    /// value as eight big-endian bytes; text that does not parse as an
    /// in-range integer yields `Illegal`.
    fn read_int(&mut self) -> (t: Token)
        requires
            old(self).wf(),
        ensures
            final(self).wf(),
            final(self).input_seq() == old(self).input_seq(),
            ({
                let s = old(self).input_seq();
                let p = old(self).position();
                let k = cr_span(s.skip(p));
                let text = s.skip(p).take(k);
                &&& final(self).position() == p + k
                &&& t@ == if is_int_text(text) && i64::MIN <= int_text_val(text) <= i64::MAX {
                    TokenModel::Int(be_bytes64(int_text_val(text)))
                } else {
                    TokenModel::Illegal
                }
            }),
    {
        let j = crate::parser::scan_cr(self.input.as_slice(), self.pos);
        let parsed = crate::parser::parse_int_range(self.input.as_slice(), self.pos, j);
        proof {
            let s = self.input@;
            let p = self.pos as int;
            assert(s.subrange(p, j as int) =~= s.skip(p).take(j - p));
        }
        let t = match parsed {
            Some(v) => Token::Int(int_to_be_bytes(v)),
            None => Token::Illegal,
        };
        self.pos = j;
        t
    }
}

/// The eight big-endian bytes of an integer's two's-complement value.
fn int_to_be_bytes(v: i64) -> (r: Vec<u8>)
    ensures
        r@ == be_bytes64(v as int),
{
    let u = v as u64;
    let mut out: Vec<u8> = Vec::new();
    let mut k: usize = 0;
    while k < 8
        invariant
            k <= 8,
            out@.len() == k,
            u == v as u64,
            forall|i: int| 0 <= i < k ==> out@[i] == be_bytes64(v as int)[i],
        decreases 8 - k,
    {
        let shift: u64 = ((7 - k) * 8) as u64;
        let byte = #[verifier::truncate] ((u >> shift) as u8);
        out.push(byte);
        k = k + 1;
    }
    proof {
        assert(out@ =~= be_bytes64(v as int));
    }
    out
}

} // verus!
