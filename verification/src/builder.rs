//! The frame encoder: an append-only builder over a growing byte buffer.
//!
//! Each `add_*` call appends one self-contained unit and returns the builder
//! for chaining.  `add_arr` only declares the element count; the caller must
//! append exactly that many units after it — the builder performs no arity
//! validation, so breaking that contract yields a syntactically well-formed
//! but structurally wrong stream.

use vstd::prelude::*;
use vstd::string::StringSliceAdditionalSpecFns;

use crate::digits::{dec_rep, push_dec};
use crate::lexi_data::{models_of, LexiData, SimpleString, ValueModel};
use crate::wire::{
    crlf, enc_items, enc_value, int_rep, is_double_text, lemma_enc_items_push, ping_frame,
    simple_text, CR, LF, SIG_ARRAY, SIG_BULK, SIG_DOUBLE, SIG_ERROR, SIG_INT, SIG_SIMPLE,
};

verus! {

/// Builds one request buffer, frame by frame.
pub struct Builder {
    buf: Vec<u8>,
}

enum TypeByte {
    Array,
    Bulk,
    Int,
    Double,
    Simple,
}

impl View for Builder {
    type V = Seq<u8>;

    closed spec fn view(&self) -> Seq<u8> {
        self.buf@
    }
}

impl Builder {
    /// An empty builder.
    pub fn new() -> (r: Self)
        ensures
            r@ == Seq::<u8>::empty(),
    {
        let buf = Vec::new();
        Builder { buf }
    }

    /// Appends the inline ping frame, `+PING` CR LF.
    pub fn add_ping(self) -> (r: Self)
        ensures
            r@ == self@ + ping_frame(),
    {
        let mut b = self;
        b.add_type_byte(TypeByte::Simple);
        b.buf.push(0x50);
        b.buf.push(0x49);
        b.buf.push(0x4e);
        b.buf.push(0x47);
        b.add_end();
        proof {
            assert(b@ =~= self@ + ping_frame());
        }
        b
    }

    /// Appends an array header declaring `len` elements; the caller must
    /// append exactly that many units after it.
    pub fn add_arr(self, len: usize) -> (r: Self)
        ensures
            r@ == self@ + seq![SIG_ARRAY] + dec_rep(len as nat) + crlf(),
    {
        let mut b = self;
        b.add_type_byte(TypeByte::Array);
        b.add_len(len);
        b.add_end();
        proof {
            assert(b@ =~= self@ + seq![SIG_ARRAY] + dec_rep(len as nat) + crlf());
        }
        b
    }

    /// Appends one bulk frame holding the bytes of `bulk`.
    pub fn add_bulk(self, bulk: &str) -> (r: Self)
        ensures
            r@ == self@ + enc_value(ValueModel::Bulk(bulk.spec_bytes())),
    {
        let mut b = self;
        let len = bulk.as_bytes().len();
        b.add_type_byte(TypeByte::Bulk);
        b.add_len(len);
        b.add_end();
        b.add_string(bulk);
        b.add_end();
        proof {
            assert(len as nat == bulk.spec_bytes().len());
            assert(enc_value(ValueModel::Bulk(bulk.spec_bytes())) == seq![SIG_BULK] + dec_rep(
                bulk.spec_bytes().len(),
            ) + crlf() + bulk.spec_bytes() + crlf());
            assert(b@ =~= self@ + enc_value(ValueModel::Bulk(bulk.spec_bytes())));
        }
        b
    }

    /// Appends one integer frame, `:` and the signed decimal text.
    pub fn add_int(self, i: i64) -> (r: Self)
        ensures
            r@ == self@ + enc_value(ValueModel::Int(i as int)),
    {
        let mut b = self;
        b.add_type_byte(TypeByte::Int);
        b.push_int_text(i);
        b.add_end();
        proof {
            assert(b@ =~= self@ + enc_value(ValueModel::Int(i as int)));
        }
        b
    }

    /// Appends one double frame carrying the given decimal text.
    pub fn add_double_text(self, text: &str) -> (r: Self)
        requires
            is_double_text(text.spec_bytes()),
        ensures
            r@ == self@ + enc_value(ValueModel::Double(text.spec_bytes())),
    {
        let mut b = self;
        b.add_type_byte(TypeByte::Double);
        b.add_string(text);
        b.add_end();
        proof {
            assert(b@ =~= self@ + enc_value(ValueModel::Double(text.spec_bytes())));
        }
        b
    }

    /// Appends the frame of a bulk, integer or double value; other kinds
    /// are rejected before any byte is written.
    pub fn add_impl_lexi_data(self, value: LexiData) -> (r: Self)
        requires
            value is Bulk || value is Int || value is Double,
        ensures
            r@ == self@ + enc_value(value@),
    {
        self.add_lexi_data(&value)
    }

    /// Appends the complete frame of any value, arrays included.
    #[verifier::loop_isolation(false)]
    pub fn add_lexi_data(self, data: &LexiData) -> (r: Self)
        ensures
            r@ == self@ + enc_value(data@),
        decreases *data,
    {
        match data {
            LexiData::Simple(s) => {
                let mut b = self;
                b.add_type_byte(TypeByte::Simple);
                match s {
                    SimpleString::Okay => {
                        b.buf.push(0x4f);
                        b.buf.push(0x4b);
                    },
                    SimpleString::Pong => {
                        b.buf.push(0x50);
                        b.buf.push(0x4f);
                        b.buf.push(0x4e);
                        b.buf.push(0x47);
                    },
                    SimpleString::Nothing => {
                        b.buf.push(0x4e);
                        b.buf.push(0x4f);
                        b.buf.push(0x4e);
                        b.buf.push(0x45);
                    },
                }
                b.add_end();
                proof {
                    assert(b@ =~= self@ + seq![SIG_SIMPLE] + simple_text(*s) + crlf());
                }
                b
            },
            LexiData::Int(i) => self.add_int(*i),
            LexiData::Double(t) => {
                let mut b = self;
                b.add_type_byte(TypeByte::Double);
                b.buf.extend_from_slice(t.as_slice());
                b.add_end();
                proof {
                    assert(b@ =~= self@ + seq![SIG_DOUBLE] + t@ + crlf());
                }
                b
            },
            LexiData::Bulk(bytes) => {
                let mut b = self;
                b.add_type_byte(TypeByte::Bulk);
                b.add_len(bytes.len());
                b.add_end();
                b.buf.extend_from_slice(bytes.as_slice());
                b.add_end();
                proof {
                    assert(b@ =~= self@ + enc_value(ValueModel::Bulk(bytes@)));
                }
                b
            },
            LexiData::Error(m) => {
                let mut b = self;
                b.buf.push(SIG_ERROR);
                b.buf.extend_from_slice(m.as_slice());
                b.add_end();
                proof {
                    assert(b@ =~= self@ + seq![SIG_ERROR] + m@ + crlf());
                }
                b
            },
            LexiData::Array(items) => {
                let mut b = self;
                b.add_type_byte(TypeByte::Array);
                b.add_len(items.len());
                b.add_end();
                let ghost vs = models_of(items@);
                let ghost mid = b@;
                let mut i: usize = 0;
                proof {
                    assert(vs.take(0) =~= Seq::<ValueModel>::empty());
                    assert(b@ =~= mid + enc_items(vs.take(0)));
                }
                while i < items.len()
                    invariant
                        i <= items.len(),
                        vs == models_of(items@),
                        vs.len() == items@.len(),
                        b@ == mid + enc_items(vs.take(i as int)),
                    decreases items.len() - i,
                {
                    proof {
                        assert(*items == (*data)->Array_0);
                        assert(decreases_to!(*data => (*data)->Array_0));
                        assert(decreases_to!(*items => items@));
                        assert(decreases_to!(items@ => items@[i as int]));
                        assert(decreases_to!(*data => items@[i as int]));
                    }
                    b = b.add_lexi_data(&items[i]);
                    proof {
                        assert(vs.take(i as int).push(vs[i as int]) =~= vs.take(i + 1));
                        lemma_enc_items_push(vs.take(i as int), vs[i as int]);
                    }
                    i = i + 1;
                }
                proof {
                    assert(vs.take(vs.len() as int) =~= vs);
                    assert(b@ =~= self@ + enc_value(data@));
                }
                b
            },
        }
    }

    /// Appends the signed decimal text of `int`, without sigil or terminator.
    fn push_int_text(&mut self, i: i64)
        ensures
            final(self)@ == old(self)@ + int_rep(i as int),
    {
        if i < 0 {
            self.buf.push(SIG_ERROR);
            let mag: u64 = if i == i64::MIN {
                0x8000_0000_0000_0000u64
            } else {
                (-i) as u64
            };
            push_dec(&mut self.buf, mag);
            proof {
                assert(self.buf@ =~= old(self).buf@ + int_rep(i as int));
            }
        } else {
            push_dec(&mut self.buf, i as u64);
        }
    }

    fn add_type_byte(&mut self, type_byte: TypeByte)
        ensures
            final(self)@ == old(self)@ + seq![
                match type_byte {
                    TypeByte::Array => SIG_ARRAY,
                    TypeByte::Bulk => SIG_BULK,
                    TypeByte::Int => SIG_INT,
                    TypeByte::Double => SIG_DOUBLE,
                    TypeByte::Simple => SIG_SIMPLE,
                },
            ],
    {
        match type_byte {
            TypeByte::Array => self.buf.push(SIG_ARRAY),
            TypeByte::Bulk => self.buf.push(SIG_BULK),
            TypeByte::Int => self.buf.push(SIG_INT),
            TypeByte::Double => self.buf.push(SIG_DOUBLE),
            TypeByte::Simple => self.buf.push(SIG_SIMPLE),
        }
        proof {
            assert(self.buf@ =~= old(self).buf@ + seq![self.buf@.last()]);
        }
    }

    fn add_len(&mut self, len: usize)
        ensures
            final(self)@ == old(self)@ + dec_rep(len as nat),
    {
        push_dec(&mut self.buf, len as u64);
    }

    fn add_string(&mut self, text: &str)
        ensures
            final(self)@ == old(self)@ + text.spec_bytes(),
    {
        let bytes = text.as_bytes();
        self.buf.extend_from_slice(bytes);
    }

    fn add_end(&mut self)
        ensures
            final(self)@ == old(self)@ + crlf(),
    {
        self.buf.push(CR);
        self.buf.push(LF);
        proof {
            assert(self.buf@ =~= old(self).buf@ + crlf());
        }
    }

    /// Discards the buffered bytes, returning the builder to its empty state.
    pub fn reset(self) -> (r: Self)
        ensures
            r@ == Seq::<u8>::empty(),
    {
        let mut b = self;
        b.buf.clear();
        b
    }

    /// Consumes the builder, yielding the buffered bytes.
    pub fn out(self) -> (r: Vec<u8>)
        ensures
            r@ == self@,
    {
        self.buf
    }
}

/// Encodes one value as one complete frame.
pub fn encode(data: &LexiData) -> (r: Vec<u8>)
    ensures
        r@ == enc_value(data@),
{
    Builder::new().add_lexi_data(data).out()
}

} // verus!
