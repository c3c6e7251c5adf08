//! Lexical tokens of the wire protocol, as classified by the token stream.

use vstd::prelude::*;

verus! {

/// One lexical token: a type sigil, a run of digits or text, a terminator
/// byte, the end of the stream, or an unrecognized leading byte.
///
/// An integer literal is carried as the eight big-endian bytes of its
/// two's-complement value.
#[derive(Debug, PartialEq, Eq, Clone)]
pub enum Token {
    BulkType,
    ArrayType,
    Len(Vec<u8>),
    Bulk(Vec<u8>),
    Int(Vec<u8>),
    Simple(Vec<u8>),
    Error(Vec<u8>),
    RetCar,
    NewL,
    Illegal,
    Eof,
}

/// The mathematical value of a token: payloads as plain byte sequences.
#[verifier::ext_equal]
pub enum TokenModel {
    BulkType,
    ArrayType,
    Len(Seq<u8>),
    Bulk(Seq<u8>),
    Int(Seq<u8>),
    Simple(Seq<u8>),
    Error(Seq<u8>),
    RetCar,
    NewL,
    Illegal,
    Eof,
}

impl View for Token {
    type V = TokenModel;

    open spec fn view(&self) -> TokenModel {
        match self {
            Token::BulkType => TokenModel::BulkType,
            Token::ArrayType => TokenModel::ArrayType,
            Token::Len(b) => TokenModel::Len(b@),
            Token::Bulk(b) => TokenModel::Bulk(b@),
            Token::Int(b) => TokenModel::Int(b@),
            Token::Simple(b) => TokenModel::Simple(b@),
            Token::Error(b) => TokenModel::Error(b@),
            Token::RetCar => TokenModel::RetCar,
            Token::NewL => TokenModel::NewL,
            Token::Illegal => TokenModel::Illegal,
            Token::Eof => TokenModel::Eof,
        }
    }
}

} // verus!
