//! Tokens of operator streams: operands, operators, and what is neither.

use vstd::prelude::*;
use vstd::slice::{slice_subrange, slice_to_vec};
use crate::lexer::{is_regular, regular_end, skip_whitespace, spec_regular_end, spec_skip_whitespace};
use crate::object::{MAX_DEPTH, Obj, PdfObject, parse_value, spec_parse_value, well_formed};
use crate::reader::ByteReader;

verus! {

/// One token of a content stream or of a character map.
#[derive(Debug, PartialEq)]
pub enum Token {
    /// An object: a number, a string, a name, an array, a dictionary.
    Operand(PdfObject),
    /// A keyword that is no object.
    Operator(Vec<u8>),
    /// A byte that starts nothing; it is passed over.
    Junk,
    /// The end of the data.
    End,
}

/// The mathematical value of a [`Token`].
pub enum TokenView {
    Operand(Obj),
    Operator(Seq<u8>),
    Junk,
    End,
}

impl View for Token {
    type V = TokenView;

    open spec fn view(&self) -> TokenView {
        match self {
            Token::Operand(o) => TokenView::Operand(o@),
            Token::Operator(w) => TokenView::Operator(w@),
            Token::Junk => TokenView::Junk,
            Token::End => TokenView::End,
        }
    }
}

/// The token at or after `p` and the offset after it. What parses as an
/// object is an operand; any other run of regular bytes is an operator; a
/// byte that fits neither is junk of length one.
pub open spec fn spec_next_token(s: Seq<u8>, p: int) -> (TokenView, int) {
    let q = spec_skip_whitespace(s, p);
    if q < 0 || q >= s.len() {
        (TokenView::End, s.len() as int)
    } else {
        match spec_parse_value(s, q, MAX_DEPTH as nat) {
            Ok((o, e)) => (TokenView::Operand(o), e),
            Err(_) => if is_regular(s[q]) {
                (TokenView::Operator(s.subrange(q, spec_regular_end(s, q))), spec_regular_end(s, q))
            } else {
                (TokenView::Junk, q + 1)
            },
        }
    }
}

/// Reads the token at or after `pos`.
pub fn next_token_at(data: &[u8], pos: usize) -> (r: (Token, usize))
    ensures
        (r.0@, r.1 as int) == spec_next_token(data@, pos as int),
        r.0 matches Token::Operand(o) ==> well_formed(o@),
        r.1 <= data.len(),
        pos <= data.len() ==> pos <= r.1,
        !(r.0 is End) ==> pos < r.1,
{
    let q: usize = skip_whitespace(data, pos);
    if q >= data.len() {
        return (Token::End, data.len());
    }
    match parse_value(data, q, MAX_DEPTH) {
        Ok((o, e)) => (Token::Operand(o), e),
        Err(_) => {
            if is_regular(data[q]) {
                let e: usize = regular_end(data, q);
                (Token::Operator(slice_to_vec(slice_subrange(data, q, e))), e)
            } else {
                (Token::Junk, q + 1)
            }
        },
    }
}

/// Reads one token at the reader's position and moves the reader past it.
pub fn next_token(reader: &mut ByteReader) -> (r: Token)
    ensures
        final(reader).input() == old(reader).input(),
        (r@, final(reader).offset()) == spec_next_token(old(reader).input(), old(reader).offset()),
        r matches Token::Operand(o) ==> well_formed(o@),
        !(r is End) ==> final(reader).offset() > old(reader).offset(),
        final(reader).offset() <= old(reader).input().len(),
{
    let data = reader.bytes();
    let pos: usize = reader.position();
    let (t, e) = next_token_at(data, pos);
    let _ = reader.seek(e);
    t
}

} // verus!
