//! Text extraction from PDF documents held in memory.
//!
//! The crate reads the container format (cross-reference data, the object
//! graph, stream filters), interprets the text operators of content streams,
//! maps character codes to Unicode and joins the runs of every page into one
//! string. Nothing here performs I/O; the entry point for embedders is
//! [`ocr`], and [`page::extract`] gives the same text with notes of what
//! was left out on the way.
//!
//! The modules, from the bottom up:
//!
//! - [`reader`], [`lexer`], [`object`], [`token`]: a cursor over the bytes,
//!   the lexical rules, the object model with its parser, and the tokens of
//!   operator streams;
//! - [`asciihex`], [`ascii85`], [`runlength`], [`inflate`], [`flate`],
//!   [`predictor`], [`filter`]: the stream filters and their dispatch;
//! - [`xref`], [`table`], [`resolve`]: cross-reference sections, the merged
//!   table, and the fetching of indirect objects;
//! - [`geometry`], [`content`]: fixed-point matrices and the interpreter for
//!   content streams;
//! - [`encoding`], [`cmap`], [`font`]: encodings, character maps, and what
//!   is known of a font;
//! - [`text`], [`page`]: runs of text, the page tree, and the text of the
//!   document;
//! - [`document`], [`shown`]: what holds of whole documents, from the
//!   bytes of a content stream to the text that [`ocr`] returns.
//!
//! Every function carries a contract, and Verus proves each of them but
//! two: the functions in [`text`] that make a character of a code point
//! and append it to a string rest on the standard library. No proved
//! function can panic or overflow. The definitions that the contracts
//! refer to are the `spec_` functions beside each function.

pub mod error;
pub mod reader;
pub mod bytes;
pub mod lexer;
pub mod object;
pub mod token;
pub mod geometry;
pub mod asciihex;
pub mod ascii85;
pub mod runlength;
pub mod inflate;
pub mod flate;
pub mod predictor;
pub mod filter;
pub mod xref;
pub mod table;
pub mod resolve;
pub mod content;
pub mod encoding;
pub mod cmap;
pub mod font;
pub mod text;
pub mod page;
pub mod document;
pub mod shown;

use vstd::prelude::*;
use crate::error::ExtractError;
use crate::page::{extract_text, spec_extract_text};

verus! {

/// The text of the document in `bytes`, or the reason why it has none.
///
/// Every input gets an answer: a document that cannot be read gives an
/// error and never an empty text in its place. This is
/// [`page::extract_text`] under the name that embedders know.
pub fn ocr(bytes: &[u8]) -> (r: Result<String, ExtractError>)
    ensures
        r matches Err(e) ==> e.is_read_failure(),
        match r {
            Ok(t) => spec_extract_text(bytes@) == Ok::<_, ExtractError>(t@),
            Err(e) => spec_extract_text(bytes@) == Err::<Seq<char>, _>(e),
        },
{
    extract_text(bytes)
}

} // verus!
