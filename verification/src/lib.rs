//! A small boolean query language over tags.
//!
//! Query text is scanned into tokens by [`tokenizer::tokenize`] and the token
//! sequence is turned into a forest of requirement nodes by the parser;
//! [`parse`] composes the two. Both stages carry full functional contracts:
//! the token sequence and the requirement forest are pinned down, for every
//! input, by the spec-level scanner and parser.

pub mod parser;
pub mod tokenizer;

pub use parser::{FnCall, ParseError, Requirement};

use vstd::prelude::*;

verus! {

use crate::parser::{spec_parse, reqs_view, error_view, ParseErrorView, ReqView};
use crate::tokenizer::{spec_tokenize, is_lex_whitespace, lemma_whitespace_scans_empty};

/// Parse a text input into a requirement tree.
///
/// The result is exactly what the spec-level parser yields on the spec-level
/// token sequence of the input.
pub fn parse<'a>(input: &'a str) -> (r: Result<Vec<Requirement<'a>>, ParseError<'a>>)
    ensures
        match r {
            Ok(reqs) => spec_parse(spec_tokenize(input@)) == Ok::<_, ParseErrorView>(
                reqs_view(reqs@),
            ),
            Err(e) => spec_parse(spec_tokenize(input@)) == Err::<Seq<ReqView>, _>(error_view(e)),
        },
{
    let tokens = tokenizer::tokenize(input);
    parser::parse(tokens.as_slice())
}

/// Law: an input of nothing but whitespace (or nothing at all) parses to an
/// empty requirement forest.
pub proof fn lemma_whitespace_parses_empty(text: Seq<char>)
    requires
        forall|j: int| 0 <= j < text.len() ==> is_lex_whitespace(text[j]),
    ensures
        spec_parse(spec_tokenize(text)) == Ok::<Seq<ReqView>, ParseErrorView>(seq![]),
{
    lemma_whitespace_scans_empty(text, 0);
    assert(spec_tokenize(text).len() == 0);
}

} // verus!
