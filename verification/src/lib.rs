//! A compiler from a markup language of `#` annotations to HTML.
//!
//! A document is read in two steps. The tokenizer ([`lexer`]) cuts the text
//! into tokens; the document compiler ([`parser`]) reads the tokens once,
//! checks them against the grammar, keeps the namespace of variables and
//! writes the HTML. What each step computes is defined in [`scan`] and
//! [`grammar`]; [`laws`] and [`spacing`] hold what follows from those
//! definitions.

use vstd::prelude::*;

pub mod grammar;
pub mod laws;
pub mod lexer;
pub mod parser;
pub mod scan;
pub mod spacing;
pub mod text;
pub mod token;

use crate::grammar::{parse, Failure};
use crate::lexer::{LexError, Lexer};
use crate::parser::{ParseError, Parser};
use crate::scan::{lemma_newlines_bound, tokenize, LexFailure};

verus! {

/// Why a document was not compiled.
#[derive(Debug, Clone, PartialEq)]
pub enum CompileError {
    /// The text is not a sequence of tokens.
    Lex(LexError),
    /// The tokens are not a document.
    Parse(ParseError),
}

/// The value of a [`CompileError`].
pub enum CompileFailure {
    Lex(LexFailure),
    Parse(Failure),
}

impl View for CompileError {
    type V = CompileFailure;

    open spec fn view(&self) -> CompileFailure {
        match self {
            CompileError::Lex(e) => CompileFailure::Lex(e@),
            CompileError::Parse(e) => CompileFailure::Parse(e@),
        }
    }
}

/// The HTML of the document `source`, or the first failure of its
/// compilation: that of the tokenizer, or else that of the grammar.
pub open spec fn compiled(source: Seq<char>) -> Result<Seq<char>, CompileFailure> {
    match tokenize(source) {
        Err(failure) => Err(CompileFailure::Lex(failure)),
        Ok(tokens) => match parse(tokens) {
            Err(failure) => Err(CompileFailure::Parse(failure)),
            Ok(html) => Ok(html),
        },
    }
}

/// The value of a result of [`compile`].
pub open spec fn html_view(r: Result<String, CompileError>) -> Result<Seq<char>, CompileFailure> {
    match r {
        Ok(html) => Ok(html@),
        Err(e) => Err(e@),
    }
}

/// Compiles the document `source` to HTML. Nothing is handed out when the
/// compilation fails.
///
/// The text must be short enough for its lines to be counted in a `usize`.
pub fn compile(source: &str) -> (r: Result<String, CompileError>)
    requires
        source@.len() < usize::MAX,
    ensures
        html_view(r) == compiled(source@),
{
    let mut lexer = Lexer::new(source);
    proof {
        lemma_newlines_bound(source@);
    }
    let tokens = match lexer.lex() {
        Ok(tokens) => tokens,
        Err(e) => {
            return Err(CompileError::Lex(e));
        },
    };
    let mut parser = Parser::new(tokens);
    match parser.parse() {
        Ok(()) => Ok(parser.into_output()),
        Err(e) => Err(CompileError::Parse(e)),
    }
}

} // verus!
