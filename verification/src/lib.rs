//! Translates a small subset of SQL data-definition statements into a
//! Mermaid entity-relationship diagram.
//!
//! The translation has three stages: [`lexer::lex`] turns the text of a
//! script into tokens, [`parser::parse_tokens`] groups the tokens into
//! statements, and [`mermaid::exprs_to_mermaid`] renders the statements as a
//! diagram. [`translate`] runs the three in turn.

pub mod error;
pub mod lexer;
pub mod mermaid;
pub mod model;
pub mod parser;
pub mod text;
pub mod token;

pub use crate::error::SchemaError;
pub use crate::lexer::lex;
pub use crate::mermaid::exprs_to_mermaid;
pub use crate::parser::{parse_tokens, Expression};
pub use crate::token::Token;

use crate::lexer::tokens_of;
use crate::mermaid::{blocks_of, lemma_blocks_in_order, mermaid_of};
use crate::parser::{expressions_of, lemma_statements_in_order};
use crate::token::TokenView;
use vstd::prelude::*;

verus! {

/// The diagram of a script, or the reason for which the script is rejected.
pub open spec fn diagram_of(source: Seq<char>) -> Result<Seq<char>, SchemaError> {
    match tokens_of(source) {
        Err(e) => Err(e),
        Ok(tokens) => match expressions_of(tokens) {
            Err(e) => Err(e),
            Ok(expressions) => Ok(mermaid_of(expressions)),
        },
    }
}

/// The outcome of a translation as contracts see it.
pub open spec fn diagram_view(r: Result<String, SchemaError>) -> Result<Seq<char>, SchemaError> {
    match r {
        Ok(diagram) => Ok(diagram@),
        Err(e) => Err(e),
    }
}

/// Translates a script into a diagram: tokenizes it, parses the tokens and
/// renders the statements. Nothing is rendered where a stage fails.
pub fn translate(source: &str) -> (r: Result<String, SchemaError>)
    ensures
        diagram_view(r) == diagram_of(source@),
{
    match lex(source) {
        Err(e) => Err(e),
        Ok(tokens) => match parse_tokens(&tokens) {
            Err(e) => Err(e),
            Ok(expressions) => Ok(exprs_to_mermaid(expressions)),
        },
    }
}

/// From tokens to text the order of the statements is kept: the text of
/// what stands before a `StatementEnd` comes first, and the text of what
/// stands behind it follows.
pub proof fn lemma_diagram_in_statement_order(first: Seq<TokenView>, rest: Seq<TokenView>)
    requires
        expressions_of(first) is Ok,
        expressions_of(rest) is Ok,
    ensures
        expressions_of(first + seq![TokenView::StatementEnd] + rest) == Ok::<_, SchemaError>(
            expressions_of(first)->Ok_0 + expressions_of(rest)->Ok_0,
        ),
        mermaid_of(expressions_of(first + seq![TokenView::StatementEnd] + rest)->Ok_0)
            == mermaid_of(expressions_of(first)->Ok_0) + blocks_of(expressions_of(rest)->Ok_0),
{
    lemma_statements_in_order(first, rest);
    lemma_blocks_in_order(expressions_of(first)->Ok_0, expressions_of(rest)->Ok_0);
}

} // verus!
