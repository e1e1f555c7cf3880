//! The lexical units of a schema script.

use crate::error::SchemaError;
use crate::model::views;
use vstd::prelude::*;

verus! {

/// One lexical unit, recognised on a single line of the script.
#[derive(Debug, PartialEq, Eq)]
pub enum Token {
    /// `CREATE TABLE <name>`: a table definition begins.
    TableStart(String),
    /// A column declaration inside a table definition.
    FieldDeclaration { name: String, field_type: String },
    /// `ALTER TABLE <table> ADD CONSTRAINT <name>`: a foreign key begins.
    AlterTableStart { table_name: String, foreign_key_name: String },
    /// `FOREIGN KEY ("<field>") REFERENCES <table>`: the field and the table
    /// that a foreign key points to.
    ForeignKeyTarget { field_name: String, referenced_table: String },
    /// The end of a statement: a line that ends with `;`.
    StatementEnd,
}

/// A token as contracts see it: each string by its characters.
pub enum TokenView {
    TableStart(Seq<char>),
    FieldDeclaration { name: Seq<char>, field_type: Seq<char> },
    AlterTableStart { table_name: Seq<char>, foreign_key_name: Seq<char> },
    ForeignKeyTarget { field_name: Seq<char>, referenced_table: Seq<char> },
    StatementEnd,
}

impl View for Token {
    type V = TokenView;

    open spec fn view(&self) -> TokenView {
        match *self {
            Token::TableStart(name) => TokenView::TableStart(name@),
            Token::FieldDeclaration { name, field_type } => TokenView::FieldDeclaration {
                name: name@,
                field_type: field_type@,
            },
            Token::AlterTableStart { table_name, foreign_key_name } => TokenView::AlterTableStart {
                table_name: table_name@,
                foreign_key_name: foreign_key_name@,
            },
            Token::ForeignKeyTarget { field_name, referenced_table } => {
                TokenView::ForeignKeyTarget {
                    field_name: field_name@,
                    referenced_table: referenced_table@,
                }
            },
            Token::StatementEnd => TokenView::StatementEnd,
        }
    }
}

/// The outcome of tokenizing as contracts see it.
pub open spec fn token_views(r: Result<Vec<Token>, SchemaError>) -> Result<
    Seq<TokenView>,
    SchemaError,
> {
    match r {
        Ok(tokens) => Ok(views(tokens@)),
        Err(e) => Err(e),
    }
}

} // verus!
