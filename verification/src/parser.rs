//! The structural parser: from tokens to the statements they form.

use crate::error::SchemaError;
use crate::model::{chain, lemma_chain_associative, lemma_views_push, views};
use crate::token::{Token, TokenView};
use vstd::prelude::*;

verus! {

/// One complete statement of a schema script.
#[derive(Debug, PartialEq, Eq)]
pub enum Expression {
    /// A table with its fields, each a name and a type, in the order in
    /// which they were declared.
    CreateTable { table_name: String, fields: Vec<(String, String)> },
    /// A named foreign key from a field of one table to another table.
    ForeignKey {
        table_name: String,
        foreign_key_name: String,
        field_name: String,
        referenced_table: String,
    },
}

/// An expression as contracts see it: each string by its characters.
pub enum ExpressionView {
    CreateTable { table_name: Seq<char>, fields: Seq<(Seq<char>, Seq<char>)> },
    ForeignKey {
        table_name: Seq<char>,
        foreign_key_name: Seq<char>,
        field_name: Seq<char>,
        referenced_table: Seq<char>,
    },
}

impl View for Expression {
    type V = ExpressionView;

    open spec fn view(&self) -> ExpressionView {
        match *self {
            Expression::CreateTable { table_name, fields } => ExpressionView::CreateTable {
                table_name: table_name@,
                fields: views(fields@),
            },
            Expression::ForeignKey {
                table_name,
                foreign_key_name,
                field_name,
                referenced_table,
            } => ExpressionView::ForeignKey {
                table_name: table_name@,
                foreign_key_name: foreign_key_name@,
                field_name: field_name@,
                referenced_table: referenced_table@,
            },
        }
    }
}

/// The outcome of parsing as contracts see it.
pub open spec fn expression_views(r: Result<Vec<Expression>, SchemaError>) -> Result<
    Seq<ExpressionView>,
    SchemaError,
> {
    match r {
        Ok(expressions) => Ok(views(expressions@)),
        Err(e) => Err(e),
    }
}

/// The index of the first `StatementEnd` of `tokens` at or after `from`, or
/// the length of `tokens` where there is none.
pub open spec fn statement_end(tokens: Seq<TokenView>, from: int) -> int
    decreases tokens.len() - from,
{
    if from >= tokens.len() {
        tokens.len() as int
    } else if tokens[from] is StatementEnd {
        from
    } else {
        statement_end(tokens, from + 1)
    }
}

/// `statement_end` finds the first `StatementEnd` at or after `from`.
pub proof fn lemma_statement_end(tokens: Seq<TokenView>, from: int)
    requires
        0 <= from <= tokens.len(),
    ensures
        from <= statement_end(tokens, from) <= tokens.len(),
        forall|i: int| from <= i < statement_end(tokens, from) ==> !(tokens[i] is StatementEnd),
        statement_end(tokens, from) < tokens.len() ==> tokens[statement_end(
            tokens,
            from,
        )] is StatementEnd,
    decreases tokens.len() - from,
{
    if from < tokens.len() && !(tokens[from] is StatementEnd) {
        lemma_statement_end(tokens, from + 1);
    }
}

/// The statements of `tokens` from position `from` on.
pub open spec fn statements_from(tokens: Seq<TokenView>, from: int) -> Seq<Seq<TokenView>>
    decreases tokens.len() - from,
    via statements_from_decreases
{
    if from < 0 || from >= tokens.len() {
        Seq::empty()
    } else {
        let end = statement_end(tokens, from);
        let rest = if end >= tokens.len() {
            Seq::empty()
        } else {
            statements_from(tokens, end + 1)
        };
        if end == from {
            rest
        } else {
            seq![tokens.subrange(from, end)] + rest
        }
    }
}

#[via_fn]
proof fn statements_from_decreases(tokens: Seq<TokenView>, from: int) {
    if 0 <= from < tokens.len() {
        lemma_statement_end(tokens, from);
    }
}

/// The statements of a token sequence: its maximal runs of tokens other
/// than `StatementEnd`, in order, the empty runs left out.
pub open spec fn statements_of(tokens: Seq<TokenView>) -> Seq<Seq<TokenView>> {
    statements_from(tokens, 0)
}

/// A run of tokens that can be a statement: not empty, and without a
/// `StatementEnd`.
pub open spec fn is_statement(run: Seq<TokenView>) -> bool {
    run.len() > 0 && forall|i: int| 0 <= i < run.len() ==> !(#[trigger] run[i] is StatementEnd)
}

/// Every statement of a token sequence holds at least one token, and no
/// `StatementEnd`.
pub proof fn lemma_statements_are_runs(tokens: Seq<TokenView>, from: int)
    requires
        0 <= from <= tokens.len(),
    ensures
        forall|k: int|
            0 <= k < statements_from(tokens, from).len() ==> is_statement(
                #[trigger] statements_from(tokens, from)[k],
            ),
    decreases tokens.len() - from,
{
    if from < tokens.len() {
        let end = statement_end(tokens, from);
        lemma_statement_end(tokens, from);
        let rest = if end >= tokens.len() {
            Seq::empty()
        } else {
            statements_from(tokens, end + 1)
        };
        if end < tokens.len() {
            lemma_statements_are_runs(tokens, end + 1);
        }
    }
}

/// The name and the type that a field declaration holds.
pub open spec fn field_of(token: TokenView) -> (Seq<char>, Seq<char>) {
    (token->name, token->field_type)
}

/// Every token of `body` declares a field.
pub open spec fn all_fields(body: Seq<TokenView>) -> bool {
    forall|i: int| 0 <= i < body.len() ==> body[i] is FieldDeclaration
}

/// The fields that the tokens of `body` declare, one for one.
pub open spec fn fields_of(body: Seq<TokenView>) -> Seq<(Seq<char>, Seq<char>)> {
    Seq::new(body.len(), |i: int| field_of(body[i]))
}

/// The expression that one statement forms. A statement that begins a table
/// holds field declarations after that and nothing else; a foreign key is
/// an `AlterTableStart` and a `ForeignKeyTarget` and nothing else; no other
/// statement is accepted.
pub open spec fn expression_of(statement: Seq<TokenView>) -> Result<ExpressionView, SchemaError> {
    if statement.len() == 0 {
        Err(SchemaError::InvalidExpression)
    } else {
        match statement[0] {
            TokenView::TableStart(table_name) => {
                if all_fields(statement.skip(1)) {
                    Ok(
                        ExpressionView::CreateTable {
                            table_name,
                            fields: fields_of(statement.skip(1)),
                        },
                    )
                } else {
                    Err(SchemaError::InvalidField)
                }
            },
            TokenView::AlterTableStart { table_name, foreign_key_name } => {
                if statement.len() == 2 {
                    match statement[1] {
                        TokenView::ForeignKeyTarget { field_name, referenced_table } => Ok(
                            ExpressionView::ForeignKey {
                                table_name,
                                foreign_key_name,
                                field_name,
                                referenced_table,
                            },
                        ),
                        _ => Err(SchemaError::InvalidExpression),
                    }
                } else {
                    Err(SchemaError::InvalidExpression)
                }
            },
            _ => Err(SchemaError::InvalidExpression),
        }
    }
}

/// A result as a sequence of one item.
pub open spec fn single(r: Result<ExpressionView, SchemaError>) -> Result<
    Seq<ExpressionView>,
    SchemaError,
> {
    match r {
        Ok(expression) => Ok(seq![expression]),
        Err(e) => Err(e),
    }
}

/// The expressions of statements, in order; the error of the first
/// statement that is not accepted, where there is one.
pub open spec fn expressions_of_statements(statements: Seq<Seq<TokenView>>) -> Result<
    Seq<ExpressionView>,
    SchemaError,
>
    decreases statements.len(),
{
    if statements.len() == 0 {
        Ok(Seq::empty())
    } else {
        chain(
            single(expression_of(statements[0])),
            expressions_of_statements(statements.drop_first()),
        )
    }
}

/// The expressions that a token sequence forms.
pub open spec fn expressions_of(tokens: Seq<TokenView>) -> Result<
    Seq<ExpressionView>,
    SchemaError,
> {
    expressions_of_statements(statements_of(tokens))
}

/// The tokens that declare `fields`, one declaration for each field.
pub open spec fn field_tokens(fields: Seq<(Seq<char>, Seq<char>)>) -> Seq<TokenView> {
    Seq::new(
        fields.len(),
        |i: int| TokenView::FieldDeclaration { name: fields[i].0, field_type: fields[i].1 },
    )
}

/// A table definition with N field declarations forms a table with exactly
/// those N fields, in the order of the declarations; N may be zero.
pub proof fn lemma_table_keeps_its_fields(
    table_name: Seq<char>,
    fields: Seq<(Seq<char>, Seq<char>)>,
)
    ensures
        expression_of(seq![TokenView::TableStart(table_name)] + field_tokens(fields)) == Ok::<
            ExpressionView,
            SchemaError,
        >(ExpressionView::CreateTable { table_name, fields }),
{
    let statement = seq![TokenView::TableStart(table_name)] + field_tokens(fields);
    assert(statement.skip(1) =~= field_tokens(fields));
    assert(fields_of(field_tokens(fields)) =~= fields);
}

proof fn lemma_statement_end_prefix(first: Seq<TokenView>, rest: Seq<TokenView>, from: int)
    requires
        0 <= from <= first.len(),
    ensures
        statement_end(first + seq![TokenView::StatementEnd] + rest, from) == statement_end(
            first,
            from,
        ),
    decreases first.len() - from,
{
    if from < first.len() && !(first[from] is StatementEnd) {
        lemma_statement_end_prefix(first, rest, from + 1);
    }
}

proof fn lemma_statement_end_shift(prefix: Seq<TokenView>, tokens: Seq<TokenView>, from: int)
    requires
        0 <= from <= tokens.len(),
    ensures
        statement_end(prefix + tokens, prefix.len() + from) == prefix.len() + statement_end(
            tokens,
            from,
        ),
    decreases tokens.len() - from,
{
    if from < tokens.len() && !(tokens[from] is StatementEnd) {
        lemma_statement_end_shift(prefix, tokens, from + 1);
    }
}

proof fn lemma_statements_from_shift(prefix: Seq<TokenView>, tokens: Seq<TokenView>, from: int)
    requires
        0 <= from <= tokens.len(),
    ensures
        statements_from(prefix + tokens, prefix.len() + from) == statements_from(tokens, from),
    decreases tokens.len() - from,
{
    if from < tokens.len() {
        let end = statement_end(tokens, from);
        lemma_statement_end(tokens, from);
        lemma_statement_end_shift(prefix, tokens, from);
        let shift = prefix.len() as int;
        assert((prefix + tokens).subrange(shift + from, shift + end) =~= tokens.subrange(
            from,
            end,
        ));
        if end < tokens.len() {
            lemma_statements_from_shift(prefix, tokens, end + 1);
        }
    }
}

proof fn lemma_statements_from_prefix(first: Seq<TokenView>, rest: Seq<TokenView>, from: int)
    requires
        0 <= from <= first.len(),
    ensures
        statements_from(first + seq![TokenView::StatementEnd] + rest, from) == statements_from(
            first,
            from,
        ) + statements_of(rest),
    decreases first.len() - from,
{
    let head = first + seq![TokenView::StatementEnd];
    let whole = head + rest;
    let end = statement_end(first, from);
    lemma_statement_end(first, from);
    lemma_statement_end_prefix(first, rest, from);
    assert(whole.subrange(from, end) =~= first.subrange(from, end));
    if end < first.len() {
        lemma_statements_from_prefix(first, rest, end + 1);
    } else {
        lemma_statements_from_shift(head, rest, 0);
    }
}

proof fn lemma_expressions_of_joined(first: Seq<Seq<TokenView>>, rest: Seq<Seq<TokenView>>)
    ensures
        expressions_of_statements(first + rest) == chain(
            expressions_of_statements(first),
            expressions_of_statements(rest),
        ),
    decreases first.len(),
{
    if first.len() > 0 {
        lemma_expressions_of_joined(first.drop_first(), rest);
        assert((first + rest).drop_first() =~= first.drop_first() + rest);
        lemma_chain_associative(
            single(expression_of(first[0])),
            expressions_of_statements(first.drop_first()),
            expressions_of_statements(rest),
        );
    }
}

/// The expressions of tokens come in the order of the statements: what
/// stands before a `StatementEnd` gives its expressions first, what stands
/// behind it gives its own after them, and the first error met is the error
/// of the whole.
pub proof fn lemma_statements_in_order(first: Seq<TokenView>, rest: Seq<TokenView>)
    ensures
        statements_of(first + seq![TokenView::StatementEnd] + rest) == statements_of(first)
            + statements_of(rest),
        expressions_of(first + seq![TokenView::StatementEnd] + rest) == chain(
            expressions_of(first),
            expressions_of(rest),
        ),
{
    lemma_statements_from_prefix(first, rest, 0);
    lemma_expressions_of_joined(statements_of(first), statements_of(rest));
}

/// A statement without tokens forms no expression and is no error.
pub proof fn lemma_empty_statement(tokens: Seq<TokenView>)
    ensures
        expressions_of(seq![TokenView::StatementEnd] + tokens) == expressions_of(tokens),
{
    let none = Seq::<TokenView>::empty();
    lemma_statements_in_order(none, tokens);
}

fn find_statement_end(tokens: &Vec<Token>, from: usize) -> (end: usize)
    requires
        from <= tokens.len(),
    ensures
        end == statement_end(views(tokens@), from as int),
        from <= end <= tokens.len(),
{
    let mut i: usize = from;
    while i < tokens.len()
        invariant
            from <= i <= tokens.len(),
            statement_end(views(tokens@), i as int) == statement_end(views(tokens@), from as int),
        decreases tokens.len() - i,
    {
        match &tokens[i] {
            Token::StatementEnd => {
                return i;
            },
            _ => {},
        }
        i += 1;
    }
    i
}

fn parse_fields(tokens: &Vec<Token>, from: usize, end: usize) -> (r: Result<
    Vec<(String, String)>,
    SchemaError,
>)
    requires
        from <= end <= tokens.len(),
    ensures
        match r {
            Ok(fields) => all_fields(views(tokens@).subrange(from as int, end as int)) && views(
                fields@,
            ) == fields_of(views(tokens@).subrange(from as int, end as int)),
            Err(e) => !all_fields(views(tokens@).subrange(from as int, end as int)) && e
                == SchemaError::InvalidField,
        },
{
    let ghost body = views(tokens@).subrange(from as int, end as int);
    let mut fields: Vec<(String, String)> = Vec::new();
    let mut i: usize = from;
    while i < end
        invariant
            from <= i <= end <= tokens.len(),
            body == views(tokens@).subrange(from as int, end as int),
            forall|j: int| 0 <= j < i - from ==> body[j] is FieldDeclaration,
            views(fields@) == fields_of(body.take(i - from)),
        decreases end - i,
    {
        match &tokens[i] {
            Token::FieldDeclaration { name, field_type } => {
                let field = (name.clone(), field_type.clone());
                proof {
                    assert(fields_of(body.take(i - from)).push(field@) =~= fields_of(
                        body.take(i + 1 - from),
                    ));
                }
                fields.push(field);
            },
            _ => {
                proof {
                    assert(!(body[i - from] is FieldDeclaration));
                }
                return Err(SchemaError::InvalidField);
            },
        }
        i += 1;
    }
    Ok(fields)
}

fn parse_statement(tokens: &Vec<Token>, from: usize, end: usize) -> (r: Result<
    Expression,
    SchemaError,
>)
    requires
        from < end <= tokens.len(),
    ensures
        match r {
            Ok(expression) => expression_of(views(tokens@).subrange(from as int, end as int))
                == Ok::<ExpressionView, SchemaError>(expression@),
            Err(e) => expression_of(views(tokens@).subrange(from as int, end as int)) == Err::<
                ExpressionView,
                SchemaError,
            >(e),
        },
{
    proof {
        assert(views(tokens@).subrange(from as int, end as int).skip(1) =~= views(
            tokens@,
        ).subrange(from + 1, end as int));
    }
    match &tokens[from] {
        Token::TableStart(table_name) => {
            match parse_fields(tokens, from + 1, end) {
                Ok(fields) => Ok(
                    Expression::CreateTable { table_name: table_name.clone(), fields },
                ),
                Err(e) => Err(e),
            }
        },
        Token::AlterTableStart { table_name, foreign_key_name } => {
            if end - from == 2 {
                match &tokens[from + 1] {
                    Token::ForeignKeyTarget { field_name, referenced_table } => Ok(
                        Expression::ForeignKey {
                            table_name: table_name.clone(),
                            foreign_key_name: foreign_key_name.clone(),
                            field_name: field_name.clone(),
                            referenced_table: referenced_table.clone(),
                        },
                    ),
                    _ => Err(SchemaError::InvalidExpression),
                }
            } else {
                Err(SchemaError::InvalidExpression)
            }
        },
        _ => Err(SchemaError::InvalidExpression),
    }
}

/// Groups tokens into statements and parses each of them.
pub fn parse_tokens(v: &Vec<Token>) -> (r: Result<Vec<Expression>, SchemaError>)
    ensures
        expression_views(r) == expressions_of(views(v@)),
{
    let ghost tokens = views(v@);
    let mut expressions: Vec<Expression> = Vec::new();
    let mut from: usize = 0;
    while from < v.len()
        invariant
            from <= v.len(),
            tokens == views(v@),
            expressions_of(tokens) == chain(
                Ok(views(expressions@)),
                expressions_of_statements(statements_from(tokens, from as int)),
            ),
        decreases v.len() - from,
    {
        let end = find_statement_end(v, from);
        let next = if end < v.len() {
            end + 1
        } else {
            end
        };
        let ghost rest = statements_from(tokens, next as int);
        if from < end {
            let ghost statement = tokens.subrange(from as int, end as int);
            proof {
                assert((seq![statement] + rest).drop_first() =~= rest);
                lemma_chain_associative(
                    Ok(views(expressions@)),
                    single(expression_of(statement)),
                    expressions_of_statements(rest),
                );
            }
            match parse_statement(v, from, end) {
                Ok(expression) => {
                    proof {
                        lemma_views_push(expressions@, expression);
                        assert(views(expressions@) + seq![expression@] =~= views(
                            expressions@,
                        ).push(expression@));
                    }
                    expressions.push(expression);
                },
                Err(e) => {
                    return Err(e);
                },
            }
        }
        from = next;
    }
    Ok(expressions)
}

} // verus!
