use sql_mermaid::{parse_tokens, Expression, SchemaError, Token};

fn s(text: &str) -> String {
    text.to_string()
}

fn table(name: &str) -> Token {
    Token::TableStart(s(name))
}

fn field(name: &str, field_type: &str) -> Token {
    Token::FieldDeclaration { name: s(name), field_type: s(field_type) }
}

fn alter(table_name: &str, key: &str) -> Token {
    Token::AlterTableStart { table_name: s(table_name), foreign_key_name: s(key) }
}

fn target(field_name: &str, referenced: &str) -> Token {
    Token::ForeignKeyTarget { field_name: s(field_name), referenced_table: s(referenced) }
}

#[test]
fn table_keeps_its_fields_in_order() {
    let tokens = vec![
        table("users"),
        field("id", "INT"),
        field("email", "VARCHAR"),
        field("age", "INT"),
        Token::StatementEnd,
    ];
    assert_eq!(
        parse_tokens(&tokens),
        Ok(vec![Expression::CreateTable {
            table_name: s("users"),
            fields: vec![(s("id"), s("INT")), (s("email"), s("VARCHAR")), (s("age"), s("INT"))],
        }])
    );
}

#[test]
fn table_without_fields_is_accepted() {
    let tokens = vec![table("empty"), Token::StatementEnd];
    assert_eq!(
        parse_tokens(&tokens),
        Ok(vec![Expression::CreateTable { table_name: s("empty"), fields: vec![] }])
    );
}

#[test]
fn foreign_key_merges_its_two_tokens() {
    let tokens = vec![alter("orders", "fk_user"), target("user_id", "users"), Token::StatementEnd];
    assert_eq!(
        parse_tokens(&tokens),
        Ok(vec![Expression::ForeignKey {
            table_name: s("orders"),
            foreign_key_name: s("fk_user"),
            field_name: s("user_id"),
            referenced_table: s("users"),
        }])
    );
}

#[test]
fn foreign_key_has_exactly_two_tokens() {
    assert_eq!(parse_tokens(&vec![alter("a", "k")]), Err(SchemaError::InvalidExpression));
    assert_eq!(
        parse_tokens(&vec![alter("a", "k"), target("f", "b"), field("x", "INT")]),
        Err(SchemaError::InvalidExpression)
    );
    assert_eq!(
        parse_tokens(&vec![alter("a", "k"), field("x", "INT")]),
        Err(SchemaError::InvalidExpression)
    );
    assert_eq!(
        parse_tokens(&vec![alter("a", "k"), alter("a", "k")]),
        Err(SchemaError::InvalidExpression)
    );
}

#[test]
fn statement_must_begin_a_table_or_a_foreign_key() {
    assert_eq!(parse_tokens(&vec![field("x", "INT")]), Err(SchemaError::InvalidExpression));
    assert_eq!(parse_tokens(&vec![target("f", "b")]), Err(SchemaError::InvalidExpression));
    assert_eq!(
        parse_tokens(&vec![target("f", "b"), alter("a", "k")]),
        Err(SchemaError::InvalidExpression)
    );
}

#[test]
fn table_holds_fields_only() {
    assert_eq!(parse_tokens(&vec![table("a"), table("b")]), Err(SchemaError::InvalidField));
    assert_eq!(
        parse_tokens(&vec![table("a"), field("x", "INT"), alter("a", "k")]),
        Err(SchemaError::InvalidField)
    );
    assert_eq!(
        parse_tokens(&vec![table("a"), target("f", "b"), field("x", "INT")]),
        Err(SchemaError::InvalidField)
    );
}

#[test]
fn empty_statements_are_left_out() {
    assert_eq!(parse_tokens(&vec![Token::StatementEnd]), Ok(vec![]));
    assert_eq!(parse_tokens(&vec![Token::StatementEnd, Token::StatementEnd]), Ok(vec![]));
    let tokens = vec![
        Token::StatementEnd,
        table("a"),
        Token::StatementEnd,
        Token::StatementEnd,
        table("b"),
        Token::StatementEnd,
        Token::StatementEnd,
    ];
    assert_eq!(
        parse_tokens(&tokens),
        Ok(vec![
            Expression::CreateTable { table_name: s("a"), fields: vec![] },
            Expression::CreateTable { table_name: s("b"), fields: vec![] },
        ])
    );
}

#[test]
fn last_statement_needs_no_end() {
    let tokens = vec![table("a"), Token::StatementEnd, alter("a", "k"), target("f", "b")];
    assert_eq!(
        parse_tokens(&tokens),
        Ok(vec![
            Expression::CreateTable { table_name: s("a"), fields: vec![] },
            Expression::ForeignKey {
                table_name: s("a"),
                foreign_key_name: s("k"),
                field_name: s("f"),
                referenced_table: s("b"),
            },
        ])
    );
}

#[test]
fn nothing_is_returned_where_a_later_statement_fails() {
    let tokens = vec![
        table("a"),
        field("x", "INT"),
        Token::StatementEnd,
        alter("a", "k"),
        Token::StatementEnd,
    ];
    assert_eq!(parse_tokens(&tokens), Err(SchemaError::InvalidExpression));
}
