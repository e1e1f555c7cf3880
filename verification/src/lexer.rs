//! The tokenizer: from the text of a script to its tokens, line by line.

use crate::error::SchemaError;
use crate::model::{chain, lemma_chain_associative, lemma_views_add, lemma_views_push, views};
use crate::text::{
    chars_of, is_single_line, is_word_text, lemma_filter_keeps_single_line,
    lemma_words_hold_no_whitespace, lines_of, lowercase_each, lowercase_of_each, split_lines,
    split_words, string_of, strip_quotes, strip_type_punctuation, without_quotes,
    without_type_punctuation, word_is, words_of,
};
use crate::token::{token_views, Token, TokenView};
use vstd::prelude::*;
use vstd::slice::slice_subrange;

verus! {

/// A line that begins with `/*` opens a block comment.
pub open spec fn is_comment_start(line: Seq<char>) -> bool {
    line.len() >= 2 && line[0] == '/' && line[1] == '*'
}

/// A line that ends with `*/` closes a block comment.
pub open spec fn is_comment_end(line: Seq<char>) -> bool {
    line.len() >= 2 && line[line.len() - 2] == '*' && line[line.len() - 1] == '/'
}

/// A line that ends with `;` ends a statement.
pub open spec fn is_statement_end(line: Seq<char>) -> bool {
    line.len() >= 1 && line[line.len() - 1] == ';'
}

/// Tells whether `line` begins with `/*`.
pub fn starts_comment(line: &[char]) -> (b: bool)
    ensures
        b == is_comment_start(line@),
{
    line.len() >= 2 && line[0] == '/' && line[1] == '*'
}

/// Tells whether `line` ends with `*/`.
pub fn ends_comment(line: &[char]) -> (b: bool)
    ensures
        b == is_comment_end(line@),
{
    line.len() >= 2 && line[line.len() - 2] == '*' && line[line.len() - 1] == '/'
}

/// Tells whether `line` ends with `;`.
pub fn ends_statement(line: &[char]) -> (b: bool)
    ensures
        b == is_statement_end(line@),
{
    line.len() >= 1 && line[line.len() - 1] == ';'
}

/// `create table <name> ...`, read off the lower-case words of a line.
pub open spec fn is_create_table(lower: Seq<Seq<char>>) -> bool {
    lower.len() >= 3 && lower[0] == "create"@ && lower[1] == "table"@
}

/// `alter table <name> add constraint <name>`: six words, no more.
pub open spec fn is_alter_table(lower: Seq<Seq<char>>) -> bool {
    &&& lower.len() == 6
    &&& lower[0] == "alter"@
    &&& lower[1] == "table"@
    &&& lower[3] == "add"@
    &&& lower[4] == "constraint"@
}

/// `foreign key <field> references <table> ...`.
pub open spec fn is_foreign_key(lower: Seq<Seq<char>>) -> bool {
    &&& lower.len() >= 5
    &&& lower[0] == "foreign"@
    &&& lower[1] == "key"@
    &&& lower[3] == "references"@
}

/// `constraint ...` and `create index ...`: statements that are recognised
/// and left out.
pub open spec fn is_ignored(lower: Seq<Seq<char>>) -> bool {
    ||| lower.len() >= 1 && lower[0] == "constraint"@
    ||| lower.len() >= 2 && lower[0] == "create"@ && lower[1] == "index"@
}

/// The field of a foreign key is written `("name")`.
pub open spec fn is_wrapped_field(word: Seq<char>) -> bool {
    &&& word.len() >= 4
    &&& word[0] == '('
    &&& word[1] == '"'
    &&& word[word.len() - 2] == '"'
    &&& word[word.len() - 1] == ')'
}

/// The name inside `("name")`.
pub open spec fn unwrapped_field(word: Seq<char>) -> Seq<char> {
    word.subrange(2, word.len() - 2)
}

/// The token that the words of a line stand for, if any. `lower` holds the
/// lower-case forms of `words`, by which the keywords are recognised; the
/// names are taken from `words`.
pub open spec fn keyword_token(words: Seq<Seq<char>>, lower: Seq<Seq<char>>) -> Result<
    Seq<TokenView>,
    SchemaError,
> {
    if is_create_table(lower) {
        Ok(seq![TokenView::TableStart(without_quotes(words[2]))])
    } else if is_alter_table(lower) {
        Ok(
            seq![
                TokenView::AlterTableStart {
                    table_name: without_quotes(words[2]),
                    foreign_key_name: without_quotes(words[5]),
                },
            ],
        )
    } else if is_foreign_key(lower) {
        if is_wrapped_field(words[2]) {
            Ok(
                seq![
                    TokenView::ForeignKeyTarget {
                        field_name: unwrapped_field(words[2]),
                        referenced_table: without_quotes(words[4]),
                    },
                ],
            )
        } else {
            Err(SchemaError::MalformedForeignKeyField)
        }
    } else if is_ignored(lower) {
        Ok(Seq::empty())
    } else if lower.len() >= 2 {
        Ok(
            seq![
                TokenView::FieldDeclaration {
                    name: without_quotes(words[0]),
                    field_type: without_type_punctuation(words[1]),
                },
            ],
        )
    } else {
        Ok(Seq::empty())
    }
}

/// The tokens of a line with the given words: the token that the words stand
/// for, then the end of the statement where the line ends one.
pub open spec fn line_tokens(
    words: Seq<Seq<char>>,
    lower: Seq<Seq<char>>,
    ends_statement: bool,
) -> Result<Seq<TokenView>, SchemaError> {
    chain(
        keyword_token(words, lower),
        Ok(
            if ends_statement {
                seq![TokenView::StatementEnd]
            } else {
                Seq::empty()
            },
        ),
    )
}

/// The tokens of one line outside a comment.
pub open spec fn tokens_of_line(line: Seq<char>) -> Result<Seq<TokenView>, SchemaError> {
    let words = words_of(line);
    line_tokens(words, lowercase_of_each(words), is_statement_end(line))
}

/// The tokens of `lines`, where `commented` tells whether a block comment is
/// open before the first of them. A line inside a comment is skipped, the
/// line that opens the comment and the line that closes it included.
pub open spec fn tokens_of_lines(lines: Seq<Seq<char>>, commented: bool) -> Result<
    Seq<TokenView>,
    SchemaError,
>
    decreases lines.len(),
{
    if lines.len() == 0 {
        Ok(Seq::empty())
    } else {
        let inside = commented || is_comment_start(lines[0]);
        let rest = tokens_of_lines(lines.drop_first(), inside && !is_comment_end(lines[0]));
        if inside {
            rest
        } else {
            chain(tokens_of_line(lines[0]), rest)
        }
    }
}

/// The tokens of a script.
pub open spec fn tokens_of(text: Seq<char>) -> Result<Seq<TokenView>, SchemaError> {
    tokens_of_lines(lines_of(text), false)
}

/// Whether a block comment is open after `lines`, where `commented` tells
/// whether one is open before them.
pub open spec fn comment_open_after(lines: Seq<Seq<char>>, commented: bool) -> bool
    decreases lines.len(),
{
    if lines.len() == 0 {
        commented
    } else {
        comment_open_after(
            lines.drop_first(),
            (commented || is_comment_start(lines[0])) && !is_comment_end(lines[0]),
        )
    }
}

/// The tokens of a script come in the order of its lines: the tokens of the
/// first lines, then those of the lines that follow.
pub proof fn lemma_tokens_in_line_order(
    first: Seq<Seq<char>>,
    rest: Seq<Seq<char>>,
    commented: bool,
)
    ensures
        tokens_of_lines(first + rest, commented) == chain(
            tokens_of_lines(first, commented),
            tokens_of_lines(rest, comment_open_after(first, commented)),
        ),
    decreases first.len(),
{
    if first.len() > 0 {
        let inside = commented || is_comment_start(first[0]);
        let next = inside && !is_comment_end(first[0]);
        lemma_tokens_in_line_order(first.drop_first(), rest, next);
        assert((first + rest).drop_first() =~= first.drop_first() + rest);
        if !inside {
            lemma_chain_associative(
                tokens_of_line(first[0]),
                tokens_of_lines(first.drop_first(), next),
                tokens_of_lines(rest, comment_open_after(first, commented)),
            );
        }
    }
}

proof fn lemma_comment_block(comment: Seq<Seq<char>>, commented: bool)
    requires
        comment.len() > 0,
        commented || is_comment_start(comment[0]),
        is_comment_end(comment.last()),
        forall|i: int| 0 <= i < comment.len() - 1 ==> !is_comment_end(comment[i]),
    ensures
        tokens_of_lines(comment, commented) == Ok::<Seq<TokenView>, SchemaError>(Seq::empty()),
        !comment_open_after(comment, commented),
    decreases comment.len(),
{
    let inner = comment.drop_first();
    if comment.len() > 1 {
        lemma_comment_block(inner, true);
    } else {
        assert(tokens_of_lines(inner, false) == Ok::<Seq<TokenView>, SchemaError>(Seq::empty()));
        assert(!comment_open_after(inner, false));
    }
}

/// What stands between a line that begins with `/*` and the first line
/// after it that ends with `*/`, these two lines included, gives no token
/// and no error; the lines after it are read as outside a comment.
pub proof fn lemma_comment_gives_nothing(
    before: Seq<Seq<char>>,
    comment: Seq<Seq<char>>,
    after: Seq<Seq<char>>,
    commented: bool,
)
    requires
        comment.len() > 0,
        is_comment_start(comment[0]),
        is_comment_end(comment.last()),
        forall|i: int| 0 <= i < comment.len() - 1 ==> !is_comment_end(comment[i]),
    ensures
        tokens_of_lines(before + comment + after, commented) == chain(
            tokens_of_lines(before, commented),
            tokens_of_lines(after, false),
        ),
{
    let open = comment_open_after(before, commented);
    lemma_tokens_in_line_order(before, comment + after, commented);
    lemma_tokens_in_line_order(comment, after, open);
    lemma_comment_block(comment, open);
    assert(before + comment + after =~= before + (comment + after));
}

/// A line that begins with `constraint` or with `create index` gives no
/// token but the end of its statement, and no error.
pub proof fn lemma_ignored_line(
    words: Seq<Seq<char>>,
    lower: Seq<Seq<char>>,
    ends_statement: bool,
)
    requires
        is_ignored(lower),
    ensures
        line_tokens(words, lower, ends_statement) == Ok::<Seq<TokenView>, SchemaError>(
            if ends_statement {
                seq![TokenView::StatementEnd]
            } else {
                Seq::empty()
            },
        ),
{
    reveal_strlit("constraint");
    reveal_strlit("create");
    reveal_strlit("index");
    reveal_strlit("table");
    reveal_strlit("alter");
    reveal_strlit("foreign");
    assert("constraint"@[1] != "create"@[1]);
    assert("create"@[0] != "foreign"@[0]);
    assert("index"@[0] != "table"@[0]);
}

/// Every name that a line gives to a token is free of double quotes: the
/// name of a table, of a field, of a foreign key and of the table it refers
/// to.
pub proof fn lemma_names_are_unquoted(
    words: Seq<Seq<char>>,
    lower: Seq<Seq<char>>,
    ends_statement: bool,
    i: int,
)
    requires
        line_tokens(words, lower, ends_statement) is Ok,
        0 <= i < line_tokens(words, lower, ends_statement)->Ok_0.len(),
    ensures
        match line_tokens(words, lower, ends_statement)->Ok_0[i] {
            TokenView::TableStart(name) => !name.contains('"'),
            TokenView::FieldDeclaration { name, field_type } => !name.contains('"'),
            TokenView::AlterTableStart { table_name, foreign_key_name } => !table_name.contains(
                '"',
            ) && !foreign_key_name.contains('"'),
            TokenView::ForeignKeyTarget { field_name, referenced_table } =>
                !referenced_table.contains('"'),
            TokenView::StatementEnd => true,
        },
{
}

/// The names and types of a token are free of line breaks.
pub open spec fn is_single_line_token(token: TokenView) -> bool {
    match token {
        TokenView::TableStart(name) => is_single_line(name),
        TokenView::FieldDeclaration { name, field_type } => is_single_line(name) && is_single_line(
            field_type,
        ),
        TokenView::AlterTableStart { table_name, foreign_key_name } => is_single_line(table_name)
            && is_single_line(foreign_key_name),
        TokenView::ForeignKeyTarget { field_name, referenced_table } => is_single_line(field_name)
            && is_single_line(referenced_table),
        TokenView::StatementEnd => true,
    }
}

/// No name and no type that a line gives to a token holds a line break:
/// each is made of the characters of one word.
pub proof fn lemma_tokens_are_single_lines(line: Seq<char>, i: int)
    requires
        tokens_of_line(line) is Ok,
        0 <= i < tokens_of_line(line)->Ok_0.len(),
    ensures
        is_single_line_token(tokens_of_line(line)->Ok_0[i]),
{
    let words = words_of(line);
    lemma_words_hold_no_whitespace(line, 0);
    assert forall|k: int| 0 <= k < words.len() implies is_single_line(#[trigger] words[k]) by {
        assert(is_word_text(words[k]));
    }
    assert forall|k: int| 0 <= k < words.len() implies is_single_line(
        without_quotes(#[trigger] words[k]),
    ) && is_single_line(without_type_punctuation(words[k])) && (is_wrapped_field(words[k])
        ==> is_single_line(unwrapped_field(words[k]))) by {
        lemma_filter_keeps_single_line(words[k], |c: char| c != '"');
        lemma_filter_keeps_single_line(words[k], |c: char| c != '(' && c != ')' && c != ',');
    }
}

/// The field of a foreign key written `("name")` is `name`.
pub proof fn lemma_wrapped_field(name: Seq<char>)
    ensures
        is_wrapped_field(seq!['(', '"'] + name + seq!['"', ')']),
        unwrapped_field(seq!['(', '"'] + name + seq!['"', ')']) == name,
{
}

fn unwrap_field(word: &[char]) -> (name: Option<String>)
    ensures
        name is Some == is_wrapped_field(word@),
        name matches Some(n) ==> n@ == unwrapped_field(word@),
{
    let n = word.len();
    if n >= 4 && word[0] == '(' && word[1] == '"' && word[n - 2] == '"' && word[n - 1] == ')' {
        Some(string_of(slice_subrange(word, 2, n - 2)))
    } else {
        None
    }
}

fn keyword_tokens(words: &Vec<Vec<char>>, lower: &Vec<Vec<char>>) -> (r: Result<
    Vec<Token>,
    SchemaError,
>)
    requires
        lower.len() == words.len(),
    ensures
        token_views(r) == keyword_token(views(words@), views(lower@)),
{
    let n = lower.len();
    let mut tokens: Vec<Token> = Vec::new();
    if n >= 3 && word_is(lower[0].as_slice(), "create") && word_is(lower[1].as_slice(), "table") {
        tokens.push(Token::TableStart(strip_quotes(words[2].as_slice())));
    } else if n == 6 && word_is(lower[0].as_slice(), "alter") && word_is(
        lower[1].as_slice(),
        "table",
    ) && word_is(lower[3].as_slice(), "add") && word_is(lower[4].as_slice(), "constraint") {
        tokens.push(
            Token::AlterTableStart {
                table_name: strip_quotes(words[2].as_slice()),
                foreign_key_name: strip_quotes(words[5].as_slice()),
            },
        );
    } else if n >= 5 && word_is(lower[0].as_slice(), "foreign") && word_is(
        lower[1].as_slice(),
        "key",
    ) && word_is(lower[3].as_slice(), "references") {
        match unwrap_field(words[2].as_slice()) {
            Some(field_name) => {
                tokens.push(
                    Token::ForeignKeyTarget {
                        field_name,
                        referenced_table: strip_quotes(words[4].as_slice()),
                    },
                );
            },
            None => {
                return Err(SchemaError::MalformedForeignKeyField);
            },
        }
    } else if n >= 1 && word_is(lower[0].as_slice(), "constraint") {
        // a constraint inside a table definition: left out
    } else if n >= 2 && word_is(lower[0].as_slice(), "create") && word_is(
        lower[1].as_slice(),
        "index",
    ) {
        // an index: left out
    } else if n >= 2 {
        tokens.push(
            Token::FieldDeclaration {
                name: strip_quotes(words[0].as_slice()),
                field_type: strip_type_punctuation(words[1].as_slice()),
            },
        );
    }
    proof {
        assert(views(tokens@) =~= keyword_token(views(words@), views(lower@))->Ok_0);
    }
    Ok(tokens)
}

/// Tokenizes one line from its words. `lower` holds the lower-case form of
/// each word.
pub fn tokenize_line(
    words: &Vec<Vec<char>>,
    lower: &Vec<Vec<char>>,
    ends_statement: bool,
) -> (r: Result<Vec<Token>, SchemaError>)
    requires
        lower.len() == words.len(),
    ensures
        token_views(r) == line_tokens(views(words@), views(lower@), ends_statement),
{
    match keyword_tokens(words, lower) {
        Ok(mut tokens) => {
            if ends_statement {
                proof {
                    lemma_views_push(tokens@, Token::StatementEnd);
                    assert(views(tokens@).push(TokenView::StatementEnd) =~= views(tokens@)
                        + seq![TokenView::StatementEnd]);
                }
                tokens.push(Token::StatementEnd);
            }
            Ok(tokens)
        },
        Err(e) => Err(e),
    }
}

/// Tokenizes a script: reads it line by line, skips the lines of block
/// comments, and gives the tokens of the other lines in their order. The
/// script is rejected where the field of a foreign key is malformed.
pub fn lex(s: &str) -> (r: Result<Vec<Token>, SchemaError>)
    ensures
        token_views(r) == tokens_of(s@),
{
    let text = chars_of(s);
    let lines = split_lines(text.as_slice());
    let mut tokens: Vec<Token> = Vec::new();
    let mut commented = false;
    let mut k: usize = 0;
    proof {
        assert(views(lines@).skip(0) =~= views(lines@));
    }
    while k < lines.len()
        invariant
            k <= lines.len(),
            views(lines@) == lines_of(s@),
            tokens_of(s@) == chain(
                Ok(views(tokens@)),
                tokens_of_lines(views(lines@).skip(k as int), commented),
            ),
        decreases lines.len() - k,
    {
        let line = lines[k].as_slice();
        let inside = commented || starts_comment(line);
        proof {
            assert(views(lines@).skip(k as int).drop_first() =~= views(lines@).skip(k + 1));
        }
        if !inside {
            let words = split_words(line);
            let lower = lowercase_each(&words);
            match tokenize_line(&words, &lower, ends_statement(line)) {
                Ok(mut more) => {
                    proof {
                        lemma_chain_associative(
                            Ok(views(tokens@)),
                            Ok(views(more@)),
                            tokens_of_lines(views(lines@).skip(k + 1), false),
                        );
                        lemma_views_add(tokens@, more@);
                    }
                    tokens.append(&mut more);
                },
                Err(e) => {
                    return Err(e);
                },
            }
        }
        commented = inside && !ends_comment(line);
        k += 1;
    }
    Ok(tokens)
}

} // verus!
