use sql_mermaid::text::{split_lines, split_words};
use sql_mermaid::{exprs_to_mermaid, lex, parse_tokens, translate, SchemaError, Token};

fn unquoted(word: &str) -> String {
    word.replace('"', "")
}

fn tokens_with_std(text: &str) -> Result<Vec<Token>, SchemaError> {
    let mut tokens = Vec::new();
    let mut commented = false;
    for line in text.lines() {
        let inside = commented || line.starts_with("/*");
        commented = inside && !line.ends_with("*/");
        if inside {
            continue;
        }
        let written: Vec<&str> = line.split_whitespace().collect();
        let lowered = line.to_lowercase();
        let words: Vec<&str> = lowered.split_whitespace().collect();
        match words.as_slice() {
            ["create", "table", _, ..] => tokens.push(Token::TableStart(unquoted(written[2]))),
            ["alter", "table", _, "add", "constraint", _] => tokens.push(Token::AlterTableStart {
                table_name: unquoted(written[2]),
                foreign_key_name: unquoted(written[5]),
            }),
            ["foreign", "key", _, "references", _, ..] => {
                let field = written[2]
                    .strip_prefix("(\"")
                    .and_then(|rest| rest.strip_suffix("\")"))
                    .ok_or(SchemaError::MalformedForeignKeyField)?;
                tokens.push(Token::ForeignKeyTarget {
                    field_name: field.to_string(),
                    referenced_table: unquoted(written[4]),
                });
            }
            ["constraint", ..] => {}
            ["create", "index", ..] => {}
            [_, _, ..] => tokens.push(Token::FieldDeclaration {
                name: unquoted(written[0]),
                field_type: written[1].replace(|c| ['(', ')', ','].contains(&c), ""),
            }),
            _ => {}
        }
        if line.ends_with(';') {
            tokens.push(Token::StatementEnd);
        }
    }
    Ok(tokens)
}

const LINES: [&str; 30] = [
    "",
    "  ",
    ")",
    ");",
    ";",
    "CREATE TABLE \"users\" (",
    "create table t;",
    "Create Table",
    "  \"id\" INT,",
    "  \"email\" VARCHAR(255)",
    "name text;",
    "ALTER TABLE \"orders\" ADD CONSTRAINT \"fk_user\"",
    "alter table a add constraint k;",
    "ALTER TABLE a ADD CONSTRAINT",
    "FOREIGN KEY (\"user_id\") REFERENCES \"users\" (id);",
    "foreign key (\"\") references t",
    "FOREIGN KEY (id) REFERENCES t;",
    "FOREIGN \u{212a}EY (\"a\") REFERENCES b",
    "CONSTRAINT pk PRIMARY KEY (id);",
    "constraint",
    "CREATE INDEX idx ON t (id);",
    "CREATE UNIQUE INDEX idx ON t (id);",
    "/* comment",
    "/* comment */",
    "comment */",
    "*/",
    "/*/",
    " /* indented",
    "\u{3a3}\u{391}\u{3a3} \u{130}D\u{a0}x;\r",
    "\ta\u{2003}b\r",
];

#[test]
fn tokens_are_those_that_the_standard_library_gives() {
    for first in LINES {
        for second in LINES {
            for third in LINES {
                for ending in ["", "\n", "\r\n"] {
                    let text = format!("{first}\n{second}\r\n{third}{ending}");
                    assert_eq!(lex(&text), tokens_with_std(&text), "{:?}", text);
                }
            }
        }
    }
}

#[test]
fn translation_is_the_three_stages_in_turn() {
    for first in LINES {
        for second in LINES {
            let text = format!("{first}\n{second}\n");
            let staged = match lex(&text) {
                Err(e) => Err(e),
                Ok(tokens) => match parse_tokens(&tokens) {
                    Err(e) => Err(e),
                    Ok(expressions) => Ok(exprs_to_mermaid(expressions)),
                },
            };
            assert_eq!(translate(&text), staged, "{:?}", text);
        }
    }
}

fn texts(alphabet: &[char], length: usize) -> Vec<String> {
    let mut all = vec![String::new()];
    let mut last = vec![String::new()];
    for _ in 0..length {
        let mut next = Vec::new();
        for text in &last {
            for c in alphabet {
                let mut longer = text.clone();
                longer.push(*c);
                next.push(longer);
            }
        }
        all.extend(next.iter().cloned());
        last = next;
    }
    all
}

fn strings(rows: Vec<Vec<char>>) -> Vec<String> {
    rows.iter().map(|r| r.iter().collect()).collect()
}

#[test]
fn every_short_text_has_the_lines_of_the_standard_library() {
    for text in texts(&['a', '\n', '\r', ' '], 7) {
        let chars: Vec<char> = text.chars().collect();
        let expected: Vec<String> = text.lines().map(|l| l.to_string()).collect();
        assert_eq!(strings(split_lines(&chars)), expected, "{:?}", text);
    }
}

#[test]
fn every_short_line_has_the_words_of_the_standard_library() {
    for text in texts(&['a', 'b', ' ', '\t', '\u{a0}'], 6) {
        let chars: Vec<char> = text.chars().collect();
        let expected: Vec<String> = text.split_whitespace().map(|w| w.to_string()).collect();
        assert_eq!(strings(split_words(&chars)), expected, "{:?}", text);
    }
}
