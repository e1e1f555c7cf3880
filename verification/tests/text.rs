use sql_mermaid::text::{
    chars_of, is_whitespace, lowercase, lowercase_each, split_lines, split_words, string_of,
    strip_quotes, strip_type_punctuation, word_is,
};

fn chars(text: &str) -> Vec<char> {
    text.chars().collect()
}

fn strings(rows: Vec<Vec<char>>) -> Vec<String> {
    rows.iter().map(|r| r.iter().collect()).collect()
}

const SAMPLES: [&str; 16] = [
    "",
    "a",
    "\n",
    "a\n",
    "a\nb",
    "a\n\nb\n",
    "a\r\nb\r\n",
    "a\rb\r",
    "\r\n",
    "\r\r\n\n\r",
    "  a  b\t c \u{a0}d\u{3000}e\u{2003} ",
    "CREATE TABLE \"users\" (\n  \"id\" INT,\n);",
    "\u{85}x\u{1680}y\u{2028}z\u{2029}w\u{202f}v\u{205f}u",
    "\u{200b}not\u{180e}split\u{feff}",
    " \t\n\u{b}\u{c}\r ",
    "one",
];

#[test]
fn whitespace_is_the_unicode_class() {
    let mut c = '\0';
    loop {
        assert_eq!(is_whitespace(c), c.is_whitespace(), "{:?}", c);
        if c == char::MAX {
            break;
        }
        c = char::from_u32(c as u32 + 1).unwrap_or('\u{e000}');
    }
}

#[test]
fn lines_are_split_as_the_standard_library_splits_them() {
    for sample in SAMPLES {
        let expected: Vec<String> = sample.lines().map(|l| l.to_string()).collect();
        assert_eq!(strings(split_lines(&chars(sample))), expected, "{:?}", sample);
    }
}

#[test]
fn lines_end_at_line_feeds() {
    assert_eq!(strings(split_lines(&chars("a\r\nb\n\nc\r"))), vec!["a", "b", "", "c\r"]);
    assert_eq!(split_lines(&chars("")).len(), 0);
    assert_eq!(strings(split_lines(&chars("\n"))), vec![""]);
    assert_eq!(strings(split_lines(&chars("a\r\r\n"))), vec!["a\r"]);
}

#[test]
fn words_are_split_as_the_standard_library_splits_them() {
    for sample in SAMPLES {
        let expected: Vec<String> = sample.split_whitespace().map(|w| w.to_string()).collect();
        assert_eq!(strings(split_words(&chars(sample))), expected, "{:?}", sample);
    }
}

#[test]
fn words_are_runs_without_whitespace() {
    assert_eq!(strings(split_words(&chars("  a  bc\td "))), vec!["a", "bc", "d"]);
    assert_eq!(split_words(&chars("   ")).len(), 0);
    assert_eq!(split_words(&chars("")).len(), 0);
    assert_eq!(strings(split_words(&chars("x"))), vec!["x"]);
}

#[test]
fn strings_and_characters_convert_both_ways() {
    assert_eq!(chars_of("a\u{e9}\u{1f600}"), vec!['a', '\u{e9}', '\u{1f600}']);
    assert_eq!(chars_of(""), Vec::<char>::new());
    assert_eq!(string_of(&['a', 'b', '\u{e9}']), "ab\u{e9}");
    assert_eq!(string_of(&[]), "");
}

#[test]
fn lowercase_is_that_of_the_standard_library() {
    assert_eq!(lowercase(&chars("CREATE")), chars("create"));
    assert_eq!(lowercase(&chars("MiXed_09")), chars("mixed_09"));
    assert_eq!(lowercase(&chars("\u{c9}T\u{c9}")), chars("\u{e9}t\u{e9}"));
    assert_eq!(lowercase(&chars("\u{130}")), chars("i\u{307}"));
    for sample in SAMPLES {
        assert_eq!(lowercase(&chars(sample)), chars(&sample.to_lowercase()));
    }
    assert_eq!(
        lowercase_each(&vec![chars("ALTER"), chars(""), chars("Table")]),
        vec![chars("alter"), chars(""), chars("table")]
    );
}

#[test]
fn word_is_compared_letter_for_letter() {
    assert!(word_is(&chars("create"), "create"));
    assert!(!word_is(&chars("Create"), "create"));
    assert!(!word_is(&chars("creat"), "create"));
    assert!(!word_is(&chars("created"), "create"));
    assert!(word_is(&chars(""), ""));
}

#[test]
fn quotes_are_removed_wherever_they_stand() {
    assert_eq!(strip_quotes(&chars("\"users\"")), "users");
    assert_eq!(strip_quotes(&chars("us\"ers")), "users");
    assert_eq!(strip_quotes(&chars("\"\"\"")), "");
    assert_eq!(strip_quotes(&chars("'users'")), "'users'");
    assert_eq!(strip_quotes(&chars("")), "");
}

#[test]
fn type_punctuation_is_removed_wherever_it_stands() {
    assert_eq!(strip_type_punctuation(&chars("VARCHAR(255),")), "VARCHAR255");
    assert_eq!(strip_type_punctuation(&chars("INT,")), "INT");
    assert_eq!(strip_type_punctuation(&chars("NUMERIC(10,2)")), "NUMERIC102");
    assert_eq!(strip_type_punctuation(&chars("(),")), "");
    assert_eq!(strip_type_punctuation(&chars("\"INT\";")), "\"INT\";");
}
