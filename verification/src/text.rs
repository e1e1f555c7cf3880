//! Character-level building blocks: the whitespace class, splitting a text
//! into lines and a line into words, and conversions between strings and
//! character vectors.

use crate::model::views;
use vstd::prelude::*;
use vstd::slice::{slice_subrange, slice_to_vec};

verus! {

/// The characters with the Unicode property `White_Space`.
pub open spec fn is_white_space(c: char) -> bool {
    let code = c as u32;
    ||| 0x09 <= code <= 0x0D
    ||| code == 0x20
    ||| code == 0x85
    ||| code == 0xA0
    ||| code == 0x1680
    ||| 0x2000 <= code <= 0x200A
    ||| code == 0x2028
    ||| code == 0x2029
    ||| code == 0x202F
    ||| code == 0x205F
    ||| code == 0x3000
}

/// Tells whether `c` separates words.
pub fn is_whitespace(c: char) -> (b: bool)
    ensures
        b == is_white_space(c),
{
    let code: u32 = c as u32;
    (0x09 <= code && code <= 0x0D) || code == 0x20 || code == 0x85 || code == 0xA0
        || code == 0x1680 || (0x2000 <= code && code <= 0x200A) || code == 0x2028
        || code == 0x2029 || code == 0x202F || code == 0x205F || code == 0x3000
}

/// Calls `String::push`. Taken on trust: afterwards the string holds the
/// characters that it held before, followed by `c`.
#[verifier::external_body]
fn push_char(s: &mut String, c: char)
    ensures
        final(s)@ == old(s)@.push(c),
{
    s.push(c);
}

/// The characters of `s`, in order.
pub fn chars_of(s: &str) -> (chars: Vec<char>)
    ensures
        chars@ == s@,
{
    let mut chars: Vec<char> = Vec::new();
    for c in it: s.chars()
        invariant
            it.seq() == s@,
            chars@ == s@.take(it.index() as int),
    {
        chars.push(c);
    }
    chars
}

/// The string made of `chars`, in order.
pub fn string_of(chars: &[char]) -> (s: String)
    ensures
        s@ == chars@,
{
    let mut s = String::new();
    let mut i: usize = 0;
    while i < chars.len()
        invariant
            i <= chars.len(),
            s@ == chars@.take(i as int),
        decreases chars.len() - i,
    {
        push_char(&mut s, chars[i]);
        i += 1;
    }
    s
}

/// The index of the first line feed of `s` at or after `from`, or the length
/// of `s` where there is none.
pub open spec fn line_end(s: Seq<char>, from: int) -> int
    decreases s.len() - from,
{
    if from >= s.len() {
        s.len() as int
    } else if s[from] == '\n' {
        from
    } else {
        line_end(s, from + 1)
    }
}

/// The line that starts at `from` and whose line feed, if it has one, is at
/// `end`: a carriage return just before the line feed belongs to the line
/// ending and not to the line.
pub open spec fn line_at(s: Seq<char>, from: int, end: int) -> Seq<char> {
    if from < end < s.len() && s[end - 1] == '\r' {
        s.subrange(from, end - 1)
    } else {
        s.subrange(from, end)
    }
}

/// The lines of `s` from position `from` on.
pub open spec fn lines_from(s: Seq<char>, from: int) -> Seq<Seq<char>>
    decreases s.len() - from,
    via lines_from_decreases
{
    if from < 0 || from >= s.len() {
        Seq::empty()
    } else {
        let end = line_end(s, from);
        if end >= s.len() {
            seq![line_at(s, from, end)]
        } else {
            seq![line_at(s, from, end)] + lines_from(s, end + 1)
        }
    }
}

#[via_fn]
proof fn lines_from_decreases(s: Seq<char>, from: int) {
    if 0 <= from < s.len() {
        lemma_line_end(s, from);
    }
}

/// The lines of a text. A line ends at a line feed or at the end of the
/// text; the line feed, and a carriage return just before it, are not part
/// of the line. A text that ends with a line feed has no empty last line.
pub open spec fn lines_of(s: Seq<char>) -> Seq<Seq<char>> {
    lines_from(s, 0)
}

/// `line_end` finds the first line feed at or after `from`.
pub proof fn lemma_line_end(s: Seq<char>, from: int)
    requires
        0 <= from <= s.len(),
    ensures
        from <= line_end(s, from) <= s.len(),
        forall|i: int| from <= i < line_end(s, from) ==> s[i] != '\n',
        line_end(s, from) < s.len() ==> s[line_end(s, from)] == '\n',
    decreases s.len() - from,
{
    if from < s.len() && s[from] != '\n' {
        lemma_line_end(s, from + 1);
    }
}

/// No character of `s` is a line feed or a carriage return.
pub open spec fn is_single_line(s: Seq<char>) -> bool {
    forall|i: int| 0 <= i < s.len() ==> s[i] != '\n' && s[i] != '\r'
}

proof fn lemma_line_end_shift(prefix: Seq<char>, s: Seq<char>, from: int)
    requires
        0 <= from <= s.len(),
    ensures
        line_end(prefix + s, prefix.len() + from) == prefix.len() + line_end(s, from),
    decreases s.len() - from,
{
    if from < s.len() {
        if s[from] != '\n' {
            lemma_line_end_shift(prefix, s, from + 1);
        }
    }
}

proof fn lemma_lines_from_shift(prefix: Seq<char>, s: Seq<char>, from: int)
    requires
        0 <= from <= s.len(),
    ensures
        lines_from(prefix + s, prefix.len() + from) == lines_from(s, from),
    decreases s.len() - from,
{
    if from < s.len() {
        let end = line_end(s, from);
        lemma_line_end(s, from);
        lemma_line_end_shift(prefix, s, from);
        let whole = prefix + s;
        let shift = prefix.len() as int;
        assert(whole.subrange(shift + from, shift + end) =~= s.subrange(from, end));
        if from < end {
            assert(whole.subrange(shift + from, shift + end - 1) =~= s.subrange(from, end - 1));
        }
        if end < s.len() {
            lemma_lines_from_shift(prefix, s, end + 1);
        }
    }
}

/// A text that begins with a whole line has that line first, and then the
/// lines of what follows the line feed.
pub proof fn lemma_first_line(line: Seq<char>, rest: Seq<char>)
    requires
        forall|i: int| 0 <= i < line.len() ==> line[i] != '\n',
        line.len() == 0 || line.last() != '\r',
    ensures
        lines_of(line + seq!['\n'] + rest) == seq![line] + lines_of(rest),
{
    let head = line + seq!['\n'];
    let whole = head + rest;
    let end = line_end(whole, 0);
    lemma_line_end(whole, 0);
    assert(whole[line.len() as int] == '\n');
    assert(whole.subrange(0, end) =~= line);
    if end + 1 < whole.len() {
        lemma_lines_from_shift(head, rest, 0);
    } else {
        assert(lines_from(whole, end + 1) =~= lines_of(rest));
    }
}

fn find_line_end(text: &[char], from: usize) -> (end: usize)
    requires
        from <= text.len(),
    ensures
        end == line_end(text@, from as int),
        from <= end <= text.len(),
{
    let mut i: usize = from;
    while i < text.len() && text[i] != '\n'
        invariant
            from <= i <= text.len(),
            line_end(text@, i as int) == line_end(text@, from as int),
        decreases text.len() - i,
    {
        i += 1;
    }
    i
}

/// Splits a text into its lines.
pub fn split_lines(text: &[char]) -> (lines: Vec<Vec<char>>)
    ensures
        views(lines@) == lines_of(text@),
{
    let mut lines: Vec<Vec<char>> = Vec::new();
    let mut from: usize = 0;
    while from < text.len()
        invariant
            from <= text.len(),
            views(lines@) + lines_from(text@, from as int) == lines_of(text@),
        decreases text.len() - from,
    {
        let end = find_line_end(text, from);
        let stop = if from < end && end < text.len() && text[end - 1] == '\r' {
            end - 1
        } else {
            end
        };
        let line = slice_to_vec(slice_subrange(text, from, stop));
        lines.push(line);
        from = if end < text.len() { end + 1 } else { end };
    }
    lines
}

/// A text that could be a word: not empty, and without whitespace.
pub open spec fn is_word_text(s: Seq<char>) -> bool {
    s.len() > 0 && forall|i: int| 0 <= i < s.len() ==> !is_white_space(#[trigger] s[i])
}

/// The index of the first character of `s` at or after `from` that is
/// whitespace where `space` is false, or is not where `space` is true; the
/// length of `s` where there is none.
pub open spec fn run_end(s: Seq<char>, from: int, space: bool) -> int
    decreases s.len() - from,
{
    if from >= s.len() {
        s.len() as int
    } else if is_white_space(s[from]) != space {
        from
    } else {
        run_end(s, from + 1, space)
    }
}

/// `run_end` finds the end of a run of characters of one kind.
pub proof fn lemma_run_end(s: Seq<char>, from: int, space: bool)
    requires
        0 <= from <= s.len(),
    ensures
        from <= run_end(s, from, space) <= s.len(),
        forall|i: int| from <= i < run_end(s, from, space) ==> is_white_space(s[i]) == space,
        run_end(s, from, space) < s.len() ==> is_white_space(s[run_end(s, from, space)]) != space,
    decreases s.len() - from,
{
    if from < s.len() && is_white_space(s[from]) == space {
        lemma_run_end(s, from + 1, space);
    }
}

/// The words of `s` from position `from` on.
pub open spec fn words_from(s: Seq<char>, from: int) -> Seq<Seq<char>>
    decreases s.len() - from,
    via words_from_decreases
{
    let start = run_end(s, from, true);
    if from < 0 || start >= s.len() {
        Seq::empty()
    } else {
        let end = run_end(s, start, false);
        seq![s.subrange(start, end)] + words_from(s, end)
    }
}

#[via_fn]
proof fn words_from_decreases(s: Seq<char>, from: int) {
    if 0 <= from <= s.len() {
        lemma_run_end(s, from, true);
        let start = run_end(s, from, true);
        if start < s.len() {
            lemma_run_end(s, start, false);
        }
    }
}

/// The words of a line: its maximal runs of characters that are not
/// whitespace, in order.
pub open spec fn words_of(s: Seq<char>) -> Seq<Seq<char>> {
    words_from(s, 0)
}

/// No word of a line holds whitespace, and none is empty.
pub proof fn lemma_words_hold_no_whitespace(s: Seq<char>, from: int)
    requires
        0 <= from <= s.len(),
    ensures
        forall|k: int|
            0 <= k < words_from(s, from).len() ==> is_word_text(
                #[trigger] words_from(s, from)[k],
            ),
    decreases s.len() - from,
{
    lemma_run_end(s, from, true);
    let start = run_end(s, from, true);
    if start < s.len() {
        lemma_run_end(s, start, false);
        let end = run_end(s, start, false);
        lemma_words_hold_no_whitespace(s, end);
        assert forall|k: int| 0 <= k < words_from(s, from).len() implies is_word_text(
            #[trigger] words_from(s, from)[k],
        ) by {
            if k > 0 {
                assert(words_from(s, from)[k] == words_from(s, end)[k - 1]);
            }
        }
    }
}

fn find_run_end(line: &[char], from: usize, space: bool) -> (end: usize)
    requires
        from <= line.len(),
    ensures
        end == run_end(line@, from as int, space),
        from <= end <= line.len(),
        end < line.len() ==> is_white_space(line@[end as int]) != space,
{
    let mut i: usize = from;
    while i < line.len() && is_whitespace(line[i]) == space
        invariant
            from <= i <= line.len(),
            run_end(line@, i as int, space) == run_end(line@, from as int, space),
        decreases line.len() - i,
    {
        i += 1;
    }
    i
}

/// Splits a line into its words.
pub fn split_words(line: &[char]) -> (words: Vec<Vec<char>>)
    ensures
        views(words@) == words_of(line@),
{
    let mut words: Vec<Vec<char>> = Vec::new();
    let mut from: usize = 0;
    let mut start: usize = find_run_end(line, 0, true);
    while start < line.len()
        invariant
            from <= start <= line.len(),
            start == run_end(line@, from as int, true),
            views(words@) + words_from(line@, from as int) == words_of(line@),
        decreases line.len() - from,
    {
        let end = find_run_end(line, start, false);
        let word = slice_to_vec(slice_subrange(line, start, end));
        words.push(word);
        from = end;
        start = find_run_end(line, from, true);
    }
    words
}

/// The lower-case form that `str::to_lowercase` gives to a string. Nothing
/// is stated of it but that it depends on the characters of the string
/// alone.
pub uninterp spec fn lowercase_of(s: Seq<char>) -> Seq<char>;

/// Calls `str::to_lowercase`. Taken on trust: the result is the lower-case
/// form of `s`, whatever that is.
#[verifier::external_body]
fn to_lowercase(s: &str) -> (lower: String)
    ensures
        lower@ == lowercase_of(s@),
{
    s.to_lowercase()
}

/// The lower-case form of a word.
pub fn lowercase(word: &[char]) -> (lower: Vec<char>)
    ensures
        lower@ == lowercase_of(word@),
{
    let s = string_of(word);
    let lower = to_lowercase(s.as_str());
    chars_of(lower.as_str())
}

/// The lower-case forms of words, one for one.
pub open spec fn lowercase_of_each(words: Seq<Seq<char>>) -> Seq<Seq<char>> {
    Seq::new(words.len(), |i: int| lowercase_of(words[i]))
}

/// The lower-case form of each word.
pub fn lowercase_each(words: &Vec<Vec<char>>) -> (lower: Vec<Vec<char>>)
    ensures
        views(lower@) == lowercase_of_each(views(words@)),
{
    let mut lower: Vec<Vec<char>> = Vec::new();
    let mut i: usize = 0;
    while i < words.len()
        invariant
            i <= words.len(),
            lower.len() == i,
            forall|j: int| 0 <= j < i ==> lower@[j]@ == lowercase_of(words@[j]@),
        decreases words.len() - i,
    {
        let word = lowercase(words[i].as_slice());
        lower.push(word);
        i += 1;
    }
    lower
}

/// Tells whether `word` is spelled exactly as `keyword`.
pub fn word_is(word: &[char], keyword: &str) -> (b: bool)
    ensures
        b == (word@ == keyword@),
{
    let expected = chars_of(keyword);
    if word.len() != expected.len() {
        return false;
    }
    let mut i: usize = 0;
    while i < word.len()
        invariant
            i <= word.len(),
            word.len() == expected.len(),
            expected@ == keyword@,
            forall|j: int| 0 <= j < i ==> word@[j] == expected@[j],
        decreases word.len() - i,
    {
        if word[i] != expected[i] {
            return false;
        }
        i += 1;
    }
    proof {
        assert(word@ =~= expected@);
    }
    true
}

/// `s` without its double quotes.
pub open spec fn without_quotes(s: Seq<char>) -> Seq<char> {
    s.filter(|c: char| c != '"')
}

/// `s` without its parentheses and commas.
pub open spec fn without_type_punctuation(s: Seq<char>) -> Seq<char> {
    s.filter(|c: char| c != '(' && c != ')' && c != ',')
}

/// No double quote is left in a word without its quotes.
pub proof fn lemma_no_quote_remains(word: Seq<char>)
    ensures
        !without_quotes(word).contains('"'),
{
}

/// A name between double quotes, without its quotes, is the name.
pub proof fn lemma_quoted_name(name: Seq<char>)
    requires
        !name.contains('"'),
    ensures
        without_quotes(seq!['"'] + name + seq!['"']) == name,
{
    lemma_all_kept(name);
    reveal_with_fuel(Seq::filter, 2);
}

proof fn lemma_all_kept(name: Seq<char>)
    requires
        forall|i: int| 0 <= i < name.len() ==> name[i] != '"',
    ensures
        without_quotes(name) == name,
    decreases name.len(),
{
    reveal(Seq::filter);
    if name.len() > 0 {
        lemma_all_kept(name.drop_last());
    }
}

/// What is left of a text without line breaks has no line break.
pub proof fn lemma_filter_keeps_single_line(s: Seq<char>, kept: spec_fn(char) -> bool)
    requires
        is_single_line(s),
    ensures
        is_single_line(s.filter(kept)),
    decreases s.len(),
{
    reveal(Seq::filter);
    if s.len() > 0 {
        lemma_filter_keeps_single_line(s.drop_last(), kept);
    }
}

/// Copies `word`, leaving out every double quote.
pub fn strip_quotes(word: &[char]) -> (stripped: String)
    ensures
        stripped@ == without_quotes(word@),
{
    let mut stripped = String::new();
    let mut i: usize = 0;
    while i < word.len()
        invariant
            i <= word.len(),
            stripped@ == without_quotes(word@.take(i as int)),
        decreases word.len() - i,
    {
        proof {
            reveal(Seq::filter);
            assert(word@.take(i + 1).drop_last() =~= word@.take(i as int));
        }
        if word[i] != '"' {
            push_char(&mut stripped, word[i]);
        }
        i += 1;
    }
    proof {
        assert(word@.take(i as int) =~= word@);
    }
    stripped
}

/// Copies `word`, leaving out every parenthesis and comma.
pub fn strip_type_punctuation(word: &[char]) -> (stripped: String)
    ensures
        stripped@ == without_type_punctuation(word@),
{
    let mut stripped = String::new();
    let mut i: usize = 0;
    while i < word.len()
        invariant
            i <= word.len(),
            stripped@ == without_type_punctuation(word@.take(i as int)),
        decreases word.len() - i,
    {
        proof {
            reveal(Seq::filter);
            assert(word@.take(i + 1).drop_last() =~= word@.take(i as int));
        }
        let c = word[i];
        if c != '(' && c != ')' && c != ',' {
            push_char(&mut stripped, c);
        }
        i += 1;
    }
    proof {
        assert(word@.take(i as int) =~= word@);
    }
    stripped
}

} // verus!
