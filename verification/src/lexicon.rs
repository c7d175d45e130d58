//! The lexical filter: which tokens carry signal, and the normal form under
//! which a token is counted.

use crate::chars::CharClass;
use crate::text::{
    all_ascii, all_digits, any_digit, byte_len, chars_of, has_bytes, has_digit, is_all_ascii,
    is_all_digits, lower_ascii_text, lowered_ascii, rows, same, trim, trim_class,
};
use vstd::prelude::*;

verus! {

/// Common function words of Chinese and a short list of English ones; the
/// empty text is among them.
pub open spec fn stopwords() -> Seq<Seq<char>> {
    seq![
        ""@,
        "\u{7684}"@,
        "\u{4e86}"@,
        "\u{548c}"@,
        "\u{4e0e}"@,
        "\u{5728}"@,
        "\u{53ca}"@,
        "\u{4ee5}\u{53ca}"@,
        "\u{9700}\u{8981}"@,
        "\u{6211}\u{4eec}"@,
        "\u{7528}\u{6237}"@,
        "\u{8fdb}\u{884c}"@,
        "\u{5e0c}\u{671b}"@,
        "\u{8bf7}"@,
        "\u{4f7f}\u{7528}"@,
        "\u{8fd9}\u{4e2a}"@,
        "\u{90a3}\u{4e2a}"@,
        "\u{8fd9}\u{4e9b}"@,
        "\u{90a3}\u{4e9b}"@,
        "\u{4e00}\u{4e0b}"@,
        "\u{4e00}\u{4e2a}"@,
        "\u{5982}\u{4f55}"@,
        "\u{600e}\u{4e48}"@,
        "\u{5417}"@,
        "\u{5462}"@,
        "\u{554a}"@,
        "\u{54e6}"@,
        "the"@,
        "and"@,
        "or"@,
        "for"@,
        "with"@,
        "into"@,
        "from"@,
        "to"@,
        "of"@,
        "is"@,
        "are"@,
    ]
}

/// The text is one of the stopwords.
pub open spec fn is_stopword(s: Seq<char>) -> bool {
    stopwords().contains(s)
}

/// A text is long enough to carry signal if it has two characters or takes
/// four bytes in UTF-8.
pub open spec fn has_signal(s: Seq<char>) -> bool {
    s.len() >= 2 || byte_len(s) >= 4
}

/// The token without punctuation at its ends.
pub open spec fn stripped(token: Seq<char>) -> Seq<char> {
    trim(token, CharClass::Punctuation)
}

/// The form under which a token is counted: without punctuation at its ends,
/// and in small letters if all of it is ASCII.
pub open spec fn normalized(token: Seq<char>) -> Seq<char> {
    if all_ascii(stripped(token)) {
        lowered_ascii(stripped(token))
    } else {
        stripped(token)
    }
}

/// A token is meaningful if, punctuation at its ends aside, it is not empty,
/// not a number, and long enough to carry signal.
pub open spec fn meaningful(token: Seq<char>) -> bool {
    &&& stripped(token).len() > 0
    &&& !all_digits(stripped(token))
    &&& has_signal(stripped(token))
}

/// A token is numeric if, punctuation at its ends aside, it holds a digit.
pub open spec fn numeric(token: Seq<char>) -> bool {
    any_digit(stripped(token))
}

/// An ASCII token is noise if it takes at most one byte or is a number.
pub open spec fn noise(token: Seq<char>) -> bool {
    byte_len(token) <= 1 || all_digits(token)
}

/// Whether a token is counted towards the keywords.
pub open spec fn countable(token: Seq<char>) -> bool {
    meaningful(token) && !numeric(token) && !is_stopword(normalized(token))
}

/// The token without punctuation at its ends.
pub fn trim_punctuation(token: &Vec<char>) -> (out: Vec<char>)
    ensures
        out@ == stripped(token@),
{
    trim_class(token, CharClass::Punctuation)
}

/// The form under which a token is counted.
pub fn normalize_token(token: &Vec<char>) -> (out: Vec<char>)
    ensures
        out@ == normalized(token@),
{
    let cleaned = trim_punctuation(token);
    if is_all_ascii(&cleaned) {
        lower_ascii_text(&cleaned)
    } else {
        cleaned
    }
}

/// Whether a text is long enough to carry signal.
pub fn carries_signal(text: &Vec<char>) -> (yes: bool)
    ensures
        yes == has_signal(text@),
{
    text.len() >= 2 || has_bytes(text, 4)
}

/// Whether a token is meaningful.
pub fn is_meaningful(token: &Vec<char>) -> (yes: bool)
    ensures
        yes == meaningful(token@),
{
    let trimmed = trim_punctuation(token);
    if trimmed.len() == 0 {
        return false;
    }
    if is_all_digits(&trimmed) {
        return false;
    }
    carries_signal(&trimmed)
}

/// Whether a token is numeric.
pub fn is_numeric_token(token: &Vec<char>) -> (yes: bool)
    ensures
        yes == numeric(token@),
{
    let trimmed = trim_punctuation(token);
    has_digit(&trimmed)
}

/// Whether an ASCII token is noise.
pub fn is_noise_ascii(token: &Vec<char>) -> (yes: bool)
    ensures
        yes == noise(token@),
{
    !has_bytes(token, 2) || is_all_digits(token)
}

/// The stopwords as rows of characters.
pub fn stopword_table() -> (table: Vec<Vec<char>>)
    ensures
        rows(table@) == stopwords(),
{
    let words: [&str; 38] = [
        "",
        "\u{7684}",
        "\u{4e86}",
        "\u{548c}",
        "\u{4e0e}",
        "\u{5728}",
        "\u{53ca}",
        "\u{4ee5}\u{53ca}",
        "\u{9700}\u{8981}",
        "\u{6211}\u{4eec}",
        "\u{7528}\u{6237}",
        "\u{8fdb}\u{884c}",
        "\u{5e0c}\u{671b}",
        "\u{8bf7}",
        "\u{4f7f}\u{7528}",
        "\u{8fd9}\u{4e2a}",
        "\u{90a3}\u{4e2a}",
        "\u{8fd9}\u{4e9b}",
        "\u{90a3}\u{4e9b}",
        "\u{4e00}\u{4e0b}",
        "\u{4e00}\u{4e2a}",
        "\u{5982}\u{4f55}",
        "\u{600e}\u{4e48}",
        "\u{5417}",
        "\u{5462}",
        "\u{554a}",
        "\u{54e6}",
        "the",
        "and",
        "or",
        "for",
        "with",
        "into",
        "from",
        "to",
        "of",
        "is",
        "are",
    ];
    let mut table: Vec<Vec<char>> = Vec::new();
    let mut i: usize = 0;
    while i < 38
        invariant
            i <= 38,
            table.len() == i,
            words@.len() == 38,
            forall|k: int| 0 <= k < 38 ==> (#[trigger] words@[k])@ == stopwords()[k],
            forall|k: int| 0 <= k < i ==> (#[trigger] table@[k])@ == stopwords()[k],
        decreases 38 - i,
    {
        table.push(chars_of(words[i]));
        i += 1;
    }
    table
}

/// Whether `text` is one of the rows of `table`.
pub fn is_listed(table: &Vec<Vec<char>>, text: &Vec<char>) -> (yes: bool)
    ensures
        yes == rows(table@).contains(text@),
{
    let mut i: usize = 0;
    while i < table.len()
        invariant
            i <= table.len(),
            forall|k: int| 0 <= k < i ==> rows(table@)[k] != text@,
        decreases table.len() - i,
    {
        if same(&table[i], text) {
            assert(rows(table@)[i as int] == text@);
            return true;
        }
        i += 1;
    }
    false
}

/// Whether a token is counted towards the keywords; `table` holds the
/// stopwords.
pub fn is_countable(token: &Vec<char>, table: &Vec<Vec<char>>) -> (yes: bool)
    requires
        rows(table@) == stopwords(),
    ensures
        yes == countable(token@),
{
    if !is_meaningful(token) || is_numeric_token(token) {
        return false;
    }
    let key = normalize_token(token);
    !is_listed(table, &key)
}

} // verus!
