//! Classes of characters and the two per-character maps that the analysis
//! needs: ASCII lower-casing and the width of a character in UTF-8.

use vstd::prelude::*;

verus! {

/// A set of characters at which text is trimmed or split.
#[derive(Clone, Copy, Debug, PartialEq, Eq, Structural)]
pub enum CharClass {
    /// The characters with the Unicode property `White_Space`.
    Whitespace,
    /// ASCII punctuation and the common CJK punctuation marks.
    Punctuation,
    /// The marks that end a clause: `，` `。` `；` `：` `.` `;`.
    ClauseBreak,
    /// The line feed.
    LineBreak,
    /// The vertical bar that separates tags in a table cell.
    TagBreak,
    /// The slash that separates the parts of a path.
    Slash,
}

/// The character is one of the 128 of ASCII.
pub open spec fn is_ascii(c: char) -> bool {
    (c as u32) < 0x80
}

/// The character is one of `0` to `9`.
pub open spec fn is_ascii_digit(c: char) -> bool {
    '0' <= c && c <= '9'
}

/// The character is one of `A` to `Z`.
pub open spec fn is_ascii_uppercase(c: char) -> bool {
    'A' <= c && c <= 'Z'
}

/// The four runs of punctuation in ASCII: `!`..`/`, `:`..`@`, `[`..`` ` ``
/// and `{`..`~`.
pub open spec fn is_ascii_punctuation(c: char) -> bool {
    ||| 0x21 <= (c as u32) <= 0x2f
    ||| 0x3a <= (c as u32) <= 0x40
    ||| 0x5b <= (c as u32) <= 0x60
    ||| 0x7b <= (c as u32) <= 0x7e
}

/// `，` `。` `！` `？` `、` `；` `：` `（` `）` `【` `】`
pub open spec fn is_cjk_punctuation(c: char) -> bool {
    ||| c == '\u{ff0c}'
    ||| c == '\u{3002}'
    ||| c == '\u{ff01}'
    ||| c == '\u{ff1f}'
    ||| c == '\u{3001}'
    ||| c == '\u{ff1b}'
    ||| c == '\u{ff1a}'
    ||| c == '\u{ff08}'
    ||| c == '\u{ff09}'
    ||| c == '\u{3010}'
    ||| c == '\u{3011}'
}

/// The character is a punctuation mark of ASCII or one of the CJK marks.
pub open spec fn is_punctuation(c: char) -> bool {
    is_ascii_punctuation(c) || is_cjk_punctuation(c)
}

/// The characters with the Unicode property `White_Space`.
pub open spec fn is_whitespace(c: char) -> bool {
    ||| 0x09 <= (c as u32) <= 0x0d
    ||| c == ' '
    ||| c == '\u{85}'
    ||| c == '\u{a0}'
    ||| c == '\u{1680}'
    ||| 0x2000 <= (c as u32) <= 0x200a
    ||| c == '\u{2028}'
    ||| c == '\u{2029}'
    ||| c == '\u{202f}'
    ||| c == '\u{205f}'
    ||| c == '\u{3000}'
}

/// The character ends a clause: `，` `。` `；` `：` `.` `;`.
pub open spec fn is_clause_break(c: char) -> bool {
    ||| c == '\u{ff0c}'
    ||| c == '\u{3002}'
    ||| c == '\u{ff1b}'
    ||| c == '\u{ff1a}'
    ||| c == '.'
    ||| c == ';'
}

/// An ASCII capital letter becomes its small letter; every other character
/// stays.
pub open spec fn lower_ascii(c: char) -> char {
    if is_ascii_uppercase(c) {
        ((c as u32) + 32) as char
    } else {
        c
    }
}

/// The number of bytes that the character takes in UTF-8.
pub open spec fn utf8_width(c: char) -> nat {
    if (c as u32) < 0x80 {
        1
    } else if (c as u32) < 0x800 {
        2
    } else if (c as u32) < 0x1_0000 {
        3
    } else {
        4
    }
}

impl CharClass {
    /// Whether the character belongs to the class.
    pub open spec fn has(self, c: char) -> bool {
        match self {
            CharClass::Whitespace => is_whitespace(c),
            CharClass::Punctuation => is_punctuation(c),
            CharClass::ClauseBreak => is_clause_break(c),
            CharClass::LineBreak => c == '\n',
            CharClass::TagBreak => c == '|',
            CharClass::Slash => c == '/',
        }
    }

    /// Whether the character belongs to the class.
    pub fn contains(self, c: char) -> (found: bool)
        ensures
            found == self.has(c),
    {
        match self {
            CharClass::Whitespace => whitespace(c),
            CharClass::Punctuation => punctuation(c),
            CharClass::ClauseBreak => c == '\u{ff0c}' || c == '\u{3002}' || c == '\u{ff1b}' || c
                == '\u{ff1a}' || c == '.' || c == ';',
            CharClass::LineBreak => c == '\n',
            CharClass::TagBreak => c == '|',
            CharClass::Slash => c == '/',
        }
    }
}

/// Whether the character is one of ASCII.
pub fn ascii(c: char) -> (found: bool)
    ensures
        found == is_ascii(c),
{
    c <= '\u{7f}'
}

/// Whether the character is one of `0` to `9`.
pub fn ascii_digit(c: char) -> (found: bool)
    ensures
        found == is_ascii_digit(c),
{
    c >= '0' && c <= '9'
}

/// Whether the character is white space.
pub fn whitespace(c: char) -> (found: bool)
    ensures
        found == is_whitespace(c),
{
    (c >= '\u{9}' && c <= '\u{d}') || c == ' ' || c == '\u{85}' || c == '\u{a0}' || c
        == '\u{1680}' || (c >= '\u{2000}' && c <= '\u{200a}') || c == '\u{2028}' || c
        == '\u{2029}' || c == '\u{202f}' || c == '\u{205f}' || c == '\u{3000}'
}

/// Whether the character is a punctuation mark.
pub fn punctuation(c: char) -> (found: bool)
    ensures
        found == is_punctuation(c),
{
    (c >= '!' && c <= '/') || (c >= ':' && c <= '@') || (c >= '[' && c <= '`') || (c >= '{' && c
        <= '~') || c == '\u{ff0c}' || c == '\u{3002}' || c == '\u{ff01}' || c == '\u{ff1f}' || c
        == '\u{3001}' || c == '\u{ff1b}' || c == '\u{ff1a}' || c == '\u{ff08}' || c == '\u{ff09}'
        || c == '\u{3010}' || c == '\u{3011}'
}

/// The small letter of an ASCII capital letter; any other character as it is.
pub fn to_lower_ascii(c: char) -> (lowered: char)
    ensures
        lowered == lower_ascii(c),
{
    if c >= 'A' && c <= 'Z' {
        let code: u32 = c as u32;
        let small: u8 = (code + 32) as u8;
        small as char
    } else {
        c
    }
}

/// The number of bytes that the character takes in UTF-8.
pub fn width_in_utf8(c: char) -> (width: usize)
    ensures
        width == utf8_width(c),
{
    let code: u32 = c as u32;
    if code < 0x80 {
        1
    } else if code < 0x800 {
        2
    } else if code < 0x1_0000 {
        3
    } else {
        4
    }
}

} // verus!
