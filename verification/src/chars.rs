//! Character classes of the configuration language.

use vstd::prelude::*;

verus! {

/// What `char::is_alphanumeric` answers for `c`: whether Unicode classes it as
/// alphabetic or numeric.
pub uninterp spec fn unicode_alphanumeric(c: char) -> bool;

/// Asks the standard library's `char::is_alphanumeric`. The answer depends on
/// the character alone and is known here only by the name
/// [`unicode_alphanumeric`].
#[verifier::external_body]
fn is_alphanumeric(c: char) -> (b: bool)
    ensures
        b == unicode_alphanumeric(c),
{
    c.is_alphanumeric()
}

/// The characters that separate tokens: space, tab, carriage return and line feed.
pub open spec fn is_space(c: char) -> bool {
    c == ' ' || c == '\t' || c == '\r' || c == '\n'
}

/// The ten decimal digits.
pub open spec fn is_digit(c: char) -> bool {
    '0' <= c <= '9'
}

/// The letters `a` to `z` and `A` to `Z`.
pub open spec fn is_ascii_letter(c: char) -> bool {
    'a' <= c <= 'z' || 'A' <= c <= 'Z'
}

/// The characters a word is made of: letters and digits, `.` and `:`.
///
/// Within ASCII the letters and digits are listed here; beyond ASCII the
/// Unicode tables of the standard library decide.
pub open spec fn is_word_char(c: char) -> bool {
    if c <= '\x7f' {
        is_digit(c) || is_ascii_letter(c) || c == '.' || c == ':'
    } else {
        unicode_alphanumeric(c)
    }
}

/// The two classes of characters that the scanner runs over.
#[derive(Clone, Copy, Debug, PartialEq, Eq, Structural)]
pub enum CharClass {
    /// Separators, see [`is_space`].
    Space,
    /// Word characters, see [`is_word_char`].
    Word,
}

impl CharClass {
    /// Whether `c` belongs to the class.
    pub open spec fn has(self, c: char) -> bool {
        match self {
            CharClass::Space => is_space(c),
            CharClass::Word => is_word_char(c),
        }
    }

    /// Decides whether `c` belongs to the class.
    pub fn contains(self, c: char) -> (b: bool)
        ensures
            b == self.has(c),
    {
        match self {
            CharClass::Space => space(c),
            CharClass::Word => word_char(c),
        }
    }
}

/// Decides whether `c` separates tokens.
pub fn space(c: char) -> (b: bool)
    ensures
        b == is_space(c),
{
    c == ' ' || c == '\t' || c == '\r' || c == '\n'
}

/// Decides whether `c` is a decimal digit.
pub fn digit(c: char) -> (b: bool)
    ensures
        b == is_digit(c),
{
    '0' <= c && c <= '9'
}

/// Decides whether `c` may stand in a word.
pub fn word_char(c: char) -> (b: bool)
    ensures
        b == is_word_char(c),
{
    if c <= '\x7f' {
        ('0' <= c && c <= '9') || ('a' <= c && c <= 'z') || ('A' <= c && c <= 'Z') || c == '.'
            || c == ':'
    } else {
        is_alphanumeric(c)
    }
}

/// No character is both a separator and a word character, and the
/// punctuation of the language is neither.
pub proof fn lemma_classes_disjoint(c: char)
    ensures
        !(is_space(c) && is_word_char(c)),
        is_digit(c) ==> is_word_char(c),
        c == ';' || c == '{' || c == '}' ==> !is_space(c) && !is_word_char(c),
{
}

} // verus!
