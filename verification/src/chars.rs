//! Character classes that the scanner dispatches on.

use vstd::prelude::*;

verus! {

/// Whether `c` is one of the ASCII digits `0` to `9`.
pub open spec fn is_digit(c: char) -> bool {
    '0' <= c && c <= '9'
}

/// Whether `c` is an ASCII letter, upper or lower case.
pub open spec fn is_alphabetic(c: char) -> bool {
    ('a' <= c && c <= 'z') || ('A' <= c && c <= 'Z')
}

/// Whether `c` is ASCII whitespace: space, tab, line feed, form feed or
/// carriage return.
pub open spec fn is_whitespace(c: char) -> bool {
    c == ' ' || c == '\t' || c == '\n' || c == '\x0C' || c == '\r'
}

/// A set of characters that a run of source text is matched against.
#[derive(Clone, Copy, Debug)]
pub enum CharClass {
    /// The ASCII digits.
    Digit,
    /// The ASCII letters.
    Alphabetic,
    /// ASCII whitespace.
    Whitespace,
    /// Everything but a line feed: the body of a line comment.
    LineBody,
    /// Everything but a double quote and a line feed: the body of a string.
    StringBody,
    /// The one given character.
    Exactly(char),
}

impl CharClass {
    /// Membership of `c` in the class.
    pub open spec fn contains(self, c: char) -> bool {
        match self {
            CharClass::Digit => is_digit(c),
            CharClass::Alphabetic => is_alphabetic(c),
            CharClass::Whitespace => is_whitespace(c),
            CharClass::LineBody => c != '\n',
            CharClass::StringBody => c != '"' && c != '\n',
            CharClass::Exactly(target) => c == target,
        }
    }

    /// Tests whether `c` belongs to the class.
    pub fn accepts(&self, c: char) -> (r: bool)
        ensures
            r == self.contains(c),
    {
        match self {
            CharClass::Digit => c >= '0' && c <= '9',
            CharClass::Alphabetic => (c >= 'a' && c <= 'z') || (c >= 'A' && c <= 'Z'),
            CharClass::Whitespace => c == ' ' || c == '\t' || c == '\n' || c == '\x0C' || c == '\r',
            CharClass::LineBody => c != '\n',
            CharClass::StringBody => c != '"' && c != '\n',
            CharClass::Exactly(target) => c == *target,
        }
    }
}

/// Where the longest run of characters of `class` that starts at `pos` ends:
/// the first position at or after `pos` that holds a character outside the
/// class, or the end of `src`.
pub open spec fn run_end(src: Seq<char>, class: CharClass, pos: int) -> int
    decreases src.len() - pos,
{
    if 0 <= pos < src.len() && class.contains(src[pos]) {
        run_end(src, class, pos + 1)
    } else {
        pos
    }
}

/// A run ends between its start and the end of the text, everything before
/// its end belongs to the class, and the character at its end does not.
pub proof fn lemma_run_end(src: Seq<char>, class: CharClass, pos: int)
    requires
        0 <= pos <= src.len(),
    ensures
        pos <= run_end(src, class, pos) <= src.len(),
        forall|i: int| pos <= i < run_end(src, class, pos) ==> class.contains(#[trigger] src[i]),
        run_end(src, class, pos) < src.len() ==> !class.contains(src[run_end(src, class, pos)]),
    decreases src.len() - pos,
{
    if pos < src.len() && class.contains(src[pos]) {
        lemma_run_end(src, class, pos + 1);
    }
}

} // verus!
