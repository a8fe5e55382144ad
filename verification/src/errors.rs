//! Structured decode failures.

use vstd::prelude::*;
use vstd::string::StrSliceExecFns;

verus! {

/// The 1-based line number of the character at `off`: one more than the
/// number of line feeds before it.
pub open spec fn line_of(s: Seq<char>, off: int) -> int
    decreases off,
{
    if off <= 0 {
        1
    } else if s[off - 1] == '\n' {
        line_of(s, off - 1) + 1
    } else {
        line_of(s, off - 1)
    }
}

/// The 1-based column of the character at `off`: its distance from the last
/// line feed before it.
pub open spec fn col_of(s: Seq<char>, off: int) -> int
    decreases off,
{
    if off <= 0 {
        1
    } else if s[off - 1] == '\n' {
        1
    } else {
        col_of(s, off - 1) + 1
    }
}

/// The line and column of the character at `offset` in `text`, both 1-based,
/// for reporting an error offset to a reader.
pub fn line_col(text: &str, offset: usize) -> (r: (usize, usize))
    requires
        offset <= text@.len(),
        offset < usize::MAX,
    ensures
        r.0 as int == line_of(text@, offset as int),
        r.1 as int == col_of(text@, offset as int),
{
    let mut line: usize = 1;
    let mut col: usize = 1;
    let mut i: usize = 0;
    while i < offset
        invariant
            i <= offset <= text@.len(),
            offset < usize::MAX,
            line as int == line_of(text@, i as int),
            col as int == col_of(text@, i as int),
            line <= i + 1,
            col <= i + 1,
        decreases offset - i,
    {
        let c = text.get_char(i);
        if c == '\n' {
            line = line + 1;
            col = 1;
        } else {
            col = col + 1;
        }
        i = i + 1;
    }
    (line, col)
}

/// A decode failure. Each variant carries the character offset (an index into
/// the sequence of characters being decoded) at which the failure was
/// detected. A malformed document is always reported through this type; the
/// decoder never panics.
#[derive(Clone, Copy, Debug, PartialEq, Eq, Structural)]
pub enum ParseError {
    /// A character that cannot start or continue the construct being parsed,
    /// including a literal that does not spell `true`, `false` or `null`.
    UnexpectedCharacter(usize),
    /// The input ended where more characters were required.
    UnexpectedEndOfInput(usize),
    /// A string was still open when the input ended.
    UnterminatedString(usize),
    /// A `\` followed by an invalid escape, including a malformed `\uXXXX`
    /// form or an unpaired surrogate.
    InvalidEscape(usize),
    /// A malformed number, such as a leading zero before another digit, a
    /// fraction or exponent without digits, or a lone minus sign.
    InvalidNumber(usize),
    /// Non-whitespace content after the top-level value, or a trailing comma
    /// before a closing `]` or `}`.
    TrailingContent(usize),
    /// Nesting of arrays and objects deeper than the configured maximum.
    MaxDepthExceeded(usize),
}

impl ParseError {
    /// The character offset carried by this error.
    pub open spec fn spec_offset(self) -> int {
        match self {
            ParseError::UnexpectedCharacter(n) => n as int,
            ParseError::UnexpectedEndOfInput(n) => n as int,
            ParseError::UnterminatedString(n) => n as int,
            ParseError::InvalidEscape(n) => n as int,
            ParseError::InvalidNumber(n) => n as int,
            ParseError::TrailingContent(n) => n as int,
            ParseError::MaxDepthExceeded(n) => n as int,
        }
    }

    /// The character offset carried by this error.
    pub fn offset(&self) -> (r: usize)
        ensures
            r as int == self.spec_offset(),
    {
        match *self {
            ParseError::UnexpectedCharacter(n) => n,
            ParseError::UnexpectedEndOfInput(n) => n,
            ParseError::UnterminatedString(n) => n,
            ParseError::InvalidEscape(n) => n,
            ParseError::InvalidNumber(n) => n,
            ParseError::TrailingContent(n) => n,
            ParseError::MaxDepthExceeded(n) => n,
        }
    }
}

} // verus!
