//! The error values a line of user input can provoke during expansion.

use vstd::prelude::*;

verus! {

/// A syntax error in a line of user input, found while expanding it into
/// argument words. Every variant is recoverable at the call site: the line
/// is discarded and the session goes on.
#[derive(Clone, Copy, Debug, PartialEq, Eq, Structural)]
pub enum ArgumentError {
    /// A character appeared where the scanner could not accept it.
    UnexpectedCharacter(char),
    /// The line ended although more content was needed.
    UnexpectedEndOfLine,
    /// A sequence was opened by the given character but never closed.
    UnterminatedSequence(char),
    /// A backslash escape named a character that cannot be escaped.
    InvalidEscape(char),
}

/// The description `message` returns for each variant.
pub open spec fn spec_message(e: ArgumentError) -> Seq<char> {
    match e {
        ArgumentError::UnexpectedCharacter(c) => "received unexpected character '"@ + seq![c]
            + "'"@,
        ArgumentError::UnexpectedEndOfLine => "received unexpected end of line"@,
        ArgumentError::UnterminatedSequence(c) => "received unterminated '"@ + seq![c]
            + "' sequence"@,
        ArgumentError::InvalidEscape(c) => "received invalid escape character '"@ + seq![c]
            + "'"@,
    }
}

impl ArgumentError {
    /// A human-readable description of the error.
    pub fn message(&self) -> (r: String)
        ensures
            r@ == spec_message(*self),
    {
        let mut v: Vec<char> = Vec::new();
        match self {
            ArgumentError::UnexpectedCharacter(c) => {
                let mut v2 = crate::text::str_chars("received unexpected character '");
                v.append(&mut v2);
                v.push(*c);
                v.push('\'');
            },
            ArgumentError::UnexpectedEndOfLine => {
                let mut v2 = crate::text::str_chars("received unexpected end of line");
                v.append(&mut v2);
            },
            ArgumentError::UnterminatedSequence(c) => {
                let mut v2 = crate::text::str_chars("received unterminated '");
                v.append(&mut v2);
                v.push(*c);
                let mut v3 = crate::text::str_chars("' sequence");
                v.append(&mut v3);
            },
            ArgumentError::InvalidEscape(c) => {
                let mut v2 = crate::text::str_chars("received invalid escape character '");
                v.append(&mut v2);
                v.push(*c);
                v.push('\'');
            },
        }
        proof {
            reveal_strlit("'");
            assert(v@ =~= spec_message(*self));
        }
        crate::text::chars_to_string(&v)
    }
}

} // verus!
