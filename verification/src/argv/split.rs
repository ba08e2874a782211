//! A delimiter-preserving argument splitter.
//!
//! Unlike the expansion pipeline's word splitter, this splitter hands out
//! one token per call and keeps quotes in the tokens it returns. After the
//! first error every further call returns nothing.

use vstd::prelude::*;

use crate::argv::error::ArgumentError;
use crate::argv::expand::find_char;
use crate::text::{char_whitespace, chars_to_string, first_non_ws, str_chars, subvec};

verus! {

/// The first position at or after `j` holding unescaped white space, with
/// `first` the position right after the token's head character, where a
/// preceding backslash does not yet shield.
pub open spec fn token_end(s: Seq<char>, first: int, j: int) -> Option<int>
    decreases s.len() - j,
{
    if j < 0 || j >= s.len() {
        None
    } else if char_whitespace(s[j]) && (j == first || s[j - 1] != '\\') {
        Some(j)
    } else {
        token_end(s, first, j + 1)
    }
}

/// What one splitting step makes of the text from offset `off` on: the
/// token handed out, if any, and the offset for the next step. A token
/// that opens with a quote runs to the matching close quote and is an
/// `UnterminatedSequence` error when that quote never comes; any other
/// token runs to the first unescaped white space.
pub open spec fn spec_next_token(s: Seq<char>, off: int) -> (Option<
    Result<Seq<char>, ArgumentError>,
>, int) {
    if off >= s.len() {
        (None, off)
    } else {
        let i = first_non_ws(s, off);
        if i >= s.len() {
            (None, i)
        } else {
            let c = s[i];
            if c == '\'' || c == '"' {
                match find_char(s, c, i + 1) {
                    Some(j) => (Some(Ok(s.subrange(i, j + 1))), j + 1),
                    None => (Some(Err(ArgumentError::UnterminatedSequence(c))), i),
                }
            } else {
                match token_end(s, i + 1, i + 1) {
                    Some(j) => (Some(Ok(s.subrange(i, j))), j),
                    None => (Some(Ok(s.subrange(i, s.len() as int))), s.len() as int),
                }
            }
        }
    }
}

/// An argument splitter that preserves delimiters and quotes. It tracks
/// the first error it finds; after that, `next` returns `None`.
pub struct Split {
    chars: Vec<char>,
    offset: usize,
    has_err: bool,
}

impl Split {
    /// The text being split.
    pub closed spec fn text(&self) -> Seq<char> {
        self.chars@
    }

    /// The current scan offset.
    pub closed spec fn offset_spec(&self) -> int {
        self.offset as int
    }

    /// Whether an error has been handed out.
    pub closed spec fn failed(&self) -> bool {
        self.has_err
    }

    /// A splitter at the start of `source`.
    pub fn new(source: &str) -> (r: Split)
        ensures
            r.text() == source@,
            r.offset_spec() == 0,
            !r.failed(),
    {
        Split { chars: str_chars(source), offset: 0, has_err: false }
    }

    /// Moves the offset past white space.
    fn skip_whitespace(&mut self)
        ensures
            final(self).chars == old(self).chars,
            final(self).has_err == old(self).has_err,
            old(self).offset <= old(self).chars@.len() ==> final(self).offset as int == first_non_ws(
                old(self).chars@,
                old(self).offset as int,
            ),
    {
        while self.offset < self.chars.len()
            invariant
                self.chars == old(self).chars,
                self.has_err == old(self).has_err,
                old(self).offset <= old(self).chars@.len() ==> first_non_ws(
                    old(self).chars@,
                    old(self).offset as int,
                ) == first_non_ws(self.chars@, self.offset as int),
                old(self).offset <= self.offset <= self.chars@.len() || self.offset == old(
                    self,
                ).offset,
            decreases self.chars@.len() - self.offset,
        {
            if !self.chars[self.offset].is_whitespace() {
                return ;
            }
            self.offset = self.offset + 1;
        }
    }

    /// Hands out the next token, or the first error, or nothing once the
    /// text or the splitter is exhausted.
    pub fn next(&mut self) -> (r: Option<Result<String, ArgumentError>>)
        ensures
            final(self).text() == old(self).text(),
            old(self).failed() ==> r is None && *final(self) == *old(self),
            (!old(self).failed() && old(self).offset_spec() <= old(self).text().len()) ==> {
                let expected = spec_next_token(old(self).text(), old(self).offset_spec());
                &&& final(self).offset_spec() == expected.1
                &&& (match (r, expected.0) {
                    (None, None) => !final(self).failed(),
                    (Some(Ok(tok)), Some(Ok(spec_tok))) => tok@ == spec_tok && !final(self).failed(),
                    (Some(Err(e)), Some(Err(spec_e))) => e == spec_e && final(self).failed(),
                    _ => false,
                })
            },
    {
        if self.has_err || self.offset >= self.chars.len() {
            return None;
        }
        let ghost off0 = self.offset as int;
        self.skip_whitespace();
        if self.offset >= self.chars.len() {
            return None;
        }
        let i = self.offset;
        let c = self.chars[i];
        if c == '\'' || c == '"' {
            let mut k: usize = i + 1;
            proof {
                assert(find_char(self.chars@, c, i + 1 as int) == find_char(
                    self.chars@,
                    c,
                    k as int,
                ));
            }
            while k < self.chars.len()
                invariant
                    !old(self).has_err,
                    off0 == old(self).offset as int,
                    off0 <= old(self).chars@.len(),
                    self.chars == old(self).chars,
                    self.has_err == old(self).has_err,
                    self.offset == i,
                    i < self.chars@.len(),
                    i as int == first_non_ws(self.chars@, off0),
                    c == self.chars@[i as int],
                    c == '\'' || c == '"',
                    i + 1 <= k,
                    k <= self.chars@.len() || k == i + 1,
                    find_char(self.chars@, c, i + 1 as int) == find_char(self.chars@, c, k as int),
                decreases self.chars@.len() - k,
            {
                if self.chars[k] == c {
                    let tok = subvec(&self.chars, i, k + 1);
                    self.offset = k + 1;
                    return Some(Ok(chars_to_string(&tok)));
                }
                k = k + 1;
            }
            self.has_err = true;
            return Some(Err(ArgumentError::UnterminatedSequence(c)));
        }
        let mut k: usize = i + 1;
        proof {
            assert(token_end(self.chars@, i + 1 as int, i + 1 as int) == token_end(
                self.chars@,
                i + 1 as int,
                k as int,
            ));
        }
        while k < self.chars.len()
            invariant
                !old(self).has_err,
                off0 == old(self).offset as int,
                off0 <= old(self).chars@.len(),
                self.chars == old(self).chars,
                self.has_err == old(self).has_err,
                self.offset == i,
                i < self.chars@.len(),
                i as int == first_non_ws(self.chars@, off0),
                c == self.chars@[i as int],
                !(c == '\'' || c == '"'),
                i + 1 <= k,
                k <= self.chars@.len() || k == i + 1,
                token_end(self.chars@, i + 1 as int, i + 1 as int) == token_end(
                    self.chars@,
                    i + 1 as int,
                    k as int,
                ),
            decreases self.chars@.len() - k,
        {
            if self.chars[k].is_whitespace() && (k == i + 1 || self.chars[k - 1] != '\\') {
                let tok = subvec(&self.chars, i, k);
                self.offset = k;
                return Some(Ok(chars_to_string(&tok)));
            }
            k = k + 1;
        }
        let tok = subvec(&self.chars, i, self.chars.len());
        self.offset = self.chars.len();
        Some(Ok(chars_to_string(&tok)))
    }
}

/// A splitter over a full command line.
pub fn split(source: &str) -> (r: Split)
    ensures
        r.text() == source@,
        r.offset_spec() == 0,
        !r.failed(),
{
    Split::new(source)
}

} // verus!
