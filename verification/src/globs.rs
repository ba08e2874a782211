//! The one gate to the `glob` crate's pattern matcher.
//!
//! Filename expansion and completion search test path names against
//! shell-style patterns. The pattern language is the `glob` crate's own;
//! its verdicts are named here and every contract speaks of those names.

use vstd::prelude::*;

verus! {

/// Names the verdict of `glob::Pattern::new`: whether the text is a
/// well-formed pattern. It depends on the pattern text alone.
pub uninterp spec fn pattern_ok(pattern: Seq<char>) -> bool;

/// Names the verdict of `glob::Pattern::matches` for a well-formed
/// pattern: whether the path matches it. It depends on the pattern and
/// path texts alone.
pub uninterp spec fn glob_match(pattern: Seq<char>, path: Seq<char>) -> bool;

/// Relies on `glob::Pattern::new` and `glob::Pattern::matches_with`:
/// compiles `pattern` and, when it is well formed, tests whether `path`
/// matches it, with path separators matched literally as a directory walk
/// would treat them.
#[verifier::external_body]
pub fn glob_matches(pattern: &str, path: &str) -> (r: Option<bool>)
    ensures
        r is Some <==> pattern_ok(pattern@),
        r matches Some(m) ==> m == glob_match(pattern@, path@),
{
    let mut options = glob::MatchOptions::new();
    options.require_literal_separator = true;
    match glob::Pattern::new(pattern) {
        Ok(p) => Some(p.matches_with(path, options)),
        Err(_) => None,
    }
}

} // verus!
