//! The shell-word expansion engine.
//!
//! One raw line becomes a vector of argument words through a fixed-order,
//! non-reentrant pipeline: tilde expansion, variable expansion, word
//! splitting, filename expansion, quote removal. The order is part of the
//! contract: text produced by variable expansion is never re-scanned for
//! glob metacharacters and never re-split.
//!
//! The process-wide lookups the pipeline needs arrive as plain values: the
//! home directory as an `Option`, the variable bindings as name/value
//! pairs, and the file names a pattern may match as a listing, so that
//! every function here is deterministic and fully checked.

use vstd::prelude::*;

use crate::argv::error::ArgumentError;
use crate::globs::{glob_match, glob_matches, pattern_ok};
use crate::text::{char_alphanumeric, chars_to_string, push_all, str_chars};

verus! {

/// Prefixes a successful expansion with `p`; an error passes through.
pub open spec fn prefixed(p: Seq<char>, r: Result<Seq<char>, ArgumentError>) -> Result<
    Seq<char>,
    ArgumentError,
> {
    match r {
        Ok(t) => Ok(p + t),
        Err(e) => Err(e),
    }
}

/// The views of a vector of strings.
pub open spec fn views_of(ws: Seq<String>) -> Seq<Seq<char>> {
    ws.map_values(|w: String| w@)
}

proof fn lemma_prefixed_assoc(a: Seq<char>, b: Seq<char>, r: Result<Seq<char>, ArgumentError>)
    ensures
        prefixed(a, prefixed(b, r)) == prefixed(a + b, r),
{
    match r {
        Ok(t) => {
            assert(a + (b + t) =~= (a + b) + t);
        },
        Err(_) => {},
    }
}

/// What tilde expansion makes of the text from position `i` on, with `q`
/// the quote character of the currently open quoted span, if any. A quoted
/// span passes through verbatim; an unquoted `~` becomes `home`; a
/// backslash shields the character after it, and is dropped only before a
/// `~`.
pub open spec fn tilde_from(s: Seq<char>, home: Seq<char>, i: int, q: Option<char>) -> Result<
    Seq<char>,
    ArgumentError,
>
    decreases s.len() - i,
{
    if i < 0 || i >= s.len() {
        match q {
            Some(qc) => Err(ArgumentError::UnterminatedSequence(qc)),
            None => Ok(Seq::empty()),
        }
    } else {
        let c = s[i];
        match q {
            Some(qc) => prefixed(
                seq![c],
                tilde_from(
                    s,
                    home,
                    i + 1,
                    if c == qc && s[i - 1] != '\\' {
                        None
                    } else {
                        Some(qc)
                    },
                ),
            ),
            None => {
                if c == '\'' || c == '"' {
                    prefixed(seq![c], tilde_from(s, home, i + 1, Some(c)))
                } else if c == '\\' {
                    if i + 1 >= s.len() {
                        Err(ArgumentError::UnterminatedSequence('\\'))
                    } else if s[i + 1] == '~' {
                        prefixed(seq!['~'], tilde_from(s, home, i + 2, None))
                    } else {
                        prefixed(seq!['\\', s[i + 1]], tilde_from(s, home, i + 2, None))
                    }
                } else if c == '~' {
                    prefixed(home, tilde_from(s, home, i + 1, None))
                } else {
                    prefixed(seq![c], tilde_from(s, home, i + 1, None))
                }
            },
        }
    }
}

/// The home-directory text that replaces an unquoted `~`: the provided
/// value, or `~` itself when none could be determined.
pub open spec fn home_text(home: Option<Seq<char>>) -> Seq<char> {
    match home {
        Some(h) => h,
        None => seq!['~'],
    }
}

/// What `expand_tilde` returns: text without `~` passes through untouched,
/// anything else goes through the quote-aware scan.
pub open spec fn spec_expand_tilde(s: Seq<char>, home: Option<Seq<char>>) -> Result<
    Seq<char>,
    ArgumentError,
> {
    if !s.contains('~') {
        Ok(s)
    } else {
        tilde_from(s, home_text(home), 0, None)
    }
}

/// The view of an optional home directory.
pub open spec fn home_view(home: Option<&str>) -> Option<Seq<char>> {
    match home {
        Some(h) => Some(h@),
        None => None,
    }
}

/// Replaces every unescaped, unquoted `~` in `source` with `home`'s value;
/// when no home directory is known the tilde stays as it is. Quoted or
/// backslash-escaped tildes pass through unexpanded. A quote opened while
/// scanning and never closed is an `UnterminatedSequence` error; a source
/// without any `~` is returned unchanged, unexamined.
pub fn expand_tilde(source: &str, home: Option<&str>) -> (r: Result<String, ArgumentError>)
    ensures
        (match r {
            Ok(out) => spec_expand_tilde(source@, home_view(home)) == Ok::<
                Seq<char>,
                ArgumentError,
            >(out@),
            Err(e) => spec_expand_tilde(source@, home_view(home)) == Err::<
                Seq<char>,
                ArgumentError,
            >(e),
        }),
{
    let cs = str_chars(source);
    let mut has_tilde = false;
    let mut k: usize = 0;
    while k < cs.len()
        invariant
            k <= cs.len(),
            cs@ == source@,
            has_tilde == exists|j: int| 0 <= j < k && cs@[j] == '~',
        decreases cs.len() - k,
    {
        if cs[k] == '~' {
            has_tilde = true;
            proof {
                assert(cs@[k as int] == '~');
            }
        }
        k = k + 1;
    }
    if !has_tilde {
        proof {
            assert(!source@.contains('~'));
        }
        return Ok(source.to_owned());
    }
    proof {
        assert(source@.contains('~'));
    }
    let home_chars: Vec<char> = match home {
        Some(h) => str_chars(h),
        None => {
            let mut hv: Vec<char> = Vec::new();
            hv.push('~');
            hv
        },
    };
    let ghost gh: Seq<char> = home_text(home_view(home));
    proof {
        assert(home_chars@ =~= gh);
    }
    let mut acc: Vec<char> = Vec::new();
    let mut quote: Option<char> = None;
    let mut i: usize = 0;
    while i < cs.len()
        invariant
            i <= cs.len(),
            cs@ == source@,
            source@.contains('~'),
            gh == home_text(home_view(home)),
            home_chars@ == gh,
            quote is Some ==> i >= 1,
            tilde_from(cs@, gh, 0, None) == prefixed(acc@, tilde_from(cs@, gh, i as int, quote)),
        decreases cs.len() - i,
    {
        let ghost acc0 = acc@;
        let ghost i0 = i as int;
        let c = cs[i];
        match quote {
            Some(qc) => {
                acc.push(c);
                if c == qc && cs[i - 1] != '\\' {
                    quote = None;
                }
                i = i + 1;
                proof {
                    assert(acc@ =~= acc0 + seq![c]);
                    lemma_prefixed_assoc(acc0, seq![c], tilde_from(cs@, gh, i as int, quote));
                }
            },
            None => {
                if c == '\'' || c == '"' {
                    acc.push(c);
                    quote = Some(c);
                    i = i + 1;
                    proof {
                        assert(acc@ =~= acc0 + seq![c]);
                        lemma_prefixed_assoc(acc0, seq![c], tilde_from(cs@, gh, i as int, quote));
                    }
                } else if c == '\\' {
                    if i + 1 >= cs.len() {
                        proof {
                            assert(tilde_from(cs@, gh, i as int, quote) == Err::<
                                Seq<char>,
                                ArgumentError,
                            >(ArgumentError::UnterminatedSequence('\\')));
                        }
                        return Err(ArgumentError::UnterminatedSequence('\\'));
                    }
                    if cs[i + 1] == '~' {
                        acc.push('~');
                        proof {
                            assert(acc@ =~= acc0 + seq!['~']);
                            lemma_prefixed_assoc(
                                acc0,
                                seq!['~'],
                                tilde_from(cs@, gh, i + 2 as int, quote),
                            );
                        }
                    } else {
                        acc.push('\\');
                        acc.push(cs[i + 1]);
                        proof {
                            assert(acc@ =~= acc0 + seq!['\\', cs@[i0 + 1]]);
                            lemma_prefixed_assoc(
                                acc0,
                                seq!['\\', cs@[i0 + 1]],
                                tilde_from(cs@, gh, i + 2 as int, quote),
                            );
                        }
                    }
                    i = i + 2;
                } else if c == '~' {
                    push_all(&mut acc, &home_chars);
                    i = i + 1;
                    proof {
                        lemma_prefixed_assoc(acc0, gh, tilde_from(cs@, gh, i as int, quote));
                    }
                } else {
                    acc.push(c);
                    i = i + 1;
                    proof {
                        assert(acc@ =~= acc0 + seq![c]);
                        lemma_prefixed_assoc(acc0, seq![c], tilde_from(cs@, gh, i as int, quote));
                    }
                }
            },
        }
    }
    match quote {
        Some(qc) => Err(ArgumentError::UnterminatedSequence(qc)),
        None => {
            proof {
                assert(acc@ + Seq::<char>::empty() =~= acc@);
            }
            Ok(chars_to_string(&acc))
        },
    }
}

/// The value bound to `name` in the environment, or the empty string when
/// the name is unset. The first binding of a name wins.
pub open spec fn lookup(env: Seq<(String, String)>, name: Seq<char>) -> Seq<char>
    decreases env.len(),
{
    if env.len() == 0 {
        Seq::empty()
    } else if env[0].0@ == name {
        env[0].1@
    } else {
        lookup(env.drop_first(), name)
    }
}

/// The first position at or after `i` holding the character `c`.
pub open spec fn find_char(s: Seq<char>, c: char, i: int) -> Option<int>
    decreases s.len() - i,
{
    if i < 0 || i >= s.len() {
        None
    } else if s[i] == c {
        Some(i)
    } else {
        find_char(s, c, i + 1)
    }
}

/// Whether a character can stand in a variable name.
pub open spec fn is_name_char(c: char) -> bool {
    char_alphanumeric(c) || c == '_'
}

/// The first position at or after `i` whose character cannot stand in a
/// variable name.
pub open spec fn find_name_end(s: Seq<char>, i: int) -> Option<int>
    decreases s.len() - i,
{
    if i < 0 || i >= s.len() {
        None
    } else if !is_name_char(s[i]) {
        Some(i)
    } else {
        find_name_end(s, i + 1)
    }
}

pub proof fn lemma_find_char_bounds(s: Seq<char>, c: char, i: int)
    ensures
        find_char(s, c, i) matches Some(j) ==> i <= j < s.len() && s[j] == c,
    decreases s.len() - i,
{
    if 0 <= i < s.len() && s[i] != c {
        lemma_find_char_bounds(s, c, i + 1);
    }
}

pub proof fn lemma_find_name_end_bounds(s: Seq<char>, i: int)
    ensures
        find_name_end(s, i) matches Some(j) ==> i <= j < s.len() && !is_name_char(s[j]),
    decreases s.len() - i,
{
    if 0 <= i < s.len() && is_name_char(s[i]) {
        lemma_find_name_end_bounds(s, i + 1);
    }
}

/// What variable expansion makes of the text from `i` on. `${NAME}` needs
/// its closing brace; a bare `$NAME` ends at the first character that can
/// not stand in a name, or at the end of the text; a lone trailing `$` is
/// an error. Unset variables become the empty string. A single-quoted span
/// passes through untouched; double quotes are ordinary characters here.
pub open spec fn vars_from(s: Seq<char>, env: Seq<(String, String)>, i: int) -> Result<
    Seq<char>,
    ArgumentError,
>
    decreases s.len() - i,
    via vars_from_dec
{
    if i < 0 || i >= s.len() {
        Ok(Seq::empty())
    } else if s[i] == '$' {
        if i + 1 >= s.len() {
            Err(ArgumentError::UnterminatedSequence('$'))
        } else if s[i + 1] == '{' {
            match find_char(s, '}', i + 1) {
                Some(j) => prefixed(lookup(env, s.subrange(i + 2, j)), vars_from(s, env, j + 1)),
                None => Err(ArgumentError::UnterminatedSequence('{')),
            }
        } else {
            match find_name_end(s, i + 1) {
                Some(j) => prefixed(lookup(env, s.subrange(i + 1, j)), vars_from(s, env, j)),
                None => Ok(lookup(env, s.subrange(i + 1, s.len() as int))),
            }
        }
    } else if s[i] == '\'' {
        match find_char(s, '\'', i + 1) {
            Some(j) => prefixed(s.subrange(i, j + 1), vars_from(s, env, j + 1)),
            None => Ok(s.subrange(i, s.len() as int)),
        }
    } else {
        prefixed(seq![s[i]], vars_from(s, env, i + 1))
    }
}

#[via_fn]
proof fn vars_from_dec(s: Seq<char>, env: Seq<(String, String)>, i: int) {
    lemma_find_char_bounds(s, '}', i + 1);
    lemma_find_char_bounds(s, '\'', i + 1);
    lemma_find_name_end_bounds(s, i + 1);
}

/// What `expand_vars` returns for a whole line.
pub open spec fn spec_expand_vars(s: Seq<char>, env: Seq<(String, String)>) -> Result<
    Seq<char>,
    ArgumentError,
> {
    vars_from(s, env, 0)
}

/// The first position at or after `from` holding `c`, as executable code.
fn find_char_exec(cs: &Vec<char>, c: char, from: usize) -> (r: Option<usize>)
    ensures
        (match r {
            Some(j) => find_char(cs@, c, from as int) == Some(j as int) && from <= j < cs@.len(),
            None => find_char(cs@, c, from as int) is None,
        }),
{
    let mut k: usize = from;
    while k < cs.len()
        invariant
            from <= k,
            k <= cs@.len() || k == from,
            find_char(cs@, c, from as int) == find_char(cs@, c, k as int),
        decreases cs.len() - k,
    {
        if cs[k] == c {
            return Some(k);
        }
        k = k + 1;
    }
    None
}

/// The first position at or after `from` whose character cannot stand in a
/// variable name, as executable code.
fn find_name_end_exec(cs: &Vec<char>, from: usize) -> (r: Option<usize>)
    ensures
        (match r {
            Some(j) => find_name_end(cs@, from as int) == Some(j as int) && from <= j < cs@.len(),
            None => find_name_end(cs@, from as int) is None,
        }),
{
    let mut k: usize = from;
    while k < cs.len()
        invariant
            from <= k,
            k <= cs@.len() || k == from,
            find_name_end(cs@, from as int) == find_name_end(cs@, k as int),
        decreases cs.len() - k,
    {
        if !(cs[k].is_alphanumeric() || cs[k] == '_') {
            return Some(k);
        }
        k = k + 1;
    }
    None
}

/// The value bound to a name, as executable code.
fn env_lookup(env: &Vec<(String, String)>, name: &Vec<char>) -> (r: Vec<char>)
    ensures
        r@ == lookup(env@, name@),
{
    let mut k: usize = 0;
    proof {
        assert(env@.skip(0) =~= env@);
    }
    while k < env.len()
        invariant
            k <= env@.len(),
            lookup(env@, name@) == lookup(env@.skip(k as int), name@),
        decreases env.len() - k,
    {
        proof {
            assert(env@.skip(k as int)[0] == env@[k as int]);
            assert(env@.skip(k as int).drop_first() =~= env@.skip(k + 1 as int));
        }
        if crate::text::str_eq_chars(env[k].0.as_str(), name.as_slice()) {
            return str_chars(env[k].1.as_str());
        }
        k = k + 1;
    }
    proof {
        assert(env@.skip(env@.len() as int).len() == 0);
    }
    Vec::new()
}

/// Expands every parameter reference in `source`, whether bare (`$NAME`)
/// or braced (`${NAME}`), in and outside of double quotes; single-quoted
/// spans are left untouched. Unset variables expand to the empty string; a
/// trailing lone `$` and a `${` without its `}` are errors.
pub fn expand_vars(source: &str, env: &Vec<(String, String)>) -> (r: Result<String, ArgumentError>)
    ensures
        (match r {
            Ok(out) => spec_expand_vars(source@, env@) == Ok::<Seq<char>, ArgumentError>(out@),
            Err(e) => spec_expand_vars(source@, env@) == Err::<Seq<char>, ArgumentError>(e),
        }),
{
    let cs = str_chars(source);
    let mut acc: Vec<char> = Vec::new();
    let mut i: usize = 0;
    while i < cs.len()
        invariant
            i <= cs.len(),
            cs@ == source@,
            vars_from(cs@, env@, 0) == prefixed(acc@, vars_from(cs@, env@, i as int)),
        decreases cs.len() - i,
    {
        let ghost acc0 = acc@;
        let c = cs[i];
        if c == '$' {
            if i + 1 >= cs.len() {
                return Err(ArgumentError::UnterminatedSequence('$'));
            }
            if cs[i + 1] == '{' {
                match find_char_exec(&cs, '}', i + 1) {
                    Some(j) => {
                        proof {
                            lemma_find_char_bounds(cs@, '}', i + 1 as int);
                            assert(cs@[i + 1 as int] != '}');
                        }
                        let name = crate::text::subvec(&cs, i + 2, j);
                        let mut value = env_lookup(env, &name);
                        let ghost val = value@;
                        push_all(&mut acc, &value);
                        proof {
                            lemma_prefixed_assoc(acc0, val, vars_from(cs@, env@, j + 1 as int));
                        }
                        i = j + 1;
                    },
                    None => {
                        return Err(ArgumentError::UnterminatedSequence('{'));
                    },
                }
            } else {
                match find_name_end_exec(&cs, i + 1) {
                    Some(j) => {
                        let name = crate::text::subvec(&cs, i + 1, j);
                        let mut value = env_lookup(env, &name);
                        let ghost val = value@;
                        push_all(&mut acc, &value);
                        proof {
                            lemma_prefixed_assoc(acc0, val, vars_from(cs@, env@, j as int));
                        }
                        i = j;
                    },
                    None => {
                        let name = crate::text::subvec(&cs, i + 1, cs.len());
                        let mut value = env_lookup(env, &name);
                        push_all(&mut acc, &value);
                        proof {
                            assert(acc@ + Seq::<char>::empty() =~= acc@);
                        }
                        i = cs.len();
                    },
                }
            }
        } else if c == '\'' {
            match find_char_exec(&cs, '\'', i + 1) {
                Some(j) => {
                    let span = crate::text::subvec(&cs, i, j + 1);
                    let ghost sp = span@;
                    push_all(&mut acc, &span);
                    proof {
                        lemma_prefixed_assoc(acc0, sp, vars_from(cs@, env@, j + 1 as int));
                    }
                    i = j + 1;
                },
                None => {
                    let span = crate::text::subvec(&cs, i, cs.len());
                    push_all(&mut acc, &span);
                    proof {
                        assert(acc@ + Seq::<char>::empty() =~= acc@);
                    }
                    i = cs.len();
                },
            }
        } else {
            acc.push(c);
            proof {
                assert(acc@ =~= acc0 + seq![c]);
                lemma_prefixed_assoc(acc0, seq![c], vars_from(cs@, env@, i + 1 as int));
            }
            i = i + 1;
        }
    }
    proof {
        assert(acc@ + Seq::<char>::empty() =~= acc@);
    }
    Ok(chars_to_string(&acc))
}

/// What word splitting makes of the text from `i` on, with `cur` the word
/// collected so far and `q` the quote character of the currently open
/// span, if any. Runs of unquoted, unescaped blanks separate words; quote
/// characters stay in the words they delimit.
pub open spec fn split_from(s: Seq<char>, i: int, cur: Seq<char>, q: Option<char>) -> Seq<
    Seq<char>,
>
    decreases s.len() - i,
{
    if i < 0 || i >= s.len() {
        if cur.len() == 0 {
            Seq::empty()
        } else {
            seq![cur]
        }
    } else {
        let c = s[i];
        match q {
            Some(qc) => split_from(
                s,
                i + 1,
                cur.push(c),
                if c == qc && s[i - 1] != '\\' {
                    None
                } else {
                    Some(qc)
                },
            ),
            None => {
                if c == ' ' || c == '\t' {
                    if cur.len() == 0 {
                        split_from(s, i + 1, cur, None)
                    } else {
                        seq![cur] + split_from(s, i + 1, Seq::empty(), None)
                    }
                } else if c == '\'' || c == '"' {
                    split_from(s, i + 1, cur.push(c), Some(c))
                } else if c == '\\' {
                    if i + 1 >= s.len() {
                        seq![cur.push('\\')]
                    } else {
                        split_from(s, i + 2, cur.push('\\').push(s[i + 1]), None)
                    }
                } else {
                    split_from(s, i + 1, cur.push(c), None)
                }
            },
        }
    }
}

/// What `split_words` returns for a whole line.
pub open spec fn spec_split_words(s: Seq<char>) -> Seq<Seq<char>> {
    split_from(s, 0, Seq::empty(), None)
}

/// Splits a line into its words on runs of blanks and tabs outside quotes.
/// A delimiter inside a quoted span, or right after a backslash, is no
/// split point; quote characters are kept, not removed, at this stage.
pub fn split_words(source: &str) -> (r: Vec<String>)
    ensures
        views_of(r@) == spec_split_words(source@),
{
    let cs = str_chars(source);
    let mut words: Vec<String> = Vec::new();
    let mut cur: Vec<char> = Vec::new();
    let mut quote: Option<char> = None;
    let mut i: usize = 0;
    while i < cs.len()
        invariant
            i <= cs.len(),
            cs@ == source@,
            quote is Some ==> i >= 1,
            spec_split_words(cs@) == views_of(words@) + split_from(cs@, i as int, cur@, quote),
        decreases cs.len() - i,
    {
        let ghost words0 = words@;
        let ghost cur0 = cur@;
        let c = cs[i];
        match quote {
            Some(qc) => {
                cur.push(c);
                if c == qc && cs[i - 1] != '\\' {
                    quote = None;
                }
                i = i + 1;
            },
            None => {
                if c == ' ' || c == '\t' {
                    if cur.len() > 0 {
                        words.push(chars_to_string(&cur));
                        cur = Vec::new();
                        proof {
                            assert(views_of(words@) =~= views_of(words0).push(cur0));
                            assert(views_of(words0) + (seq![cur0] + split_from(
                                cs@,
                                i + 1 as int,
                                Seq::<char>::empty(),
                                None,
                            )) =~= views_of(words@) + split_from(
                                cs@,
                                i + 1 as int,
                                Seq::<char>::empty(),
                                None,
                            ));
                        }
                    }
                    i = i + 1;
                } else if c == '\'' || c == '"' {
                    cur.push(c);
                    quote = Some(c);
                    i = i + 1;
                } else if c == '\\' {
                    cur.push('\\');
                    if i + 1 < cs.len() {
                        cur.push(cs[i + 1]);
                        i = i + 2;
                    } else {
                        i = i + 1;
                        proof {
                            assert(split_from(cs@, i as int, cur@, quote) =~= seq![cur@]);
                        }
                    }
                } else {
                    cur.push(c);
                    i = i + 1;
                }
            },
        }
    }
    if cur.len() > 0 {
        let ghost words0 = words@;
        let ghost cur0 = cur@;
        words.push(chars_to_string(&cur));
        proof {
            assert(views_of(words@) =~= views_of(words0).push(cur0));
            assert(views_of(words0) + seq![cur0] =~= views_of(words@));
        }
    } else {
        proof {
            assert(views_of(words@) + Seq::<Seq<char>>::empty() =~= views_of(words@));
        }
    }
    words
}

/// Whether the text from `i` on holds an unescaped `*`, `?` or `[`, the
/// glob metacharacters.
pub open spec fn spec_is_pattern(s: Seq<char>, i: int) -> bool
    decreases s.len() - i,
{
    if i < 0 || i >= s.len() {
        false
    } else if s[i] == '*' || s[i] == '?' || s[i] == '[' {
        true
    } else if s[i] == '\\' {
        if i + 1 >= s.len() {
            false
        } else {
            spec_is_pattern(s, i + 2)
        }
    } else {
        spec_is_pattern(s, i + 1)
    }
}

/// True when the word is a glob candidate: it holds an unescaped `*`, `?`
/// or `[`.
pub fn is_pattern(s: &str) -> (r: bool)
    ensures
        r == spec_is_pattern(s@, 0),
{
    let cs = str_chars(s);
    let mut i: usize = 0;
    while i < cs.len()
        invariant
            i <= cs.len(),
            cs@ == s@,
            spec_is_pattern(cs@, 0) == spec_is_pattern(cs@, i as int),
        decreases cs.len() - i,
    {
        let c = cs[i];
        if c == '*' || c == '?' || c == '[' {
            return true;
        }
        if c == '\\' {
            if i + 1 >= cs.len() {
                return false;
            }
            i = i + 2;
        } else {
            i = i + 1;
        }
    }
    false
}

/// The listing entries from position `k` on that match the pattern `p`, in
/// listing order.
pub open spec fn glob_hits(fs: Seq<Seq<char>>, p: Seq<char>, k: int) -> Seq<Seq<char>>
    decreases fs.len() - k,
{
    if k < 0 || k >= fs.len() {
        Seq::empty()
    } else if glob_match(p, fs[k]) {
        seq![fs[k]] + glob_hits(fs, p, k + 1)
    } else {
        glob_hits(fs, p, k + 1)
    }
}

/// What filename expansion makes of a word list against a listing of file
/// names. A word that is no glob candidate passes through; a candidate is
/// replaced by its matches in listing order, or kept literally when
/// nothing matches; a candidate that is no well-formed pattern is dropped.
pub open spec fn spec_expand_filenames(ws: Seq<Seq<char>>, fs: Seq<Seq<char>>) -> Seq<Seq<char>>
    decreases ws.len(),
{
    if ws.len() == 0 {
        Seq::empty()
    } else {
        let w = ws[0];
        let rest = spec_expand_filenames(ws.drop_first(), fs);
        if !spec_is_pattern(w, 0) {
            seq![w] + rest
        } else if !pattern_ok(w) {
            rest
        } else if glob_hits(fs, w, 0).len() == 0 {
            seq![w] + rest
        } else {
            glob_hits(fs, w, 0) + rest
        }
    }
}

/// The matches of one well-formed pattern within the listing.
fn collect_hits(p: &String, fs: &Vec<String>) -> (r: Vec<String>)
    requires
        pattern_ok(p@),
    ensures
        views_of(r@) == glob_hits(views_of(fs@), p@, 0),
{
    let mut hits: Vec<String> = Vec::new();
    let mut k: usize = 0;
    while k < fs.len()
        invariant
            k <= fs@.len(),
            pattern_ok(p@),
            glob_hits(views_of(fs@), p@, 0) == views_of(hits@) + glob_hits(
                views_of(fs@),
                p@,
                k as int,
            ),
        decreases fs.len() - k,
    {
        let ghost hits0 = hits@;
        match glob_matches(p.as_str(), fs[k].as_str()) {
            Some(m) => {
                if m {
                    hits.push(fs[k].clone());
                    proof {
                        assert(views_of(hits@) =~= views_of(hits0).push(fs@[k as int]@));
                        assert(views_of(hits0) + (seq![views_of(fs@)[k as int]] + glob_hits(
                            views_of(fs@),
                            p@,
                            k + 1 as int,
                        )) =~= views_of(hits@) + glob_hits(views_of(fs@), p@, k + 1 as int));
                    }
                }
            },
            None => {
                proof {
                    assert(false);
                }
            },
        }
        k = k + 1;
    }
    proof {
        assert(views_of(hits@) + Seq::<Seq<char>>::empty() =~= views_of(hits@));
    }
    hits
}

/// Replaces each glob-candidate word by the listing entries matching it,
/// in listing order; a candidate nothing matches stays literal, and a word
/// without glob metacharacters passes through unexamined. The caller hands
/// in the file-name listing, conventionally sorted, that the patterns are
/// tried against.
pub fn expand_filenames(argv: Vec<String>, fs: &Vec<String>) -> (r: Vec<String>)
    ensures
        views_of(r@) == spec_expand_filenames(views_of(argv@), views_of(fs@)),
{
    let mut out: Vec<String> = Vec::new();
    let mut w: usize = 0;
    proof {
        assert(views_of(argv@).skip(0) =~= views_of(argv@));
    }
    while w < argv.len()
        invariant
            w <= argv@.len(),
            spec_expand_filenames(views_of(argv@), views_of(fs@)) == views_of(out@)
                + spec_expand_filenames(views_of(argv@).skip(w as int), views_of(fs@)),
        decreases argv.len() - w,
    {
        let ghost out0 = out@;
        let ghost tail = views_of(argv@).skip(w as int);
        proof {
            assert(tail[0] == argv@[w as int]@);
            assert(tail.drop_first() =~= views_of(argv@).skip(w + 1 as int));
        }
        let word = &argv[w];
        if !is_pattern(word.as_str()) {
            out.push(word.clone());
            proof {
                assert(views_of(out@) =~= views_of(out0).push(argv@[w as int]@));
                assert(views_of(out0) + (seq![tail[0]] + spec_expand_filenames(
                    tail.drop_first(),
                    views_of(fs@),
                )) =~= views_of(out@) + spec_expand_filenames(tail.drop_first(), views_of(fs@)));
            }
        } else {
            match glob_matches(word.as_str(), "") {
                None => {
                    // the word is no well-formed pattern: it is dropped
                },
                Some(_) => {
                    let mut hits = collect_hits(word, fs);
                    if hits.len() == 0 {
                        out.push(word.clone());
                        proof {
                            assert(views_of(out@) =~= views_of(out0).push(argv@[w as int]@));
                            assert(views_of(out0) + (seq![tail[0]] + spec_expand_filenames(
                                tail.drop_first(),
                                views_of(fs@),
                            )) =~= views_of(out@) + spec_expand_filenames(
                                tail.drop_first(),
                                views_of(fs@),
                            ));
                        }
                    } else {
                        let ghost hv = views_of(hits@);
                        out.append(&mut hits);
                        proof {
                            assert(views_of(out@) =~= views_of(out0) + hv);
                            assert(views_of(out0) + (hv + spec_expand_filenames(
                                tail.drop_first(),
                                views_of(fs@),
                            )) =~= views_of(out@) + spec_expand_filenames(
                                tail.drop_first(),
                                views_of(fs@),
                            ));
                        }
                    }
                },
            }
        }
        w = w + 1;
    }
    proof {
        assert(views_of(out@) + Seq::<Seq<char>>::empty() =~= views_of(out@));
    }
    out
}

/// What quote removal makes of one word's text from `i` on, with `sq` and
/// `dq` telling whether a single- or double-quoted span is open. Unescaped
/// quote delimiters are removed; a quote of the other kind inside an open
/// span is kept; a backslash may escape only `"`, `'`, a blank or `~`; a
/// trailing backslash and an unclosed quote are errors.
pub open spec fn quotes_from(s: Seq<char>, i: int, sq: bool, dq: bool) -> Result<
    Seq<char>,
    ArgumentError,
>
    decreases s.len() - i,
{
    if i < 0 || i >= s.len() {
        if sq {
            Err(ArgumentError::UnterminatedSequence('\''))
        } else if dq {
            Err(ArgumentError::UnterminatedSequence('"'))
        } else {
            Ok(Seq::empty())
        }
    } else {
        let c = s[i];
        if c == '\'' {
            if dq {
                prefixed(seq![c], quotes_from(s, i + 1, sq, dq))
            } else {
                quotes_from(s, i + 1, !sq, dq)
            }
        } else if c == '"' {
            if sq {
                prefixed(seq![c], quotes_from(s, i + 1, sq, dq))
            } else {
                quotes_from(s, i + 1, sq, !dq)
            }
        } else if c == '\\' {
            if i + 1 >= s.len() {
                Err(ArgumentError::UnexpectedEndOfLine)
            } else if s[i + 1] == '"' || s[i + 1] == '\'' || s[i + 1] == ' ' || s[i + 1] == '~' {
                prefixed(seq![s[i + 1]], quotes_from(s, i + 2, sq, dq))
            } else {
                Err(ArgumentError::InvalidEscape(s[i + 1]))
            }
        } else {
            prefixed(seq![c], quotes_from(s, i + 1, sq, dq))
        }
    }
}

/// What quote removal makes of one whole word.
pub open spec fn spec_expand_word_quotes(w: Seq<char>) -> Result<Seq<char>, ArgumentError> {
    quotes_from(w, 0, false, false)
}

/// What quote removal makes of a word list: the words in order, each with
/// its quotes removed, or the first error among them.
pub open spec fn spec_expand_quotes(ws: Seq<Seq<char>>) -> Result<Seq<Seq<char>>, ArgumentError>
    decreases ws.len(),
{
    if ws.len() == 0 {
        Ok(Seq::empty())
    } else {
        match spec_expand_word_quotes(ws[0]) {
            Ok(w) => match spec_expand_quotes(ws.drop_first()) {
                Ok(rest) => Ok(seq![w] + rest),
                Err(e) => Err(e),
            },
            Err(e) => Err(e),
        }
    }
}

/// Quote removal for one word.
fn expand_word_quotes(word: &String) -> (r: Result<String, ArgumentError>)
    ensures
        (match r {
            Ok(out) => spec_expand_word_quotes(word@) == Ok::<Seq<char>, ArgumentError>(out@),
            Err(e) => spec_expand_word_quotes(word@) == Err::<Seq<char>, ArgumentError>(e),
        }),
{
    let cs = str_chars(word.as_str());
    let mut acc: Vec<char> = Vec::new();
    let mut sq = false;
    let mut dq = false;
    let mut i: usize = 0;
    while i < cs.len()
        invariant
            i <= cs.len(),
            cs@ == word@,
            quotes_from(cs@, 0, false, false) == prefixed(acc@, quotes_from(cs@, i as int, sq, dq)),
        decreases cs.len() - i,
    {
        let ghost acc0 = acc@;
        let c = cs[i];
        if c == '\'' {
            if dq {
                acc.push(c);
                proof {
                    assert(acc@ =~= acc0 + seq![c]);
                    lemma_prefixed_assoc(acc0, seq![c], quotes_from(cs@, i + 1 as int, sq, dq));
                }
            } else {
                sq = !sq;
            }
            i = i + 1;
        } else if c == '"' {
            if sq {
                acc.push(c);
                proof {
                    assert(acc@ =~= acc0 + seq![c]);
                    lemma_prefixed_assoc(acc0, seq![c], quotes_from(cs@, i + 1 as int, sq, dq));
                }
            } else {
                dq = !dq;
            }
            i = i + 1;
        } else if c == '\\' {
            if i + 1 >= cs.len() {
                return Err(ArgumentError::UnexpectedEndOfLine);
            }
            let e = cs[i + 1];
            if e == '"' || e == '\'' || e == ' ' || e == '~' {
                acc.push(e);
                proof {
                    assert(acc@ =~= acc0 + seq![e]);
                    lemma_prefixed_assoc(acc0, seq![e], quotes_from(cs@, i + 2 as int, sq, dq));
                }
                i = i + 2;
            } else {
                return Err(ArgumentError::InvalidEscape(e));
            }
        } else {
            acc.push(c);
            proof {
                assert(acc@ =~= acc0 + seq![c]);
                lemma_prefixed_assoc(acc0, seq![c], quotes_from(cs@, i + 1 as int, sq, dq));
            }
            i = i + 1;
        }
    }
    if sq {
        return Err(ArgumentError::UnterminatedSequence('\''));
    }
    if dq {
        return Err(ArgumentError::UnterminatedSequence('"'));
    }
    proof {
        assert(acc@ + Seq::<char>::empty() =~= acc@);
    }
    Ok(chars_to_string(&acc))
}

/// Removes unescaped quote delimiters from every word, as the final pass
/// of the pipeline. A quote character of the other kind inside an open
/// span stays; a backslash escapes only `"`, `'`, a blank or `~`; any
/// other escape, a trailing backslash, and an unclosed quote are errors.
pub fn expand_quotes(argv: Vec<String>) -> (r: Result<Vec<String>, ArgumentError>)
    ensures
        (match r {
            Ok(out) => spec_expand_quotes(views_of(argv@)) == Ok::<
                Seq<Seq<char>>,
                ArgumentError,
            >(views_of(out@)),
            Err(e) => spec_expand_quotes(views_of(argv@)) == Err::<Seq<Seq<char>>, ArgumentError>(
                e,
            ),
        }),
{
    let mut out: Vec<String> = Vec::new();
    let mut w: usize = 0;
    proof {
        assert(views_of(argv@).skip(0) =~= views_of(argv@));
        assert(views_of(out@).len() == 0);
    }
    while w < argv.len()
        invariant
            w <= argv@.len(),
            (match spec_expand_quotes(views_of(argv@).skip(w as int)) {
                Ok(rest) => spec_expand_quotes(views_of(argv@)) == Ok::<
                    Seq<Seq<char>>,
                    ArgumentError,
                >(views_of(out@) + rest),
                Err(e) => spec_expand_quotes(views_of(argv@)) == Err::<
                    Seq<Seq<char>>,
                    ArgumentError,
                >(e),
            }),
        decreases argv.len() - w,
    {
        let ghost out0 = out@;
        let ghost tail = views_of(argv@).skip(w as int);
        proof {
            assert(tail[0] == argv@[w as int]@);
            assert(tail.drop_first() =~= views_of(argv@).skip(w + 1 as int));
        }
        match expand_word_quotes(&argv[w]) {
            Ok(word) => {
                out.push(word);
                proof {
                    assert(views_of(out@) =~= views_of(out0).push(out@[out@.len() - 1]@));
                    if spec_expand_quotes(tail.drop_first()) is Ok {
                        let rest = spec_expand_quotes(tail.drop_first())->Ok_0;
                        assert(views_of(out0) + (seq![views_of(out@).last()] + rest) =~= views_of(
                            out@,
                        ) + rest);
                    }
                }
            },
            Err(e) => {
                return Err(e);
            },
        }
        w = w + 1;
    }
    proof {
        assert(views_of(argv@).skip(argv@.len() as int).len() == 0);
        assert(views_of(out@) + Seq::<Seq<char>>::empty() =~= views_of(out@));
    }
    Ok(out)
}

/// What the whole pipeline returns: tilde expansion, then variable
/// expansion, then word splitting, then filename expansion, then quote
/// removal, in that order and no other.
pub open spec fn spec_expand(
    s: Seq<char>,
    home: Option<Seq<char>>,
    env: Seq<(String, String)>,
    fs: Seq<Seq<char>>,
) -> Result<Seq<Seq<char>>, ArgumentError> {
    match spec_expand_tilde(s, home) {
        Err(e) => Err(e),
        Ok(t) => match spec_expand_vars(t, env) {
            Err(e) => Err(e),
            Ok(v) => spec_expand_quotes(spec_expand_filenames(spec_split_words(v), fs)),
        },
    }
}

/// Expands one raw line into argument words: tilde expansion, variable
/// expansion, word splitting, filename expansion and quote removal, in
/// that fixed order. The home directory, the variable bindings and the
/// file-name listing for glob matching arrive as plain values.
pub fn expand(source: &str, home: Option<&str>, env: &Vec<(String, String)>, fs: &Vec<String>) -> (r:
    Result<Vec<String>, ArgumentError>)
    ensures
        (match r {
            Ok(out) => spec_expand(source@, home_view(home), env@, views_of(fs@)) == Ok::<
                Seq<Seq<char>>,
                ArgumentError,
            >(views_of(out@)),
            Err(e) => spec_expand(source@, home_view(home), env@, views_of(fs@)) == Err::<
                Seq<Seq<char>>,
                ArgumentError,
            >(e),
        }),
{
    let tilde = match expand_tilde(source, home) {
        Ok(t) => t,
        Err(e) => {
            return Err(e);
        },
    };
    let vars = match expand_vars(tilde.as_str(), env) {
        Ok(v) => v,
        Err(e) => {
            return Err(e);
        },
    };
    let words = split_words(vars.as_str());
    let filenames = expand_filenames(words, fs);
    expand_quotes(filenames)
}

/// A character that no expansion pass acts on: not a tilde, dollar sign,
/// quote, backslash or glob metacharacter.
pub open spec fn plain_char(c: char) -> bool {
    c != '~' && c != '$' && c != '\'' && c != '"' && c != '\\' && c != '*' && c != '?' && c
        != '['
}

/// Text of plain characters only.
pub open spec fn plain_text(s: Seq<char>) -> bool {
    forall|j: int| 0 <= j < s.len() ==> plain_char(s[j])
}

/// A word list of plain words only.
pub open spec fn all_plain(ws: Seq<Seq<char>>) -> bool {
    forall|k: int| 0 <= k < ws.len() ==> plain_text(#[trigger] ws[k])
}

proof fn lemma_plain_vars(s: Seq<char>, env: Seq<(String, String)>, i: int)
    requires
        plain_text(s),
        0 <= i <= s.len(),
    ensures
        vars_from(s, env, i) == Ok::<Seq<char>, ArgumentError>(s.subrange(i, s.len() as int)),
    decreases s.len() - i,
{
    if i >= s.len() {
        assert(s.subrange(i, s.len() as int) =~= Seq::<char>::empty());
    } else {
        lemma_plain_vars(s, env, i + 1);
        assert(seq![s[i]] + s.subrange(i + 1, s.len() as int) =~= s.subrange(i, s.len() as int));
    }
}

proof fn lemma_plain_split(s: Seq<char>, i: int, cur: Seq<char>)
    requires
        plain_text(s),
        plain_text(cur),
        0 <= i <= s.len(),
    ensures
        all_plain(split_from(s, i, cur, None)),
    decreases s.len() - i,
{
    if i >= s.len() {
        if cur.len() > 0 {
            assert forall|k: int| 0 <= k < seq![cur].len() implies plain_text(
                #[trigger] seq![cur][k],
            ) by {
                assert(seq![cur][k] == cur);
            }
        }
    } else {
        let c = s[i];
        assert(plain_char(c));
        if c == ' ' || c == '\t' {
            if cur.len() == 0 {
                lemma_plain_split(s, i + 1, cur);
            } else {
                lemma_plain_split(s, i + 1, Seq::empty());
                let rest = split_from(s, i + 1, Seq::empty(), None);
                assert forall|k: int| 0 <= k < (seq![cur] + rest).len() implies plain_text(
                    #[trigger] (seq![cur] + rest)[k],
                ) by {
                    if k == 0 {
                        assert((seq![cur] + rest)[0] == cur);
                    } else {
                        assert((seq![cur] + rest)[k] == rest[k - 1]);
                    }
                }
            }
        } else {
            assert forall|j: int| 0 <= j < cur.push(c).len() implies plain_char(
                #[trigger] cur.push(c)[j],
            ) by {
                if j < cur.len() {
                    assert(cur.push(c)[j] == cur[j]);
                } else {
                    assert(cur.push(c)[j] == c);
                }
            }
            lemma_plain_split(s, i + 1, cur.push(c));
        }
    }
}

proof fn lemma_plain_no_pattern(w: Seq<char>, i: int)
    requires
        plain_text(w),
        0 <= i,
    ensures
        !spec_is_pattern(w, i),
    decreases w.len() - i,
{
    if i < w.len() {
        lemma_plain_no_pattern(w, i + 1);
    }
}

proof fn lemma_plain_filenames(ws: Seq<Seq<char>>, fs: Seq<Seq<char>>)
    requires
        all_plain(ws),
    ensures
        spec_expand_filenames(ws, fs) == ws,
    decreases ws.len(),
{
    if ws.len() > 0 {
        assert(all_plain(ws.drop_first())) by {
            assert forall|k: int| 0 <= k < ws.drop_first().len() implies plain_text(
                #[trigger] ws.drop_first()[k],
            ) by {
                assert(ws.drop_first()[k] == ws[k + 1]);
            }
        }
        lemma_plain_no_pattern(ws[0], 0);
        lemma_plain_filenames(ws.drop_first(), fs);
        assert(seq![ws[0]] + ws.drop_first() =~= ws);
    }
}

proof fn lemma_plain_word_quotes(w: Seq<char>, i: int)
    requires
        plain_text(w),
        0 <= i <= w.len(),
    ensures
        quotes_from(w, i, false, false) == Ok::<Seq<char>, ArgumentError>(
            w.subrange(i, w.len() as int),
        ),
    decreases w.len() - i,
{
    if i >= w.len() {
        assert(w.subrange(i, w.len() as int) =~= Seq::<char>::empty());
    } else {
        lemma_plain_word_quotes(w, i + 1);
        assert(seq![w[i]] + w.subrange(i + 1, w.len() as int) =~= w.subrange(i, w.len() as int));
    }
}

proof fn lemma_plain_quotes(ws: Seq<Seq<char>>)
    requires
        all_plain(ws),
    ensures
        spec_expand_quotes(ws) == Ok::<Seq<Seq<char>>, ArgumentError>(ws),
    decreases ws.len(),
{
    if ws.len() == 0 {
        assert(ws =~= Seq::<Seq<char>>::empty());
    } else {
        assert(all_plain(ws.drop_first())) by {
            assert forall|k: int| 0 <= k < ws.drop_first().len() implies plain_text(
                #[trigger] ws.drop_first()[k],
            ) by {
                assert(ws.drop_first()[k] == ws[k + 1]);
            }
        }
        assert(plain_text(ws[0]));
        lemma_plain_word_quotes(ws[0], 0);
        assert(ws[0].subrange(0, ws[0].len() as int) =~= ws[0]);
        assert(spec_expand_word_quotes(ws[0]) == Ok::<Seq<char>, ArgumentError>(ws[0]));
        lemma_plain_quotes(ws.drop_first());
        assert(spec_expand_quotes(ws.drop_first()) == Ok::<Seq<Seq<char>>, ArgumentError>(
            ws.drop_first(),
        ));
        assert(spec_expand_quotes(ws) == Ok::<Seq<Seq<char>>, ArgumentError>(
            seq![ws[0]] + ws.drop_first(),
        ));
        assert(seq![ws[0]] + ws.drop_first() =~= ws);
    }
}

/// On a line that holds no tilde, dollar sign, quote, backslash or glob
/// metacharacter, the whole pipeline does nothing but split the line into
/// words: for such input, `expand` returns exactly `split_words`'s result,
/// whatever the home directory, environment and file listing are.
pub proof fn lemma_plain_expand(
    s: Seq<char>,
    home: Option<Seq<char>>,
    env: Seq<(String, String)>,
    fs: Seq<Seq<char>>,
)
    requires
        plain_text(s),
    ensures
        spec_expand(s, home, env, fs) == Ok::<Seq<Seq<char>>, ArgumentError>(spec_split_words(s)),
{
    assert(!s.contains('~')) by {
        if s.contains('~') {
            let j = choose|j: int| 0 <= j < s.len() && s[j] == '~';
            assert(plain_char(s[j]));
        }
    }
    lemma_plain_vars(s, env, 0);
    assert(s.subrange(0, s.len() as int) =~= s);
    lemma_plain_split(s, 0, Seq::empty());
    lemma_plain_filenames(spec_split_words(s), fs);
    lemma_plain_quotes(spec_split_words(s));
}

/// The first position at or after `from` holding `c` in a character
/// vector.
pub fn find_char_pub(cs: &Vec<char>, c: char, from: usize) -> (r: Option<usize>)
    ensures
        (match r {
            Some(j) => find_char(cs@, c, from as int) == Some(j as int) && from <= j < cs@.len(),
            None => find_char(cs@, c, from as int) is None,
        }),
{
    find_char_exec(cs, c, from)
}

} // verus!
