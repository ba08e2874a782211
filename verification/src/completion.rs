//! Completion search: prefix lookup over a file-system listing.
//!
//! The listing arrives as plain values: each entry is a path with its
//! directory and executable flags, conventionally in lexicographic order,
//! gathered by the embedding application. Lookup builds a glob pattern
//! from the typed prefix and keeps the entries matching it; an unreadable
//! directory simply contributes no entries, and a prefix that is no
//! well-formed pattern contributes no matches rather than aborting.

use vstd::prelude::*;

use crate::globs::{glob_match, glob_matches, pattern_ok};
use crate::text::{chars_to_string, push_all, str_chars, subvec};

verus! {

/// One file-system listing entry: a path and the two facts completion
/// cares about.
pub struct FsEntry {
    /// The path, relative to where the listing was taken.
    pub path: String,
    /// Whether the path names a directory.
    pub is_dir: bool,
    /// Whether the path names something executable.
    pub is_executable: bool,
}

impl Clone for FsEntry {
    /// An equal copy of the entry.
    fn clone(&self) -> (r: Self)
        ensures
            r == *self,
    {
        FsEntry { path: self.path.clone(), is_dir: self.is_dir, is_executable: self.is_executable }
    }
}

/// Whether the text begins with a current-directory component.
pub open spec fn has_cur_dir(s: Seq<char>) -> bool {
    s == seq!['.'] || (s.len() >= 2 && s[0] == '.' && s[1] == '/')
}

/// The text with leading current-directory components removed, as a glob
/// walk normalizes them away.
pub open spec fn strip_cur_dir(s: Seq<char>) -> Seq<char>
    decreases s.len(),
{
    if s.len() >= 2 && s[0] == '.' && s[1] == '/' {
        strip_cur_dir(s.skip(2))
    } else {
        s
    }
}

/// The glob pattern that searches for a prefix: the normalized prefix with
/// a trailing star.
pub open spec fn prefix_pattern(prefix: Seq<char>) -> Seq<char> {
    strip_cur_dir(prefix) + seq!['*']
}

/// The completion name an entry is reported under: its path, with the
/// prefix's leading current-directory component restored.
pub open spec fn merged_name(prefix: Seq<char>, path: Seq<char>) -> Seq<char> {
    if has_cur_dir(prefix) {
        seq!['.', '/'] + path
    } else {
        path
    }
}

/// Restores the current-directory component that a search lost: a name
/// merged onto a prefix that began with one, or nothing.
pub fn merge_prefix_with_completion(original_path: &str, new: &str) -> (r: Option<String>)
    ensures
        (match r {
            Some(m) => has_cur_dir(original_path@) && m@ == seq!['.', '/'] + new@,
            None => !has_cur_dir(original_path@),
        }),
{
    let cs = str_chars(original_path);
    let is_cur = if cs.len() == 1 {
        let r0 = cs[0] == '.';
        proof {
            assert(r0 ==> cs@ =~= seq!['.']);
            assert(cs@ == seq!['.'] ==> cs@[0] == '.');
        }
        r0
    } else {
        cs.len() >= 2 && cs[0] == '.' && cs[1] == '/'
    };
    proof {
        if cs@.len() != 1 && !(cs@.len() >= 2) {
            assert(cs@.len() == 0);
            assert(cs@ != seq!['.']);
        }
    }
    if is_cur {
        let mut v: Vec<char> = Vec::new();
        v.push('.');
        v.push('/');
        let rest = str_chars(new);
        push_all(&mut v, &rest);
        proof {
            assert(v@ =~= seq!['.', '/'] + new@);
        }
        Some(chars_to_string(&v))
    } else {
        None
    }
}

/// The completion names of the listing entries from position `k` on whose
/// paths match the pattern and whose flags pass the given filter: keep
/// directories or keep executables, each taken as "no constraint" when
/// false has been widened to true by the caller's choice of flags.
pub open spec fn spec_prefix_hits(
    fs: Seq<FsEntry>,
    pat: Seq<char>,
    prefix: Seq<char>,
    need_exec: bool,
    dir_or_cur_exec: bool,
    cur: bool,
    k: int,
) -> Seq<Seq<char>>
    decreases fs.len() - k,
{
    if k < 0 || k >= fs.len() {
        Seq::empty()
    } else {
        let e = fs[k];
        let pass = glob_match(pat, e.path@) && (if need_exec {
            e.is_executable
        } else if dir_or_cur_exec {
            e.is_dir || (e.is_executable && cur)
        } else {
            true
        });
        if pass {
            seq![merged_name(prefix, e.path@)] + spec_prefix_hits(
                fs,
                pat,
                prefix,
                need_exec,
                dir_or_cur_exec,
                cur,
                k + 1,
            )
        } else {
            spec_prefix_hits(fs, pat, prefix, need_exec, dir_or_cur_exec, cur, k + 1)
        }
    }
}

/// The normalized prefix with a trailing star, as executable code.
fn build_pattern(prefix: &str) -> (r: Vec<char>)
    ensures
        r@ == prefix_pattern(prefix@),
{
    let cs = str_chars(prefix);
    let mut a: usize = 0;
    proof {
        assert(cs@.skip(0) =~= cs@);
    }
    while a < cs.len() && a + 1 < cs.len() && cs[a] == '.' && cs[a + 1] == '/'
        invariant
            a <= cs@.len(),
            cs@ == prefix@,
            strip_cur_dir(prefix@) == strip_cur_dir(cs@.skip(a as int)),
        decreases cs.len() - a,
    {
        proof {
            assert(cs@.skip(a as int).skip(2) =~= cs@.skip(a + 2 as int));
        }
        a = a + 2;
    }
    proof {
        assert(strip_cur_dir(cs@.skip(a as int)) == cs@.skip(a as int));
    }
    let mut v = subvec(&cs, a, cs.len());
    proof {
        assert(cs@.subrange(a as int, cs@.len() as int) =~= cs@.skip(a as int));
    }
    v.push('*');
    proof {
        assert(v@ =~= strip_cur_dir(prefix@) + seq!['*']);
    }
    v
}

/// Whether the prefix begins with a current-directory component, as
/// executable code.
fn starts_cur_dir(prefix: &str) -> (r: bool)
    ensures
        r == has_cur_dir(prefix@),
{
    let cs = str_chars(prefix);
    if cs.len() == 1 {
        let r0 = cs[0] == '.';
        proof {
            assert(r0 ==> cs@ =~= seq!['.']);
            assert(cs@ == seq!['.'] ==> cs@[0] == '.');
        }
        r0
    } else {
        proof {
            if cs@.len() != 1 {
                assert(cs@ != seq!['.']);
            }
        }
        cs.len() >= 2 && cs[0] == '.' && cs[1] == '/'
    }
}

/// The matching entries of one listing under one pattern and filter.
fn collect_prefix_hits(
    fs: &Vec<FsEntry>,
    pat: &Vec<char>,
    prefix: &str,
    need_exec: bool,
    dir_or_cur_exec: bool,
    cur: bool,
) -> (r: Option<Vec<String>>)
    ensures
        r is Some <==> pattern_ok(pat@),
        (match r {
            Some(names) => crate::argv::expand::views_of(names@) == spec_prefix_hits(
                fs@,
                pat@,
                prefix@,
                need_exec,
                dir_or_cur_exec,
                cur,
                0,
            ),
            None => true,
        }),
{
    let pat_s = chars_to_string(pat);
    match glob_matches(pat_s.as_str(), "") {
        None => {
            return None;
        },
        Some(_) => {},
    }
    let is_cur = starts_cur_dir(prefix);
    let mut out: Vec<String> = Vec::new();
    let mut k: usize = 0;
    while k < fs.len()
        invariant
            k <= fs@.len(),
            pat_s@ == pat@,
            pattern_ok(pat@),
            is_cur == has_cur_dir(prefix@),
            spec_prefix_hits(fs@, pat@, prefix@, need_exec, dir_or_cur_exec, cur, 0)
                == crate::argv::expand::views_of(out@) + spec_prefix_hits(
                fs@,
                pat@,
                prefix@,
                need_exec,
                dir_or_cur_exec,
                cur,
                k as int,
            ),
        decreases fs@.len() - k,
    {
        let ghost out0 = out@;
        let e = &fs[k];
        let m = match glob_matches(pat_s.as_str(), e.path.as_str()) {
            Some(m) => m,
            None => {
                proof {
                    assert(false);
                }
                false
            },
        };
        let pass = m && (if need_exec {
            e.is_executable
        } else if dir_or_cur_exec {
            e.is_dir || (e.is_executable && cur)
        } else {
            true
        });
        if pass {
            let name = if is_cur {
                let mut v: Vec<char> = Vec::new();
                v.push('.');
                v.push('/');
                let rest = str_chars(e.path.as_str());
                push_all(&mut v, &rest);
                proof {
                    assert(v@ =~= merged_name(prefix@, fs@[k as int].path@));
                }
                chars_to_string(&v)
            } else {
                e.path.clone()
            };
            out.push(name);
            proof {
                assert(crate::argv::expand::views_of(out@) =~= crate::argv::expand::views_of(
                    out0,
                ).push(merged_name(prefix@, fs@[k as int].path@)));
                assert(crate::argv::expand::views_of(out0) + (seq![
                    merged_name(prefix@, fs@[k as int].path@),
                ] + spec_prefix_hits(
                    fs@,
                    pat@,
                    prefix@,
                    need_exec,
                    dir_or_cur_exec,
                    cur,
                    k + 1 as int,
                )) =~= crate::argv::expand::views_of(out@) + spec_prefix_hits(
                    fs@,
                    pat@,
                    prefix@,
                    need_exec,
                    dir_or_cur_exec,
                    cur,
                    k + 1 as int,
                ));
            }
        }
        k = k + 1;
    }
    proof {
        assert(crate::argv::expand::views_of(out@) + Seq::<Seq<char>>::empty()
            =~= crate::argv::expand::views_of(out@));
    }
    Some(out)
}

/// Searches the listing for paths matching the typed prefix: the entries
/// whose paths match the prefix's glob pattern, under their completion
/// names; nothing when the prefix makes no well-formed pattern.
pub fn search_prefix(prefix: &str, fs: &Vec<FsEntry>) -> (r: Option<Vec<String>>)
    ensures
        r is Some <==> pattern_ok(prefix_pattern(prefix@)),
        (match r {
            Some(names) => crate::argv::expand::views_of(names@) == spec_prefix_hits(
                fs@,
                prefix_pattern(prefix@),
                prefix@,
                false,
                false,
                false,
                0,
            ),
            None => true,
        }),
{
    let pat = build_pattern(prefix);
    collect_prefix_hits(fs, &pat, prefix, false, false, false)
}

/// The segments of a colon-separated list from position `i` on, empty
/// segments kept.
pub open spec fn spec_segments(s: Seq<char>, i: int) -> Seq<Seq<char>>
    decreases s.len() - i,
    via spec_segments_dec
{
    if i < 0 {
        Seq::empty()
    } else {
        match crate::argv::expand::find_char(s, ':', i) {
            Some(j) => seq![s.subrange(i, j)] + spec_segments(s, j + 1),
            None => seq![s.subrange(i, s.len() as int)],
        }
    }
}

#[via_fn]
proof fn spec_segments_dec(s: Seq<char>, i: int) {
    crate::argv::expand::lemma_find_char_bounds(s, ':', i);
}

/// The length of the text once trailing path separators are dropped.
pub open spec fn strip_trailing_len(s: Seq<char>, j: int) -> int
    decreases j,
{
    if j <= 0 {
        0
    } else if s[j - 1] == '/' {
        strip_trailing_len(s, j - 1)
    } else {
        j
    }
}

/// The position right after the last path separator before `j`, or zero.
pub open spec fn after_last_slash(s: Seq<char>, j: int) -> int
    decreases j,
{
    if j <= 0 {
        0
    } else if s[j - 1] == '/' {
        j
    } else {
        after_last_slash(s, j - 1)
    }
}

/// The final path component: what follows the last separator, once
/// trailing separators are dropped.
pub open spec fn spec_basename(p: Seq<char>) -> Seq<char> {
    let t = p.take(strip_trailing_len(p, p.len() as int));
    t.skip(after_last_slash(t, t.len() as int))
}

/// Whether the path has a parent component: dropped of trailing
/// separators, it still holds one.
pub open spec fn has_parent(s: Seq<char>) -> bool {
    s.take(strip_trailing_len(s, s.len() as int)).contains('/')
}

/// One path joined under a directory: an absolute path stands alone, an
/// empty directory adds nothing, and otherwise one separator stands
/// between them.
pub open spec fn spec_join(d: Seq<char>, p: Seq<char>) -> Seq<char> {
    if p.len() > 0 && p[0] == '/' {
        p
    } else if d.len() == 0 {
        p
    } else if d.last() == '/' {
        d + p
    } else {
        d + seq!['/'] + p
    }
}

/// The base names of the listing's executable non-directory entries from
/// position `k` on whose paths match the pattern.
pub open spec fn spec_path_hits(fs: Seq<FsEntry>, pat: Seq<char>, k: int) -> Seq<Seq<char>>
    decreases fs.len() - k,
{
    if k < 0 || k >= fs.len() {
        Seq::empty()
    } else {
        let e = fs[k];
        if glob_match(pat, e.path@) && !e.is_dir && e.is_executable {
            seq![spec_basename(e.path@)] + spec_path_hits(fs, pat, k + 1)
        } else {
            spec_path_hits(fs, pat, k + 1)
        }
    }
}

/// What searching every directory of the search path finds, in path
/// order: each directory contributes the executable, non-directory
/// matches of the prefix's pattern under that directory, as base names; a
/// directory whose pattern is not well formed contributes nothing.
pub open spec fn spec_search_path(
    dirs: Seq<Seq<char>>,
    prefix: Seq<char>,
    fs: Seq<FsEntry>,
    d: int,
) -> Seq<Seq<char>>
    decreases dirs.len() - d,
{
    if d < 0 || d >= dirs.len() {
        Seq::empty()
    } else {
        let pat = prefix_pattern(spec_join(dirs[d], prefix));
        (if pattern_ok(pat) {
            spec_path_hits(fs, pat, 0)
        } else {
            Seq::empty()
        }) + spec_search_path(dirs, prefix, fs, d + 1)
    }
}

/// The final path component, as executable code.
fn basename_chars(p: &str) -> (r: Vec<char>)
    ensures
        r@ == spec_basename(p@),
{
    let cs = str_chars(p);
    let mut j: usize = cs.len();
    while j > 0 && cs[j - 1] == '/'
        invariant
            j <= cs@.len(),
            cs@ == p@,
            strip_trailing_len(cs@, cs@.len() as int) == strip_trailing_len(cs@, j as int),
        decreases j,
    {
        j = j - 1;
    }
    proof {
        assert(strip_trailing_len(cs@, j as int) == j as int);
    }
    let ghost t = cs@.take(j as int);
    let mut a: usize = j;
    while a > 0 && cs[a - 1] != '/'
        invariant
            a <= j <= cs@.len(),
            cs@ == p@,
            t == cs@.take(j as int),
            after_last_slash(t, t.len() as int) == after_last_slash(t, a as int),
        decreases a,
    {
        proof {
            assert(t[a - 1] == cs@[a - 1]);
        }
        a = a - 1;
    }
    proof {
        if a > 0 {
            assert(t[a - 1] == cs@[a - 1]);
        }
        assert(after_last_slash(t, a as int) == a as int);
    }
    let r = subvec(&cs, a, j);
    proof {
        assert(cs@.subrange(a as int, j as int) =~= t.skip(a as int));
    }
    r
}

/// One path joined under a directory, as executable code.
fn join_chars(d: &Vec<char>, p: &str) -> (r: Vec<char>)
    ensures
        r@ == spec_join(d@, p@),
{
    let pc = str_chars(p);
    if pc.len() > 0 && pc[0] == '/' {
        return pc;
    }
    if d.len() == 0 {
        return pc;
    }
    let mut out = subvec(d, 0, d.len());
    proof {
        assert(d@.subrange(0, d@.len() as int) =~= d@);
    }
    if d[d.len() - 1] != '/' {
        out.push('/');
    }
    push_all(&mut out, &pc);
    proof {
        if d@.last() == '/' {
            assert(out@ =~= spec_join(d@, p@));
        } else {
            assert(out@ =~= spec_join(d@, p@));
        }
    }
    out
}

/// The matching base names of one listing under one pattern.
fn collect_path_hits(fs: &Vec<FsEntry>, pat: &Vec<char>) -> (r: Option<Vec<String>>)
    ensures
        r is Some <==> pattern_ok(pat@),
        (match r {
            Some(names) => crate::argv::expand::views_of(names@) == spec_path_hits(fs@, pat@, 0),
            None => true,
        }),
{
    let pat_s = chars_to_string(pat);
    match glob_matches(pat_s.as_str(), "") {
        None => {
            return None;
        },
        Some(_) => {},
    }
    let mut out: Vec<String> = Vec::new();
    let mut k: usize = 0;
    while k < fs.len()
        invariant
            k <= fs@.len(),
            pat_s@ == pat@,
            pattern_ok(pat@),
            spec_path_hits(fs@, pat@, 0) == crate::argv::expand::views_of(out@) + spec_path_hits(
                fs@,
                pat@,
                k as int,
            ),
        decreases fs@.len() - k,
    {
        let ghost out0 = out@;
        let e = &fs[k];
        let m = match glob_matches(pat_s.as_str(), e.path.as_str()) {
            Some(m) => m,
            None => {
                proof {
                    assert(false);
                }
                false
            },
        };
        if m && !e.is_dir && e.is_executable {
            let name = basename_chars(e.path.as_str());
            out.push(chars_to_string(&name));
            proof {
                assert(crate::argv::expand::views_of(out@) =~= crate::argv::expand::views_of(
                    out0,
                ).push(spec_basename(fs@[k as int].path@)));
                assert(crate::argv::expand::views_of(out0) + (seq![
                    spec_basename(fs@[k as int].path@),
                ] + spec_path_hits(fs@, pat@, k + 1 as int)) =~= crate::argv::expand::views_of(
                    out@,
                ) + spec_path_hits(fs@, pat@, k + 1 as int));
            }
        }
        k = k + 1;
    }
    proof {
        assert(crate::argv::expand::views_of(out@) + Seq::<Seq<char>>::empty()
            =~= crate::argv::expand::views_of(out@));
    }
    Some(out)
}

/// Searches the directories of a colon-separated search path for
/// executable, non-directory entries matching the prefix, reported as
/// base names in path order. A directory whose pattern is not well formed
/// contributes nothing; so the search never aborts.
pub fn search_path(prefix: &str, path_val: &str, fs: &Vec<FsEntry>) -> (r: Vec<String>)
    ensures
        crate::argv::expand::views_of(r@) == spec_search_path(
            spec_segments(path_val@, 0),
            prefix@,
            fs@,
            0,
        ),
{
    let pv = str_chars(path_val);
    let ghost dirs = spec_segments(path_val@, 0);
    let mut out: Vec<String> = Vec::new();
    let mut i: usize = 0;
    let ghost mut d: int = 0;
    let mut done = false;
    while !done
        invariant
            0 <= d,
            i <= pv@.len(),
            pv@ == path_val@,
            dirs == spec_segments(path_val@, 0),
            !done ==> d < dirs.len() && spec_segments(pv@, i as int) == dirs.skip(d),
            done ==> d == dirs.len(),
            crate::argv::expand::views_of(out@) + spec_search_path(dirs, prefix@, fs@, d)
                == spec_search_path(dirs, prefix@, fs@, 0),
        decreases dirs.len() - d,
    {
        let ghost out0 = out@;
        proof {
            assert(dirs.skip(d)[0] == dirs[d]);
            crate::argv::expand::lemma_find_char_bounds(pv@, ':', i as int);
        }
        // the current segment runs to the next colon or to the end
        let seg_end = match crate::argv::expand::find_char_pub(&pv, ':', i) {
            Some(j) => j,
            None => pv.len(),
        };
        let seg = subvec(&pv, i, seg_end);
        proof {
            assert(seg@ == dirs[d]);
        }
        let full = join_chars(&seg, prefix);
        // normalize and add the trailing star, as the prefix search does
        let full_str = chars_to_string(&full);
        let pat = build_pattern(full_str.as_str());
        match collect_path_hits(fs, &pat) {
            Some(mut names) => {
                let ghost nv = crate::argv::expand::views_of(names@);
                out.append(&mut names);
                proof {
                    assert(crate::argv::expand::views_of(out@)
                        =~= crate::argv::expand::views_of(out0) + nv);
                    assert(crate::argv::expand::views_of(out0) + (nv + spec_search_path(
                        dirs,
                        prefix@,
                        fs@,
                        d + 1,
                    )) =~= crate::argv::expand::views_of(out@) + spec_search_path(
                        dirs,
                        prefix@,
                        fs@,
                        d + 1,
                    ));
                }
            },
            None => {
                proof {
                    assert(crate::argv::expand::views_of(out0) + (Seq::<Seq<char>>::empty()
                        + spec_search_path(dirs, prefix@, fs@, d + 1))
                        =~= crate::argv::expand::views_of(out0) + spec_search_path(
                        dirs,
                        prefix@,
                        fs@,
                        d + 1,
                    ));
                }
            },
        }
        match crate::argv::expand::find_char_pub(&pv, ':', i) {
            Some(j) => {
                let n = pv.len();
                proof {
                    assert(j < n);
                }
                i = j + 1;
                proof {
                    assert(spec_segments(pv@, i as int) =~= dirs.skip(d).drop_first());
                    assert(dirs.skip(d).drop_first() =~= dirs.skip(d + 1));
                }
            },
            None => {
                done = true;
                proof {
                    assert(dirs.skip(d).len() == 1);
                    assert(dirs.skip(d + 1).len() == 0);
                }
            },
        }
        proof {
            d = d + 1;
        }
    }
    proof {
        assert(crate::argv::expand::views_of(out@) + Seq::<Seq<char>>::empty()
            =~= crate::argv::expand::views_of(out@));
    }
    out
}

/// The completion candidates for the word under the cursor. For an
/// argument word, the entries matching the prefix in the listing. For a
/// command word with a parent component, the executable matches; for a
/// bare command word, the directories among the matches (and, under a
/// leading `./`, the executables), followed by the executable matches
/// found on the search path, which a leading `./` suppresses.
pub open spec fn spec_tab_completions(
    prefix: Seq<char>,
    is_command: bool,
    path_var: Seq<char>,
    fs: Seq<FsEntry>,
) -> Seq<Seq<char>> {
    let pat = prefix_pattern(prefix);
    if is_command {
        if has_parent(prefix) {
            if pattern_ok(pat) {
                spec_prefix_hits(fs, pat, prefix, true, false, false, 0)
            } else {
                Seq::empty()
            }
        } else {
            (if pattern_ok(pat) {
                spec_prefix_hits(fs, pat, prefix, false, true, has_cur_dir(prefix), 0)
            } else {
                Seq::empty()
            }) + (if has_cur_dir(prefix) {
                Seq::empty()
            } else {
                spec_search_path(spec_segments(path_var, 0), prefix, fs, 0)
            })
        }
    } else {
        if pattern_ok(pat) {
            spec_prefix_hits(fs, pat, prefix, false, false, false, 0)
        } else {
            Seq::empty()
        }
    }
}

/// Whether the prefix still has a parent component once trailing path
/// separators are dropped, as executable code.
fn prefix_has_parent(prefix: &str) -> (r: bool)
    ensures
        r == has_parent(prefix@),
{
    let cs = str_chars(prefix);
    let mut j: usize = cs.len();
    while j > 0 && cs[j - 1] == '/'
        invariant
            j <= cs@.len(),
            cs@ == prefix@,
            strip_trailing_len(cs@, cs@.len() as int) == strip_trailing_len(cs@, j as int),
        decreases j,
    {
        j = j - 1;
    }
    proof {
        assert(strip_trailing_len(cs@, j as int) == j as int);
    }
    let ghost t = cs@.take(j as int);
    let mut k: usize = 0;
    while k < j
        invariant
            k <= j <= cs@.len(),
            cs@ == prefix@,
            t == cs@.take(j as int),
            j as int == strip_trailing_len(cs@, cs@.len() as int),
            forall|q: int| 0 <= q < k ==> t[q] != '/',
        decreases j - k,
    {
        if cs[k] == '/' {
            proof {
                assert(0 <= k < t.len() && t[k as int] == '/');
                assert(t.contains('/'));
            }
            return true;
        }
        k = k + 1;
    }
    proof {
        if t.contains('/') {
            let w = choose|w: int| 0 <= w < t.len() && t[w] == '/';
            assert(false);
        }
    }
    false
}

/// The tab-completion candidates for the word under the cursor, looked up
/// in the given listing and, for bare command words, along the given
/// colon-separated search path.
pub fn get_tab_completions(prefix: &str, is_command: bool, path_var: &str, fs: &Vec<FsEntry>) -> (r:
    Vec<String>)
    ensures
        crate::argv::expand::views_of(r@) == spec_tab_completions(
            prefix@,
            is_command,
            path_var@,
            fs@,
        ),
{
    let pat = build_pattern(prefix);
    if is_command {
        if prefix_has_parent(prefix) {
            match collect_prefix_hits(fs, &pat, prefix, true, false, false) {
                Some(names) => names,
                None => Vec::new(),
            }
        } else {
            let cur = starts_cur_dir(prefix);
            let mut out = match collect_prefix_hits(fs, &pat, prefix, false, true, cur) {
                Some(names) => names,
                None => Vec::new(),
            };
            let ghost dv = crate::argv::expand::views_of(out@);
            if !cur {
                let mut from_path = search_path(prefix, path_var, fs);
                let ghost pv = crate::argv::expand::views_of(from_path@);
                out.append(&mut from_path);
                proof {
                    assert(crate::argv::expand::views_of(out@) =~= dv + pv);
                }
            } else {
                proof {
                    assert(dv + Seq::<Seq<char>>::empty() =~= dv);
                }
            }
            out
        }
    } else {
        match collect_prefix_hits(fs, &pat, prefix, false, false, false) {
            Some(names) => names,
            None => Vec::new(),
        }
    }
}

} // verus!
