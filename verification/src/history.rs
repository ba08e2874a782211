//! The history store: an ordered, filterable log of past commands.
//!
//! The store keeps its entries in insertion order and never reorders them;
//! traversal runs forward or backward over the same storage. Reading and
//! writing the backing file is the embedding application's business: the
//! store is built from entries already loaded, and `sync` hands back the
//! path and entries to write.

use vstd::prelude::*;

use crate::error::WrashError;
use crate::session::SessionMode;
use crate::text::{chars_to_string, push_decimal, spec_decimal, str_chars};

verus! {

/// One history record: the command line run, minus any base prefix, and
/// the metadata describing how it was run. Immutable once created.
#[derive(Debug, PartialEq)]
pub struct HistoryEntry {
    /// The raw line, without the base program's name.
    pub argv: String,
    /// The base program the session wrapped, if the entry was wrapped.
    pub base: Option<String>,
    /// The session mode the line was run under.
    pub mode: SessionMode,
    /// Whether the line named a builtin command.
    pub is_builtin: bool,
}

impl Clone for HistoryEntry {
    /// An equal copy of the record.
    fn clone(&self) -> (r: Self)
        ensures
            r == *self,
    {
        let r = HistoryEntry {
            argv: self.argv.clone(),
            base: (match &self.base {
                Some(b) => Some(b.clone()),
                None => None,
            }),
            mode: self.mode,
            is_builtin: self.is_builtin,
        };
        r
    }
}

/// The full command line an entry stands for: the base program's name, a
/// blank and the arguments where a base is recorded, the bare line where
/// none is.
pub open spec fn spec_command(e: HistoryEntry) -> Seq<char> {
    match e.base {
        Some(b) => b@ + seq![' '] + e.argv@,
        None => e.argv@,
    }
}

impl HistoryEntry {
    /// A new record of one committed line.
    pub fn new(argv: String, base: Option<String>, mode: SessionMode, is_builtin: bool) -> (e:
        HistoryEntry)
        ensures
            e.argv == argv,
            e.base == base,
            e.mode == mode,
            e.is_builtin == is_builtin,
    {
        HistoryEntry { argv, base, mode, is_builtin }
    }

    /// The full command line this entry stands for.
    pub fn get_command(&self) -> (r: String)
        ensures
            r@ == spec_command(*self),
    {
        match &self.base {
            Some(b) => {
                let mut v = str_chars(b.as_str());
                v.push(' ');
                let mut rest = str_chars(self.argv.as_str());
                v.append(&mut rest);
                proof {
                    assert(v@ =~= spec_command(*self));
                }
                chars_to_string(&v)
            },
            None => {
                let v = str_chars(self.argv.as_str());
                chars_to_string(&v)
            },
        }
    }
}

/// Whether an entry belongs to the session view: builtins always do, other
/// entries only when they were run under the same mode and either carry no
/// base or carry the session's base.
pub open spec fn spec_recall_keeps(e: HistoryEntry, mode: SessionMode, base: Seq<char>) -> bool {
    e.is_builtin || (e.mode == mode && (match e.base {
        Some(b) => b@ == base,
        None => true,
    }))
}

/// The entries from position `k` on that belong to the session view, in
/// storage order.
pub open spec fn spec_listing(
    log: Seq<HistoryEntry>,
    mode: SessionMode,
    base: Seq<char>,
    k: int,
) -> Seq<HistoryEntry>
    decreases log.len() - k,
{
    if k < 0 || k >= log.len() {
        Seq::empty()
    } else if spec_recall_keeps(log[k], mode, base) {
        seq![log[k]] + spec_listing(log, mode, base, k + 1)
    } else {
        spec_listing(log, mode, base, k + 1)
    }
}

/// Whether an entry passes the explicit filter query: a mode filter
/// excludes entries of the other mode; a base filter excludes entries
/// whose recorded base is another one, entries without a base always
/// passing; a builtin filter keeps only entries whose builtin flag has
/// the asked-for value; a text pattern keeps only entries whose full
/// command matches it, and an ill-formed pattern matches nothing.
pub open spec fn spec_query_keeps(
    e: HistoryEntry,
    mode: Option<SessionMode>,
    base: Option<Seq<char>>,
    builtin: Option<bool>,
    pattern: Option<Seq<char>>,
) -> bool {
    &&& (match mode {
        Some(m) => e.mode == m,
        None => true,
    })
    &&& (match (e.base, base) {
        (Some(b), Some(f)) => b@ == f,
        _ => true,
    })
    &&& (match builtin {
        Some(want) => e.is_builtin == want,
        None => true,
    })
    &&& (match pattern {
        Some(p) => crate::globs::pattern_ok(p) && crate::globs::glob_match(p, spec_command(e)),
        None => true,
    })
}

/// The entries from position `k` on that pass the filter query, in storage
/// order.
pub open spec fn spec_query(
    log: Seq<HistoryEntry>,
    mode: Option<SessionMode>,
    base: Option<Seq<char>>,
    builtin: Option<bool>,
    pattern: Option<Seq<char>>,
    k: int,
) -> Seq<HistoryEntry>
    decreases log.len() - k,
{
    if k < 0 || k >= log.len() {
        Seq::empty()
    } else if spec_query_keeps(log[k], mode, base, builtin, pattern) {
        seq![log[k]] + spec_query(log, mode, base, builtin, pattern, k + 1)
    } else {
        spec_query(log, mode, base, builtin, pattern, k + 1)
    }
}

/// The numbered rendering of the entries from position `k` on: each line
/// is the entry's position, a colon and a blank, its full command, and a
/// line feed.
pub open spec fn spec_rendered(es: Seq<HistoryEntry>, k: int) -> Seq<char>
    decreases es.len() - k,
{
    if k < 0 || k >= es.len() {
        Seq::empty()
    } else {
        spec_decimal(k as nat) + seq![':', ' '] + spec_command(es[k]) + seq!['\n'] + spec_rendered(
            es,
            k + 1,
        )
    }
}

/// An ordered log of past commands with an optional backing file path.
/// Order is preserved: pushes append, and traversal never reorders
/// storage. The open question of saving on exit is settled on the explicit
/// side: the store writes nothing by itself, and syncs only when asked.
#[derive(Debug, PartialEq)]
pub struct History {
    entries: Vec<HistoryEntry>,
    path: Option<String>,
}

impl History {
    /// The entries, in insertion order.
    pub closed spec fn log(&self) -> Seq<HistoryEntry> {
        self.entries@
    }

    /// The backing file path, if the store has one.
    pub closed spec fn backing(&self) -> Option<String> {
        self.path
    }

    /// A store over entries already loaded from `path`. The embedding
    /// application reads the backing file: a missing file loads as no
    /// entries at all, so the store starts empty but keeps the path.
    pub fn new(entries: Vec<HistoryEntry>, path: Option<String>) -> (h: History)
        ensures
            h.log() == entries@,
            h.backing() == path,
    {
        History { entries, path }
    }

    /// An empty store with no backing file.
    pub fn empty() -> (h: History)
        ensures
            h.log() == Seq::<HistoryEntry>::empty(),
            h.backing() is None,
    {
        History { entries: Vec::new(), path: None }
    }

    /// Appends one entry; nothing else changes and nothing can fail.
    pub fn push(&mut self, entry: HistoryEntry)
        ensures
            final(self).log() == old(self).log().push(entry),
            final(self).backing() == old(self).backing(),
    {
        self.entries.push(entry);
    }

    /// The full sequence and the backing path, for the embedding
    /// application to serialize and write out; fails exactly when the
    /// store has no backing path.
    pub fn sync(&self) -> (r: Result<(String, Vec<HistoryEntry>), WrashError>)
        ensures
            (match r {
                Ok((path, entries)) => self.backing() == Some(path) && entries@ == self.log(),
                Err(e) => self.backing() is None && (match e {
                    WrashError::FailedIo(m) => m@ == "no history file exists for struct instance"@,
                    _ => false,
                }),
            }),
    {
        match &self.path {
            Some(p) => {
                let mut out: Vec<HistoryEntry> = Vec::new();
                let mut k: usize = 0;
                while k < self.entries.len()
                    invariant
                        k <= self.entries@.len(),
                        out@ == self.entries@.subrange(0, k as int),
                    decreases self.entries@.len() - k,
                {
                    out.push(self.entries[k].clone());
                    proof {
                        assert(self.entries@.subrange(0, k + 1 as int) =~= self.entries@.subrange(
                            0,
                            k as int,
                        ).push(self.entries@[k as int]));
                    }
                    k = k + 1;
                }
                proof {
                    assert(self.entries@.subrange(0, self.entries@.len() as int)
                        =~= self.entries@);
                }
                Ok((p.clone(), out))
            },
            None => Err(WrashError::FailedIo(
                "no history file exists for struct instance".to_owned(),
            )),
        }
    }

    /// A traversal handle over the entries, forward and backward.
    pub fn iter<'a>(&'a self) -> (it: HistoryIterator<'a>)
        ensures
            it.all() == self.log(),
            it.fwd_at() == 0,
            it.back_at() == self.log().len(),
    {
        HistoryIterator { entries: &self.entries, index: 0, back_index: self.entries.len() }
    }

    /// The session view of the log, oldest first: builtins, and entries
    /// run under the same mode whose base is absent or is the session's.
    pub fn listing(&self, mode: SessionMode, base: &str) -> (r: Vec<HistoryEntry>)
        ensures
            r@ == spec_listing(self.log(), mode, base@, 0),
    {
        let mut out: Vec<HistoryEntry> = Vec::new();
        let mut k: usize = 0;
        while k < self.entries.len()
            invariant
                k <= self.entries@.len(),
                spec_listing(self.entries@, mode, base@, 0) == out@ + spec_listing(
                    self.entries@,
                    mode,
                    base@,
                    k as int,
                ),
            decreases self.entries@.len() - k,
        {
            let ghost out0 = out@;
            let e = &self.entries[k];
            let keep = if e.is_builtin {
                true
            } else if !(e.mode == mode) {
                false
            } else {
                match &e.base {
                    Some(b) => crate::text::str_eq(b.as_str(), base),
                    None => true,
                }
            };
            if keep {
                out.push(e.clone());
                proof {
                    assert(out@ =~= out0 + seq![self.entries@[k as int]]);
                    assert(out0 + (seq![self.entries@[k as int]] + spec_listing(
                        self.entries@,
                        mode,
                        base@,
                        k + 1 as int,
                    )) =~= out@ + spec_listing(self.entries@, mode, base@, k + 1 as int));
                }
            }
            k = k + 1;
        }
        proof {
            assert(out@ + Seq::<HistoryEntry>::empty() =~= out@);
        }
        out
    }

    /// The filter query over the log, oldest first: a mode filter keeps
    /// entries of that mode only, a base filter keeps entries whose base
    /// is absent or is the given one, a builtin filter keeps entries with
    /// the asked-for flag, and a text pattern keeps entries whose full
    /// command matches it; without filters everything passes.
    pub fn filter_query(
        &self,
        mode: Option<SessionMode>,
        base: Option<&str>,
        builtin: Option<bool>,
        pattern: Option<&str>,
    ) -> (r: Vec<HistoryEntry>)
        ensures
            r@ == spec_query(
                self.log(),
                mode,
                base_filter_view(base),
                builtin,
                base_filter_view(pattern),
                0,
            ),
    {
        let ghost bv = base_filter_view(base);
        let ghost pv = base_filter_view(pattern);
        let mut out: Vec<HistoryEntry> = Vec::new();
        let mut k: usize = 0;
        while k < self.entries.len()
            invariant
                k <= self.entries@.len(),
                bv == base_filter_view(base),
                pv == base_filter_view(pattern),
                spec_query(self.entries@, mode, bv, builtin, pv, 0) == out@ + spec_query(
                    self.entries@,
                    mode,
                    bv,
                    builtin,
                    pv,
                    k as int,
                ),
            decreases self.entries@.len() - k,
        {
            let ghost out0 = out@;
            let e = &self.entries[k];
            let mode_pass = match mode {
                Some(m) => e.mode == m,
                None => true,
            };
            let base_pass = match (&e.base, base) {
                (Some(b), Some(f)) => crate::text::str_eq(b.as_str(), f),
                _ => true,
            };
            let builtin_pass = match builtin {
                Some(want) => e.is_builtin == want,
                None => true,
            };
            let pattern_pass = match pattern {
                Some(p) => {
                    match crate::globs::glob_matches(p, e.get_command().as_str()) {
                        Some(m) => m,
                        None => false,
                    }
                },
                None => true,
            };
            if mode_pass && base_pass && builtin_pass && pattern_pass {
                out.push(e.clone());
                proof {
                    assert(out@ =~= out0 + seq![self.entries@[k as int]]);
                    assert(out0 + (seq![self.entries@[k as int]] + spec_query(
                        self.entries@,
                        mode,
                        bv,
                        builtin,
                        pv,
                        k + 1 as int,
                    )) =~= out@ + spec_query(self.entries@, mode, bv, builtin, pv, k + 1 as int));
                }
            }
            k = k + 1;
        }
        proof {
            assert(out@ + Seq::<HistoryEntry>::empty() =~= out@);
        }
        out
    }
}

/// The view of an optional base filter.
pub open spec fn base_filter_view(base: Option<&str>) -> Option<Seq<char>> {
    match base {
        Some(b) => Some(b@),
        None => None,
    }
}

/// Renders entries as numbered lines: the position in the given list, a
/// colon and a blank, the entry's full command, and a line feed.
pub fn render_entries(entries: &Vec<HistoryEntry>) -> (r: String)
    ensures
        r@ == spec_rendered(entries@, 0),
{
    let mut v: Vec<char> = Vec::new();
    let mut k: usize = 0;
    while k < entries.len()
        invariant
            k <= entries@.len(),
            spec_rendered(entries@, 0) == v@ + spec_rendered(entries@, k as int),
        decreases entries@.len() - k,
    {
        let ghost v0 = v@;
        push_decimal(&mut v, k);
        v.push(':');
        v.push(' ');
        let mut cmd = str_chars(entries[k].get_command().as_str());
        v.append(&mut cmd);
        v.push('\n');
        proof {
            assert(v@ =~= v0 + (spec_decimal(k as nat) + seq![':', ' '] + spec_command(
                entries@[k as int],
            ) + seq!['\n']));
            assert(v0 + (spec_decimal(k as nat) + seq![':', ' '] + spec_command(
                entries@[k as int],
            ) + seq!['\n'] + spec_rendered(entries@, k + 1 as int)) =~= v@ + spec_rendered(
                entries@,
                k + 1 as int,
            ));
        }
        k = k + 1;
    }
    proof {
        assert(v@ + Seq::<char>::empty() =~= v@);
    }
    chars_to_string(&v)
}

/// A traversal handle over a store's entries. Forward steps hand out the
/// entries oldest first; backward steps hand them out newest first. The
/// two directions keep separate positions over the same storage.
pub struct HistoryIterator<'a> {
    entries: &'a Vec<HistoryEntry>,
    index: usize,
    back_index: usize,
}

impl<'a> HistoryIterator<'a> {
    /// The entries being traversed.
    pub closed spec fn all(&self) -> Seq<HistoryEntry> {
        self.entries@
    }

    /// The forward position: how many entries have been handed out.
    pub closed spec fn fwd_at(&self) -> int {
        self.index as int
    }

    /// The backward position: how many entries remain for backward steps.
    pub closed spec fn back_at(&self) -> int {
        self.back_index as int
    }

    /// The next entry in storage order, or nothing at the end.
    pub fn next(&mut self) -> (r: Option<&'a HistoryEntry>)
        ensures
            final(self).all() == old(self).all(),
            final(self).back_at() == old(self).back_at(),
            old(self).fwd_at() < old(self).all().len() ==> (match r {
                Some(e) => *e == old(self).all()[old(self).fwd_at()] && final(self).fwd_at() == old(
                    self,
                ).fwd_at() + 1,
                None => false,
            }),
            old(self).fwd_at() >= old(self).all().len() ==> r is None && final(self).fwd_at()
                == old(self).fwd_at(),
    {
        if self.index < self.entries.len() {
            let e = &self.entries[self.index];
            self.index = self.index + 1;
            Some(e)
        } else {
            None
        }
    }

    /// The next entry in reverse storage order, or nothing at the front.
    pub fn next_back(&mut self) -> (r: Option<&'a HistoryEntry>)
        ensures
            final(self).all() == old(self).all(),
            final(self).fwd_at() == old(self).fwd_at(),
            old(self).back_at() == 0 ==> r is None && final(self).back_at() == 0,
            0 < old(self).back_at() <= old(self).all().len() ==> (match r {
                Some(e) => *e == old(self).all()[old(self).back_at() - 1] && final(self).back_at()
                    == old(self).back_at() - 1,
                None => false,
            }),
    {
        if self.back_index == 0 {
            None
        } else {
            if self.back_index > self.entries.len() {
                self.back_index = self.entries.len();
                if self.back_index == 0 {
                    return None;
                }
            }
            self.back_index = self.back_index - 1;
            Some(&self.entries[self.back_index])
        }
    }
}

/// Appending two entries and walking the log again: the forward walk ends
/// with the two entries in push order, the backward walk begins with them
/// newest first; on a log that was empty, those walks are exactly the two
/// entries.
pub proof fn lemma_push_order(log: Seq<HistoryEntry>, e1: HistoryEntry, e2: HistoryEntry)
    ensures
        log.push(e1).push(e2).skip(log.len() as int) == seq![e1, e2],
        log.push(e1).push(e2).reverse().take(2) == seq![e2, e1],
        log.len() == 0 ==> log.push(e1).push(e2) == seq![e1, e2] && log.push(e1).push(
            e2,
        ).reverse() == seq![e2, e1],
{
    assert(log.push(e1).push(e2).skip(log.len() as int) =~= seq![e1, e2]);
    assert(log.push(e1).push(e2).reverse().take(2) =~= seq![e2, e1]);
    if log.len() == 0 {
        assert(log.push(e1).push(e2) =~= seq![e1, e2]);
        assert(log.push(e1).push(e2).reverse() =~= seq![e2, e1]);
    }
}

} // verus!
