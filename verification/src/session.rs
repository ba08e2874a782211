//! The session: mode, base program, frozen flag and the owned history.
//!
//! A session composes the history store with the execution mode and the
//! base program that wrapped input is routed through. Once a session is
//! frozen its mode can no longer be changed.

use vstd::prelude::*;

use crate::error::WrashError;
use crate::history::{History, HistoryEntry, HistoryIterator};
use crate::text::{spec_trim, trim_str};

verus! {

/// The session execution mode: wrapped input is passed as arguments to
/// the base program, normal input names the program to run itself.
#[derive(Clone, Copy, Debug, PartialEq, Eq, Structural)]
pub enum SessionMode {
    Wrapped,
    Normal,
}

impl SessionMode {
    /// The mode a lower-case name denotes, or nothing for any other text.
    pub fn from_str(s: &str) -> (r: Result<SessionMode, ()>)
        ensures
            s@ == "wrapped"@ ==> r == Ok::<SessionMode, ()>(SessionMode::Wrapped),
            s@ == "normal"@ ==> r == Ok::<SessionMode, ()>(SessionMode::Normal),
            s@ != "wrapped"@ && s@ != "normal"@ ==> r == Err::<SessionMode, ()>(()),
    {
        proof {
            reveal_strlit("wrapped");
            reveal_strlit("normal");
            assert("wrapped"@.len() == 7);
            assert("normal"@.len() == 6);
        }
        if crate::text::str_eq(s, "wrapped") {
            Ok(SessionMode::Wrapped)
        } else if crate::text::str_eq(s, "normal") {
            Ok(SessionMode::Normal)
        } else {
            Err(())
        }
    }

    /// The mode's lower-case name.
    pub fn name(&self) -> (r: String)
        ensures
            *self == SessionMode::Wrapped ==> r@ == "wrapped"@,
            *self == SessionMode::Normal ==> r@ == "normal"@,
    {
        match self {
            SessionMode::Wrapped => "wrapped".to_owned(),
            SessionMode::Normal => "normal".to_owned(),
        }
    }
}

/// One interactive session: the owned history, the frozen flag, the base
/// program and the current mode.
pub struct Session {
    history: History,
    is_frozen: bool,
    base: String,
    mode: SessionMode,
}

/// The entry that committing a line appends: builtins are recorded without
/// a base under the current mode; wrapped lines carry the session's base;
/// normal lines carry none.
pub open spec fn spec_pushed_entry(
    e: HistoryEntry,
    mode: SessionMode,
    base: Seq<char>,
    command: Seq<char>,
    is_builtin: bool,
) -> bool {
    &&& e.argv@ == spec_trim(command)
    &&& e.mode == mode
    &&& (if is_builtin {
        e.is_builtin && e.base is None
    } else {
        !e.is_builtin && (match mode {
            SessionMode::Wrapped => (match e.base {
                Some(b) => b@ == base,
                None => false,
            }),
            SessionMode::Normal => e.base is None,
        })
    })
}

impl Session {
    /// The current mode.
    pub closed spec fn mode_spec(&self) -> SessionMode {
        self.mode
    }

    /// Whether the mode is frozen.
    pub closed spec fn frozen_spec(&self) -> bool {
        self.is_frozen
    }

    /// The base program's name.
    pub closed spec fn base_spec(&self) -> Seq<char> {
        self.base@
    }

    /// Whether the mode can no longer be changed.
    pub fn is_frozen(&self) -> (r: bool)
        ensures
            r == self.frozen_spec(),
    {
        self.is_frozen
    }

    /// The history log.
    pub closed spec fn log(&self) -> Seq<HistoryEntry> {
        self.history.log()
    }

    /// The history's backing path.
    pub closed spec fn backing(&self) -> Option<String> {
        self.history.backing()
    }

    /// A new session over an existing history.
    pub fn new(history: History, is_frozen: bool, base: &str, mode: SessionMode) -> (s: Session)
        ensures
            s.log() == history.log(),
            s.backing() == history.backing(),
            s.frozen_spec() == is_frozen,
            s.base_spec() == base@,
            s.mode_spec() == mode,
    {
        Session { history, is_frozen, base: base.to_owned(), mode }
    }

    /// The current mode.
    pub fn mode(&self) -> (m: SessionMode)
        ensures
            m == self.mode_spec(),
    {
        self.mode
    }

    /// Changes the mode; a frozen session refuses and stays as it is.
    pub fn set_mode(&mut self, mode: SessionMode) -> (r: Result<(), ()>)
        ensures
            final(self).frozen_spec() == old(self).frozen_spec(),
            final(self).base_spec() == old(self).base_spec(),
            final(self).log() == old(self).log(),
            final(self).backing() == old(self).backing(),
            old(self).frozen_spec() ==> r is Err && final(self).mode_spec() == old(
                self,
            ).mode_spec(),
            !old(self).frozen_spec() ==> r is Ok && final(self).mode_spec() == mode,
    {
        if self.is_frozen {
            Err(())
        } else {
            self.mode = mode;
            Ok(())
        }
    }

    /// The base program's name.
    pub fn get_base(&self) -> (r: String)
        ensures
            r@ == self.base_spec(),
    {
        let v = crate::text::str_chars(self.base.as_str());
        crate::text::chars_to_string(&v)
    }

    /// Records one committed line: the trimmed text, with the base and
    /// mode the session ran it under.
    pub fn push_to_history(&mut self, command: &str, is_builtin: bool)
        ensures
            final(self).frozen_spec() == old(self).frozen_spec(),
            final(self).base_spec() == old(self).base_spec(),
            final(self).mode_spec() == old(self).mode_spec(),
            final(self).backing() == old(self).backing(),
            final(self).log().len() == old(self).log().len() + 1,
            final(self).log().drop_last() == old(self).log(),
            spec_pushed_entry(
                final(self).log().last(),
                old(self).mode_spec(),
                old(self).base_spec(),
                command@,
                is_builtin,
            ),
    {
        let trimmed = trim_str(command);
        let entry = if is_builtin {
            HistoryEntry::new(trimmed, None, self.mode, true)
        } else {
            match self.mode {
                SessionMode::Wrapped => HistoryEntry::new(
                    trimmed,
                    Some(self.get_base()),
                    self.mode,
                    false,
                ),
                SessionMode::Normal => HistoryEntry::new(trimmed, None, self.mode, false),
            }
        };
        self.history.push(entry);
        proof {
            assert(final(self).log().drop_last() =~= old(self).log());
        }
    }

    /// A traversal handle over the history.
    pub fn history_iter<'a>(&'a self) -> (it: HistoryIterator<'a>)
        ensures
            it.all() == self.log(),
            it.fwd_at() == 0,
            it.back_at() == self.log().len(),
    {
        self.history.iter()
    }

    /// The history's path and entries for the embedding application to
    /// write out; fails exactly when the history has no backing path.
    pub fn history_sync(&self) -> (r: Result<(String, Vec<HistoryEntry>), WrashError>)
        ensures
            (match r {
                Ok((path, entries)) => self.backing() == Some(path) && entries@ == self.log(),
                Err(e) => self.backing() is None && (e matches WrashError::FailedIo(_)),
            }),
    {
        self.history.sync()
    }

    /// The session view of the history, oldest first.
    pub fn listing(&self) -> (r: Vec<HistoryEntry>)
        ensures
            r@ == crate::history::spec_listing(self.log(), self.mode_spec(), self.base_spec(), 0),
    {
        self.history.listing(self.mode, self.base.as_str())
    }

    /// The filter query over the history, oldest first.
    pub fn filter_query(
        &self,
        mode: Option<SessionMode>,
        base: Option<&str>,
        builtin: Option<bool>,
        pattern: Option<&str>,
    ) -> (r: Vec<HistoryEntry>)
        ensures
            r@ == crate::history::spec_query(
                self.log(),
                mode,
                crate::history::base_filter_view(base),
                builtin,
                crate::history::base_filter_view(pattern),
                0,
            ),
    {
        self.history.filter_query(mode, base, builtin, pattern)
    }
}

/// The word-boundary position at or before examined index `j`: one past
/// the nearest character, scanning leftward, whose blankness differs from
/// the scan's starting character, or the buffer's start.
pub open spec fn prev_boundary_from(s: Seq<char>, init_blank: bool, j: int) -> int
    decreases j + 1,
{
    if j < 0 {
        0
    } else if (!init_blank && s[j] == ' ') || (init_blank && s[j] != ' ') {
        j + 1
    } else {
        prev_boundary_from(s, init_blank, j - 1)
    }
}

/// The position at which the word under the cursor begins.
pub open spec fn spec_prev_boundary(s: Seq<char>, cursor: int) -> int {
    if cursor <= 0 {
        0
    } else {
        prev_boundary_from(s, s[cursor - 1] == ' ', cursor - 2)
    }
}

/// The word-boundary position at or after examined index `j`: the nearest
/// position, scanning rightward, whose blankness differs from the scan's
/// starting character, or the buffer's end.
pub open spec fn next_boundary_from(s: Seq<char>, init_blank: bool, j: int) -> int
    decreases s.len() - j,
{
    if j < 0 || j >= s.len() {
        s.len() as int
    } else if (!init_blank && s[j] == ' ') || (init_blank && s[j] != ' ') {
        j
    } else {
        next_boundary_from(s, init_blank, j + 1)
    }
}

/// The position at which the next word begins.
pub open spec fn spec_next_boundary(s: Seq<char>, cursor: int) -> int {
    if cursor >= s.len() {
        s.len() as int
    } else {
        next_boundary_from(s, s[cursor] == ' ', cursor + 1)
    }
}

proof fn lemma_prev_boundary_bounds(s: Seq<char>, init_blank: bool, j: int)
    requires
        -1 <= j < s.len(),
    ensures
        0 <= prev_boundary_from(s, init_blank, j) <= j + 1,
    decreases j + 1,
{
    if j >= 0 && !((!init_blank && s[j] == ' ') || (init_blank && s[j] != ' ')) {
        lemma_prev_boundary_bounds(s, init_blank, j - 1);
    }
}

proof fn lemma_next_boundary_bounds(s: Seq<char>, init_blank: bool, j: int)
    requires
        0 <= j <= s.len(),
    ensures
        j <= next_boundary_from(s, init_blank, j) <= s.len(),
    decreases s.len() - j,
{
    if j < s.len() && !((!init_blank && s[j] == ' ') || (init_blank && s[j] != ' ')) {
        lemma_next_boundary_bounds(s, init_blank, j + 1);
    }
}

/// The bounds of the two boundary searches, for their callers.
pub proof fn lemma_boundary_bounds(s: Seq<char>, cursor: int)
    requires
        0 <= cursor <= s.len(),
    ensures
        0 <= spec_prev_boundary(s, cursor) <= cursor,
        cursor <= spec_next_boundary(s, cursor) <= s.len(),
        cursor > 0 ==> spec_prev_boundary(s, cursor) < cursor,
        cursor < s.len() ==> spec_next_boundary(s, cursor) > cursor,
{
    if cursor > 0 {
        lemma_prev_boundary_bounds(s, s[cursor - 1] == ' ', cursor - 2);
    }
    if cursor < s.len() {
        lemma_next_boundary_bounds(s, s[cursor] == ' ', cursor + 1);
    }
}

/// The position in the buffer at which the current word begins, over a
/// character vector.
pub fn prev_boundary_chars(cs: &Vec<char>, cursor_offset: usize) -> (r: usize)
    requires
        cursor_offset <= cs@.len(),
    ensures
        r == spec_prev_boundary(cs@, cursor_offset as int),
        r <= cursor_offset,
        cursor_offset > 0 ==> r < cursor_offset,
{
    proof {
        lemma_boundary_bounds(cs@, cursor_offset as int);
    }
    if cursor_offset == 0 {
        return 0;
    }
    let init_blank = cs[cursor_offset - 1] == ' ';
    let mut j: usize = cursor_offset - 1;
    while j > 0
        invariant
            j <= cursor_offset - 1,
            cursor_offset <= cs@.len(),
            cursor_offset > 0,
            init_blank == (cs@[cursor_offset - 1] == ' '),
            spec_prev_boundary(cs@, cursor_offset as int) == prev_boundary_from(
                cs@,
                init_blank,
                j - 1,
            ),
        decreases j,
    {
        let c = cs[j - 1];
        if (!init_blank && c == ' ') || (init_blank && c != ' ') {
            return j;
        }
        j = j - 1;
    }
    0
}

/// The position in the buffer at which the next word begins, over a
/// character vector.
pub fn next_boundary_chars(cs: &Vec<char>, cursor_offset: usize) -> (r: usize)
    requires
        cursor_offset <= cs@.len(),
    ensures
        r == spec_next_boundary(cs@, cursor_offset as int),
        cursor_offset <= r <= cs@.len(),
        cursor_offset < cs@.len() ==> r > cursor_offset,
{
    proof {
        lemma_boundary_bounds(cs@, cursor_offset as int);
    }
    if cursor_offset >= cs.len() {
        return cs.len();
    }
    let init_blank = cs[cursor_offset] == ' ';
    let mut j: usize = cursor_offset + 1;
    while j < cs.len()
        invariant
            cursor_offset + 1 <= j,
            j <= cs@.len() || j == cursor_offset + 1,
            cursor_offset < cs@.len(),
            init_blank == (cs@[cursor_offset as int] == ' '),
            spec_next_boundary(cs@, cursor_offset as int) == next_boundary_from(
                cs@,
                init_blank,
                j as int,
            ),
        decreases cs@.len() - j,
    {
        let c = cs[j];
        if (!init_blank && c == ' ') || (init_blank && c != ' ') {
            return j;
        }
        j = j + 1;
    }
    cs.len()
}

/// The position in the buffer at which the current word begins: the scan
/// starts just left of the cursor and stops one past the first character
/// whose blankness differs from the starting character's.
pub fn get_previous_boundary(buffer: &str, cursor_offset: usize) -> (r: usize)
    requires
        cursor_offset <= buffer@.len(),
    ensures
        r == spec_prev_boundary(buffer@, cursor_offset as int),
        r <= cursor_offset,
        cursor_offset > 0 ==> r < cursor_offset,
{
    let cs = crate::text::str_chars(buffer);
    prev_boundary_chars(&cs, cursor_offset)
}

/// The position in the buffer at which the next word begins: the scan
/// starts just right of the cursor and stops at the first character whose
/// blankness differs from the starting character's.
pub fn get_next_boundary(buffer: &str, cursor_offset: usize) -> (r: usize)
    requires
        cursor_offset <= buffer@.len(),
    ensures
        r == spec_next_boundary(buffer@, cursor_offset as int),
        cursor_offset <= r <= buffer@.len(),
        cursor_offset < buffer@.len() ==> r > cursor_offset,
{
    let cs = crate::text::str_chars(buffer);
    next_boundary_chars(&cs, cursor_offset)
}

/// Whether `p` is a prefix of every string in the list.
pub open spec fn all_have_prefix(vs: Seq<Seq<char>>, p: Seq<char>) -> bool {
    forall|k: int| 0 <= k < vs.len() ==> p.is_prefix_of(#[trigger] vs[k])
}

/// The seed of the common-prefix search: the first string of least length.
pub open spec fn spec_seed(vs: Seq<Seq<char>>) -> Seq<char>
    decreases vs.len(),
{
    if vs.len() == 0 {
        Seq::empty()
    } else if vs.len() == 1 {
        vs[0]
    } else {
        let prev = spec_seed(vs.drop_last());
        if vs.last().len() < prev.len() {
            vs.last()
        } else {
            prev
        }
    }
}

/// The length of the longest seed prefix, no longer than `l`, that every
/// string starts with; zero when there is none.
pub open spec fn spec_best_len(vs: Seq<Seq<char>>, l: int) -> int
    decreases l,
{
    if l <= 0 {
        0
    } else if all_have_prefix(vs, spec_seed(vs).take(l)) {
        l
    } else {
        spec_best_len(vs, l - 1)
    }
}

proof fn lemma_best_len_bounds(vs: Seq<Seq<char>>, l: int)
    requires
        0 <= l,
    ensures
        0 <= spec_best_len(vs, l) <= l,
    decreases l,
{
    if l > 0 && !all_have_prefix(vs, spec_seed(vs).take(l)) {
        lemma_best_len_bounds(vs, l - 1);
    }
}

/// The longest common prefix of the given strings: the seed is the
/// shortest of them, shrunk one character at a time from the end until
/// every string starts with it; shrinking to nothing, or an empty list,
/// means there is no common prefix.
pub fn get_common_prefix(values: &Vec<String>) -> (r: Option<String>)
    ensures
        values@.len() == 0 ==> r is None,
        values@.len() > 0 ==> {
            let vs = crate::argv::expand::views_of(values@);
            let best = spec_best_len(vs, spec_seed(vs).len() as int);
            match r {
                Some(p) => best > 0 && p@ == spec_seed(vs).take(best),
                None => best == 0,
            }
        },
{
    if values.len() == 0 {
        return None;
    }
    let ghost vs = crate::argv::expand::views_of(values@);
    let mut seed_idx: usize = 0;
    let mut k: usize = 1;
    while k < values.len()
        invariant
            1 <= k <= values@.len() || k == 1,
            seed_idx < k,
            seed_idx < values@.len(),
            k <= values@.len() ==> values@[seed_idx as int]@ == spec_seed(vs.take(k as int)),
            vs == crate::argv::expand::views_of(values@),
        decreases values@.len() - k,
    {
        proof {
            assert(vs.take(k + 1 as int).drop_last() =~= vs.take(k as int));
            assert(vs.take(k + 1 as int).last() == values@[k as int]@);
        }
        if values[k].as_str().unicode_len() < values[seed_idx].as_str().unicode_len() {
            seed_idx = k;
        }
        k = k + 1;
    }
    proof {
        assert(vs.take(values@.len() as int) =~= vs);
    }
    let seed = crate::text::str_chars(values[seed_idx].as_str());
    let mut l: usize = seed.len();
    proof {
        lemma_best_len_bounds(vs, l as int);
    }
    while l > 0
        invariant
            l <= seed@.len(),
            seed@ == spec_seed(vs),
            vs == crate::argv::expand::views_of(values@),
            values@.len() > 0,
            spec_best_len(vs, seed@.len() as int) == spec_best_len(vs, l as int),
        decreases l,
    {
        if all_start_with(values, &seed, l) {
            let p = crate::text::subvec(&seed, 0, l);
            proof {
                assert(seed@.take(l as int) == seed@.subrange(0, l as int));
            }
            return Some(crate::text::chars_to_string(&p));
        }
        l = l - 1;
    }
    None
}

/// Whether every string in the list starts with the first `l` characters
/// of `p`.
fn all_start_with(values: &Vec<String>, p: &Vec<char>, l: usize) -> (r: bool)
    requires
        l <= p@.len(),
    ensures
        r == all_have_prefix(crate::argv::expand::views_of(values@), p@.take(l as int)),
{
    let ghost vs = crate::argv::expand::views_of(values@);
    let mut k: usize = 0;
    while k < values.len()
        invariant
            k <= values@.len(),
            l <= p@.len(),
            vs == crate::argv::expand::views_of(values@),
            forall|j: int| 0 <= j < k ==> p@.take(l as int).is_prefix_of(#[trigger] vs[j]),
        decreases values@.len() - k,
    {
        let v = values[k].as_str();
        if v.unicode_len() < l {
            proof {
                assert(!p@.take(l as int).is_prefix_of(vs[k as int]));
            }
            return false;
        }
        let mut i: usize = 0;
        while i < l
            invariant
                i <= l,
                l <= p@.len(),
                l <= v@.len(),
                v@ == vs[k as int],
                k < vs.len(),
                vs == crate::argv::expand::views_of(values@),
                forall|j: int| 0 <= j < i ==> p@[j] == v@[j],
            decreases l - i,
        {
            if v.get_char(i) != p[i] {
                proof {
                    assert(p@.take(l as int)[i as int] == p@[i as int]);
                    assert(!p@.take(l as int).is_prefix_of(vs[k as int]));
                }
                return false;
            }
            i = i + 1;
        }
        proof {
            assert(p@.take(l as int).is_prefix_of(vs[k as int])) by {
                assert(forall|j: int|
                    0 <= j < l ==> p@.take(l as int)[j] == #[trigger] vs[k as int][j]);
                assert(p@.take(l as int) =~= vs[k as int].take(l as int));
            }
        }
        k = k + 1;
    }
    true
}

/// How many entries of the given length fit on one line, with
/// `padding_length` blanks between neighbours.
pub fn get_entries_per_line(padding_length: usize, entry_length: usize, line_length: usize) -> (r:
    usize)
    requires
        entry_length + padding_length > 0,
        entry_length + padding_length <= usize::MAX,
        line_length + padding_length <= usize::MAX,
    ensures
        r == (line_length + padding_length) as int / (entry_length + padding_length) as int,
{
    (line_length + padding_length) / (entry_length + padding_length)
}

} // verus!
