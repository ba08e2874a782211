//! The interactive line editor's state machine.
//!
//! The editor owns the line buffer, the cursor, the history-recall state
//! and the last-key-was-tab flag for one input. It reads and writes no
//! terminal itself: the embedding application owns the raw terminal as a
//! scoped resource, decodes each key, hands it to `apply_key`, performs
//! the returned action, and redraws the prompt and buffer after every
//! key. For tab completion the application computes the candidates for
//! the requested prefix and hands them to `apply_completions`.

use vstd::prelude::*;

use crate::history::{spec_command, HistoryEntry};
use crate::session::{
    next_boundary_chars, prev_boundary_chars, spec_best_len, spec_next_boundary,
    spec_prev_boundary, spec_seed, SessionMode,
};
use crate::text::{chars_to_string, push_all, str_chars, subvec};

verus! {

/// One decoded key event.
#[derive(Clone, Copy, Debug, PartialEq, Eq, Structural)]
pub enum Key {
    Backspace,
    Delete,
    Left,
    Right,
    Up,
    Down,
    CtrlA,
    CtrlB,
    CtrlD,
    CtrlE,
    CtrlF,
    CtrlK,
    CtrlL,
    CtrlU,
    CtrlW,
    Tab,
    Enter,
    Char(char),
    Other,
}

/// What the application must do after handing the editor a key.
#[derive(Debug)]
pub enum EditorAction {
    /// Redraw the prompt and buffer, then read the next key.
    Pending,
    /// The line is committed: input is done.
    Commit,
    /// Clear the screen, reposition, then redraw.
    ClearScreen,
    /// Compute the completion candidates for the given word prefix and
    /// hand them to `apply_completions`.
    Complete { prefix: String, is_command: bool },
}

/// The editor's state as one mathematical value.
#[verifier::ext_equal]
pub struct EditorView {
    /// The line being edited.
    pub buffer: Seq<char>,
    /// The cursor offset, between zero and the buffer's length.
    pub cursor: int,
    /// The recallable history entries, newest first.
    pub entries: Seq<HistoryEntry>,
    /// The recall position, when recall is active.
    pub recall: Option<int>,
    /// The buffer as it stood when recall began.
    pub snapshot: Option<Seq<char>>,
    /// Whether the previous key was Tab.
    pub was_tab: bool,
}

/// A well-formed editor state: the cursor stays inside the buffer, and
/// the recall position and pre-recall snapshot exist exactly together,
/// the position naming an entry whenever there is one.
pub open spec fn view_wf(v: EditorView) -> bool {
    &&& 0 <= v.cursor <= v.buffer.len()
    &&& (match v.recall {
        Some(n) => (0 <= n && (n < v.entries.len() || (n == 0 && v.entries.len() == 0)))
            && v.snapshot is Some,
        None => v.snapshot is None,
    })
}

/// The text a recalled entry displays: a wrapped, non-builtin entry shows
/// only its arguments, the base being implicit; anything else shows the
/// full command.
pub open spec fn display_text(e: HistoryEntry) -> Seq<char> {
    if e.mode == SessionMode::Wrapped && !e.is_builtin {
        e.argv@
    } else {
        spec_command(e)
    }
}

/// What the Up key does: the first press snapshots the buffer and recalls
/// the newest matching entry; each further press steps one entry older,
/// clamped at the oldest. The recalled entry's text replaces the buffer
/// and the cursor moves to its end; with no matching entries the buffer
/// stays.
pub open spec fn spec_step_up(v: EditorView) -> EditorView {
    let n: int = match v.recall {
        Some(n) => if n + 1 < v.entries.len() {
            n + 1
        } else {
            n
        },
        None => 0,
    };
    let snap = if v.recall is None {
        Some(v.buffer)
    } else {
        v.snapshot
    };
    if n < v.entries.len() {
        EditorView {
            buffer: display_text(v.entries[n]),
            cursor: display_text(v.entries[n]).len() as int,
            recall: Some(n),
            snapshot: snap,
            ..v
        }
    } else {
        EditorView { recall: Some(n), snapshot: snap, ..v }
    }
}

/// What the Down key does: one step back toward newer entries; stepping
/// past the newest restores the pre-recall snapshot and leaves recall;
/// outside recall it does nothing.
pub open spec fn spec_step_down(v: EditorView) -> EditorView {
    match v.recall {
        None => v,
        Some(n) => {
            if n == 0 {
                let b = match v.snapshot {
                    Some(b) => b,
                    None => v.buffer,
                };
                EditorView { buffer: b, cursor: b.len() as int, recall: None, snapshot: None, ..v }
            } else {
                let m = n - 1;
                if m < v.entries.len() {
                    EditorView {
                        buffer: display_text(v.entries[m]),
                        cursor: display_text(v.entries[m]).len() as int,
                        recall: Some(m),
                        ..v
                    }
                } else {
                    EditorView { cursor: v.buffer.len() as int, recall: Some(m), ..v }
                }
            }
        },
    }
}

/// The editor state one key event leads to.
pub open spec fn spec_step(v: EditorView, key: Key) -> EditorView {
    let w = match key {
        Key::Backspace => if v.cursor > 0 {
            EditorView {
                buffer: v.buffer.take(v.cursor - 1) + v.buffer.skip(v.cursor),
                cursor: v.cursor - 1,
                ..v
            }
        } else {
            v
        },
        Key::Delete => if v.cursor < v.buffer.len() {
            EditorView { buffer: v.buffer.take(v.cursor) + v.buffer.skip(v.cursor + 1), ..v }
        } else {
            v
        },
        Key::Left => if v.cursor > 0 {
            EditorView { cursor: v.cursor - 1, ..v }
        } else {
            v
        },
        Key::Right => if v.cursor < v.buffer.len() {
            EditorView { cursor: v.cursor + 1, ..v }
        } else {
            v
        },
        Key::Up => spec_step_up(v),
        Key::Down => spec_step_down(v),
        Key::CtrlU => EditorView { buffer: v.buffer.skip(v.cursor), cursor: 0, ..v },
        Key::CtrlK => EditorView { buffer: v.buffer.take(v.cursor), ..v },
        Key::CtrlW => EditorView {
            buffer: v.buffer.take(spec_prev_boundary(v.buffer, v.cursor)) + v.buffer.skip(v.cursor),
            cursor: spec_prev_boundary(v.buffer, v.cursor),
            ..v
        },
        Key::CtrlA => EditorView { cursor: 0, ..v },
        Key::CtrlE => EditorView { cursor: v.buffer.len() as int, ..v },
        Key::CtrlB => EditorView { cursor: spec_prev_boundary(v.buffer, v.cursor), ..v },
        Key::CtrlF => EditorView { cursor: spec_next_boundary(v.buffer, v.cursor), ..v },
        Key::CtrlL => v,
        Key::CtrlD => EditorView { buffer: "exit"@, cursor: "exit"@.len() as int, ..v },
        Key::Enter => v,
        Key::Tab => v,
        Key::Char(c) => EditorView {
            buffer: v.buffer.take(v.cursor) + seq![c] + v.buffer.skip(v.cursor),
            cursor: v.cursor + 1,
            ..v
        },
        Key::Other => v,
    };
    if key is Tab {
        w
    } else {
        EditorView { was_tab: false, ..w }
    }
}

/// Up-arrow recall followed by Down-arrow back past the newest entry
/// restores the buffer text exactly to the pre-recall snapshot.
pub proof fn lemma_recall_round_trip(v: EditorView)
    requires
        view_wf(v),
        v.recall is None,
    ensures
        spec_step(spec_step(v, Key::Up), Key::Down).buffer == v.buffer,
{
}

/// The editor state for one `take_input` call.
pub struct Editor {
    buffer: Vec<char>,
    offset: usize,
    entries: Vec<HistoryEntry>,
    history_offset: Option<usize>,
    buffer_bak: Option<Vec<char>>,
    was_tab: bool,
}

impl View for Editor {
    type V = EditorView;

    closed spec fn view(&self) -> EditorView {
        EditorView {
            buffer: self.buffer@,
            cursor: self.offset as int,
            entries: self.entries@,
            recall: (match self.history_offset {
                Some(n) => Some(n as int),
                None => None,
            }),
            snapshot: (match self.buffer_bak {
                Some(b) => Some(b@),
                None => None,
            }),
            was_tab: self.was_tab,
        }
    }
}

/// The buffer with the span `[a, b)` replaced by `ins`.
fn splice(buffer: &Vec<char>, a: usize, b: usize, ins: &Vec<char>) -> (r: Vec<char>)
    requires
        a <= b <= buffer@.len(),
    ensures
        r@ == buffer@.take(a as int) + ins@ + buffer@.skip(b as int),
{
    let mut r = subvec(buffer, 0, a);
    proof {
        assert(buffer@.subrange(0, a as int) =~= buffer@.take(a as int));
    }
    push_all(&mut r, ins);
    let tail = subvec(buffer, b, buffer.len());
    proof {
        assert(buffer@.subrange(b as int, buffer@.len() as int) =~= buffer@.skip(b as int));
    }
    push_all(&mut r, &tail);
    r
}

/// The display text of one entry, as executable code.
fn display_of(e: &HistoryEntry) -> (r: Vec<char>)
    ensures
        r@ == display_text(*e),
{
    if e.mode == SessionMode::Wrapped && !e.is_builtin {
        str_chars(e.argv.as_str())
    } else {
        str_chars(e.get_command().as_str())
    }
}

impl Editor {
    /// A well-formed editor.
    pub open spec fn wf(&self) -> bool {
        view_wf(self@)
    }

    /// A fresh editor over the recallable entries, newest first.
    pub fn new(entries: Vec<HistoryEntry>) -> (ed: Editor)
        ensures
            ed.wf(),
            ed@.buffer == Seq::<char>::empty(),
            ed@.cursor == 0,
            ed@.entries == entries@,
            ed@.recall is None,
            ed@.snapshot is None,
            !ed@.was_tab,
    {
        Editor {
            buffer: Vec::new(),
            offset: 0,
            entries,
            history_offset: None,
            buffer_bak: None,
            was_tab: false,
        }
    }

    /// The buffer's current text.
    pub fn buffer_string(&self) -> (r: String)
        ensures
            r@ == self@.buffer,
    {
        chars_to_string(&self.buffer)
    }

    /// The cursor offset.
    pub fn cursor(&self) -> (r: usize)
        ensures
            r == self@.cursor,
    {
        self.offset
    }

    /// Feeds one key to the editor: the state advances as `spec_step`
    /// says, and the returned action tells the application what to do
    /// next.
    pub fn apply_key(&mut self, key: Key) -> (r: EditorAction)
        requires
            old(self).wf(),
        ensures
            final(self).wf(),
            final(self)@ == spec_step(old(self)@, key),
            (match r {
                EditorAction::Commit => key == Key::Enter || key == Key::CtrlD,
                EditorAction::ClearScreen => key == Key::CtrlL,
                EditorAction::Complete { prefix, is_command } => key == Key::Tab && prefix@ == old(
                    self,
                )@.buffer.subrange(
                    spec_prev_boundary(old(self)@.buffer, old(self)@.cursor),
                    old(self)@.cursor,
                ) && is_command == (spec_prev_boundary(old(self)@.buffer, old(self)@.cursor) == 0),
                EditorAction::Pending => key != Key::Enter && key != Key::CtrlD && key != Key::CtrlL
                    && key != Key::Tab,
            }),
    {
        let ghost v0 = self@;
        let empty_ins: Vec<char> = Vec::new();
        match key {
            Key::Backspace => {
                if self.offset > 0 {
                    self.buffer = splice(&self.buffer, self.offset - 1, self.offset, &empty_ins);
                    self.offset = self.offset - 1;
                    proof {
                        assert(self@.buffer =~= v0.buffer.take(v0.cursor - 1) + v0.buffer.skip(
                            v0.cursor,
                        ));
                    }
                }
                self.was_tab = false;
                proof {
                    assert(self@ =~= spec_step(v0, key));
                }
                EditorAction::Pending
            },
            Key::Delete => {
                if self.offset < self.buffer.len() {
                    self.buffer = splice(&self.buffer, self.offset, self.offset + 1, &empty_ins);
                    proof {
                        assert(self@.buffer =~= v0.buffer.take(v0.cursor) + v0.buffer.skip(
                            v0.cursor + 1,
                        ));
                    }
                }
                self.was_tab = false;
                proof {
                    assert(self@ =~= spec_step(v0, key));
                }
                EditorAction::Pending
            },
            Key::Left => {
                if self.offset > 0 {
                    self.offset = self.offset - 1;
                }
                self.was_tab = false;
                proof {
                    assert(self@ =~= spec_step(v0, key));
                }
                EditorAction::Pending
            },
            Key::Right => {
                if self.offset < self.buffer.len() {
                    self.offset = self.offset + 1;
                }
                self.was_tab = false;
                proof {
                    assert(self@ =~= spec_step(v0, key));
                }
                EditorAction::Pending
            },
            Key::Up => {
                let n: usize = match self.history_offset {
                    Some(n) => {
                        if n < self.entries.len() && n + 1 < self.entries.len() {
                            n + 1
                        } else {
                            n
                        }
                    },
                    None => {
                        self.buffer_bak = Some(subvec(&self.buffer, 0, self.buffer.len()));
                        proof {
                            assert(self.buffer@.subrange(0, self.buffer@.len() as int)
                                =~= v0.buffer);
                        }
                        0
                    },
                };
                self.history_offset = Some(n);
                if n < self.entries.len() {
                    let text = display_of(&self.entries[n]);
                    self.offset = text.len();
                    self.buffer = text;
                }
                self.was_tab = false;
                proof {
                    assert(self@ =~= spec_step(v0, key));
                }
                EditorAction::Pending
            },
            Key::Down => {
                match self.history_offset {
                    None => {},
                    Some(n) => {
                        if n == 0 {
                            let b = match &self.buffer_bak {
                                Some(b) => subvec(b, 0, b.len()),
                                None => subvec(&self.buffer, 0, self.buffer.len()),
                            };
                            proof {
                                match v0.snapshot {
                                    Some(sb) => {
                                        assert(b@ =~= sb);
                                    },
                                    None => {
                                        assert(b@ =~= v0.buffer);
                                    },
                                }
                            }
                            self.history_offset = None;
                            self.buffer_bak = None;
                            self.offset = b.len();
                            self.buffer = b;
                        } else {
                            let m = n - 1;
                            self.history_offset = Some(m);
                            if m < self.entries.len() {
                                let text = display_of(&self.entries[m]);
                                self.offset = text.len();
                                self.buffer = text;
                            } else {
                                self.offset = self.buffer.len();
                            }
                        }
                    },
                }
                self.was_tab = false;
                proof {
                    assert(self@ =~= spec_step(v0, key));
                }
                EditorAction::Pending
            },
            Key::CtrlU => {
                self.buffer = splice(&self.buffer, 0, self.offset, &empty_ins);
                self.offset = 0;
                self.was_tab = false;
                proof {
                    assert(self@.buffer =~= v0.buffer.skip(v0.cursor));
                    assert(self@ =~= spec_step(v0, key));
                }
                EditorAction::Pending
            },
            Key::CtrlK => {
                self.buffer = splice(&self.buffer, self.offset, self.buffer.len(), &empty_ins);
                self.was_tab = false;
                proof {
                    assert(self@.buffer =~= v0.buffer.take(v0.cursor));
                    assert(self@ =~= spec_step(v0, key));
                }
                EditorAction::Pending
            },
            Key::CtrlW => {
                let ws = prev_boundary_chars(&self.buffer, self.offset);
                self.buffer = splice(&self.buffer, ws, self.offset, &empty_ins);
                self.offset = ws;
                self.was_tab = false;
                proof {
                    assert(self@.buffer =~= v0.buffer.take(spec_prev_boundary(v0.buffer, v0.cursor))
                        + v0.buffer.skip(v0.cursor));
                    assert(self@ =~= spec_step(v0, key));
                }
                EditorAction::Pending
            },
            Key::CtrlA => {
                self.offset = 0;
                self.was_tab = false;
                proof {
                    assert(self@ =~= spec_step(v0, key));
                }
                EditorAction::Pending
            },
            Key::CtrlE => {
                self.offset = self.buffer.len();
                self.was_tab = false;
                proof {
                    assert(self@ =~= spec_step(v0, key));
                }
                EditorAction::Pending
            },
            Key::CtrlB => {
                self.offset = prev_boundary_chars(&self.buffer, self.offset);
                self.was_tab = false;
                proof {
                    assert(self@ =~= spec_step(v0, key));
                }
                EditorAction::Pending
            },
            Key::CtrlF => {
                self.offset = next_boundary_chars(&self.buffer, self.offset);
                self.was_tab = false;
                proof {
                    assert(self@ =~= spec_step(v0, key));
                }
                EditorAction::Pending
            },
            Key::CtrlL => {
                self.was_tab = false;
                proof {
                    assert(self@ =~= spec_step(v0, key));
                }
                EditorAction::ClearScreen
            },
            Key::CtrlD => {
                self.buffer = str_chars("exit");
                self.offset = self.buffer.len();
                self.was_tab = false;
                proof {
                    assert(self@ =~= spec_step(v0, key));
                }
                EditorAction::Commit
            },
            Key::Enter => {
                self.was_tab = false;
                proof {
                    assert(self@ =~= spec_step(v0, key));
                }
                EditorAction::Commit
            },
            Key::Tab => {
                let ws = prev_boundary_chars(&self.buffer, self.offset);
                let prefix_chars = subvec(&self.buffer, ws, self.offset);
                let prefix = chars_to_string(&prefix_chars);
                let is_command = ws == 0;
                proof {
                    assert(self@ =~= spec_step(v0, key));
                }
                EditorAction::Complete { prefix, is_command }
            },
            Key::Char(c) => {
                let mut ins: Vec<char> = Vec::new();
                ins.push(c);
                self.buffer = splice(&self.buffer, self.offset, self.offset, &ins);
                let nl = self.buffer.len();
                proof {
                    assert(self.offset < nl);
                }
                self.offset = self.offset + 1;
                self.was_tab = false;
                proof {
                    assert(self@.buffer =~= v0.buffer.take(v0.cursor) + seq![c] + v0.buffer.skip(
                        v0.cursor,
                    ));
                    assert(self@ =~= spec_step(v0, key));
                }
                EditorAction::Pending
            },
            Key::Other => {
                self.was_tab = false;
                proof {
                    assert(self@ =~= spec_step(v0, key));
                }
                EditorAction::Pending
            },
        }
    }
}

/// A run of `n` blanks.
pub open spec fn spec_spaces(n: int) -> Seq<char>
    decreases n,
{
    if n <= 0 {
        Seq::empty()
    } else {
        seq![' '] + spec_spaces(n - 1)
    }
}

/// The text padded with blanks to width `w`; longer text stands as it is.
pub open spec fn spec_pad(s: Seq<char>, w: int) -> Seq<char> {
    s + spec_spaces(w - s.len())
}

/// The longest length among the candidates from position `k` on.
pub open spec fn spec_max_len(cs: Seq<Seq<char>>, k: int) -> int
    decreases cs.len() - k,
{
    if k < 0 || k >= cs.len() {
        0
    } else {
        let rest = spec_max_len(cs, k + 1);
        if cs[k].len() > rest {
            cs[k].len() as int
        } else {
            rest
        }
    }
}

/// How many candidates stand on one line: what fits with two blanks of
/// padding, and at least one.
pub open spec fn spec_epl(mw: int, width: int) -> int {
    let q = (width + 2) / (mw + 2);
    if q >= 1 {
        q
    } else {
        1
    }
}

/// The multi-column listing of the candidates from position `k` on: each
/// line starts on a fresh row, every candidate is padded to the longest
/// candidate's width, and two more blanks separate columns.
pub open spec fn spec_listing_rows(cs: Seq<Seq<char>>, epl: int, mw: int, k: int) -> Seq<char>
    decreases cs.len() - k,
{
    if k < 0 || k >= cs.len() || epl <= 0 {
        Seq::empty()
    } else {
        (if k % epl == 0 {
            seq!['\n', '\r'] + spec_pad(cs[k], mw)
        } else {
            spec_pad(cs[k], mw + 2)
        }) + spec_listing_rows(cs, epl, mw, k + 1)
    }
}

/// The whole candidate listing for a terminal of the given width.
pub open spec fn spec_listing_text(cs: Seq<Seq<char>>, width: int) -> Seq<char> {
    spec_listing_rows(cs, spec_epl(spec_max_len(cs, 0), width), spec_max_len(cs, 0), 0)
}

/// The editor state that applying the completion candidates leads to: no
/// candidate does nothing; a lone candidate replaces the word prefix and
/// the cursor moves to the end; several candidates after a first Tab
/// extend the buffer's head to their common prefix, when they share one
/// longer than nothing; several candidates after a second Tab leave the
/// buffer alone, the listing being printed instead. Either way the
/// previous key is remembered as Tab.
pub open spec fn spec_apply_completions(v: EditorView, cs: Seq<Seq<char>>) -> EditorView {
    if cs.len() == 0 {
        EditorView { was_tab: true, ..v }
    } else if cs.len() == 1 {
        let ws = spec_prev_boundary(v.buffer, v.cursor);
        let b = v.buffer.take(ws) + cs[0] + v.buffer.skip(v.cursor);
        EditorView { buffer: b, cursor: b.len() as int, was_tab: true, ..v }
    } else if v.was_tab {
        EditorView { was_tab: true, ..v }
    } else {
        let best = spec_best_len(cs, spec_seed(cs).len() as int);
        if best > 0 {
            let b = spec_seed(cs).take(best) + v.buffer.skip(v.cursor);
            EditorView { buffer: b, cursor: b.len() as int, was_tab: true, ..v }
        } else {
            EditorView { was_tab: true, ..v }
        }
    }
}

/// Pads `word`'s characters to width `w` with blanks and appends them.
fn push_padded(out: &mut Vec<char>, word: &str, w: usize)
    ensures
        final(out)@ == old(out)@ + spec_pad(word@, w as int),
{
    let chars = str_chars(word);
    let n = chars.len();
    push_all(out, &chars);
    let mut k: usize = n;
    proof {
        assert(spec_spaces(0) =~= Seq::<char>::empty());
        assert(out@ =~= old(out)@ + word@ + spec_spaces(k as int - word@.len()));
    }
    while k < w
        invariant
            out@ == old(out)@ + word@ + spec_spaces(k as int - word@.len()),
            n == word@.len(),
            n <= k,
            k <= w || k == n,
        decreases w - k,
    {
        out.push(' ');
        proof {
            lemma_spaces_snoc(k + 1 - word@.len() as int);
            assert(out@ =~= old(out)@ + word@ + spec_spaces(k + 1 as int - word@.len()));
        }
        k = k + 1;
    }
    proof {
        if n >= w {
            assert(spec_spaces(k as int - word@.len()) =~= Seq::<char>::empty());
            assert(spec_spaces(w as int - word@.len()) =~= Seq::<char>::empty());
        }
        assert(out@ =~= old(out)@ + word@ + spec_spaces(w as int - word@.len()));
        assert(old(out)@ + word@ + spec_spaces(w as int - word@.len()) =~= old(out)@ + spec_pad(
            word@,
            w as int,
        ));
    }
}

proof fn lemma_spaces_snoc(n: int)
    requires
        n >= 1,
    ensures
        spec_spaces(n) == spec_spaces(n - 1).push(' '),
    decreases n,
{
    if n == 1 {
        assert(spec_spaces(1) =~= spec_spaces(0).push(' '));
    } else {
        lemma_spaces_snoc(n - 1);
        assert(spec_spaces(n) =~= spec_spaces(n - 1).push(' '));
    }
}

/// The longest candidate length, as executable code.
fn max_len_of(cs: &Vec<String>) -> (r: usize)
    ensures
        r == spec_max_len(crate::argv::expand::views_of(cs@), 0),
{
    let ghost vs = crate::argv::expand::views_of(cs@);
    let mut r: usize = 0;
    let mut k: usize = cs.len();
    while k > 0
        invariant
            k <= cs@.len(),
            vs == crate::argv::expand::views_of(cs@),
            r == spec_max_len(vs, k as int),
        decreases k,
    {
        let l = cs[k - 1].as_str().unicode_len();
        if l > r {
            r = l;
        }
        k = k - 1;
    }
    r
}

impl Editor {
    /// Applies the completion candidates the application computed for the
    /// prefix a Tab key asked about. The state advances as
    /// `spec_apply_completions` says; when several candidates follow a
    /// second Tab in a row, the returned text is their multi-column
    /// listing for the application to print.
    pub fn apply_completions(&mut self, completions: &Vec<String>, term_width: usize) -> (r: Option<
        String,
    >)
        requires
            old(self).wf(),
            term_width + 2 <= usize::MAX,
            spec_max_len(crate::argv::expand::views_of(completions@), 0) + 2 <= usize::MAX,
        ensures
            final(self).wf(),
            final(self)@ == spec_apply_completions(
                old(self)@,
                crate::argv::expand::views_of(completions@),
            ),
            (match r {
                Some(listing) => completions@.len() > 1 && old(self)@.was_tab && listing@
                    == spec_listing_text(
                    crate::argv::expand::views_of(completions@),
                    term_width as int,
                ),
                None => completions@.len() <= 1 || !old(self)@.was_tab,
            }),
    {
        let ghost v0 = self@;
        let ghost cs = crate::argv::expand::views_of(completions@);
        if completions.len() == 0 {
            self.was_tab = true;
            proof {
                assert(self@ =~= spec_apply_completions(v0, cs));
            }
            return None;
        }
        if completions.len() == 1 {
            let ws = prev_boundary_chars(&self.buffer, self.offset);
            let ins = str_chars(completions[0].as_str());
            self.buffer = splice(&self.buffer, ws, self.offset, &ins);
            self.offset = self.buffer.len();
            self.was_tab = true;
            proof {
                assert(self@.buffer =~= v0.buffer.take(spec_prev_boundary(v0.buffer, v0.cursor))
                    + cs[0] + v0.buffer.skip(v0.cursor));
                assert(self@ =~= spec_apply_completions(v0, cs));
            }
            return None;
        }
        if self.was_tab {
            let mw = max_len_of(completions);
            let epl = if mw <= term_width {
                let q = crate::session::get_entries_per_line(2, mw, term_width);
                if q == 0 {
                    1
                } else {
                    q
                }
            } else {
                proof {
                    assert((term_width + 2) as int / (mw + 2) as int == 0) by (nonlinear_arith)
                        requires
                            0 <= term_width,
                            term_width < mw,
                    ;
                }
                1
            };
            proof {
                assert(epl as int == spec_epl(mw as int, term_width as int));
            }
            let mut out: Vec<char> = Vec::new();
            let mut k: usize = 0;
            while k < completions.len()
                invariant
                    k <= completions@.len(),
                    cs == crate::argv::expand::views_of(completions@),
                    mw as int == spec_max_len(cs, 0),
                    epl >= 1,
                    mw + 2 <= usize::MAX,
                    spec_listing_rows(cs, epl as int, mw as int, 0) == out@ + spec_listing_rows(
                        cs,
                        epl as int,
                        mw as int,
                        k as int,
                    ),
                decreases completions@.len() - k,
            {
                let ghost out0 = out@;
                if k % epl == 0 {
                    out.push('\n');
                    out.push('\r');
                    push_padded(&mut out, completions[k].as_str(), mw);
                    proof {
                        assert(out@ =~= out0 + (seq!['\n', '\r'] + spec_pad(
                            cs[k as int],
                            mw as int,
                        )));
                        assert(out0 + ((seq!['\n', '\r'] + spec_pad(cs[k as int], mw as int))
                            + spec_listing_rows(cs, epl as int, mw as int, k + 1 as int)) =~= out@
                            + spec_listing_rows(cs, epl as int, mw as int, k + 1 as int));
                    }
                } else {
                    push_padded(&mut out, completions[k].as_str(), mw + 2);
                    proof {
                        assert(out@ =~= out0 + spec_pad(cs[k as int], mw + 2 as int));
                        assert(out0 + (spec_pad(cs[k as int], mw + 2 as int) + spec_listing_rows(
                            cs,
                            epl as int,
                            mw as int,
                            k + 1 as int,
                        )) =~= out@ + spec_listing_rows(cs, epl as int, mw as int, k + 1 as int));
                    }
                }
                k = k + 1;
            }
            proof {
                assert(out@ + Seq::<char>::empty() =~= out@);
            }
            self.was_tab = true;
            proof {
                assert(self@ =~= spec_apply_completions(v0, cs));
            }
            return Some(chars_to_string(&out));
        }
        match crate::session::get_common_prefix(completions) {
            Some(cp) => {
                let ins = str_chars(cp.as_str());
                self.buffer = splice(&self.buffer, 0, self.offset, &ins);
                self.offset = self.buffer.len();
                self.was_tab = true;
                proof {
                    let best = spec_best_len(cs, spec_seed(cs).len() as int);
                    assert(self@.buffer =~= spec_seed(cs).take(best) + v0.buffer.skip(v0.cursor));
                    assert(self@ =~= spec_apply_completions(v0, cs));
                }
                None
            },
            None => {
                self.was_tab = true;
                proof {
                    assert(self@ =~= spec_apply_completions(v0, cs));
                }
                None
            },
        }
    }
}

impl Editor {
    /// A fresh editor over the session's recallable history: the entries
    /// a recall may visit, newest first.
    pub fn begin(session: &crate::session::Session) -> (ed: Editor)
        ensures
            ed.wf(),
            ed@.buffer == Seq::<char>::empty(),
            ed@.cursor == 0,
            ed@.entries == crate::history::spec_listing(
                session.log(),
                session.mode_spec(),
                session.base_spec(),
                0,
            ).reverse(),
            ed@.recall is None,
            ed@.snapshot is None,
            !ed@.was_tab,
    {
        let mut fwd = session.listing();
        let ghost orig = fwd@;
        let mut rev: Vec<HistoryEntry> = Vec::new();
        proof {
            assert(orig.skip(orig.len() as int).reverse() =~= Seq::<HistoryEntry>::empty());
        }
        while fwd.len() > 0
            invariant
                fwd@.len() <= orig.len(),
                fwd@ == orig.take(fwd@.len() as int),
                rev@ == orig.skip(fwd@.len() as int).reverse(),
            decreases fwd.len(),
        {
            let ghost n = fwd@.len() as int;
            match fwd.pop() {
                Some(e) => {
                    rev.push(e);
                    proof {
                        assert(orig.take(n)[n - 1] == orig[n - 1]);
                        assert(fwd@ =~= orig.take(n - 1));
                        assert(orig.skip(n - 1) =~= seq![orig[n - 1]] + orig.skip(n));
                        assert((seq![orig[n - 1]] + orig.skip(n)).reverse() =~= orig.skip(
                            n,
                        ).reverse().push(orig[n - 1]));
                    }
                },
                None => {
                    proof {
                        assert(false);
                    }
                },
            }
        }
        proof {
            assert(orig.skip(0).reverse() == rev@);
            assert(orig.skip(0) =~= orig);
        }
        Editor {
            buffer: Vec::new(),
            offset: 0,
            entries: rev,
            history_offset: None,
            buffer_bak: None,
            was_tab: false,
        }
    }
}

} // verus!
