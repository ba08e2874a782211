use wrash::editor::{Editor, EditorAction, Key};
use wrash::history::{History, HistoryEntry};
use wrash::session::{Session, SessionMode};

fn type_line(ed: &mut Editor, line: &str) {
    for c in line.chars() {
        ed.apply_key(Key::Char(c));
    }
}

fn entry(argv: &str, base: Option<&str>, mode: SessionMode, is_builtin: bool) -> HistoryEntry {
    HistoryEntry::new(argv.to_string(), base.map(|b| b.to_string()), mode, is_builtin)
}

fn session_with(entries: Vec<HistoryEntry>) -> Session {
    let mut history = History::empty();
    for e in entries {
        history.push(e);
    }
    Session::new(history, false, "git", SessionMode::Wrapped)
}

#[test]
fn test_typing_and_cursor() {
    let mut ed = Editor::new(Vec::new());
    type_line(&mut ed, "hello");
    assert_eq!("hello".to_string(), ed.buffer_string());
    assert_eq!(5, ed.cursor());

    ed.apply_key(Key::Left);
    ed.apply_key(Key::Left);
    ed.apply_key(Key::Char('l'));
    assert_eq!("helllo".to_string(), ed.buffer_string());
    assert_eq!(4, ed.cursor());
}

#[test]
fn test_backspace_and_delete() {
    let mut ed = Editor::new(Vec::new());
    type_line(&mut ed, "abc");
    ed.apply_key(Key::Backspace);
    assert_eq!("ab".to_string(), ed.buffer_string());
    assert_eq!(2, ed.cursor());

    ed.apply_key(Key::Left);
    ed.apply_key(Key::Left);
    ed.apply_key(Key::Delete);
    assert_eq!("b".to_string(), ed.buffer_string());
    assert_eq!(0, ed.cursor());

    // both are no-ops at the buffer boundary
    ed.apply_key(Key::Backspace);
    ed.apply_key(Key::Right);
    ed.apply_key(Key::Delete);
    assert_eq!("b".to_string(), ed.buffer_string());
}

#[test]
fn test_kill_keys() {
    let mut ed = Editor::new(Vec::new());
    type_line(&mut ed, "one two three");
    ed.apply_key(Key::CtrlA);
    assert_eq!(0, ed.cursor());
    ed.apply_key(Key::CtrlF);
    assert_eq!(3, ed.cursor());
    ed.apply_key(Key::CtrlK);
    assert_eq!("one".to_string(), ed.buffer_string());

    ed.apply_key(Key::CtrlE);
    assert_eq!(3, ed.cursor());
    ed.apply_key(Key::CtrlU);
    assert_eq!("".to_string(), ed.buffer_string());
    assert_eq!(0, ed.cursor());
}

#[test]
fn test_ctrl_w_deletes_word() {
    let mut ed = Editor::new(Vec::new());
    type_line(&mut ed, "git add -A");
    ed.apply_key(Key::CtrlW);
    assert_eq!("git add ".to_string(), ed.buffer_string());
    assert_eq!(8, ed.cursor());

    ed.apply_key(Key::CtrlB);
    assert_eq!(7, ed.cursor());
    ed.apply_key(Key::CtrlB);
    assert_eq!(4, ed.cursor());
}

#[test]
fn test_enter_commits() {
    let mut ed = Editor::new(Vec::new());
    type_line(&mut ed, "status");
    let action = ed.apply_key(Key::Enter);
    assert!(matches!(action, EditorAction::Commit));
    assert_eq!("status".to_string(), ed.buffer_string());
}

#[test]
fn test_ctrl_d_substitutes_exit() {
    let mut ed = Editor::new(Vec::new());
    type_line(&mut ed, "whatever");
    let action = ed.apply_key(Key::CtrlD);
    assert!(matches!(action, EditorAction::Commit));
    assert_eq!("exit".to_string(), ed.buffer_string());
}

#[test]
fn test_recall_shows_wrapped_argv_only() {
    let session = session_with(vec![
        entry("add -A", Some("git"), SessionMode::Wrapped, false),
        entry("mode normal", None, SessionMode::Wrapped, true),
    ]);
    let mut ed = Editor::begin(&session);

    // newest first: the builtin, rendered as its full command
    ed.apply_key(Key::Up);
    assert_eq!("mode normal".to_string(), ed.buffer_string());

    // one older: wrapped and not builtin, so the bare arguments
    ed.apply_key(Key::Up);
    assert_eq!("add -A".to_string(), ed.buffer_string());
    assert_eq!(6, ed.cursor());

    // clamped at the oldest entry
    ed.apply_key(Key::Up);
    assert_eq!("add -A".to_string(), ed.buffer_string());
}

#[test]
fn test_recall_filter_excludes_other_mode_and_base() {
    let session = session_with(vec![
        entry("add -A", Some("git"), SessionMode::Wrapped, false),
        entry("mode normal", None, SessionMode::Wrapped, true),
        entry("commit -m 'x'", None, SessionMode::Normal, false),
        entry("mode wrapped", None, SessionMode::Normal, true),
        entry("clippy", Some("cargo"), SessionMode::Wrapped, false),
    ]);
    let mut ed = Editor::begin(&session);

    ed.apply_key(Key::Up);
    assert_eq!("mode wrapped".to_string(), ed.buffer_string());
    ed.apply_key(Key::Up);
    assert_eq!("mode normal".to_string(), ed.buffer_string());
    ed.apply_key(Key::Up);
    assert_eq!("add -A".to_string(), ed.buffer_string());
    ed.apply_key(Key::Up);
    assert_eq!("add -A".to_string(), ed.buffer_string());
}

#[test]
fn test_up_then_down_restores_buffer() {
    let session = session_with(vec![entry("add -A", Some("git"), SessionMode::Wrapped, false)]);
    let mut ed = Editor::begin(&session);
    type_line(&mut ed, "draft text");

    ed.apply_key(Key::Up);
    assert_eq!("add -A".to_string(), ed.buffer_string());

    ed.apply_key(Key::Down);
    assert_eq!("draft text".to_string(), ed.buffer_string());
}

#[test]
fn test_down_without_recall_is_noop() {
    let mut ed = Editor::new(Vec::new());
    type_line(&mut ed, "abc");
    ed.apply_key(Key::Left);
    ed.apply_key(Key::Down);
    assert_eq!("abc".to_string(), ed.buffer_string());
    assert_eq!(2, ed.cursor());
}

#[test]
fn test_recall_steps_down_through_entries() {
    let session = session_with(vec![
        entry("one", None, SessionMode::Wrapped, true),
        entry("two", None, SessionMode::Wrapped, true),
    ]);
    let mut ed = Editor::begin(&session);

    ed.apply_key(Key::Up);
    assert_eq!("two".to_string(), ed.buffer_string());
    ed.apply_key(Key::Up);
    assert_eq!("one".to_string(), ed.buffer_string());
    ed.apply_key(Key::Down);
    assert_eq!("two".to_string(), ed.buffer_string());
    ed.apply_key(Key::Down);
    assert_eq!("".to_string(), ed.buffer_string());
}

#[test]
fn test_tab_requests_completions() {
    let mut ed = Editor::new(Vec::new());
    type_line(&mut ed, "a_f");
    let action = ed.apply_key(Key::Tab);
    match action {
        EditorAction::Complete { prefix, is_command } => {
            assert_eq!("a_f".to_string(), prefix);
            assert!(is_command);
        },
        _ => panic!("tab must ask for completions"),
    }

    let mut ed2 = Editor::new(Vec::new());
    type_line(&mut ed2, "cmd a_f");
    let action2 = ed2.apply_key(Key::Tab);
    match action2 {
        EditorAction::Complete { prefix, is_command } => {
            assert_eq!("a_f".to_string(), prefix);
            assert!(!is_command);
        },
        _ => panic!("tab must ask for completions"),
    }
}

#[test]
fn test_single_completion_replaces_prefix() {
    let mut ed = Editor::new(Vec::new());
    type_line(&mut ed, "cmd a_f");
    ed.apply_key(Key::Tab);
    let listing = ed.apply_completions(&vec!["a_file".to_string()], 80);
    assert!(listing.is_none());
    assert_eq!("cmd a_file".to_string(), ed.buffer_string());
    assert_eq!(10, ed.cursor());
}

#[test]
fn test_first_tab_narrows_second_tab_lists() {
    let mut ed = Editor::new(Vec::new());
    type_line(&mut ed, "a_f");
    ed.apply_key(Key::Tab);

    let candidates = vec!["a_file".to_string(), "a_file_too".to_string()];

    // the first Tab narrows to the common prefix
    let first = ed.apply_completions(&candidates, 80);
    assert!(first.is_none());
    assert_eq!("a_file".to_string(), ed.buffer_string());
    assert_eq!(6, ed.cursor());

    // the second Tab in a row prints the candidates in columns
    ed.apply_key(Key::Tab);
    let second = ed.apply_completions(&candidates, 80);
    assert_eq!(
        Some("\n\ra_file    a_file_too  ".to_string()),
        second
    );
    assert_eq!("a_file".to_string(), ed.buffer_string());
}

#[test]
fn test_no_completions_is_noop() {
    let mut ed = Editor::new(Vec::new());
    type_line(&mut ed, "zzz");
    ed.apply_key(Key::Tab);
    let listing = ed.apply_completions(&Vec::new(), 80);
    assert!(listing.is_none());
    assert_eq!("zzz".to_string(), ed.buffer_string());
}
