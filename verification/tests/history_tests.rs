use wrash::error::WrashError;
use wrash::history::{render_entries, History, HistoryEntry};
use wrash::session::{Session, SessionMode};

fn entry(argv: &str, base: Option<&str>, mode: SessionMode, is_builtin: bool) -> HistoryEntry {
    HistoryEntry::new(argv.to_string(), base.map(|b| b.to_string()), mode, is_builtin)
}

fn five_entries() -> Vec<HistoryEntry> {
    vec![
        entry("add -A", Some("git"), SessionMode::Wrapped, false),
        entry("mode normal", None, SessionMode::Wrapped, true),
        entry("commit -m 'x'", None, SessionMode::Normal, false),
        entry("mode wrapped", None, SessionMode::Normal, true),
        entry("clippy", Some("cargo"), SessionMode::Wrapped, false),
    ]
}

#[test]
fn test_get_command() {
    let with_base = entry("add -A", Some("git"), SessionMode::Wrapped, false);
    assert_eq!("git add -A".to_string(), with_base.get_command());

    let without_base = entry("mode normal", None, SessionMode::Wrapped, true);
    assert_eq!("mode normal".to_string(), without_base.get_command());
}

#[test]
fn test_history_round_trip() {
    let e1 = entry("one", None, SessionMode::Normal, false);
    let e2 = entry("two", None, SessionMode::Normal, false);

    let mut history = History::empty();
    history.push(e1.clone());
    history.push(e2.clone());

    let mut forward = history.iter();
    assert_eq!(Some(&e1), forward.next());
    assert_eq!(Some(&e2), forward.next());
    assert_eq!(None, forward.next());

    let mut backward = history.iter();
    assert_eq!(Some(&e2), backward.next_back());
    assert_eq!(Some(&e1), backward.next_back());
    assert_eq!(None, backward.next_back());
}

#[test]
fn test_sync_then_reload_is_equal() {
    let mut history = History::new(Vec::new(), Some("history.yaml".to_string()));
    history.push(entry("one", None, SessionMode::Normal, false));
    history.push(entry("two", Some("git"), SessionMode::Wrapped, true));

    let (path, entries) = history.sync().unwrap();
    assert_eq!("history.yaml".to_string(), path);

    let reloaded = History::new(entries, Some(path));
    assert_eq!(history, reloaded);
}

#[test]
fn test_sync_without_backing_path_fails() {
    let history = History::empty();

    let expected = Err(WrashError::FailedIo(
        "no history file exists for struct instance".to_string(),
    ));
    assert_eq!(expected, history.sync());
}

#[test]
fn test_history_filter_scenario() {
    let mut history = History::empty();
    for e in five_entries() {
        history.push(e);
    }
    let session = Session::new(history, false, "git", SessionMode::Wrapped);

    let listed = session.listing();

    let expected = vec![
        entry("add -A", Some("git"), SessionMode::Wrapped, false),
        entry("mode normal", None, SessionMode::Wrapped, true),
        entry("mode wrapped", None, SessionMode::Normal, true),
    ];
    assert_eq!(expected, listed);

    let rendered = render_entries(&listed);
    assert_eq!(
        "0: git add -A\n1: mode normal\n2: mode wrapped\n".to_string(),
        rendered
    );
}

#[test]
fn test_filter_query_no_filters_keeps_all() {
    let mut history = History::empty();
    for e in five_entries() {
        history.push(e);
    }

    let all = history.filter_query(None, None, None, None);
    assert_eq!(5, all.len());

    let rendered = render_entries(&all);
    assert_eq!(
        "0: git add -A\n1: mode normal\n2: commit -m 'x'\n3: mode wrapped\n4: cargo clippy\n"
            .to_string(),
        rendered
    );
}

#[test]
fn test_filter_query_mode() {
    let mut history = History::empty();
    for e in five_entries() {
        history.push(e);
    }

    let wrapped = history.filter_query(Some(SessionMode::Wrapped), None, None, None);

    let expected = vec![
        entry("add -A", Some("git"), SessionMode::Wrapped, false),
        entry("mode normal", None, SessionMode::Wrapped, true),
        entry("clippy", Some("cargo"), SessionMode::Wrapped, false),
    ];
    assert_eq!(expected, wrapped);
}

#[test]
fn test_filter_query_base() {
    let mut history = History::empty();
    for e in five_entries() {
        history.push(e);
    }

    let on_git = history.filter_query(None, Some("git"), None, None);

    let expected = vec![
        entry("add -A", Some("git"), SessionMode::Wrapped, false),
        entry("mode normal", None, SessionMode::Wrapped, true),
        entry("commit -m 'x'", None, SessionMode::Normal, false),
        entry("mode wrapped", None, SessionMode::Normal, true),
    ];
    assert_eq!(expected, on_git);
}

#[test]
fn test_filter_query_builtin_flag() {
    let mut history = History::empty();
    for e in five_entries() {
        history.push(e);
    }

    let only_builtins = history.filter_query(None, None, Some(true), None);
    let expected = vec![
        entry("mode normal", None, SessionMode::Wrapped, true),
        entry("mode wrapped", None, SessionMode::Normal, true),
    ];
    assert_eq!(expected, only_builtins);

    let no_builtins = history.filter_query(None, None, Some(false), None);
    assert_eq!(3, no_builtins.len());
}

#[test]
fn test_filter_query_text_pattern() {
    let mut history = History::empty();
    for e in five_entries() {
        history.push(e);
    }

    let on_mode = history.filter_query(None, None, None, Some("mode *"));
    let expected = vec![
        entry("mode normal", None, SessionMode::Wrapped, true),
        entry("mode wrapped", None, SessionMode::Normal, true),
    ];
    assert_eq!(expected, on_mode);

    // an ill-formed pattern matches nothing
    let bad = history.filter_query(None, None, None, Some("***"));
    assert_eq!(0, bad.len());
}

#[test]
fn test_history_sync_through_session() {
    let mut history = History::new(Vec::new(), Some("h.yaml".to_string()));
    history.push(entry("one", None, SessionMode::Normal, false));
    let session = Session::new(history, false, "git", SessionMode::Wrapped);

    let (path, entries) = session.history_sync().unwrap();
    assert_eq!("h.yaml".to_string(), path);
    assert_eq!(1, entries.len());
    assert_eq!("one".to_string(), entries[0].argv);
}

#[test]
fn test_iterator_directions_are_independent() {
    let mut history = History::empty();
    let e1 = entry("one", None, SessionMode::Normal, false);
    let e2 = entry("two", None, SessionMode::Normal, false);
    history.push(e1.clone());
    history.push(e2.clone());

    let mut it = history.iter();
    assert_eq!(Some(&e1), it.next());
    assert_eq!(Some(&e2), it.next_back());
    assert_eq!(Some(&e1), it.next_back());
    assert_eq!(None, it.next_back());
    assert_eq!(Some(&e2), it.next());
    assert_eq!(None, it.next());
}
