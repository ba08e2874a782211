use wrash::history::History;
use wrash::session::{
    get_common_prefix, get_entries_per_line, get_next_boundary, get_previous_boundary, Session,
    SessionMode,
};

#[test]
fn get_next_boundary_single_from_start() {
    let buffer = "word";
    let offset = 0;

    let expected = buffer.len();
    let actual = get_next_boundary(buffer, offset);

    assert_eq!(expected, actual);
}

#[test]
fn get_next_boundary_multiple_from_start() {
    let buffer = "another word";
    let offset = 0;

    let expected = 7;
    let actual = get_next_boundary(buffer, offset);

    assert_eq!(expected, actual);
}

#[test]
fn get_next_boundary_multiple_from_middle() {
    let buffer = "another word";
    let offset = 3;

    let expected = 7;
    let actual = get_next_boundary(buffer, offset);

    assert_eq!(expected, actual);
}

#[test]
fn get_next_boundary_multiple_from_end() {
    let buffer = "another word";
    let offset = 7;

    let expected = 8;
    let actual = get_next_boundary(buffer, offset);

    assert_eq!(expected, actual);
}

#[test]
fn get_previous_boundary_single_from_end() {
    let buffer = "word";
    let offset = buffer.len();

    let expected = 0;
    let actual = get_previous_boundary(buffer, offset);

    assert_eq!(expected, actual);
}

#[test]
fn get_previous_boundary_single_from_middle() {
    let buffer = "word";
    let offset = buffer.len() / 2;

    let expected = 0;
    let actual = get_previous_boundary(buffer, offset);

    assert_eq!(expected, actual);
}

#[test]
fn get_previous_boundary_single_from_starr() {
    let buffer = "word";
    let offset = 0;

    let expected = 0;
    let actual = get_previous_boundary(buffer, offset);

    assert_eq!(expected, actual);
}

#[test]
fn get_previous_boundary_multiple_last_word() {
    let buffer = "some example words";
    let offset = buffer.len();

    let expected = 13;
    let actual = get_previous_boundary(buffer, offset);

    assert_eq!(expected, actual);
}

#[test]
fn get_previous_boundary_from_next_word_start() {
    let buffer = "some example";
    let offset = 5;

    let expected = 4;
    let actual = get_previous_boundary(buffer, offset);

    assert_eq!(expected, actual);
}

fn strings(words: &[&str]) -> Vec<String> {
    words.iter().map(|w| w.to_string()).collect()
}

#[test]
fn test_get_common_prefix_empty_iterator() {
    let values: Vec<String> = Vec::new();
    let actual = get_common_prefix(&values);
    let expected = None;

    assert_eq!(expected, actual);
}

#[test]
fn test_get_common_prefix_no_common_prefix() {
    let actual = get_common_prefix(&strings(&[
        "some_file_name",
        "another_file_name",
        "i_am_a_directory",
    ]));
    let expected = None;

    assert_eq!(expected, actual);
}

#[test]
fn test_common_prefix_with_common_prefix() {
    let actual = get_common_prefix(&strings(&["a_file", "a_file_too", "a_file_as_well"]));
    let expected = Some("a_file".to_string());

    assert_eq!(expected, actual);
}

#[test]
fn test_common_prefix_with_partial_common_prefix() {
    let actual = get_common_prefix(&strings(&[
        "a_file",
        "a_file_too",
        "a_file_as_well",
        "some_new_file",
    ]));
    let expected = None;

    assert_eq!(expected, actual);
}

#[test]
fn test_common_prefix_shrinks_to_shared_part() {
    let actual = get_common_prefix(&strings(&["abx", "aby"]));
    let expected = Some("ab".to_string());

    assert_eq!(expected, actual);
}

#[test]
fn err_on_set_frozen_session() {
    let mut session = Session::new(
        History::new(Vec::new(), None),
        true,
        "nonsense_command",
        SessionMode::Wrapped,
    );

    assert!(session.set_mode(SessionMode::Normal).is_err());
}

#[test]
fn test_entries_per_line_exact_fit() {
    let actual = get_entries_per_line(2, 4, 10);
    let expected = 2;

    assert_eq!(expected, actual);
}

#[test]
fn test_entries_per_line_not_enough_for_one() {
    let actual = get_entries_per_line(2, 4, 1);
    let expected = 0;

    assert_eq!(expected, actual);
}

#[test]
fn test_entries_per_line_too_much_room() {
    let actual = get_entries_per_line(2, 4, 13);
    let expected = 2;

    assert_eq!(expected, actual);
}

#[test]
fn test_mode_from_str() {
    assert_eq!(Ok(SessionMode::Wrapped), SessionMode::from_str("wrapped"));
    assert_eq!(Ok(SessionMode::Normal), SessionMode::from_str("normal"));
    assert_eq!(Err(()), SessionMode::from_str("invalid"));
    assert_eq!(Err(()), SessionMode::from_str(""));
}

#[test]
fn test_mode_names() {
    assert_eq!("wrapped".to_string(), SessionMode::Wrapped.name());
    assert_eq!("normal".to_string(), SessionMode::Normal.name());
}

#[test]
fn test_session_accessors() {
    let mut session = Session::new(History::empty(), false, "git", SessionMode::Wrapped);

    assert_eq!("git".to_string(), session.get_base());
    assert!(!session.is_frozen());
    assert_eq!(SessionMode::Wrapped, session.mode());

    assert_eq!(Ok(()), session.set_mode(SessionMode::Normal));
    assert_eq!(SessionMode::Normal, session.mode());
}

#[test]
fn test_push_to_history_trims_and_tags() {
    let mut session = Session::new(History::empty(), false, "git", SessionMode::Wrapped);

    session.push_to_history("  add -A  ", false);
    session.push_to_history("mode normal", true);

    let mut it = session.history_iter();

    let first = it.next().unwrap();
    assert_eq!("add -A".to_string(), first.argv);
    assert_eq!(Some("git".to_string()), first.base);
    assert_eq!(SessionMode::Wrapped, first.mode);
    assert!(!first.is_builtin);

    let second = it.next().unwrap();
    assert_eq!("mode normal".to_string(), second.argv);
    assert_eq!(None, second.base);
    assert!(second.is_builtin);

    assert!(it.next().is_none());
}

#[test]
fn test_push_to_history_normal_mode_has_no_base() {
    let mut session = Session::new(History::empty(), false, "git", SessionMode::Normal);

    session.push_to_history("ls -l", false);

    let mut it = session.history_iter();
    let entry = it.next().unwrap();
    assert_eq!(None, entry.base);
    assert_eq!(SessionMode::Normal, entry.mode);
}
