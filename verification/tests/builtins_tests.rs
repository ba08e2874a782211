use wrash::builtins::{cd_target, exit, is_builtin, mode};
use wrash::error::WrashError;
use wrash::history::History;
use wrash::session::{Session, SessionMode};

fn argv(words: &[&str]) -> Vec<String> {
    words.iter().map(|w| w.to_string()).collect()
}

#[test]
fn test_is_builtin() {
    assert!(is_builtin("exit"));
    assert!(is_builtin("cd"));
    assert!(is_builtin("mode"));
    assert!(is_builtin("help"));
    assert!(is_builtin("history"));
    assert!(!is_builtin("git"));
    assert!(!is_builtin(""));
}

#[test]
fn test_exit_no_arg() {
    let expected = Ok(());
    let actual = exit(&argv(&["exit"]));

    assert_eq!(expected, actual);
}

#[test]
fn test_exit_zero() {
    let expected = Ok(());
    let actual = exit(&argv(&["0"]));

    assert_eq!(expected, actual);
}

#[test]
fn test_exit_1() {
    let expected = Err(WrashError::NonZeroExit(1));
    let actual = exit(&argv(&["exit", "1"]));

    assert_eq!(expected, actual);
}

#[test]
fn test_exit_neg_1() {
    let expected = Err(WrashError::NonZeroExit(1));
    let actual = exit(&argv(&["exit", "-1"]));

    assert_eq!(expected, actual);
}

#[test]
fn test_exit_non_number() {
    let expected = Err(WrashError::NonZeroExit(1));
    let actual = exit(&argv(&["exit", "nan"]));

    assert_eq!(expected, actual);
}

#[test]
fn test_exit_code_42() {
    let expected = Err(WrashError::NonZeroExit(42));
    let actual = exit(&argv(&["exit", "42"]));

    assert_eq!(expected, actual);
}

#[test]
fn test_exit_overflowing_code() {
    let expected = Err(WrashError::NonZeroExit(1));
    let actual = exit(&argv(&["exit", "99999999999999999999"]));

    assert_eq!(expected, actual);
}

#[test]
fn test_cd_target_with_arg() {
    let expected = Ok("tests".to_string());
    let actual = cd_target(Some("tests".to_string()), Some("HOME".to_string()));

    assert_eq!(expected, actual);
}

#[test]
fn test_cd_target_home() {
    let expected = Ok("HOME".to_string());
    let actual = cd_target(None, Some("HOME".to_string()));

    assert_eq!(expected, actual);
}

#[test]
fn test_cd_target_nothing() {
    let expected = Err(WrashError::NonZeroExit(2));
    let actual = cd_target(None, None);

    assert_eq!(expected, actual);
}

#[test]
fn test_get_mode_no_set() {
    let mut session = Session::new(History::empty(), false, "", SessionMode::Wrapped);

    let (actual, out, err) = mode(&mut session, &argv(&["mode"]));

    assert_eq!(Ok(()), actual);

    let expected_out = String::from("wrapped\n");
    assert_eq!(expected_out, out);

    let expected_err = String::from("");
    assert_eq!(expected_err, err);
}

#[test]
fn test_set_mode() {
    let mut session = Session::new(History::empty(), false, "", SessionMode::Wrapped);

    let (actual, out, err) = mode(&mut session, &argv(&["mode", "normal"]));

    assert_eq!(Ok(()), actual);

    let expected_out = String::from("");
    assert_eq!(expected_out, out);

    let expected_err = String::from("");
    assert_eq!(expected_err, err);

    assert_eq!(SessionMode::Normal, session.mode());
}

#[test]
fn test_set_mode_to_current() {
    let mut session = Session::new(History::empty(), false, "", SessionMode::Wrapped);

    let (actual, out, err) = mode(&mut session, &argv(&["mode", "wrapped"]));

    assert_eq!(Ok(()), actual);

    let expected_out = String::from("");
    assert_eq!(expected_out, out);

    let expected_err = String::from("");
    assert_eq!(expected_err, err);

    assert_eq!(SessionMode::Wrapped, session.mode());
}

#[test]
fn test_set_mode_invalid() {
    let mut session = Session::new(History::empty(), false, "", SessionMode::Wrapped);

    let (actual, out, err) = mode(&mut session, &argv(&["mode", "invalid"]));

    assert_eq!(Err(WrashError::NonZeroExit(1)), actual);

    let expected_out = String::from("");
    assert_eq!(expected_out, out);

    let expected_err = String::from("");
    assert_eq!(expected_err, err);
}

#[test]
fn test_set_mode_frozen() {
    let mut session = Session::new(History::empty(), true, "", SessionMode::Wrapped);

    let (actual, out, err) = mode(&mut session, &argv(&["mode", "normal"]));

    assert_eq!(Err(WrashError::NonZeroExit(1)), actual);

    let expected_out = String::from("");
    assert_eq!(expected_out, out);

    let expected_err = String::from("Error: could not set session mode, session is frozen");
    assert_eq!(expected_err, err);

    assert_eq!(SessionMode::Wrapped, session.mode());
}

#[test]
fn test_set_mode_to_current_frozen() {
    let mut session = Session::new(History::empty(), true, "", SessionMode::Wrapped);

    let (actual, out, err) = mode(&mut session, &argv(&["mode", "wrapped"]));

    assert_eq!(Err(WrashError::NonZeroExit(1)), actual);

    let expected_out = String::from("");
    assert_eq!(expected_out, out);

    let expected_err = String::from("Error: could not set session mode, session is frozen");
    assert_eq!(expected_err, err);
}

#[test]
fn test_wrash_error_messages() {
    assert_eq!(
        "command exited with nonzero exit code 3".to_string(),
        WrashError::NonZeroExit(3).message()
    );
    assert_eq!(
        "command exited with nonzero exit code -7".to_string(),
        WrashError::NonZeroExit(-7).message()
    );
    assert_eq!(
        "failed io operation: broken pipe".to_string(),
        WrashError::FailedIo("broken pipe".to_string()).message()
    );
    assert_eq!(
        "error: went wrong".to_string(),
        WrashError::Custom("went wrong".to_string()).message()
    );
}
