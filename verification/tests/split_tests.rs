use wrash::argv::error::ArgumentError;
use wrash::argv::split::split;
use wrash::argv::find_with_previous;

#[test]
fn split_test_empty() {
    let source = "";
    let mut actual = split(source);

    assert_eq!(None, actual.next());
}

#[test]
fn test_command_only() {
    let source = "cmd";
    let mut actual = split(source);

    assert_eq!(Some(Ok("cmd".to_string())), actual.next());
    assert_eq!(None, actual.next());
}

#[test]
fn test_command_with_args() {
    let source = "cmd a b c";
    let mut actual = split(source);

    assert_eq!(Some(Ok("cmd".to_string())), actual.next());
    assert_eq!(Some(Ok("a".to_string())), actual.next());
    assert_eq!(Some(Ok("b".to_string())), actual.next());
    assert_eq!(Some(Ok("c".to_string())), actual.next());
    assert_eq!(None, actual.next());
}

#[test]
fn test_unterminated_single_string() {
    let source = "cmd a 'b c";
    let mut actual = split(source);

    assert_eq!(Some(Ok("cmd".to_string())), actual.next());
    assert_eq!(Some(Ok("a".to_string())), actual.next());
    assert_eq!(
        Some(Err(ArgumentError::UnterminatedSequence('\''))),
        actual.next()
    );
    assert_eq!(None, actual.next());
}

#[test]
fn test_unterminated_double_string() {
    let source = "cmd a \"b c";
    let mut actual = split(source);

    assert_eq!(Some(Ok("cmd".to_string())), actual.next());
    assert_eq!(Some(Ok("a".to_string())), actual.next());
    assert_eq!(
        Some(Err(ArgumentError::UnterminatedSequence('\"'))),
        actual.next()
    );
    assert_eq!(None, actual.next());
}

#[test]
fn test_unterminated_mixed() {
    let source = "cmd a b\\ 'c'";
    let mut actual = split(source);

    assert_eq!(Some(Ok("cmd".to_string())), actual.next());
    assert_eq!(Some(Ok("a".to_string())), actual.next());
    assert_eq!(Some(Ok("b\\ 'c'".to_string())), actual.next());
    assert_eq!(None, actual.next());
}

#[test]
fn test_quoted_token_runs_to_close() {
    let source = "'a b' c";
    let mut actual = split(source);

    assert_eq!(Some(Ok("'a b'".to_string())), actual.next());
    assert_eq!(Some(Ok("c".to_string())), actual.next());
    assert_eq!(None, actual.next());
}

#[test]
fn mod_test_empty() {
    let items: Vec<i64> = (0..0).collect();

    let expected = None;
    let actual = find_with_previous(
        &items,
        |n: Option<i64>| if let Some(n) = n { n == 0 } else { true },
        |n: i64| n == 1,
    );

    assert_eq!(expected, actual);
}

#[test]
fn test_no_previous_allow_pass() {
    let items: Vec<i64> = (0..1).collect();

    let expected = Some(0);
    let actual = find_with_previous(
        &items,
        |n: Option<i64>| if let Some(n) = n { n == 0 } else { true },
        |n: i64| n == 0,
    );

    assert_eq!(expected, actual);
}

#[test]
fn test_no_previous_block_pass() {
    let items: Vec<i64> = (0..1).collect();

    let expected = None;
    let actual = find_with_previous(
        &items,
        |n: Option<i64>| if let Some(n) = n { n == 0 } else { false },
        |n: i64| n == 1,
    );

    assert_eq!(expected, actual);
}

#[test]
fn test_with_previous() {
    let items: Vec<i64> = (0..10).collect();

    let expected = Some(9);
    let actual = find_with_previous(
        &items,
        |n: Option<i64>| if let Some(n) = n { n == 8 } else { false },
        |n: i64| n == 9,
    );

    assert_eq!(expected, actual);
}
