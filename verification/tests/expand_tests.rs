use wrash::argv::error::ArgumentError;
use wrash::argv::expand::{
    expand, expand_filenames, expand_quotes, expand_tilde, expand_vars, is_pattern, split_words,
};

fn no_env() -> Vec<(String, String)> {
    Vec::new()
}

fn no_fs() -> Vec<String> {
    Vec::new()
}

#[test]
fn test_simple() {
    let expected = Ok("HOME".to_string());
    let actual = expand_tilde("~", Some("HOME"));

    assert_eq!(expected, actual);
}

#[test]
fn test_simple_with_child() {
    let expected = Ok("HOME/a".to_string());
    let actual = expand_tilde("~/a", Some("HOME"));

    assert_eq!(expected, actual);
}

#[test]
fn test_quoted() {
    let expected = Ok("'~'/a".to_string());
    let actual = expand_tilde("'~'/a", Some("HOME"));

    assert_eq!(expected, actual);
}

#[test]
fn test_escaped() {
    let expected = Ok("~/a".to_string());
    let actual = expand_tilde("\\~/a", Some("HOME"));

    assert_eq!(expected, actual);
}

#[test]
fn test_no_home() {
    let expected = Ok("~".to_string());
    let actual = expand_tilde("~", None);

    assert_eq!(expected, actual);
}

#[test]
fn test_tilde_unterminated_quote() {
    let expected = Err(ArgumentError::UnterminatedSequence('\''));
    let actual = expand_tilde("'a ~", Some("HOME"));

    assert_eq!(expected, actual);
}

#[test]
fn test_tilde_trailing_backslash() {
    let expected = Err(ArgumentError::UnterminatedSequence('\\'));
    let actual = expand_tilde("~a\\", Some("HOME"));

    assert_eq!(expected, actual);
}

#[test]
fn test_no_vars() {
    let expected = Ok("abcd".to_string());
    let actual = expand_vars("abcd", &no_env());

    assert_eq!(expected, actual);
}

#[test]
fn test_var_unset_is_empty() {
    let expected = Ok("".to_string());
    let actual = expand_vars("$A", &no_env());

    assert_eq!(expected, actual);
}

#[test]
fn test_var_with_curly_set() {
    let env = vec![("A".to_string(), "a".to_string())];

    let expected = Ok("a".to_string());
    let actual = expand_vars("${A}", &env);

    assert_eq!(expected, actual);
}

#[test]
fn test_var_suppressed_in_single_quotes() {
    let env = vec![("A".to_string(), "a".to_string())];

    let expected = Ok("'${A}'".to_string());
    let actual = expand_vars("'${A}'", &env);

    assert_eq!(expected, actual);
}

#[test]
fn test_var_bare_with_trailing_bang() {
    let env = vec![("A".to_string(), "a".to_string())];

    let expected = Ok("a!".to_string());
    let actual = expand_vars("$A!", &env);

    assert_eq!(expected, actual);
}

#[test]
fn test_var_in_double_quotes_expands() {
    let env = vec![("A".to_string(), "a".to_string())];

    let expected = Ok("\"a\"".to_string());
    let actual = expand_vars("\"${A}\"", &env);

    assert_eq!(expected, actual);
}

#[test]
fn test_var_trailing_dollar() {
    let expected = Err(ArgumentError::UnterminatedSequence('$'));
    let actual = expand_vars("a$", &no_env());

    assert_eq!(expected, actual);
}

#[test]
fn test_var_unclosed_brace() {
    let expected = Err(ArgumentError::UnterminatedSequence('{'));
    let actual = expand_vars("${A", &no_env());

    assert_eq!(expected, actual);
}

#[test]
fn test_one_word() {
    let expected = vec!["a"];
    let actual = split_words("a");

    assert_eq!(expected, actual);
}

#[test]
fn test_with_space() {
    let expected = vec!["a", "b"];
    let actual = split_words("a b");

    assert_eq!(expected, actual);
}

#[test]
fn test_with_tab() {
    let expected = vec!["a", "b"];
    let actual = split_words("a\tb");

    assert_eq!(expected, actual);
}

#[test]
fn test_with_trailing_delimiter() {
    let expected = vec!["a", "b"];
    let actual = split_words("a b ");

    assert_eq!(expected, actual);
}

#[test]
fn test_with_extra_delimiter() {
    let expected = vec!["a", "b"];
    let actual = split_words("a  b");

    assert_eq!(expected, actual);
}

#[test]
fn test_ignore_in_quotes() {
    let expected = vec!["'a b'"];
    let actual = split_words("'a b'");

    assert_eq!(expected, actual);
}

#[test]
fn test_ignore_escaped() {
    let expected = vec!["a\\ b"];
    let actual = split_words("a\\ b");

    assert_eq!(expected, actual);
}

#[test]
fn test_is_pattern_star() {
    assert!(is_pattern("a*b"));
    assert!(is_pattern("a?b"));
    assert!(is_pattern("a[b"));
    assert!(!is_pattern("ab"));
    assert!(!is_pattern("a\\*b"));
}

#[test]
fn test_filenames_match_replaces_word() {
    let fs = vec!["abc".to_string(), "axc".to_string(), "xyz".to_string()];

    let expected = vec!["abc".to_string(), "axc".to_string()];
    let actual = expand_filenames(vec!["a*c".to_string()], &fs);

    assert_eq!(expected, actual);
}

#[test]
fn test_filenames_no_match_keeps_literal() {
    let fs = vec!["xyz".to_string()];

    let expected = vec!["a*c".to_string()];
    let actual = expand_filenames(vec!["a*c".to_string()], &fs);

    assert_eq!(expected, actual);
}

#[test]
fn test_filenames_plain_word_passes() {
    let fs = vec!["abc".to_string()];

    let expected = vec!["plain".to_string()];
    let actual = expand_filenames(vec!["plain".to_string()], &fs);

    assert_eq!(expected, actual);
}

#[test]
fn test_filenames_bad_pattern_dropped() {
    let fs = vec!["abc".to_string()];

    let expected: Vec<String> = vec![];
    let actual = expand_filenames(vec!["a***c".to_string()], &fs);

    assert_eq!(expected, actual);
}

#[test]
fn test_expand_single() {
    let expected = Ok(vec!["abc".to_string()]);
    let actual = expand_quotes(vec!["a'b'c".to_string()]);

    assert_eq!(expected, actual);
}

#[test]
fn test_expand_double() {
    let expected = Ok(vec!["abc".to_string()]);
    let actual = expand_quotes(vec!["a\"b\"c".to_string()]);

    assert_eq!(expected, actual);
}

#[test]
fn test_single_quote_inside_double() {
    let expected = Ok(vec!["a'bc".to_string()]);
    let actual = expand_quotes(vec!["a\"'\"bc".to_string()]);

    assert_eq!(expected, actual);
}

#[test]
fn test_single_escaped_quote_inside_double() {
    let expected = Ok(vec!["a\"bc".to_string()]);
    let actual = expand_quotes(vec!["a\"\\\"\"bc".to_string()]);

    assert_eq!(expected, actual);
}

#[test]
fn test_expand_escaped_quote() {
    let expected = Ok(vec!["a'bc".to_string()]);
    let actual = expand_quotes(vec!["a\\'bc".to_string()]);

    assert_eq!(expected, actual);
}

#[test]
fn test_quoted_glob_character() {
    let expected = Ok(vec!["a*b".to_string()]);
    let actual = expand_quotes(vec!["a'*'b".to_string()]);

    assert_eq!(expected, actual);
}

#[test]
fn test_unterminated_quote() {
    let expected = Err(ArgumentError::UnterminatedSequence('\''));
    let actual = expand_quotes(vec!["cmd a 'b c".to_string()]);

    assert_eq!(expected, actual);
}

#[test]
fn test_unterminated_double_quote() {
    let expected = Err(ArgumentError::UnterminatedSequence('"'));
    let actual = expand_quotes(vec!["cmd a \"b c".to_string()]);

    assert_eq!(expected, actual);
}

#[test]
fn test_invalid_escape() {
    let expected = Err(ArgumentError::InvalidEscape('n'));
    let actual = expand_quotes(vec!["a\\nb".to_string()]);

    assert_eq!(expected, actual);
}

#[test]
fn test_trailing_backslash() {
    let expected = Err(ArgumentError::UnexpectedEndOfLine);
    let actual = expand_quotes(vec!["ab\\".to_string()]);

    assert_eq!(expected, actual);
}

#[test]
fn test_expand_mid_word_quotes() {
    let source = "a'_'file";

    let expected = vec!["a_file".to_string()];
    let actual = expand(source, None, &no_env(), &no_fs()).unwrap();

    assert_eq!(expected, actual);
}

#[test]
fn test_expand_plain_line_is_split() {
    let source = "cmd a  b ";

    let expected = Ok(vec!["cmd".to_string(), "a".to_string(), "b".to_string()]);
    let actual = expand(source, Some("HOME"), &no_env(), &no_fs());

    assert_eq!(expected, actual);
}

#[test]
fn test_expand_composition() {
    let env = vec![("A".to_string(), "x y".to_string())];
    let fs = vec!["x1".to_string(), "x2".to_string()];

    let expected = Ok(vec![
        "HOME".to_string(),
        "x".to_string(),
        "y".to_string(),
        "x1".to_string(),
        "x2".to_string(),
    ]);
    let actual = expand("~ $A x*", Some("HOME"), &env, &fs);

    assert_eq!(expected, actual);
}

#[test]
fn test_error_messages() {
    assert_eq!(
        "received unterminated '\'' sequence".to_string(),
        ArgumentError::UnterminatedSequence('\'').message()
    );
    assert_eq!(
        "received unexpected end of line".to_string(),
        ArgumentError::UnexpectedEndOfLine.message()
    );
    assert_eq!(
        "received invalid escape character 'n'".to_string(),
        ArgumentError::InvalidEscape('n').message()
    );
    assert_eq!(
        "received unexpected character 'x'".to_string(),
        ArgumentError::UnexpectedCharacter('x').message()
    );
}
