use wrash::completion::{
    get_tab_completions, merge_prefix_with_completion, search_path, search_prefix, FsEntry,
};

fn fs_entry(path: &str, is_dir: bool, is_executable: bool) -> FsEntry {
    FsEntry { path: path.to_string(), is_dir, is_executable }
}

/// The resource tree the completion lookups are tried against: two
/// directories of files, some of them executable, as a listing.
fn resources() -> Vec<FsEntry> {
    vec![
        fs_entry("tests/resources/a_directory/a_file", false, true),
        fs_entry("tests/resources/a_directory/another_file", false, false),
        fs_entry("tests/resources/a_directory/directory", true, false),
        fs_entry("tests/resources/a_directory/directory/a_child", false, false),
        fs_entry("tests/resources/a_directory/some_other_file", false, false),
        fs_entry("tests/resources/some_other_directory/a_final_file", false, true),
        fs_entry("tests/resources/some_other_directory/yet_another_file", false, false),
    ]
}

#[test]
fn test_on_path() {
    let new_path = vec![
        "tests/resources/a_directory",
        "tests/resources/some_other_directory",
    ]
    .join(":");

    let actual = search_path("a", new_path.as_str(), &resources());

    let expected = vec!["a_file".to_string(), "a_final_file".to_string()];
    assert_eq!(expected, actual);
}

#[test]
fn test_on_path_skips_non_executables() {
    let actual = search_path("some", "tests/resources/a_directory", &resources());

    let expected: Vec<String> = vec![];
    assert_eq!(expected, actual);
}

#[test]
fn test_search_dir_empty_prefix() {
    let dir_path = "tests/resources/a_directory/";

    let actual = search_prefix(dir_path, &resources()).unwrap();

    let expected = vec![
        "tests/resources/a_directory/a_file".to_string(),
        "tests/resources/a_directory/another_file".to_string(),
        "tests/resources/a_directory/directory".to_string(),
        "tests/resources/a_directory/some_other_file".to_string(),
    ];
    assert_eq!(expected, actual);
}

#[test]
fn test_search_dir_with_common_prefix() {
    let actual = search_prefix("tests/resources/a_directory/a", &resources()).unwrap();

    let expected = vec![
        "tests/resources/a_directory/a_file".to_string(),
        "tests/resources/a_directory/another_file".to_string(),
    ];
    assert_eq!(expected, actual);
}

#[test]
fn test_search_dir_with_directory() {
    let prefix_path = "tests/resources/a_directory/directory/a";

    let actual = search_prefix(prefix_path, &resources()).unwrap();

    let expected = vec!["tests/resources/a_directory/directory/a_child".to_string()];
    assert_eq!(expected, actual);
}

#[test]
fn test_search_prefix_restores_cur_dir() {
    let fs = vec![fs_entry("a_file", false, false), fs_entry("b_file", false, false)];

    let actual = search_prefix("./a", &fs).unwrap();

    let expected = vec!["./a_file".to_string()];
    assert_eq!(expected, actual);
}

#[test]
fn test_search_prefix_bad_pattern() {
    assert_eq!(None, search_prefix("a***", &resources()));
}

#[test]
fn test_merge_prefix_with_completion() {
    assert_eq!(
        Some("./a_file".to_string()),
        merge_prefix_with_completion("./a*", "a_file")
    );
    assert_eq!(None, merge_prefix_with_completion("a*", "a_file"));
}

#[test]
fn test_tab_completions_argument_word() {
    let fs = vec![
        fs_entry("a_file", false, false),
        fs_entry("another_file", false, false),
        fs_entry("directory", true, false),
        fs_entry("some_other_file", false, false),
    ];

    let actual = get_tab_completions("a", false, "", &fs);

    let expected = vec!["a_file".to_string(), "another_file".to_string()];
    assert_eq!(expected, actual);
}

#[test]
fn test_tab_completions_bare_command_searches_path() {
    let fs = vec![
        fs_entry("a_file", false, true),
        fs_entry("directory", true, false),
        fs_entry("bin/a_tool", false, true),
        fs_entry("bin/a_text", false, false),
    ];

    let actual = get_tab_completions("a", true, "bin", &fs);

    // the directory from the working directory, then the executable found
    // on the search path, as a base name
    let expected: Vec<String> = vec!["a_tool".to_string()];
    assert_eq!(expected, actual);

    let actual_empty_prefix = get_tab_completions("", true, "bin", &fs);
    let expected_empty_prefix = vec!["directory".to_string(), "a_tool".to_string()];
    assert_eq!(expected_empty_prefix, actual_empty_prefix);
}

#[test]
fn test_tab_completions_command_with_parent() {
    let fs = vec![
        fs_entry("bin/a_tool", false, true),
        fs_entry("bin/a_text", false, false),
    ];

    let actual = get_tab_completions("bin/a", true, "", &fs);

    let expected = vec!["bin/a_tool".to_string()];
    assert_eq!(expected, actual);
}
