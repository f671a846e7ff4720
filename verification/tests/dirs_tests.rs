use combine_files::dirs::parse_dirs;

#[test]
fn single_dir_is_kept_whole() {
    assert_eq!(parse_dirs("/project"), vec!["/project".to_string()]);
}

#[test]
fn commas_split_and_spaces_trim() {
    assert_eq!(
        parse_dirs(" src , tests,docs "),
        vec!["src".to_string(), "tests".to_string(), "docs".to_string()]
    );
}

#[test]
fn tabs_and_newlines_trim_too() {
    assert_eq!(
        parse_dirs("\ta\n,\r b \t"),
        vec!["a".to_string(), "b".to_string()]
    );
}

#[test]
fn empty_option_is_one_empty_segment() {
    assert_eq!(parse_dirs(""), vec!["".to_string()]);
}

#[test]
fn empty_segments_survive_splitting() {
    assert_eq!(
        parse_dirs("a,,b,"),
        vec!["a".to_string(), "".to_string(), "b".to_string(), "".to_string()]
    );
}

#[test]
fn inner_spaces_are_kept() {
    assert_eq!(
        parse_dirs("my dir, other dir"),
        vec!["my dir".to_string(), "other dir".to_string()]
    );
}
