use binary_locator::{search_directories, POSIX_SEPARATOR, WINDOWS_SEPARATOR};

#[test]
fn unset_variable_names_no_directory() {
    assert_eq!(search_directories(None, ':'), Vec::<String>::new());
}

#[test]
fn empty_variable_names_no_directory() {
    assert_eq!(search_directories(Some(""), ':'), Vec::<String>::new());
}

#[test]
fn single_directory() {
    assert_eq!(search_directories(Some("/usr/bin"), ':'), vec!["/usr/bin".to_string()]);
}

#[test]
fn two_directories_keep_their_order() {
    assert_eq!(
        search_directories(Some("/usr/bin:/bin"), ':'),
        vec!["/usr/bin".to_string(), "/bin".to_string()]
    );
}

#[test]
fn adjacent_separators_enclose_an_empty_piece() {
    assert_eq!(
        search_directories(Some("a::b"), ':'),
        vec!["a".to_string(), String::new(), "b".to_string()]
    );
}

#[test]
fn leading_and_trailing_separators() {
    assert_eq!(
        search_directories(Some(":a:"), ':'),
        vec![String::new(), "a".to_string(), String::new()]
    );
}

#[test]
fn lone_separator_gives_two_empty_pieces() {
    assert_eq!(search_directories(Some(":"), ':'), vec![String::new(), String::new()]);
}

#[test]
fn pieces_are_cut_by_characters_not_bytes() {
    assert_eq!(
        search_directories(Some("/opt/caf\u{e9}/bin:/\u{4e8c}"), ':'),
        vec!["/opt/caf\u{e9}/bin".to_string(), "/\u{4e8c}".to_string()]
    );
}

#[test]
fn joining_the_pieces_gives_the_value_back() {
    let value = "/usr/local/bin:/usr/bin::/bin:";
    let dirs = search_directories(Some(value), ':');
    assert_eq!(dirs.len(), 5);
    assert_eq!(dirs.join(":"), value);
    assert!(dirs.iter().all(|d| !d.contains(':')));
}

#[test]
fn known_separators() {
    assert_eq!(POSIX_SEPARATOR, ':');
    assert_eq!(WINDOWS_SEPARATOR, ';');
}

#[test]
fn semicolon_separated_value_is_cut_at_semicolons() {
    assert_eq!(
        search_directories(Some("a;b"), WINDOWS_SEPARATOR),
        vec!["a".to_string(), "b".to_string()]
    );
}

#[test]
fn drive_letters_stay_whole_under_the_semicolon() {
    assert_eq!(
        search_directories(Some("C:\\Windows\\System32;C:\\Windows"), WINDOWS_SEPARATOR),
        vec!["C:\\Windows\\System32".to_string(), "C:\\Windows".to_string()]
    );
}

#[test]
fn the_other_separator_is_an_ordinary_character() {
    assert_eq!(search_directories(Some("a;b"), POSIX_SEPARATOR), vec!["a;b".to_string()]);
    assert_eq!(search_directories(Some("a:b"), WINDOWS_SEPARATOR), vec!["a:b".to_string()]);
}

#[test]
fn unset_or_empty_names_no_directory_under_any_separator() {
    for separator in [':', ';', ','] {
        assert!(search_directories(None, separator).is_empty());
        assert!(search_directories(Some(""), separator).is_empty());
    }
}
