use gdrive::path::{file_name, join_path, parse_path, split_destination};
use gdrive::text::{chars_of, has_prefix};

fn texts(items: &[&str]) -> Vec<String> {
    items.iter().map(|s| s.to_string()).collect()
}

#[test]
fn parse_path_splits_on_slashes() {
    assert_eq!(parse_path("a/b/c"), texts(&["a", "b", "c"]));
}

#[test]
fn parse_path_ignores_leading_trailing_and_repeated_slashes() {
    assert_eq!(parse_path("/a//b/"), texts(&["a", "b"]));
    assert_eq!(parse_path("///a///"), texts(&["a"]));
}

#[test]
fn parse_path_of_empty_text_has_no_segment() {
    assert_eq!(parse_path(""), Vec::<String>::new());
}

#[test]
fn parse_path_of_slashes_alone_has_no_segment() {
    assert_eq!(parse_path("/"), Vec::<String>::new());
    assert_eq!(parse_path("////"), Vec::<String>::new());
}

#[test]
fn parse_path_keeps_other_characters() {
    assert_eq!(parse_path("/My Drive/été/*.jpg"), texts(&["My Drive", "été", "*.jpg"]));
}

#[test]
fn join_path_puts_single_slashes_between_segments() {
    assert_eq!(join_path(&texts(&["a", "b", "c"])), "a/b/c");
    assert_eq!(join_path(&texts(&["a"])), "a");
    assert_eq!(join_path(&Vec::new()), "");
}

#[test]
fn join_then_parse_gives_the_segments_back() {
    let segments = texts(&["x", "y z", "w.txt"]);
    assert_eq!(parse_path(&join_path(&segments)), segments);
}

#[test]
fn file_name_is_the_last_segment() {
    assert_eq!(file_name("/tmp/dir/a.txt"), Some("a.txt".to_string()));
    assert_eq!(file_name("a.txt"), Some("a.txt".to_string()));
    assert_eq!(file_name("/tmp/dir/"), Some("dir".to_string()));
}

#[test]
fn file_name_of_a_path_without_segments_is_none() {
    assert_eq!(file_name(""), None);
    assert_eq!(file_name("/"), None);
}

#[test]
fn split_destination_takes_the_last_segment_as_name() {
    let (folder, name) = split_destination("/x/y/z.txt");
    assert_eq!(folder, texts(&["x", "y"]));
    assert_eq!(name, Some("z.txt".to_string()));
}

#[test]
fn split_destination_with_trailing_slash_names_a_folder() {
    let (folder, name) = split_destination("/x/y/");
    assert_eq!(folder, texts(&["x", "y"]));
    assert_eq!(name, None);
}

#[test]
fn split_destination_of_a_bare_name_goes_to_the_root() {
    let (folder, name) = split_destination("z.txt");
    assert_eq!(folder, Vec::<String>::new());
    assert_eq!(name, Some("z.txt".to_string()));
}

#[test]
fn split_destination_of_the_root() {
    assert_eq!(split_destination("/"), (Vec::new(), None));
    assert_eq!(split_destination(""), (Vec::new(), None));
}

#[test]
fn has_prefix_compares_from_the_start() {
    assert!(has_prefix("abc", "ab"));
    assert!(has_prefix("abc", "abc"));
    assert!(has_prefix("abc", ""));
    assert!(has_prefix("", ""));
    assert!(!has_prefix("abc", "abcd"));
    assert!(!has_prefix("abc", "bc"));
    assert!(!has_prefix("", "a"));
    assert_eq!(chars_of("aé\n"), vec!['a', 'é', '\n']);
}
