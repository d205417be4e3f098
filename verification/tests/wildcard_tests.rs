use gdrive::remote::{ObjectKind, RemoteObject};
use gdrive::wildcard::{
    compile_wildcard, filter_matching, has_wildcard, match_names, select_marked, wildcard_to_regex,
};

fn named(name: &str) -> RemoteObject {
    RemoteObject {
        id: Some(format!("id-{}", name)),
        name: Some(name.to_string()),
        kind: ObjectKind::File,
        parents: vec!["p".to_string()],
        trashed: false,
    }
}

fn wildcard_matches(pattern: &str, name: &str) -> bool {
    let re = compile_wildcard(pattern).unwrap();
    filter_matching(&re, vec![named(name)]).len() == 1
}

#[test]
fn translation_anchors_the_pattern_at_both_ends() {
    assert_eq!(wildcard_to_regex(""), "^$");
    assert_eq!(wildcard_to_regex("abc"), "^abc$");
}

#[test]
fn translation_of_the_two_wildcards() {
    assert_eq!(wildcard_to_regex("*"), "^(?s:.)*$");
    assert_eq!(wildcard_to_regex("?"), "^(?s:.)$");
    assert_eq!(wildcard_to_regex("*.jpg"), "^(?s:.)*\\.jpg$");
    assert_eq!(wildcard_to_regex("?.txt"), "^(?s:.)\\.txt$");
}

#[test]
fn translation_escapes_every_special_character() {
    assert_eq!(
        wildcard_to_regex(".+()[]{}\\^$|"),
        "^\\.\\+\\(\\)\\[\\]\\{\\}\\\\\\^\\$\\|$"
    );
}

#[test]
fn translation_keeps_other_characters() {
    assert_eq!(wildcard_to_regex("a-b_c d#é"), "^a-b_c d#é$");
}

#[test]
fn has_wildcard_sees_both_wildcards() {
    assert!(has_wildcard("*.jpg"));
    assert!(has_wildcard("a?c"));
    assert!(has_wildcard("*"));
    assert!(!has_wildcard("plain.txt"));
    assert!(!has_wildcard(""));
    assert!(!has_wildcard("a.b+c"));
}

#[test]
fn star_dot_jpg() {
    assert!(wildcard_matches("*.jpg", "a.jpg"));
    assert!(wildcard_matches("*.jpg", ".jpg"));
    assert!(!wildcard_matches("*.jpg", "a.jpgx"));
}

#[test]
fn question_mark_dot_txt() {
    assert!(wildcard_matches("?.txt", "a.txt"));
    assert!(!wildcard_matches("?.txt", "ab.txt"));
    assert!(!wildcard_matches("?.txt", ".txt"));
}

#[test]
fn special_characters_match_themselves_only() {
    assert!(wildcard_matches("a.b*", "a.b"));
    assert!(!wildcard_matches("a.b*", "axb"));
    assert!(wildcard_matches("a+b*", "a+b"));
    assert!(!wildcard_matches("a+b*", "aab"));
    assert!(wildcard_matches("(x)*", "(x)"));
    assert!(!wildcard_matches("(x)*", "x"));
    assert!(wildcard_matches("[ab]?", "[ab]c"));
    assert!(!wildcard_matches("[ab]?", "ac"));
    assert!(wildcard_matches("a|b*", "a|b"));
    assert!(!wildcard_matches("a|b*", "a"));
    assert!(wildcard_matches("^a$*", "^a$"));
    assert!(wildcard_matches("{1}*", "{1}"));
    assert!(wildcard_matches("a\\b*", "a\\b"));
}

#[test]
fn a_match_is_of_the_whole_name() {
    assert!(!wildcard_matches("b*", "abc"));
    assert!(!wildcard_matches("*b", "abc"));
    assert!(wildcard_matches("*b*", "abc"));
    assert!(wildcard_matches("a*c", "ac"));
    assert!(wildcard_matches("a*c", "abbbc"));
}

#[test]
fn every_translation_compiles() {
    for pattern in ["*", "?", "*.jpg", ".+()[]{}\\^$|*", "a-b*", "été?", "#&~*"] {
        assert!(compile_wildcard(pattern).is_ok(), "{} should compile", pattern);
    }
}

#[test]
fn filter_keeps_the_order_of_the_listing() {
    let re = compile_wildcard("*.jpg").unwrap();
    let listed = vec![named("z.jpg"), named("b.txt"), named("a.jpg"), named("m.jpg")];
    let kept: Vec<String> =
        filter_matching(&re, listed).into_iter().map(|o| o.name.unwrap()).collect();
    assert_eq!(kept, vec!["z.jpg".to_string(), "a.jpg".to_string(), "m.jpg".to_string()]);
}

#[test]
fn match_names_marks_each_object() {
    let re = compile_wildcard("?.txt").unwrap();
    let mut nameless = named("x");
    nameless.name = None;
    let listed = vec![named("a.txt"), named("ab.txt"), nameless, named("b.txt")];
    assert_eq!(match_names(&re, &listed), vec![true, false, false, true]);
}

#[test]
fn select_marked_keeps_what_is_marked() {
    let listed = vec![named("a"), named("b"), named("c")];
    let kept = select_marked(listed.clone(), &vec![true, false, true]);
    assert_eq!(kept, vec![named("a"), named("c")]);
    let kept = select_marked(listed.clone(), &vec![false, true]);
    assert_eq!(kept, vec![named("b")]);
    let kept = select_marked(listed, &Vec::new());
    assert_eq!(kept, Vec::new());
}

#[test]
fn wildcards_match_any_character() {
    assert!(wildcard_matches("a?b", "a\nb"));
    assert!(wildcard_matches("a*b", "a\n\nb"));
    assert!(wildcard_matches("?", "\n"));
    assert!(wildcard_matches("*", "\r\n"));
    assert!(wildcard_matches("?", "é"));
    assert!(!wildcard_matches("?", "\n\n"));
    assert!(!wildcard_matches("a", "a\n"));
    assert!(!wildcard_matches("a*", "\na"));
}
