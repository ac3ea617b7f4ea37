use r3dy::fspath::{display_relative, has_extension, with_extension};
use r3dy::text::{eq_ignore_ascii_case, str_eq, str_le, usize_to_string};

#[test]
fn extension_matches_exactly() {
    assert!(has_extension("/r/a/x.NEV", "NEV"));
    assert!(has_extension("clip.R3D", "R3D"));
    assert!(!has_extension("/r/a/x.NEV", "R3D"));
}

#[test]
fn extension_matches_ignoring_ascii_case() {
    assert!(has_extension("/r/a/x.nev", "NEV"));
    assert!(has_extension("/r/a/x.Nev", "NEV"));
    assert!(has_extension("/r/a/x.NEV", "nev"));
}

#[test]
fn missing_extension_matches_nothing() {
    assert!(!has_extension("/r/a/noext", "NEV"));
    assert!(!has_extension("/r/a/", "NEV"));
    assert!(!has_extension("", "NEV"));
}

#[test]
fn leading_dot_name_has_no_extension() {
    assert!(!has_extension("/r/.NEV", "NEV"));
    assert!(has_extension("/r/.hidden.NEV", "NEV"));
}

#[test]
fn only_last_extension_component_counts() {
    assert!(has_extension("/r/a.tar.NEV", "NEV"));
    assert!(!has_extension("/r/a.NEV.bak", "NEV"));
}

#[test]
fn dot_in_directory_does_not_count() {
    assert!(!has_extension("/r/dir.NEV/file", "NEV"));
}

#[test]
fn with_extension_replaces_suffix() {
    assert_eq!(with_extension("/r/a/x.NEV", "R3D"), "/r/a/x.R3D");
    assert_eq!(with_extension("x.nev", "R3D"), "x.R3D");
    assert_eq!(with_extension("/r/a.tar.NEV", "R3D"), "/r/a.tar.R3D");
}

#[test]
fn with_extension_appends_when_none() {
    assert_eq!(with_extension("/r/a/noext", "R3D"), "/r/a/noext.R3D");
    assert_eq!(with_extension("/r/.hidden", "R3D"), "/r/.hidden.R3D");
    assert_eq!(with_extension("/r/a/x.", "R3D"), "/r/a/x.R3D");
}

#[test]
fn display_relative_strips_root() {
    assert_eq!(display_relative("/r", "/r/a/x.NEV"), "a/x.NEV");
    assert_eq!(display_relative("/r/a", "/r/a/x.NEV"), "x.NEV");
}

#[test]
fn display_relative_of_root_itself_is_empty() {
    assert_eq!(display_relative("/r", "/r"), "");
}

#[test]
fn display_relative_keeps_unrelated_paths_whole() {
    assert_eq!(display_relative("/r", "/rx/y.NEV"), "/rx/y.NEV");
    assert_eq!(display_relative("/r/a", "/r"), "/r");
}

#[test]
fn display_relative_handles_slash_root() {
    assert_eq!(display_relative("/", "/x.NEV"), "x.NEV");
}

#[test]
fn string_equality_is_character_exact() {
    assert!(str_eq("abc", "abc"));
    assert!(!str_eq("abc", "abd"));
    assert!(!str_eq("abc", "ab"));
    assert!(str_eq("", ""));
}

#[test]
fn case_insensitive_equality_is_ascii_only() {
    assert!(eq_ignore_ascii_case("NeV", "nEv"));
    assert!(!eq_ignore_ascii_case("NEV", "NE"));
    assert!(!eq_ignore_ascii_case("NEV", "REV"));
}

#[test]
fn lexicographic_order_on_strings() {
    assert!(str_le("a", "b"));
    assert!(!str_le("b", "a"));
    assert!(str_le("a", "a"));
    assert!(str_le("a", "ab"));
    assert!(!str_le("ab", "a"));
    assert!(str_le("", "a"));
    assert!(str_le("/r/a/x.NEV", "/r/a/y.NEV"));
}

#[test]
fn counts_render_in_decimal() {
    assert_eq!(usize_to_string(0), "0");
    assert_eq!(usize_to_string(7), "7");
    assert_eq!(usize_to_string(10), "10");
    assert_eq!(usize_to_string(1234), "1234");
    assert_eq!(usize_to_string(1000), "1000");
}
