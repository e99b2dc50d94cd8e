use web_bench_ui::labels::{extra_tag, find_char, split_label, str_eq, tab_label};

#[test]
fn database_label_splits_and_truncates() {
    assert_eq!(split_label("Postgres[v14-alpine]"), "Postgres");
    assert_eq!(
        extra_tag("Postgres[v14-alpine]"),
        Some(String::from("v14-alpi.."))
    );
}

#[test]
fn label_without_bracket_has_no_tag() {
    assert_eq!(split_label("Postgres"), "Postgres");
    assert_eq!(extra_tag("Postgres"), None);
}

#[test]
fn short_tag_is_kept_whole() {
    assert_eq!(extra_tag("MySQL[v8]"), Some(String::from("v8")));
}

#[test]
fn nine_character_tag_is_not_truncated() {
    assert_eq!(extra_tag("db[123456789]"), Some(String::from("123456789")));
}

#[test]
fn ten_character_tag_is_truncated() {
    assert_eq!(extra_tag("db[1234567890]"), Some(String::from("12345678..")));
}

#[test]
fn every_closing_bracket_is_dropped_from_the_tag() {
    assert_eq!(extra_tag("db[a]b]"), Some(String::from("ab")));
}

#[test]
fn empty_bracket_gives_an_empty_tag() {
    assert_eq!(extra_tag("db[]"), Some(String::from("")));
}

#[test]
fn webserver_label_is_stripped_at_the_bracket() {
    assert_eq!(split_label("actix[4.0]"), "actix");
    assert_eq!(split_label("[all-bracket]"), "");
}

#[test]
fn tab_captions_show_underscores_as_spaces() {
    assert_eq!(tab_label("users_insert"), "users insert");
    assert_eq!(tab_label("plain"), "plain");
    assert_eq!(tab_label("__"), "  ");
}

#[test]
fn find_char_returns_first_hit_or_length() {
    assert_eq!(find_char("abca", 'a'), 0);
    assert_eq!(find_char("abc", 'c'), 2);
    assert_eq!(find_char("abc", 'z'), 3);
    assert_eq!(find_char("", 'z'), 0);
}

#[test]
fn str_eq_compares_characters() {
    assert!(str_eq("", ""));
    assert!(str_eq("abc", "abc"));
    assert!(!str_eq("abc", "abd"));
    assert!(!str_eq("abc", "abcd"));
}
