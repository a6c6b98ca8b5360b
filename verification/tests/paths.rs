use typsite::paths::{file_ext, join, lies_under, replace_extension, strip_root};
use typsite::text::{chars_of, contains, ends_with, list_contains, merge, merge_three, same_text};

#[test]
fn join_places_one_separator_between_base_and_rest() {
    assert_eq!(join("cache", "article"), "cache/article");
    assert_eq!(join("cache/", "article"), "cache/article");
    assert_eq!(join("", "article"), "article");
    assert_eq!(join("cache", ""), "cache/");
    assert_eq!(join("cache", "/abs/x"), "/abs/x");
    assert_eq!(join("a/b", "c/d.typ"), "a/b/c/d.typ");
}

#[test]
fn replace_extension_changes_the_last_extension_of_the_file_name() {
    assert_eq!(replace_extension("a/b.typ", "html"), "a/b.html");
    assert_eq!(replace_extension("a/b", "html"), "a/b.html");
    assert_eq!(replace_extension("a.b/c", "html"), "a.b/c.html");
    assert_eq!(replace_extension("a/b.tar.gz", "html"), "a/b.tar.html");
    assert_eq!(replace_extension("a/.hidden", "html"), "a/.hidden.html");
    assert_eq!(replace_extension("a/b.typ", ""), "a/b");
    assert_eq!(replace_extension("a/b.", "html"), "a/b.html");
    assert_eq!(replace_extension("a/", "html"), "a/");
    assert_eq!(replace_extension("", "html"), "");
    assert_eq!(replace_extension("a/..", "html"), "a/..");
    assert_eq!(replace_extension("naïve.typ", "html"), "naïve.html");
}

#[test]
fn file_ext_is_what_follows_the_last_dot_of_the_file_name() {
    assert_eq!(file_ext("a/b.typ"), Some("typ".to_string()));
    assert_eq!(file_ext("a/b.tar.gz"), Some("gz".to_string()));
    assert_eq!(file_ext("a/b."), Some("".to_string()));
    assert_eq!(file_ext("a/b"), None);
    assert_eq!(file_ext("a.b/c"), None);
    assert_eq!(file_ext(".hidden"), None);
    assert_eq!(file_ext(".."), None);
    assert_eq!(file_ext(""), None);
}

#[test]
fn strip_root_goes_by_whole_components() {
    assert_eq!(strip_root("root/a/b.typ", "root"), Some("a/b.typ".to_string()));
    assert_eq!(strip_root("root/a/b.typ", "root/"), Some("a/b.typ".to_string()));
    assert_eq!(strip_root("root", "root"), Some("".to_string()));
    assert_eq!(strip_root("a/b", ""), Some("a/b".to_string()));
    assert_eq!(strip_root("rooted/a", "root"), None);
    assert_eq!(strip_root("other/a", "root"), None);
    assert_eq!(strip_root("ro", "root"), None);
}

#[test]
fn lies_under_holds_for_the_root_and_what_is_below_it() {
    assert!(lies_under("assets/img/a.png", "assets"));
    assert!(lies_under("assets", "assets"));
    assert!(!lies_under("assets2/a.png", "assets"));
    assert!(!lies_under("x/assets/a.png", "assets"));
}

#[test]
fn text_is_compared_and_searched_by_characters() {
    assert!(same_text("abc", "abc"));
    assert!(!same_text("abc", "abd"));
    assert!(!same_text("abc", "ab"));
    assert!(ends_with("dir/options.toml", "options.toml"));
    assert!(!ends_with("options.toml.bak", "options.toml"));
    assert!(!ends_with("toml", "options.toml"));
    assert!(contains("a/components/b", "components/"));
    assert!(contains("abc", ""));
    assert!(contains("abc", "c"));
    assert!(!contains("a/component/b", "components/"));
    assert!(!contains("ab", "abc"));
    assert_eq!(chars_of("añb"), vec!['a', 'ñ', 'b']);
    assert_eq!(merge("ab", "cd"), "abcd");
    assert_eq!(merge_three("a", "/", "b"), "a/b");
    assert!(list_contains(&vec!["x".to_string(), "y".to_string()], "y"));
    assert!(!list_contains(&vec!["x".to_string(), "y".to_string()], "z"));
}
