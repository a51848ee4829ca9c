use relink::text::{contains_chars, str_contains, to_chars};

#[test]
fn to_chars_decodes_every_character() {
    assert_eq!(to_chars("a/é"), vec!['a', '/', 'é']);
    assert_eq!(to_chars(""), Vec::<char>::new());
}

#[test]
fn substring_in_the_middle_is_found() {
    assert!(str_contains("/site/blog/post.html", "blog/post"));
}

#[test]
fn substring_at_both_ends_is_found() {
    assert!(str_contains("/site/blog/post.html", "/site"));
    assert!(str_contains("/site/blog/post.html", ".html"));
    assert!(str_contains("/site/blog/post.html", "/site/blog/post.html"));
}

#[test]
fn missing_substring_is_not_found() {
    assert!(!str_contains("/site/blog/post.html", "missing-page"));
    assert!(!str_contains("/site/blog/post.html", "blog//post"));
}

#[test]
fn longer_needle_is_not_found() {
    assert!(!str_contains("post", "post.html"));
    assert!(!str_contains("", "a"));
}

#[test]
fn empty_needle_is_found_everywhere() {
    assert!(str_contains("/site/index.html", ""));
    assert!(str_contains("", ""));
}

#[test]
fn search_counts_characters_not_bytes() {
    assert!(str_contains("/site/café/menu.html", "é/menu"));
    assert!(!str_contains("/site/café/menu.html", "e/menu"));
    assert!(contains_chars(&to_chars("naïve.html"), &to_chars("ïve")));
}

#[test]
fn search_agrees_with_the_standard_library() {
    let hays = ["", "a", "aa", "aab", "abab", "/site/a/b.html", "ünï/cödé"];
    let needles = ["", "a", "b", "ab", "ba", "aab", "/b", "ödé", "x"];
    for hay in hays {
        for needle in needles {
            assert_eq!(str_contains(hay, needle), hay.contains(needle));
        }
    }
}
