use site::text::{decimal_string, drop_first_char, drop_last_char, ends_with, join_with, rfind, split_on, starts_with, trim_start_matches};

#[test]
fn split_keeps_empty_pieces() {
    assert_eq!(split_on("blog/post/", '/'), vec!["blog".to_string(), "post".to_string(), String::new()]);
    assert_eq!(split_on("", '/'), vec![String::new()]);
    assert_eq!(split_on("/a", '/'), vec![String::new(), "a".to_string()]);
    assert_eq!(split_on("no-separator", '/'), vec!["no-separator".to_string()]);
}

#[test]
fn join_puts_separator_between_neighbours() {
    let parts = vec!["a".to_string(), "b".to_string(), "c".to_string()];
    assert_eq!(join_with(&parts, "/"), "a/b/c");
    assert_eq!(join_with(&Vec::new(), "/"), "");
    assert_eq!(join_with(&vec!["only".to_string()], "/"), "only");
}

#[test]
fn rfind_gives_rightmost_character_position() {
    assert_eq!(rfind("<body>x</body></body>", "</body>"), Some(14));
    assert_eq!(rfind("héllo</body>", "</body>"), Some(5));
    assert_eq!(rfind("nothing here", "</body>"), None);
    assert_eq!(rfind("ab", "abc"), None);
}

#[test]
fn prefix_and_suffix_tests() {
    assert!(starts_with("_index.md", "_index."));
    assert!(!starts_with("index.md", "_index."));
    assert!(starts_with("anything", ""));
    assert!(ends_with("page.html", "html"));
    assert!(!ends_with("page.htm", "html"));
    assert!(!ends_with("l", "html"));
}

#[test]
fn trimming_and_dropping() {
    assert_eq!(trim_start_matches("///a/b", '/'), "a/b");
    assert_eq!(trim_start_matches("a/b", '/'), "a/b");
    assert_eq!(trim_start_matches("//", '/'), "");
    assert_eq!(drop_last_char("https://x.org/sitemap1.xml/"), "https://x.org/sitemap1.xml");
    assert_eq!(drop_last_char(""), "");
    assert_eq!(drop_first_char("/blog/"), "blog/");
    assert_eq!(drop_first_char(""), "");
}

#[test]
fn decimal_text_of_numbers() {
    assert_eq!(decimal_string(0), "0");
    assert_eq!(decimal_string(7), "7");
    assert_eq!(decimal_string(10), "10");
    assert_eq!(decimal_string(30001), "30001");
}
