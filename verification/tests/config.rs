use site::config::{Config, Language, Mode, TaxonomyConfig};
use site::paths::{file_name, index_filename, join_path, section_path_of};

fn config(base_url: &str) -> Config {
    Config {
        base_url: base_url.to_string(),
        theme: None,
        default_language: "en".to_string(),
        languages: Vec::new(),
        generate_feed: false,
        feed_filename: "atom.xml".to_string(),
        hard_link_static: false,
        taxonomies: Vec::new(),
        compile_sass: false,
        build_search_index: false,
        minify_html: false,
        mode: Mode::Build,
    }
}

#[test]
fn permalink_joins_with_one_slash_and_ends_with_one() {
    let plain = config("https://example.org");
    assert_eq!(plain.make_permalink("blog"), "https://example.org/blog/");
    assert_eq!(plain.make_permalink("/blog"), "https://example.org/blog/");
    assert_eq!(plain.make_permalink("blog/"), "https://example.org/blog/");
    assert_eq!(plain.make_permalink("/"), "https://example.org/");
    assert_eq!(plain.make_permalink(""), "https://example.org/");
    let slashed = config("https://example.org/");
    assert_eq!(slashed.make_permalink("blog"), "https://example.org/blog/");
    assert_eq!(slashed.make_permalink("/blog"), "https://example.org/blog/");
    assert_eq!(slashed.make_permalink("/"), "https://example.org/");
    assert_eq!(slashed.make_permalink(""), "https://example.org/");
}

#[test]
fn permalink_of_the_feed_has_no_slash_at_the_end() {
    let plain = config("https://example.org");
    assert_eq!(plain.make_permalink("atom.xml"), "https://example.org/atom.xml");
    assert_eq!(plain.make_permalink("fr/atom.xml"), "https://example.org/fr/atom.xml");
    assert_eq!(plain.make_permalink("sitemap1.xml"), "https://example.org/sitemap1.xml/");
}

#[test]
fn modes_and_languages() {
    let mut c = config("https://example.org");
    assert!(!c.is_multilingual());
    assert!(!c.is_in_check_mode());
    c.languages.push(Language { code: "fr".to_string(), feed: true, search: false });
    assert!(c.is_multilingual());
    c.mode = Mode::Check;
    assert!(c.is_in_check_mode());
    c.enable_serve_mode();
    assert_eq!(c.mode, Mode::Serve);
    assert!(!c.is_in_check_mode());
}

#[test]
fn taxonomy_is_paginated_by_a_positive_size() {
    let mut kind = TaxonomyConfig {
        name: "tags".to_string(),
        slug: "tags".to_string(),
        paginate_by: None,
        paginate_path: "page".to_string(),
        feed: false,
        lang: "en".to_string(),
    };
    assert!(!kind.is_paginated());
    kind.paginate_by = Some(0);
    assert!(!kind.is_paginated());
    kind.paginate_by = Some(2);
    assert!(kind.is_paginated());
    let copy = kind.duplicate();
    assert_eq!(copy.name, "tags");
    assert_eq!(copy.paginate_by, Some(2));
}

#[test]
fn paths_of_directories_and_index_files() {
    assert_eq!(join_path("site/content", "_index.md"), "site/content/_index.md");
    assert_eq!(join_path("site/content/", "_index.md"), "site/content/_index.md");
    assert_eq!(join_path("", "_index.md"), "_index.md");
    assert_eq!(index_filename("en", "en"), "_index.md");
    assert_eq!(index_filename("fr", "en"), "_index.fr.md");
    assert_eq!(section_path_of("site/content/blog", "fr", "en"), "site/content/blog/_index.fr.md");
    assert_eq!(section_path_of("site/content/blog", "en", "en"), "site/content/blog/_index.md");
    assert_eq!(file_name("site/content/blog/image.png"), "image.png");
    assert_eq!(file_name("image.png"), "image.png");
    assert_eq!(file_name("dir/"), "");
}
