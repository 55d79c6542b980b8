use site::config::{Config, Language, Mode, TaxonomyConfig};
use site::content::{FileInfo, InsertAnchor, Page, PageMeta, Section, SectionMeta, TermLabel, TermList};
use site::output::{Output, OutputFile};
use site::pagination::Paginator;
use site::pipeline::search_index_script;
use site::plan::{first_step, next_step, FeedScope, PaginationRoot, SitemapEntry, Source, Step};
use site::paths::segments_of;
use site::site::Site;
use site::sitemap::SITEMAP_LIMIT;

fn config() -> Config {
    Config {
        base_url: "https://example.org".to_string(),
        theme: None,
        default_language: "en".to_string(),
        languages: Vec::new(),
        generate_feed: false,
        feed_filename: "atom.xml".to_string(),
        hard_link_static: false,
        taxonomies: Vec::new(),
        compile_sass: false,
        build_search_index: false,
        minify_html: false,
        mode: Mode::Build,
    }
}

fn strings(items: &[&str]) -> Vec<String> {
    items.iter().map(|s| s.to_string()).collect()
}

fn file(components: &[&str], filename: &str) -> FileInfo {
    let content = "site/content";
    let parent = if components.is_empty() {
        content.to_string()
    } else {
        format!("{}/{}", content, components.join("/"))
    };
    let grand_parent = if components.is_empty() {
        Some("site".to_string())
    } else if components.len() == 1 {
        Some(content.to_string())
    } else {
        Some(format!("{}/{}", content, components[..components.len() - 1].join("/")))
    };
    let relative = if components.is_empty() {
        filename.to_string()
    } else {
        format!("{}/{}", components.join("/"), filename)
    };
    FileInfo {
        path: format!("{}/{}", parent, filename),
        filename: filename.to_string(),
        name: filename.trim_end_matches(".md").to_string(),
        relative,
        parent,
        grand_parent,
        components: strings(components),
    }
}

fn page(components: &[&str], filename: &str, lang: &str) -> Page {
    let stem = filename.trim_end_matches(".md");
    let path = if components.is_empty() {
        format!("{}/", stem)
    } else {
        format!("{}/{}/", components.join("/"), stem)
    };
    Page {
        file: file(components, filename),
        meta: PageMeta {
            title: None,
            date: None,
            draft: false,
            aliases: Vec::new(),
            taxonomies: Vec::new(),
            in_search_index: true,
        },
        lang: lang.to_string(),
        permalink: format!("https://example.org/{}", path),
        path,
        raw_content: String::new(),
        content: String::new(),
        assets: Vec::new(),
    }
}

fn section(components: &[&str], filename: &str, lang: &str) -> Section {
    let path = if components.is_empty() {
        "/".to_string()
    } else {
        format!("/{}/", components.join("/"))
    };
    Section {
        file: file(components, filename),
        meta: SectionMeta {
            title: None,
            aliases: Vec::new(),
            render: true,
            redirect_to: None,
            paginate_by: None,
            paginate_path: "page".to_string(),
            generate_feed: false,
            insert_anchor_links: InsertAnchor::Off,
            in_search_index: true,
        },
        lang: lang.to_string(),
        permalink: format!("https://example.org{}", path),
        path,
        raw_content: String::new(),
        content: String::new(),
        assets: Vec::new(),
        pages: Vec::new(),
        subsections: Vec::new(),
        ancestors: Vec::new(),
    }
}

fn root() -> Step {
    Step::Directory { components: Vec::new() }
}

fn render(source: Source, components: &[&str], filename: &str, livereload: bool) -> Step {
    Step::Render {
        source,
        components: strings(components),
        filename: filename.to_string(),
        create_dirs: false,
        livereload,
    }
}

fn page_source(path: &str) -> Source {
    Source::Page { path: path.to_string() }
}

fn redirect(permalink: &str) -> Source {
    Source::Redirect { permalink: permalink.to_string() }
}

#[test]
fn a_page_is_written_where_its_path_says() {
    let site = Site::new("site", config());
    let steps = site.render_page(&page(&["blog"], "a.md", "en"));
    assert_eq!(
        steps,
        vec![render(page_source("site/content/blog/a.md"), &["blog", "a", ""], "index.html", true)]
    );
}

#[test]
fn the_assets_of_a_page_are_copied_beside_it() {
    let site = Site::new("site", config());
    let mut with_assets = page(&["blog"], "a.md", "en");
    with_assets.assets = strings(&["site/content/blog/a/photo.jpg", "site/content/blog/a/data.csv"]);
    let steps = site.render_page(&with_assets);
    assert_eq!(
        steps,
        vec![
            Step::Render {
                source: page_source("site/content/blog/a.md"),
                components: strings(&["blog", "a", ""]),
                filename: "index.html".to_string(),
                create_dirs: true,
                livereload: true,
            },
            Step::CopyAsset {
                from: "site/content/blog/a/photo.jpg".to_string(),
                components: strings(&["blog", "a", ""]),
                name: "photo.jpg".to_string(),
            },
            Step::CopyAsset {
                from: "site/content/blog/a/data.csv".to_string(),
                components: strings(&["blog", "a", ""]),
                name: "data.csv".to_string(),
            },
        ]
    );
}

#[test]
fn an_alias_names_a_directory_or_an_html_file() {
    let site = Site::new("site", config());
    assert_eq!(
        site.render_alias("old/place", "https://example.org/new/"),
        render(redirect("https://example.org/new/"), &["old", "place"], "index.html", false)
    );
    assert_eq!(
        site.render_alias("old/page.html", "https://example.org/new/"),
        render(redirect("https://example.org/new/"), &["old"], "page.html", false)
    );
    assert_eq!(
        site.render_alias("page.html", "https://example.org/new/"),
        render(redirect("https://example.org/new/"), &[], "page.html", false)
    );
    assert_eq!(
        site.render_alias("old/", "https://example.org/new/"),
        render(redirect("https://example.org/new/"), &["old", ""], "index.html", false)
    );
    assert_eq!(
        site.render_alias("", "https://example.org/new/"),
        render(redirect("https://example.org/new/"), &[""], "index.html", false)
    );
}

#[test]
fn aliases_of_pages_come_before_those_of_sections() {
    let mut site = Site::new("site", config());
    let mut moved = page(&["blog"], "a.md", "en");
    moved.meta.aliases = strings(&["old/a", "older/a.html"]);
    let mut renamed = section(&["blog"], "_index.md", "en");
    renamed.meta.aliases = strings(&["journal"]);
    site.add_section(renamed, false);
    site.add_page(page(&["blog"], "b.md", "en"), false);
    site.add_page(moved, false);
    assert_eq!(
        site.render_aliases(),
        vec![
            root(),
            render(redirect("https://example.org/blog/a/"), &["old", "a"], "index.html", false),
            render(redirect("https://example.org/blog/a/"), &["older"], "a.html", false),
            render(redirect("https://example.org/blog/"), &["journal"], "index.html", false),
        ]
    );
}

#[test]
fn fixed_documents_go_into_the_root() {
    let site = Site::new("site", config());
    assert_eq!(site.render_404(), vec![root(), render(Source::NotFound, &[], "404.html", true)]);
    assert_eq!(site.render_robots(), vec![root(), render(Source::Robots, &[], "robots.txt", false)]);
}

fn dated(components: &[&str], filename: &str, lang: &str, date: &str) -> Page {
    let mut page = page(components, filename, lang);
    page.meta.date = Some(date.to_string());
    page
}

#[test]
fn a_feed_goes_into_the_directory_of_its_base_path() {
    let mut site = Site::new("site", config());
    site.add_page(dated(&[], "a.md", "en", "2020-01-01"), false);
    site.add_page(page(&[], "b.md", "en"), false);
    site.add_page(dated(&[], "c.md", "en", "2021-01-01"), false);
    assert_eq!(
        site.render_feed(vec![2, 1, 0, 7], None, "en", FeedScope::Site),
        vec![
            root(),
            render(
                Source::Feed { scope: FeedScope::Site, lang: "en".to_string(), pages: vec![2, 0] },
                &[],
                "atom.xml",
                false
            )
        ]
    );
    assert_eq!(
        site.render_feed(vec![0], Some("blog/2020/"), "fr", FeedScope::Section { path: "p".to_string() }),
        vec![
            root(),
            render(
                Source::Feed {
                    scope: FeedScope::Section { path: "p".to_string() },
                    lang: "fr".to_string(),
                    pages: vec![0]
                },
                &["blog", "2020"],
                "atom.xml",
                false
            )
        ]
    );
    assert_eq!(segments_of("/a//b/"), strings(&["a", "b"]));
    assert_eq!(segments_of(""), Vec::<String>::new());
}

#[test]
fn a_feed_without_dated_pages_is_not_written() {
    let mut site = Site::new("site", config());
    site.add_page(page(&[], "a.md", "en"), false);
    assert_eq!(site.render_feed(vec![0], None, "en", FeedScope::Site), vec![root()]);
    assert_eq!(site.render_feed(Vec::new(), None, "en", FeedScope::Site), vec![root()]);
    assert_eq!(site.render_feed(vec![5], None, "en", FeedScope::Site), vec![root()]);
}

#[test]
fn the_first_pager_is_written_twice() {
    let site = Site::new("site", config());
    let section_root = PaginationRoot::Section { path: "site/content/blog/_index.md".to_string() };
    let paginator = Paginator::new(
        PaginationRoot::Section { path: "site/content/blog/_index.md".to_string() },
        vec![0, 1, 2],
        2,
        "https://example.org/blog/".to_string(),
        "/blog/".to_string(),
        "page".to_string(),
        false,
    );
    let steps = site.render_paginated(strings(&["blog"]), &paginator);
    assert_eq!(
        steps,
        vec![
            root(),
            render(
                Source::Pager { root: section_root.duplicate(), index: 1 },
                &["blog"],
                "index.html",
                true
            ),
            render(redirect("https://example.org/blog/"), &["blog", "page", "1"], "index.html", false),
            render(
                Source::Pager { root: section_root.duplicate(), index: 2 },
                &["blog", "page", "2"],
                "index.html",
                true
            ),
        ]
    );
    let empty = Paginator::new(
        section_root,
        Vec::new(),
        2,
        "https://example.org/blog/".to_string(),
        "/blog/".to_string(),
        "page".to_string(),
        false,
    );
    assert_eq!(site.render_paginated(strings(&["blog"]), &empty), vec![root()]);
}

fn loaded() -> Site {
    let mut site = Site::new("site", config());
    site.load(
        vec![section(&["blog"], "_index.md", "en")],
        vec![page(&["blog"], "a.md", "en"), page(&["blog"], "b.md", "en"), page(&["x"], "lost.md", "en")],
    )
    .unwrap();
    site
}

#[test]
fn a_section_makes_its_directories_renders_its_pages_and_then_itself() {
    let site = loaded();
    let blog = site.library.get_section_by_key(0);
    assert_eq!(
        site.render_section(blog, true),
        vec![
            root(),
            Step::Directory { components: strings(&["blog"]) },
            render(page_source("site/content/blog/a.md"), &["blog", "a", ""], "index.html", true),
            render(page_source("site/content/blog/b.md"), &["blog", "b", ""], "index.html", true),
            render(
                Source::Section { path: "site/content/blog/_index.md".to_string() },
                &["blog"],
                "index.html",
                true
            ),
        ]
    );
    assert_eq!(
        site.render_section(blog, false),
        vec![
            root(),
            Step::Directory { components: strings(&["blog"]) },
            render(
                Source::Section { path: "site/content/blog/_index.md".to_string() },
                &["blog"],
                "index.html",
                true
            ),
        ]
    );
}

#[test]
fn a_section_in_memory_makes_directories_only_for_assets() {
    let mut site = loaded();
    let mut out = Output::new();
    site.enable_serve_mode(&mut out.content);
    let mut plain = section(&["docs", "api"], "_index.md", "en");
    assert_eq!(
        site.render_section(&plain, true),
        vec![
            root(),
            render(
                Source::Section { path: "site/content/docs/api/_index.md".to_string() },
                &["docs", "api"],
                "index.html",
                true
            ),
        ]
    );
    plain.assets = strings(&["site/content/docs/api/logo.svg"]);
    assert_eq!(
        site.render_section(&plain, true),
        vec![
            root(),
            Step::Directory { components: strings(&["docs"]) },
            Step::Directory { components: strings(&["docs", "api"]) },
            Step::CopyAsset {
                from: "site/content/docs/api/logo.svg".to_string(),
                components: strings(&["docs", "api"]),
                name: "logo.svg".to_string(),
            },
            render(
                Source::Section { path: "site/content/docs/api/_index.md".to_string() },
                &["docs", "api"],
                "index.html",
                true
            ),
        ]
    );
}

#[test]
fn a_section_may_redirect_be_hidden_or_be_paginated() {
    let site = loaded();
    let mut redirecting = section(&["docs"], "_index.md", "en");
    redirecting.meta.redirect_to = Some("docs/intro".to_string());
    assert_eq!(
        site.render_section(&redirecting, true),
        vec![
            root(),
            Step::Directory { components: strings(&["docs"]) },
            Step::Render {
                source: redirect("https://example.org/docs/intro/"),
                components: strings(&["docs"]),
                filename: "index.html".to_string(),
                create_dirs: true,
                livereload: false,
            },
        ]
    );
    let mut hidden = section(&["docs"], "_index.md", "en");
    hidden.meta.render = false;
    assert_eq!(
        site.render_section(&hidden, true),
        vec![root(), Step::Directory { components: strings(&["docs"]) }]
    );
    let mut paginated = section(&["blog"], "_index.md", "en");
    paginated.meta.paginate_by = Some(1);
    paginated.pages = vec![1, 0];
    let pager_root = PaginationRoot::Section { path: "site/content/blog/_index.md".to_string() };
    assert_eq!(
        site.render_section(&paginated, false),
        vec![
            root(),
            Step::Directory { components: strings(&["blog"]) },
            root(),
            render(Source::Pager { root: pager_root.duplicate(), index: 1 }, &["blog"], "index.html", true),
            render(redirect("https://example.org/blog/"), &["blog", "page", "1"], "index.html", false),
            render(
                Source::Pager { root: pager_root, index: 2 },
                &["blog", "page", "2"],
                "index.html",
                true
            ),
        ]
    );
}

#[test]
fn a_section_of_another_language_lies_below_the_language() {
    let mut settings = config();
    settings.languages.push(Language { code: "fr".to_string(), feed: false, search: false });
    let mut site = Site::new("site", settings);
    site.add_page(dated(&["blog"], "a.fr.md", "fr", "2020-02-02"), false);
    let mut french = section(&["blog"], "_index.fr.md", "fr");
    french.meta.generate_feed = true;
    french.path = "/fr/blog/".to_string();
    french.pages = vec![0];
    assert_eq!(
        site.render_section(&french, false),
        vec![
            root(),
            Step::Directory { components: strings(&["fr"]) },
            Step::Directory { components: strings(&["fr", "blog"]) },
            root(),
            render(
                Source::Feed {
                    scope: FeedScope::Section { path: "site/content/blog/_index.fr.md".to_string() },
                    lang: "fr".to_string(),
                    pages: vec![0]
                },
                &["fr", "blog"],
                "atom.xml",
                false
            ),
            render(
                Source::Section { path: "site/content/blog/_index.fr.md".to_string() },
                &["fr", "blog"],
                "index.html",
                true
            ),
        ]
    );
}

#[test]
fn orphan_pages_are_rendered_on_their_own() {
    let site = loaded();
    assert_eq!(
        site.render_orphan_pages(),
        vec![
            root(),
            render(page_source("site/content/x/lost.md"), &["x", "lost", ""], "index.html", true)
        ]
    );
}

#[test]
fn all_sections_are_rendered_in_the_order_of_the_library() {
    let site = loaded();
    let steps = site.render_sections();
    let mut expected = site.render_section(site.library.get_section_by_key(0), true);
    expected.extend(site.render_section(site.library.get_section_by_key(1), true));
    assert_eq!(steps, expected);
    assert_eq!(steps.len(), 7);
}

fn tagged_site(paginate_by: Option<usize>, feed: bool) -> Site {
    let mut settings = config();
    settings.taxonomies.push(TaxonomyConfig {
        name: "Tags".to_string(),
        slug: "tags".to_string(),
        paginate_by,
        paginate_path: "page".to_string(),
        feed,
        lang: "en".to_string(),
    });
    let mut site = Site::new("site", settings);
    let mut a = dated(&[], "a.md", "en", "2020-01-01");
    a.meta.taxonomies.push(TermList {
        taxonomy: "Tags".to_string(),
        terms: vec![
            TermLabel { name: "Rust".to_string(), slug: "rust".to_string() },
            TermLabel { name: "Go".to_string(), slug: "go".to_string() },
        ],
    });
    let mut b = dated(&[], "b.md", "en", "2020-01-02");
    b.meta.taxonomies.push(TermList {
        taxonomy: "Tags".to_string(),
        terms: vec![TermLabel { name: "Rust".to_string(), slug: "rust".to_string() }],
    });
    site.load(Vec::new(), vec![a, b]).unwrap();
    site
}

fn term_source(term: &str) -> Source {
    Source::TaxonomyTerm { taxonomy: "Tags".to_string(), lang: "en".to_string(), term: term.to_string() }
}

#[test]
fn a_taxonomy_lists_its_terms_and_renders_each() {
    let site = tagged_site(None, false);
    assert_eq!(
        site.render_taxonomies(),
        vec![
            root(),
            render(
                Source::TaxonomyList { taxonomy: "Tags".to_string(), lang: "en".to_string() },
                &["tags"],
                "index.html",
                true
            ),
            render(term_source("Rust"), &["tags", "rust"], "index.html", true),
            render(term_source("Go"), &["tags", "go"], "index.html", true),
        ]
    );
}

#[test]
fn a_taxonomy_may_paginate_its_terms_and_give_them_feeds() {
    let site = tagged_site(Some(1), true);
    let rust = PaginationRoot::Term {
        taxonomy: "Tags".to_string(),
        lang: "en".to_string(),
        term: "Rust".to_string(),
    };
    let steps = site.render_taxonomy(&site.taxonomies[0]);
    assert_eq!(steps.len(), 2 + (1 + 3 + 2) + (1 + 2 + 2));
    assert_eq!(
        steps[2..8].to_vec(),
        vec![
            root(),
            render(Source::Pager { root: rust.duplicate(), index: 1 }, &["tags", "rust"], "index.html", true),
            render(
                redirect("https://example.org/tags/rust/"),
                &["tags", "rust", "page", "1"],
                "index.html",
                false
            ),
            render(
                Source::Pager { root: rust, index: 2 },
                &["tags", "rust", "page", "2"],
                "index.html",
                true
            ),
            root(),
            render(
                Source::Feed {
                    scope: FeedScope::Term {
                        taxonomy: "Tags".to_string(),
                        lang: "en".to_string(),
                        term: "Rust".to_string()
                    },
                    lang: "en".to_string(),
                    pages: vec![0, 1]
                },
                &["tags", "rust"],
                "atom.xml",
                false
            ),
        ]
    );
}

#[test]
fn a_taxonomy_without_terms_is_not_rendered() {
    let mut settings = config();
    settings.taxonomies.push(TaxonomyConfig {
        name: "Tags".to_string(),
        slug: "tags".to_string(),
        paginate_by: None,
        paginate_path: "page".to_string(),
        feed: true,
        lang: "en".to_string(),
    });
    let mut site = Site::new("site", settings);
    site.load(Vec::new(), vec![page(&[], "a.md", "en")]).unwrap();
    assert_eq!(site.taxonomies.len(), 1);
    assert_eq!(site.render_taxonomies(), Vec::<Step>::new());
}

fn entries(count: usize) -> Vec<SitemapEntry> {
    (0..count)
        .map(|i| SitemapEntry { permalink: format!("https://example.org/{}/", i), date: None })
        .collect()
}

fn sitemaps(steps: &[Step]) -> Vec<(String, usize)> {
    steps
        .iter()
        .filter_map(|step| match step {
            Step::Render { source: Source::Sitemap { entries }, filename, .. } => {
                Some((filename.clone(), entries.len()))
            }
            _ => None,
        })
        .collect()
}

fn referenced(steps: &[Step]) -> Vec<String> {
    steps
        .iter()
        .flat_map(|step| match step {
            Step::Render { source: Source::SitemapIndex { sitemaps }, .. } => sitemaps.clone(),
            _ => Vec::new(),
        })
        .collect()
}

#[test]
fn a_small_sitemap_is_one_file() {
    let site = Site::new("site", config());
    for count in [0, 1, 29999] {
        let steps = site.render_sitemap_of(entries(count));
        assert_eq!(steps.len(), 2);
        assert_eq!(sitemaps(&steps), vec![("sitemap.xml".to_string(), count)]);
        assert!(referenced(&steps).is_empty());
    }
}

#[test]
fn a_large_sitemap_is_split_and_indexed() {
    assert_eq!(SITEMAP_LIMIT, 30000);
    let site = Site::new("site", config());
    let steps = site.render_sitemap_of(entries(30000));
    assert_eq!(sitemaps(&steps), vec![("sitemap1.xml".to_string(), 30000)]);
    assert_eq!(referenced(&steps), vec!["https://example.org/sitemap1.xml".to_string()]);

    let steps = site.render_sitemap_of(entries(30001));
    assert_eq!(
        sitemaps(&steps),
        vec![("sitemap1.xml".to_string(), 30000), ("sitemap2.xml".to_string(), 1)]
    );
    assert_eq!(
        referenced(&steps),
        vec!["https://example.org/sitemap1.xml".to_string(), "https://example.org/sitemap2.xml".to_string()]
    );

    let steps = site.render_sitemap_of(entries(60001));
    assert_eq!(
        sitemaps(&steps),
        vec![
            ("sitemap1.xml".to_string(), 30000),
            ("sitemap2.xml".to_string(), 30000),
            ("sitemap3.xml".to_string(), 1)
        ]
    );
    assert_eq!(referenced(&steps).len(), 3);
    assert_eq!(steps.len(), 5);
    match &steps[4] {
        Step::Render { filename, components, .. } => {
            assert_eq!(filename, "sitemap.xml");
            assert!(components.is_empty());
        }
        other => panic!("the index comes last, not {:?}", other),
    }
    match &steps[3] {
        Step::Render { source: Source::Sitemap { entries }, .. } => {
            assert_eq!(entries[0].permalink, "https://example.org/60000/");
        }
        other => panic!("the third sitemap comes fourth, not {:?}", other),
    }
}

#[test]
fn the_sitemap_lists_pages_rendered_sections_and_terms() {
    let mut site = tagged_site(None, false);
    let mut hidden = section(&["hidden"], "_index.md", "en");
    hidden.meta.render = false;
    site.add_section(hidden, false);
    site.add_section(section(&["shown"], "_index.md", "en"), false);
    let found = site.find_entries();
    let links: Vec<&str> = found.iter().map(|e| e.permalink.as_str()).collect();
    assert_eq!(
        links,
        vec![
            "https://example.org/a/",
            "https://example.org/b/",
            "https://example.org/",
            "https://example.org/shown/",
            "https://example.org/tags/",
            "https://example.org/tags/rust/",
            "https://example.org/tags/go/",
        ]
    );
    let mut dated = page(&[], "dated.md", "en");
    dated.meta.date = Some("2020-01-01".to_string());
    let mut small = Site::new("site", config());
    small.add_page(dated, false);
    assert_eq!(
        small.render_sitemap(),
        vec![
            root(),
            render(
                Source::Sitemap {
                    entries: vec![SitemapEntry {
                        permalink: "https://example.org/dated/".to_string(),
                        date: Some("2020-01-01".to_string())
                    }]
                },
                &[],
                "sitemap.xml",
                false
            )
        ]
    );
}

#[test]
fn search_indexes_are_files_of_the_root() {
    let mut settings = config();
    settings.languages.push(Language { code: "fr".to_string(), feed: false, search: true });
    settings.languages.push(Language { code: "de".to_string(), feed: false, search: false });
    settings.languages.push(Language { code: "en".to_string(), feed: false, search: true });
    let site = Site::new("site", settings);
    assert_eq!(
        site.build_search_index(),
        vec![
            root(),
            Step::File {
                source: Source::SearchIndex { lang: "en".to_string() },
                filename: "search_index.en.js".to_string()
            },
            Step::File {
                source: Source::SearchIndex { lang: "fr".to_string() },
                filename: "search_index.fr.js".to_string()
            },
            Step::File { source: Source::SearchRuntime, filename: "elasticlunr.min.js".to_string() },
        ]
    );
    assert_eq!(search_index_script("{\"a\":1}"), "window.searchIndex = {\"a\":1};");
}

#[test]
fn static_files_of_the_theme_come_before_those_of_the_site() {
    let mut settings = config();
    settings.hard_link_static = true;
    let site = Site::new("site", settings);
    assert_eq!(
        site.copy_static_directories(),
        vec![Step::CopyDirectory { from: "site/static".to_string(), hard_link: true, if_present: true }]
    );
    let mut themed = config();
    themed.theme = Some("plain".to_string());
    let site = Site::new("site", themed);
    assert_eq!(
        site.copy_static_directories(),
        vec![
            Step::CopyDirectory {
                from: "site/themes/plain/static".to_string(),
                hard_link: false,
                if_present: false
            },
            Step::CopyDirectory { from: "site/static".to_string(), hard_link: false, if_present: true },
        ]
    );
    assert_eq!(site.clean(), vec![Step::Clean]);
    assert_eq!(site.process_images(), vec![Step::ProcessImages]);
}

#[test]
fn a_build_takes_its_steps_in_order() {
    let mut settings = config();
    settings.theme = Some("plain".to_string());
    settings.compile_sass = true;
    settings.build_search_index = true;
    settings.generate_feed = true;
    settings.languages.push(Language { code: "fr".to_string(), feed: true, search: false });
    settings.languages.push(Language { code: "de".to_string(), feed: false, search: false });
    let mut site = Site::new("site", settings);
    let mut aliased = page(&["blog"], "a.md", "en");
    aliased.meta.aliases = strings(&["old"]);
    site.load(
        vec![section(&["blog"], "_index.md", "en")],
        vec![
            aliased,
            dated(&["blog"], "b.fr.md", "fr", "2020-03-03"),
            dated(&["x"], "lost.md", "en", "2020-04-04"),
        ],
    )
    .unwrap();
    let mut expected = vec![
        Step::Clean,
        Step::CompileSass { from: "site/themes/plain".to_string(), if_present: true },
        Step::CompileSass { from: "site".to_string(), if_present: false },
    ];
    expected.extend(site.build_search_index());
    expected.extend(site.render_aliases());
    expected.extend(site.render_sections());
    expected.extend(site.render_orphan_pages());
    expected.extend(site.render_sitemap());
    expected.push(root());
    expected.push(render(
        Source::Feed { scope: FeedScope::Site, lang: "en".to_string(), pages: vec![2] },
        &[],
        "atom.xml",
        false,
    ));
    expected.push(root());
    expected.push(render(
        Source::Feed { scope: FeedScope::Site, lang: "fr".to_string(), pages: vec![1] },
        &["fr"],
        "atom.xml",
        false,
    ));
    expected.extend(site.render_404());
    expected.extend(site.render_robots());
    expected.extend(site.render_taxonomies());
    expected.push(Step::ProcessImages);
    expected.extend(site.copy_static_directories());
    let steps = site.build();
    assert_eq!(steps, expected);
    assert_eq!(steps[0], Step::Clean);
    assert_eq!(steps[steps.len() - 3], Step::ProcessImages);
    assert_eq!(site.reload_templates(), steps);
}

#[test]
fn a_plain_build_in_memory_neither_cleans_nor_compiles() {
    let mut site = Site::new("site", config());
    let mut out = Output::new();
    site.enable_serve_mode(&mut out.content);
    site.load(Vec::new(), vec![page(&[], "a.md", "en")]).unwrap();
    let steps = site.build();
    assert_eq!(steps[0], root());
    assert!(!steps.contains(&Step::Clean));
    assert!(steps.iter().all(|s| !matches!(s, Step::CompileSass { .. } | Step::File { .. })));
    let feeds = steps
        .iter()
        .filter(|s| matches!(s, Step::Render { source: Source::Feed { .. }, .. }))
        .count();
    assert_eq!(feeds, 0);
}

#[test]
fn the_feed_of_a_site_with_one_language_holds_every_page() {
    let mut settings = config();
    settings.generate_feed = true;
    let mut site = Site::new("site", settings);
    site.load(
        Vec::new(),
        vec![dated(&[], "a.md", "en", "2020-01-01"), dated(&[], "b.md", "xx", "2020-01-02")],
    )
    .unwrap();
    let steps = site.build();
    let feeds: Vec<&Step> = steps
        .iter()
        .filter(|s| matches!(s, Step::Render { source: Source::Feed { .. }, .. }))
        .collect();
    assert_eq!(
        feeds,
        vec![&render(
            Source::Feed { scope: FeedScope::Site, lang: "en".to_string(), pages: vec![0, 1] },
            &[],
            "atom.xml",
            false
        )]
    );
}

#[test]
fn steps_are_carried_out_into_the_output() {
    let mut site = Site::new("site", config());
    site.enable_live_reload_with_port(1024);
    let mut out = Output::new();
    let step = render(page_source("p"), &["a"], "index.html", true);
    assert_eq!(site.carry_out(&mut out, &step, Some("<body></body>".to_string())), Ok(()));
    assert_eq!(site.carry_out(&mut out, &step, None), Ok(()));
    let quiet = render(redirect("r"), &["b"], "index.html", false);
    assert_eq!(site.carry_out(&mut out, &quiet, Some("<body></body>".to_string())), Ok(()));
    let file = Step::File { source: Source::SearchRuntime, filename: "elasticlunr.min.js".to_string() };
    assert_eq!(site.carry_out(&mut out, &file, Some("js".to_string())), Ok(()));
    assert_eq!(site.carry_out(&mut out, &Step::Directory { components: strings(&["c"]) }, None), Ok(()));
    assert_eq!(site.carry_out(&mut out, &Step::Clean, None), Ok(()));
    assert_eq!(site.carry_out(&mut out, &Step::ProcessImages, None), Ok(()));
    assert_eq!(
        out.files,
        vec![
            OutputFile {
                components: strings(&["a"]),
                filename: "index.html".to_string(),
                content: "<body><script src=\"/livereload.js?port=1024&amp;mindelay=10\"></script></body>"
                    .to_string(),
            },
            OutputFile {
                components: strings(&["b"]),
                filename: "index.html".to_string(),
                content: "<body></body>".to_string(),
            },
            OutputFile {
                components: Vec::new(),
                filename: "elasticlunr.min.js".to_string(),
                content: "js".to_string(),
            },
        ]
    );
    assert_eq!(
        out.directories,
        vec![Vec::<String>::new(), strings(&["a"]), Vec::new(), strings(&["b"]), strings(&["c"])]
    );
}

#[test]
fn a_whole_build_in_memory_fills_the_store() {
    let mut site = Site::new("site", config());
    let mut out = Output::new();
    site.enable_serve_mode(&mut out.content);
    site.load(
        vec![section(&["blog"], "_index.md", "en")],
        vec![page(&["blog"], "post-1.md", "en")],
    )
    .unwrap();
    for step in site.build() {
        let rendered = match &step {
            Step::Render { source, .. } => Some(format!("{:?}", source)),
            _ => None,
        };
        site.carry_out(&mut out, &step, rendered).unwrap();
    }
    assert!(out.files.is_empty());
    let post = out.content.get("blog/post-1").unwrap();
    assert!(post.contains("site/content/blog/post-1.md"));
    assert!(out.content.get("blog").unwrap().contains("Section"));
    assert!(out.content.get("").unwrap().contains("Section"));
    assert!(out.content.get("404.html").unwrap().contains("NotFound"));
    assert!(out.content.get("robots.txt").is_some());
    assert!(out.content.get("sitemap.xml").is_some());
    assert_eq!(out.content.len(), 6);
}

#[test]
fn a_build_stops_at_the_first_step_that_fails() {
    let steps = vec![Step::Clean, root(), Step::ProcessImages];
    assert_eq!(first_step(&steps), Some(0));
    assert_eq!(first_step(&Vec::new()), None);
    assert_eq!(next_step(&steps, 0, false), Some(1));
    assert_eq!(next_step(&steps, 1, false), Some(2));
    assert_eq!(next_step(&steps, 2, false), None);
    assert_eq!(next_step(&steps, 0, true), None);
    assert_eq!(next_step(&steps, 1, true), None);
    assert_eq!(next_step(&steps, 2, true), None);
}
