use site::config::{Config, Language, Mode, TaxonomyConfig};
use site::content::{FileInfo, InsertAnchor, Page, PageMeta, Section, SectionMeta, TermLabel, TermList};
use site::errors::Error;
use site::plan::{MarkdownJob, Source, Step};
use site::site::Site;
use site::BuildMode;

fn config() -> Config {
    Config {
        base_url: "https://example.org".to_string(),
        theme: None,
        default_language: "en".to_string(),
        languages: Vec::new(),
        generate_feed: false,
        feed_filename: "atom.xml".to_string(),
        hard_link_static: false,
        taxonomies: Vec::new(),
        compile_sass: false,
        build_search_index: false,
        minify_html: false,
        mode: Mode::Build,
    }
}

fn file(components: &[&str], filename: &str) -> FileInfo {
    let content = "site/content";
    let parent = if components.is_empty() {
        content.to_string()
    } else {
        format!("{}/{}", content, components.join("/"))
    };
    let grand_parent = if components.is_empty() {
        Some("site".to_string())
    } else if components.len() == 1 {
        Some(content.to_string())
    } else {
        Some(format!("{}/{}", content, components[..components.len() - 1].join("/")))
    };
    let relative = if components.is_empty() {
        filename.to_string()
    } else {
        format!("{}/{}", components.join("/"), filename)
    };
    FileInfo {
        path: format!("{}/{}", parent, filename),
        filename: filename.to_string(),
        name: filename.trim_end_matches(".md").to_string(),
        relative,
        parent,
        grand_parent,
        components: components.iter().map(|c| c.to_string()).collect(),
    }
}

fn page(components: &[&str], filename: &str, lang: &str) -> Page {
    let stem = filename.trim_end_matches(".md");
    let path = if components.is_empty() {
        format!("{}/", stem)
    } else {
        format!("{}/{}/", components.join("/"), stem)
    };
    Page {
        file: file(components, filename),
        meta: PageMeta {
            title: None,
            date: None,
            draft: false,
            aliases: Vec::new(),
            taxonomies: Vec::new(),
            in_search_index: true,
        },
        lang: lang.to_string(),
        permalink: format!("https://example.org/{}", path),
        path,
        raw_content: String::new(),
        content: String::new(),
        assets: Vec::new(),
    }
}

fn section(components: &[&str], filename: &str, lang: &str) -> Section {
    let path = if components.is_empty() {
        "/".to_string()
    } else {
        format!("/{}/", components.join("/"))
    };
    Section {
        file: file(components, filename),
        meta: SectionMeta {
            title: None,
            aliases: Vec::new(),
            render: true,
            redirect_to: None,
            paginate_by: None,
            paginate_path: "page".to_string(),
            generate_feed: false,
            insert_anchor_links: InsertAnchor::Off,
            in_search_index: true,
        },
        lang: lang.to_string(),
        permalink: format!("https://example.org{}", path),
        path,
        raw_content: String::new(),
        content: String::new(),
        assets: Vec::new(),
        pages: Vec::new(),
        subsections: Vec::new(),
        ancestors: Vec::new(),
    }
}

fn french() -> Language {
    Language { code: "fr".to_string(), feed: false, search: false }
}

#[test]
fn new_site_lies_below_its_directory() {
    let site = Site::new("site", config());
    assert_eq!(site.base_path, "site");
    assert_eq!(site.content_path, "site/content");
    assert_eq!(site.static_path, "site/static");
    assert_eq!(site.output_path, "site/public");
    assert_eq!(site.build_mode, BuildMode::Disk);
    assert_eq!(site.live_reload, None);
    assert!(!site.include_drafts);
    assert!(!site.search_in_every_root);
    assert!(site.taxonomies.is_empty());
    assert_eq!(site.permalinks.len(), 0);
    assert!(site.library.pages_values().is_empty());
    assert!(site.library.sections_values().is_empty());
}

#[test]
fn setters_change_one_thing() {
    let mut site = Site::new("site", config());
    site.include_drafts();
    assert!(site.include_drafts);
    site.set_base_url("http://127.0.0.1:1111".to_string());
    assert_eq!(site.config.base_url, "http://127.0.0.1:1111");
    site.set_output_path("elsewhere/out");
    assert_eq!(site.output_path, "elsewhere/out");
    site.set_search_in_every_root(true);
    assert!(site.search_in_every_root);
    assert_eq!(site.content_path, "site/content");
}

#[test]
fn index_sections_lie_at_fixed_paths() {
    let mut settings = config();
    settings.languages.push(french());
    settings.languages.push(Language { code: "de".to_string(), feed: false, search: false });
    let site = Site::new("site", settings);
    assert_eq!(
        site.index_section_paths(),
        vec![
            ("site/content/_index.md".to_string(), None),
            ("site/content/_index.fr.md".to_string(), Some("fr".to_string())),
            ("site/content/_index.de.md".to_string(), Some("de".to_string())),
        ]
    );
}

#[test]
fn each_language_without_a_root_gets_one() {
    let mut settings = config();
    settings.languages.push(french());
    let mut site = Site::new("site", settings);
    assert_eq!(site.create_default_index_sections(), Ok(()));
    let sections = site.library.sections_values();
    assert_eq!(sections.len(), 2);
    let root = &sections[0];
    assert_eq!(root.file.path, "site/content/_index.md");
    assert_eq!(root.file.relative, "_index.md");
    assert_eq!(root.file.filename, "_index.md");
    assert_eq!(root.file.name, "_index");
    assert_eq!(root.file.parent, "site/content");
    assert!(root.file.components.is_empty());
    assert_eq!(root.path, "/");
    assert_eq!(root.permalink, "https://example.org/");
    assert_eq!(root.lang, "en");
    assert!(root.meta.render);
    assert!(root.meta.in_search_index);
    let fr = &sections[1];
    assert_eq!(fr.file.path, "site/content/_index.fr.md");
    assert_eq!(fr.file.relative, "_index.fr.md");
    assert_eq!(fr.file.filename, "_index.fr.md");
    assert_eq!(fr.file.name, "_index");
    assert_eq!(fr.path, "fr/");
    assert_eq!(fr.permalink, "https://example.org/fr/");
    assert_eq!(fr.lang, "fr");
    assert_eq!(site.create_default_index_sections(), Ok(()));
    assert_eq!(site.library.sections_values().len(), 2);
}

#[test]
fn a_root_that_is_there_is_kept() {
    let mut settings = config();
    settings.languages.push(french());
    let mut site = Site::new("site", settings);
    let mut given = section(&[], "_index.md", "en");
    given.raw_content = "welcome".to_string();
    site.add_section(given, false);
    assert_eq!(site.create_default_index_sections(), Ok(()));
    let sections = site.library.sections_values();
    assert_eq!(sections.len(), 2);
    assert_eq!(sections[0].raw_content, "welcome");
    assert_eq!(sections[1].file.path, "site/content/_index.fr.md");
}

#[test]
fn a_root_that_refuses_the_search_index_stops_the_build() {
    let mut settings = config();
    settings.build_search_index = true;
    settings.languages.push(french());
    let mut site = Site::new("site", settings);
    let mut hidden = section(&[], "_index.md", "en");
    hidden.meta.in_search_index = false;
    site.add_section(hidden, false);
    assert_eq!(site.create_default_index_sections(), Err(Error::SearchIndexDisabled));
    assert_eq!(site.library.sections_values().len(), 1);
}

#[test]
fn roots_of_other_languages_are_looked_at_only_on_request() {
    let mut settings = config();
    settings.build_search_index = true;
    settings.languages.push(french());
    let mut site = Site::new("site", settings);
    let mut hidden = section(&[], "_index.fr.md", "fr");
    hidden.meta.in_search_index = false;
    site.add_section(hidden, false);
    assert_eq!(site.create_default_index_sections(), Ok(()));
    assert_eq!(site.library.sections_values().len(), 2);
    site.set_search_in_every_root(true);
    assert_eq!(site.create_default_index_sections(), Err(Error::SearchIndexDisabled));
}

#[test]
fn load_fills_the_library_and_links_it() {
    let mut site = Site::new("site", config());
    let mut draft = page(&["blog"], "draft.md", "en");
    draft.meta.draft = true;
    let mut blog = section(&["blog"], "_index.md", "en");
    blog.meta.insert_anchor_links = InsertAnchor::Left;
    let jobs = site
        .load(
            vec![blog],
            vec![page(&["blog"], "a.md", "en"), draft, page(&[], "about.md", "en"), page(&["x"], "lost.md", "en")],
        )
        .unwrap();
    let sections = site.library.sections_values();
    assert_eq!(sections.len(), 2);
    assert_eq!(sections[0].file.path, "site/content/blog/_index.md");
    assert_eq!(sections[1].file.path, "site/content/_index.md");
    assert_eq!(sections[0].pages, vec![0]);
    assert_eq!(sections[0].ancestors, vec![1]);
    assert_eq!(sections[1].pages, vec![1]);
    assert_eq!(sections[1].subsections, vec![0]);
    assert_eq!(site.library.pages_values().len(), 3);
    assert_eq!(site.library.get_all_orphan_pages(), vec![2]);
    assert_eq!(site.permalinks.get("blog/a.md"), Some(&"https://example.org/blog/a/".to_string()));
    assert_eq!(site.permalinks.get("blog/_index.md"), Some(&"https://example.org/blog/".to_string()));
    assert_eq!(site.permalinks.get("blog/draft.md"), None);
    assert_eq!(site.permalinks.get("_index.md"), None);
    assert_eq!(
        jobs,
        vec![
            MarkdownJob::Page {
                path: "site/content/blog/a.md".to_string(),
                insert_anchor: InsertAnchor::Left,
            },
            MarkdownJob::Page {
                path: "site/content/about.md".to_string(),
                insert_anchor: InsertAnchor::Off,
            },
            MarkdownJob::Page {
                path: "site/content/x/lost.md".to_string(),
                insert_anchor: InsertAnchor::Off,
            },
            MarkdownJob::Section { path: "site/content/blog/_index.md".to_string() },
            MarkdownJob::Section { path: "site/content/_index.md".to_string() },
        ]
    );
    assert_eq!(site.render_markdown(), jobs);
}

#[test]
fn load_takes_drafts_when_told_to() {
    let mut site = Site::new("site", config());
    site.include_drafts();
    let mut draft = page(&["blog"], "draft.md", "en");
    draft.meta.draft = true;
    site.load(Vec::new(), vec![draft]).unwrap();
    assert_eq!(site.library.pages_values().len(), 1);
    assert_eq!(site.permalinks.get("blog/draft.md"), Some(&"https://example.org/blog/draft/".to_string()));
}

#[test]
fn load_fails_on_a_shared_permalink_and_names_both() {
    let mut site = Site::new("site", config());
    let mut twin = page(&["other"], "twin.md", "en");
    twin.permalink = "https://example.org/blog/a/".to_string();
    let failed = site.load(Vec::new(), vec![page(&["blog"], "a.md", "en"), twin]);
    assert_eq!(
        failed,
        Err(Error::Collisions {
            found: vec![(
                "https://example.org/blog/a/".to_string(),
                vec!["blog/a.md".to_string(), "other/twin.md".to_string()]
            )]
        })
    );
}

#[test]
fn load_fails_on_a_root_made_where_a_page_claims_its_permalink() {
    let mut site = Site::new("site", config());
    let mut home = page(&[], "home.md", "en");
    home.permalink = "https://example.org/".to_string();
    let failed = site.load(Vec::new(), vec![home]);
    assert_eq!(
        failed,
        Err(Error::Collisions {
            found: vec![(
                "https://example.org/".to_string(),
                vec!["home.md".to_string(), "_index.md".to_string()]
            )]
        })
    );
}

#[test]
fn load_gathers_taxonomies() {
    let mut settings = config();
    settings.taxonomies.push(TaxonomyConfig {
        name: "tags".to_string(),
        slug: "tags".to_string(),
        paginate_by: None,
        paginate_path: "page".to_string(),
        feed: false,
        lang: "en".to_string(),
    });
    let mut site = Site::new("site", settings);
    let mut tagged = page(&[], "a.md", "en");
    tagged.meta.taxonomies.push(TermList {
        taxonomy: "tags".to_string(),
        terms: vec![TermLabel { name: "rust".to_string(), slug: "rust".to_string() }],
    });
    site.load(Vec::new(), vec![tagged, page(&[], "b.md", "en")]).unwrap();
    assert_eq!(site.taxonomies.len(), 1);
    assert_eq!(site.taxonomies[0].items.len(), 1);
    assert_eq!(site.taxonomies[0].items[0].name, "rust");
    assert_eq!(site.taxonomies[0].items[0].pages, vec![0]);

    let mut wrong = page(&[], "c.md", "en");
    wrong.meta.taxonomies.push(TermList { taxonomy: "authors".to_string(), terms: Vec::new() });
    let failed = site.load(Vec::new(), vec![wrong]);
    assert_eq!(
        failed,
        Err(Error::UnknownTaxonomy {
            page: "site/content/c.md".to_string(),
            taxonomy: "authors".to_string(),
        })
    );
}

#[test]
fn a_term_follows_the_pages_that_declare_it() {
    let mut settings = config();
    settings.taxonomies.push(TaxonomyConfig {
        name: "tags".to_string(),
        slug: "tags".to_string(),
        paginate_by: None,
        paginate_path: "page".to_string(),
        feed: false,
        lang: "en".to_string(),
    });
    let rust = || TermList {
        taxonomy: "tags".to_string(),
        terms: vec![TermLabel { name: "rust".to_string(), slug: "rust".to_string() }],
    };
    let mut site = Site::new("site", settings);
    let mut first = page(&[], "p.md", "en");
    first.meta.taxonomies.push(rust());
    let mut second = page(&[], "q.md", "en");
    second.meta.taxonomies.push(rust());
    site.library.insert_page(first);
    site.populate_taxonomies().unwrap();
    assert_eq!(site.taxonomies.len(), 1);
    assert_eq!(site.taxonomies[0].items.len(), 1);
    assert_eq!(site.taxonomies[0].items[0].name, "rust");
    assert_eq!(site.taxonomies[0].items[0].pages, vec![0]);

    site.library.insert_page(second);
    site.populate_taxonomies().unwrap();
    assert_eq!(site.taxonomies[0].items.len(), 1);
    assert_eq!(site.taxonomies[0].items[0].pages, vec![0, 1]);

    site.library.remove_page("site/content/p.md");
    site.populate_taxonomies().unwrap();
    assert_eq!(site.taxonomies[0].items.len(), 1);
    let left = &site.taxonomies[0].items[0];
    assert_eq!(left.name, "rust");
    assert_eq!(left.pages.len(), 1);
    assert_eq!(site.library.pages_values()[left.pages[0]].file.path, "site/content/q.md");

    site.library.remove_page("site/content/q.md");
    site.populate_taxonomies().unwrap();
    assert_eq!(site.taxonomies.len(), 1);
    assert!(site.taxonomies[0].items.is_empty());
}

#[test]
fn load_reports_the_search_index_before_anything_else() {
    let mut settings = config();
    settings.build_search_index = true;
    let mut site = Site::new("site", settings);
    let mut hidden = section(&[], "_index.md", "en");
    hidden.meta.in_search_index = false;
    let mut twin = page(&["other"], "twin.md", "en");
    twin.permalink = "https://example.org/blog/a/".to_string();
    let failed = site.load(vec![hidden], vec![page(&["blog"], "a.md", "en"), twin]);
    assert_eq!(failed, Err(Error::SearchIndexDisabled));
}

#[test]
fn anchors_come_from_the_section_of_the_directory() {
    let mut settings = config();
    settings.languages.push(french());
    let mut site = Site::new("site", settings);
    let mut blog = section(&["blog"], "_index.md", "en");
    blog.meta.insert_anchor_links = InsertAnchor::Right;
    let mut blog_fr = section(&["blog"], "_index.fr.md", "fr");
    blog_fr.meta.insert_anchor_links = InsertAnchor::Left;
    site.add_section(blog, false);
    site.add_section(blog_fr, false);
    assert_eq!(site.find_parent_section_insert_anchor("site/content/blog", "en"), InsertAnchor::Right);
    assert_eq!(site.find_parent_section_insert_anchor("site/content/blog", "fr"), InsertAnchor::Left);
    assert_eq!(site.find_parent_section_insert_anchor("site/content/other", "en"), InsertAnchor::Off);
}

#[test]
fn anchors_are_inherited_from_the_nearest_section_above() {
    let mut settings = config();
    settings.languages.push(french());
    let mut site = Site::new("site", settings);
    let mut root = section(&[], "_index.md", "en");
    root.meta.insert_anchor_links = InsertAnchor::Left;
    let mut blog = section(&["blog"], "_index.md", "en");
    blog.meta.insert_anchor_links = InsertAnchor::Right;
    let mut outside = section(&[], "_index.md", "en");
    outside.file.path = "site/_index.md".to_string();
    outside.meta.insert_anchor_links = InsertAnchor::Right;
    site.add_section(root, false);
    site.add_section(blog, false);
    site.add_section(outside, false);
    assert_eq!(
        site.find_parent_section_insert_anchor("site/content/blog/2020/may", "en"),
        InsertAnchor::Right
    );
    assert_eq!(site.find_parent_section_insert_anchor("site/content/blog", "en"), InsertAnchor::Right);
    assert_eq!(site.find_parent_section_insert_anchor("site/content/notes", "en"), InsertAnchor::Left);
    assert_eq!(site.find_parent_section_insert_anchor("site/content", "en"), InsertAnchor::Left);
    assert_eq!(
        site.find_parent_section_insert_anchor("site/content/blog/2020", "fr"),
        InsertAnchor::Off
    );
    site.library.remove_section("site/content/_index.md");
    assert_eq!(site.find_parent_section_insert_anchor("site/content/notes", "en"), InsertAnchor::Off);
    assert_eq!(
        site.find_parent_section_insert_anchor("elsewhere/notes", "en"),
        InsertAnchor::Off
    );
    let jobs = {
        site.add_page(page(&["blog", "2020"], "deep.md", "en"), true)
    };
    assert_eq!(
        jobs,
        Some(MarkdownJob::Page {
            path: "site/content/blog/2020/deep.md".to_string(),
            insert_anchor: InsertAnchor::Right,
        })
    );
}

#[test]
fn adding_a_document_hands_back_its_job_on_request() {
    let mut site = Site::new("site", config());
    assert_eq!(site.add_section(section(&["blog"], "_index.md", "en"), false), None);
    assert_eq!(
        site.add_section(section(&["blog"], "_index.md", "en"), true),
        Some(MarkdownJob::Section { path: "site/content/blog/_index.md".to_string() })
    );
    assert_eq!(site.library.sections_values().len(), 1);
    assert_eq!(site.add_page(page(&["blog"], "a.md", "en"), false), None);
    assert_eq!(
        site.add_page(page(&["blog"], "a.md", "en"), true),
        Some(MarkdownJob::Page {
            path: "site/content/blog/a.md".to_string(),
            insert_anchor: InsertAnchor::Off,
        })
    );
    assert_eq!(site.library.pages_values().len(), 1);
    assert_eq!(site.permalinks.len(), 2);
}

#[test]
fn a_changed_page_is_put_back_and_rendered() {
    let mut site = Site::new("site", config());
    site.load(vec![section(&["blog"], "_index.md", "en")], vec![page(&["blog"], "a.md", "en"), page(&["blog"], "b.md", "en")])
        .unwrap();
    let mut changed = page(&["blog"], "a.md", "en");
    changed.raw_content = "new".to_string();
    let (job, steps) = site.add_and_render_page(changed).unwrap();
    assert_eq!(
        job,
        MarkdownJob::Page { path: "site/content/blog/a.md".to_string(), insert_anchor: InsertAnchor::Off }
    );
    assert_eq!(
        steps,
        vec![Step::Render {
            source: Source::Page { path: "site/content/blog/a.md".to_string() },
            components: vec!["blog".to_string(), "a".to_string(), String::new()],
            filename: "index.html".to_string(),
            create_dirs: false,
            livereload: true,
        }]
    );
    assert_eq!(site.library.pages_values().len(), 2);
    assert_eq!(site.library.get_page_key("site/content/blog/a.md"), Some(1));
    assert_eq!(site.library.get_page_by_key(1).raw_content, "new");
    assert_eq!(site.library.get_section_by_key(0).pages, vec![0, 1]);
}

#[test]
fn a_changed_section_is_put_back_and_rendered_with_its_pages() {
    let mut site = Site::new("site", config());
    site.load(vec![section(&["blog"], "_index.md", "en")], vec![page(&["blog"], "a.md", "en")])
        .unwrap();
    let (job, steps) = site.add_and_render_section(section(&["blog"], "_index.md", "en"));
    assert_eq!(job, MarkdownJob::Section { path: "site/content/blog/_index.md".to_string() });
    assert_eq!(
        steps,
        vec![
            Step::Directory { components: Vec::new() },
            Step::Directory { components: vec!["blog".to_string()] },
            Step::Render {
                source: Source::Page { path: "site/content/blog/a.md".to_string() },
                components: vec!["blog".to_string(), "a".to_string(), String::new()],
                filename: "index.html".to_string(),
                create_dirs: false,
                livereload: true,
            },
            Step::Render {
                source: Source::Section { path: "site/content/blog/_index.md".to_string() },
                components: vec!["blog".to_string()],
                filename: "index.html".to_string(),
                create_dirs: false,
                livereload: true,
            },
        ]
    );
    assert_eq!(site.library.sections_values().len(), 2);
    assert_eq!(site.library.get_section_key("site/content/blog/_index.md"), Some(1));
    assert_eq!(site.library.get_section_by_key(1).pages, vec![0]);
    assert_eq!(site.library.get_section_by_key(0).subsections, vec![1]);
}

#[test]
fn links_between_documents_lead_to_permalinks() {
    let mut site = Site::new("site", config());
    site.add_page(page(&["blog"], "a.md", "en"), false);
    site.add_section(section(&["blog"], "_index.md", "en"), false);
    assert_eq!(
        site.resolve_internal_link("blog/b.md", "@/blog/a.md"),
        Ok("https://example.org/blog/a/".to_string())
    );
    assert_eq!(
        site.resolve_internal_link("blog/b.md", "@/blog/a.md#part-two"),
        Ok("https://example.org/blog/a/#part-two".to_string())
    );
    assert_eq!(
        site.resolve_internal_link("blog/b.md", "blog/_index.md#top#more"),
        Ok("https://example.org/blog/#top".to_string())
    );
    assert_eq!(
        site.resolve_internal_link("blog/b.md", "@/blog/a.md#"),
        Ok("https://example.org/blog/a/#".to_string())
    );
    let broken = site.resolve_internal_link("blog/b.md", "@/blog/none.md#x");
    assert_eq!(
        broken,
        Err(Error::BrokenLink {
            document: "blog/b.md".to_string(),
            target: "@/blog/none.md#x".to_string(),
        })
    );
    assert_eq!(
        broken.unwrap_err().message(),
        "Relative link @/blog/none.md#x not found in blog/b.md"
    );
    assert!(site.resolve_internal_link("blog/b.md", "").is_err());
    assert!(site.resolve_internal_link("blog/b.md", "@/").is_err());
}
