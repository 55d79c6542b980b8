use site::content::{FileInfo, InsertAnchor, Page, PageMeta, Section, SectionMeta};
use site::library::Library;

fn file(components: &[&str], filename: &str) -> FileInfo {
    let content = "site/content";
    let parent = if components.is_empty() {
        content.to_string()
    } else {
        format!("{}/{}", content, components.join("/"))
    };
    let grand_parent = if components.is_empty() {
        Some("site".to_string())
    } else if components.len() == 1 {
        Some(content.to_string())
    } else {
        Some(format!("{}/{}", content, components[..components.len() - 1].join("/")))
    };
    let relative = if components.is_empty() {
        filename.to_string()
    } else {
        format!("{}/{}", components.join("/"), filename)
    };
    FileInfo {
        path: format!("{}/{}", parent, filename),
        filename: filename.to_string(),
        name: filename.trim_end_matches(".md").to_string(),
        relative,
        parent,
        grand_parent,
        components: components.iter().map(|c| c.to_string()).collect(),
    }
}

fn page(components: &[&str], filename: &str, lang: &str) -> Page {
    let stem = filename.trim_end_matches(".md");
    let path = if components.is_empty() {
        format!("{}/", stem)
    } else {
        format!("{}/{}/", components.join("/"), stem)
    };
    Page {
        file: file(components, filename),
        meta: PageMeta {
            title: None,
            date: None,
            draft: false,
            aliases: Vec::new(),
            taxonomies: Vec::new(),
            in_search_index: true,
        },
        lang: lang.to_string(),
        permalink: format!("https://example.org/{}", path),
        path,
        raw_content: String::new(),
        content: String::new(),
        assets: Vec::new(),
    }
}

fn section(components: &[&str], filename: &str, lang: &str) -> Section {
    let path = if components.is_empty() {
        "/".to_string()
    } else {
        format!("/{}/", components.join("/"))
    };
    Section {
        file: file(components, filename),
        meta: SectionMeta {
            title: None,
            aliases: Vec::new(),
            render: true,
            redirect_to: None,
            paginate_by: None,
            paginate_path: "page".to_string(),
            generate_feed: false,
            insert_anchor_links: InsertAnchor::Off,
            in_search_index: true,
        },
        lang: lang.to_string(),
        permalink: format!("https://example.org{}", path),
        path,
        raw_content: String::new(),
        content: String::new(),
        assets: Vec::new(),
        pages: Vec::new(),
        subsections: Vec::new(),
        ancestors: Vec::new(),
    }
}

fn small_library() -> Library {
    let mut library = Library::new(4, 3, false);
    library.insert_section(section(&[], "_index.md", "en"));
    library.insert_section(section(&["blog"], "_index.md", "en"));
    library.insert_section(section(&["blog", "2020"], "_index.md", "en"));
    library.insert_page(page(&["blog"], "first.md", "en"));
    library.insert_page(page(&[], "about.md", "en"));
    library.insert_page(page(&["blog"], "second.md", "en"));
    library.insert_page(page(&["notes"], "lost.md", "en"));
    library.insert_page(page(&["blog", "2020"], "old.md", "en"));
    library
}

#[test]
fn insert_keeps_order_and_finds_by_path() {
    let library = small_library();
    assert_eq!(library.pages_values().len(), 5);
    assert_eq!(library.sections_values().len(), 3);
    assert_eq!(library.get_page_key("site/content/blog/first.md"), Some(0));
    assert_eq!(library.get_page_key("site/content/blog/second.md"), Some(2));
    assert_eq!(library.get_page_key("site/content/blog/none.md"), None);
    assert_eq!(library.get_section_key("site/content/blog/_index.md"), Some(1));
    assert!(library.contains_section("site/content/_index.md"));
    assert!(!library.contains_section("site/content/notes/_index.md"));
    assert!(library.contains_page("site/content/about.md"));
    assert_eq!(
        library.get_page("site/content/about.md").map(|p| p.path.clone()),
        Some("about/".to_string())
    );
    assert!(library.get_section("site/content/blog/2020/_index.md").is_some());
    assert!(!library.is_multilingual());
}

#[test]
fn insert_replaces_a_document_of_the_same_path() {
    let mut library = small_library();
    let mut again = page(&["blog"], "first.md", "en");
    again.raw_content = "changed".to_string();
    let key = library.insert_page(again);
    assert_eq!(key, 4);
    assert_eq!(library.pages_values().len(), 5);
    assert_eq!(library.get_page_key("site/content/blog/first.md"), Some(4));
    assert_eq!(library.get_page_key("site/content/about.md"), Some(0));
    assert_eq!(library.get_page_by_key(4).raw_content, "changed");

    let key = library.insert_section(section(&["blog"], "_index.md", "en"));
    assert_eq!(key, 2);
    assert_eq!(library.sections_values().len(), 3);
    assert_eq!(library.get_section_key("site/content/blog/2020/_index.md"), Some(1));
}

#[test]
fn remove_takes_the_document_out_and_unlinks_sections() {
    let mut library = small_library();
    library.populate_sections("site/content", "en");
    assert_eq!(library.get_section_by_key(1).pages, vec![0, 2]);
    let removed = library.remove_page("site/content/blog/first.md");
    assert_eq!(removed.map(|p| p.file.relative), Some("blog/first.md".to_string()));
    assert_eq!(library.pages_values().len(), 4);
    assert!(library.get_section_by_key(1).pages.is_empty());
    assert!(library.get_section_by_key(0).subsections.is_empty());
    assert!(library.remove_page("site/content/blog/first.md").is_none());

    let removed = library.remove_section("site/content/blog/_index.md");
    assert_eq!(removed.map(|s| s.path), Some("/blog/".to_string()));
    assert_eq!(library.sections_values().len(), 2);
    assert!(library.remove_section("site/content/blog/_index.md").is_none());
}

#[test]
fn populate_links_pages_subsections_and_ancestors() {
    let mut library = small_library();
    library.populate_sections("site/content", "en");
    let root = library.get_section_by_key(0);
    assert_eq!(root.pages, vec![1]);
    assert_eq!(root.subsections, vec![1]);
    assert!(root.ancestors.is_empty());
    let blog = library.get_section_by_key(1);
    assert_eq!(blog.pages, vec![0, 2]);
    assert_eq!(blog.subsections, vec![2]);
    assert_eq!(blog.ancestors, vec![0]);
    let year = library.get_section_by_key(2);
    assert_eq!(year.pages, vec![4]);
    assert!(year.subsections.is_empty());
    assert_eq!(year.ancestors, vec![0, 1]);
}

#[test]
fn populate_twice_changes_nothing() {
    let mut library = small_library();
    library.populate_sections("site/content", "en");
    let once: Vec<(Vec<usize>, Vec<usize>, Vec<usize>)> = library
        .sections_values()
        .iter()
        .map(|s| (s.pages.clone(), s.subsections.clone(), s.ancestors.clone()))
        .collect();
    library.populate_sections("site/content", "en");
    let twice: Vec<(Vec<usize>, Vec<usize>, Vec<usize>)> = library
        .sections_values()
        .iter()
        .map(|s| (s.pages.clone(), s.subsections.clone(), s.ancestors.clone()))
        .collect();
    assert_eq!(once, twice);
}

#[test]
fn populate_keeps_languages_apart() {
    let mut library = Library::new(2, 2, true);
    library.insert_section(section(&[], "_index.md", "en"));
    library.insert_section(section(&[], "_index.fr.md", "fr"));
    library.insert_page(page(&[], "hello.md", "en"));
    library.insert_page(page(&[], "bonjour.fr.md", "fr"));
    library.populate_sections("site/content", "en");
    assert_eq!(library.get_section_by_key(0).pages, vec![0]);
    assert_eq!(library.get_section_by_key(1).pages, vec![1]);
    assert!(library.is_multilingual());
}

#[test]
fn orphans_are_the_pages_of_no_section() {
    let mut library = small_library();
    assert_eq!(library.get_all_orphan_pages(), vec![0, 1, 2, 3, 4]);
    library.populate_sections("site/content", "en");
    assert_eq!(library.get_all_orphan_pages(), vec![3]);
}

#[test]
fn collisions_name_every_document_of_a_shared_permalink() {
    let mut library = small_library();
    assert!(library.check_for_path_collisions().is_empty());
    let mut twin = page(&["other"], "twin.md", "en");
    twin.permalink = "https://example.org/blog/first/".to_string();
    library.insert_page(twin);
    let mut shadow = section(&["shadow"], "_index.md", "en");
    shadow.permalink = "https://example.org/blog/first/".to_string();
    library.insert_section(shadow);
    let mut second = page(&["b"], "c.md", "en");
    second.permalink = "https://example.org/about/".to_string();
    library.insert_page(second);
    let found = library.check_for_path_collisions();
    assert_eq!(
        found,
        vec![
            (
                "https://example.org/blog/first/".to_string(),
                vec![
                    "blog/first.md".to_string(),
                    "other/twin.md".to_string(),
                    "shadow/_index.md".to_string()
                ]
            ),
            (
                "https://example.org/about/".to_string(),
                vec!["about.md".to_string(), "b/c.md".to_string()]
            ),
        ]
    );
}

#[test]
fn documents_are_found_by_permalink() {
    let library = small_library();
    assert_eq!(library.find_page_by_permalink("https://example.org/about/"), Some(1));
    assert_eq!(library.find_page_by_permalink("https://example.org/nothing/"), None);
    assert_eq!(library.find_section_by_permalink("https://example.org/blog/"), Some(1));
    assert_eq!(library.find_section_by_permalink("https://example.org/about/"), None);
}

#[test]
fn rendered_bodies_are_stored_on_the_document() {
    let mut library = small_library();
    assert!(library.set_page_content("site/content/about.md", "<p>about</p>".to_string()));
    assert!(!library.set_page_content("site/content/none.md", "x".to_string()));
    assert_eq!(library.get_page_by_key(1).content, "<p>about</p>");
    assert!(library.set_section_content("site/content/blog/_index.md", "<p>blog</p>".to_string()));
    assert!(!library.set_section_content("site/content/none/_index.md", "x".to_string()));
    assert_eq!(library.get_section_by_key(1).content, "<p>blog</p>");
}
