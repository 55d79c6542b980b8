use site::config::{Config, Language, Mode};
use site::content::{entry_kind, EntryKind, FileInfo, InsertAnchor, Section, SectionMeta};
use site::errors::Error;
use site::library::Library;
use site::output::{minified_text, minify, preview_path_of, MinifyFailure};
use site::paths::{parent_of, stem_of};

#[test]
fn files_are_told_apart_by_their_names() {
    assert_eq!(entry_kind("_index.md"), EntryKind::Section);
    assert_eq!(entry_kind("_index.fr.md"), EntryKind::Section);
    assert_eq!(entry_kind("post.md"), EntryKind::Page);
    assert_eq!(entry_kind("_index"), EntryKind::Page);
    assert_eq!(entry_kind("index.md"), EntryKind::Page);
    assert_eq!(entry_kind(".hidden.md"), EntryKind::Hidden);
    assert_eq!(entry_kind("._index.md"), EntryKind::Hidden);
    assert_eq!(entry_kind(""), EntryKind::Page);
}

#[test]
fn the_place_of_a_file_follows_from_its_directories() {
    let deep = FileInfo::new(
        "site/content",
        vec!["blog".to_string(), "2020".to_string()],
        "post.fr.md",
    );
    assert_eq!(deep.path, "site/content/blog/2020/post.fr.md");
    assert_eq!(deep.parent, "site/content/blog/2020");
    assert_eq!(deep.grand_parent, Some("site/content/blog".to_string()));
    assert_eq!(deep.relative, "blog/2020/post.fr.md");
    assert_eq!(deep.filename, "post.fr.md");
    assert_eq!(deep.name, "post.fr");
    assert_eq!(deep.components, vec!["blog".to_string(), "2020".to_string()]);

    let root = FileInfo::new("site/content", Vec::new(), "_index.md");
    assert_eq!(root.path, "site/content/_index.md");
    assert_eq!(root.parent, "site/content");
    assert_eq!(root.grand_parent, Some("site".to_string()));
    assert_eq!(root.relative, "_index.md");
    assert_eq!(root.name, "_index");

    let bare = FileInfo::new("content", Vec::new(), "about.md");
    assert_eq!(bare.path, "content/about.md");
    assert_eq!(bare.grand_parent, None);

    let one = FileInfo::new("content", vec!["blog".to_string()], "_index.md");
    assert_eq!(one.grand_parent, Some("content".to_string()));
    assert_eq!(one.relative, "blog/_index.md");
}

#[test]
fn parents_and_stems() {
    assert_eq!(parent_of("site/content/blog"), Some("site/content".to_string()));
    assert_eq!(parent_of("site"), None);
    assert_eq!(parent_of(""), None);
    assert_eq!(parent_of("/site"), Some(String::new()));
    assert_eq!(stem_of("post.md"), "post");
    assert_eq!(stem_of("_index.fr.md"), "_index.fr");
    assert_eq!(stem_of("README"), "README");
    assert_eq!(stem_of(".hidden"), "");
}

#[test]
fn an_empty_section_is_rendered_and_searched() {
    let section = Section::default();
    assert!(section.meta.render);
    assert!(section.meta.in_search_index);
    assert!(!section.meta.generate_feed);
    assert!(!section.meta.is_paginated());
    assert_eq!(section.meta.paginate_path, "page");
    assert_eq!(section.meta.insert_anchor_links, InsertAnchor::Off);
    assert_eq!(section.meta.redirect_to, None);
    assert!(section.is_index());
    assert!(section.pages.is_empty());
    assert_eq!(section.file, FileInfo::default());
    assert_eq!(section.meta, SectionMeta::default());
    let mut paginated = Section::default();
    paginated.meta.paginate_by = Some(0);
    assert!(!paginated.meta.is_paginated());
    paginated.meta.paginate_by = Some(10);
    assert!(paginated.meta.is_paginated());
    paginated.file.components.push("blog".to_string());
    assert!(!paginated.is_index());
}

#[test]
fn children_are_the_pages_of_a_section() {
    let mut library = Library::new(0, 1, false);
    let mut section = Section::default();
    section.file = FileInfo::new("content", Vec::new(), "_index.md");
    section.lang = "en".to_string();
    library.insert_section(section);
    assert!(library.children_of(0).is_empty());
}

#[test]
fn minified_bytes_must_be_text() {
    assert_eq!(minified_text(Ok((b"<p>hi</p>tail".to_vec(), 9))), Ok("<p>hi</p>".to_string()));
    assert_eq!(minified_text(Ok((b"abc".to_vec(), 7))), Ok("abc".to_string()));
    assert_eq!(minified_text(Ok((vec![0x61, 0xff, 0x62], 3))), Err(Error::MinifiedNotText));
    assert_eq!(minified_text(Ok((vec![0x61, 0xff, 0x62], 1))), Ok("a".to_string()));
    assert_eq!(minified_text(Ok((vec![0xc3, 0xa9], 1))), Err(Error::MinifiedNotText));
    assert_eq!(
        minified_text(Err(MinifyFailure {
            position: 12,
            message: b"Unexpected end of source code.".to_vec(),
            code_context: b"1|<p\n".to_vec(),
        })),
        Err(Error::Minify {
            position: 12,
            message: Some("Unexpected end of source code.".to_string()),
            code_context: Some("1|<p\n".to_string()),
        })
    );
    assert_eq!(
        minified_text(Err(MinifyFailure {
            position: 3,
            message: vec![0x80],
            code_context: vec![0x31, 0x7c, 0xc3, 0xa9, 0xa9],
        })),
        Err(Error::Minify { position: 3, message: None, code_context: None })
    );
}

#[test]
fn minify_answers_for_odd_markup() {
    for markup in [
        "",
        " ",
        "<",
        "<p",
        "</",
        "<!--",
        "<!-- open",
        "<?xml",
        "<![CDATA[",
        "<a href=",
        "<a href='x",
        "<script>",
        "<script>let a = '</p>';</script>",
        "<style>",
        "&amp;",
        "&#xZZ;",
        "&#99999999;",
        "héllo wörld",
        "<p>één</p>",
        "<pre>  kept  </pre>",
        "<br><br/>",
        "<table><tr><td>x",
        "&lt;a",
        "&lt;/a>",
        "&#60;a>",
        "&#x3c;script>",
        "&LT;a&LT;b",
        "a < b > c",
        "<p>a &lt b</p>",
        "<<<>>>",
        "<a b=c d='e' f=\"g\">",
        "<A HREF=X>y</A>",
        "<p>\u{0}</p>",
        "<textarea>  a  </textarea>",
        "<svg><path d=\"M0 0\"/></svg>",
    ] {
        match minify(markup.to_string()) {
            Ok(text) => assert!(text.len() <= markup.len(), "{:?} grew to {:?}", markup, text),
            Err(Error::Minify { position, .. }) => assert!(position <= markup.len()),
            Err(other) => panic!("{:?} failed with {:?}", markup, other),
        }
    }
}

#[test]
fn a_preview_path_is_the_path_of_the_preview_url() {
    assert_eq!(preview_path_of("blog/post-1"), Some("blog/post-1".to_string()));
    assert_eq!(preview_path_of("blog/post-1/"), Some("blog/post-1/".to_string()));
    assert_eq!(preview_path_of(""), Some(String::new()));
    assert_eq!(preview_path_of("a b/ü"), Some("a%20b/%C3%BC".to_string()));
    assert_eq!(preview_path_of("a/./b/../c"), Some("a/c".to_string()));
    assert_eq!(preview_path_of("page?x=1#top"), Some("page".to_string()));
    assert_eq!(preview_path_of("//a"), Some("a".to_string()));
}

fn settings(codes: &[&str]) -> Config {
    Config {
        base_url: "https://example.org".to_string(),
        theme: None,
        default_language: "en".to_string(),
        languages: codes
            .iter()
            .map(|code| Language { code: code.to_string(), feed: false, search: false })
            .collect(),
        generate_feed: false,
        feed_filename: "atom.xml".to_string(),
        hard_link_static: false,
        taxonomies: Vec::new(),
        compile_sass: false,
        build_search_index: false,
        minify_html: false,
        mode: Mode::Build,
    }
}

#[test]
fn the_name_of_a_file_gives_its_language() {
    let mut plain = FileInfo::new("content", Vec::new(), "post.md");
    assert_eq!(plain.find_language(&settings(&["fr"])), Ok("en".to_string()));
    assert_eq!(plain.name, "post");

    let mut french = FileInfo::new("content", Vec::new(), "post.fr.md");
    assert_eq!(french.name, "post.fr");
    assert_eq!(french.find_language(&settings(&["de", "fr"])), Ok("fr".to_string()));
    assert_eq!(french.name, "post");
    assert_eq!(french.filename, "post.fr.md");

    let mut single = FileInfo::new("content", Vec::new(), "post.fr.md");
    assert_eq!(single.find_language(&settings(&[])), Ok("en".to_string()));
    assert_eq!(single.name, "post.fr");

    let mut unknown = FileInfo::new("content", vec!["blog".to_string()], "post.it.md");
    let failed = unknown.find_language(&settings(&["fr"]));
    assert_eq!(
        failed,
        Err(Error::UnknownLanguage {
            path: "content/blog/post.it.md".to_string(),
            code: "it".to_string(),
        })
    );
    assert_eq!(unknown.name, "post.it");
    assert_eq!(
        failed.unwrap_err().message(),
        "File `content/blog/post.it.md` has a language code of `it` which is not among the languages of the settings"
    );

    let mut dotted = FileInfo::new("content", Vec::new(), "a.b.fr.md");
    assert_eq!(
        dotted.find_language(&settings(&["fr"])),
        Err(Error::UnknownLanguage { path: "content/a.b.fr.md".to_string(), code: "b.fr".to_string() })
    );
}
