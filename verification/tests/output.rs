use site::config::{Config, Mode};
use site::errors::Error;
use site::output::{agreed, inject, minify, percent_decode, site_path_of, Output, OutputFile};
use site::site::Site;
use site::store::TextMap;
use site::BuildMode;

fn config() -> Config {
    Config {
        base_url: "https://example.org".to_string(),
        theme: None,
        default_language: "en".to_string(),
        languages: Vec::new(),
        generate_feed: false,
        feed_filename: "atom.xml".to_string(),
        hard_link_static: false,
        taxonomies: Vec::new(),
        compile_sass: false,
        build_search_index: false,
        minify_html: false,
        mode: Mode::Build,
    }
}

fn strings(items: &[&str]) -> Vec<String> {
    items.iter().map(|s| s.to_string()).collect()
}

#[test]
fn disk_write_records_directories_and_file() {
    let site = Site::new("site", config());
    let mut out = Output::new();
    let written = site.write_content(
        &mut out,
        &strings(&["blog", "post"]),
        "index.html",
        "<p>  hello  </p>".to_string(),
        false,
    );
    assert_eq!(written, Ok(strings(&["blog", "post"])));
    assert_eq!(
        out.directories,
        vec![Vec::<String>::new(), strings(&["blog"]), strings(&["blog", "post"])]
    );
    assert_eq!(
        out.files,
        vec![OutputFile {
            components: strings(&["blog", "post"]),
            filename: "index.html".to_string(),
            content: "<p>  hello  </p>".to_string(),
        }]
    );
    assert_eq!(out.content.len(), 0);
}

#[test]
fn disk_write_into_the_root_asks_for_the_root_only() {
    let site = Site::new("site", config());
    let mut out = Output::new();
    let written = site.write_content(&mut out, &Vec::new(), "robots.txt", "x".to_string(), false);
    assert_eq!(written, Ok(Vec::new()));
    assert_eq!(out.directories, vec![Vec::<String>::new()]);
    assert_eq!(out.files.len(), 1);
    assert_eq!(out.files[0].filename, "robots.txt");
}

#[test]
fn memory_write_of_index_is_kept_under_its_directory() {
    let mut site = Site::new("site", config());
    let mut out = Output::new();
    site.enable_serve_mode(&mut out.content);
    assert_eq!(site.build_mode, BuildMode::Memory);
    let written = site.write_content(
        &mut out,
        &strings(&["blog", "post-1"]),
        "index.html",
        "<p>post</p>".to_string(),
        false,
    );
    assert_eq!(written, Ok(strings(&["blog", "post-1"])));
    assert_eq!(out.content.get("blog/post-1"), Some(&"<p>post</p>".to_string()));
    assert_eq!(out.content.len(), 1);
    assert!(out.files.is_empty());
    assert_eq!(out.directories, vec![Vec::<String>::new()]);
    assert_eq!(
        relative_path::RelativePathBuf::from("/blog/post-1/"),
        relative_path::RelativePathBuf::from("blog/post-1")
    );
}

#[test]
fn memory_write_of_other_files_keeps_the_file_name() {
    let mut site = Site::new("site", config());
    let mut out = Output::new();
    site.enable_serve_mode(&mut out.content);
    site.write_content(&mut out, &strings(&["fr"]), "atom.xml", "<feed/>".to_string(), false)
        .unwrap();
    site.write_content(&mut out, &Vec::new(), "sitemap.xml", "<urlset/>".to_string(), false)
        .unwrap();
    site.write_content(&mut out, &Vec::new(), "index.html", "home".to_string(), false).unwrap();
    assert_eq!(out.content.get("fr/atom.xml"), Some(&"<feed/>".to_string()));
    assert_eq!(out.content.get("sitemap.xml"), Some(&"<urlset/>".to_string()));
    assert_eq!(out.content.get(""), Some(&"home".to_string()));
    assert_eq!(out.content.len(), 3);
}

#[test]
fn memory_write_replaces_what_the_key_held() {
    let mut site = Site::new("site", config());
    let mut out = Output::new();
    site.enable_serve_mode(&mut out.content);
    site.write_content(&mut out, &strings(&["a"]), "index.html", "one".to_string(), false).unwrap();
    site.write_content(&mut out, &strings(&["a", ""]), "index.html", "two".to_string(), false)
        .unwrap();
    assert_eq!(out.content.get("a"), Some(&"two".to_string()));
    assert_eq!(out.content.len(), 1);
}

#[test]
fn memory_key_is_the_path_of_the_url() {
    let mut site = Site::new("site", config());
    let mut out = Output::new();
    site.enable_serve_mode(&mut out.content);
    site.write_content(&mut out, &strings(&["my post"]), "index.html", "a".to_string(), false)
        .unwrap();
    assert_eq!(out.content.get("my post"), Some(&"a".to_string()));
    assert_eq!(out.content.get("my%20post"), None);
    site.write_content(&mut out, &strings(&["my%20post"]), "index.html", "X".to_string(), false)
        .unwrap();
    assert_eq!(out.content.get("my post"), Some(&"X".to_string()));
    assert_eq!(out.content.len(), 1);
    site.write_content(&mut out, &strings(&["caf\u{e9}", "\u{4e2d}"]), "a.html", "u".to_string(), false)
        .unwrap();
    assert_eq!(out.content.get("caf\u{e9}/\u{4e2d}/a.html"), Some(&"u".to_string()));
    site.write_content(&mut out, &strings(&["a%2Fb"]), "index.html", "s".to_string(), false)
        .unwrap();
    assert_eq!(out.content.get("a/b"), Some(&"s".to_string()));
    site.write_content(&mut out, &strings(&["x//y"]), "index.html", "b".to_string(), false)
        .unwrap();
    assert_eq!(out.content.get("x/y"), Some(&"b".to_string()));
    assert_eq!(out.content.get("x//y"), None);
    site.write_content(&mut out, &strings(&["up", "..", "down"]), "index.html", "c".to_string(), false)
        .unwrap();
    assert_eq!(out.content.get("down"), Some(&"c".to_string()));
}

#[test]
fn memory_write_makes_directories_only_when_asked() {
    let mut site = Site::new("site", config());
    let mut out = Output::new();
    site.enable_serve_mode(&mut out.content);
    site.write_content(&mut out, &strings(&["a", "b"]), "index.html", "x".to_string(), true)
        .unwrap();
    assert_eq!(out.directories, vec![Vec::<String>::new(), strings(&["a"]), strings(&["a", "b"])]);
}

#[test]
fn logical_path_joins_components_with_single_slashes() {
    assert_eq!(site_path_of(&strings(&["a", "/b"]), "index.html"), "a/b");
    assert_eq!(site_path_of(&strings(&["a", "b"]), "feed.xml"), "a/b/feed.xml");
    assert_eq!(site_path_of(&strings(&["a", ""]), "index.html"), "a/");
    assert_eq!(site_path_of(&Vec::new(), "index.html"), "");
    assert_eq!(site_path_of(&Vec::new(), "404.html"), "404.html");
}

#[test]
fn minify_shortens_markup() {
    assert_eq!(minify("<p>  Hello, world!  </p>".to_string()), Ok("<p>Hello, world!".to_string()));
}

#[test]
fn minify_reports_where_it_failed() {
    let failed = minify("<p></div>".to_string());
    assert_eq!(
        failed,
        Err(Error::Minify {
            position: 3,
            message: Some("Unexpected closing tag.".to_string()),
            code_context: Some("1|<p></div>\n>|   R \n".to_string()),
        })
    );
    assert_eq!(
        failed.unwrap_err().message(),
        "Failed to truncate html at character 3: Unexpected closing tag. \n 1|<p></div>\n>|   R \n"
    );
}

#[test]
fn a_context_that_is_no_text_is_left_out_of_the_report() {
    let failed = minify(" \u{e9}</x>".to_string());
    assert_eq!(
        failed,
        Err(Error::Minify {
            position: 3,
            message: Some("Unexpected closing tag.".to_string()),
            code_context: None,
        })
    );
    assert_eq!(
        failed.unwrap_err().message(),
        "Failed to truncate html at character 3: Unexpected closing tag."
    );
    let bare = Error::Minify { position: 12, message: None, code_context: Some("x".to_string()) };
    assert_eq!(bare.message(), "Failed to truncate html at character 12 \n x");
}

#[test]
fn only_markup_is_minified_on_the_way_out() {
    let mut settings = config();
    settings.minify_html = true;
    let site = Site::new("site", settings);
    let mut out = Output::new();
    site.write_content(&mut out, &Vec::new(), "index.html", "<p>  Hello, world!  </p>".to_string(), false)
        .unwrap();
    site.write_content(&mut out, &Vec::new(), "robots.txt", "<p>  Hello, world!  </p>".to_string(), false)
        .unwrap();
    assert_eq!(out.files[0].content, "<p>Hello, world!");
    assert_eq!(out.files[1].content, "<p>  Hello, world!  </p>");
    let failed = site.write_content(&mut out, &strings(&["a"]), "index.html", "<p></div>".to_string(), false);
    assert!(matches!(failed, Err(Error::Minify { position: 3, .. })));
    assert_eq!(out.files.len(), 2);
    assert_eq!(site.minify("<p>  Hello, world!  </p>".to_string()), Ok("<p>Hello, world!".to_string()));
}

#[test]
fn livereload_script_goes_before_the_last_body_end() {
    assert_eq!(
        inject("<html><body>hi</body></html>".to_string(), 1024),
        "<html><body>hi<script src=\"/livereload.js?port=1024&amp;mindelay=10\"></script></body></html>"
    );
    assert_eq!(
        inject("a</body>b</body>c".to_string(), 7),
        "a</body>b<script src=\"/livereload.js?port=7&amp;mindelay=10\"></script></body>c"
    );
    assert_eq!(
        inject("no body".to_string(), 65535),
        "no body<script src=\"/livereload.js?port=65535&amp;mindelay=10\"></script>"
    );
    assert_eq!(
        inject("héllo</body>".to_string(), 1),
        "héllo<script src=\"/livereload.js?port=1&amp;mindelay=10\"></script></body>"
    );
}

#[test]
fn site_injects_only_when_live_reload_is_on() {
    let mut site = Site::new("site", config());
    assert_eq!(site.inject_livereload("<body></body>".to_string()), "<body></body>");
    site.enable_live_reload_with_port(1112);
    assert_eq!(
        site.inject_livereload("<body></body>".to_string()),
        "<body><script src=\"/livereload.js?port=1112&amp;mindelay=10\"></script></body>"
    );
    site.enable_live_reload(1112, Some(1112));
    assert_eq!(site.live_reload, None);
    site.enable_live_reload(1112, Some(1113));
    assert_eq!(site.live_reload, Some(1113));
    site.enable_live_reload(1112, None);
    assert_eq!(site.live_reload, None);
}

#[test]
fn text_map_holds_one_text_per_key() {
    let mut map = TextMap::new();
    assert_eq!(map.len(), 0);
    assert_eq!(map.get("a"), None);
    map.insert("a".to_string(), "1".to_string());
    map.insert("b".to_string(), "2".to_string());
    map.insert("a".to_string(), "3".to_string());
    assert_eq!(map.len(), 2);
    assert_eq!(map.get("a"), Some(&"3".to_string()));
    assert_eq!(map.get("b"), Some(&"2".to_string()));
    map.clear();
    assert_eq!(map.len(), 0);
    assert_eq!(map.get("a"), None);
}

#[test]
fn keep_fails_without_a_key() {
    let mut out = Output::new();
    assert_eq!(out.keep("a/b", Some("k".to_string()), "v".to_string()), Ok(()));
    assert_eq!(out.content.get("k"), Some(&"v".to_string()));
    let failed = out.keep("a/b", None, "v".to_string());
    assert_eq!(failed, Err(Error::NoContentKey { path: "a/b".to_string() }));
    assert_eq!(failed.unwrap_err().message(), "No content key for `a/b`");
}

#[test]
fn errors_say_what_went_wrong() {
    let collisions = Error::Collisions {
        found: vec![("https://example.org/a/".to_string(), strings(&["a.md", "b/a.md"]))],
    };
    assert_eq!(
        collisions.message(),
        "Found path collisions:\n- `https://example.org/a/` from files a.md, b/a.md\n"
    );
    let unknown = Error::UnknownTaxonomy { page: "content/a.md".to_string(), taxonomy: "tags".to_string() };
    assert_eq!(
        unknown.message(),
        "Page `content/a.md` has taxonomy `tags` which is not defined in config.toml"
    );
    assert_eq!(Error::MinifiedNotText.message(), "Failed to convert bytes to string");
    assert_eq!(
        Error::SearchIndexDisabled.message(),
        "The settings ask for a search index, but the root section keeps itself out of it: turn the search index off in the settings, or take `in_search_index = false` out of the front matter of the root section."
    );
}

#[test]
fn a_key_must_be_the_key_that_was_expected() {
    assert_eq!(agreed("a/b".to_string(), Some("a/b".to_string())), Some("a/b".to_string()));
    assert_eq!(agreed("a/b".to_string(), Some("a/b/".to_string())), None);
    assert_eq!(agreed("a/b".to_string(), None), None);
    assert_eq!(agreed(String::new(), Some(String::new())), Some(String::new()));
}

#[test]
fn percent_signs_with_two_digits_stand_for_bytes() {
    assert_eq!(percent_decode("my%20post"), Some("my post".to_string()));
    assert_eq!(percent_decode("a%2Fb%2fc"), Some("a/b/c".to_string()));
    assert_eq!(percent_decode("caf%C3%A9"), Some("caf\u{e9}".to_string()));
    assert_eq!(percent_decode("caf\u{e9}"), Some("caf\u{e9}".to_string()));
    assert_eq!(percent_decode("100%"), Some("100%".to_string()));
    assert_eq!(percent_decode("%2"), Some("%2".to_string()));
    assert_eq!(percent_decode("%zz%41"), Some("%zzA".to_string()));
    assert_eq!(percent_decode("%2541"), Some("%41".to_string()));
    assert_eq!(percent_decode("%%41"), Some("%A".to_string()));
    assert_eq!(percent_decode(""), Some(String::new()));
    assert_eq!(percent_decode("%FF"), None);
    assert_eq!(percent_decode("%C3"), None);
}

#[test]
fn a_path_that_decodes_to_no_text_has_no_key() {
    let mut site = Site::new("site", config());
    let mut out = Output::new();
    site.enable_serve_mode(&mut out.content);
    let failed = site.write_content(&mut out, &strings(&["%FF"]), "index.html", "x".to_string(), false);
    assert_eq!(failed, Err(Error::NoContentKey { path: "%FF".to_string() }));
    assert_eq!(out.content.len(), 0);
}
