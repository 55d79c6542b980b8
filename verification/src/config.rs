//! The settings of a site, as far as building it reads them.

use vstd::prelude::*;
use vstd::string::*;
use crate::text::{drop_first_char, ends_with, starts_with, str_eq};

verus! {

/// What the site is being built for.
#[derive(Debug, Clone, Copy, PartialEq, Eq, Structural)]
pub enum Mode {
    Build,
    Serve,
    Check,
}

/// A language of the site besides the default one.
#[derive(Debug, Clone, PartialEq, Eq)]
pub struct Language {
    /// The code that names the language in paths and file names.
    pub code: String,
    /// Whether the language gets a feed of its own.
    pub feed: bool,
    /// Whether the language gets a search index of its own.
    pub search: bool,
}

/// One classification of pages, such as tags or categories.
#[derive(Debug, Clone, PartialEq, Eq)]
pub struct TaxonomyConfig {
    pub name: String,
    /// The name in the form used in output paths.
    pub slug: String,
    /// How many pages a pager of a term holds; `None` or zero for no pagination.
    pub paginate_by: Option<usize>,
    /// The path component under which numbered pagers are written.
    pub paginate_path: String,
    /// Whether each term gets a feed.
    pub feed: bool,
    /// The language whose pages the taxonomy classifies.
    pub lang: String,
}

impl TaxonomyConfig {
    /// The terms of the taxonomy are rendered in pagers.
    pub open spec fn paginated(&self) -> bool {
        self.paginate_by matches Some(n) && n > 0
    }

    /// Whether the terms of this taxonomy are rendered in pagers.
    pub fn is_paginated(&self) -> (r: bool)
        ensures
            r == self.paginated(),
    {
        match self.paginate_by {
            Some(n) => n > 0,
            None => false,
        }
    }
}

/// The settings of a site.
#[derive(Debug, Clone, PartialEq, Eq)]
pub struct Config {
    /// The URL under which the site is published.
    pub base_url: String,
    /// The theme in use, if any.
    pub theme: Option<String>,
    pub default_language: String,
    /// The languages besides the default one.
    pub languages: Vec<Language>,
    /// Whether a feed of the whole site is rendered.
    pub generate_feed: bool,
    pub feed_filename: String,
    /// Whether static files are hard-linked rather than copied.
    pub hard_link_static: bool,
    pub taxonomies: Vec<TaxonomyConfig>,
    pub compile_sass: bool,
    pub build_search_index: bool,
    pub minify_html: bool,
    pub mode: Mode,
}

/// The address of `path` under `base_url`: the two joined by exactly one
/// slash, with a slash at the end unless `path` is empty, already ends in
/// one, or names the feed file.
pub open spec fn permalink_of(base_url: Seq<char>, feed_filename: Seq<char>, path: Seq<char>) -> Seq<
    char,
> {
    let slash = seq!['/'];
    let tail = if slash.is_suffix_of(path) || feed_filename.is_suffix_of(path) || path.len() == 0 {
        Seq::empty()
    } else {
        slash
    };
    if path == slash {
        if slash.is_suffix_of(base_url) {
            base_url
        } else {
            base_url + slash
        }
    } else if slash.is_suffix_of(base_url) && slash.is_prefix_of(path) {
        base_url + path.drop_first() + tail
    } else if slash.is_suffix_of(base_url) || slash.is_prefix_of(path) {
        base_url + path + tail
    } else {
        base_url + slash + path + tail
    }
}

impl Config {
    /// The address of `path` in this site.
    pub open spec fn permalink(&self, path: Seq<char>) -> Seq<char> {
        permalink_of(self.base_url@, self.feed_filename@, path)
    }

    /// The absolute address of `path` in the site.
    pub fn make_permalink(&self, path: &str) -> (out: String)
        ensures
            out@ == self.permalink(path@),
    {
        proof {
            reveal_strlit("/");
        }
        let base_slash = ends_with(self.base_url.as_str(), "/");
        let path_slash = starts_with(path, "/");
        let no_tail = ends_with(path, "/") || ends_with(path, self.feed_filename.as_str())
            || path.unicode_len() == 0;
        let tail = if no_tail {
            ""
        } else {
            "/"
        };
        proof {
            reveal_strlit("");
            assert(""@ =~= Seq::<char>::empty());
            assert("/"@ =~= seq!['/']);
        }
        let mut out = self.base_url.clone();
        if str_eq(path, "/") {
            if !base_slash {
                out.append("/");
            }
        } else if base_slash && path_slash {
            let rest = drop_first_char(path);
            out.append(rest.as_str());
            out.append(tail);
        } else if base_slash || path_slash {
            out.append(path);
            out.append(tail);
        } else {
            out.append("/");
            out.append(path);
            out.append(tail);
        }
        out
    }

    /// The site has a language besides the default one.
    pub open spec fn multilingual(&self) -> bool {
        self.languages@.len() > 0
    }

    /// Whether the site has a language besides the default one.
    pub fn is_multilingual(&self) -> (r: bool)
        ensures
            r == self.multilingual(),
    {
        self.languages.len() > 0
    }

    /// Whether the build is only checking the site.
    pub fn is_in_check_mode(&self) -> (r: bool)
        ensures
            r == (self.mode == Mode::Check),
    {
        match self.mode {
            Mode::Check => true,
            _ => false,
        }
    }

    /// Switches to serving a preview.
    pub fn enable_serve_mode(&mut self)
        ensures
            *final(self) == (Config { mode: Mode::Serve, ..*old(self) }),
    {
        self.mode = Mode::Serve;
    }
}

} // verus!
