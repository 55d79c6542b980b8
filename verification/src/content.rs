//! The documents of a site: pages and sections, as parsing hands them over.

use vstd::prelude::*;
use vstd::string::*;
use crate::config::{Config, Language};
use crate::errors::Error;
use crate::paths::{descend, join_path, joined, parent_directory, parent_of, stem, stem_of};
use crate::seqs::{first_index, is_first, lemma_first_index, lemma_first_unique};
use crate::text::{chars_of, join, join_with, lemma_views_push, starts_with, views};

verus! {

/// On which side of a heading its anchor link is put, if on any.
#[derive(Debug, Clone, Copy, PartialEq, Eq, Structural)]
pub enum InsertAnchor {
    Left,
    Right,
    /// No anchor link is put.
    Off,
}

/// What a file of the content directory is, by its name.
#[derive(Debug, Clone, Copy, PartialEq, Eq, Structural)]
pub enum EntryKind {
    /// A file to pass over: its name begins with a dot.
    Hidden,
    /// A section: its name begins with `_index.`.
    Section,
    /// A page: any other file.
    Page,
}

/// What the file named `filename` is.
pub fn entry_kind(filename: &str) -> (kind: EntryKind)
    ensures
        kind == if "."@.is_prefix_of(filename@) {
            EntryKind::Hidden
        } else if "_index."@.is_prefix_of(filename@) {
            EntryKind::Section
        } else {
            EntryKind::Page
        },
{
    if starts_with(filename, ".") {
        EntryKind::Hidden
    } else if starts_with(filename, "_index.") {
        EntryKind::Section
    } else {
        EntryKind::Page
    }
}

/// Where a document lies in the source tree.
#[derive(Debug, Clone, PartialEq, Eq)]
pub struct FileInfo {
    /// The full path of the file. It identifies the document.
    pub path: String,
    /// The file's name with its extension.
    pub filename: String,
    /// The file's name without its extension.
    pub name: String,
    /// The path below the content directory.
    pub relative: String,
    /// The directory that holds the file.
    pub parent: String,
    /// The directory that holds `parent`, if it has one.
    pub grand_parent: Option<String>,
    /// The directories between the content directory and the file.
    pub components: Vec<String>,
}

/// A term that a page declares.
#[derive(Debug, Clone, PartialEq, Eq)]
pub struct TermLabel {
    pub name: String,
    /// The name in the form used in output paths.
    pub slug: String,
}

/// The terms that a page declares in one taxonomy.
#[derive(Debug, Clone, PartialEq, Eq)]
pub struct TermList {
    /// The name of the taxonomy.
    pub taxonomy: String,
    pub terms: Vec<TermLabel>,
}

/// What the front matter of a page says.
#[derive(Debug, Clone, PartialEq, Eq)]
pub struct PageMeta {
    pub title: Option<String>,
    pub date: Option<String>,
    pub draft: bool,
    /// Output paths that redirect to the page.
    pub aliases: Vec<String>,
    pub taxonomies: Vec<TermList>,
    pub in_search_index: bool,
}

/// A leaf document.
#[derive(Debug, Clone, PartialEq, Eq)]
pub struct Page {
    pub file: FileInfo,
    pub meta: PageMeta,
    pub lang: String,
    /// The output path, relative to the site's root.
    pub path: String,
    pub permalink: String,
    pub raw_content: String,
    /// The rendered body; empty until the body has been rendered.
    pub content: String,
    /// Files that lie beside the page and are copied beside its output.
    pub assets: Vec<String>,
}

/// What the front matter of a section says.
#[derive(Debug, Clone, PartialEq, Eq)]
pub struct SectionMeta {
    pub title: Option<String>,
    /// Output paths that redirect to the section.
    pub aliases: Vec<String>,
    /// Whether the section gets a document of its own.
    pub render: bool,
    /// Where the section's document redirects to, if it is a redirect.
    pub redirect_to: Option<String>,
    /// How many pages a pager holds; `None` or zero for no pagination.
    pub paginate_by: Option<usize>,
    /// The path component under which numbered pagers are written.
    pub paginate_path: String,
    pub generate_feed: bool,
    /// The anchor policy that the pages of the section inherit.
    pub insert_anchor_links: InsertAnchor,
    pub in_search_index: bool,
}

/// A document that lists the pages and sections of its directory.
#[derive(Debug, Clone, PartialEq, Eq)]
pub struct Section {
    pub file: FileInfo,
    pub meta: SectionMeta,
    pub lang: String,
    /// The output path, relative to the site's root.
    pub path: String,
    pub permalink: String,
    pub raw_content: String,
    /// The rendered body; empty until the body has been rendered.
    pub content: String,
    /// Files that lie beside the section and are copied beside its output.
    pub assets: Vec<String>,
    /// The pages directly in the section, by their positions in the library.
    pub pages: Vec<usize>,
    /// The sections directly below, by their positions in the library.
    pub subsections: Vec<usize>,
    /// The sections above, from the root down to the parent.
    pub ancestors: Vec<usize>,
}

/// The codes of the languages, position by position.
pub open spec fn language_codes(languages: Seq<Language>) -> Seq<Seq<char>> {
    Seq::new(languages.len(), |i: int| languages[i].code@)
}

/// What the name of a file, taken without its extension, says of the
/// language of the document.
pub enum Named {
    /// The document is in this language, and this is its name without the
    /// code of the language.
    Language(Seq<char>, Seq<char>),
    /// The name gives this code, which the settings do not have.
    Unknown(Seq<char>),
}

/// The language that a file named `name` is in. In a site of one language,
/// and where the name has no dot, it is the default language. Otherwise the
/// code of the language is what follows the first dot of the name, and the
/// settings must have it among their languages.
pub open spec fn language_of(config: Config, name: Seq<char>) -> Named {
    if !config.multilingual() {
        Named::Language(config.default_language@, name)
    } else {
        match first_index(name, '.') {
            Some(dot) => {
                let code = name.subrange(dot + 1, name.len() as int);
                if language_codes(config.languages@).contains(code) {
                    Named::Language(code, name.subrange(0, dot))
                } else {
                    Named::Unknown(code)
                }
            },
            None => Named::Language(config.default_language@, name),
        }
    }
}

/// The position of the first `c` in `chars`.
fn find_char(chars: &Vec<char>, c: char) -> (r: Option<usize>)
    ensures
        match r {
            Some(i) => first_index(chars@, c) == Some(i as int) && i < chars@.len(),
            None => first_index(chars@, c).is_none(),
        },
{
    let mut i: usize = 0;
    while i < chars.len()
        invariant
            i <= chars.len(),
            forall|j: int| 0 <= j < i ==> chars@[j] != c,
        decreases chars.len() - i,
    {
        if chars[i] == c {
            proof {
                assert(is_first(chars@, c, i as int));
                lemma_first_unique(chars@, c, i as int);
            }
            return Some(i);
        }
        i += 1;
    }
    proof {
        lemma_first_index(chars@, c);
    }
    None
}

/// Whether the settings have a language with the code `code`.
fn has_language(config: &Config, code: &String) -> (r: bool)
    ensures
        r == language_codes(config.languages@).contains(code@),
{
    let mut i: usize = 0;
    while i < config.languages.len()
        invariant
            i <= config.languages.len(),
            forall|j: int| 0 <= j < i ==> language_codes(config.languages@)[j] != code@,
        decreases config.languages.len() - i,
    {
        if config.languages[i].code == *code {
            proof {
                assert(language_codes(config.languages@)[i as int] == code@);
            }
            return true;
        }
        i += 1;
    }
    false
}

impl FileInfo {
    /// The language of the document, which its name gives. Where the name
    /// holds the code of the language, the code is taken out of the name.
    /// It fails, and changes nothing, where the name gives a code that the
    /// settings do not have.
    pub fn find_language(&mut self, config: &Config) -> (r: Result<String, Error>)
        ensures
            match language_of(*config, old(self).name@) {
                Named::Language(lang, name) => {
                    &&& r matches Ok(found)
                    &&& found@ == lang
                    &&& final(self).name@ == name
                    &&& *final(self) == (FileInfo { name: final(self).name, ..*old(self) })
                },
                Named::Unknown(code) => {
                    &&& r matches Err(Error::UnknownLanguage { path, code: given })
                    &&& path@ == old(self).path@
                    &&& given@ == code
                    &&& *final(self) == *old(self)
                },
            },
    {
        if !config.is_multilingual() {
            return Ok(config.default_language.clone());
        }
        let chars = chars_of(self.name.as_str());
        match find_char(&chars, '.') {
            Some(dot) => {
                let n = chars.len();
                let code = self.name.as_str().substring_char(dot + 1, n).to_owned();
                if has_language(config, &code) {
                    let name = self.name.as_str().substring_char(0, dot).to_owned();
                    self.name = name;
                    Ok(code)
                } else {
                    Err(Error::UnknownLanguage { path: self.path.clone(), code })
                }
            },
            None => Ok(config.default_language.clone()),
        }
    }

    /// The place of the file `filename` that lies below the content
    /// directory `content_path`, in the directories `components`.
    pub fn new(content_path: &str, components: Vec<String>, filename: &str) -> (r: FileInfo)
        ensures
            r.components == components,
            r.filename@ == filename@,
            r.name@ == stem(filename@),
            r.parent@ == descend(content_path@, views(components@), components@.len() as int),
            r.path@ == joined(r.parent@, filename@),
            r.relative@ == join(views(components@).push(filename@), seq!['/']),
            match r.grand_parent {
                Some(dir) => Some(dir@) == if components@.len() == 0 {
                    parent_directory(content_path@)
                } else {
                    Some(descend(content_path@, views(components@), components@.len() - 1))
                },
                None => components@.len() == 0 && parent_directory(content_path@).is_none(),
            },
    {
        let n = components.len();
        let mut parent = content_path.to_owned();
        let mut above = parent_of(content_path);
        let mut pieces: Vec<String> = Vec::new();
        let mut i: usize = 0;
        proof {
            assert(views(pieces@) =~= views(components@).take(0));
        }
        while i < n
            invariant
                i <= n,
                n == components@.len(),
                parent@ == descend(content_path@, views(components@), i as int),
                views(pieces@) == views(components@).take(i as int),
                match above {
                    Some(dir) => Some(dir@) == if i == 0 {
                        parent_directory(content_path@)
                    } else {
                        Some(descend(content_path@, views(components@), i - 1))
                    },
                    None => i == 0 && parent_directory(content_path@).is_none(),
                },
            decreases n - i,
        {
            let piece = components[i].clone();
            proof {
                lemma_views_push(pieces@, piece);
                assert(views(components@).take(i + 1) =~= views(components@).take(i as int).push(
                    piece@,
                ));
                assert(views(components@)[i as int] == components@[i as int]@);
            }
            let below = join_path(parent.as_str(), piece.as_str());
            above = Some(parent);
            parent = below;
            pieces.push(piece);
            i += 1;
        }
        pieces.push(filename.to_owned());
        proof {
            reveal_strlit("/");
            assert("/"@ =~= seq!['/']);
            assert(views(components@).take(n as int) =~= views(components@));
            assert(views(pieces@) =~= views(components@).push(filename@));
        }
        FileInfo {
            path: join_path(parent.as_str(), filename),
            filename: filename.to_owned(),
            name: stem_of(filename),
            relative: join_with(&pieces, "/"),
            parent,
            grand_parent: above,
            components,
        }
    }
}

impl Default for FileInfo {
    /// A place with nothing filled in.
    fn default() -> (r: FileInfo)
        ensures
            r.path@.len() == 0,
            r.filename@.len() == 0,
            r.name@.len() == 0,
            r.relative@.len() == 0,
            r.parent@.len() == 0,
            r.grand_parent.is_none(),
            r.components@.len() == 0,
    {
        FileInfo {
            path: String::new(),
            filename: String::new(),
            name: String::new(),
            relative: String::new(),
            parent: String::new(),
            grand_parent: None,
            components: Vec::new(),
        }
    }
}

impl Default for SectionMeta {
    /// What a section has where its front matter says nothing: it is
    /// rendered and searched, and neither paginated nor redirected.
    fn default() -> (r: SectionMeta)
        ensures
            r.title.is_none(),
            r.aliases@.len() == 0,
            r.render,
            r.redirect_to.is_none(),
            r.paginate_by.is_none(),
            r.paginate_path@ == "page"@,
            !r.generate_feed,
            r.insert_anchor_links == InsertAnchor::Off,
            r.in_search_index,
    {
        SectionMeta {
            title: None,
            aliases: Vec::new(),
            render: true,
            redirect_to: None,
            paginate_by: None,
            paginate_path: "page".to_owned(),
            generate_feed: false,
            insert_anchor_links: InsertAnchor::Off,
            in_search_index: true,
        }
    }
}

impl Default for Section {
    /// A section with nothing in it.
    fn default() -> (r: Section)
        ensures
            r.file.path@.len() == 0,
            r.file.filename@.len() == 0,
            r.file.name@.len() == 0,
            r.file.relative@.len() == 0,
            r.file.parent@.len() == 0,
            r.file.grand_parent.is_none(),
            r.file.components@.len() == 0,
            r.meta.title.is_none(),
            r.meta.aliases@.len() == 0,
            r.meta.render,
            r.meta.redirect_to.is_none(),
            r.meta.paginate_by.is_none(),
            r.meta.paginate_path@ == "page"@,
            !r.meta.generate_feed,
            r.meta.insert_anchor_links == InsertAnchor::Off,
            r.meta.in_search_index,
            r.lang@.len() == 0,
            r.path@.len() == 0,
            r.permalink@.len() == 0,
            r.raw_content@.len() == 0,
            r.content@.len() == 0,
            r.assets@.len() == 0,
            r.pages@.len() == 0,
            r.subsections@.len() == 0,
            r.ancestors@.len() == 0,
    {
        Section {
            file: FileInfo::default(),
            meta: SectionMeta::default(),
            lang: String::new(),
            path: String::new(),
            permalink: String::new(),
            raw_content: String::new(),
            content: String::new(),
            assets: Vec::new(),
            pages: Vec::new(),
            subsections: Vec::new(),
            ancestors: Vec::new(),
        }
    }
}

impl SectionMeta {
    /// The section is rendered in pagers.
    pub open spec fn paginated(&self) -> bool {
        self.paginate_by matches Some(n) && n > 0
    }

    /// Whether the section is rendered in pagers.
    pub fn is_paginated(&self) -> (r: bool)
        ensures
            r == self.paginated(),
    {
        match self.paginate_by {
            Some(n) => n > 0,
            None => false,
        }
    }
}

impl Section {
    /// The section is the root of its language: it lies in the content
    /// directory itself.
    pub open spec fn index(&self) -> bool {
        self.file.components@.len() == 0
    }

    /// Whether the section is the root of its language.
    pub fn is_index(&self) -> (r: bool)
        ensures
            r == self.index(),
    {
        self.file.components.len() == 0
    }
}

} // verus!
