//! The document graph: every page and section of a site, found by source
//! path, with the relations between them.

use vstd::prelude::*;
use vstd::string::*;
use crate::content::{Page, Section};
use crate::paths::{descend, join_path, section_path, section_path_of};
use crate::seqs::{
    all_below, distinct, first_index, hits, is_first, lemma_distinct_push, lemma_distinct_remove,
    lemma_first_exists, lemma_first_index, lemma_first_unique, lemma_occurrences_below,
    lemma_positions, occurrences, pick, positions,
};
use crate::text::views;

verus! {

/// The source paths of the pages, position by position.
pub open spec fn page_paths(pages: Seq<Page>) -> Seq<Seq<char>> {
    Seq::new(pages.len(), |i: int| pages[i].file.path@)
}

/// The source paths of the sections, position by position.
pub open spec fn section_paths(sections: Seq<Section>) -> Seq<Seq<char>> {
    Seq::new(sections.len(), |i: int| sections[i].file.path@)
}

/// The two hold the same document; the relations to other documents may differ.
pub open spec fn same_document(a: Section, b: Section) -> bool {
    &&& a.file == b.file
    &&& a.meta == b.meta
    &&& a.lang == b.lang
    &&& a.path == b.path
    &&& a.permalink == b.permalink
    &&& a.raw_content == b.raw_content
    &&& a.content == b.content
    &&& a.assets == b.assets
}

/// The same documents at the same positions.
pub open spec fn same_documents(a: Seq<Section>, b: Seq<Section>) -> bool {
    a.len() == b.len() && forall|i: int| 0 <= i < a.len() ==> same_document(a[i], b[i])
}

/// The section names no other document.
pub open spec fn unlinked(s: Section) -> bool {
    s.pages@.len() == 0 && s.subsections@.len() == 0 && s.ancestors@.len() == 0
}

/// The documents of `before`, each naming no other document.
pub open spec fn all_unlinked(before: Seq<Section>, after: Seq<Section>) -> bool {
    same_documents(before, after) && forall|i: int| 0 <= i < after.len() ==> unlinked(after[i])
}

/// The path of the section that a page belongs to: the index file of the
/// page's directory, for the page's language.
pub open spec fn page_parent(page: Page, default_language: Seq<char>) -> Seq<char> {
    section_path(page.file.parent@, page.lang@, default_language)
}

/// The path of the section that a section lies below, if its directory has a
/// directory above it.
pub open spec fn section_parent(section: Section, default_language: Seq<char>) -> Option<Seq<char>> {
    match section.file.grand_parent {
        Some(dir) => Some(section_path(dir@, section.lang@, default_language)),
        None => None,
    }
}

/// For each page, the path of the section it belongs to.
pub open spec fn page_parents(pages: Seq<Page>, default_language: Seq<char>) -> Seq<Seq<char>> {
    Seq::new(pages.len(), |i: int| page_parent(pages[i], default_language))
}

/// For each section, the path of the section it lies below.
pub open spec fn section_parents(sections: Seq<Section>, default_language: Seq<char>) -> Seq<
    Option<Seq<char>>,
> {
    Seq::new(sections.len(), |i: int| section_parent(sections[i], default_language))
}

/// The sections found on the way from the content directory down through the
/// first `depth` of `components`, the directory reached left out: for each
/// directory on the way, the section whose index file lies in it, if there is
/// one. `paths` holds the source paths of all sections.
pub open spec fn ancestors_to(
    paths: Seq<Seq<char>>,
    content_path: Seq<char>,
    components: Seq<Seq<char>>,
    lang: Seq<char>,
    default_language: Seq<char>,
    depth: int,
) -> Seq<usize>
    decreases depth,
{
    if depth <= 0 {
        Seq::empty()
    } else {
        let above = ancestors_to(paths, content_path, components, lang, default_language, depth - 1);
        let dir = descend(content_path, components, depth - 1);
        match first_index(paths, section_path(dir, lang, default_language)) {
            Some(k) => above.push(k as usize),
            None => above,
        }
    }
}

/// The sections above `section`, from the root down to its parent.
pub open spec fn ancestors_of(
    paths: Seq<Seq<char>>,
    content_path: Seq<char>,
    section: Section,
    default_language: Seq<char>,
) -> Seq<usize> {
    ancestors_to(
        paths,
        content_path,
        views(section.file.components@),
        section.lang@,
        default_language,
        section.file.components@.len() as int,
    )
}

/// The page at position `page` is named by a section as one of its pages.
pub open spec fn listed(sections: Seq<Section>, page: int) -> bool {
    exists|s: int, k: int|
        0 <= s < sections.len() && 0 <= k < sections[s].pages@.len()
            && #[trigger] sections[s].pages@[k] == page
}

/// The page at position `page` is named by a section before position `s`,
/// or by the section at `s` among the first `k` of its pages.
pub open spec fn listed_before(sections: Seq<Section>, s: int, k: int, page: int) -> bool {
    exists|a: int, b: int|
        0 <= a < sections.len() && 0 <= b < sections[a].pages@.len() && (a < s || (a == s && b
            < k)) && #[trigger] sections[a].pages@[b] == page
}

/// For each page, whether no section names it.
pub open spec fn unlisted(sections: Seq<Section>, count: nat) -> Seq<bool> {
    Seq::new(count, |i: int| !listed(sections, i))
}

/// The permalinks of all documents: of the pages, then of the sections.
pub open spec fn permalinks(pages: Seq<Page>, sections: Seq<Section>) -> Seq<Seq<char>> {
    Seq::new(pages.len(), |i: int| pages[i].permalink@) + Seq::new(
        sections.len(),
        |i: int| sections[i].permalink@,
    )
}

/// The paths below the content directory of all documents: of the pages,
/// then of the sections.
pub open spec fn sources(pages: Seq<Page>, sections: Seq<Section>) -> Seq<Seq<char>> {
    Seq::new(pages.len(), |i: int| pages[i].file.relative@) + Seq::new(
        sections.len(),
        |i: int| sections[i].file.relative@,
    )
}

/// The permalinks that more than one document claims and that first occur
/// among the first `n` documents, each with the sources of all documents that
/// claim it.
pub open spec fn collisions_to(links: Seq<Seq<char>>, sources: Seq<Seq<char>>, n: int) -> Seq<
    (Seq<char>, Seq<Seq<char>>),
>
    decreases n,
{
    if n <= 0 {
        Seq::empty()
    } else {
        let before = collisions_to(links, sources, n - 1);
        let link = links[n - 1];
        if is_first(links, link, n - 1) && occurrences(links, link).len() > 1 {
            before.push((link, pick(sources, occurrences(links, link))))
        } else {
            before
        }
    }
}

/// Every permalink that more than one document claims, with the sources of
/// the documents that claim it, in the order in which the permalinks first
/// occur.
pub open spec fn collisions(links: Seq<Seq<char>>, sources: Seq<Seq<char>>) -> Seq<
    (Seq<char>, Seq<Seq<char>>),
> {
    collisions_to(links, sources, links.len() as int)
}

/// The views of a list of collisions.
pub open spec fn collision_views(found: Seq<(String, Vec<String>)>) -> Seq<
    (Seq<char>, Seq<Seq<char>>),
> {
    Seq::new(found.len(), |i: int| (found[i].0@, views(found[i].1@)))
}

/// What putting `page` in makes of `pages`: a page with the same source path
/// leaves, and `page` comes last.
pub open spec fn with_page(pages: Seq<Page>, page: Page) -> Seq<Page> {
    match first_index(page_paths(pages), page.file.path@) {
        Some(i) => pages.remove(i).push(page),
        None => pages.push(page),
    }
}

/// What putting `section` in makes of `sections`: a section with the same
/// source path leaves, and `section` comes last.
pub open spec fn with_section(sections: Seq<Section>, section: Section) -> Seq<Section> {
    match first_index(section_paths(sections), section.file.path@) {
        Some(i) => sections.remove(i).push(section),
        None => sections.push(section),
    }
}

/// Sections that hold the same documents have the same source paths.
pub proof fn lemma_same_paths(a: Seq<Section>, b: Seq<Section>)
    requires
        same_documents(a, b),
    ensures
        section_paths(a) == section_paths(b),
{
    assert(section_paths(a) =~= section_paths(b));
}

/// The views of a sequence of optional strings.
pub open spec fn option_views(s: Seq<Option<String>>) -> Seq<Option<Seq<char>>> {
    Seq::new(
        s.len(),
        |i: int|
            match s[i] {
                Some(t) => Some(t@),
                None => None,
            },
    )
}

/// The positions at which `keys` holds `k`, in rising order.
fn matching(keys: &Vec<String>, k: &String) -> (out: Vec<usize>)
    ensures
        out@ == occurrences(views(keys@), k@),
{
    let ghost flags = hits(views(keys@), k@);
    let mut out: Vec<usize> = Vec::new();
    let mut i: usize = 0;
    while i < keys.len()
        invariant
            i <= keys.len(),
            flags == hits(views(keys@), k@),
            out@ == positions(flags.take(i as int)),
        decreases keys.len() - i,
    {
        proof {
            assert(flags.take(i + 1).drop_last() =~= flags.take(i as int));
        }
        if keys[i] == *k {
            out.push(i);
        }
        i += 1;
    }
    proof {
        assert(flags.take(keys.len() as int) =~= flags);
    }
    out
}

/// The positions at which `keys` holds `k`, in rising order.
fn matching_some(keys: &Vec<Option<String>>, k: &String) -> (out: Vec<usize>)
    ensures
        out@ == occurrences(option_views(keys@), Some(k@)),
{
    let ghost flags = hits(option_views(keys@), Some(k@));
    let mut out: Vec<usize> = Vec::new();
    let mut i: usize = 0;
    while i < keys.len()
        invariant
            i <= keys.len(),
            flags == hits(option_views(keys@), Some(k@)),
            out@ == positions(flags.take(i as int)),
        decreases keys.len() - i,
    {
        proof {
            assert(flags.take(i + 1).drop_last() =~= flags.take(i as int));
        }
        let hit = match &keys[i] {
            Some(t) => *t == *k,
            None => false,
        };
        proof {
            assert(option_views(keys@)[i as int] == match keys@[i as int] {
                Some(t) => Some(t@),
                None => None,
            });
            assert(flags[i as int] == hit);
        }
        if hit {
            out.push(i);
        }
        i += 1;
    }
    proof {
        assert(flags.take(keys.len() as int) =~= flags);
    }
    out
}

/// Whether position `i` is the first at which `keys` holds its key.
fn first_at(keys: &Vec<String>, i: usize) -> (r: bool)
    requires
        i < keys.len(),
    ensures
        r == is_first(views(keys@), keys@[i as int]@, i as int),
{
    let mut j: usize = 0;
    while j < i
        invariant
            j <= i,
            i < keys.len(),
            forall|m: int| 0 <= m < j ==> views(keys@)[m] != keys@[i as int]@,
        decreases i - j,
    {
        if keys[j] == keys[i] {
            assert(views(keys@)[j as int] == keys@[i as int]@);
            return false;
        }
        j += 1;
    }
    assert(views(keys@)[i as int] == keys@[i as int]@);
    true
}

/// Copies of the strings at the positions `at`, in that order.
fn pick_strings(items: &Vec<String>, at: &Vec<usize>) -> (out: Vec<String>)
    requires
        all_below(at@, items@.len() as int),
    ensures
        views(out@) == pick(views(items@), at@),
{
    let mut out: Vec<String> = Vec::new();
    let mut k: usize = 0;
    while k < at.len()
        invariant
            k <= at.len(),
            out@.len() == k,
            all_below(at@, items@.len() as int),
            forall|m: int| 0 <= m < k ==> out@[m]@ == items@[at@[m] as int]@,
        decreases at.len() - k,
    {
        out.push(items[at[k]].clone());
        k += 1;
    }
    proof {
        assert(views(out@) =~= pick(views(items@), at@));
    }
    out
}

/// Every page and section of a site.
#[derive(Debug)]
pub struct Library {
    pages: Vec<Page>,
    sections: Vec<Section>,
    is_multilingual: bool,
}

impl Library {
    /// The pages, in the order in which they were inserted.
    pub closed spec fn pages(&self) -> Seq<Page> {
        self.pages@
    }

    /// The sections, in the order in which they were inserted.
    pub closed spec fn sections(&self) -> Seq<Section> {
        self.sections@
    }

    /// Whether the site has more than one language.
    pub closed spec fn multilingual(&self) -> bool {
        self.is_multilingual
    }

    /// No two pages share a source path, nor do two sections, and every
    /// relation that a section holds names a document of the library.
    pub open spec fn wf(&self) -> bool {
        &&& distinct(page_paths(self.pages()))
        &&& distinct(section_paths(self.sections()))
        &&& forall|s: int|
            0 <= s < self.sections().len() ==> {
                &&& all_below(#[trigger] self.sections()[s].pages@, self.pages().len() as int)
                &&& all_below(self.sections()[s].subsections@, self.sections().len() as int)
                &&& all_below(self.sections()[s].ancestors@, self.sections().len() as int)
            }
    }

    /// An empty library. The two capacities are what it is expected to hold.
    pub fn new(cap_pages: usize, cap_sections: usize, is_multilingual: bool) -> (lib: Library)
        ensures
            lib.wf(),
            lib.pages().len() == 0,
            lib.sections().len() == 0,
            lib.multilingual() == is_multilingual,
    {
        Library {
            pages: Vec::with_capacity(cap_pages),
            sections: Vec::with_capacity(cap_sections),
            is_multilingual,
        }
    }

    /// Whether the site has more than one language.
    pub fn is_multilingual(&self) -> (r: bool)
        ensures
            r == self.multilingual(),
    {
        self.is_multilingual
    }

    /// The pages, in the order in which they were inserted.
    pub fn pages_values(&self) -> (r: &Vec<Page>)
        ensures
            r@ == self.pages(),
    {
        &self.pages
    }

    /// The sections, in the order in which they were inserted.
    pub fn sections_values(&self) -> (r: &Vec<Section>)
        ensures
            r@ == self.sections(),
    {
        &self.sections
    }

    /// The page at position `key`.
    pub fn get_page_by_key(&self, key: usize) -> (r: &Page)
        requires
            key < self.pages().len(),
        ensures
            *r == self.pages()[key as int],
    {
        &self.pages[key]
    }

    /// The section at position `key`.
    pub fn get_section_by_key(&self, key: usize) -> (r: &Section)
        requires
            key < self.sections().len(),
        ensures
            *r == self.sections()[key as int],
    {
        &self.sections[key]
    }

    /// The pages directly in the section at position `key`, by their
    /// positions.
    pub fn children_of(&self, key: usize) -> (r: &Vec<usize>)
        requires
            key < self.sections().len(),
        ensures
            *r == self.sections()[key as int].pages,
    {
        &self.sections[key].pages
    }

    /// The position of the page with the source path `path`.
    pub fn get_page_key(&self, path: &str) -> (r: Option<usize>)
        ensures
            match r {
                Some(i) => first_index(page_paths(self.pages()), path@) == Some(i as int),
                None => first_index(page_paths(self.pages()), path@).is_none(),
            },
    {
        let wanted = path.to_owned();
        let mut i: usize = 0;
        while i < self.pages.len()
            invariant
                i <= self.pages.len(),
                wanted@ == path@,
                forall|j: int| 0 <= j < i ==> page_paths(self.pages())[j] != path@,
            decreases self.pages.len() - i,
        {
            if self.pages[i].file.path == wanted {
                proof {
                    assert(is_first(page_paths(self.pages()), path@, i as int));
                    lemma_first_unique(page_paths(self.pages()), path@, i as int);
                }
                return Some(i);
            }
            i += 1;
        }
        proof {
            lemma_first_index(page_paths(self.pages()), path@);
        }
        None
    }

    /// The position of the section with the source path `path`.
    pub fn get_section_key(&self, path: &str) -> (r: Option<usize>)
        ensures
            match r {
                Some(i) => first_index(section_paths(self.sections()), path@) == Some(i as int),
                None => first_index(section_paths(self.sections()), path@).is_none(),
            },
    {
        let wanted = path.to_owned();
        let mut i: usize = 0;
        while i < self.sections.len()
            invariant
                i <= self.sections.len(),
                wanted@ == path@,
                forall|j: int| 0 <= j < i ==> section_paths(self.sections())[j] != path@,
            decreases self.sections.len() - i,
        {
            if self.sections[i].file.path == wanted {
                proof {
                    assert(is_first(section_paths(self.sections()), path@, i as int));
                    lemma_first_unique(section_paths(self.sections()), path@, i as int);
                }
                return Some(i);
            }
            i += 1;
        }
        proof {
            lemma_first_index(section_paths(self.sections()), path@);
        }
        None
    }

    /// The page with the source path `path`.
    pub fn get_page(&self, path: &str) -> (r: Option<&Page>)
        ensures
            match r {
                Some(p) => first_index(page_paths(self.pages()), path@) matches Some(i) && *p
                    == self.pages()[i],
                None => first_index(page_paths(self.pages()), path@).is_none(),
            },
    {
        match self.get_page_key(path) {
            Some(i) => {
                proof {
                    lemma_first_index(page_paths(self.pages()), path@);
                }
                Some(&self.pages[i])
            },
            None => None,
        }
    }

    /// The section with the source path `path`.
    pub fn get_section(&self, path: &str) -> (r: Option<&Section>)
        ensures
            match r {
                Some(s) => first_index(section_paths(self.sections()), path@) matches Some(i) && *s
                    == self.sections()[i],
                None => first_index(section_paths(self.sections()), path@).is_none(),
            },
    {
        match self.get_section_key(path) {
            Some(i) => {
                proof {
                    lemma_first_index(section_paths(self.sections()), path@);
                }
                Some(&self.sections[i])
            },
            None => None,
        }
    }

    /// Whether a page has the source path `path`.
    pub fn contains_page(&self, path: &str) -> (r: bool)
        ensures
            r == page_paths(self.pages()).contains(path@),
    {
        let found = self.get_page_key(path);
        proof {
            lemma_first_index(page_paths(self.pages()), path@);
        }
        found.is_some()
    }

    /// Whether a section has the source path `path`.
    pub fn contains_section(&self, path: &str) -> (r: bool)
        ensures
            r == section_paths(self.sections()).contains(path@),
    {
        let found = self.get_section_key(path);
        proof {
            lemma_first_index(section_paths(self.sections()), path@);
        }
        found.is_some()
    }
    /// Each section holds the relations that the documents of the library
    /// give it: the pages of its directory and language, the sections
    /// directly below it, and the sections above it.
    pub open spec fn linked(&self, content_path: Seq<char>, default_language: Seq<char>) -> bool {
        forall|s: int|
            0 <= s < self.sections().len() ==> {
                let section = #[trigger] self.sections()[s];
                &&& section.pages@ == occurrences(
                    page_parents(self.pages(), default_language),
                    section.file.path@,
                )
                &&& section.subsections@ == occurrences(
                    section_parents(self.sections(), default_language),
                    Some(section.file.path@),
                )
                &&& section.ancestors@ == ancestors_of(
                    section_paths(self.sections()),
                    content_path,
                    section,
                    default_language,
                )
            }
    }

    /// Empties the relations of every section.
    fn unlink(&mut self)
        ensures
            final(self).pages() == old(self).pages(),
            final(self).multilingual() == old(self).multilingual(),
            all_unlinked(old(self).sections(), final(self).sections()),
    {
        let n = self.sections.len();
        let mut i: usize = 0;
        while i < n
            invariant
                n == self.sections@.len(),
                i <= n,
                self.pages@ == old(self).pages@,
                self.is_multilingual == old(self).is_multilingual,
                same_documents(old(self).sections@, self.sections@),
                forall|j: int| 0 <= j < i ==> unlinked(self.sections@[j]),
            decreases n - i,
        {
            self.sections[i].pages = Vec::new();
            self.sections[i].subsections = Vec::new();
            self.sections[i].ancestors = Vec::new();
            i += 1;
        }
    }

    /// Takes the page with the source path `path` out of the library. The
    /// positions of later pages change with it, so every section loses its
    /// relations until they are next populated.
    pub fn remove_page(&mut self, path: &str) -> (r: Option<Page>)
        requires
            old(self).wf(),
        ensures
            final(self).wf(),
            final(self).multilingual() == old(self).multilingual(),
            match first_index(page_paths(old(self).pages()), path@) {
                Some(i) => {
                    &&& r == Some(old(self).pages()[i])
                    &&& final(self).pages() == old(self).pages().remove(i)
                    &&& all_unlinked(old(self).sections(), final(self).sections())
                },
                None => {
                    &&& r.is_none()
                    &&& final(self).pages() == old(self).pages()
                    &&& final(self).sections() == old(self).sections()
                },
            },
    {
        match self.get_page_key(path) {
            Some(i) => {
                proof {
                    lemma_first_index(page_paths(self.pages()), path@);
                    lemma_distinct_remove(page_paths(self.pages()), i as int);
                    assert(page_paths(self.pages().remove(i as int)) =~= page_paths(
                        self.pages(),
                    ).remove(i as int));
                }
                let page = self.pages.remove(i);
                self.unlink();
                proof {
                    assert(section_paths(self.sections()) =~= section_paths(old(self).sections()));
                }
                Some(page)
            },
            None => None,
        }
    }

    /// Takes the section with the source path `path` out of the library. The
    /// positions of later sections change with it, so every section loses its
    /// relations until they are next populated.
    pub fn remove_section(&mut self, path: &str) -> (r: Option<Section>)
        requires
            old(self).wf(),
        ensures
            final(self).wf(),
            final(self).multilingual() == old(self).multilingual(),
            final(self).pages() == old(self).pages(),
            match first_index(section_paths(old(self).sections()), path@) {
                Some(i) => {
                    &&& r == Some(old(self).sections()[i])
                    &&& all_unlinked(old(self).sections().remove(i), final(self).sections())
                },
                None => r.is_none() && final(self).sections() == old(self).sections(),
            },
    {
        match self.get_section_key(path) {
            Some(i) => {
                proof {
                    lemma_first_index(section_paths(self.sections()), path@);
                    lemma_distinct_remove(section_paths(self.sections()), i as int);
                    assert(section_paths(self.sections().remove(i as int)) =~= section_paths(
                        self.sections(),
                    ).remove(i as int));
                }
                let section = self.sections.remove(i);
                let ghost removed = self.sections@;
                self.unlink();
                proof {
                    assert(section_paths(self.sections()) =~= section_paths(removed));
                }
                Some(section)
            },
            None => None,
        }
    }

    /// Puts `page` into the library and returns its position. A page with
    /// the same source path is taken out first.
    pub fn insert_page(&mut self, page: Page) -> (key: usize)
        requires
            old(self).wf(),
        ensures
            final(self).wf(),
            final(self).multilingual() == old(self).multilingual(),
            key == final(self).pages().len() - 1,
            final(self).pages() == with_page(old(self).pages(), page),
            same_documents(old(self).sections(), final(self).sections()),
            match first_index(page_paths(old(self).pages()), page.file.path@) {
                Some(i) => {
                    &&& final(self).pages() == old(self).pages().remove(i).push(page)
                    &&& all_unlinked(old(self).sections(), final(self).sections())
                },
                None => {
                    &&& final(self).pages() == old(self).pages().push(page)
                    &&& final(self).sections() == old(self).sections()
                },
            },
    {
        let _ = self.remove_page(page.file.path.as_str());
        proof {
            let keys = page_paths(self.pages());
            lemma_first_index(page_paths(old(self).pages()), page.file.path@);
            assert forall|j: int| 0 <= j < keys.len() implies keys[j] != page.file.path@ by {
                match first_index(page_paths(old(self).pages()), page.file.path@) {
                    Some(i) => {
                        let j0 = if j < i {
                            j
                        } else {
                            j + 1
                        };
                        assert(keys[j] == page_paths(old(self).pages())[j0]);
                    },
                    None => {},
                }
            }
            lemma_distinct_push(keys, page.file.path@);
            assert(page_paths(self.pages().push(page)) =~= keys.push(page.file.path@));
        }
        self.pages.push(page);
        self.pages.len() - 1
    }

    /// Puts `section` into the library and returns its position. A section
    /// with the same source path is taken out first. The section comes in
    /// without relations: they are set when the library is next populated.
    pub fn insert_section(&mut self, section: Section) -> (key: usize)
        requires
            old(self).wf(),
        ensures
            final(self).wf(),
            final(self).multilingual() == old(self).multilingual(),
            final(self).pages() == old(self).pages(),
            key == final(self).sections().len() - 1,
            same_document(section, final(self).sections()[key as int]),
            unlinked(final(self).sections()[key as int]),
            same_documents(final(self).sections(), with_section(old(self).sections(), section)),
            match first_index(section_paths(old(self).sections()), section.file.path@) {
                Some(i) => all_unlinked(
                    old(self).sections().remove(i),
                    final(self).sections().drop_last(),
                ),
                None => final(self).sections().drop_last() == old(self).sections(),
            },
    {
        let _ = self.remove_section(section.file.path.as_str());
        let ghost before = self.sections@;
        proof {
            let keys = section_paths(self.sections());
            let old_keys = section_paths(old(self).sections());
            lemma_first_index(old_keys, section.file.path@);
            assert forall|j: int| 0 <= j < keys.len() implies keys[j] != section.file.path@ by {
                match first_index(old_keys, section.file.path@) {
                    Some(i) => {
                        let j0 = if j < i {
                            j
                        } else {
                            j + 1
                        };
                        assert(same_document(old(self).sections().remove(i)[j], before[j]));
                        assert(keys[j] == old_keys[j0]);
                    },
                    None => {},
                }
            }
            lemma_distinct_push(keys, section.file.path@);
        }
        let mut section = section;
        section.pages = Vec::new();
        section.subsections = Vec::new();
        section.ancestors = Vec::new();
        proof {
            assert(section_paths(before.push(section)) =~= section_paths(before).push(
                section.file.path@,
            ));
            assert(before.push(section).drop_last() =~= before);
        }
        self.sections.push(section);
        self.sections.len() - 1
    }

    /// For each page, the path of the section it belongs to.
    fn page_parent_keys(&self, default_language: &str) -> (out: Vec<String>)
        ensures
            views(out@) == page_parents(self.pages(), default_language@),
    {
        let mut out: Vec<String> = Vec::new();
        let mut i: usize = 0;
        while i < self.pages.len()
            invariant
                i <= self.pages.len(),
                out@.len() == i,
                views(out@) == page_parents(self.pages(), default_language@).take(i as int),
            decreases self.pages.len() - i,
        {
            let page = &self.pages[i];
            let key = section_path_of(page.file.parent.as_str(), page.lang.as_str(), default_language);
            proof {
                let all = page_parents(self.pages(), default_language@);
                assert forall|j: int| 0 <= j < i + 1 implies views(out@.push(key))[j] == all[j] by {
                    if j < i {
                        assert(views(out@)[j] == all.take(i as int)[j]);
                    }
                }
                assert(views(out@.push(key)) =~= all.take(i + 1));
            }
            out.push(key);
            i += 1;
        }
        proof {
            assert(page_parents(self.pages(), default_language@).take(self.pages.len() as int)
                =~= page_parents(self.pages(), default_language@));
        }
        out
    }

    /// For each section, the path of the section it lies below.
    fn section_parent_keys(&self, default_language: &str) -> (out: Vec<Option<String>>)
        ensures
            option_views(out@) == section_parents(self.sections(), default_language@),
    {
        let mut out: Vec<Option<String>> = Vec::new();
        let mut i: usize = 0;
        while i < self.sections.len()
            invariant
                i <= self.sections.len(),
                out@.len() == i,
                option_views(out@) == section_parents(self.sections(), default_language@).take(
                    i as int,
                ),
            decreases self.sections.len() - i,
        {
            let section = &self.sections[i];
            let key = match &section.file.grand_parent {
                Some(dir) => Some(
                    section_path_of(dir.as_str(), section.lang.as_str(), default_language),
                ),
                None => None,
            };
            proof {
                let all = section_parents(self.sections(), default_language@);
                assert forall|j: int| 0 <= j < i + 1 implies option_views(out@.push(key))[j]
                    == all[j] by {
                    if j < i {
                        assert(option_views(out@)[j] == all.take(i as int)[j]);
                    }
                }
                assert(option_views(out@.push(key)) =~= all.take(i + 1));
            }
            out.push(key);
            i += 1;
        }
        proof {
            assert(section_parents(self.sections(), default_language@).take(
                self.sections.len() as int,
            ) =~= section_parents(self.sections(), default_language@));
        }
        out
    }

    /// The sections above the section at `key`, from the root down.
    fn ancestors_for(&self, key: usize, content_path: &str, default_language: &str) -> (out: Vec<
        usize,
    >)
        requires
            key < self.sections().len(),
        ensures
            out@ == ancestors_of(
                section_paths(self.sections()),
                content_path@,
                self.sections()[key as int],
                default_language@,
            ),
            all_below(out@, self.sections().len() as int),
    {
        let section = &self.sections[key];
        let n = section.file.components.len();
        let ghost paths = section_paths(self.sections());
        let ghost components = views(section.file.components@);
        let mut dir = content_path.to_owned();
        let mut out: Vec<usize> = Vec::new();
        let mut d: usize = 0;
        while d < n
            invariant
                d <= n,
                key < self.sections().len(),
                section == &self.sections()[key as int],
                n == section.file.components@.len(),
                paths == section_paths(self.sections()),
                components == views(section.file.components@),
                dir@ == descend(content_path@, components, d as int),
                out@ == ancestors_to(
                    paths,
                    content_path@,
                    components,
                    section.lang@,
                    default_language@,
                    d as int,
                ),
                all_below(out@, self.sections().len() as int),
            decreases n - d,
        {
            let wanted = section_path_of(dir.as_str(), section.lang.as_str(), default_language);
            proof {
                lemma_first_index(paths, wanted@);
            }
            match self.get_section_key(wanted.as_str()) {
                Some(k) => {
                    out.push(k);
                },
                None => {},
            }
            dir = join_path(dir.as_str(), section.file.components[d].as_str());
            d += 1;
        }
        out
    }

    /// Gives every section its relations anew: the pages of its directory
    /// and language, the sections directly below it, and the sections above
    /// it. Nothing else in the library changes.
    pub fn populate_sections(&mut self, content_path: &str, default_language: &str)
        requires
            old(self).wf(),
        ensures
            final(self).wf(),
            final(self).multilingual() == old(self).multilingual(),
            final(self).pages() == old(self).pages(),
            same_documents(old(self).sections(), final(self).sections()),
            final(self).linked(content_path@, default_language@),
    {
        let page_keys = self.page_parent_keys(default_language);
        let section_keys = self.section_parent_keys(default_language);
        let ghost paths = section_paths(self.sections());
        let ghost above = section_parents(self.sections(), default_language@);
        let n = self.sections.len();
        let page_count = page_keys.len();
        let section_count = section_keys.len();
        let mut s: usize = 0;
        while s < n
            invariant
                n == self.sections@.len(),
                page_count == page_keys@.len(),
                section_count == section_keys@.len(),
                s <= n,
                self.pages@ == old(self).pages@,
                self.is_multilingual == old(self).is_multilingual,
                same_documents(old(self).sections@, self.sections@),
                self.wf(),
                views(page_keys@) == page_parents(self.pages@, default_language@),
                option_views(section_keys@) == above,
                above == section_parents(old(self).sections@, default_language@),
                paths == section_paths(old(self).sections@),
                forall|j: int|
                    0 <= j < s ==> {
                        let section = #[trigger] self.sections@[j];
                        &&& section.pages@ == occurrences(
                            page_parents(self.pages@, default_language@),
                            section.file.path@,
                        )
                        &&& section.subsections@ == occurrences(above, Some(section.file.path@))
                        &&& section.ancestors@ == ancestors_of(
                            paths,
                            content_path@,
                            section,
                            default_language@,
                        )
                    },
            decreases n - s,
        {
            proof {
                assert(section_paths(self.sections@) =~= paths);
            }
            let pages = matching(&page_keys, &self.sections[s].file.path);
            let subsections = matching_some(&section_keys, &self.sections[s].file.path);
            let ancestors = self.ancestors_for(s, content_path, default_language);
            proof {
                let path = self.sections@[s as int].file.path@;
                assert(views(page_keys@).len() == page_keys@.len());
                assert(option_views(section_keys@).len() == section_keys@.len());
                lemma_occurrences_below(views(page_keys@), path);
                lemma_occurrences_below(option_views(section_keys@), Some(path));
            }
            let ghost before = self.sections@;
            self.sections[s].pages = pages;
            self.sections[s].subsections = subsections;
            self.sections[s].ancestors = ancestors;
            proof {
                assert(section_paths(self.sections@) =~= section_paths(before));
                assert forall|j: int| 0 <= j < self.sections().len() implies {
                    &&& all_below(#[trigger] self.sections()[j].pages@, self.pages().len() as int)
                    &&& all_below(self.sections()[j].subsections@, self.sections().len() as int)
                    &&& all_below(self.sections()[j].ancestors@, self.sections().len() as int)
                } by {
                    if j != s {
                        assert(self.sections@[j] == before[j]);
                        assert(all_below(before[j].pages@, self.pages().len() as int));
                    }
                }
                assert forall|j: int| 0 <= j < s + 1 implies {
                    let section = #[trigger] self.sections@[j];
                    &&& section.pages@ == occurrences(
                        page_parents(self.pages@, default_language@),
                        section.file.path@,
                    )
                    &&& section.subsections@ == occurrences(above, Some(section.file.path@))
                    &&& section.ancestors@ == ancestors_of(
                        paths,
                        content_path@,
                        section,
                        default_language@,
                    )
                } by {
                    if j < s {
                        assert(self.sections@[j] == before[j]);
                    }
                }
            }
            s += 1;
        }
        proof {
            assert(section_paths(self.sections@) =~= paths);
            assert(section_parents(self.sections@, default_language@) =~= above);
        }
    }
    /// The pages that no section names, by position.
    pub open spec fn orphans(&self) -> Seq<usize> {
        positions(unlisted(self.sections(), self.pages().len()))
    }

    /// The pages that no section names: they are rendered on their own.
    pub fn get_all_orphan_pages(&self) -> (out: Vec<usize>)
        requires
            self.wf(),
        ensures
            out@ == self.orphans(),
            all_below(out@, self.pages().len() as int),
    {
        let n = self.pages.len();
        let mut marks: Vec<bool> = Vec::new();
        let mut i: usize = 0;
        while i < n
            invariant
                i <= n,
                marks@.len() == i,
                forall|j: int| 0 <= j < i ==> !marks@[j],
            decreases n - i,
        {
            marks.push(false);
            i += 1;
        }
        let mut s: usize = 0;
        while s < self.sections.len()
            invariant
                s <= self.sections@.len(),
                marks@.len() == n,
                n == self.pages@.len(),
                self.wf(),
                forall|i: int|
                    0 <= i < n ==> marks@[i] == listed_before(self.sections@, s as int, 0, i),
            decreases self.sections.len() - s,
        {
            let section = &self.sections[s];
            let mut k: usize = 0;
            while k < section.pages.len()
                invariant
                    k <= section.pages@.len(),
                    s < self.sections@.len(),
                    *section == self.sections@[s as int],
                    marks@.len() == n,
                    n == self.pages@.len(),
                    self.wf(),
                    forall|i: int|
                        0 <= i < n ==> marks@[i] == listed_before(
                            self.sections@,
                            s as int,
                            k as int,
                            i,
                        ),
                decreases section.pages.len() - k,
            {
                let page = section.pages[k];
                assert(all_below(self.sections()[s as int].pages@, self.pages().len() as int));
                let ghost before = marks@;
                marks[page] = true;
                proof {
                    assert forall|i: int| 0 <= i < n implies marks@[i] == listed_before(
                        self.sections@,
                        s as int,
                        k + 1,
                        i,
                    ) by {
                        if i == page {
                            assert(self.sections@[s as int].pages@[k as int] == i);
                        } else {
                            assert(marks@[i] == before[i]);
                        }
                    }
                }
                k += 1;
            }
            s += 1;
        }
        let ghost flags = unlisted(self.sections@, n as nat);
        let mut out: Vec<usize> = Vec::new();
        let mut i: usize = 0;
        while i < n
            invariant
                i <= n,
                marks@.len() == n,
                flags == unlisted(self.sections@, n as nat),
                forall|j: int| 0 <= j < n ==> marks@[j] == listed(self.sections@, j),
                out@ == positions(flags.take(i as int)),
            decreases n - i,
        {
            proof {
                assert(flags.take(i + 1).drop_last() =~= flags.take(i as int));
            }
            if !marks[i] {
                out.push(i);
            }
            i += 1;
        }
        proof {
            assert(flags.take(n as int) =~= flags);
            lemma_positions(flags);
        }
        out
    }

    /// Copies of the permalinks of all documents: pages, then sections.
    fn all_permalinks(&self) -> (out: Vec<String>)
        ensures
            views(out@) == permalinks(self.pages(), self.sections()),
    {
        let mut out: Vec<String> = Vec::new();
        let mut i: usize = 0;
        while i < self.pages.len()
            invariant
                i <= self.pages.len(),
                out@.len() == i,
                forall|j: int| 0 <= j < i ==> out@[j]@ == self.pages@[j].permalink@,
            decreases self.pages.len() - i,
        {
            out.push(self.pages[i].permalink.clone());
            i += 1;
        }
        let mut k: usize = 0;
        while k < self.sections.len()
            invariant
                k <= self.sections.len(),
                out@.len() == self.pages@.len() + k,
                forall|j: int| 0 <= j < self.pages@.len() ==> out@[j]@ == self.pages@[j].permalink@,
                forall|j: int|
                    0 <= j < k ==> out@[self.pages@.len() + j]@ == self.sections@[j].permalink@,
            decreases self.sections.len() - k,
        {
            out.push(self.sections[k].permalink.clone());
            k += 1;
        }
        proof {
            assert(views(out@) =~= permalinks(self.pages(), self.sections()));
        }
        out
    }

    /// Copies of the paths below the content directory of all documents:
    /// pages, then sections.
    fn all_sources(&self) -> (out: Vec<String>)
        ensures
            views(out@) == sources(self.pages(), self.sections()),
    {
        let mut out: Vec<String> = Vec::new();
        let mut i: usize = 0;
        while i < self.pages.len()
            invariant
                i <= self.pages.len(),
                out@.len() == i,
                forall|j: int| 0 <= j < i ==> out@[j]@ == self.pages@[j].file.relative@,
            decreases self.pages.len() - i,
        {
            out.push(self.pages[i].file.relative.clone());
            i += 1;
        }
        let mut k: usize = 0;
        while k < self.sections.len()
            invariant
                k <= self.sections.len(),
                out@.len() == self.pages@.len() + k,
                forall|j: int|
                    0 <= j < self.pages@.len() ==> out@[j]@ == self.pages@[j].file.relative@,
                forall|j: int|
                    0 <= j < k ==> out@[self.pages@.len() + j]@ == self.sections@[j].file.relative@,
            decreases self.sections.len() - k,
        {
            out.push(self.sections[k].file.relative.clone());
            k += 1;
        }
        proof {
            assert(views(out@) =~= sources(self.pages(), self.sections()));
        }
        out
    }

    /// Every permalink that more than one document claims, each with the
    /// paths below the content directory of the documents that claim it.
    pub fn check_for_path_collisions(&self) -> (found: Vec<(String, Vec<String>)>)
        ensures
            collision_views(found@) == collisions(
                permalinks(self.pages(), self.sections()),
                sources(self.pages(), self.sections()),
            ),
            found@.len() == 0 <==> distinct(permalinks(self.pages(), self.sections())),
            permalinks(self.pages(), self.sections()).len() <= usize::MAX,
            sources(self.pages(), self.sections()).len() == permalinks(
                self.pages(),
                self.sections(),
            ).len(),
    {
        let links = self.all_permalinks();
        let names = self.all_sources();
        let n = links.len();
        proof {
            assert(views(links@).len() == links@.len());
            assert(views(names@).len() == names@.len());
            assert(permalinks(self.pages(), self.sections()).len() == sources(
                self.pages(),
                self.sections(),
            ).len());
        }
        let mut found: Vec<(String, Vec<String>)> = Vec::new();
        let mut i: usize = 0;
        while i < n
            invariant
                i <= n,
                n == links@.len(),
                n == names@.len(),
                views(links@).len() == n,
                collision_views(found@) == collisions_to(views(links@), views(names@), i as int),
            decreases n - i,
        {
            let ghost before = collision_views(found@);
            assert(views(links@)[i as int] == links@[i as int]@);
            if first_at(&links, i) {
                let group = matching(&links, &links[i]);
                if group.len() > 1 {
                    proof {
                        lemma_occurrences_below(views(links@), links@[i as int]@);
                    }
                    let documents = pick_strings(&names, &group);
                    let entry = (links[i].clone(), documents);
                    proof {
                        assert(collision_views(found@.push(entry)) =~= before.push(
                            (entry.0@, views(entry.1@)),
                        ));
                    }
                    found.push(entry);
                }
            }
            i += 1;
        }
        proof {
            assert(collision_views(found@).len() == found@.len());
            lemma_no_collisions(views(links@), views(names@));
        }
        found
    }

    /// The position of the first page with the permalink `permalink`.
    pub fn find_page_by_permalink(&self, permalink: &str) -> (r: Option<usize>)
        ensures
            match r {
                Some(i) => is_first(
                    Seq::new(self.pages().len(), |i: int| self.pages()[i].permalink@),
                    permalink@,
                    i as int,
                ),
                None => forall|j: int|
                    0 <= j < self.pages().len() ==> self.pages()[j].permalink@ != permalink@,
            },
    {
        let wanted = permalink.to_owned();
        let mut i: usize = 0;
        while i < self.pages.len()
            invariant
                i <= self.pages.len(),
                wanted@ == permalink@,
                forall|j: int| 0 <= j < i ==> self.pages()[j].permalink@ != permalink@,
            decreases self.pages.len() - i,
        {
            if self.pages[i].permalink == wanted {
                return Some(i);
            }
            i += 1;
        }
        None
    }

    /// The position of the first section with the permalink `permalink`.
    pub fn find_section_by_permalink(&self, permalink: &str) -> (r: Option<usize>)
        ensures
            match r {
                Some(i) => is_first(
                    Seq::new(self.sections().len(), |i: int| self.sections()[i].permalink@),
                    permalink@,
                    i as int,
                ),
                None => forall|j: int|
                    0 <= j < self.sections().len() ==> self.sections()[j].permalink@ != permalink@,
            },
    {
        let wanted = permalink.to_owned();
        let mut i: usize = 0;
        while i < self.sections.len()
            invariant
                i <= self.sections.len(),
                wanted@ == permalink@,
                forall|j: int| 0 <= j < i ==> self.sections()[j].permalink@ != permalink@,
            decreases self.sections.len() - i,
        {
            if self.sections[i].permalink == wanted {
                return Some(i);
            }
            i += 1;
        }
        None
    }
    /// Gives the page with the source path `path` its rendered body. It
    /// says whether there is such a page.
    pub fn set_page_content(&mut self, path: &str, content: String) -> (found: bool)
        requires
            old(self).wf(),
        ensures
            final(self).wf(),
            final(self).multilingual() == old(self).multilingual(),
            final(self).sections() == old(self).sections(),
            match first_index(page_paths(old(self).pages()), path@) {
                Some(i) => found && final(self).pages() == old(self).pages().update(
                    i,
                    Page { content, ..old(self).pages()[i] },
                ),
                None => !found && final(self).pages() == old(self).pages(),
            },
    {
        match self.get_page_key(path) {
            Some(i) => {
                proof {
                    lemma_first_index(page_paths(self.pages()), path@);
                }
                self.pages[i].content = content;
                proof {
                    assert(page_paths(self.pages()) =~= page_paths(old(self).pages()));
                    assert(self.pages@ =~= old(self).pages().update(
                        i as int,
                        Page { content, ..old(self).pages()[i as int] },
                    ));
                }
                true
            },
            None => false,
        }
    }

    /// Gives the section with the source path `path` its rendered body. It
    /// says whether there is such a section.
    pub fn set_section_content(&mut self, path: &str, content: String) -> (found: bool)
        requires
            old(self).wf(),
        ensures
            final(self).wf(),
            final(self).multilingual() == old(self).multilingual(),
            final(self).pages() == old(self).pages(),
            match first_index(section_paths(old(self).sections()), path@) {
                Some(i) => found && final(self).sections() == old(self).sections().update(
                    i,
                    Section { content, ..old(self).sections()[i] },
                ),
                None => !found && final(self).sections() == old(self).sections(),
            },
    {
        match self.get_section_key(path) {
            Some(i) => {
                proof {
                    lemma_first_index(section_paths(self.sections()), path@);
                }
                self.sections[i].content = content;
                proof {
                    assert(section_paths(self.sections()) =~= section_paths(old(self).sections()));
                    assert(self.sections@ =~= old(self).sections().update(
                        i as int,
                        Section { content, ..old(self).sections()[i as int] },
                    ));
                }
                true
            },
            None => false,
        }
    }
}

/// A source path names one section of a library at most, and one page.
pub proof fn lemma_one_document_per_path(library: Library, i: int, j: int)
    requires
        library.wf(),
    ensures
        0 <= i < library.sections().len() && 0 <= j < library.sections().len()
            && library.sections()[i].file.path@ == library.sections()[j].file.path@ ==> i == j,
        0 <= i < library.pages().len() && 0 <= j < library.pages().len()
            && library.pages()[i].file.path@ == library.pages()[j].file.path@ ==> i == j,
{
    if 0 <= i < library.sections().len() && 0 <= j < library.sections().len() {
        assert(section_paths(library.sections())[i] == library.sections()[i].file.path@);
        assert(section_paths(library.sections())[j] == library.sections()[j].file.path@);
    }
    if 0 <= i < library.pages().len() && 0 <= j < library.pages().len() {
        assert(page_paths(library.pages())[i] == library.pages()[i].file.path@);
        assert(page_paths(library.pages())[j] == library.pages()[j].file.path@);
    }
}

/// Populating a library that is populated already changes no relation.
pub proof fn lemma_populate_idempotent(
    once: Library,
    twice: Library,
    content_path: Seq<char>,
    default_language: Seq<char>,
)
    requires
        once.linked(content_path, default_language),
        twice.pages() == once.pages(),
        same_documents(once.sections(), twice.sections()),
        twice.linked(content_path, default_language),
    ensures
        forall|s: int|
            0 <= s < once.sections().len() ==> {
                &&& (#[trigger] twice.sections()[s]).pages@ == once.sections()[s].pages@
                &&& twice.sections()[s].subsections@ == once.sections()[s].subsections@
                &&& twice.sections()[s].ancestors@ == once.sections()[s].ancestors@
            },
{
    assert(section_paths(once.sections()) =~= section_paths(twice.sections()));
    assert(section_parents(once.sections(), default_language) =~= section_parents(
        twice.sections(),
        default_language,
    ));
    assert forall|s: int| 0 <= s < once.sections().len() implies {
        &&& (#[trigger] twice.sections()[s]).pages@ == once.sections()[s].pages@
        &&& twice.sections()[s].subsections@ == once.sections()[s].subsections@
        &&& twice.sections()[s].ancestors@ == once.sections()[s].ancestors@
    } by {
        assert(same_document(once.sections()[s], twice.sections()[s]));
    }
}

/// In a populated library the pages that no section names are exactly those
/// whose own section is not in the library.
pub proof fn lemma_orphans_lack_section(
    library: Library,
    content_path: Seq<char>,
    default_language: Seq<char>,
    page: int,
)
    requires
        library.linked(content_path, default_language),
        library.pages().len() <= usize::MAX,
        0 <= page < library.pages().len(),
    ensures
        listed(library.sections(), page) <==> section_paths(library.sections()).contains(
            page_parent(library.pages()[page], default_language),
        ),
{
    let sections = library.sections();
    let parents = page_parents(library.pages(), default_language);
    let parent = page_parent(library.pages()[page], default_language);
    if listed(sections, page) {
        let (s, k) = choose|s: int, k: int|
            0 <= s < sections.len() && 0 <= k < sections[s].pages@.len()
                && #[trigger] sections[s].pages@[k] == page;
        lemma_positions(hits(parents, sections[s].file.path@));
        assert(hits(parents, sections[s].file.path@)[page]);
        assert(section_paths(sections)[s] == parent);
    }
    if section_paths(sections).contains(parent) {
        let s = choose|s: int| 0 <= s < sections.len() && section_paths(sections)[s] == parent;
        lemma_positions(hits(parents, sections[s].file.path@));
        assert(hits(parents, sections[s].file.path@)[page]);
        let k = choose|k: int|
            0 <= k < sections[s].pages@.len() && sections[s].pages@[k] == page;
        assert(sections[s].pages@[k] == page);
    }
}

/// A permalink that two documents claim is reported, with both of them.
pub proof fn lemma_collision_reported(
    links: Seq<Seq<char>>,
    sources: Seq<Seq<char>>,
    i: int,
    j: int,
)
    requires
        links.len() == sources.len(),
        links.len() <= usize::MAX,
        0 <= i < j < links.len(),
        links[i] == links[j],
    ensures
        exists|c: int|
            0 <= c < collisions(links, sources).len() && (#[trigger] collisions(
                links,
                sources,
            )[c]).0 == links[i] && collisions(links, sources)[c].1.contains(sources[i])
                && collisions(links, sources)[c].1.contains(sources[j]),
{
    let link = links[i];
    lemma_first_exists(links, link, i);
    let f = choose|f: int| is_first(links, link, f);
    let group = occurrences(links, link);
    lemma_positions(hits(links, link));
    assert(hits(links, link)[i]);
    assert(hits(links, link)[j]);
    let a = choose|a: int| 0 <= a < group.len() && group[a] == i;
    let b = choose|b: int| 0 <= b < group.len() && group[b] == j;
    assert(a != b);
    lemma_collisions_hold(links, sources, links.len() as int, f);
    let c = choose|c: int|
        0 <= c < collisions(links, sources).len() && collisions(links, sources)[c] == (
            link,
            pick(sources, group),
        );
    assert(pick(sources, group)[a] == sources[i]);
    assert(pick(sources, group)[b] == sources[j]);
}

/// A list of collisions that holds every collision names, for two documents
/// that claim one permalink, the permalink with both documents.
pub proof fn lemma_collisions_name_both(
    found: Seq<(String, Vec<String>)>,
    links: Seq<Seq<char>>,
    sources: Seq<Seq<char>>,
    i: int,
    j: int,
)
    requires
        collision_views(found) == collisions(links, sources),
        links.len() == sources.len(),
        links.len() <= usize::MAX,
        0 <= i < j < links.len(),
        links[i] == links[j],
    ensures
        exists|c: int|
            0 <= c < found.len() && (#[trigger] found[c]).0@ == links[i] && views(
                found[c].1@,
            ).contains(sources[i]) && views(found[c].1@).contains(sources[j]),
{
    lemma_collision_reported(links, sources, i, j);
    let c = choose|c: int|
        0 <= c < collisions(links, sources).len() && (#[trigger] collisions(links, sources)[c]).0
            == links[i] && collisions(links, sources)[c].1.contains(sources[i]) && collisions(
            links,
            sources,
        )[c].1.contains(sources[j]);
    assert(collision_views(found)[c] == (found[c].0@, views(found[c].1@)));
}

/// The entry of a permalink that collides is among those listed up to `n`,
/// once `n` is past the permalink's first position `f`.
proof fn lemma_collisions_hold(links: Seq<Seq<char>>, sources: Seq<Seq<char>>, n: int, f: int)
    requires
        0 <= f < n <= links.len(),
        is_first(links, links[f], f),
        occurrences(links, links[f]).len() > 1,
    ensures
        exists|c: int|
            0 <= c < collisions_to(links, sources, n).len() && #[trigger] collisions_to(
                links,
                sources,
                n,
            )[c] == (links[f], pick(sources, occurrences(links, links[f]))),
    decreases n,
{
    let all = collisions_to(links, sources, n);
    if f == n - 1 {
        assert(all[all.len() - 1] == (links[f], pick(sources, occurrences(links, links[f]))));
    } else {
        lemma_collisions_hold(links, sources, n - 1, f);
        let before = collisions_to(links, sources, n - 1);
        let c = choose|c: int|
            0 <= c < before.len() && before[c] == (
                links[f],
                pick(sources, occurrences(links, links[f])),
            );
        assert(all[c] == before[c]);
    }
}

/// No permalink is reported exactly when no two documents share one.
pub proof fn lemma_no_collisions(links: Seq<Seq<char>>, sources: Seq<Seq<char>>)
    requires
        links.len() == sources.len(),
        links.len() <= usize::MAX,
    ensures
        collisions(links, sources).len() == 0 <==> distinct(links),
{
    if !distinct(links) {
        let (i, j) = choose|i: int, j: int| 0 <= i < j < links.len() && links[i] == links[j];
        lemma_collision_reported(links, sources, i, j);
    }
    if distinct(links) {
        lemma_distinct_collisions(links, sources, links.len() as int);
    }
}

/// Where no two documents share a permalink, none is listed.
proof fn lemma_distinct_collisions(links: Seq<Seq<char>>, sources: Seq<Seq<char>>, n: int)
    requires
        distinct(links),
        links.len() <= usize::MAX,
        0 <= n <= links.len(),
    ensures
        collisions_to(links, sources, n).len() == 0,
    decreases n,
{
    if n > 0 {
        lemma_distinct_collisions(links, sources, n - 1);
        let link = links[n - 1];
        let group = occurrences(links, link);
        lemma_positions(hits(links, link));
        if group.len() > 1 {
            assert(group[0] < group[1]);
            assert(hits(links, link)[group[0] as int]);
            assert(hits(links, link)[group[1] as int]);
            assert(links[group[0] as int] == links[group[1] as int]);
        }
    }
}

} // verus!
