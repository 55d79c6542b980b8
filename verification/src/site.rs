//! A site: its settings and its documents, and how the documents are loaded.

use vstd::pervasive::unreached;
use vstd::prelude::*;
use vstd::string::*;
use crate::config::{Config, Language, Mode};
use crate::content::{language_codes, language_of, InsertAnchor, Named, Page, Section};
use crate::errors::Error;
use crate::library::{
    all_unlinked, collision_views, collisions, lemma_collisions_name_both,
    lemma_one_document_per_path, lemma_same_paths, page_paths, permalinks, same_document,
    same_documents, section_paths, sources, unlinked, with_page, with_section, Library,
};
use crate::paths::{join_path, joined, parent_directory, section_path, section_path_of};
use crate::plan::{job_views, MarkdownJob, MarkdownJobView};
use crate::seqs::{distinct, first_index, is_first, lemma_first_index, lemma_first_unique};
use crate::store::TextMap;
use crate::taxonomy::{find_taxonomies, is_taxonomy, known_flags, settled, Taxonomy};
use crate::text::{
    copy_prefix, join, join_with, lemma_join_split, lemma_split_join, lemma_split_pieces_free,
    split, split_on, starts_with, views,
};
use crate::BuildMode;

verus! {

/// A site that is being built.
#[derive(Debug)]
pub struct Site {
    /// The directory of the site.
    pub base_path: String,
    pub config: Config,
    /// The port of the reloading server, if pages are to reload themselves.
    pub live_reload: Option<u16>,
    pub output_path: String,
    /// The directory that holds the content.
    pub content_path: String,
    pub static_path: String,
    pub taxonomies: Vec<Taxonomy>,
    /// The permalink of every document, by its path below the content
    /// directory: what links between documents are resolved with.
    pub permalinks: TextMap,
    /// Every page and section of the site.
    pub library: Library,
    /// Whether drafts are loaded with the other pages.
    pub include_drafts: bool,
    pub build_mode: BuildMode,
    /// Whether the root section of every language is looked at for being
    /// kept out of the search index, or only that of the default language.
    pub search_in_every_root: bool,
}

/// The path of the root section of a language and the code of the language;
/// no code for the default language.
pub open spec fn index_path(content_path: Seq<char>, languages: Seq<Language>, k: int) -> (
    Seq<char>,
    Option<Seq<char>>,
) {
    if k <= 0 {
        (joined(content_path, "_index.md"@), None)
    } else {
        (
            joined(content_path, "_index."@ + languages[k - 1].code@ + ".md"@),
            Some(languages[k - 1].code@),
        )
    }
}

/// The paths at which the root sections lie: that of the default language,
/// then one for each other language.
pub open spec fn index_paths(content_path: Seq<char>, languages: Seq<Language>) -> Seq<
    (Seq<char>, Option<Seq<char>>),
> {
    Seq::new(languages.len() + 1, |k: int| index_path(content_path, languages, k))
}

/// The views of a list of paths with language codes.
pub open spec fn index_views(found: Seq<(String, Option<String>)>) -> Seq<
    (Seq<char>, Option<Seq<char>>),
> {
    Seq::new(
        found.len(),
        |i: int|
            (
                found[i].0@,
                match found[i].1 {
                    Some(code) => Some(code@),
                    None => None,
                },
            ),
    )
}

/// `section` is the root section that is made for a language that has none:
/// an empty section at the language's index path, in the content directory,
/// with the permalink of the language's root.
pub open spec fn is_default_index(
    section: Section,
    content_path: Seq<char>,
    config: Config,
    lang: Option<Seq<char>>,
) -> bool {
    &&& section.file.parent@ == content_path
    &&& section.file.grand_parent.is_none()
    &&& section.file.components@.len() == 0
    &&& section.meta.render
    &&& section.meta.in_search_index
    &&& section.meta.redirect_to.is_none()
    &&& section.meta.paginate_by.is_none()
    &&& !section.meta.generate_feed
    &&& section.meta.aliases@.len() == 0
    &&& section.meta.insert_anchor_links == InsertAnchor::Off
    &&& section.raw_content@.len() == 0
    &&& section.content@.len() == 0
    &&& section.assets@.len() == 0
    &&& match lang {
        Some(code) => {
            &&& section.file.filename@ == "_index."@ + code + ".md"@
            &&& section.file.name@ == "_index"@
            &&& section.file.relative@ == "_index."@ + code + ".md"@
            &&& section.file.path@ == joined(content_path, "_index."@ + code + ".md"@)
            &&& section.path@ == code + seq!['/']
            &&& section.permalink@ == config.permalink(code)
            &&& section.lang@ == code
        },
        None => {
            &&& section.file.filename@ == "_index.md"@
            &&& section.file.name@ == "_index"@
            &&& section.file.relative@ == "_index.md"@
            &&& section.file.path@ == joined(content_path, "_index.md"@)
            &&& section.path@ == seq!['/']
            &&& section.permalink@ == config.permalink(Seq::empty())
            &&& section.lang@ == config.default_language@
        },
    }
}

/// Whether the root section at position `k` of the index paths is looked at
/// for being kept out of the search index: that of the default language
/// always, the others only where `every_root` says so.
pub open spec fn search_checked(k: int, every_root: bool) -> bool {
    k == 0 || every_root
}

/// The root section at `path` is in the library, it keeps itself out of the
/// search index, and the settings ask for a search index.
pub open spec fn search_mismatch(config: Config, sections: Seq<Section>, path: Seq<char>) -> bool {
    &&& config.build_search_index
    &&& first_index(section_paths(sections), path) matches Some(i)
    &&& !sections[i].meta.in_search_index
}

/// `section` is the root section made for one of the first `upto` index
/// paths, one that `before` had no section at.
pub open spec fn made_for(
    section: Section,
    content_path: Seq<char>,
    config: Config,
    before: Seq<Section>,
    upto: int,
) -> bool {
    exists|k: int|
        0 <= k < upto && k <= config.languages@.len() && !section_paths(before).contains(
            index_path(content_path, config.languages@, k).0,
        ) && #[trigger] is_default_index(
            section,
            content_path,
            config,
            index_path(content_path, config.languages@, k).1,
        )
}

/// A root section that is looked at keeps itself out of the search index
/// that the settings ask for.
pub open spec fn search_refused_in(
    config: Config,
    content_path: Seq<char>,
    every_root: bool,
    sections: Seq<Section>,
) -> bool {
    exists|k: int|
        0 <= k <= config.languages@.len() && search_checked(k, every_root)
            && #[trigger] search_mismatch(
            config,
            sections,
            index_path(content_path, config.languages@, k).0,
        )
}

/// A root section of the site that is looked at keeps itself out of the
/// search index that the settings ask for.
pub open spec fn search_refused(site: Site) -> bool {
    search_refused_in(
        site.config,
        site.content_path@,
        site.search_in_every_root,
        site.library.sections(),
    )
}

/// The anchor policy found on the way up from a directory. `pieces` are the
/// names on the path of the directory, and the first `n` of them make the
/// directory that is looked at: the policy is that of its section for the
/// language `lang`, if it has one. If it has none, the directory above is
/// looked at, and so on up to the content directory; where no directory on
/// the way has a section, there are no anchors.
pub open spec fn anchor_from(
    sections: Seq<Section>,
    default_language: Seq<char>,
    content_path: Seq<char>,
    pieces: Seq<Seq<char>>,
    lang: Seq<char>,
    n: int,
) -> InsertAnchor
    decreases n,
{
    let dir = join(pieces.take(n), seq!['/']);
    match first_index(section_paths(sections), section_path(dir, lang, default_language)) {
        Some(i) => sections[i].meta.insert_anchor_links,
        None => if n <= 1 || dir == content_path {
            InsertAnchor::Off
        } else {
            anchor_from(sections, default_language, content_path, pieces, lang, n - 1)
        },
    }
}

/// The anchor policy for the documents of the directory `parent_path` in
/// the language `lang`: that of the nearest section for the language, which
/// is the section of the directory itself or else of the nearest directory
/// above that has one, up to the content directory. Without such a section
/// there are no anchors.
pub open spec fn parent_anchor(
    sections: Seq<Section>,
    default_language: Seq<char>,
    content_path: Seq<char>,
    parent_path: Seq<char>,
    lang: Seq<char>,
) -> InsertAnchor {
    anchor_from(
        sections,
        default_language,
        content_path,
        split(parent_path, '/'),
        lang,
        split(parent_path, '/').len() as int,
    )
}

/// The job of rendering the body of `page`.
pub open spec fn page_job(
    sections: Seq<Section>,
    default_language: Seq<char>,
    content_path: Seq<char>,
    page: Page,
) -> MarkdownJobView {
    MarkdownJobView::Page {
        path: page.file.path@,
        insert_anchor: parent_anchor(
            sections,
            default_language,
            content_path,
            page.file.parent@,
            page.lang@,
        ),
    }
}

/// The jobs of rendering every body: of the pages first, then of the
/// sections.
pub open spec fn markdown_jobs(
    pages: Seq<Page>,
    sections: Seq<Section>,
    default_language: Seq<char>,
    content_path: Seq<char>,
) -> Seq<MarkdownJobView> {
    Seq::new(
        pages.len(),
        |i: int| page_job(sections, default_language, content_path, pages[i]),
    ) + Seq::new(sections.len(), |i: int| MarkdownJobView::Section { path: sections[i].file.path@ })
}

/// The section of a directory decides for the directory: where the
/// directory `parent_path` has a section for the language, the policy is
/// that of this section.
pub proof fn lemma_anchor_of_own_section(
    sections: Seq<Section>,
    default_language: Seq<char>,
    content_path: Seq<char>,
    parent_path: Seq<char>,
    lang: Seq<char>,
)
    ensures
        match first_index(
            section_paths(sections),
            section_path(parent_path, lang, default_language),
        ) {
            Some(i) => parent_anchor(sections, default_language, content_path, parent_path, lang)
                == sections[i].meta.insert_anchor_links,
            None => true,
        },
{
    let pieces = split(parent_path, '/');
    lemma_join_split(parent_path, '/');
    assert(pieces.take(pieces.len() as int) =~= pieces);
}

/// What is found on the way up from a directory rests on the names that
/// make the directory, and on no name after them.
pub proof fn lemma_anchor_from_same(
    sections: Seq<Section>,
    default_language: Seq<char>,
    content_path: Seq<char>,
    a: Seq<Seq<char>>,
    b: Seq<Seq<char>>,
    lang: Seq<char>,
    n: int,
)
    requires
        0 <= n <= a.len(),
        n <= b.len(),
        a.take(n) == b.take(n),
    ensures
        anchor_from(sections, default_language, content_path, a, lang, n) == anchor_from(
            sections,
            default_language,
            content_path,
            b,
            lang,
            n,
        ),
    decreases n,
{
    if n > 1 {
        assert(a.take(n - 1) =~= a.take(n).take(n - 1));
        assert(b.take(n - 1) =~= b.take(n).take(n - 1));
        lemma_anchor_from_same(sections, default_language, content_path, a, b, lang, n - 1);
    }
}

/// A directory without a section inherits: where the directory
/// `parent_path` has no section for the language and is not the content
/// directory, its policy is that of the directory above it. Where there is
/// no directory above it, there are no anchors.
pub proof fn lemma_anchor_inherited(
    sections: Seq<Section>,
    default_language: Seq<char>,
    content_path: Seq<char>,
    parent_path: Seq<char>,
    lang: Seq<char>,
)
    requires
        first_index(
            section_paths(sections),
            section_path(parent_path, lang, default_language),
        ).is_none(),
        parent_path != content_path,
    ensures
        parent_anchor(sections, default_language, content_path, parent_path, lang)
            == match parent_directory(parent_path) {
            Some(above) => parent_anchor(sections, default_language, content_path, above, lang),
            None => InsertAnchor::Off,
        },
{
    let pieces = split(parent_path, '/');
    lemma_join_split(parent_path, '/');
    assert(pieces.take(pieces.len() as int) =~= pieces);
    if pieces.len() > 1 {
        let front = pieces.drop_last();
        let above = join(front, seq!['/']);
        assert forall|k: int| 0 <= k < front.len() implies !(#[trigger] front[k]).contains(
            '/',
        ) by {
            lemma_split_pieces_free(parent_path, '/', k);
            assert(front[k] == pieces[k]);
        }
        lemma_split_join(front, '/');
        assert(pieces.take(pieces.len() - 1) =~= front);
        assert(front.take(front.len() as int) =~= front);
        lemma_anchor_from_same(
            sections,
            default_language,
            content_path,
            pieces,
            front,
            lang,
            pieces.len() - 1,
        );
    }
}

/// What a link between documents names: the link without the `@/` that such
/// a link begins with.
pub open spec fn link_target(link: Seq<char>) -> Seq<char> {
    if "@/"@.is_prefix_of(link) {
        link.subrange(2, link.len() as int)
    } else {
        link
    }
}

/// The document that a link names, by its path below the content directory:
/// what stands before the first `#` of the target.
pub open spec fn link_path(link: Seq<char>) -> Seq<char> {
    split(link_target(link), '#')[0]
}

/// The anchor that a link names: what stands between the first `#` of the
/// target and the next, if there is a `#`.
pub open spec fn link_anchor(link: Seq<char>) -> Option<Seq<char>> {
    let pieces = split(link_target(link), '#');
    if pieces.len() > 1 {
        Some(pieces[1])
    } else {
        None
    }
}

/// The address that a link between documents leads to: the permalink of the
/// document it names, with the anchor it names. There is none where no
/// document of that path has a permalink.
pub open spec fn resolved_link(permalinks: Map<Seq<char>, Seq<char>>, link: Seq<char>) -> Option<
    Seq<char>,
> {
    if permalinks.contains_key(link_path(link)) {
        Some(
            match link_anchor(link) {
                Some(anchor) => permalinks[link_path(link)] + seq!['#'] + anchor,
                None => permalinks[link_path(link)],
            },
        )
    } else {
        None
    }
}

/// The sections that a library holds once the first `n` of `given` were put
/// into an empty one, in order.
pub open spec fn loaded_sections(given: Seq<Section>, n: int) -> Seq<Section>
    decreases n,
{
    if n <= 0 {
        Seq::empty()
    } else {
        with_section(loaded_sections(given, n - 1), given[n - 1])
    }
}

/// The pages that a library holds once the first `n` of `given` were put
/// into an empty one, in order; drafts only with `include_drafts`.
pub open spec fn loaded_pages(given: Seq<Page>, include_drafts: bool, n: int) -> Seq<Page>
    decreases n,
{
    if n <= 0 {
        Seq::empty()
    } else if given[n - 1].meta.draft && !include_drafts {
        loaded_pages(given, include_drafts, n - 1)
    } else {
        with_page(loaded_pages(given, include_drafts, n - 1), given[n - 1])
    }
}

/// `links` with the permalinks of the first `n` of the sections.
pub open spec fn section_links(
    links: Map<Seq<char>, Seq<char>>,
    given: Seq<Section>,
    n: int,
) -> Map<Seq<char>, Seq<char>>
    decreases n,
{
    if n <= 0 {
        links
    } else {
        section_links(links, given, n - 1).insert(
            given[n - 1].file.relative@,
            given[n - 1].permalink@,
        )
    }
}

/// `links` with the permalinks of the first `n` of the pages; of drafts only
/// with `include_drafts`.
pub open spec fn page_links(
    links: Map<Seq<char>, Seq<char>>,
    given: Seq<Page>,
    include_drafts: bool,
    n: int,
) -> Map<Seq<char>, Seq<char>>
    decreases n,
{
    if n <= 0 {
        links
    } else if given[n - 1].meta.draft && !include_drafts {
        page_links(links, given, include_drafts, n - 1)
    } else {
        page_links(links, given, include_drafts, n - 1).insert(
            given[n - 1].file.relative@,
            given[n - 1].permalink@,
        )
    }
}

/// The documents of `site` are those that loading `sections` and `pages`
/// into `before` gives: the pages, the sections, and after them a root
/// section for each language that was given none; and the permalinks of
/// what was given are recorded.
pub open spec fn holds_loaded(
    before: Site,
    site: Site,
    sections: Seq<Section>,
    pages: Seq<Page>,
) -> bool {
    let model = loaded_sections(sections, sections.len() as int);
    let stored = site.library.sections();
    &&& site.library.pages() == loaded_pages(pages, before.include_drafts, pages.len() as int)
    &&& model.len() <= stored.len()
    &&& same_documents(stored.take(model.len() as int), model)
    &&& forall|j: int|
        model.len() <= j < stored.len() ==> made_for(
            #[trigger] stored[j],
            before.content_path@,
            before.config,
            model,
            before.config.languages@.len() as int + 1,
        )
    &&& forall|k: int|
        0 <= k <= before.config.languages@.len() ==> section_paths(stored).contains(
            #[trigger] index_path(before.content_path@, before.config.languages@, k).0,
        )
    &&& site.permalinks@ == page_links(
        section_links(before.permalinks@, sections, sections.len() as int),
        pages,
        before.include_drafts,
        pages.len() as int,
    )
}

/// Putting a section into two lists that hold the same documents leaves
/// them holding the same documents.
pub proof fn lemma_with_section_same(a: Seq<Section>, b: Seq<Section>, section: Section)
    requires
        same_documents(a, b),
    ensures
        same_documents(with_section(a, section), with_section(b, section)),
{
    assert(section_paths(a) =~= section_paths(b));
    match first_index(section_paths(a), section.file.path@) {
        Some(i) => {
            lemma_first_index(section_paths(a), section.file.path@);
            let x = a.remove(i).push(section);
            let y = b.remove(i).push(section);
            assert forall|j: int| 0 <= j < x.len() implies same_document(x[j], y[j]) by {
                if j < i {
                    assert(same_document(a[j], b[j]));
                } else if j < x.len() - 1 {
                    assert(same_document(a[j + 1], b[j + 1]));
                }
            }
        },
        None => {
            let x = a.push(section);
            let y = b.push(section);
            assert forall|j: int| 0 <= j < x.len() implies same_document(x[j], y[j]) by {
                if j < a.len() {
                    assert(same_document(a[j], b[j]));
                }
            }
        },
    }
}

/// Lists that hold the same documents agree on whether a root section
/// refuses the search index.
pub proof fn lemma_search_refused_same(
    config: Config,
    content_path: Seq<char>,
    every_root: bool,
    a: Seq<Section>,
    b: Seq<Section>,
)
    requires
        same_documents(a, b),
    ensures
        search_refused_in(config, content_path, every_root, a) == search_refused_in(
            config,
            content_path,
            every_root,
            b,
        ),
{
    assert(section_paths(a) =~= section_paths(b));
    assert forall|k: int|
        search_mismatch(config, a, index_path(content_path, config.languages@, k).0)
            == search_mismatch(config, b, index_path(content_path, config.languages@, k).0) by {
        let p = index_path(content_path, config.languages@, k).0;
        lemma_first_index(section_paths(a), p);
        match first_index(section_paths(a), p) {
            Some(i) => {
                assert(same_document(a[i], b[i]));
            },
            None => {},
        }
    }
    if search_refused_in(config, content_path, every_root, a) {
        let k = choose|k: int|
            0 <= k <= config.languages@.len() && search_checked(k, every_root)
                && #[trigger] search_mismatch(
                config,
                a,
                index_path(content_path, config.languages@, k).0,
            );
        assert(search_mismatch(config, b, index_path(content_path, config.languages@, k).0));
    }
    if search_refused_in(config, content_path, every_root, b) {
        let k = choose|k: int|
            0 <= k <= config.languages@.len() && search_checked(k, every_root)
                && #[trigger] search_mismatch(
                config,
                b,
                index_path(content_path, config.languages@, k).0,
            );
        assert(search_mismatch(config, a, index_path(content_path, config.languages@, k).0));
    }
}

/// A root section made for a language stays one where the same document is
/// held with other relations, and where the sections it was missing from are
/// held with other relations.
pub proof fn lemma_made_for_same(
    a: Section,
    b: Section,
    content_path: Seq<char>,
    config: Config,
    before_a: Seq<Section>,
    before_b: Seq<Section>,
    upto: int,
)
    requires
        same_document(a, b),
        section_paths(before_a) == section_paths(before_b),
        made_for(a, content_path, config, before_a, upto),
    ensures
        made_for(b, content_path, config, before_b, upto),
{
    let k = choose|k: int|
        0 <= k < upto && k <= config.languages@.len() && !section_paths(before_a).contains(
            index_path(content_path, config.languages@, k).0,
        ) && #[trigger] is_default_index(
            a,
            content_path,
            config,
            index_path(content_path, config.languages@, k).1,
        );
    assert(is_default_index(b, content_path, config, index_path(content_path, config.languages@, k).1));
}

/// Lists that hold the same documents claim the same permalinks from the
/// same sources.
pub proof fn lemma_permalinks_same(pages: Seq<Page>, a: Seq<Section>, b: Seq<Section>)
    requires
        same_documents(a, b),
    ensures
        permalinks(pages, a) == permalinks(pages, b),
        sources(pages, a) == sources(pages, b),
{
    assert forall|i: int| 0 <= i < a.len() implies a[i].permalink@ == b[i].permalink@
        && a[i].file.relative@ == b[i].file.relative@ by {
        assert(same_document(a[i], b[i]));
    }
    assert(permalinks(pages, a) =~= permalinks(pages, b));
    assert(sources(pages, a) =~= sources(pages, b));
}

/// A site that holds the documents loaded still holds them where its
/// sections are held with other relations.
pub proof fn lemma_holds_loaded_same(
    before: Site,
    a: Site,
    b: Site,
    sections: Seq<Section>,
    pages: Seq<Page>,
)
    requires
        holds_loaded(before, a, sections, pages),
        b.library.pages() == a.library.pages(),
        same_documents(a.library.sections(), b.library.sections()),
        b.permalinks@ == a.permalinks@,
    ensures
        holds_loaded(before, b, sections, pages),
{
    let model = loaded_sections(sections, sections.len() as int);
    let x = a.library.sections();
    let y = b.library.sections();
    lemma_same_paths(x, y);
    assert forall|j: int| 0 <= j < model.len() implies same_document(
        y.take(model.len() as int)[j],
        model[j],
    ) by {
        assert(same_document(x[j], y[j]));
        assert(same_document(x.take(model.len() as int)[j], model[j]));
    }
    assert forall|j: int| model.len() <= j < y.len() implies made_for(
        #[trigger] y[j],
        before.content_path@,
        before.config,
        model,
        before.config.languages@.len() as int + 1,
    ) by {
        assert(same_document(x[j], y[j]));
        lemma_made_for_same(
            x[j],
            y[j],
            before.content_path@,
            before.config,
            model,
            model,
            before.config.languages@.len() as int + 1,
        );
    }
}

/// A name lies at one path of a directory only: paths of one directory that
/// are the same hold the same name.
pub proof fn lemma_joined_same(dir: Seq<char>, a: Seq<char>, b: Seq<char>)
    requires
        joined(dir, a) == joined(dir, b),
    ensures
        a == b,
{
    if dir.len() == 0 || dir.last() == '/' {
        assert((dir + a).subrange(dir.len() as int, (dir + a).len() as int) =~= a);
        assert((dir + b).subrange(dir.len() as int, (dir + b).len() as int) =~= b);
    } else {
        let d = dir + seq!['/'];
        assert(dir + seq!['/'] + a =~= d + a);
        assert(dir + seq!['/'] + b =~= d + b);
        assert((d + a).subrange(d.len() as int, (d + a).len() as int) =~= a);
        assert((d + b).subrange(d.len() as int, (d + b).len() as int) =~= b);
    }
}

/// Index paths that are the same belong to the same language.
pub proof fn lemma_index_path_same(
    content_path: Seq<char>,
    languages: Seq<Language>,
    k: int,
    l: int,
)
    requires
        0 <= k <= languages.len(),
        0 <= l <= languages.len(),
        index_path(content_path, languages, k).0 == index_path(content_path, languages, l).0,
    ensures
        index_path(content_path, languages, k).1 == index_path(content_path, languages, l).1,
{
    reveal_strlit("_index.md");
    reveal_strlit("_index.");
    reveal_strlit(".md");
    let head = "_index."@;
    let tail = ".md"@;
    if k <= 0 && l <= 0 {
    } else if k > 0 && l > 0 {
        let a = languages[k - 1].code@;
        let b = languages[l - 1].code@;
        lemma_joined_same(content_path, head + a + tail, head + b + tail);
        assert((head + a + tail).subrange(7, 7 + a.len() as int) =~= a);
        assert((head + b + tail).subrange(7, 7 + b.len() as int) =~= b);
        assert((head + a + tail).len() == 10 + a.len());
        assert((head + b + tail).len() == 10 + b.len());
    } else if k > 0 {
        let a = languages[k - 1].code@;
        lemma_joined_same(content_path, head + a + tail, "_index.md"@);
        assert((head + a + tail).len() == 10 + a.len());
    } else {
        let b = languages[l - 1].code@;
        lemma_joined_same(content_path, "_index.md"@, head + b + tail);
        assert((head + b + tail).len() == 10 + b.len());
    }
}

/// After loading, a language that was given no root section has the root
/// section made for it: an empty section at the index path of the language,
/// with the permalink of the root of the language. No other section lies at
/// that path.
pub proof fn lemma_root_of_language(
    before: Site,
    site: Site,
    sections: Seq<Section>,
    pages: Seq<Page>,
    k: int,
)
    requires
        holds_loaded(before, site, sections, pages),
        site.library.wf(),
        0 <= k <= before.config.languages@.len(),
        !section_paths(loaded_sections(sections, sections.len() as int)).contains(
            index_path(before.content_path@, before.config.languages@, k).0,
        ),
    ensures
        exists|j: int|
            0 <= j < site.library.sections().len() && (#[trigger] site.library.sections()[j]).file.path@
                == index_path(before.content_path@, before.config.languages@, k).0
                && is_default_index(
                site.library.sections()[j],
                before.content_path@,
                before.config,
                index_path(before.content_path@, before.config.languages@, k).1,
            ),
        forall|i: int, j: int|
            0 <= i < site.library.sections().len() && 0 <= j < site.library.sections().len()
                && (#[trigger] site.library.sections()[i]).file.path@ == index_path(
                before.content_path@,
                before.config.languages@,
                k,
            ).0 && (#[trigger] site.library.sections()[j]).file.path@ == index_path(
                before.content_path@,
                before.config.languages@,
                k,
            ).0 ==> i == j,
{
    let content_path = before.content_path@;
    let languages = before.config.languages@;
    let model = loaded_sections(sections, sections.len() as int);
    let stored = site.library.sections();
    let wanted = index_path(content_path, languages, k);
    assert(section_paths(stored).contains(wanted.0));
    let j = choose|j: int| 0 <= j < stored.len() && section_paths(stored)[j] == wanted.0;
    assert(stored[j].file.path@ == wanted.0);
    if j < model.len() {
        assert(same_document(stored.take(model.len() as int)[j], model[j]));
        assert(section_paths(model)[j] == wanted.0);
    }
    assert(made_for(stored[j], content_path, before.config, model, languages.len() as int + 1));
    let l = choose|l: int|
        0 <= l < languages.len() as int + 1 && l <= languages.len() && !section_paths(
            model,
        ).contains(index_path(content_path, languages, l).0) && #[trigger] is_default_index(
            stored[j],
            content_path,
            before.config,
            index_path(content_path, languages, l).1,
        );
    assert(index_path(content_path, languages, l).0 == wanted.0) by {
        reveal_strlit("_index.md");
        match index_path(content_path, languages, l).1 {
            Some(code) => {},
            None => {},
        }
    }
    lemma_index_path_same(content_path, languages, k, l);
    assert forall|a: int, b: int|
        0 <= a < stored.len() && 0 <= b < stored.len() && (#[trigger] stored[a]).file.path@
            == wanted.0 && (#[trigger] stored[b]).file.path@ == wanted.0 implies a == b by {
        lemma_one_document_per_path(site.library, a, b);
    }
}

/// The name of an index file gives its language: that of the root of the
/// default language gives the default language, and that of the root of
/// another language gives that language and leaves `_index` as the name.
pub proof fn lemma_index_language(config: Config, lang: Option<Seq<char>>)
    requires
        lang matches Some(code) ==> language_codes(config.languages@).contains(code),
    ensures
        language_of(
            config,
            match lang {
                Some(code) => "_index."@ + code,
                None => "_index"@,
            },
        ) == Named::Language(
            match lang {
                Some(code) => code,
                None => config.default_language@,
            },
            "_index"@,
        ),
{
    reveal_strlit("_index.");
    reveal_strlit("_index");
    match lang {
        Some(code) => {
            let name = "_index."@ + code;
            assert(language_codes(config.languages@).len() > 0);
            assert(is_first(name, '.', 6));
            lemma_first_unique(name, '.', 6);
            assert(name.subrange(7, name.len() as int) =~= code);
            assert(name.subrange(0, 6) =~= "_index"@);
        },
        None => {
            lemma_first_index("_index"@, '.');
        },
    }
}

/// A document that was given to be loaded: the page or the section at a
/// position of what was given.
pub enum Given {
    Page(int),
    Section(int),
}

/// The page at position `i` of the pages given is kept: it is no draft, or
/// drafts are included, and no page that comes later and is kept has its
/// source path.
pub open spec fn page_kept(pages: Seq<Page>, include_drafts: bool, i: int) -> bool {
    &&& 0 <= i < pages.len()
    &&& !(pages[i].meta.draft && !include_drafts)
    &&& forall|j: int|
        i < j < pages.len() && !((#[trigger] pages[j]).meta.draft && !include_drafts)
            ==> pages[j].file.path@ != pages[i].file.path@
}

/// The section at position `i` of the sections given is kept: no section
/// that comes later has its source path.
pub open spec fn section_kept(sections: Seq<Section>, i: int) -> bool {
    &&& 0 <= i < sections.len()
    &&& forall|j: int|
        i < j < sections.len() ==> (#[trigger] sections[j]).file.path@ != sections[i].file.path@
}

/// The document is kept when what was given is loaded.
pub open spec fn given_kept(
    sections: Seq<Section>,
    pages: Seq<Page>,
    include_drafts: bool,
    document: Given,
) -> bool {
    match document {
        Given::Page(i) => page_kept(pages, include_drafts, i),
        Given::Section(i) => section_kept(sections, i),
    }
}

/// The permalink of a document that was given.
pub open spec fn given_permalink(sections: Seq<Section>, pages: Seq<Page>, document: Given) -> Seq<
    char,
> {
    match document {
        Given::Page(i) => pages[i].permalink@,
        Given::Section(i) => sections[i].permalink@,
    }
}

/// The path below the content directory of a document that was given: what
/// a collision names the document by.
pub open spec fn given_source(sections: Seq<Section>, pages: Seq<Page>, document: Given) -> Seq<
    char,
> {
    match document {
        Given::Page(i) => pages[i].file.relative@,
        Given::Section(i) => sections[i].file.relative@,
    }
}

/// A page that is kept is among the pages loaded.
pub proof fn lemma_kept_page_loaded(pages: Seq<Page>, include_drafts: bool, n: int, i: int)
    requires
        0 <= i < n <= pages.len(),
        !(pages[i].meta.draft && !include_drafts),
        forall|j: int|
            i < j < n && !((#[trigger] pages[j]).meta.draft && !include_drafts)
                ==> pages[j].file.path@ != pages[i].file.path@,
    ensures
        loaded_pages(pages, include_drafts, n).contains(pages[i]),
    decreases n,
{
    let all = loaded_pages(pages, include_drafts, n);
    let before = loaded_pages(pages, include_drafts, n - 1);
    let page = pages[n - 1];
    if n - 1 == i {
        assert(all[all.len() - 1] == pages[i]);
    } else {
        lemma_kept_page_loaded(pages, include_drafts, n - 1, i);
        let a = choose|a: int| 0 <= a < before.len() && before[a] == pages[i];
        if page.meta.draft && !include_drafts {
        } else {
            lemma_first_index(page_paths(before), page.file.path@);
            match first_index(page_paths(before), page.file.path@) {
                Some(r) => {
                    assert(page_paths(before)[r] == page.file.path@);
                    assert(page_paths(before)[a] == pages[i].file.path@);
                    let b = if a < r {
                        a
                    } else {
                        a - 1
                    };
                    assert(all[b] == pages[i]);
                },
                None => {
                    assert(all[a] == pages[i]);
                },
            }
        }
    }
}

/// A section that is kept is among the sections loaded.
pub proof fn lemma_kept_section_loaded(sections: Seq<Section>, n: int, i: int)
    requires
        0 <= i < n <= sections.len(),
        forall|j: int|
            i < j < n ==> (#[trigger] sections[j]).file.path@ != sections[i].file.path@,
    ensures
        loaded_sections(sections, n).contains(sections[i]),
    decreases n,
{
    let all = loaded_sections(sections, n);
    let before = loaded_sections(sections, n - 1);
    let section = sections[n - 1];
    if n - 1 == i {
        assert(all[all.len() - 1] == sections[i]);
    } else {
        lemma_kept_section_loaded(sections, n - 1, i);
        let a = choose|a: int| 0 <= a < before.len() && before[a] == sections[i];
        lemma_first_index(section_paths(before), section.file.path@);
        match first_index(section_paths(before), section.file.path@) {
            Some(r) => {
                assert(section_paths(before)[r] == section.file.path@);
                assert(section_paths(before)[a] == sections[i].file.path@);
                let b = if a < r {
                    a
                } else {
                    a - 1
                };
                assert(all[b] == sections[i]);
            },
            None => {
                assert(all[a] == sections[i]);
            },
        }
    }
}

/// A document that was given and is kept is in the library after loading:
/// at some position of the documents of the library stand its permalink and
/// its source, a page among the pages and a section among the sections.
pub proof fn lemma_given_loaded(
    before: Site,
    site: Site,
    sections: Seq<Section>,
    pages: Seq<Page>,
    document: Given,
) -> (x: int)
    requires
        holds_loaded(before, site, sections, pages),
        given_kept(sections, pages, before.include_drafts, document),
    ensures
        0 <= x < permalinks(site.library.pages(), site.library.sections()).len(),
        permalinks(site.library.pages(), site.library.sections())[x] == given_permalink(
            sections,
            pages,
            document,
        ),
        sources(site.library.pages(), site.library.sections())[x] == given_source(
            sections,
            pages,
            document,
        ),
        match document {
            Given::Page(i) => x < site.library.pages().len() && site.library.pages()[x] == pages[i],
            Given::Section(i) => x >= site.library.pages().len() && same_document(
                site.library.sections()[x - site.library.pages().len()],
                sections[i],
            ),
        },
{
    let stored_pages = site.library.pages();
    let stored = site.library.sections();
    match document {
        Given::Page(i) => {
            lemma_kept_page_loaded(pages, before.include_drafts, pages.len() as int, i);
            let a = choose|a: int| 0 <= a < stored_pages.len() && stored_pages[a] == pages[i];
            a
        },
        Given::Section(i) => {
            let model = loaded_sections(sections, sections.len() as int);
            lemma_kept_section_loaded(sections, sections.len() as int, i);
            let b = choose|b: int| 0 <= b < model.len() && model[b] == sections[i];
            assert(same_document(stored.take(model.len() as int)[b], model[b]));
            stored_pages.len() + b
        },
    }
}

/// Two documents that were given, are kept and claim one permalink are both
/// in the library after loading, so its permalinks are not distinct: loading
/// does not succeed. And a list that holds every collision of the library,
/// as the list of the collision error does, names the permalink with both
/// documents.
pub proof fn lemma_load_names_collision(
    before: Site,
    site: Site,
    sections: Seq<Section>,
    pages: Seq<Page>,
    found: Seq<(String, Vec<String>)>,
    first: Given,
    second: Given,
)
    requires
        holds_loaded(before, site, sections, pages),
        given_kept(sections, pages, before.include_drafts, first),
        given_kept(sections, pages, before.include_drafts, second),
        first != second,
        given_permalink(sections, pages, first) == given_permalink(sections, pages, second),
        permalinks(site.library.pages(), site.library.sections()).len() <= usize::MAX,
        collision_views(found) == collisions(
            permalinks(site.library.pages(), site.library.sections()),
            sources(site.library.pages(), site.library.sections()),
        ),
    ensures
        !distinct(permalinks(site.library.pages(), site.library.sections())),
        exists|c: int|
            0 <= c < found.len() && (#[trigger] found[c]).0@ == given_permalink(
                sections,
                pages,
                first,
            ) && views(found[c].1@).contains(given_source(sections, pages, first)) && views(
                found[c].1@,
            ).contains(given_source(sections, pages, second)),
{
    let links = permalinks(site.library.pages(), site.library.sections());
    let names = sources(site.library.pages(), site.library.sections());
    let x = lemma_given_loaded(before, site, sections, pages, first);
    let y = lemma_given_loaded(before, site, sections, pages, second);
    assert(x != y) by {
        match (first, second) {
            (Given::Page(i), Given::Page(j)) => {
                assert(pages[i].file.path@ != pages[j].file.path@) by {
                    if i < j {
                        assert(!(pages[j].meta.draft && !before.include_drafts));
                    } else {
                        assert(!(pages[i].meta.draft && !before.include_drafts));
                    }
                }
            },
            (Given::Section(i), Given::Section(j)) => {
                assert(sections[i].file.path@ != sections[j].file.path@) by {
                    if i < j {
                        assert(sections[j].file.path@ != sections[i].file.path@);
                    } else {
                        assert(sections[i].file.path@ != sections[j].file.path@);
                    }
                }
            },
            _ => {},
        }
    }
    if x < y {
        lemma_collisions_name_both(found, links, names, x, y);
    } else {
        lemma_collisions_name_both(found, links, names, y, x);
    }
}

impl Site {
    /// The library and the permalinks are sound.
    pub open spec fn wf(&self) -> bool {
        self.library.wf() && self.permalinks.wf()
    }

    /// A site in the directory `path`, with no documents yet. Its content
    /// lies in `content` below `path`, its static files in `static`, and it
    /// is built into `public`, onto the disk.
    pub fn new(path: &str, config: Config) -> (site: Site)
        ensures
            site.wf(),
            site.base_path@ == path@,
            site.config == config,
            site.live_reload.is_none(),
            site.output_path@ == joined(path@, "public"@),
            site.content_path@ == joined(path@, "content"@),
            site.static_path@ == joined(path@, "static"@),
            site.taxonomies@.len() == 0,
            site.permalinks@ == Map::<Seq<char>, Seq<char>>::empty(),
            site.library.pages().len() == 0,
            site.library.sections().len() == 0,
            !site.include_drafts,
            site.build_mode == BuildMode::Disk,
            !site.search_in_every_root,
    {
        Site {
            base_path: path.to_owned(),
            config,
            live_reload: None,
            output_path: join_path(path, "public"),
            content_path: join_path(path, "content"),
            static_path: join_path(path, "static"),
            taxonomies: Vec::new(),
            permalinks: TextMap::new(),
            library: Library::new(0, 0, false),
            include_drafts: false,
            build_mode: BuildMode::Disk,
            search_in_every_root: false,
        }
    }

    /// Switches to building a preview: what is rendered is kept in memory,
    /// and `content`, which holds it, is emptied first.
    pub fn enable_serve_mode(&mut self, content: &mut TextMap)
        ensures
            final(content).wf(),
            final(content)@ == Map::<Seq<char>, Seq<char>>::empty(),
            *final(self) == (Site {
                build_mode: BuildMode::Memory,
                config: Config { mode: Mode::Serve, ..old(self).config },
                ..*old(self)
            }),
    {
        content.clear();
        self.config.enable_serve_mode();
        self.build_mode = BuildMode::Memory;
    }

    /// Has drafts loaded with the other pages. To be called before loading.
    pub fn include_drafts(&mut self)
        ensures
            *final(self) == (Site { include_drafts: true, ..*old(self) }),
    {
        self.include_drafts = true;
    }

    /// Says whether the root section of every language is looked at for
    /// being kept out of the search index, or only that of the default one.
    pub fn set_search_in_every_root(&mut self, every_root: bool)
        ensures
            *final(self) == (Site { search_in_every_root: every_root, ..*old(self) }),
    {
        self.search_in_every_root = every_root;
    }

    /// Has pages reload themselves through the port `available`, which was
    /// found free, unless it is the port to avoid: the port that the server
    /// of the preview itself is going to take.
    pub fn enable_live_reload(&mut self, port_to_avoid: u16, available: Option<u16>)
        ensures
            *final(self) == (Site {
                live_reload: match available {
                    Some(port) => if port != port_to_avoid {
                        Some(port)
                    } else {
                        None
                    },
                    None => None,
                },
                ..*old(self)
            }),
    {
        self.live_reload = match available {
            Some(port) => if port != port_to_avoid {
                Some(port)
            } else {
                None
            },
            None => None,
        };
    }

    /// Has pages reload themselves through the port `live_reload_port`.
    pub fn enable_live_reload_with_port(&mut self, live_reload_port: u16)
        ensures
            *final(self) == (Site { live_reload: Some(live_reload_port), ..*old(self) }),
    {
        self.live_reload = Some(live_reload_port);
    }

    /// Publishes the site under `base_url` from now on.
    pub fn set_base_url(&mut self, base_url: String)
        ensures
            *final(self) == (Site {
                config: Config { base_url, ..old(self).config },
                ..*old(self)
            }),
    {
        self.config.base_url = base_url;
    }

    /// Builds the site into `path` from now on.
    pub fn set_output_path(&mut self, path: &str)
        ensures
            final(self).output_path@ == path@,
            *final(self) == (Site { output_path: final(self).output_path, ..*old(self) }),
    {
        self.output_path = path.to_owned();
    }

    /// The paths at which the root sections lie, each with the code of its
    /// language: that of the default language first, which has no code.
    pub fn index_section_paths(&self) -> (found: Vec<(String, Option<String>)>)
        ensures
            index_views(found@) == index_paths(self.content_path@, self.config.languages@),
    {
        let mut found: Vec<(String, Option<String>)> = Vec::new();
        found.push((join_path(self.content_path.as_str(), "_index.md"), None));
        let ghost wanted = index_paths(self.content_path@, self.config.languages@);
        proof {
            assert(index_views(found@) =~= wanted.take(1));
        }
        let mut i: usize = 0;
        while i < self.config.languages.len()
            invariant
                i <= self.config.languages.len(),
                wanted == index_paths(self.content_path@, self.config.languages@),
                index_views(found@) == wanted.take(i + 1),
            decreases self.config.languages.len() - i,
        {
            let code = &self.config.languages[i].code;
            let mut name = "_index.".to_owned();
            name.append(code.as_str());
            name.append(".md");
            let entry = (join_path(self.content_path.as_str(), name.as_str()), Some(code.clone()));
            proof {
                assert(index_views(found@.push(entry)) =~= index_views(found@).push(
                    (entry.0@, Some(code@)),
                ));
                assert(wanted.take(i + 2) =~= wanted.take(i + 1).push(wanted[i + 1]));
            }
            found.push(entry);
            i += 1;
        }
        proof {
            assert(wanted.take(self.config.languages@.len() as int + 1) =~= wanted);
        }
        found
    }

    /// The anchor policy for the documents of the directory `parent_path`
    /// in the language `lang`: that of the nearest section for the language,
    /// looked for in the directory itself and then in each directory above
    /// it, up to the content directory. Without such a section there are no
    /// anchors.
    pub fn find_parent_section_insert_anchor(&self, parent_path: &str, lang: &str) -> (r:
        InsertAnchor)
        ensures
            r == parent_anchor(
                self.library.sections(),
                self.config.default_language@,
                self.content_path@,
                parent_path@,
                lang@,
            ),
    {
        let pieces = split_on(parent_path, '/');
        let mut n: usize = pieces.len();
        proof {
            reveal_strlit("/");
            assert("/"@ =~= seq!['/']);
            assert(views(pieces@).len() == pieces@.len());
        }
        loop
            invariant
                1 <= n <= pieces@.len(),
                views(pieces@) == split(parent_path@, '/'),
                "/"@ == seq!['/'],
                parent_anchor(
                    self.library.sections(),
                    self.config.default_language@,
                    self.content_path@,
                    parent_path@,
                    lang@,
                ) == anchor_from(
                    self.library.sections(),
                    self.config.default_language@,
                    self.content_path@,
                    views(pieces@),
                    lang@,
                    n as int,
                ),
            decreases n,
        {
            let above = copy_prefix(&pieces, n);
            let dir = join_with(&above, "/");
            let wanted = section_path_of(
                dir.as_str(),
                lang,
                self.config.default_language.as_str(),
            );
            match self.library.get_section(wanted.as_str()) {
                Some(section) => {
                    return section.meta.insert_anchor_links;
                },
                None => {},
            }
            if n <= 1 || dir == self.content_path {
                return InsertAnchor::Off;
            }
            n -= 1;
        }
    }
    /// The first root section that is looked at and keeps itself out of the
    /// search index that the settings ask for.
    fn refuses_search(&self, paths: &Vec<(String, Option<String>)>) -> (r: bool)
        requires
            index_views(paths@) == index_paths(self.content_path@, self.config.languages@),
        ensures
            r == search_refused(*self),
    {
        if !self.config.build_search_index {
            return false;
        }
        let ghost wanted = index_paths(self.content_path@, self.config.languages@);
        proof {
            assert(index_views(paths@).len() == paths@.len());
        }
        let mut k: usize = 0;
        while k < paths.len()
            invariant
                k <= paths.len(),
                self.config.build_search_index,
                wanted == index_paths(self.content_path@, self.config.languages@),
                index_views(paths@) == wanted,
                paths@.len() == self.config.languages@.len() + 1,
                forall|j: int|
                    0 <= j < k && search_checked(j, self.search_in_every_root)
                        ==> !#[trigger] search_mismatch(
                        self.config,
                        self.library.sections(),
                        index_path(self.content_path@, self.config.languages@, j).0,
                    ),
            decreases paths.len() - k,
        {
            proof {
                assert(index_views(paths@)[k as int] == wanted[k as int]);
            }
            if k == 0 || self.search_in_every_root {
                match self.library.get_section(paths[k].0.as_str()) {
                    Some(section) => {
                        if !section.meta.in_search_index {
                            proof {
                                assert(search_mismatch(
                                    self.config,
                                    self.library.sections(),
                                    index_path(self.content_path@, self.config.languages@, k as int).0,
                                ));
                            }
                            return true;
                        }
                    },
                    None => {},
                }
            }
            k += 1;
        }
        false
    }

    /// The root section that is made for a language that has none.
    fn default_index(&self, lang: &Option<String>) -> (section: Section)
        requires
            lang matches Some(code) ==> language_codes(self.config.languages@).contains(code@),
        ensures
            is_default_index(
                section,
                self.content_path@,
                self.config,
                match lang {
                    Some(code) => Some(code@),
                    None => None,
                },
            ),
    {
        let mut section = Section::default();
        section.file.parent = self.content_path.clone();
        match lang {
            Some(code) => {
                let mut name = "_index.".to_owned();
                name.append(code.as_str());
                let mut filename = name.clone();
                filename.append(".md");
                let mut path = code.clone();
                path.append("/");
                proof {
                    reveal_strlit("/");
                    assert("/"@ =~= seq!['/']);
                }
                section.file.path = join_path(self.content_path.as_str(), filename.as_str());
                section.file.relative = filename.clone();
                section.file.filename = filename;
                section.file.name = name;
                section.path = path;
                section.permalink = self.config.make_permalink(code.as_str());
            },
            None => {
                proof {
                    reveal_strlit("/");
                    reveal_strlit("");
                    assert("/"@ =~= seq!['/']);
                    assert(""@ =~= Seq::<char>::empty());
                }
                section.file.path = join_path(self.content_path.as_str(), "_index.md");
                section.file.relative = "_index.md".to_owned();
                section.file.filename = "_index.md".to_owned();
                section.file.name = "_index".to_owned();
                section.path = "/".to_owned();
                section.permalink = self.config.make_permalink("");
            },
        }
        proof {
            lemma_index_language(
                self.config,
                match lang {
                    Some(code) => Some(code@),
                    None => None,
                },
            );
        }
        match section.file.find_language(&self.config) {
            Ok(found) => {
                section.lang = found;
            },
            Err(_) => unreached(),
        }
        section
    }

    /// Gives every language that has no root section an empty one, so that
    /// the root of each language can be rendered. It fails, and changes
    /// nothing, where the settings ask for a search index and a root section
    /// that is looked at keeps itself out of it.
    pub fn create_default_index_sections(&mut self) -> (r: Result<(), Error>)
        requires
            old(self).wf(),
        ensures
            final(self).wf(),
            *final(self) == (Site { library: final(self).library, ..*old(self) }),
            final(self).library.pages() == old(self).library.pages(),
            final(self).library.multilingual() == old(self).library.multilingual(),
            match r {
                Err(e) => {
                    &&& e is SearchIndexDisabled
                    &&& search_refused(*old(self))
                    &&& final(self).library == old(self).library
                },
                Ok(_) => {
                    let before = old(self).library.sections();
                    let after = final(self).library.sections();
                    &&& !search_refused(*old(self))
                    &&& before.len() <= after.len()
                    &&& after.take(before.len() as int) == before
                    &&& forall|j: int|
                        before.len() <= j < after.len() ==> unlinked(#[trigger] after[j])
                            && made_for(
                            after[j],
                            old(self).content_path@,
                            old(self).config,
                            before,
                            old(self).config.languages@.len() as int + 1,
                        )
                    &&& forall|k: int|
                        0 <= k <= old(self).config.languages@.len() ==> section_paths(after).contains(
                            #[trigger] index_path(old(self).content_path@, old(self).config.languages@, k).0,
                        )
                },
            },
    {
        let paths = self.index_section_paths();
        if self.refuses_search(&paths) {
            return Err(Error::SearchIndexDisabled);
        }
        let ghost wanted = index_paths(self.content_path@, self.config.languages@);
        let ghost before = self.library.sections();
        let ghost count = before.len();
        proof {
            assert(self.library.sections().take(count as int) =~= before);
            assert(index_views(paths@).len() == paths@.len());
        }
        let mut k: usize = 0;
        while k < paths.len()
            invariant
                k <= paths.len(),
                self.wf(),
                *self == (Site { library: self.library, ..*old(self) }),
                self.library.pages() == old(self).library.pages(),
                self.library.multilingual() == old(self).library.multilingual(),
                before == old(self).library.sections(),
                count == before.len(),
                wanted == index_paths(self.content_path@, self.config.languages@),
                index_views(paths@) == wanted,
                paths@.len() == self.config.languages@.len() + 1,
                count <= self.library.sections().len(),
                self.library.sections().take(count as int) == before,
                forall|j: int|
                    count <= j < self.library.sections().len() ==> unlinked(
                        #[trigger] self.library.sections()[j],
                    ) && made_for(
                        self.library.sections()[j],
                        self.content_path@,
                        self.config,
                        before,
                        k as int,
                    ),
                forall|j: int|
                    0 <= j < k ==> section_paths(self.library.sections()).contains(
                        #[trigger] index_path(self.content_path@, self.config.languages@, j).0,
                    ),
            decreases paths.len() - k,
        {
            let ghost here = self.library.sections();
            let ghost wanted_path = index_path(self.content_path@, self.config.languages@, k as int);
            proof {
                assert(index_views(paths@)[k as int] == wanted[k as int]);
                assert(wanted[k as int] == wanted_path);
            }
            if !self.library.contains_section(paths[k].0.as_str()) {
                proof {
                    if k > 0 {
                        assert(language_codes(self.config.languages@)[k - 1]
                            == self.config.languages@[k - 1].code@);
                    }
                }
                let section = self.default_index(&paths[k].1);
                proof {
                    lemma_first_index(section_paths(here), section.file.path@);
                    assert(section.file.path@ == wanted_path.0);
                    assert(!section_paths(before).contains(wanted_path.0)) by {
                        if section_paths(before).contains(wanted_path.0) {
                            let i = choose|i: int|
                                0 <= i < before.len() && section_paths(before)[i] == wanted_path.0;
                            assert(here.take(count as int)[i] == before[i]);
                            assert(section_paths(here)[i] == wanted_path.0);
                        }
                    }
                }
                let key = self.library.insert_section(section);
                proof {
                    let after = self.library.sections();
                    assert(after.drop_last() == here);
                    assert(after.take(count as int) =~= here.take(count as int));
                    let made = after[key as int];
                    assert(is_default_index(made, self.content_path@, self.config, wanted_path.1));
                    assert(made_for(made, self.content_path@, self.config, before, k + 1));
                    assert(section_paths(after)[key as int] == wanted_path.0);
                    assert forall|j: int| count <= j < after.len() implies unlinked(
                        #[trigger] after[j],
                    ) && made_for(after[j], self.content_path@, self.config, before, k + 1) by {
                        if j < here.len() {
                            assert(after[j] == here[j]);
                            assert(made_for(here[j], self.content_path@, self.config, before, k as int));
                        }
                    }
                    assert forall|j: int| 0 <= j < k + 1 implies section_paths(after).contains(
                        #[trigger] index_path(self.content_path@, self.config.languages@, j).0,
                    ) by {
                        if j < k {
                            let p = index_path(self.content_path@, self.config.languages@, j).0;
                            let i = choose|i: int|
                                0 <= i < here.len() && section_paths(here)[i] == p;
                            assert(after[i] == here[i]);
                            assert(section_paths(after)[i] == p);
                        }
                    }
                }
            } else {
                proof {
                    assert forall|j: int| count <= j < here.len() implies made_for(
                        #[trigger] here[j],
                        self.content_path@,
                        self.config,
                        before,
                        k + 1,
                    ) by {
                        assert(made_for(here[j], self.content_path@, self.config, before, k as int));
                    }
                }
            }
            k += 1;
        }
        Ok(())
    }
    /// Puts `page` into the site, in place of a page with the same source
    /// path, and records its permalink. The taxonomies are forgotten, since
    /// the pages are no longer those they were gathered from. With
    /// `render_md`, the job of rendering the page's body is handed back.
    pub fn add_page(&mut self, page: Page, render_md: bool) -> (job: Option<MarkdownJob>)
        requires
            old(self).wf(),
        ensures
            final(self).wf(),
            *final(self) == (Site {
                library: final(self).library,
                permalinks: final(self).permalinks,
                taxonomies: final(self).taxonomies,
                ..*old(self)
            }),
            final(self).permalinks@ == old(self).permalinks@.insert(
                page.file.relative@,
                page.permalink@,
            ),
            final(self).taxonomies@.len() == 0,
            final(self).library.multilingual() == old(self).library.multilingual(),
            final(self).library.pages() == with_page(old(self).library.pages(), page),
            if page_paths(old(self).library.pages()).contains(page.file.path@) {
                all_unlinked(old(self).library.sections(), final(self).library.sections())
            } else {
                final(self).library.sections() == old(self).library.sections()
            },
            match job {
                Some(j) => render_md && j@ == page_job(
                    old(self).library.sections(),
                    old(self).config.default_language@,
                    old(self).content_path@,
                    page,
                ),
                None => !render_md,
            },
    {
        self.permalinks.insert(page.file.relative.clone(), page.permalink.clone());
        let job = if render_md {
            Some(
                MarkdownJob::Page {
                    path: page.file.path.clone(),
                    insert_anchor: self.find_parent_section_insert_anchor(
                        page.file.parent.as_str(),
                        page.lang.as_str(),
                    ),
                },
            )
        } else {
            None
        };
        proof {
            lemma_first_index(page_paths(self.library.pages()), page.file.path@);
            match first_index(page_paths(self.library.pages()), page.file.path@) {
                Some(i) => {
                    assert(page_paths(self.library.pages())[i] == page.file.path@);
                },
                None => {},
            }
        }
        self.taxonomies = Vec::new();
        self.library.insert_page(page);
        job
    }

    /// Puts `section` into the site, in place of a section with the same
    /// source path, and records its permalink. With `render_md`, the job of
    /// rendering the section's body is handed back.
    pub fn add_section(&mut self, section: Section, render_md: bool) -> (job: Option<MarkdownJob>)
        requires
            old(self).wf(),
        ensures
            final(self).wf(),
            *final(self) == (Site {
                library: final(self).library,
                permalinks: final(self).permalinks,
                ..*old(self)
            }),
            final(self).permalinks@ == old(self).permalinks@.insert(
                section.file.relative@,
                section.permalink@,
            ),
            final(self).library.multilingual() == old(self).library.multilingual(),
            final(self).library.pages() == old(self).library.pages(),
            same_documents(
                final(self).library.sections(),
                with_section(old(self).library.sections(), section),
            ),
            final(self).library.sections().len() > 0,
            unlinked(final(self).library.sections().last()),
            match first_index(section_paths(old(self).library.sections()), section.file.path@) {
                Some(i) => all_unlinked(
                    old(self).library.sections().remove(i),
                    final(self).library.sections().drop_last(),
                ),
                None => final(self).library.sections().drop_last() == old(self).library.sections(),
            },
            match job {
                Some(j) => render_md && j@ == (MarkdownJobView::Section { path: section.file.path@ }),
                None => !render_md,
            },
    {
        self.permalinks.insert(section.file.relative.clone(), section.permalink.clone());
        let job = if render_md {
            Some(MarkdownJob::Section { path: section.file.path.clone() })
        } else {
            None
        };
        self.library.insert_section(section);
        job
    }

    /// Gives every section its relations anew: its pages, the sections
    /// below it and the sections above it.
    pub fn populate_sections(&mut self)
        requires
            old(self).wf(),
        ensures
            final(self).wf(),
            *final(self) == (Site { library: final(self).library, ..*old(self) }),
            final(self).library.multilingual() == old(self).library.multilingual(),
            final(self).library.pages() == old(self).library.pages(),
            same_documents(old(self).library.sections(), final(self).library.sections()),
            final(self).library.linked(
                old(self).content_path@,
                old(self).config.default_language@,
            ),
    {
        self.library.populate_sections(
            self.content_path.as_str(),
            self.config.default_language.as_str(),
        );
    }

    /// Gathers the terms of every taxonomy of the settings from the pages.
    /// Where the settings have no taxonomy, nothing is done. It fails, and
    /// changes nothing, on a page that names a taxonomy that the settings
    /// lack for the page's language.
    pub fn populate_taxonomies(&mut self) -> (r: Result<(), Error>)
        ensures
            *final(self) == (Site { taxonomies: final(self).taxonomies, ..*old(self) }),
            old(self).config.taxonomies@.len() == 0 ==> r.is_ok() && final(self).taxonomies
                == old(self).taxonomies,
            old(self).config.taxonomies@.len() > 0 ==> match r {
                Ok(_) => {
                    &&& first_index(settled(old(self).config, old(self).library.pages()), false).is_none()
                    &&& final(self).taxonomies@.len() == old(self).config.taxonomies@.len()
                    &&& forall|t: int|
                        0 <= t < final(self).taxonomies@.len() ==> is_taxonomy(
                            old(self).config,
                            old(self).library.pages(),
                            old(self).config.taxonomies@[t],
                            #[trigger] final(self).taxonomies@[t],
                        )
                },
                Err(e) => {
                    &&& final(self).taxonomies == old(self).taxonomies
                    &&& first_index(settled(old(self).config, old(self).library.pages()), false) matches Some(
                        i,
                    )
                    &&& first_index(
                        known_flags(old(self).config, old(self).library.pages()[i]),
                        false,
                    ) matches Some(a)
                    &&& e matches Error::UnknownTaxonomy { page, taxonomy }
                    &&& page@ == old(self).library.pages()[i].file.path@
                    &&& taxonomy@ == old(self).library.pages()[i].meta.taxonomies@[a].taxonomy@
                },
            },
    {
        if self.config.taxonomies.len() == 0 {
            return Ok(());
        }
        match find_taxonomies(&self.config, &self.library) {
            Ok(found) => {
                self.taxonomies = found;
                Ok(())
            },
            Err(e) => Err(e),
        }
    }

    /// The jobs of rendering the body of every page and of every section.
    pub fn render_markdown(&self) -> (jobs: Vec<MarkdownJob>)
        ensures
            job_views(jobs@) == markdown_jobs(
                self.library.pages(),
                self.library.sections(),
                self.config.default_language@,
                self.content_path@,
            ),
    {
        let pages = self.library.pages_values();
        let sections = self.library.sections_values();
        let mut jobs: Vec<MarkdownJob> = Vec::new();
        let mut i: usize = 0;
        while i < pages.len()
            invariant
                i <= pages.len(),
                pages@ == self.library.pages(),
                sections@ == self.library.sections(),
                jobs@.len() == i,
                forall|j: int|
                    0 <= j < i ==> (#[trigger] jobs@[j])@ == page_job(
                        sections@,
                        self.config.default_language@,
                        self.content_path@,
                        pages@[j],
                    ),
            decreases pages.len() - i,
        {
            let page = &pages[i];
            jobs.push(
                MarkdownJob::Page {
                    path: page.file.path.clone(),
                    insert_anchor: self.find_parent_section_insert_anchor(
                        page.file.parent.as_str(),
                        page.lang.as_str(),
                    ),
                },
            );
            i += 1;
        }
        let mut k: usize = 0;
        while k < sections.len()
            invariant
                k <= sections.len(),
                pages@ == self.library.pages(),
                sections@ == self.library.sections(),
                jobs@.len() == pages@.len() + k,
                forall|j: int|
                    0 <= j < pages@.len() ==> (#[trigger] jobs@[j])@ == page_job(
                        sections@,
                        self.config.default_language@,
                        self.content_path@,
                        pages@[j],
                    ),
                forall|j: int|
                    0 <= j < k ==> (#[trigger] jobs@[pages@.len() + j])@ == (
                    MarkdownJobView::Section { path: sections@[j].file.path@ }),
            decreases sections.len() - k,
        {
            jobs.push(MarkdownJob::Section { path: sections[k].file.path.clone() });
            k += 1;
        }
        proof {
            let wanted = markdown_jobs(
                self.library.pages(),
                self.library.sections(),
                self.config.default_language@,
                self.content_path@,
            );
            assert forall|m: int| 0 <= m < jobs@.len() implies job_views(jobs@)[m] == wanted[m] by {
                if m >= pages@.len() {
                    let j = m - pages@.len();
                    assert(jobs@[pages@.len() + j]@ == (MarkdownJobView::Section {
                        path: sections@[j].file.path@,
                    }));
                }
            }
            assert(job_views(jobs@) =~= wanted);
        }
        jobs
    }
    /// Puts the first sections given into the library, in order.
    fn load_sections(&mut self, sections: Vec<Section>)
        requires
            old(self).wf(),
            old(self).library.sections().len() == 0,
        ensures
            final(self).wf(),
            *final(self) == (Site {
                library: final(self).library,
                permalinks: final(self).permalinks,
                ..*old(self)
            }),
            final(self).library.multilingual() == old(self).library.multilingual(),
            final(self).library.pages() == old(self).library.pages(),
            same_documents(
                final(self).library.sections(),
                loaded_sections(sections@, sections@.len() as int),
            ),
            final(self).permalinks@ == section_links(
                old(self).permalinks@,
                sections@,
                sections@.len() as int,
            ),
    {
        let ghost all = sections@;
        for section in it: sections
            invariant
                it.seq() == all,
                self.wf(),
                *self == (Site { library: self.library, permalinks: self.permalinks, ..*old(self) }),
                self.library.multilingual() == old(self).library.multilingual(),
                self.library.pages() == old(self).library.pages(),
                same_documents(self.library.sections(), loaded_sections(all, it.index() as int)),
                self.permalinks@ == section_links(old(self).permalinks@, all, it.index() as int),
        {
            proof {
                lemma_with_section_same(
                    self.library.sections(),
                    loaded_sections(all, it.index() as int),
                    section,
                );
            }
            let _ = self.add_section(section, false);
        }
    }

    /// Puts the pages given into the library, in order; drafts only where
    /// the site includes them.
    fn load_pages(&mut self, pages: Vec<Page>)
        requires
            old(self).wf(),
            old(self).library.pages().len() == 0,
        ensures
            final(self).wf(),
            *final(self) == (Site {
                library: final(self).library,
                permalinks: final(self).permalinks,
                taxonomies: final(self).taxonomies,
                ..*old(self)
            }),
            final(self).library.multilingual() == old(self).library.multilingual(),
            final(self).library.pages() == loaded_pages(
                pages@,
                old(self).include_drafts,
                pages@.len() as int,
            ),
            same_documents(old(self).library.sections(), final(self).library.sections()),
            final(self).permalinks@ == page_links(
                old(self).permalinks@,
                pages@,
                old(self).include_drafts,
                pages@.len() as int,
            ),
            final(self).taxonomies@.len() == 0,
    {
        let ghost all = pages@;
        self.taxonomies = Vec::new();
        proof {
            assert(self.library.pages() =~= loaded_pages(all, self.include_drafts, 0));
        }
        for page in it: pages
            invariant
                it.seq() == all,
                self.wf(),
                *self == (Site {
                    library: self.library,
                    permalinks: self.permalinks,
                    taxonomies: self.taxonomies,
                    ..*old(self)
                }),
                self.library.multilingual() == old(self).library.multilingual(),
                self.library.pages() == loaded_pages(all, self.include_drafts, it.index() as int),
                same_documents(old(self).library.sections(), self.library.sections()),
                self.permalinks@ == page_links(
                    old(self).permalinks@,
                    all,
                    self.include_drafts,
                    it.index() as int,
                ),
                self.taxonomies@.len() == 0,
        {
            if !(page.meta.draft && !self.include_drafts) {
                let ghost before = self.library.sections();
                let _ = self.add_page(page, false);
                proof {
                    let after = self.library.sections();
                    assert forall|j: int| 0 <= j < after.len() implies same_document(
                        old(self).library.sections()[j],
                        after[j],
                    ) by {
                        assert(same_document(old(self).library.sections()[j], before[j]));
                        assert(same_document(before[j], after[j]));
                    }
                }
            }
        }
    }

    /// Loads the site from its parsed documents: the sections and the pages
    /// are put into an empty library, drafts only where the site includes
    /// them; every language that was given no root section gets an empty
    /// one; then the taxonomies are gathered and every section gets its
    /// relations. What comes back are the jobs of rendering the bodies.
    ///
    /// It fails where a root section refuses the search index that the
    /// settings ask for, where two documents claim one permalink, and where a
    /// page names a taxonomy that the settings lack, in this order.
    pub fn load(&mut self, sections: Vec<Section>, pages: Vec<Page>) -> (r: Result<
        Vec<MarkdownJob>,
        Error,
    >)
        requires
            old(self).wf(),
        ensures
            final(self).wf(),
            *final(self) == (Site {
                library: final(self).library,
                permalinks: final(self).permalinks,
                taxonomies: final(self).taxonomies,
                ..*old(self)
            }),
            r.is_ok() ==> distinct(
                permalinks(final(self).library.pages(), final(self).library.sections()),
            ),
            match r {
                Err(Error::SearchIndexDisabled) => true,
                _ => permalinks(
                    final(self).library.pages(),
                    final(self).library.sections(),
                ).len() <= usize::MAX,
            },
            match r {
                Err(Error::SearchIndexDisabled) => search_refused_in(
                    old(self).config,
                    old(self).content_path@,
                    old(self).search_in_every_root,
                    loaded_sections(sections@, sections@.len() as int),
                ),
                Err(Error::Collisions { found }) => {
                    &&& !search_refused_in(
                        old(self).config,
                        old(self).content_path@,
                        old(self).search_in_every_root,
                        loaded_sections(sections@, sections@.len() as int),
                    )
                    &&& holds_loaded(*old(self), *final(self), sections@, pages@)
                    &&& found@.len() > 0
                    &&& !distinct(
                        permalinks(final(self).library.pages(), final(self).library.sections()),
                    )
                    &&& collision_views(found@) == collisions(
                        permalinks(final(self).library.pages(), final(self).library.sections()),
                        sources(final(self).library.pages(), final(self).library.sections()),
                    )
                },
                Err(Error::UnknownTaxonomy { page, taxonomy }) => {
                    &&& !search_refused_in(
                        old(self).config,
                        old(self).content_path@,
                        old(self).search_in_every_root,
                        loaded_sections(sections@, sections@.len() as int),
                    )
                    &&& holds_loaded(*old(self), *final(self), sections@, pages@)
                    &&& distinct(
                        permalinks(final(self).library.pages(), final(self).library.sections()),
                    )
                    &&& collisions(
                        permalinks(final(self).library.pages(), final(self).library.sections()),
                        sources(final(self).library.pages(), final(self).library.sections()),
                    ).len() == 0
                    &&& old(self).config.taxonomies@.len() > 0
                    &&& first_index(
                        settled(old(self).config, final(self).library.pages()),
                        false,
                    ) matches Some(i)
                    &&& first_index(
                        known_flags(old(self).config, final(self).library.pages()[i]),
                        false,
                    ) matches Some(a)
                    &&& page@ == final(self).library.pages()[i].file.path@
                    &&& taxonomy@ == final(self).library.pages()[i].meta.taxonomies@[a].taxonomy@
                },
                Err(_) => false,
                Ok(jobs) => {
                    &&& !search_refused_in(
                        old(self).config,
                        old(self).content_path@,
                        old(self).search_in_every_root,
                        loaded_sections(sections@, sections@.len() as int),
                    )
                    &&& holds_loaded(*old(self), *final(self), sections@, pages@)
                    &&& collisions(
                        permalinks(final(self).library.pages(), final(self).library.sections()),
                        sources(final(self).library.pages(), final(self).library.sections()),
                    ).len() == 0
                    &&& final(self).library.linked(
                        old(self).content_path@,
                        old(self).config.default_language@,
                    )
                    &&& first_index(
                        settled(old(self).config, final(self).library.pages()),
                        false,
                    ).is_none() || old(self).config.taxonomies@.len() == 0
                    &&& final(self).taxonomies@.len() == old(self).config.taxonomies@.len()
                    &&& forall|t: int|
                        0 <= t < final(self).taxonomies@.len() ==> is_taxonomy(
                            old(self).config,
                            final(self).library.pages(),
                            old(self).config.taxonomies@[t],
                            #[trigger] final(self).taxonomies@[t],
                        )
                    &&& job_views(jobs@) == markdown_jobs(
                        final(self).library.pages(),
                        final(self).library.sections(),
                        old(self).config.default_language@,
                        old(self).content_path@,
                    )
                },
            },
    {
        let ghost given_sections = sections@;
        let ghost given_pages = pages@;
        let ghost model = loaded_sections(given_sections, given_sections.len() as int);
        self.library = Library::new(pages.len(), sections.len(), self.config.is_multilingual());
        self.load_sections(sections);
        let ghost first = self.library.sections();
        proof {
            lemma_search_refused_same(
                self.config,
                self.content_path@,
                self.search_in_every_root,
                first,
                model,
            );
            lemma_same_paths(first, model);
        }
        match self.create_default_index_sections() {
            Ok(_) => {},
            Err(e) => {
                return Err(e);
            },
        }
        let ghost second = self.library.sections();
        proof {
            assert(second.take(model.len() as int) == first);
            assert forall|j: int| model.len() <= j < second.len() implies made_for(
                #[trigger] second[j],
                self.content_path@,
                self.config,
                model,
                self.config.languages@.len() as int + 1,
            ) by {
                lemma_made_for_same(
                    second[j],
                    second[j],
                    self.content_path@,
                    self.config,
                    first,
                    model,
                    self.config.languages@.len() as int + 1,
                );
            }
        }
        self.load_pages(pages);
        proof {
            assert(holds_loaded(*old(self), *self, given_sections, given_pages)) by {
                let stored = self.library.sections();
                lemma_same_paths(second, stored);
                assert forall|j: int| 0 <= j < model.len() implies same_document(
                    stored.take(model.len() as int)[j],
                    model[j],
                ) by {
                    assert(same_document(second[j], stored[j]));
                    assert(second.take(model.len() as int)[j] == first[j]);
                    assert(same_document(first[j], model[j]));
                }
                assert forall|j: int| model.len() <= j < stored.len() implies made_for(
                    #[trigger] stored[j],
                    self.content_path@,
                    self.config,
                    model,
                    self.config.languages@.len() as int + 1,
                ) by {
                    assert(same_document(second[j], stored[j]));
                    lemma_made_for_same(
                        second[j],
                        stored[j],
                        self.content_path@,
                        self.config,
                        model,
                        model,
                        self.config.languages@.len() as int + 1,
                    );
                }
            }
        }
        let found = self.library.check_for_path_collisions();
        if found.len() > 0 {
            return Err(Error::Collisions { found });
        }
        let ghost checked = *self;
        proof {
            assert(collision_views(found@).len() == found@.len());
        }
        match self.populate_taxonomies() {
            Ok(_) => {},
            Err(e) => {
                return Err(e);
            },
        }
        self.populate_sections();
        proof {
            lemma_permalinks_same(
                self.library.pages(),
                checked.library.sections(),
                self.library.sections(),
            );
            lemma_holds_loaded_same(*old(self), checked, *self, given_sections, given_pages);
        }
        Ok(self.render_markdown())
    }
    /// The address that the link `link` in the document `document` leads
    /// to. A link names a document by its path below the content directory,
    /// after `@/`, and may name an anchor after `#`. A link to a document
    /// that has no permalink is an error that names the document and the
    /// link.
    pub fn resolve_internal_link(&self, document: &str, link: &str) -> (r: Result<String, Error>)
        ensures
            match resolved_link(self.permalinks@, link@) {
                Some(address) => r matches Ok(found) && found@ == address,
                None => {
                    &&& r matches Err(Error::BrokenLink { document: named, target })
                    &&& named@ == document@
                    &&& target@ == link@
                },
            },
    {
        let target = if starts_with(link, "@/") {
            proof {
                reveal_strlit("@/");
            }
            let n = link.unicode_len();
            link.substring_char(2, n).to_owned()
        } else {
            link.to_owned()
        };
        let pieces = split_on(target.as_str(), '#');
        proof {
            assert(views(pieces@)[0] == pieces@[0]@);
            if pieces@.len() > 1 {
                assert(views(pieces@)[1] == pieces@[1]@);
            }
            reveal_strlit("#");
            assert("#"@ =~= seq!['#']);
        }
        match self.permalinks.get(pieces[0].as_str()) {
            Some(permalink) => {
                let mut address = permalink.clone();
                if pieces.len() > 1 {
                    address.append("#");
                    address.append(pieces[1].as_str());
                }
                Ok(address)
            },
            None => Err(Error::BrokenLink { document: document.to_owned(), target: link.to_owned() }),
        }
    }
}

} // verus!
