//! Taxonomies: the terms that pages declare, gathered per classification and
//! language, each term with the pages that declare it.

use vstd::prelude::*;
use vstd::string::*;
use crate::config::{Config, TaxonomyConfig};
use crate::content::{Page, TermLabel, TermList};
use crate::errors::Error;
use crate::library::Library;
use crate::seqs::{
    first_index, is_first, lemma_first_exists, lemma_first_index, lemma_first_unique,
    lemma_positions, lemma_single_position, positions,
};
use crate::text::views;

verus! {

/// A value of a taxonomy, with the pages that declare it.
#[derive(Debug, Clone, PartialEq, Eq)]
pub struct Term {
    pub name: String,
    /// The name in the form used in output paths.
    pub slug: String,
    pub permalink: String,
    /// The pages that declare the term, by their positions in the library.
    pub pages: Vec<usize>,
}

/// One classification with the terms that pages declare in it.
#[derive(Debug, Clone, PartialEq, Eq)]
pub struct Taxonomy {
    pub kind: TaxonomyConfig,
    pub items: Vec<Term>,
}

/// The names of the labels, position by position.
pub open spec fn label_names(labels: Seq<TermLabel>) -> Seq<Seq<char>> {
    Seq::new(labels.len(), |i: int| labels[i].name@)
}

/// The slugs of the labels, position by position.
pub open spec fn label_slugs(labels: Seq<TermLabel>) -> Seq<Seq<char>> {
    Seq::new(labels.len(), |i: int| labels[i].slug@)
}

/// The labels that the first `n` of `lists` hold for the taxonomy named
/// `taxonomy`, in order.
pub open spec fn labels_in(lists: Seq<TermList>, taxonomy: Seq<char>, n: int) -> Seq<TermLabel>
    decreases n,
{
    if n <= 0 {
        Seq::empty()
    } else if lists[n - 1].taxonomy@ == taxonomy {
        labels_in(lists, taxonomy, n - 1) + lists[n - 1].terms@
    } else {
        labels_in(lists, taxonomy, n - 1)
    }
}

/// The labels that `page` declares in the taxonomy `kind`, in the order in
/// which it declares them. A draft declares none, nor does a page of another
/// language than the taxonomy's.
pub open spec fn page_labels(page: Page, kind: TaxonomyConfig) -> Seq<TermLabel> {
    if page.meta.draft || page.lang@ != kind.lang@ {
        Seq::empty()
    } else {
        labels_in(page.meta.taxonomies@, kind.name@, page.meta.taxonomies@.len() as int)
    }
}

/// The labels that the first `n` pages declare in the taxonomy `kind`.
pub open spec fn all_labels(pages: Seq<Page>, kind: TaxonomyConfig, n: int) -> Seq<TermLabel>
    decreases n,
{
    if n <= 0 {
        Seq::empty()
    } else {
        all_labels(pages, kind, n - 1) + page_labels(pages[n - 1], kind)
    }
}

/// `page` declares the term named `name` in the taxonomy `kind`.
pub open spec fn in_term(page: Page, kind: TaxonomyConfig, name: Seq<char>) -> bool {
    label_names(page_labels(page, kind)).contains(name)
}

/// For each page, whether it declares the term named `name`.
pub open spec fn declaring(pages: Seq<Page>, kind: TaxonomyConfig, name: Seq<char>) -> Seq<bool> {
    Seq::new(pages.len(), |i: int| in_term(pages[i], kind, name))
}

/// The positions of the pages that declare the term named `name`.
pub open spec fn term_pages(pages: Seq<Page>, kind: TaxonomyConfig, name: Seq<char>) -> Seq<usize> {
    positions(declaring(pages, kind, name))
}

/// For each position, whether the name there occurs for the first time.
pub open spec fn first_flags(names: Seq<Seq<char>>) -> Seq<bool> {
    Seq::new(names.len(), |i: int| is_first(names, names[i], i))
}

/// The positions at which a name occurs for the first time.
pub open spec fn firsts(names: Seq<Seq<char>>) -> Seq<usize> {
    positions(first_flags(names))
}

/// The output path of a term, before it is made a permalink: the language,
/// unless it is the default one, then the taxonomy, then the term.
pub open spec fn term_path(default_language: Seq<char>, kind: TaxonomyConfig, slug: Seq<char>) -> Seq<
    char,
> {
    if kind.lang@ != default_language {
        seq!['/'] + kind.lang@ + seq!['/'] + kind.slug@ + seq!['/'] + slug
    } else {
        seq!['/'] + kind.slug@ + seq!['/'] + slug
    }
}

/// `taxonomy` holds what the pages declare in `kind`: one term for each name
/// declared, in the order in which the names are first declared, each with
/// the slug of its first declaration and with all pages that declare it.
/// The pages and the labels that they declare can be counted.
pub open spec fn is_taxonomy(
    config: Config,
    pages: Seq<Page>,
    kind: TaxonomyConfig,
    taxonomy: Taxonomy,
) -> bool {
    let labels = all_labels(pages, kind, pages.len() as int);
    let at = firsts(label_names(labels));
    &&& pages.len() <= usize::MAX
    &&& labels.len() <= usize::MAX
    &&& taxonomy.kind == kind
    &&& taxonomy.items@.len() == at.len()
    &&& forall|k: int|
        0 <= k < at.len() ==> {
            let term = #[trigger] taxonomy.items@[k];
            &&& term.name@ == labels[at[k] as int].name@
            &&& term.slug@ == labels[at[k] as int].slug@
            &&& term.permalink@ == config.permalink(
                term_path(config.default_language@, kind, term.slug@),
            )
            &&& term.pages@ == term_pages(pages, kind, term.name@)
        }
}

/// The settings have the taxonomy of the page's list `a`, for the page's
/// language.
pub open spec fn known(config: Config, page: Page, a: int) -> bool {
    exists|t: int|
        0 <= t < config.taxonomies@.len() && (#[trigger] config.taxonomies@[t]).name@
            == page.meta.taxonomies@[a].taxonomy@ && config.taxonomies@[t].lang@ == page.lang@
}

/// For each list of the page, whether the settings have its taxonomy.
pub open spec fn known_flags(config: Config, page: Page) -> Seq<bool> {
    Seq::new(page.meta.taxonomies@.len(), |a: int| known(config, page, a))
}

/// For each page, whether the settings have every taxonomy it names.
pub open spec fn settled(config: Config, pages: Seq<Page>) -> Seq<bool> {
    Seq::new(pages.len(), |i: int| first_index(known_flags(config, pages[i]), false).is_none())
}

impl TaxonomyConfig {
    /// A copy of the settings of the taxonomy.
    pub fn duplicate(&self) -> (r: TaxonomyConfig)
        ensures
            r == *self,
    {
        TaxonomyConfig {
            name: self.name.clone(),
            slug: self.slug.clone(),
            paginate_by: self.paginate_by,
            paginate_path: self.paginate_path.clone(),
            feed: self.feed,
            lang: self.lang.clone(),
        }
    }
}

/// Adds the names and slugs of `terms` to the two lists.
fn append_labels(terms: &Vec<TermLabel>, names: &mut Vec<String>, slugs: &mut Vec<String>)
    ensures
        views(final(names)@) == views(old(names)@) + label_names(terms@),
        views(final(slugs)@) == views(old(slugs)@) + label_slugs(terms@),
{
    let mut b: usize = 0;
    while b < terms.len()
        invariant
            b <= terms.len(),
            views(names@) == views(old(names)@) + label_names(terms@).take(b as int),
            views(slugs@) == views(old(slugs)@) + label_slugs(terms@).take(b as int),
        decreases terms.len() - b,
    {
        let name = terms[b].name.clone();
        let slug = terms[b].slug.clone();
        proof {
            assert(views(names@.push(name)) =~= views(names@).push(name@));
            assert(views(slugs@.push(slug)) =~= views(slugs@).push(slug@));
            assert(label_names(terms@).take(b + 1) =~= label_names(terms@).take(b as int).push(
                name@,
            ));
            assert(label_slugs(terms@).take(b + 1) =~= label_slugs(terms@).take(b as int).push(
                slug@,
            ));
            assert(views(names@.push(name)) =~= views(old(names)@) + label_names(terms@).take(
                b + 1,
            ));
            assert(views(slugs@.push(slug)) =~= views(old(slugs)@) + label_slugs(terms@).take(
                b + 1,
            ));
        }
        names.push(name);
        slugs.push(slug);
        b += 1;
    }
    proof {
        assert(label_names(terms@).take(terms@.len() as int) =~= label_names(terms@));
        assert(label_slugs(terms@).take(terms@.len() as int) =~= label_slugs(terms@));
    }
}

/// The names and slugs of two lists of labels laid end to end.
pub proof fn lemma_label_names_add(a: Seq<TermLabel>, b: Seq<TermLabel>)
    ensures
        label_names(a + b) == label_names(a) + label_names(b),
        label_slugs(a + b) == label_slugs(a) + label_slugs(b),
{
    assert(label_names(a + b) =~= label_names(a) + label_names(b));
    assert(label_slugs(a + b) =~= label_slugs(a) + label_slugs(b));
}

/// Adds the names and slugs that `page` declares in `kind` to the two lists.
fn append_page_labels(
    page: &Page,
    kind: &TaxonomyConfig,
    names: &mut Vec<String>,
    slugs: &mut Vec<String>,
)
    ensures
        views(final(names)@) == views(old(names)@) + label_names(page_labels(*page, *kind)),
        views(final(slugs)@) == views(old(slugs)@) + label_slugs(page_labels(*page, *kind)),
{
    if page.meta.draft || !(page.lang == kind.lang) {
        proof {
            assert(views(names@) + label_names(Seq::<TermLabel>::empty()) =~= views(names@));
            assert(views(slugs@) + label_slugs(Seq::<TermLabel>::empty()) =~= views(slugs@));
        }
        return ;
    }
    let lists = &page.meta.taxonomies;
    let mut a: usize = 0;
    proof {
        assert(views(names@) + label_names(labels_in(lists@, kind.name@, 0)) =~= views(names@));
        assert(views(slugs@) + label_slugs(labels_in(lists@, kind.name@, 0)) =~= views(slugs@));
    }
    while a < lists.len()
        invariant
            a <= lists.len(),
            lists == &page.meta.taxonomies,
            views(names@) == views(old(names)@) + label_names(
                labels_in(lists@, kind.name@, a as int),
            ),
            views(slugs@) == views(old(slugs)@) + label_slugs(
                labels_in(lists@, kind.name@, a as int),
            ),
        decreases lists.len() - a,
    {
        if lists[a].taxonomy == kind.name {
            let ghost before_names = views(names@);
            let ghost before_slugs = views(slugs@);
            append_labels(&lists[a].terms, names, slugs);
            proof {
                let so_far = labels_in(lists@, kind.name@, a as int);
                lemma_label_names_add(so_far, lists@[a as int].terms@);
                assert(views(names@) =~= views(old(names)@) + (label_names(so_far) + label_names(
                    lists@[a as int].terms@,
                )));
                assert(views(slugs@) =~= views(old(slugs)@) + (label_slugs(so_far) + label_slugs(
                    lists@[a as int].terms@,
                )));
            }
        }
        a += 1;
    }
}

/// The names and slugs of all labels that the pages declare in `kind`.
fn collect_labels(pages: &Vec<Page>, kind: &TaxonomyConfig) -> (out: (Vec<String>, Vec<String>))
    ensures
        views(out.0@) == label_names(all_labels(pages@, *kind, pages@.len() as int)),
        views(out.1@) == label_slugs(all_labels(pages@, *kind, pages@.len() as int)),
{
    let mut names: Vec<String> = Vec::new();
    let mut slugs: Vec<String> = Vec::new();
    let mut i: usize = 0;
    proof {
        assert(views(names@) =~= label_names(all_labels(pages@, *kind, 0)));
        assert(views(slugs@) =~= label_slugs(all_labels(pages@, *kind, 0)));
    }
    while i < pages.len()
        invariant
            i <= pages.len(),
            views(names@) == label_names(all_labels(pages@, *kind, i as int)),
            views(slugs@) == label_slugs(all_labels(pages@, *kind, i as int)),
        decreases pages.len() - i,
    {
        proof {
            lemma_label_names_add(
                all_labels(pages@, *kind, i as int),
                page_labels(pages@[i as int], *kind),
            );
        }
        append_page_labels(&pages[i], kind, &mut names, &mut slugs);
        i += 1;
    }
    (names, slugs)
}

/// A name is among the labels of the first `n` lists exactly if one of those
/// lists is of the taxonomy and holds a label of that name.
pub proof fn lemma_labels_in(lists: Seq<TermList>, taxonomy: Seq<char>, n: int, name: Seq<char>)
    requires
        0 <= n <= lists.len(),
    ensures
        label_names(labels_in(lists, taxonomy, n)).contains(name) <==> exists|a: int, b: int|
            0 <= a < n && lists[a].taxonomy@ == taxonomy && 0 <= b < lists[a].terms@.len()
                && (#[trigger] lists[a].terms@[b]).name@ == name,
    decreases n,
{
    if n > 0 {
        lemma_labels_in(lists, taxonomy, n - 1, name);
        let before = labels_in(lists, taxonomy, n - 1);
        let here = labels_in(lists, taxonomy, n);
        if lists[n - 1].taxonomy@ == taxonomy {
            let terms = lists[n - 1].terms@;
            lemma_label_names_add(before, terms);
            if label_names(here).contains(name) {
                let d = choose|d: int| 0 <= d < label_names(here).len() && label_names(here)[d] == name;
                if d < before.len() {
                    assert(label_names(before)[d] == name);
                } else {
                    assert(lists[n - 1].terms@[d - before.len()].name@ == name);
                }
            }
            if exists|a: int, b: int|
                0 <= a < n && lists[a].taxonomy@ == taxonomy && 0 <= b < lists[a].terms@.len()
                    && (#[trigger] lists[a].terms@[b]).name@ == name {
                let (a, b) = choose|a: int, b: int|
                    0 <= a < n && lists[a].taxonomy@ == taxonomy && 0 <= b < lists[a].terms@.len()
                        && (#[trigger] lists[a].terms@[b]).name@ == name;
                if a < n - 1 {
                    let d = choose|d: int|
                        0 <= d < label_names(before).len() && label_names(before)[d] == name;
                    assert(label_names(here)[d] == name);
                } else {
                    assert(label_names(here)[before.len() + b] == name);
                }
            }
        }
    }
}

/// Whether `page` declares the term named `name` in the taxonomy `kind`.
fn page_has_term(page: &Page, kind: &TaxonomyConfig, name: &String) -> (r: bool)
    ensures
        r == in_term(*page, *kind, name@),
{
    if page.meta.draft || !(page.lang == kind.lang) {
        assert(label_names(Seq::<TermLabel>::empty()) =~= Seq::<Seq<char>>::empty());
        return false;
    }
    let lists = &page.meta.taxonomies;
    let mut a: usize = 0;
    while a < lists.len()
        invariant
            a <= lists.len(),
            lists == &page.meta.taxonomies,
            !page.meta.draft,
            page.lang@ == kind.lang@,
            forall|x: int, y: int|
                0 <= x < a && lists@[x].taxonomy@ == kind.name@ && 0 <= y < lists@[x].terms@.len()
                    ==> (#[trigger] lists@[x].terms@[y]).name@ != name@,
        decreases lists.len() - a,
    {
        if lists[a].taxonomy == kind.name {
            let terms = &lists[a].terms;
            let mut b: usize = 0;
            while b < terms.len()
                invariant
                    b <= terms.len(),
                    a < lists.len(),
                    lists == &page.meta.taxonomies,
                    !page.meta.draft,
                    page.lang@ == kind.lang@,
                    terms == &lists@[a as int].terms,
                    lists@[a as int].taxonomy@ == kind.name@,
                    forall|y: int| 0 <= y < b ==> (#[trigger] terms@[y]).name@ != name@,
                decreases terms.len() - b,
            {
                if terms[b].name == *name {
                    proof {
                        lemma_labels_in(lists@, kind.name@, lists@.len() as int, name@);
                        assert(lists@[a as int].terms@[b as int].name@ == name@);
                    }
                    return true;
                }
                b += 1;
            }
        }
        a += 1;
    }
    proof {
        lemma_labels_in(lists@, kind.name@, lists@.len() as int, name@);
    }
    false
}

/// The positions of the pages that declare the term named `name`.
fn pages_declaring(pages: &Vec<Page>, kind: &TaxonomyConfig, name: &String) -> (out: Vec<usize>)
    ensures
        out@ == term_pages(pages@, *kind, name@),
{
    let ghost flags = declaring(pages@, *kind, name@);
    let mut out: Vec<usize> = Vec::new();
    let mut i: usize = 0;
    while i < pages.len()
        invariant
            i <= pages.len(),
            flags == declaring(pages@, *kind, name@),
            out@ == positions(flags.take(i as int)),
        decreases pages.len() - i,
    {
        proof {
            assert(flags.take(i + 1).drop_last() =~= flags.take(i as int));
        }
        if page_has_term(&pages[i], kind, name) {
            out.push(i);
        }
        i += 1;
    }
    proof {
        assert(flags.take(pages.len() as int) =~= flags);
    }
    out
}

/// The permalink of the term with the slug `slug`.
fn term_permalink(config: &Config, kind: &TaxonomyConfig, slug: &String) -> (out: String)
    ensures
        out@ == config.permalink(term_path(config.default_language@, *kind, slug@)),
{
    proof {
        reveal_strlit("/");
    }
    let mut path = "/".to_owned();
    if !(kind.lang == config.default_language) {
        path.append(kind.lang.as_str());
        path.append("/");
    }
    path.append(kind.slug.as_str());
    path.append("/");
    path.append(slug.as_str());
    proof {
        assert("/"@ =~= seq!['/']);
        assert(path@ =~= term_path(config.default_language@, *kind, slug@));
    }
    config.make_permalink(path.as_str())
}

/// What the pages of the library declare in the taxonomy `kind`.
fn build_taxonomy(config: &Config, library: &Library, kind: &TaxonomyConfig) -> (r: Taxonomy)
    ensures
        is_taxonomy(*config, library.pages(), *kind, r),
{
    let pages = library.pages_values();
    let (names, slugs) = collect_labels(pages, kind);
    let ghost labels = all_labels(pages@, *kind, pages@.len() as int);
    let ghost flags = first_flags(views(names@));
    let n = names.len();
    let count = pages.len();
    proof {
        assert(views(names@).len() == names@.len());
        assert(views(slugs@).len() == slugs@.len());
        assert(labels.len() == n);
        assert(pages@.len() == count);
    }
    let mut items: Vec<Term> = Vec::new();
    let ghost mut found: Seq<usize> = Seq::empty();
    let mut d: usize = 0;
    while d < n
        invariant
            d <= n,
            found == positions(flags.take(d as int)),
            n == names@.len(),
            n == slugs@.len(),
            n == labels.len(),
            pages@ == library.pages(),
            views(names@) == label_names(labels),
            views(slugs@) == label_slugs(labels),
            flags == first_flags(views(names@)),
            items@.len() == found.len(),
            forall|k: int| 0 <= k < found.len() ==> 0 <= #[trigger] found[k] < n,
            forall|k: int|
                0 <= k < items@.len() ==> (#[trigger] items@[k]).name@ == labels[found[k] as int].name@,
            forall|k: int|
                0 <= k < items@.len() ==> (#[trigger] items@[k]).slug@ == labels[found[k] as int].slug@,
            forall|k: int|
                0 <= k < items@.len() ==> (#[trigger] items@[k]).permalink@ == config.permalink(
                    term_path(config.default_language@, *kind, items@[k].slug@),
                ),
            forall|k: int|
                0 <= k < items@.len() ==> (#[trigger] items@[k]).pages@ == term_pages(
                    pages@,
                    *kind,
                    items@[k].name@,
                ),
        decreases n - d,
    {
        proof {
            assert(flags.take(d + 1).drop_last() =~= flags.take(d as int));
            assert(views(names@)[d as int] == names@[d as int]@);
            assert(label_names(labels)[d as int] == labels[d as int].name@);
            assert(views(slugs@)[d as int] == slugs@[d as int]@);
            assert(label_slugs(labels)[d as int] == labels[d as int].slug@);
        }
        let ghost before = found;
        let ghost old_items = items@;
        if first_at_name(&names, d) {
            let term = Term {
                name: names[d].clone(),
                slug: slugs[d].clone(),
                permalink: term_permalink(config, kind, &slugs[d]),
                pages: pages_declaring(pages, kind, &names[d]),
            };
            items.push(term);
        }
        proof {
            let after = positions(flags.take(d + 1));
            assert(flags.take(d + 1).last() == flags[d as int]);
            assert(after == if flags[d as int] {
                before.push(d)
            } else {
                before
            });
            found = after;
        }
        d += 1;
    }
    proof {
        assert(flags.take(n as int) =~= flags);
    }
    Taxonomy { kind: kind.duplicate(), items }
}

/// Whether position `i` is the first at which `names` holds its name.
fn first_at_name(names: &Vec<String>, i: usize) -> (r: bool)
    requires
        i < names.len(),
    ensures
        r == first_flags(views(names@))[i as int],
{
    let mut j: usize = 0;
    while j < i
        invariant
            j <= i,
            i < names.len(),
            forall|m: int| 0 <= m < j ==> views(names@)[m] != views(names@)[i as int],
        decreases i - j,
    {
        if names[j] == names[i] {
            assert(views(names@)[j as int] == views(names@)[i as int]);
            return false;
        }
        j += 1;
    }
    true
}

/// Whether the settings have a taxonomy of this name for this language.
fn has_taxonomy(config: &Config, name: &String, lang: &String) -> (r: bool)
    ensures
        r == exists|t: int|
            0 <= t < config.taxonomies@.len() && (#[trigger] config.taxonomies@[t]).name@ == name@
                && config.taxonomies@[t].lang@ == lang@,
{
    let mut t: usize = 0;
    while t < config.taxonomies.len()
        invariant
            t <= config.taxonomies.len(),
            forall|u: int|
                0 <= u < t ==> !((#[trigger] config.taxonomies@[u]).name@ == name@
                    && config.taxonomies@[u].lang@ == lang@),
        decreases config.taxonomies.len() - t,
    {
        if config.taxonomies[t].name == *name && config.taxonomies[t].lang == *lang {
            return true;
        }
        t += 1;
    }
    false
}

/// The first list of `page` whose taxonomy the settings lack.
fn first_unknown(config: &Config, page: &Page) -> (r: Option<usize>)
    ensures
        match r {
            Some(a) => first_index(known_flags(*config, *page), false) == Some(a as int),
            None => first_index(known_flags(*config, *page), false).is_none(),
        },
{
    let lists = &page.meta.taxonomies;
    let ghost flags = known_flags(*config, *page);
    let mut a: usize = 0;
    while a < lists.len()
        invariant
            a <= lists.len(),
            lists == &page.meta.taxonomies,
            flags == known_flags(*config, *page),
            forall|x: int| 0 <= x < a ==> flags[x],
        decreases lists.len() - a,
    {
        if !has_taxonomy(config, &lists[a].taxonomy, &page.lang) {
            proof {
                assert(!flags[a as int]);
                assert(is_first(flags, false, a as int));
                lemma_first_unique(flags, false, a as int);
            }
            return Some(a);
        }
        a += 1;
    }
    proof {
        lemma_first_index(flags, false);
    }
    None
}

/// Gathers the terms of every taxonomy of the settings from the pages of the
/// library: one taxonomy for each entry of the settings, in their order. It
/// fails on the first page that names a taxonomy that the settings lack for
/// the page's language.
pub fn find_taxonomies(config: &Config, library: &Library) -> (r: Result<Vec<Taxonomy>, Error>)
    ensures
        match r {
            Ok(found) => {
                &&& first_index(settled(*config, library.pages()), false).is_none()
                &&& found@.len() == config.taxonomies@.len()
                &&& forall|t: int|
                    0 <= t < found@.len() ==> is_taxonomy(
                        *config,
                        library.pages(),
                        config.taxonomies@[t],
                        #[trigger] found@[t],
                    )
            },
            Err(e) => {
                &&& first_index(settled(*config, library.pages()), false) matches Some(i)
                &&& first_index(known_flags(*config, library.pages()[i]), false) matches Some(a)
                &&& e matches Error::UnknownTaxonomy { page, taxonomy }
                &&& page@ == library.pages()[i].file.path@
                &&& taxonomy@ == library.pages()[i].meta.taxonomies@[a].taxonomy@
            },
        },
{
    let pages = library.pages_values();
    let ghost flags = settled(*config, pages@);
    let mut i: usize = 0;
    while i < pages.len()
        invariant
            i <= pages.len(),
            pages@ == library.pages(),
            flags == settled(*config, pages@),
            forall|x: int| 0 <= x < i ==> flags[x],
        decreases pages.len() - i,
    {
        match first_unknown(config, &pages[i]) {
            Some(a) => {
                proof {
                    assert(!flags[i as int]);
                    assert(is_first(flags, false, i as int));
                    lemma_first_unique(flags, false, i as int);
                    lemma_first_index(known_flags(*config, pages@[i as int]), false);
                }
                return Err(
                    Error::UnknownTaxonomy {
                        page: pages[i].file.path.clone(),
                        taxonomy: pages[i].meta.taxonomies[a].taxonomy.clone(),
                    },
                );
            },
            None => {},
        }
        i += 1;
    }
    proof {
        lemma_first_index(flags, false);
    }
    let mut found: Vec<Taxonomy> = Vec::new();
    let mut t: usize = 0;
    while t < config.taxonomies.len()
        invariant
            t <= config.taxonomies.len(),
            found@.len() == t,
            forall|u: int|
                0 <= u < t ==> is_taxonomy(
                    *config,
                    library.pages(),
                    config.taxonomies@[u],
                    #[trigger] found@[u],
                ),
        decreases config.taxonomies.len() - t,
    {
        let taxonomy = build_taxonomy(config, library, &config.taxonomies[t]);
        found.push(taxonomy);
        t += 1;
    }
    Ok(found)
}

/// Every label gathered from the first `n` pages is declared by one of them.
pub proof fn lemma_label_origin(pages: Seq<Page>, kind: TaxonomyConfig, n: int, d: int)
    requires
        0 <= n <= pages.len(),
        0 <= d < all_labels(pages, kind, n).len(),
    ensures
        exists|i: int| 0 <= i < n && #[trigger] in_term(pages[i], kind, all_labels(pages, kind, n)[d].name@),
    decreases n,
{
    let before = all_labels(pages, kind, n - 1);
    let name = all_labels(pages, kind, n)[d].name@;
    if d < before.len() {
        lemma_label_origin(pages, kind, n - 1, d);
        let i = choose|i: int| 0 <= i < n - 1 && #[trigger] in_term(pages[i], kind, before[d].name@);
        assert(in_term(pages[i], kind, name));
    } else {
        let own = page_labels(pages[n - 1], kind);
        assert(label_names(own)[d - before.len()] == name);
        assert(in_term(pages[n - 1], kind, name));
    }
}

/// What a page declares is among the labels gathered from the pages.
pub proof fn lemma_labels_reach(pages: Seq<Page>, kind: TaxonomyConfig, n: int, i: int, name: Seq<char>)
    requires
        0 <= i < n <= pages.len(),
        in_term(pages[i], kind, name),
    ensures
        label_names(all_labels(pages, kind, n)).contains(name),
    decreases n,
{
    let before = all_labels(pages, kind, n - 1);
    let own = page_labels(pages[n - 1], kind);
    lemma_label_names_add(before, own);
    if i < n - 1 {
        lemma_labels_reach(pages, kind, n - 1, i, name);
        let d = choose|d: int| 0 <= d < label_names(before).len() && label_names(before)[d] == name;
        assert(label_names(all_labels(pages, kind, n))[d] == name);
    } else {
        let d = choose|d: int| 0 <= d < label_names(own).len() && label_names(own)[d] == name;
        assert(label_names(all_labels(pages, kind, n))[before.len() + d] == name);
    }
}

/// A term has at least one page: what no page declares is no term.
pub proof fn lemma_terms_have_pages(
    config: Config,
    pages: Seq<Page>,
    kind: TaxonomyConfig,
    taxonomy: Taxonomy,
    k: int,
)
    requires
        is_taxonomy(config, pages, kind, taxonomy),
        0 <= k < taxonomy.items@.len(),
    ensures
        taxonomy.items@[k].pages@.len() > 0,
        exists|i: int| 0 <= i < pages.len() && #[trigger] in_term(pages[i], kind, taxonomy.items@[k].name@),
{
    let labels = all_labels(pages, kind, pages.len() as int);
    let names = label_names(labels);
    let term = taxonomy.items@[k];
    lemma_positions(first_flags(names));
    let d = firsts(names)[k] as int;
    assert(term.name@ == labels[d].name@);
    lemma_label_origin(pages, kind, pages.len() as int, d);
    let i = choose|i: int| 0 <= i < pages.len() && #[trigger] in_term(pages[i], kind, labels[d].name@);
    lemma_positions(declaring(pages, kind, term.name@));
    assert(declaring(pages, kind, term.name@)[i]);
}

/// A page that declares a term is among the pages of a term of that name;
/// no term lists a page twice; and the taxonomy holds one term of that name
/// only.
pub proof fn lemma_declared_term_listed(
    config: Config,
    pages: Seq<Page>,
    kind: TaxonomyConfig,
    taxonomy: Taxonomy,
    i: int,
    name: Seq<char>,
)
    requires
        is_taxonomy(config, pages, kind, taxonomy),
        0 <= i < pages.len(),
        in_term(pages[i], kind, name),
    ensures
        exists|k: int|
            0 <= k < taxonomy.items@.len() && (#[trigger] taxonomy.items@[k]).name@ == name
                && taxonomy.items@[k].pages@.contains(i as usize),
        forall|k: int, m: int, n: int|
            #![trigger taxonomy.items@[k].pages@[m], taxonomy.items@[k].pages@[n]]
            0 <= k < taxonomy.items@.len() && 0 <= m < n < taxonomy.items@[k].pages@.len()
                ==> taxonomy.items@[k].pages@[m] != taxonomy.items@[k].pages@[n],
        forall|k: int, l: int|
            0 <= k < taxonomy.items@.len() && 0 <= l < taxonomy.items@.len()
                && (#[trigger] taxonomy.items@[k]).name@ == name && (#[trigger] taxonomy.items@[l]).name@
                == name ==> k == l,
{
    let labels = all_labels(pages, kind, pages.len() as int);
    let names = label_names(labels);
    let at = firsts(names);
    lemma_positions(first_flags(names));
    lemma_labels_reach(pages, kind, pages.len() as int, i, name);
    let d = choose|d: int| 0 <= d < names.len() && names[d] == name;
    lemma_first_exists(names, name, d);
    let f = choose|f: int| is_first(names, name, f);
    assert(first_flags(names)[f]);
    let k = choose|k: int| 0 <= k < at.len() && at[k] == f;
    let term = taxonomy.items@[k];
    assert(term.name@ == labels[f].name@);
    lemma_positions(declaring(pages, kind, name));
    assert(declaring(pages, kind, name)[i]);
    let m = choose|m: int| 0 <= m < term.pages@.len() && term_pages(pages, kind, name)[m] == i;
    assert(term.pages@[m] == i as usize);
    assert forall|k: int, m: int, n: int|
        #![trigger taxonomy.items@[k].pages@[m], taxonomy.items@[k].pages@[n]]
        0 <= k < taxonomy.items@.len() && 0 <= m < n < taxonomy.items@[k].pages@.len()
        implies taxonomy.items@[k].pages@[m] != taxonomy.items@[k].pages@[n] by {
        lemma_positions(declaring(pages, kind, taxonomy.items@[k].name@));
    }
    assert forall|a: int, b: int|
        0 <= a < taxonomy.items@.len() && 0 <= b < taxonomy.items@.len()
            && (#[trigger] taxonomy.items@[a]).name@ == name && (#[trigger] taxonomy.items@[b]).name@
            == name implies a == b by {
        let fa = at[a] as int;
        let fb = at[b] as int;
        assert(first_flags(names)[fa]);
        assert(first_flags(names)[fb]);
        assert(names[fa] == labels[fa].name@);
        assert(names[fb] == labels[fb].name@);
        assert(is_first(names, name, fa));
        assert(is_first(names, name, fb));
        assert(fa == fb);
        if a < b {
            assert(at[a] < at[b]);
        }
        if b < a {
            assert(at[b] < at[a]);
        }
    }
}

/// A term that no page declares is not in the taxonomy: once the last page
/// that declared it is gone, gathering anew leaves the term out.
pub proof fn lemma_undeclared_term_absent(
    config: Config,
    pages: Seq<Page>,
    kind: TaxonomyConfig,
    taxonomy: Taxonomy,
    name: Seq<char>,
)
    requires
        is_taxonomy(config, pages, kind, taxonomy),
        forall|i: int| 0 <= i < pages.len() ==> !in_term(#[trigger] pages[i], kind, name),
    ensures
        forall|k: int|
            0 <= k < taxonomy.items@.len() ==> (#[trigger] taxonomy.items@[k]).name@ != name,
{
    assert forall|k: int| 0 <= k < taxonomy.items@.len() implies (#[trigger] taxonomy.items@[
        k
    ]).name@ != name by {
        lemma_terms_have_pages(config, pages, kind, taxonomy, k);
        if taxonomy.items@[k].name@ == name {
            let i = choose|i: int|
                0 <= i < pages.len() && #[trigger] in_term(pages[i], kind, taxonomy.items@[k].name@);
            assert(in_term(pages[i], kind, name));
        }
    }
}

/// What is gathered from the same pages for the same taxonomy is the same:
/// the same terms in the same order, each with the same pages.
pub proof fn lemma_taxonomy_determined(
    config: Config,
    pages: Seq<Page>,
    kind: TaxonomyConfig,
    once: Taxonomy,
    twice: Taxonomy,
)
    requires
        is_taxonomy(config, pages, kind, once),
        is_taxonomy(config, pages, kind, twice),
    ensures
        once.kind == twice.kind,
        once.items@.len() == twice.items@.len(),
        forall|k: int|
            0 <= k < once.items@.len() ==> {
                &&& (#[trigger] once.items@[k]).name@ == twice.items@[k].name@
                &&& once.items@[k].slug@ == twice.items@[k].slug@
                &&& once.items@[k].permalink@ == twice.items@[k].permalink@
                &&& once.items@[k].pages@ == twice.items@[k].pages@
            },
{
    assert forall|k: int| 0 <= k < once.items@.len() implies {
        &&& (#[trigger] once.items@[k]).name@ == twice.items@[k].name@
        &&& once.items@[k].slug@ == twice.items@[k].slug@
        &&& once.items@[k].permalink@ == twice.items@[k].permalink@
        &&& once.items@[k].pages@ == twice.items@[k].pages@
    } by {
        let a = once.items@[k];
        let b = twice.items@[k];
    }
}

/// Every page that a term lists declares the term.
pub proof fn lemma_listed_page_declares(
    config: Config,
    pages: Seq<Page>,
    kind: TaxonomyConfig,
    taxonomy: Taxonomy,
    k: int,
    m: int,
)
    requires
        is_taxonomy(config, pages, kind, taxonomy),
        0 <= k < taxonomy.items@.len(),
        0 <= m < taxonomy.items@[k].pages@.len(),
    ensures
        taxonomy.items@[k].pages@[m] < pages.len(),
        in_term(pages[taxonomy.items@[k].pages@[m] as int], kind, taxonomy.items@[k].name@),
{
    let term = taxonomy.items@[k];
    lemma_positions(declaring(pages, kind, term.name@));
    assert(term.pages@ == term_pages(pages, kind, term.name@));
    let at = term_pages(pages, kind, term.name@)[m];
    assert(declaring(pages, kind, term.name@)[at as int]);
}

/// A term that one page only declares lists that page and no other: where
/// several pages declared a term and all but one are gone, gathering anew
/// keeps the term with the one page that is left.
pub proof fn lemma_term_of_one_page(
    config: Config,
    pages: Seq<Page>,
    kind: TaxonomyConfig,
    taxonomy: Taxonomy,
    q: int,
    name: Seq<char>,
)
    requires
        is_taxonomy(config, pages, kind, taxonomy),
        0 <= q < pages.len(),
        in_term(pages[q], kind, name),
        forall|i: int| 0 <= i < pages.len() && i != q ==> !in_term(#[trigger] pages[i], kind, name),
    ensures
        exists|k: int|
            0 <= k < taxonomy.items@.len() && (#[trigger] taxonomy.items@[k]).name@ == name
                && taxonomy.items@[k].pages@ == seq![q as usize],
{
    lemma_declared_term_listed(config, pages, kind, taxonomy, q, name);
    let k = choose|k: int|
        0 <= k < taxonomy.items@.len() && (#[trigger] taxonomy.items@[k]).name@ == name
            && taxonomy.items@[k].pages@.contains(q as usize);
    let flags = declaring(pages, kind, name);
    assert forall|i: int| 0 <= i < flags.len() && i != q implies !#[trigger] flags[i] by {
        assert(!in_term(pages[i], kind, name));
    }
    lemma_single_position(flags, q);
    assert(taxonomy.items@[k].pages@ == term_pages(pages, kind, name));
}

} // verus!
