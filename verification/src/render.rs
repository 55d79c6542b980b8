//! The steps that render a site: for each document, what the renderer is
//! asked for and where what it returns is written.

use vstd::prelude::*;
use vstd::string::*;
use crate::config::{Config, TaxonomyConfig};
use crate::content::{Page, Section};
use crate::pagination::{copy_keys, pager_count, Paginator};
use crate::paths::{file_name, last_segment, segments, segments_of};
use crate::plan::{
    extend, lemma_step_views_push, step_views, FeedScope, FeedScopeView, PaginationRootView, Source,
    SourceView, Step, StepView,
};
use crate::seqs::{all_below, positions};
use crate::site::Site;
use crate::taxonomy::{Taxonomy, Term};
use crate::text::{
    copy_prefix, copy_strings, decimal, decimal_string, drop_first_char, ends_with,
    lemma_views_push, split, split_on, views,
};
use crate::BuildMode;

verus! {

/// The step that asks for the output root.
pub open spec fn root_directory() -> StepView {
    StepView::Directory { components: Seq::empty() }
}

/// The step that writes the document of `page`, at the place that the
/// page's output path names.
pub open spec fn page_step(page: Page) -> StepView {
    StepView::Render {
        source: SourceView::Page { path: page.file.path@ },
        components: split(page.path@, '/'),
        filename: "index.html"@,
        create_dirs: page.assets@.len() > 0,
        livereload: true,
    }
}

/// The steps that copy the first `n` of `assets` into the directory
/// `components`, each under its own name.
pub open spec fn asset_steps(assets: Seq<String>, components: Seq<Seq<char>>, n: int) -> Seq<StepView>
    decreases n,
{
    if n <= 0 {
        Seq::empty()
    } else {
        asset_steps(assets, components, n - 1).push(
            StepView::CopyAsset {
                from: assets[n - 1]@,
                components,
                name: last_segment(assets[n - 1]@),
            },
        )
    }
}

/// The steps that render `page`: its document is written, then its assets
/// are copied beside it.
pub open spec fn page_plan(page: Page) -> Seq<StepView> {
    seq![page_step(page)] + asset_steps(
        page.assets@,
        split(page.path@, '/'),
        page.assets@.len() as int,
    )
}

/// The steps that render the first `n` of the pages at the positions `keys`.
pub open spec fn pages_plan(pages: Seq<Page>, keys: Seq<usize>, n: int) -> Seq<StepView>
    decreases n,
{
    if n <= 0 {
        Seq::empty()
    } else {
        pages_plan(pages, keys, n - 1) + page_plan(pages[keys[n - 1] as int])
    }
}

/// Where the redirect of an alias is written: an alias that ends in the
/// name of an HTML file names the file itself, any other names a directory
/// that gets an index document.
pub open spec fn alias_place(alias: Seq<char>) -> (Seq<Seq<char>>, Seq<char>) {
    let pieces = split(alias, '/');
    if ".html"@.is_suffix_of(pieces.last()) {
        (pieces.drop_last(), pieces.last())
    } else {
        (pieces, "index.html"@)
    }
}

/// The step that writes the redirect from `alias` to `permalink`.
pub open spec fn alias_step(alias: Seq<char>, permalink: Seq<char>) -> StepView {
    StepView::Render {
        source: SourceView::Redirect { permalink },
        components: alias_place(alias).0,
        filename: alias_place(alias).1,
        create_dirs: false,
        livereload: false,
    }
}

/// The steps that write the redirects from the first `n` of `aliases`.
pub open spec fn alias_steps(aliases: Seq<String>, permalink: Seq<char>, n: int) -> Seq<StepView>
    decreases n,
{
    if n <= 0 {
        Seq::empty()
    } else {
        alias_steps(aliases, permalink, n - 1).push(alias_step(aliases[n - 1]@, permalink))
    }
}

/// The redirects of the first `n` pages.
pub open spec fn page_alias_steps(pages: Seq<Page>, n: int) -> Seq<StepView>
    decreases n,
{
    if n <= 0 {
        Seq::empty()
    } else {
        page_alias_steps(pages, n - 1) + alias_steps(
            pages[n - 1].meta.aliases@,
            pages[n - 1].permalink@,
            pages[n - 1].meta.aliases@.len() as int,
        )
    }
}

/// The redirects of the first `n` sections.
pub open spec fn section_alias_steps(sections: Seq<Section>, n: int) -> Seq<StepView>
    decreases n,
{
    if n <= 0 {
        Seq::empty()
    } else {
        section_alias_steps(sections, n - 1) + alias_steps(
            sections[n - 1].meta.aliases@,
            sections[n - 1].permalink@,
            sections[n - 1].meta.aliases@.len() as int,
        )
    }
}

/// Those of the first `n` of `keys` that name a page with a date, in order.
pub open spec fn dated_keys(pages: Seq<Page>, keys: Seq<usize>, n: int) -> Seq<usize>
    decreases n,
{
    if n <= 0 {
        Seq::empty()
    } else if keys[n - 1] < pages.len() && pages[keys[n - 1] as int].meta.date.is_some() {
        dated_keys(pages, keys, n - 1).push(keys[n - 1])
    } else {
        dated_keys(pages, keys, n - 1)
    }
}

/// The steps that render a feed of the pages at the positions `pages` into
/// the directory that `base_path` names, or into the output root where it
/// names none. A feed holds the pages that have a date; where none has one,
/// no feed is written.
pub open spec fn feed_plan(
    site: Site,
    pages: Seq<usize>,
    base_path: Option<Seq<char>>,
    lang: Seq<char>,
    scope: FeedScopeView,
) -> Seq<StepView> {
    let dated = dated_keys(site.library.pages(), pages, pages.len() as int);
    if dated.len() == 0 {
        seq![root_directory()]
    } else {
        seq![
            root_directory(),
            StepView::Render {
                source: SourceView::Feed { scope, lang, pages: dated },
                components: match base_path {
                    Some(base) => segments(base),
                    None => Seq::empty(),
                },
                filename: site.config.feed_filename@,
                create_dirs: false,
                livereload: false,
            },
        ]
    }
}

/// The numbered place of the pager `index` below `components`.
pub open spec fn numbered_place(
    components: Seq<Seq<char>>,
    paginate_path: Seq<char>,
    index: int,
) -> Seq<Seq<char>> {
    components.push(paginate_path).push(decimal(index as nat))
}

/// The step that writes the content of the pager `index`: the first pager
/// at `components` itself, every other at its numbered place.
pub open spec fn pager_step(
    components: Seq<Seq<char>>,
    root: PaginationRootView,
    paginate_path: Seq<char>,
    index: int,
) -> StepView {
    StepView::Render {
        source: SourceView::Pager { root, index },
        components: if index > 1 {
            numbered_place(components, paginate_path, index)
        } else {
            components
        },
        filename: "index.html"@,
        create_dirs: false,
        livereload: true,
    }
}

/// The step that writes, at the numbered place of the first pager, the
/// redirect to what is paginated.
pub open spec fn first_pager_redirect(
    components: Seq<Seq<char>>,
    permalink: Seq<char>,
    paginate_path: Seq<char>,
) -> StepView {
    StepView::Render {
        source: SourceView::Redirect { permalink },
        components: numbered_place(components, paginate_path, 1),
        filename: "index.html"@,
        create_dirs: false,
        livereload: false,
    }
}

/// The steps that write the first `n` pagers.
pub open spec fn pager_steps(
    components: Seq<Seq<char>>,
    root: PaginationRootView,
    permalink: Seq<char>,
    paginate_path: Seq<char>,
    n: int,
) -> Seq<StepView>
    decreases n,
{
    if n <= 0 {
        Seq::empty()
    } else if n == 1 {
        seq![
            pager_step(components, root, paginate_path, 1),
            first_pager_redirect(components, permalink, paginate_path),
        ]
    } else {
        pager_steps(components, root, permalink, paginate_path, n - 1).push(
            pager_step(components, root, paginate_path, n),
        )
    }
}

/// The steps that render a listing in `count` pagers at `components`.
pub open spec fn paginated_plan(
    components: Seq<Seq<char>>,
    root: PaginationRootView,
    permalink: Seq<char>,
    paginate_path: Seq<char>,
    count: int,
) -> Seq<StepView> {
    seq![root_directory()] + pager_steps(components, root, permalink, paginate_path, count)
}

/// The first pager is written at the place of what is paginated, and its
/// numbered place holds a redirect to it.
pub proof fn lemma_first_pager_twice(
    components: Seq<Seq<char>>,
    root: PaginationRootView,
    permalink: Seq<char>,
    paginate_path: Seq<char>,
    count: int,
)
    requires
        count >= 1,
    ensures
        paginated_plan(components, root, permalink, paginate_path, count)[1] == pager_step(
            components,
            root,
            paginate_path,
            1,
        ),
        paginated_plan(components, root, permalink, paginate_path, count)[1] matches StepView::Render {
            components: place,
            ..
        } && place == components,
        paginated_plan(components, root, permalink, paginate_path, count)[2]
            == first_pager_redirect(components, permalink, paginate_path),
        paginated_plan(components, root, permalink, paginate_path, count).len() == count + 2,
    decreases count,
{
    if count > 1 {
        lemma_first_pager_twice(components, root, permalink, paginate_path, count - 1);
    }
}

/// The directories of the output tree in which the document of `section`
/// lies: that of its language, unless it is the default one, then those of
/// its place in the content.
pub open spec fn section_components(section: Section, default_language: Seq<char>) -> Seq<Seq<char>> {
    if section.lang@ != default_language {
        seq![section.lang@] + views(section.file.components@)
    } else {
        views(section.file.components@)
    }
}

/// The steps that ask for the first `n` directories on the way down through
/// `components`.
pub open spec fn directory_steps(components: Seq<Seq<char>>, n: int) -> Seq<StepView>
    decreases n,
{
    if n <= 0 {
        Seq::empty()
    } else {
        directory_steps(components, n - 1).push(
            StepView::Directory { components: components.take(n) },
        )
    }
}

/// Whether the directories of `section` are made before anything is
/// written into them: always on a disk, and in memory where the section
/// has assets to copy.
pub open spec fn makes_directories(mode: BuildMode, section: Section) -> bool {
    mode == BuildMode::Disk || section.assets@.len() > 0
}

/// The steps that write the document of `section` itself: none where the
/// section is not rendered, a redirect where it redirects, its pagers where
/// it is paginated, and its listing otherwise.
pub open spec fn section_document(site: Site, section: Section) -> Seq<StepView> {
    let components = section_components(section, site.config.default_language@);
    if !section.meta.render {
        Seq::empty()
    } else {
        match section.meta.redirect_to {
            Some(target) => seq![
                StepView::Render {
                    source: SourceView::Redirect { permalink: site.config.permalink(target@) },
                    components,
                    filename: "index.html"@,
                    create_dirs: makes_directories(site.build_mode, section),
                    livereload: false,
                },
            ],
            None => if section.meta.paginated() {
                paginated_plan(
                    components,
                    PaginationRootView::Section { path: section.file.path@ },
                    section.permalink@,
                    section.meta.paginate_path@,
                    pager_count(
                        section.pages@.len() as int,
                        section.meta.paginate_by.unwrap() as int,
                    ),
                )
            } else {
                seq![
                    StepView::Render {
                        source: SourceView::Section { path: section.file.path@ },
                        components,
                        filename: "index.html"@,
                        create_dirs: false,
                        livereload: true,
                    },
                ]
            },
        }
    }
}

/// The steps that render `section`: its directories are made, its feed is
/// rendered where it asks for one, its assets are copied, its pages are
/// rendered with `render_pages`, and last its own document is written.
pub open spec fn section_plan(site: Site, section: Section, render_pages: bool) -> Seq<StepView> {
    let components = section_components(section, site.config.default_language@);
    seq![root_directory()] + (if makes_directories(site.build_mode, section) {
        directory_steps(components, components.len() as int)
    } else {
        Seq::empty()
    }) + (if section.meta.generate_feed {
        feed_plan(
            site,
            section.pages@,
            Some(
                if section.path@.len() == 0 {
                    section.path@
                } else {
                    section.path@.drop_first()
                },
            ),
            section.lang@,
            FeedScopeView::Section { path: section.file.path@ },
        )
    } else {
        Seq::empty()
    }) + asset_steps(section.assets@, components, section.assets@.len() as int) + (if render_pages {
        pages_plan(site.library.pages(), section.pages@, section.pages@.len() as int)
    } else {
        Seq::empty()
    }) + section_document(site, section)
}

/// The steps that render the first `n` sections, each with its pages.
pub open spec fn sections_plan(site: Site, n: int) -> Seq<StepView>
    decreases n,
{
    if n <= 0 {
        Seq::empty()
    } else {
        sections_plan(site, n - 1) + section_plan(site, site.library.sections()[n - 1], true)
    }
}

/// The directories of the output tree in which the list of the terms of a
/// taxonomy lies: that of its language, unless it is the default one, then
/// that of the taxonomy.
pub open spec fn taxonomy_components(kind: TaxonomyConfig, default_language: Seq<char>) -> Seq<
    Seq<char>,
> {
    if kind.lang@ != default_language {
        seq![kind.lang@, kind.slug@]
    } else {
        seq![kind.slug@]
    }
}

/// The language that the feed of a term is in: that of the taxonomy where
/// the site has several languages and the taxonomy names one, else the
/// default language.
pub open spec fn feed_language(config: Config, kind: TaxonomyConfig) -> Seq<char> {
    if config.multilingual() && kind.lang@.len() > 0 {
        kind.lang@
    } else {
        config.default_language@
    }
}

/// The steps that render `term`: its pagers where the taxonomy is
/// paginated and its listing otherwise, then its feed where the taxonomy
/// asks for feeds.
pub open spec fn term_plan(site: Site, taxonomy: Taxonomy, term: Term) -> Seq<StepView> {
    let kind = taxonomy.kind;
    let place = taxonomy_components(kind, site.config.default_language@).push(term.slug@);
    (if kind.paginated() {
        paginated_plan(
            place,
            PaginationRootView::Term { taxonomy: kind.name@, lang: kind.lang@, term: term.name@ },
            term.permalink@,
            kind.paginate_path@,
            pager_count(term.pages@.len() as int, kind.paginate_by.unwrap() as int),
        )
    } else {
        seq![
            StepView::Render {
                source: SourceView::TaxonomyTerm {
                    taxonomy: kind.name@,
                    lang: kind.lang@,
                    term: term.name@,
                },
                components: place,
                filename: "index.html"@,
                create_dirs: false,
                livereload: true,
            },
        ]
    }) + (if kind.feed {
        feed_plan(
            site,
            term.pages@,
            Some(kind.slug@ + seq!['/'] + term.slug@),
            feed_language(site.config, kind),
            FeedScopeView::Term { taxonomy: kind.name@, lang: kind.lang@, term: term.name@ },
        )
    } else {
        Seq::empty()
    })
}

/// The steps that render the first `n` terms of `taxonomy`.
pub open spec fn terms_plan(site: Site, taxonomy: Taxonomy, n: int) -> Seq<StepView>
    decreases n,
{
    if n <= 0 {
        Seq::empty()
    } else {
        terms_plan(site, taxonomy, n - 1) + term_plan(site, taxonomy, taxonomy.items@[n - 1])
    }
}

/// The steps that render `taxonomy`: none where it has no term, else the
/// list of its terms and then each term.
pub open spec fn taxonomy_plan(site: Site, taxonomy: Taxonomy) -> Seq<StepView> {
    if taxonomy.items@.len() == 0 {
        Seq::empty()
    } else {
        seq![
            root_directory(),
            StepView::Render {
                source: SourceView::TaxonomyList {
                    taxonomy: taxonomy.kind.name@,
                    lang: taxonomy.kind.lang@,
                },
                components: taxonomy_components(taxonomy.kind, site.config.default_language@),
                filename: "index.html"@,
                create_dirs: false,
                livereload: true,
            },
        ] + terms_plan(site, taxonomy, taxonomy.items@.len() as int)
    }
}

/// The steps that render the first `n` taxonomies of the site.
pub open spec fn taxonomies_plan(site: Site, n: int) -> Seq<StepView>
    decreases n,
{
    if n <= 0 {
        Seq::empty()
    } else {
        taxonomies_plan(site, n - 1) + taxonomy_plan(site, site.taxonomies@[n - 1])
    }
}

/// The name of the documents that are the index of their directory.
fn index_html() -> (r: String)
    ensures
        r@ == "index.html"@,
{
    "index.html".to_owned()
}

impl Site {
    /// The steps that render `page`: its document is written at the place
    /// that its output path names, with directories made for it where it has
    /// assets, and its assets are copied beside it.
    pub fn render_page(&self, page: &Page) -> (steps: Vec<Step>)
        ensures
            step_views(steps@) == page_plan(*page),
    {
        let components = split_on(page.path.as_str(), '/');
        let mut steps: Vec<Step> = Vec::new();
        let first = Step::Render {
            source: Source::Page { path: page.file.path.clone() },
            components: copy_strings(&components),
            filename: index_html(),
            create_dirs: page.assets.len() > 0,
            livereload: true,
        };
        proof {
            lemma_step_views_push(steps@, first);
            assert(step_views(steps@.push(first)) =~= seq![page_step(*page)] + asset_steps(
                page.assets@,
                split(page.path@, '/'),
                0,
            ));
        }
        steps.push(first);
        let mut i: usize = 0;
        while i < page.assets.len()
            invariant
                i <= page.assets.len(),
                views(components@) == split(page.path@, '/'),
                step_views(steps@) == seq![page_step(*page)] + asset_steps(
                    page.assets@,
                    split(page.path@, '/'),
                    i as int,
                ),
            decreases page.assets.len() - i,
        {
            let step = Step::CopyAsset {
                from: page.assets[i].clone(),
                components: copy_strings(&components),
                name: file_name(page.assets[i].as_str()),
            };
            proof {
                lemma_step_views_push(steps@, step);
                assert(step_views(steps@.push(step)) =~= seq![page_step(*page)] + asset_steps(
                    page.assets@,
                    split(page.path@, '/'),
                    i + 1,
                ));
            }
            steps.push(step);
            i += 1;
        }
        steps
    }

    /// The step that writes the redirect from `alias` to `permalink`.
    pub fn render_alias(&self, alias: &str, permalink: &str) -> (step: Step)
        ensures
            step@ == alias_step(alias@, permalink@),
    {
        let mut pieces = split_on(alias, '/');
        let ghost all = pieces@;
        let n = pieces.len();
        let last_is_file = ends_with(pieces[n - 1].as_str(), ".html");
        proof {
            assert(views(all).last() == all[n - 1]@);
        }
        let filename = if last_is_file {
            let last = pieces.pop();
            proof {
                assert(views(pieces@) =~= views(all).drop_last());
            }
            match last {
                Some(name) => name,
                None => index_html(),
            }
        } else {
            index_html()
        };
        Step::Render {
            source: Source::Redirect { permalink: permalink.to_owned() },
            components: pieces,
            filename,
            create_dirs: false,
            livereload: false,
        }
    }

    /// The redirects from `aliases` to `permalink`, added to `steps`.
    fn add_aliases(&self, steps: &mut Vec<Step>, aliases: &Vec<String>, permalink: &String)
        ensures
            step_views(final(steps)@) == step_views(old(steps)@) + alias_steps(
                aliases@,
                permalink@,
                aliases@.len() as int,
            ),
    {
        let ghost before = step_views(steps@);
        let mut i: usize = 0;
        proof {
            assert(before + alias_steps(aliases@, permalink@, 0) =~= before);
        }
        while i < aliases.len()
            invariant
                i <= aliases.len(),
                step_views(steps@) == before + alias_steps(aliases@, permalink@, i as int),
            decreases aliases.len() - i,
        {
            let step = self.render_alias(aliases[i].as_str(), permalink.as_str());
            proof {
                lemma_step_views_push(steps@, step);
                assert(step_views(steps@.push(step)) =~= before + alias_steps(
                    aliases@,
                    permalink@,
                    i + 1,
                ));
            }
            steps.push(step);
            i += 1;
        }
    }

    /// The steps that write a redirect for every alias of every page and
    /// section. They come first in a build, so that a document that lies
    /// where an alias points takes the place of the redirect.
    pub fn render_aliases(&self) -> (steps: Vec<Step>)
        ensures
            step_views(steps@) == seq![root_directory()] + page_alias_steps(
                self.library.pages(),
                self.library.pages().len() as int,
            ) + section_alias_steps(
                self.library.sections(),
                self.library.sections().len() as int,
            ),
    {
        let pages = self.library.pages_values();
        let sections = self.library.sections_values();
        let mut steps: Vec<Step> = Vec::new();
        let root = Step::Directory { components: Vec::new() };
        proof {
            lemma_step_views_push(steps@, root);
            assert(views(Seq::<String>::empty()) =~= Seq::<Seq<char>>::empty());
            assert(step_views(steps@.push(root)) =~= seq![root_directory()] + page_alias_steps(
                pages@,
                0,
            ));
        }
        steps.push(root);
        let mut i: usize = 0;
        while i < pages.len()
            invariant
                i <= pages.len(),
                step_views(steps@) == seq![root_directory()] + page_alias_steps(pages@, i as int),
            decreases pages.len() - i,
        {
            self.add_aliases(&mut steps, &pages[i].meta.aliases, &pages[i].permalink);
            proof {
                assert(step_views(steps@) =~= seq![root_directory()] + page_alias_steps(
                    pages@,
                    i + 1,
                ));
            }
            i += 1;
        }
        let ghost first = seq![root_directory()] + page_alias_steps(pages@, pages@.len() as int);
        let mut k: usize = 0;
        proof {
            assert(first + section_alias_steps(sections@, 0) =~= first);
        }
        while k < sections.len()
            invariant
                k <= sections.len(),
                first == seq![root_directory()] + page_alias_steps(pages@, pages@.len() as int),
                step_views(steps@) == first + section_alias_steps(sections@, k as int),
            decreases sections.len() - k,
        {
            self.add_aliases(&mut steps, &sections[k].meta.aliases, &sections[k].permalink);
            proof {
                assert(step_views(steps@) =~= first + section_alias_steps(sections@, k + 1));
            }
            k += 1;
        }
        steps
    }

    /// The steps that write the document shown for what is not found.
    pub fn render_404(&self) -> (steps: Vec<Step>)
        ensures
            step_views(steps@) == seq![
                root_directory(),
                StepView::Render {
                    source: SourceView::NotFound,
                    components: Seq::empty(),
                    filename: "404.html"@,
                    create_dirs: false,
                    livereload: true,
                },
            ],
    {
        let mut steps: Vec<Step> = Vec::new();
        steps.push(Step::Directory { components: Vec::new() });
        steps.push(
            Step::Render {
                source: Source::NotFound,
                components: Vec::new(),
                filename: "404.html".to_owned(),
                create_dirs: false,
                livereload: true,
            },
        );
        proof {
            assert(views(Seq::<String>::empty()) =~= Seq::<Seq<char>>::empty());
            assert(step_views(steps@) =~= seq![
                root_directory(),
                StepView::Render {
                    source: SourceView::NotFound,
                    components: Seq::empty(),
                    filename: "404.html"@,
                    create_dirs: false,
                    livereload: true,
                },
            ]);
        }
        steps
    }

    /// The steps that write the directives for robots.
    pub fn render_robots(&self) -> (steps: Vec<Step>)
        ensures
            step_views(steps@) == seq![
                root_directory(),
                StepView::Render {
                    source: SourceView::Robots,
                    components: Seq::empty(),
                    filename: "robots.txt"@,
                    create_dirs: false,
                    livereload: false,
                },
            ],
    {
        let mut steps: Vec<Step> = Vec::new();
        steps.push(Step::Directory { components: Vec::new() });
        steps.push(
            Step::Render {
                source: Source::Robots,
                components: Vec::new(),
                filename: "robots.txt".to_owned(),
                create_dirs: false,
                livereload: false,
            },
        );
        proof {
            assert(views(Seq::<String>::empty()) =~= Seq::<Seq<char>>::empty());
            assert(step_views(steps@) =~= seq![
                root_directory(),
                StepView::Render {
                    source: SourceView::Robots,
                    components: Seq::empty(),
                    filename: "robots.txt"@,
                    create_dirs: false,
                    livereload: false,
                },
            ]);
        }
        steps
    }

    /// The steps that render a feed of the pages at the positions
    /// `all_pages` into the directory that `base_path` names, or into the
    /// output root where it names none. The feed holds the pages that have a
    /// date and is written under the name that the settings give to feeds;
    /// where no page has a date, no feed is written.
    pub fn render_feed(
        &self,
        all_pages: Vec<usize>,
        base_path: Option<&str>,
        lang: &str,
        scope: FeedScope,
    ) -> (steps: Vec<Step>)
        ensures
            step_views(steps@) == feed_plan(
                *self,
                all_pages@,
                match base_path {
                    Some(base) => Some(base@),
                    None => None,
                },
                lang@,
                scope@,
            ),
    {
        let pages = self.library.pages_values();
        let mut dated: Vec<usize> = Vec::new();
        let mut i: usize = 0;
        while i < all_pages.len()
            invariant
                i <= all_pages.len(),
                pages@ == self.library.pages(),
                dated@ == dated_keys(pages@, all_pages@, i as int),
            decreases all_pages.len() - i,
        {
            let key = all_pages[i];
            if key < pages.len() && pages[key].meta.date.is_some() {
                dated.push(key);
            }
            i += 1;
        }
        let mut steps: Vec<Step> = Vec::new();
        steps.push(Step::Directory { components: Vec::new() });
        proof {
            assert(views(Seq::<String>::empty()) =~= Seq::<Seq<char>>::empty());
        }
        if dated.len() == 0 {
            proof {
                assert(step_views(steps@) =~= seq![root_directory()]);
            }
            return steps;
        }
        let components = match base_path {
            Some(base) => segments_of(base),
            None => Vec::new(),
        };
        steps.push(
            Step::Render {
                source: Source::Feed { scope, lang: lang.to_owned(), pages: dated },
                components,
                filename: self.config.feed_filename.clone(),
                create_dirs: false,
                livereload: false,
            },
        );
        proof {
            assert(step_views(steps@) =~= feed_plan(
                *self,
                all_pages@,
                match base_path {
                    Some(base) => Some(base@),
                    None => None,
                },
                lang@,
                scope@,
            ));
        }
        steps
    }

    /// The steps that render a listing in pagers at the place `components`.
    /// The content of the first pager is written at the place itself, and
    /// a redirect to the listing is written at the numbered place of the
    /// first pager; every other pager is written at its numbered place.
    pub fn render_paginated(&self, components: Vec<String>, paginator: &Paginator) -> (steps: Vec<
        Step,
    >)
        requires
            paginator.wf(),
        ensures
            step_views(steps@) == paginated_plan(
                views(components@),
                paginator.root@,
                paginator.permalink@,
                paginator.paginate_path@,
                paginator.pagers@.len() as int,
            ),
    {
        let ghost place = views(components@);
        let mut steps: Vec<Step> = Vec::new();
        let root = Step::Directory { components: Vec::new() };
        proof {
            lemma_step_views_push(steps@, root);
            assert(views(Seq::<String>::empty()) =~= Seq::<Seq<char>>::empty());
            assert(step_views(steps@.push(root)) =~= seq![root_directory()] + pager_steps(
                place,
                paginator.root@,
                paginator.permalink@,
                paginator.paginate_path@,
                0,
            ));
        }
        steps.push(root);
        let mut i: usize = 0;
        while i < paginator.pagers.len()
            invariant
                i <= paginator.pagers.len(),
                paginator.wf(),
                place == views(components@),
                step_views(steps@) == seq![root_directory()] + pager_steps(
                    place,
                    paginator.root@,
                    paginator.permalink@,
                    paginator.paginate_path@,
                    i as int,
                ),
            decreases paginator.pagers.len() - i,
        {
            let pager = &paginator.pagers[i];
            assert(pager.index == i + 1);
            let mut numbered = copy_strings(&components);
            numbered.push(paginator.paginate_path.clone());
            numbered.push(decimal_string(pager.index));
            proof {
                assert(views(numbered@) =~= numbered_place(
                    place,
                    paginator.paginate_path@,
                    pager.index as int,
                ));
            }
            let source = Source::Pager { root: paginator.root.duplicate(), index: pager.index };
            if pager.index > 1 {
                let step = Step::Render {
                    source,
                    components: numbered,
                    filename: index_html(),
                    create_dirs: false,
                    livereload: true,
                };
                proof {
                    lemma_step_views_push(steps@, step);
                    assert(step_views(steps@.push(step)) =~= seq![root_directory()] + pager_steps(
                        place,
                        paginator.root@,
                        paginator.permalink@,
                        paginator.paginate_path@,
                        i + 1,
                    ));
                }
                steps.push(step);
            } else {
                let content = Step::Render {
                    source,
                    components: copy_strings(&components),
                    filename: index_html(),
                    create_dirs: false,
                    livereload: true,
                };
                let redirect = Step::Render {
                    source: Source::Redirect { permalink: paginator.permalink.clone() },
                    components: numbered,
                    filename: index_html(),
                    create_dirs: false,
                    livereload: false,
                };
                proof {
                    lemma_step_views_push(steps@, content);
                    lemma_step_views_push(steps@.push(content), redirect);
                    assert(step_views(steps@.push(content).push(redirect)) =~= seq![
                        root_directory(),
                    ] + pager_steps(
                        place,
                        paginator.root@,
                        paginator.permalink@,
                        paginator.paginate_path@,
                        1,
                    ));
                }
                steps.push(content);
                steps.push(redirect);
            }
            i += 1;
        }
        steps
    }

    /// The steps that copy `assets` into the directory `components`, added
    /// to `steps`.
    fn add_assets(&self, steps: &mut Vec<Step>, assets: &Vec<String>, components: &Vec<String>)
        ensures
            step_views(final(steps)@) == step_views(old(steps)@) + asset_steps(
                assets@,
                views(components@),
                assets@.len() as int,
            ),
    {
        let ghost before = step_views(steps@);
        let mut i: usize = 0;
        proof {
            assert(before + asset_steps(assets@, views(components@), 0) =~= before);
        }
        while i < assets.len()
            invariant
                i <= assets.len(),
                step_views(steps@) == before + asset_steps(assets@, views(components@), i as int),
            decreases assets.len() - i,
        {
            let step = Step::CopyAsset {
                from: assets[i].clone(),
                components: copy_strings(components),
                name: file_name(assets[i].as_str()),
            };
            proof {
                lemma_step_views_push(steps@, step);
                assert(step_views(steps@.push(step)) =~= before + asset_steps(
                    assets@,
                    views(components@),
                    i + 1,
                ));
            }
            steps.push(step);
            i += 1;
        }
    }

    /// The steps that ask for every directory on the way down through
    /// `components`, added to `steps`.
    fn add_directories(&self, steps: &mut Vec<Step>, components: &Vec<String>)
        ensures
            step_views(final(steps)@) == step_views(old(steps)@) + directory_steps(
                views(components@),
                components@.len() as int,
            ),
    {
        let ghost before = step_views(steps@);
        let mut i: usize = 0;
        proof {
            assert(before + directory_steps(views(components@), 0) =~= before);
        }
        while i < components.len()
            invariant
                i <= components.len(),
                step_views(steps@) == before + directory_steps(views(components@), i as int),
            decreases components.len() - i,
        {
            let step = Step::Directory { components: copy_prefix(components, i + 1) };
            proof {
                lemma_step_views_push(steps@, step);
                assert(step_views(steps@.push(step)) =~= before + directory_steps(
                    views(components@),
                    i + 1,
                ));
            }
            steps.push(step);
            i += 1;
        }
    }

    /// The steps that render the pages at the positions `keys`, added to
    /// `steps`.
    fn add_pages(&self, steps: &mut Vec<Step>, keys: &Vec<usize>)
        requires
            all_below(keys@, self.library.pages().len() as int),
        ensures
            step_views(final(steps)@) == step_views(old(steps)@) + pages_plan(
                self.library.pages(),
                keys@,
                keys@.len() as int,
            ),
    {
        let ghost before = step_views(steps@);
        let mut i: usize = 0;
        proof {
            assert(before + pages_plan(self.library.pages(), keys@, 0) =~= before);
        }
        while i < keys.len()
            invariant
                i <= keys.len(),
                all_below(keys@, self.library.pages().len() as int),
                step_views(steps@) == before + pages_plan(self.library.pages(), keys@, i as int),
            decreases keys.len() - i,
        {
            let more = self.render_page(self.library.get_page_by_key(keys[i]));
            extend(steps, more);
            proof {
                assert(step_views(steps@) =~= before + pages_plan(
                    self.library.pages(),
                    keys@,
                    i + 1,
                ));
            }
            i += 1;
        }
    }

    /// The directories of the output tree in which the document of
    /// `section` lies.
    fn components_of(&self, section: &Section) -> (components: Vec<String>)
        ensures
            views(components@) == section_components(*section, self.config.default_language@),
    {
        let mut components: Vec<String> = Vec::new();
        if !(section.lang == self.config.default_language) {
            components.push(section.lang.clone());
        }
        let ghost first = views(components@);
        let mut i: usize = 0;
        proof {
            assert(first + views(section.file.components@).take(0) =~= first);
        }
        while i < section.file.components.len()
            invariant
                i <= section.file.components.len(),
                views(components@) == first + views(section.file.components@).take(i as int),
            decreases section.file.components.len() - i,
        {
            let piece = section.file.components[i].clone();
            proof {
                lemma_views_push(components@, piece);
                assert(views(components@.push(piece)) =~= first + views(
                    section.file.components@,
                ).take(i + 1));
            }
            components.push(piece);
            i += 1;
        }
        proof {
            assert(views(section.file.components@).take(section.file.components@.len() as int)
                =~= views(section.file.components@));
            if section.lang@ == self.config.default_language@ {
                assert(first =~= Seq::<Seq<char>>::empty());
                assert(first + views(section.file.components@) =~= views(section.file.components@));
            } else {
                assert(first =~= seq![section.lang@]);
            }
        }
        components
    }

    /// The steps that write the document of `section` itself.
    fn render_section_document(&self, section: &Section, components: Vec<String>) -> (steps: Vec<
        Step,
    >)
        requires
            views(components@) == section_components(*section, self.config.default_language@),
        ensures
            step_views(steps@) == section_document(*self, *section),
    {
        let mut steps: Vec<Step> = Vec::new();
        if !section.meta.render {
            proof {
                assert(step_views(steps@) =~= Seq::<StepView>::empty());
            }
            return steps;
        }
        let on_disk = match self.build_mode {
            BuildMode::Disk => true,
            BuildMode::Memory => false,
        };
        match &section.meta.redirect_to {
            Some(target) => {
                steps.push(
                    Step::Render {
                        source: Source::Redirect {
                            permalink: self.config.make_permalink(target.as_str()),
                        },
                        components,
                        filename: index_html(),
                        create_dirs: on_disk || section.assets.len() > 0,
                        livereload: false,
                    },
                );
                proof {
                    assert(step_views(steps@) =~= section_document(*self, *section));
                }
                steps
            },
            None => {
                if section.meta.is_paginated() {
                    let paginator = Paginator::from_section(section);
                    self.render_paginated(components, &paginator)
                } else {
                    steps.push(
                        Step::Render {
                            source: Source::Section { path: section.file.path.clone() },
                            components,
                            filename: index_html(),
                            create_dirs: false,
                            livereload: true,
                        },
                    );
                    proof {
                        assert(step_views(steps@) =~= section_document(*self, *section));
                    }
                    steps
                }
            },
        }
    }

    /// The steps that render `section`: its directories are made, always on
    /// a disk and in memory where it has assets; its feed is rendered where
    /// it asks for one; its assets are copied; with `render_pages` its pages
    /// are rendered; and last its own document is written, which is a
    /// redirect, a list of pagers or a plain listing, or nothing where the
    /// section is not rendered.
    pub fn render_section(&self, section: &Section, render_pages: bool) -> (steps: Vec<Step>)
        requires
            all_below(section.pages@, self.library.pages().len() as int),
        ensures
            step_views(steps@) == section_plan(*self, *section, render_pages),
    {
        let components = self.components_of(section);
        let on_disk = match self.build_mode {
            BuildMode::Disk => true,
            BuildMode::Memory => false,
        };
        let mut steps: Vec<Step> = Vec::new();
        steps.push(Step::Directory { components: Vec::new() });
        proof {
            assert(views(Seq::<String>::empty()) =~= Seq::<Seq<char>>::empty());
            assert(step_views(steps@) =~= seq![root_directory()]);
        }
        if on_disk || section.assets.len() > 0 {
            self.add_directories(&mut steps, &components);
        }
        if section.meta.generate_feed {
            let base = drop_first_char(section.path.as_str());
            let feed = self.render_feed(
                copy_keys(&section.pages),
                Some(base.as_str()),
                section.lang.as_str(),
                FeedScope::Section { path: section.file.path.clone() },
            );
            extend(&mut steps, feed);
        }
        self.add_assets(&mut steps, &section.assets, &components);
        if render_pages {
            self.add_pages(&mut steps, &section.pages);
        }
        let document = self.render_section_document(section, components);
        extend(&mut steps, document);
        proof {
            assert(step_views(steps@) =~= section_plan(*self, *section, render_pages));
        }
        steps
    }

    /// The steps that render every section, each with its pages.
    pub fn render_sections(&self) -> (steps: Vec<Step>)
        requires
            self.library.wf(),
        ensures
            step_views(steps@) == sections_plan(*self, self.library.sections().len() as int),
    {
        let sections = self.library.sections_values();
        let mut steps: Vec<Step> = Vec::new();
        let mut i: usize = 0;
        proof {
            assert(step_views(steps@) =~= sections_plan(*self, 0));
        }
        while i < sections.len()
            invariant
                i <= sections.len(),
                self.library.wf(),
                sections@ == self.library.sections(),
                step_views(steps@) == sections_plan(*self, i as int),
            decreases sections.len() - i,
        {
            assert(all_below(self.library.sections()[i as int].pages@, self.library.pages().len() as int));
            let more = self.render_section(&sections[i], true);
            extend(&mut steps, more);
            i += 1;
        }
        steps
    }

    /// The steps that render the pages that no section names.
    pub fn render_orphan_pages(&self) -> (steps: Vec<Step>)
        requires
            self.library.wf(),
        ensures
            step_views(steps@) == seq![root_directory()] + pages_plan(
                self.library.pages(),
                self.library.orphans(),
                self.library.orphans().len() as int,
            ),
    {
        let orphans = self.library.get_all_orphan_pages();
        let mut steps: Vec<Step> = Vec::new();
        steps.push(Step::Directory { components: Vec::new() });
        proof {
            assert(views(Seq::<String>::empty()) =~= Seq::<Seq<char>>::empty());
            assert(step_views(steps@) =~= seq![root_directory()]);
        }
        self.add_pages(&mut steps, &orphans);
        steps
    }
    /// The steps that render one term of `taxonomy`.
    fn render_term(&self, taxonomy: &Taxonomy, term: &Term, components: &Vec<String>) -> (steps: Vec<
        Step,
    >)
        requires
            views(components@) == taxonomy_components(
                taxonomy.kind,
                self.config.default_language@,
            ),
        ensures
            step_views(steps@) == term_plan(*self, *taxonomy, *term),
    {
        let kind = &taxonomy.kind;
        let mut place = copy_strings(components);
        place.push(term.slug.clone());
        proof {
            assert(views(place@) =~= views(components@).push(term.slug@));
        }
        let mut steps = if kind.is_paginated() {
            let paginator = Paginator::from_taxonomy(taxonomy, term);
            self.render_paginated(place, &paginator)
        } else {
            let mut steps: Vec<Step> = Vec::new();
            steps.push(
                Step::Render {
                    source: Source::TaxonomyTerm {
                        taxonomy: kind.name.clone(),
                        lang: kind.lang.clone(),
                        term: term.name.clone(),
                    },
                    components: place,
                    filename: index_html(),
                    create_dirs: false,
                    livereload: true,
                },
            );
            proof {
                assert(step_views(steps@) =~= seq![steps@[0]@]);
            }
            steps
        };
        let ghost first = step_views(steps@);
        if kind.feed {
            proof {
                reveal_strlit("/");
                assert("/"@ =~= seq!['/']);
            }
            let mut base = kind.slug.clone();
            base.append("/");
            base.append(term.slug.as_str());
            let lang = if self.config.is_multilingual() && kind.lang.as_str().unicode_len() > 0 {
                kind.lang.clone()
            } else {
                self.config.default_language.clone()
            };
            let feed = self.render_feed(
                copy_keys(&term.pages),
                Some(base.as_str()),
                lang.as_str(),
                FeedScope::Term {
                    taxonomy: kind.name.clone(),
                    lang: kind.lang.clone(),
                    term: term.name.clone(),
                },
            );
            extend(&mut steps, feed);
        } else {
            proof {
                assert(first + Seq::<StepView>::empty() =~= first);
            }
        }
        steps
    }

    /// The steps that render `taxonomy`: none where it has no term, else
    /// the list of its terms, then for each term its pagers or its listing,
    /// and its feed where the taxonomy asks for feeds.
    pub fn render_taxonomy(&self, taxonomy: &Taxonomy) -> (steps: Vec<Step>)
        ensures
            step_views(steps@) == taxonomy_plan(*self, *taxonomy),
    {
        let mut steps: Vec<Step> = Vec::new();
        if taxonomy.items.len() == 0 {
            proof {
                assert(step_views(steps@) =~= Seq::<StepView>::empty());
            }
            return steps;
        }
        let mut components: Vec<String> = Vec::new();
        if !(taxonomy.kind.lang == self.config.default_language) {
            components.push(taxonomy.kind.lang.clone());
        }
        components.push(taxonomy.kind.slug.clone());
        proof {
            assert(views(components@) =~= taxonomy_components(
                taxonomy.kind,
                self.config.default_language@,
            ));
            assert(views(Seq::<String>::empty()) =~= Seq::<Seq<char>>::empty());
        }
        steps.push(Step::Directory { components: Vec::new() });
        steps.push(
            Step::Render {
                source: Source::TaxonomyList {
                    taxonomy: taxonomy.kind.name.clone(),
                    lang: taxonomy.kind.lang.clone(),
                },
                components: copy_strings(&components),
                filename: index_html(),
                create_dirs: false,
                livereload: true,
            },
        );
        let ghost first = step_views(steps@);
        proof {
            assert(first =~= seq![steps@[0]@, steps@[1]@]);
            assert(first + terms_plan(*self, *taxonomy, 0) =~= first);
        }
        let mut i: usize = 0;
        while i < taxonomy.items.len()
            invariant
                i <= taxonomy.items.len(),
                views(components@) == taxonomy_components(
                    taxonomy.kind,
                    self.config.default_language@,
                ),
                step_views(steps@) == first + terms_plan(*self, *taxonomy, i as int),
            decreases taxonomy.items.len() - i,
        {
            let more = self.render_term(taxonomy, &taxonomy.items[i], &components);
            extend(&mut steps, more);
            proof {
                assert(step_views(steps@) =~= first + terms_plan(*self, *taxonomy, i + 1));
            }
            i += 1;
        }
        steps
    }

    /// The steps that render every taxonomy of the site.
    pub fn render_taxonomies(&self) -> (steps: Vec<Step>)
        ensures
            step_views(steps@) == taxonomies_plan(*self, self.taxonomies@.len() as int),
    {
        let mut steps: Vec<Step> = Vec::new();
        let mut i: usize = 0;
        proof {
            assert(step_views(steps@) =~= taxonomies_plan(*self, 0));
        }
        while i < self.taxonomies.len()
            invariant
                i <= self.taxonomies.len(),
                step_views(steps@) == taxonomies_plan(*self, i as int),
            decreases self.taxonomies.len() - i,
        {
            let more = self.render_taxonomy(&self.taxonomies[i]);
            extend(&mut steps, more);
            i += 1;
        }
        steps
    }
}

} // verus!
