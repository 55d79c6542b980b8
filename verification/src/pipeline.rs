//! The build of a whole site: which steps are taken, and in which order.

use vstd::pervasive::unreached;
use vstd::prelude::*;
use vstd::string::*;
use crate::config::Config;
use crate::content::{Page, Section};
use crate::errors::Error;
use crate::library::{same_document, same_documents, section_paths, with_page, with_section};
use crate::output::{
    directory_views, failure, file_views, inject, injected, livereload_script, minify, passed,
    written, Output, OutputFile, Passed,
};
use crate::paths::{join_path, joined};
use crate::plan::{
    extend, lemma_step_views_push, step_views, FeedScope, FeedScopeView, MarkdownJob,
    MarkdownJobView, Source, SourceView, Step, StepView,
};
use crate::render::{
    feed_plan, page_alias_steps, page_plan, pages_plan, root_directory, section_alias_steps,
    section_plan, sections_plan, taxonomies_plan,
};
use crate::seqs::{all_below, first_index, lemma_first_index, positions};
use crate::site::{page_job, Site};
use crate::sitemap::{sitemap_entries, sitemap_plan};
use crate::taxonomy::{is_taxonomy, known_flags, settled};
use crate::text::{copy_strings, views};
use crate::BuildMode;

verus! {

/// The name of the search index of the language `lang`.
pub open spec fn search_name(lang: Seq<char>) -> Seq<char> {
    "search_index."@ + lang + ".js"@
}

/// The step that writes the search index of the language `lang`.
pub open spec fn search_step(lang: Seq<char>) -> StepView {
    StepView::File { source: SourceView::SearchIndex { lang }, filename: search_name(lang) }
}

/// The steps that write the search indexes of the first `n` languages
/// besides the default one: one for each language that asks for one.
pub open spec fn language_search_steps(config: Config, n: int) -> Seq<StepView>
    decreases n,
{
    if n <= 0 {
        Seq::empty()
    } else if config.languages@[n - 1].code@ != config.default_language@
        && config.languages@[n - 1].search {
        language_search_steps(config, n - 1).push(search_step(config.languages@[n - 1].code@))
    } else {
        language_search_steps(config, n - 1)
    }
}

/// The steps that write the search indexes and the script that searches
/// them: the index of the default language, that of each other language
/// that asks for one, and the script.
pub open spec fn search_plan(config: Config) -> Seq<StepView> {
    seq![root_directory(), search_step(config.default_language@)] + language_search_steps(
        config,
        config.languages@.len() as int,
    ).push(
        StepView::File { source: SourceView::SearchRuntime, filename: "elasticlunr.min.js"@ },
    )
}

/// The script that a search index is written as.
pub open spec fn search_script(index: Seq<char>) -> Seq<char> {
    "window.searchIndex = "@ + index + ";"@
}

/// The directory of the theme named `theme`.
pub open spec fn theme_path(base_path: Seq<char>, theme: Seq<char>) -> Seq<char> {
    joined(joined(base_path, "themes"@), theme)
}

/// The steps that copy the static files: those of the theme first, so that
/// those of the site take their place where both have one; the site's only
/// where it has any.
pub open spec fn static_plan(site: Site) -> Seq<StepView> {
    (match site.config.theme {
        Some(theme) => seq![
            StepView::CopyDirectory {
                from: joined(theme_path(site.base_path@, theme@), "static"@),
                hard_link: false,
                if_present: false,
            },
        ],
        None => Seq::empty(),
    }).push(
        StepView::CopyDirectory {
            from: site.static_path@,
            hard_link: site.config.hard_link_static,
            if_present: true,
        },
    )
}

/// The steps that compile the style sheets: those of the theme where it has
/// any, then those of the site where the settings ask for it.
pub open spec fn sass_plan(site: Site) -> Seq<StepView> {
    (match site.config.theme {
        Some(theme) => seq![
            StepView::CompileSass { from: theme_path(site.base_path@, theme@), if_present: true },
        ],
        None => Seq::empty(),
    }) + (if site.config.compile_sass {
        seq![StepView::CompileSass { from: site.base_path@, if_present: false }]
    } else {
        Seq::empty()
    })
}

/// For each page, whether it is in the language `lang`.
pub open spec fn in_language(pages: Seq<Page>, lang: Seq<char>) -> Seq<bool> {
    Seq::new(pages.len(), |i: int| pages[i].lang@ == lang)
}

/// The positions of the pages in the language `lang`.
pub open spec fn pages_in(pages: Seq<Page>, lang: Seq<char>) -> Seq<usize> {
    positions(in_language(pages, lang))
}

/// The positions of all of `count` pages.
pub open spec fn all_positions(count: nat) -> Seq<usize> {
    Seq::new(count, |i: int| i as usize)
}

/// The steps that render the feed of the site, where the settings ask for
/// one: of the pages in the default language where the site has several
/// languages, of all pages where it has one.
pub open spec fn site_feed_plan(site: Site) -> Seq<StepView> {
    if site.config.generate_feed {
        feed_plan(
            site,
            if site.config.multilingual() {
                pages_in(site.library.pages(), site.config.default_language@)
            } else {
                all_positions(site.library.pages().len())
            },
            None,
            site.config.default_language@,
            FeedScopeView::Site,
        )
    } else {
        Seq::empty()
    }
}

/// The steps that render the feeds of the first `n` languages besides the
/// default one: for each that asks for one, a feed of its pages in the
/// directory of the language.
pub open spec fn language_feeds_plan(site: Site, n: int) -> Seq<StepView>
    decreases n,
{
    if n <= 0 {
        Seq::empty()
    } else if site.config.languages@[n - 1].feed {
        language_feeds_plan(site, n - 1) + feed_plan(
            site,
            pages_in(site.library.pages(), site.config.languages@[n - 1].code@),
            Some(site.config.languages@[n - 1].code@),
            site.config.languages@[n - 1].code@,
            FeedScopeView::Site,
        )
    } else {
        language_feeds_plan(site, n - 1)
    }
}

/// The steps that write a redirect for every alias.
pub open spec fn aliases_plan(site: Site) -> Seq<StepView> {
    seq![root_directory()] + page_alias_steps(
        site.library.pages(),
        site.library.pages().len() as int,
    ) + section_alias_steps(site.library.sections(), site.library.sections().len() as int)
}

/// The steps that render the pages that no section names.
pub open spec fn orphans_plan(site: Site) -> Seq<StepView> {
    seq![root_directory()] + pages_plan(
        site.library.pages(),
        site.library.orphans(),
        site.library.orphans().len() as int,
    )
}

/// The steps that write the document shown for what is not found.
pub open spec fn not_found_plan() -> Seq<StepView> {
    seq![
        root_directory(),
        StepView::Render {
            source: SourceView::NotFound,
            components: Seq::empty(),
            filename: "404.html"@,
            create_dirs: false,
            livereload: true,
        },
    ]
}

/// The steps that write the directives for robots.
pub open spec fn robots_plan() -> Seq<StepView> {
    seq![
        root_directory(),
        StepView::Render {
            source: SourceView::Robots,
            components: Seq::empty(),
            filename: "robots.txt"@,
            create_dirs: false,
            livereload: false,
        },
    ]
}

/// The steps of a build, in the order in which they are taken. What a later
/// step reads, an earlier one has made: style sheets and search indexes
/// come before any document; redirects come before the documents that may
/// take their place; images are processed when every document has been
/// rendered and may have asked for one; and static files are copied last,
/// when processing may have added to them.
pub open spec fn build_plan(site: Site) -> Seq<StepView> {
    (if site.build_mode == BuildMode::Disk {
        seq![StepView::Clean]
    } else {
        Seq::empty()
    }) + sass_plan(site) + (if site.config.build_search_index {
        search_plan(site.config)
    } else {
        Seq::empty()
    }) + aliases_plan(site) + sections_plan(site, site.library.sections().len() as int)
        + orphans_plan(site) + sitemap_plan(site.config, sitemap_entries(site)) + site_feed_plan(
        site,
    ) + language_feeds_plan(site, site.config.languages@.len() as int) + not_found_plan()
        + robots_plan() + taxonomies_plan(site, site.taxonomies@.len() as int).push(
        StepView::ProcessImages,
    ) + static_plan(site)
}

/// The script that the search index `index` is written as.
pub fn search_index_script(index: &str) -> (out: String)
    ensures
        out@ == search_script(index@),
{
    let mut out = "window.searchIndex = ".to_owned();
    out.append(index);
    out.append(";");
    out
}

impl Site {
    /// The step that empties the output tree.
    pub fn clean(&self) -> (steps: Vec<Step>)
        ensures
            step_views(steps@) == seq![StepView::Clean],
    {
        let mut steps: Vec<Step> = Vec::new();
        steps.push(Step::Clean);
        proof {
            assert(step_views(steps@) =~= seq![StepView::Clean]);
        }
        steps
    }

    /// The step that has the images processed.
    pub fn process_images(&self) -> (steps: Vec<Step>)
        ensures
            step_views(steps@) == seq![StepView::ProcessImages],
    {
        let mut steps: Vec<Step> = Vec::new();
        steps.push(Step::ProcessImages);
        proof {
            assert(step_views(steps@) =~= seq![StepView::ProcessImages]);
        }
        steps
    }

    /// The directory of the theme named `theme`.
    fn theme_directory(&self, theme: &String) -> (out: String)
        ensures
            out@ == theme_path(self.base_path@, theme@),
    {
        let themes = join_path(self.base_path.as_str(), "themes");
        join_path(themes.as_str(), theme.as_str())
    }

    /// The steps that compile the style sheets.
    fn compile_sass(&self) -> (steps: Vec<Step>)
        ensures
            step_views(steps@) == sass_plan(*self),
    {
        let mut steps: Vec<Step> = Vec::new();
        match &self.config.theme {
            Some(theme) => {
                steps.push(
                    Step::CompileSass { from: self.theme_directory(theme), if_present: true },
                );
            },
            None => {},
        }
        if self.config.compile_sass {
            steps.push(Step::CompileSass { from: self.base_path.clone(), if_present: false });
        }
        proof {
            assert(step_views(steps@) =~= sass_plan(*self));
        }
        steps
    }

    /// The steps that copy the static files of the theme and of the site
    /// into the output tree.
    pub fn copy_static_directories(&self) -> (steps: Vec<Step>)
        ensures
            step_views(steps@) == static_plan(*self),
    {
        let mut steps: Vec<Step> = Vec::new();
        match &self.config.theme {
            Some(theme) => {
                let directory = self.theme_directory(theme);
                steps.push(
                    Step::CopyDirectory {
                        from: join_path(directory.as_str(), "static"),
                        hard_link: false,
                        if_present: false,
                    },
                );
            },
            None => {},
        }
        steps.push(
            Step::CopyDirectory {
                from: self.static_path.clone(),
                hard_link: self.config.hard_link_static,
                if_present: true,
            },
        );
        proof {
            assert(step_views(steps@) =~= static_plan(*self));
        }
        steps
    }

    /// The step that writes the search index of the language `lang`.
    fn search_index_step(&self, lang: &String) -> (step: Step)
        ensures
            step@ == search_step(lang@),
    {
        let mut name = "search_index.".to_owned();
        name.append(lang.as_str());
        name.append(".js");
        Step::File { source: Source::SearchIndex { lang: lang.clone() }, filename: name }
    }

    /// The steps that write the search indexes and the script that searches
    /// them. They go onto the disk whatever the build mode.
    pub fn build_search_index(&self) -> (steps: Vec<Step>)
        ensures
            step_views(steps@) == search_plan(self.config),
    {
        let mut steps: Vec<Step> = Vec::new();
        steps.push(Step::Directory { components: Vec::new() });
        steps.push(self.search_index_step(&self.config.default_language));
        let ghost first = seq![root_directory(), search_step(self.config.default_language@)];
        proof {
            assert(views(Seq::<String>::empty()) =~= Seq::<Seq<char>>::empty());
            assert(step_views(steps@) =~= first + language_search_steps(self.config, 0));
        }
        let mut i: usize = 0;
        while i < self.config.languages.len()
            invariant
                i <= self.config.languages.len(),
                first == seq![root_directory(), search_step(self.config.default_language@)],
                step_views(steps@) == first + language_search_steps(self.config, i as int),
            decreases self.config.languages.len() - i,
        {
            let language = &self.config.languages[i];
            if !(language.code == self.config.default_language) && language.search {
                let step = self.search_index_step(&language.code);
                proof {
                    lemma_step_views_push(steps@, step);
                    assert(step_views(steps@).push(step@) =~= first + language_search_steps(
                        self.config,
                        i + 1,
                    ));
                }
                steps.push(step);
            }
            i += 1;
        }
        let last = Step::File {
            source: Source::SearchRuntime,
            filename: "elasticlunr.min.js".to_owned(),
        };
        proof {
            lemma_step_views_push(steps@, last);
            assert(step_views(steps@).push(last@) =~= search_plan(self.config));
        }
        steps.push(last);
        steps
    }

    /// The positions of the pages in the language `lang`.
    fn pages_of_language(&self, lang: &String) -> (out: Vec<usize>)
        ensures
            out@ == pages_in(self.library.pages(), lang@),
    {
        let pages = self.library.pages_values();
        let ghost flags = in_language(pages@, lang@);
        let mut out: Vec<usize> = Vec::new();
        let mut i: usize = 0;
        while i < pages.len()
            invariant
                i <= pages.len(),
                pages@ == self.library.pages(),
                flags == in_language(pages@, lang@),
                out@ == positions(flags.take(i as int)),
            decreases pages.len() - i,
        {
            proof {
                assert(flags.take(i + 1).drop_last() =~= flags.take(i as int));
            }
            if pages[i].lang == *lang {
                out.push(i);
            }
            i += 1;
        }
        proof {
            assert(flags.take(pages.len() as int) =~= flags);
        }
        out
    }

    /// The positions of all pages.
    fn every_page(&self) -> (out: Vec<usize>)
        ensures
            out@ == all_positions(self.library.pages().len()),
    {
        let count = self.library.pages_values().len();
        let mut out: Vec<usize> = Vec::new();
        let mut i: usize = 0;
        while i < count
            invariant
                i <= count,
                count == self.library.pages().len(),
                out@ == all_positions(count as nat).take(i as int),
            decreases count - i,
        {
            out.push(i);
            proof {
                assert(out@ =~= all_positions(count as nat).take(i + 1));
            }
            i += 1;
        }
        proof {
            assert(all_positions(count as nat).take(count as int) =~= all_positions(count as nat));
        }
        out
    }

    /// The steps that render the feed of the site and the feeds of the
    /// languages that ask for one.
    fn render_feeds(&self) -> (steps: Vec<Step>)
        ensures
            step_views(steps@) == site_feed_plan(*self) + language_feeds_plan(
                *self,
                self.config.languages@.len() as int,
            ),
    {
        let mut steps: Vec<Step> = Vec::new();
        proof {
            assert(step_views(steps@) =~= Seq::<StepView>::empty());
        }
        if self.config.generate_feed {
            let pages = if self.config.is_multilingual() {
                self.pages_of_language(&self.config.default_language)
            } else {
                self.every_page()
            };
            let feed = self.render_feed(
                pages,
                None,
                self.config.default_language.as_str(),
                FeedScope::Site,
            );
            extend(&mut steps, feed);
        }
        let ghost first = site_feed_plan(*self);
        proof {
            assert(step_views(steps@) =~= first + language_feeds_plan(*self, 0));
        }
        let mut i: usize = 0;
        while i < self.config.languages.len()
            invariant
                i <= self.config.languages.len(),
                first == site_feed_plan(*self),
                step_views(steps@) == first + language_feeds_plan(*self, i as int),
            decreases self.config.languages.len() - i,
        {
            let language = &self.config.languages[i];
            if language.feed {
                let feed = self.render_feed(
                    self.pages_of_language(&language.code),
                    Some(language.code.as_str()),
                    language.code.as_str(),
                    FeedScope::Site,
                );
                extend(&mut steps, feed);
                proof {
                    assert(step_views(steps@) =~= first + language_feeds_plan(*self, i + 1));
                }
            }
            i += 1;
        }
        steps
    }

    /// The steps of a build of the site, in the order in which they are to
    /// be taken: the output tree is emptied on a disk; style sheets are
    /// compiled and the search indexes written; the redirects of aliases are
    /// written, then every section with its pages, the pages of no section,
    /// the sitemap, the feeds, the document for what is not found, the
    /// directives for robots and the taxonomies; then images are processed
    /// and static files copied.
    pub fn build(&self) -> (steps: Vec<Step>)
        requires
            self.library.wf(),
        ensures
            step_views(steps@) == build_plan(*self),
    {
        let mut steps: Vec<Step> = Vec::new();
        proof {
            assert(step_views(steps@) =~= Seq::<StepView>::empty());
        }
        match self.build_mode {
            BuildMode::Disk => {
                extend(&mut steps, self.clean());
            },
            BuildMode::Memory => {},
        }
        extend(&mut steps, self.compile_sass());
        if self.config.build_search_index {
            extend(&mut steps, self.build_search_index());
        }
        extend(&mut steps, self.render_aliases());
        extend(&mut steps, self.render_sections());
        extend(&mut steps, self.render_orphan_pages());
        extend(&mut steps, self.render_sitemap());
        extend(&mut steps, self.render_feeds());
        extend(&mut steps, self.render_404());
        extend(&mut steps, self.render_robots());
        extend(&mut steps, self.render_taxonomies());
        extend(&mut steps, self.process_images());
        extend(&mut steps, self.copy_static_directories());
        proof {
            assert(step_views(steps@) =~= build_plan(*self));
        }
        steps
    }

    /// The steps of a build once the templates have been loaded anew: those
    /// of any build.
    pub fn reload_templates(&self) -> (steps: Vec<Step>)
        requires
            self.library.wf(),
        ensures
            step_views(steps@) == build_plan(*self),
    {
        self.build()
    }

    /// `html` with the script that reloads the page, where the site has
    /// pages reload themselves: put in front of the last `</body>`, or at
    /// the end where there is none.
    pub fn inject_livereload(&self, html: String) -> (out: String)
        ensures
            out@ == match self.live_reload {
                Some(port) => injected(html@, livereload_script(port as nat)),
                None => html@,
            },
    {
        match self.live_reload {
            Some(port) => inject(html, port),
            None => html,
        }
    }

    /// The markup of `html`, minified.
    pub fn minify(&self, html: String) -> (r: Result<String, Error>)
        ensures
            match passed(html@, true) {
                Passed::Text(text) => r matches Ok(out) && out@ == text,
                Passed::NotText => r matches Err(Error::MinifiedNotText),
                Passed::Failed(at, why, context) => r matches Err(e) && e.is_minify(
                    at,
                    why,
                    context,
                ),
            },
    {
        minify(html)
    }

    /// Produces the artifact `filename` with `content` at the logical place
    /// `components` of `out`: on the disk or in memory, as the site is
    /// built. The directories on the way are asked for on a disk, and in
    /// memory with `create_dirs`. Markup is minified first where the
    /// settings ask for it; where that fails nothing is written.
    pub fn write_content(
        &self,
        out: &mut Output,
        components: &Vec<String>,
        filename: &str,
        content: String,
        create_dirs: bool,
    ) -> (r: Result<Vec<String>, Error>)
        requires
            old(out).wf(),
        ensures
            final(out).wf(),
            r matches Ok(directory) ==> directory@ == components@,
            written(
                *old(out),
                *final(out),
                self.build_mode,
                self.config.minify_html,
                views(components@),
                filename@,
                content@,
                create_dirs,
                failure(r),
            ),
    {
        out.write(
            self.build_mode,
            self.config.minify_html,
            components,
            filename,
            content,
            create_dirs,
        )
    }
    /// Puts `page` into the site in place of the page with the same source
    /// path, gives the sections their relations anew and gathers the
    /// taxonomies anew. What comes back are the job of rendering the body of
    /// the page and the steps that render the page. It fails on a page that
    /// names a taxonomy that the settings lack; the page is in the site
    /// even then, and the site has no taxonomies.
    pub fn add_and_render_page(&mut self, page: Page) -> (r: Result<(MarkdownJob, Vec<Step>), Error>)
        requires
            old(self).wf(),
        ensures
            final(self).wf(),
            *final(self) == (Site {
                library: final(self).library,
                permalinks: final(self).permalinks,
                taxonomies: final(self).taxonomies,
                ..*old(self)
            }),
            final(self).permalinks@ == old(self).permalinks@.insert(
                page.file.relative@,
                page.permalink@,
            ),
            final(self).library.pages() == with_page(old(self).library.pages(), page),
            same_documents(old(self).library.sections(), final(self).library.sections()),
            final(self).library.linked(
                old(self).content_path@,
                old(self).config.default_language@,
            ),
            match r {
                Ok((job, steps)) => {
                    &&& job@ == page_job(
                        old(self).library.sections(),
                        old(self).config.default_language@,
                        old(self).content_path@,
                        page,
                    )
                    &&& step_views(steps@) == page_plan(page)
                    &&& final(self).taxonomies@.len() == old(self).config.taxonomies@.len()
                    &&& forall|t: int|
                        0 <= t < final(self).taxonomies@.len() ==> is_taxonomy(
                            old(self).config,
                            final(self).library.pages(),
                            old(self).config.taxonomies@[t],
                            #[trigger] final(self).taxonomies@[t],
                        )
                },
                Err(e) => {
                    &&& final(self).taxonomies@.len() == 0
                    &&& old(self).config.taxonomies@.len() > 0
                    &&& first_index(
                        settled(old(self).config, final(self).library.pages()),
                        false,
                    ) matches Some(i)
                    &&& first_index(
                        known_flags(old(self).config, final(self).library.pages()[i]),
                        false,
                    ) matches Some(a)
                    &&& e matches Error::UnknownTaxonomy { page: named, taxonomy }
                    &&& named@ == final(self).library.pages()[i].file.path@
                    &&& taxonomy@ == final(self).library.pages()[i].meta.taxonomies@[a].taxonomy@
                },
            },
    {
        let steps = self.render_page(&page);
        let job = self.add_page(page, true);
        let ghost added = self.library.sections();
        self.populate_sections();
        proof {
            let stored = self.library.sections();
            assert forall|j: int| 0 <= j < stored.len() implies same_document(
                old(self).library.sections()[j],
                stored[j],
            ) by {
                assert(same_document(old(self).library.sections()[j], added[j]));
                assert(same_document(added[j], stored[j]));
            }
        }
        match self.populate_taxonomies() {
            Ok(_) => {},
            Err(e) => {
                return Err(e);
            },
        }
        match job {
            Some(j) => Ok((j, steps)),
            None => unreached(),
        }
    }

    /// Puts `section` into the site in place of the section with the same
    /// source path and gives the sections their relations anew. What comes
    /// back are the job of rendering the body of the section and the steps
    /// that render the section with its pages.
    pub fn add_and_render_section(&mut self, section: Section) -> (r: (MarkdownJob, Vec<Step>))
        requires
            old(self).wf(),
        ensures
            final(self).wf(),
            *final(self) == (Site {
                library: final(self).library,
                permalinks: final(self).permalinks,
                ..*old(self)
            }),
            final(self).permalinks@ == old(self).permalinks@.insert(
                section.file.relative@,
                section.permalink@,
            ),
            final(self).library.pages() == old(self).library.pages(),
            same_documents(
                final(self).library.sections(),
                with_section(old(self).library.sections(), section),
            ),
            final(self).library.linked(
                old(self).content_path@,
                old(self).config.default_language@,
            ),
            r.0@ == (MarkdownJobView::Section { path: section.file.path@ }),
            final(self).library.sections().len() > 0,
            step_views(r.1@) == section_plan(
                *final(self),
                final(self).library.sections().last(),
                true,
            ),
    {
        let job = self.add_section(section, true);
        let ghost added = self.library.sections();
        let ghost model = with_section(old(self).library.sections(), section);
        self.populate_sections();
        let ghost stored = self.library.sections();
        proof {
            assert forall|j: int| 0 <= j < stored.len() implies same_document(
                stored[j],
                model[j],
            ) by {
                assert(same_document(added[j], stored[j]));
                assert(same_document(added[j], model[j]));
            }
            lemma_first_index(section_paths(old(self).library.sections()), section.file.path@);
            assert(model.last() == section);
            assert(same_document(stored[stored.len() - 1], model[stored.len() - 1]));
        }
        let count = self.library.sections_values().len();
        let stored_section = self.library.get_section_by_key(count - 1);
        proof {
            assert(all_below(
                self.library.sections()[count - 1].pages@,
                self.library.pages().len() as int,
            ));
        }
        let steps = self.render_section(stored_section, true);
        match job {
            Some(j) => (j, steps),
            None => unreached(),
        }
    }

    /// What is written for content that was rendered: the content itself,
    /// or with `livereload` the content with the reloading script.
    pub open spec fn delivered(&self, livereload: bool, content: Seq<char>) -> Seq<char> {
        if livereload {
            match self.live_reload {
                Some(port) => injected(content, livereload_script(port as nat)),
                None => content,
            }
        } else {
            content
        }
    }

    /// Takes `step` as far as the output goes. A directory is asked for.
    /// What was rendered for a step that writes is written: at its logical
    /// place, after the reloading script was put in where the step says so,
    /// or straight into the files of the output root for a step that writes
    /// a file. Where nothing was rendered, nothing is written. Every other
    /// step leaves the output as it is: what it asks for lies outside.
    pub fn carry_out(&self, out: &mut Output, step: &Step, rendered: Option<String>) -> (r: Result<
        (),
        Error,
    >)
        requires
            old(out).wf(),
        ensures
            final(out).wf(),
            match (*step, rendered) {
                (Step::Directory { components }, _) => {
                    &&& r.is_ok()
                    &&& final(out).files == old(out).files
                    &&& final(out).content == old(out).content
                    &&& directory_views(final(out).directories@) == directory_views(
                        old(out).directories@,
                    ).push(views(components@))
                },
                (Step::File { source, filename }, Some(content)) => {
                    &&& r.is_ok()
                    &&& final(out).directories == old(out).directories
                    &&& final(out).content == old(out).content
                    &&& file_views(final(out).files@) == file_views(old(out).files@).push(
                        (Seq::<Seq<char>>::empty(), filename@, content@),
                    )
                },
                (
                    Step::Render { source, components, filename, create_dirs, livereload },
                    Some(content),
                ) => written(
                    *old(out),
                    *final(out),
                    self.build_mode,
                    self.config.minify_html,
                    views(components@),
                    filename@,
                    self.delivered(livereload, content@),
                    create_dirs,
                    failure(r),
                ),
                _ => {
                    &&& r.is_ok()
                    &&& final(out).directories == old(out).directories
                    &&& final(out).files == old(out).files
                    &&& final(out).content == old(out).content
                },
            },
    {
        match step {
            Step::Directory { components } => {
                let directory = copy_strings(components);
                proof {
                    assert(directory_views(out.directories@.push(directory)) =~= directory_views(
                        out.directories@,
                    ).push(views(components@)));
                }
                out.directories.push(directory);
                Ok(())
            },
            Step::File { source, filename } => {
                match rendered {
                    Some(content) => {
                        let file = OutputFile {
                            components: Vec::new(),
                            filename: filename.clone(),
                            content,
                        };
                        proof {
                            assert(views(Seq::<String>::empty()) =~= Seq::<Seq<char>>::empty());
                            assert(file_views(out.files@.push(file)) =~= file_views(
                                out.files@,
                            ).push((Seq::<Seq<char>>::empty(), filename@, content@)));
                        }
                        out.files.push(file);
                    },
                    None => {},
                }
                Ok(())
            },
            Step::Render { source, components, filename, create_dirs, livereload } => {
                match rendered {
                    Some(content) => {
                        let content = if *livereload {
                            self.inject_livereload(content)
                        } else {
                            content
                        };
                        match self.write_content(
                            out,
                            components,
                            filename.as_str(),
                            content,
                            *create_dirs,
                        ) {
                            Ok(_) => Ok(()),
                            Err(e) => Err(e),
                        }
                    },
                    None => Ok(()),
                }
            },
            _ => Ok(()),
        }
    }
}

} // verus!
