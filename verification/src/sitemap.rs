//! The sitemap: one entry for each document that is rendered, in one file
//! or, where the entries are too many for one, in several files and an index
//! of them.

use vstd::prelude::*;
use vstd::string::*;
use crate::config::{Config, TaxonomyConfig};
use crate::content::{Page, Section};
use crate::pagination::{
    lemma_pager_count, lemma_pagers_cover, lemma_times_next, pager_count, pager_pages, pager_start,
    pages_through,
};
use crate::plan::{
    entry_views, lemma_entry_views_push, lemma_entry_views_subrange, lemma_step_views_push,
    step_views, SitemapEntry, SitemapEntryView, Source, SourceView, Step, StepView,
};
use crate::render::root_directory;
use crate::site::Site;
use crate::taxonomy::Taxonomy;
use crate::text::{decimal, decimal_string, drop_last_char, lemma_views_push, views};

verus! {

/// How many entries a sitemap may hold. The protocol sets this limit.
pub const SITEMAP_LIMIT: usize = 30000;

/// The entry of a page: its permalink and its date.
pub open spec fn page_entry(page: Page) -> SitemapEntryView {
    SitemapEntryView {
        permalink: page.permalink@,
        date: match page.meta.date {
            Some(d) => Some(d@),
            None => None,
        },
    }
}

/// An entry without a date.
pub open spec fn plain_entry(permalink: Seq<char>) -> SitemapEntryView {
    SitemapEntryView { permalink, date: None }
}

/// The entries of the pages.
pub open spec fn page_entries(pages: Seq<Page>) -> Seq<SitemapEntryView> {
    Seq::new(pages.len(), |i: int| page_entry(pages[i]))
}

/// For each section, whether it is rendered.
pub open spec fn rendered(sections: Seq<Section>) -> Seq<bool> {
    Seq::new(sections.len(), |i: int| sections[i].meta.render)
}

/// The entries of the first `n` sections: one for each that is rendered.
pub open spec fn section_entries(sections: Seq<Section>, n: int) -> Seq<SitemapEntryView>
    decreases n,
{
    if n <= 0 {
        Seq::empty()
    } else if sections[n - 1].meta.render {
        section_entries(sections, n - 1).push(plain_entry(sections[n - 1].permalink@))
    } else {
        section_entries(sections, n - 1)
    }
}

/// The output path of the list of the terms of a taxonomy, before it is
/// made a permalink.
pub open spec fn taxonomy_path(default_language: Seq<char>, kind: TaxonomyConfig) -> Seq<char> {
    if kind.lang@ != default_language {
        seq!['/'] + kind.lang@ + seq!['/'] + kind.slug@
    } else {
        seq!['/'] + kind.slug@
    }
}

/// The entries of the first `n` terms of a taxonomy.
pub open spec fn term_entries(taxonomy: Taxonomy, n: int) -> Seq<SitemapEntryView>
    decreases n,
{
    if n <= 0 {
        Seq::empty()
    } else {
        term_entries(taxonomy, n - 1).push(plain_entry(taxonomy.items@[n - 1].permalink@))
    }
}

/// The entries of a taxonomy: none where it has no term, else one for the
/// list of its terms and one for each term.
pub open spec fn taxonomy_entries(config: Config, taxonomy: Taxonomy) -> Seq<SitemapEntryView> {
    if taxonomy.items@.len() == 0 {
        Seq::empty()
    } else {
        seq![
            plain_entry(config.permalink(taxonomy_path(config.default_language@, taxonomy.kind))),
        ] + term_entries(taxonomy, taxonomy.items@.len() as int)
    }
}

/// The entries of the first `n` taxonomies.
pub open spec fn taxonomies_entries(config: Config, taxonomies: Seq<Taxonomy>, n: int) -> Seq<
    SitemapEntryView,
>
    decreases n,
{
    if n <= 0 {
        Seq::empty()
    } else {
        taxonomies_entries(config, taxonomies, n - 1) + taxonomy_entries(config, taxonomies[n - 1])
    }
}

/// The entries of the sitemap of a site: its pages, its rendered sections,
/// and its taxonomies with their terms.
pub open spec fn sitemap_entries(site: Site) -> Seq<SitemapEntryView> {
    page_entries(site.library.pages()) + section_entries(
        site.library.sections(),
        site.library.sections().len() as int,
    ) + taxonomies_entries(site.config, site.taxonomies@, site.taxonomies@.len() as int)
}

/// The name of the sitemap file numbered `number`.
pub open spec fn sitemap_name(number: int) -> Seq<char> {
    "sitemap"@ + decimal(number as nat) + ".xml"@
}

/// The step that writes a sitemap of `entries` as `filename`.
pub open spec fn sitemap_step(entries: Seq<SitemapEntryView>, filename: Seq<char>) -> StepView {
    StepView::Render {
        source: SourceView::Sitemap { entries },
        components: Seq::empty(),
        filename,
        create_dirs: false,
        livereload: false,
    }
}

/// The steps that write the first `n` numbered sitemaps, each with its
/// share of the entries.
pub open spec fn numbered_sitemaps(entries: Seq<SitemapEntryView>, n: int) -> Seq<StepView>
    decreases n,
{
    if n <= 0 {
        Seq::empty()
    } else {
        numbered_sitemaps(entries, n - 1).push(
            sitemap_step(pager_pages(entries, SITEMAP_LIMIT as int, n - 1), sitemap_name(n)),
        )
    }
}

/// The address of the sitemap file numbered `number`: its permalink
/// without the slash at the end.
pub open spec fn sitemap_address(config: Config, number: int) -> Seq<char> {
    let permalink = config.permalink(sitemap_name(number));
    if permalink.len() == 0 {
        permalink
    } else {
        permalink.drop_last()
    }
}

/// The addresses of the first `n` numbered sitemaps.
pub open spec fn sitemap_addresses(config: Config, n: int) -> Seq<Seq<char>>
    decreases n,
{
    if n <= 0 {
        Seq::empty()
    } else {
        sitemap_addresses(config, n - 1).push(sitemap_address(config, n))
    }
}

/// The step that writes the index of the first `n` numbered sitemaps.
pub open spec fn sitemap_index_step(config: Config, n: int) -> StepView {
    StepView::Render {
        source: SourceView::SitemapIndex { sitemaps: sitemap_addresses(config, n) },
        components: Seq::empty(),
        filename: "sitemap.xml"@,
        create_dirs: false,
        livereload: false,
    }
}

/// The steps that write the sitemap of `entries`: one file where they are
/// fewer than the limit, else numbered files of at most the limit each and
/// an index of these files.
pub open spec fn sitemap_plan(config: Config, entries: Seq<SitemapEntryView>) -> Seq<StepView> {
    if entries.len() < SITEMAP_LIMIT {
        seq![root_directory(), sitemap_step(entries, "sitemap.xml"@)]
    } else {
        seq![root_directory()] + numbered_sitemaps(
            entries,
            pager_count(entries.len() as int, SITEMAP_LIMIT as int),
        ).push(sitemap_index_step(config, pager_count(entries.len() as int, SITEMAP_LIMIT as int)))
    }
}

/// How many files hold the entries of a sitemap of `count` entries.
pub open spec fn sitemap_files(count: int) -> int {
    if count < SITEMAP_LIMIT {
        1
    } else {
        pager_count(count, SITEMAP_LIMIT as int)
    }
}

/// A sitemap that is split has a step for each numbered file and then the
/// step for the index; the index lists the address of each numbered file,
/// in order; and the numbered files, laid end to end, hold the entries.
pub proof fn lemma_split_sitemap(config: Config, entries: Seq<SitemapEntryView>, i: int)
    requires
        entries.len() >= SITEMAP_LIMIT,
        0 <= i < sitemap_files(entries.len() as int),
    ensures
        sitemap_plan(config, entries).len() == sitemap_files(entries.len() as int) + 2,
        sitemap_plan(config, entries)[i + 1] == sitemap_step(
            pager_pages(entries, SITEMAP_LIMIT as int, i),
            sitemap_name(i + 1),
        ),
        sitemap_plan(config, entries).last() == sitemap_index_step(
            config,
            sitemap_files(entries.len() as int),
        ),
        sitemap_addresses(config, sitemap_files(entries.len() as int)).len() == sitemap_files(
            entries.len() as int,
        ),
        sitemap_addresses(config, sitemap_files(entries.len() as int))[i] == sitemap_address(
            config,
            i + 1,
        ),
        pages_through(entries, SITEMAP_LIMIT as int, sitemap_files(entries.len() as int))
            == entries,
{
    let count = sitemap_files(entries.len() as int);
    lemma_numbered(entries, count, i);
    lemma_addresses(config, count, i);
    lemma_pagers_cover(entries, SITEMAP_LIMIT as int);
}

/// The numbered sitemap `i` holds its share under its name.
proof fn lemma_numbered(entries: Seq<SitemapEntryView>, n: int, i: int)
    requires
        0 <= i < n,
    ensures
        numbered_sitemaps(entries, n).len() == n,
        numbered_sitemaps(entries, n)[i] == sitemap_step(
            pager_pages(entries, SITEMAP_LIMIT as int, i),
            sitemap_name(i + 1),
        ),
    decreases n,
{
    lemma_numbered_len(entries, n - 1);
    if i < n - 1 {
        lemma_numbered(entries, n - 1, i);
    }
}

/// There are as many numbered sitemaps as were asked for.
proof fn lemma_numbered_len(entries: Seq<SitemapEntryView>, n: int)
    requires
        0 <= n,
    ensures
        numbered_sitemaps(entries, n).len() == n,
    decreases n,
{
    if n > 0 {
        lemma_numbered_len(entries, n - 1);
    }
}

/// The address at position `i` is that of the sitemap numbered `i + 1`.
proof fn lemma_addresses(config: Config, n: int, i: int)
    requires
        0 <= i < n,
    ensures
        sitemap_addresses(config, n).len() == n,
        sitemap_addresses(config, n)[i] == sitemap_address(config, i + 1),
    decreases n,
{
    lemma_addresses_len(config, n - 1);
    if i < n - 1 {
        lemma_addresses(config, n - 1, i);
    }
}

/// There are as many addresses as numbered sitemaps.
proof fn lemma_addresses_len(config: Config, n: int)
    requires
        0 <= n,
    ensures
        sitemap_addresses(config, n).len() == n,
    decreases n,
{
    if n > 0 {
        lemma_addresses_len(config, n - 1);
    }
}

impl Site {
    /// The entries of the sitemap: one for each page, for each section that
    /// is rendered, for each taxonomy that has terms and for each of its
    /// terms.
    pub fn find_entries(&self) -> (entries: Vec<SitemapEntry>)
        ensures
            entry_views(entries@) == sitemap_entries(*self),
    {
        let pages = self.library.pages_values();
        let sections = self.library.sections_values();
        let mut entries: Vec<SitemapEntry> = Vec::new();
        let mut i: usize = 0;
        while i < pages.len()
            invariant
                i <= pages.len(),
                pages@ == self.library.pages(),
                entry_views(entries@) == page_entries(pages@).take(i as int),
            decreases pages.len() - i,
        {
            let entry = SitemapEntry {
                permalink: pages[i].permalink.clone(),
                date: match &pages[i].meta.date {
                    Some(d) => Some(d.clone()),
                    None => None,
                },
            };
            proof {
                lemma_entry_views_push(entries@, entry);
                assert(entry@ == page_entry(pages@[i as int]));
                assert(page_entries(pages@).take(i + 1) =~= page_entries(pages@).take(
                    i as int,
                ).push(page_entry(pages@[i as int])));
            }
            entries.push(entry);
            i += 1;
        }
        let ghost first = page_entries(pages@);
        proof {
            assert(page_entries(pages@).take(pages@.len() as int) =~= first);
            assert(first + section_entries(sections@, 0) =~= first);
        }
        let mut k: usize = 0;
        while k < sections.len()
            invariant
                k <= sections.len(),
                sections@ == self.library.sections(),
                entry_views(entries@) == first + section_entries(sections@, k as int),
            decreases sections.len() - k,
        {
            if sections[k].meta.render {
                let entry = SitemapEntry { permalink: sections[k].permalink.clone(), date: None };
                proof {
                    lemma_entry_views_push(entries@, entry);
                    assert(entry@ == plain_entry(sections@[k as int].permalink@));
                    assert(entry_views(entries@).push(entry@) =~= first + section_entries(
                        sections@,
                        k + 1,
                    ));
                }
                entries.push(entry);
            }
            k += 1;
        }
        let ghost second = first + section_entries(sections@, sections@.len() as int);
        proof {
            assert(second + taxonomies_entries(self.config, self.taxonomies@, 0) =~= second);
        }
        let mut t: usize = 0;
        while t < self.taxonomies.len()
            invariant
                t <= self.taxonomies.len(),
                entry_views(entries@) == second + taxonomies_entries(
                    self.config,
                    self.taxonomies@,
                    t as int,
                ),
            decreases self.taxonomies.len() - t,
        {
            let taxonomy = &self.taxonomies[t];
            let ghost before = entry_views(entries@);
            if taxonomy.items.len() > 0 {
                proof {
                    reveal_strlit("/");
                    assert("/"@ =~= seq!['/']);
                }
                let mut path = "/".to_owned();
                if !(taxonomy.kind.lang == self.config.default_language) {
                    path.append(taxonomy.kind.lang.as_str());
                    path.append("/");
                }
                path.append(taxonomy.kind.slug.as_str());
                proof {
                    assert(path@ =~= taxonomy_path(self.config.default_language@, taxonomy.kind));
                }
                let entry = SitemapEntry {
                    permalink: self.config.make_permalink(path.as_str()),
                    date: None,
                };
                proof {
                    lemma_entry_views_push(entries@, entry);
                    assert(entry_views(entries@).push(entry@) =~= before + seq![entry@]
                        + term_entries(*taxonomy, 0));
                }
                entries.push(entry);
                let ghost head = before + seq![entry@];
                let mut m: usize = 0;
                while m < taxonomy.items.len()
                    invariant
                        m <= taxonomy.items.len(),
                        entry_views(entries@) == head + term_entries(*taxonomy, m as int),
                    decreases taxonomy.items.len() - m,
                {
                    let term = SitemapEntry {
                        permalink: taxonomy.items[m].permalink.clone(),
                        date: None,
                    };
                    proof {
                        lemma_entry_views_push(entries@, term);
                        assert(term@ == plain_entry(taxonomy.items@[m as int].permalink@));
                        assert(entry_views(entries@).push(term@) =~= head + term_entries(
                            *taxonomy,
                            m + 1,
                        ));
                    }
                    entries.push(term);
                    m += 1;
                }
                proof {
                    assert(entry_views(entries@) =~= before + taxonomy_entries(
                        self.config,
                        *taxonomy,
                    ));
                }
            } else {
                proof {
                    assert(before + taxonomy_entries(self.config, *taxonomy) =~= before);
                }
            }
            proof {
                assert(entry_views(entries@) =~= second + taxonomies_entries(
                    self.config,
                    self.taxonomies@,
                    t + 1,
                ));
            }
            t += 1;
        }
        entries
    }

    /// The steps that write the sitemap of the site.
    pub fn render_sitemap(&self) -> (steps: Vec<Step>)
        ensures
            step_views(steps@) == sitemap_plan(self.config, sitemap_entries(*self)),
    {
        let entries = self.find_entries();
        self.render_sitemap_of(entries)
    }

    /// The steps that write a sitemap of `entries`: one file where they
    /// are fewer than the limit, else numbered files that hold the entries
    /// in order, at most the limit in each, and an index that lists the
    /// address of each numbered file.
    pub fn render_sitemap_of(&self, entries: Vec<SitemapEntry>) -> (steps: Vec<Step>)
        ensures
            step_views(steps@) == sitemap_plan(self.config, entry_views(entries@)),
    {
        let ghost all = entry_views(entries@);
        let count = entries.len();
        let mut steps: Vec<Step> = Vec::new();
        steps.push(Step::Directory { components: Vec::new() });
        proof {
            assert(views(Seq::<String>::empty()) =~= Seq::<Seq<char>>::empty());
            assert(step_views(steps@) =~= seq![root_directory()]);
        }
        if count < SITEMAP_LIMIT {
            let step = Step::Render {
                source: Source::Sitemap { entries },
                components: Vec::new(),
                filename: "sitemap.xml".to_owned(),
                create_dirs: false,
                livereload: false,
            };
            proof {
                lemma_step_views_push(steps@, step);
                assert(step_views(steps@.push(step)) =~= sitemap_plan(self.config, all));
            }
            steps.push(step);
            return steps;
        }
        let mut rest = entries;
        let mut addresses: Vec<String> = Vec::new();
        let mut start: usize = 0;
        let mut done: usize = 0;
        proof {
            assert(0 * (SITEMAP_LIMIT as int) == 0) by (nonlinear_arith);
            assert(all.subrange(0, count as int) =~= all);
            assert(views(addresses@) =~= sitemap_addresses(self.config, 0));
            assert(step_views(steps@) =~= seq![root_directory()] + numbered_sitemaps(all, 0));
        }
        while start < count
            invariant
                count == all.len(),
                start <= count,
                done <= start,
                start == pager_start(count as int, SITEMAP_LIMIT as int, done as int),
                done > 0 ==> (done - 1) * SITEMAP_LIMIT < count,
                entry_views(rest@) == all.subrange(start as int, count as int),
                rest@.len() == count - start,
                views(addresses@) == sitemap_addresses(self.config, done as int),
                step_views(steps@) == seq![root_directory()] + numbered_sitemaps(all, done as int),
            decreases count - start,
        {
            proof {
                lemma_times_next(done as int, SITEMAP_LIMIT as int);
                assert(start == done * SITEMAP_LIMIT);
            }
            let end = if count - start > SITEMAP_LIMIT {
                start + SITEMAP_LIMIT
            } else {
                count
            };
            let ghost left = rest@;
            let tail = if count - start > SITEMAP_LIMIT {
                rest.split_off(SITEMAP_LIMIT)
            } else {
                Vec::new()
            };
            let share = rest;
            rest = tail;
            proof {
                assert(end == pager_start(count as int, SITEMAP_LIMIT as int, done + 1));
                if count - start > SITEMAP_LIMIT {
                    lemma_entry_views_subrange(left, 0, SITEMAP_LIMIT as int);
                    lemma_entry_views_subrange(left, SITEMAP_LIMIT as int, left.len() as int);
                    assert(all.subrange(start as int, count as int).subrange(
                        0,
                        SITEMAP_LIMIT as int,
                    ) =~= all.subrange(start as int, end as int));
                    assert(all.subrange(start as int, count as int).subrange(
                        SITEMAP_LIMIT as int,
                        left.len() as int,
                    ) =~= all.subrange(end as int, count as int));
                } else {
                    assert(entry_views(rest@) =~= all.subrange(end as int, count as int));
                }
                assert(entry_views(share@) == pager_pages(all, SITEMAP_LIMIT as int, done as int));
                assert(entry_views(rest@) == all.subrange(end as int, count as int));
            }
            let mut name = "sitemap".to_owned();
            let number = decimal_string(done + 1);
            name.append(number.as_str());
            name.append(".xml");
            let permalink = self.config.make_permalink(name.as_str());
            let address = drop_last_char(permalink.as_str());
            proof {
                lemma_views_push(addresses@, address);
                assert(name@ =~= sitemap_name(done + 1));
            }
            addresses.push(address);
            let step = Step::Render {
                source: Source::Sitemap { entries: share },
                components: Vec::new(),
                filename: name,
                create_dirs: false,
                livereload: false,
            };
            proof {
                lemma_step_views_push(steps@, step);
                assert(views(Seq::<String>::empty()) =~= Seq::<Seq<char>>::empty());
                assert(step@ == sitemap_step(
                    pager_pages(all, SITEMAP_LIMIT as int, done as int),
                    sitemap_name(done + 1),
                ));
                assert(step_views(steps@).push(step@) =~= seq![root_directory()]
                    + numbered_sitemaps(all, done + 1));
            }
            steps.push(step);
            start = end;
            done += 1;
        }
        proof {
            lemma_pager_count(count as int, SITEMAP_LIMIT as int, done as int);
        }
        let index = Step::Render {
            source: Source::SitemapIndex { sitemaps: addresses },
            components: Vec::new(),
            filename: "sitemap.xml".to_owned(),
            create_dirs: false,
            livereload: false,
        };
        proof {
            lemma_step_views_push(steps@, index);
            assert(step_views(steps@.push(index)) =~= sitemap_plan(self.config, all));
        }
        steps.push(index);
        steps
    }
}

} // verus!
