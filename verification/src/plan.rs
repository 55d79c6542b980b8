//! What a build does, step by step.
//!
//! Rendering a template, reading a collaborator and touching the output tree
//! are not done here. The functions that drive a build return the steps to
//! take, in order; each step that needs content says what to ask the
//! renderer for and where what comes back is to be written.

use vstd::prelude::*;
use vstd::string::*;
use crate::content::InsertAnchor;
use crate::text::views;

verus! {

/// What a list of pagers paginates.
#[derive(Debug, Clone, PartialEq, Eq)]
pub enum PaginationRoot {
    /// The section with this source path.
    Section { path: String },
    /// The term named `term` of the taxonomy named `taxonomy` for `lang`.
    Term { taxonomy: String, lang: String, term: String },
}

/// What a feed is a feed of.
#[derive(Debug, Clone, PartialEq, Eq)]
pub enum FeedScope {
    /// The whole site, or all of one language.
    Site,
    /// The section with this source path.
    Section { path: String },
    /// The term named `term` of the taxonomy named `taxonomy` for `lang`.
    Term { taxonomy: String, lang: String, term: String },
}

/// One entry of a sitemap.
#[derive(Debug, Clone, PartialEq, Eq)]
pub struct SitemapEntry {
    pub permalink: String,
    /// When the document was last changed, where that is known.
    pub date: Option<String>,
}

/// What the renderer is asked for.
#[derive(Debug, Clone, PartialEq, Eq)]
pub enum Source {
    /// The page with this source path.
    Page { path: String },
    /// The section with this source path.
    Section { path: String },
    /// A document that sends the reader on to `permalink`.
    Redirect { permalink: String },
    /// The pager numbered `index` of what `root` names.
    Pager { root: PaginationRoot, index: usize },
    /// The list of all terms of a taxonomy.
    TaxonomyList { taxonomy: String, lang: String },
    /// The list of the pages of one term.
    TaxonomyTerm { taxonomy: String, lang: String, term: String },
    /// A feed of the pages at these positions of the library.
    Feed { scope: FeedScope, lang: String, pages: Vec<usize> },
    /// A sitemap of these entries.
    Sitemap { entries: Vec<SitemapEntry> },
    /// The index that lists the sitemaps at these addresses.
    SitemapIndex { sitemaps: Vec<String> },
    /// The document shown for what is not found.
    NotFound,
    /// The directives for robots.
    Robots,
    /// The search index of one language, as a script.
    SearchIndex { lang: String },
    /// The script that searches an index.
    SearchRuntime,
}

/// One thing that a build does.
#[derive(Debug, Clone, PartialEq, Eq)]
pub enum Step {
    /// Empty the output tree, if there is one.
    Clean,
    /// Have the directory `components` below the output root.
    Directory { components: Vec<String> },
    /// Compile the style sheets below `from` into the output tree. With
    /// `if_present`, only where `from` has a directory of them.
    CompileSass { from: String, if_present: bool },
    /// Ask the renderer for `source` and write what comes back as
    /// `filename` at the logical place `components`. With `livereload`, the
    /// content gets the reloading script first, where a preview asks for it.
    Render {
        source: Source,
        components: Vec<String>,
        filename: String,
        create_dirs: bool,
        livereload: bool,
    },
    /// Ask the renderer for `source` and write what comes back as
    /// `filename` into the output root of the disk, whatever the build mode.
    File { source: Source, filename: String },
    /// Copy the file `from` into the directory `components` as `name`.
    CopyAsset { from: String, components: Vec<String>, name: String },
    /// Copy the directory `from` into the output root. With `if_present`,
    /// only where `from` exists.
    CopyDirectory { from: String, hard_link: bool, if_present: bool },
    /// Let the image processor drop stale work and do what is pending.
    ProcessImages,
}

/// A body that the markdown renderer is asked to render.
#[derive(Debug, Clone, PartialEq, Eq)]
pub enum MarkdownJob {
    /// The body of the page with this source path, with heading anchors as
    /// `insert_anchor` says.
    Page { path: String, insert_anchor: InsertAnchor },
    /// The body of the section with this source path.
    Section { path: String },
}

/// What a [`MarkdownJob`] holds, as contracts speak of it.
pub enum MarkdownJobView {
    Page { path: Seq<char>, insert_anchor: InsertAnchor },
    Section { path: Seq<char> },
}

impl View for MarkdownJob {
    type V = MarkdownJobView;

    open spec fn view(&self) -> MarkdownJobView {
        match self {
            MarkdownJob::Page { path, insert_anchor } => MarkdownJobView::Page {
                path: path@,
                insert_anchor: *insert_anchor,
            },
            MarkdownJob::Section { path } => MarkdownJobView::Section { path: path@ },
        }
    }
}

/// The views of a list of jobs.
pub open spec fn job_views(jobs: Seq<MarkdownJob>) -> Seq<MarkdownJobView> {
    Seq::new(jobs.len(), |i: int| jobs[i]@)
}

/// What a [`PaginationRoot`] holds, as contracts speak of it.
pub enum PaginationRootView {
    Section { path: Seq<char> },
    Term { taxonomy: Seq<char>, lang: Seq<char>, term: Seq<char> },
}

/// What a [`FeedScope`] holds, as contracts speak of it.
pub enum FeedScopeView {
    Site,
    Section { path: Seq<char> },
    Term { taxonomy: Seq<char>, lang: Seq<char>, term: Seq<char> },
}

/// What a [`SitemapEntry`] holds, as contracts speak of it.
pub struct SitemapEntryView {
    pub permalink: Seq<char>,
    pub date: Option<Seq<char>>,
}

/// What a [`Source`] holds, as contracts speak of it.
pub enum SourceView {
    Page { path: Seq<char> },
    Section { path: Seq<char> },
    Redirect { permalink: Seq<char> },
    Pager { root: PaginationRootView, index: int },
    TaxonomyList { taxonomy: Seq<char>, lang: Seq<char> },
    TaxonomyTerm { taxonomy: Seq<char>, lang: Seq<char>, term: Seq<char> },
    Feed { scope: FeedScopeView, lang: Seq<char>, pages: Seq<usize> },
    Sitemap { entries: Seq<SitemapEntryView> },
    SitemapIndex { sitemaps: Seq<Seq<char>> },
    NotFound,
    Robots,
    SearchIndex { lang: Seq<char> },
    SearchRuntime,
}

/// What a [`Step`] holds, as contracts speak of it.
pub enum StepView {
    Clean,
    Directory { components: Seq<Seq<char>> },
    CompileSass { from: Seq<char>, if_present: bool },
    Render {
        source: SourceView,
        components: Seq<Seq<char>>,
        filename: Seq<char>,
        create_dirs: bool,
        livereload: bool,
    },
    File { source: SourceView, filename: Seq<char> },
    CopyAsset { from: Seq<char>, components: Seq<Seq<char>>, name: Seq<char> },
    CopyDirectory { from: Seq<char>, hard_link: bool, if_present: bool },
    ProcessImages,
}

impl View for PaginationRoot {
    type V = PaginationRootView;

    open spec fn view(&self) -> PaginationRootView {
        match self {
            PaginationRoot::Section { path } => PaginationRootView::Section { path: path@ },
            PaginationRoot::Term { taxonomy, lang, term } => PaginationRootView::Term {
                taxonomy: taxonomy@,
                lang: lang@,
                term: term@,
            },
        }
    }
}

impl View for FeedScope {
    type V = FeedScopeView;

    open spec fn view(&self) -> FeedScopeView {
        match self {
            FeedScope::Site => FeedScopeView::Site,
            FeedScope::Section { path } => FeedScopeView::Section { path: path@ },
            FeedScope::Term { taxonomy, lang, term } => FeedScopeView::Term {
                taxonomy: taxonomy@,
                lang: lang@,
                term: term@,
            },
        }
    }
}

impl View for SitemapEntry {
    type V = SitemapEntryView;

    open spec fn view(&self) -> SitemapEntryView {
        SitemapEntryView {
            permalink: self.permalink@,
            date: match self.date {
                Some(d) => Some(d@),
                None => None,
            },
        }
    }
}

/// The views of a list with one more entry.
pub proof fn lemma_entry_views_push(entries: Seq<SitemapEntry>, entry: SitemapEntry)
    ensures
        entry_views(entries.push(entry)) == entry_views(entries).push(entry@),
{
    assert(entry_views(entries.push(entry)) =~= entry_views(entries).push(entry@));
}

/// The views of a part of a list are that part of the views.
pub proof fn lemma_entry_views_subrange(entries: Seq<SitemapEntry>, from: int, to: int)
    requires
        0 <= from <= to <= entries.len(),
    ensures
        entry_views(entries.subrange(from, to)) == entry_views(entries).subrange(from, to),
{
    assert(entry_views(entries.subrange(from, to)) =~= entry_views(entries).subrange(from, to));
}

impl PaginationRoot {
    /// A copy of the root.
    pub fn duplicate(&self) -> (r: PaginationRoot)
        ensures
            r == *self,
    {
        match self {
            PaginationRoot::Section { path } => PaginationRoot::Section { path: path.clone() },
            PaginationRoot::Term { taxonomy, lang, term } => PaginationRoot::Term {
                taxonomy: taxonomy.clone(),
                lang: lang.clone(),
                term: term.clone(),
            },
        }
    }
}

/// The views of a list of sitemap entries.
pub open spec fn entry_views(entries: Seq<SitemapEntry>) -> Seq<SitemapEntryView> {
    Seq::new(entries.len(), |i: int| entries[i]@)
}

impl View for Source {
    type V = SourceView;

    open spec fn view(&self) -> SourceView {
        match self {
            Source::Page { path } => SourceView::Page { path: path@ },
            Source::Section { path } => SourceView::Section { path: path@ },
            Source::Redirect { permalink } => SourceView::Redirect { permalink: permalink@ },
            Source::Pager { root, index } => SourceView::Pager { root: root@, index: *index as int },
            Source::TaxonomyList { taxonomy, lang } => SourceView::TaxonomyList {
                taxonomy: taxonomy@,
                lang: lang@,
            },
            Source::TaxonomyTerm { taxonomy, lang, term } => SourceView::TaxonomyTerm {
                taxonomy: taxonomy@,
                lang: lang@,
                term: term@,
            },
            Source::Feed { scope, lang, pages } => SourceView::Feed {
                scope: scope@,
                lang: lang@,
                pages: pages@,
            },
            Source::Sitemap { entries } => SourceView::Sitemap { entries: entry_views(entries@) },
            Source::SitemapIndex { sitemaps } => SourceView::SitemapIndex {
                sitemaps: views(sitemaps@),
            },
            Source::NotFound => SourceView::NotFound,
            Source::Robots => SourceView::Robots,
            Source::SearchIndex { lang } => SourceView::SearchIndex { lang: lang@ },
            Source::SearchRuntime => SourceView::SearchRuntime,
        }
    }
}

impl View for Step {
    type V = StepView;

    open spec fn view(&self) -> StepView {
        match self {
            Step::Clean => StepView::Clean,
            Step::Directory { components } => StepView::Directory { components: views(components@) },
            Step::CompileSass { from, if_present } => StepView::CompileSass {
                from: from@,
                if_present: *if_present,
            },
            Step::Render { source, components, filename, create_dirs, livereload } => StepView::Render {
                source: source@,
                components: views(components@),
                filename: filename@,
                create_dirs: *create_dirs,
                livereload: *livereload,
            },
            Step::File { source, filename } => StepView::File { source: source@, filename: filename@ },
            Step::CopyAsset { from, components, name } => StepView::CopyAsset {
                from: from@,
                components: views(components@),
                name: name@,
            },
            Step::CopyDirectory { from, hard_link, if_present } => StepView::CopyDirectory {
                from: from@,
                hard_link: *hard_link,
                if_present: *if_present,
            },
            Step::ProcessImages => StepView::ProcessImages,
        }
    }
}

/// The views of a list of steps.
pub open spec fn step_views(steps: Seq<Step>) -> Seq<StepView> {
    Seq::new(steps.len(), |i: int| steps[i]@)
}

/// The views of a list with one more step.
pub proof fn lemma_step_views_push(steps: Seq<Step>, step: Step)
    ensures
        step_views(steps.push(step)) == step_views(steps).push(step@),
{
    assert(step_views(steps.push(step)) =~= step_views(steps).push(step@));
}

/// The views of two lists laid end to end.
pub proof fn lemma_step_views_add(a: Seq<Step>, b: Seq<Step>)
    ensures
        step_views(a + b) == step_views(a) + step_views(b),
{
    assert(step_views(a + b) =~= step_views(a) + step_views(b));
}

/// Moves the steps of `more` to the end of `steps`.
pub fn extend(steps: &mut Vec<Step>, more: Vec<Step>)
    ensures
        step_views(final(steps)@) == step_views(old(steps)@) + step_views(more@),
{
    let mut more = more;
    let ghost all = more@;
    proof {
        lemma_step_views_add(steps@, more@);
    }
    steps.append(&mut more);
}

/// The step to begin with: the first, if there is one.
pub fn first_step(steps: &Vec<Step>) -> (first: Option<usize>)
    ensures
        first == if steps@.len() == 0 {
            None::<usize>
        } else {
            Some(0usize)
        },
{
    if steps.len() == 0 {
        None
    } else {
        Some(0)
    }
}

/// The step that comes after the step at `at`, which has been taken and
/// has failed or not. A build stops at the first step that fails: nothing
/// comes after it. Nothing comes after the last step either.
pub fn next_step(steps: &Vec<Step>, at: usize, failed: bool) -> (next: Option<usize>)
    requires
        at < steps@.len(),
    ensures
        next == if failed || at + 1 >= steps@.len() {
            None::<usize>
        } else {
            Some((at + 1) as usize)
        },
{
    let count = steps.len();
    if failed || at >= count - 1 {
        None
    } else {
        Some(at + 1)
    }
}

} // verus!
