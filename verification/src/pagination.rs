//! Pagination: a list of pages cut into pagers of a fixed size.

use vstd::arithmetic::div_mod::{lemma_fundamental_div_mod, lemma_mod_pos_bound};
use vstd::prelude::*;
use vstd::string::*;
use crate::content::Section;
use crate::plan::{PaginationRoot, PaginationRootView};
use crate::taxonomy::{Taxonomy, Term};
use crate::text::{decimal, decimal_string, ends_with};

verus! {

/// One page of a paginated listing.
#[derive(Debug, Clone, PartialEq, Eq)]
pub struct Pager {
    /// The number of the pager; the first is 1.
    pub index: usize,
    pub permalink: String,
    /// The output path, relative to the site's root.
    pub path: String,
    /// The pages listed, by their positions in the library.
    pub pages: Vec<usize>,
}

/// A list of pages, cut into pagers.
#[derive(Debug, Clone, PartialEq, Eq)]
pub struct Paginator {
    /// What is paginated.
    pub root: PaginationRoot,
    /// The pages of all pagers, by their positions in the library.
    pub all_pages: Vec<usize>,
    pub pagers: Vec<Pager>,
    /// How many pages a pager holds; the last may hold fewer.
    pub paginate_by: usize,
    /// The permalink of what is paginated, which is that of the first pager.
    pub permalink: String,
    /// The output path of what is paginated.
    pub path: String,
    /// The path component under which numbered pagers lie.
    pub paginate_path: String,
    /// Whether the root section of a language is paginated.
    pub is_index: bool,
}

/// How many pagers `count` pages fill, `size` to a pager: the quotient,
/// rounded up.
pub open spec fn pager_count(count: int, size: int) -> int {
    if count % size == 0 {
        count / size
    } else {
        count / size + 1
    }
}

/// Where pager `i` (counted from 0) begins in a list of `count` pages.
pub open spec fn pager_start(count: int, size: int, i: int) -> int {
    if i * size <= count {
        i * size
    } else {
        count
    }
}

/// The share of pager `i` (counted from 0) in what is paginated.
pub open spec fn pager_pages<T>(all: Seq<T>, size: int, i: int) -> Seq<T> {
    all.subrange(pager_start(all.len() as int, size, i), pager_start(all.len() as int, size, i + 1))
}

/// The shares of the first `n` pagers, laid end to end.
pub open spec fn pages_through<T>(all: Seq<T>, size: int, n: int) -> Seq<T>
    decreases n,
{
    if n <= 0 {
        Seq::empty()
    } else {
        pages_through(all, size, n - 1) + pager_pages(all, size, n - 1)
    }
}

/// The path below what is paginated at which the pager numbered `index` lies.
pub open spec fn numbered(paginate_path: Seq<char>, index: int) -> Seq<char> {
    paginate_path + seq!['/'] + decimal(index as nat) + seq!['/']
}

/// The permalink of the pager numbered `index`.
pub open spec fn pager_permalink(permalink: Seq<char>, paginate_path: Seq<char>, index: int) -> Seq<
    char,
> {
    if index <= 1 {
        permalink
    } else {
        permalink + numbered(paginate_path, index)
    }
}

/// The output path of the pager numbered `index`.
pub open spec fn pager_path(
    path: Seq<char>,
    paginate_path: Seq<char>,
    is_index: bool,
    index: int,
) -> Seq<char> {
    if index <= 1 {
        path
    } else if is_index {
        numbered(paginate_path, index)
    } else if seq!['/'].is_suffix_of(path) {
        path + numbered(paginate_path, index)
    } else {
        path + seq!['/'] + numbered(paginate_path, index)
    }
}

/// One more pager begins one pager size further on.
pub proof fn lemma_times_next(i: int, size: int)
    ensures
        (i + 1) * size == i * size + size,
{
    assert((i + 1) * size == i * size + size) by (nonlinear_arith);
}

/// A later pager begins at least one pager size further on.
pub proof fn lemma_times_step(a: int, b: int, size: int)
    requires
        0 < size,
        a < b,
    ensures
        a * size + size <= b * size,
{
    assert(a * size + size <= b * size) by (nonlinear_arith)
        requires
            0 < size,
            a + 1 <= b,
    ;
}

/// The number of pagers is the only `c` with `(c - 1) * size < count <= c * size`.
pub proof fn lemma_pager_count(count: int, size: int, c: int)
    requires
        0 <= count,
        0 < size,
        0 <= c,
        count <= c * size,
        c > 0 ==> (c - 1) * size < count,
    ensures
        c == pager_count(count, size),
{
    lemma_fundamental_div_mod(count, size);
    lemma_mod_pos_bound(count, size);
    let q = count / size;
    let r = count % size;
    assert(count == size * q + r);
    if c < q {
        lemma_times_step(c, q, size);
        assert(size * q == q * size) by (nonlinear_arith);
    }
    if r == 0 {
        if c > q {
            lemma_times_step(q, c, size);
            lemma_times_next(c - 1, size);
            assert(size * q == q * size) by (nonlinear_arith);
        }
    } else {
        if c == q {
            assert(size * q == q * size) by (nonlinear_arith);
        }
        if c > q + 1 {
            lemma_times_step(q + 1, c, size);
            lemma_times_next(c - 1, size);
            lemma_times_next(q, size);
            assert(size * q == q * size) by (nonlinear_arith);
        }
    }
}

/// The shares of the pagers, laid end to end in order, give what was
/// paginated again: each item once, where it stood.
pub proof fn lemma_pagers_cover<T>(all: Seq<T>, size: int)
    requires
        0 < size,
    ensures
        pages_through(all, size, pager_count(all.len() as int, size)) == all,
{
    let count = all.len() as int;
    let c = pager_count(count, size);
    lemma_fundamental_div_mod(count, size);
    lemma_mod_pos_bound(count, size);
    assert(size * (count / size) == (count / size) * size) by (nonlinear_arith);
    lemma_times_next(count / size, size);
    assert(0 <= count / size) by (nonlinear_arith)
        requires
            0 <= count,
            0 < size,
            count == size * (count / size) + count % size,
            0 <= count % size < size,
    ;
    assert(c * size >= count);
    lemma_pages_through(all, size, c);
    assert(all.subrange(0, count) =~= all);
}

/// The shares of the first `n` pagers are what stands before the start of
/// pager `n`.
proof fn lemma_pages_through<T>(all: Seq<T>, size: int, n: int)
    requires
        0 < size,
        0 <= n,
    ensures
        pages_through(all, size, n) == all.subrange(0, pager_start(all.len() as int, size, n)),
    decreases n,
{
    let count = all.len() as int;
    if n == 0 {
        assert(0 * size == 0) by (nonlinear_arith);
        assert(pages_through(all, size, 0) =~= all.subrange(0, 0));
    } else {
        lemma_pages_through(all, size, n - 1);
        lemma_times_next(n - 1, size);
        assert(0 <= (n - 1) * size) by (nonlinear_arith)
            requires
                0 <= n - 1,
                0 < size,
        ;
        let lo = pager_start(count, size, n - 1);
        let hi = pager_start(count, size, n);
        assert(0 <= lo <= hi <= count);
        assert(all.subrange(0, lo) + all.subrange(lo, hi) =~= all.subrange(0, hi));
    }
}

impl Paginator {
    /// The pagers are what the list of pages and the pager size give: as
    /// many as the pages fill, numbered from 1, each with its share of the
    /// pages, its permalink and its output path.
    pub open spec fn wf(&self) -> bool {
        &&& self.paginate_by > 0
        &&& self.pagers@.len() == pager_count(self.all_pages@.len() as int, self.paginate_by as int)
        &&& forall|i: int|
            0 <= i < self.pagers@.len() ==> (#[trigger] self.pagers@[i]).index == i + 1
        &&& forall|i: int|
            0 <= i < self.pagers@.len() ==> (#[trigger] self.pagers@[i]).pages@ == pager_pages(
                self.all_pages@,
                self.paginate_by as int,
                i,
            )
        &&& forall|i: int|
            0 <= i < self.pagers@.len() ==> (#[trigger] self.pagers@[i]).permalink@
                == pager_permalink(self.permalink@, self.paginate_path@, i + 1)
        &&& forall|i: int|
            0 <= i < self.pagers@.len() ==> (#[trigger] self.pagers@[i]).path@ == pager_path(
                self.path@,
                self.paginate_path@,
                self.is_index,
                i + 1,
            )
    }

    /// Cuts `all_pages` into pagers of `paginate_by` pages.
    pub fn new(
        root: PaginationRoot,
        all_pages: Vec<usize>,
        paginate_by: usize,
        permalink: String,
        path: String,
        paginate_path: String,
        is_index: bool,
    ) -> (r: Paginator)
        requires
            paginate_by > 0,
        ensures
            r.wf(),
            r.root == root,
            r.all_pages == all_pages,
            r.paginate_by == paginate_by,
            r.permalink == permalink,
            r.path == path,
            r.paginate_path == paginate_path,
            r.is_index == is_index,
    {
        let count = all_pages.len();
        let ends_in_slash = ends_with(path.as_str(), "/");
        proof {
            reveal_strlit("/");
            assert("/"@ =~= seq!['/']);
            assert(0 * (paginate_by as int) == 0) by (nonlinear_arith);
        }
        let mut pagers: Vec<Pager> = Vec::new();
        let mut start: usize = 0;
        while start < count
            invariant
                paginate_by > 0,
                count == all_pages@.len(),
                start <= count,
                ends_in_slash == seq!['/'].is_suffix_of(path@),
                start == pager_start(count as int, paginate_by as int, pagers@.len() as int),
                pagers@.len() * paginate_by <= start + paginate_by,
                pagers@.len() > 0 ==> (pagers@.len() - 1) * paginate_by < count,
                pagers@.len() <= start,
                forall|i: int| 0 <= i < pagers@.len() ==> (#[trigger] pagers@[i]).index == i + 1,
                forall|i: int|
                    0 <= i < pagers@.len() ==> (#[trigger] pagers@[i]).pages@ == pager_pages(
                        all_pages@,
                        paginate_by as int,
                        i,
                    ),
                forall|i: int|
                    0 <= i < pagers@.len() ==> (#[trigger] pagers@[i]).permalink@ == pager_permalink(
                        permalink@,
                        paginate_path@,
                        i + 1,
                    ),
                forall|i: int|
                    0 <= i < pagers@.len() ==> (#[trigger] pagers@[i]).path@ == pager_path(
                        path@,
                        paginate_path@,
                        is_index,
                        i + 1,
                    ),
            decreases count - start,
        {
            let ghost done = pagers@.len() as int;
            proof {
                lemma_times_next(done, paginate_by as int);
                assert(start == done * paginate_by);
            }
            let end = if count - start > paginate_by {
                start + paginate_by
            } else {
                count
            };
            let mut pages: Vec<usize> = Vec::new();
            let mut k: usize = start;
            while k < end
                invariant
                    start <= k <= end <= count,
                    count == all_pages@.len(),
                    pages@ == all_pages@.subrange(start as int, k as int),
                decreases end - k,
            {
                pages.push(all_pages[k]);
                proof {
                    assert(all_pages@.subrange(start as int, k + 1) =~= all_pages@.subrange(
                        start as int,
                        k as int,
                    ).push(all_pages@[k as int]));
                }
                k += 1;
            }
            let index = pagers.len() + 1;
            let pager = if index == 1 {
                Pager { index, permalink: permalink.clone(), path: path.clone(), pages }
            } else {
                let mut tail = paginate_path.clone();
                tail.append("/");
                let number = decimal_string(index);
                tail.append(number.as_str());
                tail.append("/");
                proof {
                    reveal_strlit("/");
                    assert("/"@ =~= seq!['/']);
                    assert(tail@ =~= numbered(paginate_path@, index as int));
                }
                let mut pager_permalink = permalink.clone();
                pager_permalink.append(tail.as_str());
                let pager_path = if is_index {
                    tail
                } else if ends_in_slash {
                    let mut p = path.clone();
                    p.append(tail.as_str());
                    p
                } else {
                    let mut p = path.clone();
                    p.append("/");
                    p.append(tail.as_str());
                    p
                };
                Pager { index, permalink: pager_permalink, path: pager_path, pages }
            };
            proof {
                assert(end == pager_start(count as int, paginate_by as int, done + 1));
            }
            pagers.push(pager);
            start = end;
        }
        proof {
            lemma_pager_count(count as int, paginate_by as int, pagers@.len() as int);
        }
        Paginator { root, all_pages, pagers, paginate_by, permalink, path, paginate_path, is_index }
    }

    /// The pagers of a section that asks for pagination.
    pub fn from_section(section: &Section) -> (r: Paginator)
        requires
            section.meta.paginated(),
        ensures
            r.wf(),
            r.root@ == (PaginationRootView::Section { path: section.file.path@ }),
            r.all_pages@ == section.pages@,
            Some(r.paginate_by) == section.meta.paginate_by,
            r.permalink == section.permalink,
            r.path == section.path,
            r.paginate_path == section.meta.paginate_path,
            r.is_index == section.index(),
    {
        let size = match section.meta.paginate_by {
            Some(n) => n,
            None => 1,
        };
        Paginator::new(
            PaginationRoot::Section { path: section.file.path.clone() },
            copy_keys(&section.pages),
            size,
            section.permalink.clone(),
            section.path.clone(),
            section.meta.paginate_path.clone(),
            section.is_index(),
        )
    }

    /// The pagers of a term of a taxonomy that asks for pagination.
    pub fn from_taxonomy(taxonomy: &Taxonomy, term: &Term) -> (r: Paginator)
        requires
            taxonomy.kind.paginated(),
        ensures
            r.wf(),
            r.root@ == (PaginationRootView::Term {
                taxonomy: taxonomy.kind.name@,
                lang: taxonomy.kind.lang@,
                term: term.name@,
            }),
            r.all_pages@ == term.pages@,
            Some(r.paginate_by) == taxonomy.kind.paginate_by,
            r.permalink == term.permalink,
            r.path@ == taxonomy.kind.slug@ + seq!['/'] + term.slug@,
            r.paginate_path == taxonomy.kind.paginate_path,
            !r.is_index,
    {
        let size = match taxonomy.kind.paginate_by {
            Some(n) => n,
            None => 1,
        };
        proof {
            reveal_strlit("/");
            assert("/"@ =~= seq!['/']);
        }
        let mut path = taxonomy.kind.slug.clone();
        path.append("/");
        path.append(term.slug.as_str());
        Paginator::new(
            PaginationRoot::Term {
                taxonomy: taxonomy.kind.name.clone(),
                lang: taxonomy.kind.lang.clone(),
                term: term.name.clone(),
            },
            copy_keys(&term.pages),
            size,
            term.permalink.clone(),
            path,
            taxonomy.kind.paginate_path.clone(),
            false,
        )
    }
}

/// The pages of the first `n` of `pagers`, laid end to end.
pub open spec fn listed_through(pagers: Seq<Pager>, n: int) -> Seq<usize>
    decreases n,
{
    if n <= 0 {
        Seq::empty()
    } else {
        listed_through(pagers, n - 1) + pagers[n - 1].pages@
    }
}

/// The pagers of a paginator, laid end to end in order, hold the pages that
/// were paginated: each once, where it stood.
pub proof fn lemma_paginator_covers(paginator: Paginator)
    requires
        paginator.wf(),
    ensures
        listed_through(paginator.pagers@, paginator.pagers@.len() as int) == paginator.all_pages@,
{
    lemma_pagers_cover(paginator.all_pages@, paginator.paginate_by as int);
    lemma_listed_through(paginator, paginator.pagers@.len() as int);
}

/// The first `n` pagers of a paginator hold the first `n` shares.
proof fn lemma_listed_through(paginator: Paginator, n: int)
    requires
        paginator.wf(),
        0 <= n <= paginator.pagers@.len(),
    ensures
        listed_through(paginator.pagers@, n) == pages_through(
            paginator.all_pages@,
            paginator.paginate_by as int,
            n,
        ),
    decreases n,
{
    if n > 0 {
        lemma_listed_through(paginator, n - 1);
        assert(paginator.pagers@[n - 1].pages@ == pager_pages(
            paginator.all_pages@,
            paginator.paginate_by as int,
            n - 1,
        ));
    }
}

/// A copy of a list of positions.
pub fn copy_keys(keys: &Vec<usize>) -> (out: Vec<usize>)
    ensures
        out@ == keys@,
{
    let mut out: Vec<usize> = Vec::new();
    let mut i: usize = 0;
    while i < keys.len()
        invariant
            i <= keys.len(),
            out@ == keys@.take(i as int),
        decreases keys.len() - i,
    {
        out.push(keys[i]);
        proof {
            assert(keys@.take(i + 1) =~= keys@.take(i as int).push(keys@[i as int]));
        }
        i += 1;
    }
    proof {
        assert(keys@.take(keys.len() as int) =~= keys@);
    }
    out
}

} // verus!
