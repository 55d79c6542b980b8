use site::pagination::{copy_keys, Pager, Paginator};
use site::plan::PaginationRoot;

fn paginator(count: usize, by: usize, path: &str, is_index: bool) -> Paginator {
    Paginator::new(
        PaginationRoot::Section { path: "site/content/blog/_index.md".to_string() },
        (10..10 + count).collect(),
        by,
        "https://example.org/blog/".to_string(),
        path.to_string(),
        "page".to_string(),
        is_index,
    )
}

#[test]
fn pages_are_cut_into_pagers_of_the_given_size() {
    let p = paginator(5, 2, "/blog/", false);
    assert_eq!(
        p.pagers,
        vec![
            Pager {
                index: 1,
                permalink: "https://example.org/blog/".to_string(),
                path: "/blog/".to_string(),
                pages: vec![10, 11],
            },
            Pager {
                index: 2,
                permalink: "https://example.org/blog/page/2/".to_string(),
                path: "/blog/page/2/".to_string(),
                pages: vec![12, 13],
            },
            Pager {
                index: 3,
                permalink: "https://example.org/blog/page/3/".to_string(),
                path: "/blog/page/3/".to_string(),
                pages: vec![14],
            },
        ]
    );
    assert_eq!(p.paginate_by, 2);
    assert_eq!(p.all_pages, vec![10, 11, 12, 13, 14]);
}

#[test]
fn pager_count_is_the_quotient_rounded_up() {
    assert_eq!(paginator(0, 3, "/blog/", false).pagers.len(), 0);
    assert_eq!(paginator(1, 3, "/blog/", false).pagers.len(), 1);
    assert_eq!(paginator(3, 3, "/blog/", false).pagers.len(), 1);
    assert_eq!(paginator(4, 3, "/blog/", false).pagers.len(), 2);
    assert_eq!(paginator(6, 3, "/blog/", false).pagers.len(), 2);
    assert_eq!(paginator(7, 3, "/blog/", false).pagers.len(), 3);
    assert_eq!(paginator(7, 1, "/blog/", false).pagers.len(), 7);
    assert_eq!(paginator(7, 100, "/blog/", false).pagers.len(), 1);
}

#[test]
fn pagers_laid_end_to_end_give_the_pages_again() {
    for (count, by) in [(0, 1), (1, 1), (5, 2), (6, 2), (7, 3), (10, 10), (11, 10)] {
        let p = paginator(count, by, "/blog/", false);
        let joined: Vec<usize> = p.pagers.iter().flat_map(|pager| pager.pages.clone()).collect();
        assert_eq!(joined, p.all_pages);
        for (i, pager) in p.pagers.iter().enumerate() {
            assert_eq!(pager.index, i + 1);
            assert!(pager.pages.len() <= by);
            assert!(!pager.pages.is_empty());
        }
    }
}

#[test]
fn pager_paths_follow_what_is_paginated() {
    let root = paginator(3, 1, "/", true);
    assert_eq!(root.pagers[0].path, "/");
    assert_eq!(root.pagers[1].path, "page/2/");
    assert_eq!(root.pagers[2].path, "page/3/");
    let bare = paginator(3, 1, "tags/rust", false);
    assert_eq!(bare.pagers[0].path, "tags/rust");
    assert_eq!(bare.pagers[1].path, "tags/rust/page/2/");
    let many = paginator(12, 1, "/blog/", false);
    assert_eq!(many.pagers[11].path, "/blog/page/12/");
    assert_eq!(many.pagers[11].permalink, "https://example.org/blog/page/12/");
}

#[test]
fn keys_are_copied_in_order() {
    assert_eq!(copy_keys(&vec![3, 1, 2]), vec![3, 1, 2]);
    assert_eq!(copy_keys(&Vec::new()), Vec::<usize>::new());
}
