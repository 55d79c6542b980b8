//! Source paths: how a directory and a name make a path, and where the
//! index file of a directory lies for each language.

use vstd::prelude::*;
use vstd::string::*;
use crate::text::{join, join_with, lemma_views_push, split, split_on, str_eq, views};

verus! {

/// The path of `name` inside `dir`: the two with one slash between them,
/// unless `dir` is empty or brings the slash along.
pub open spec fn joined(dir: Seq<char>, name: Seq<char>) -> Seq<char> {
    if dir.len() == 0 || dir.last() == '/' {
        dir + name
    } else {
        dir + seq!['/'] + name
    }
}

/// The name of the index file of a directory, for the language `lang`.
pub open spec fn index_name(lang: Seq<char>, default_language: Seq<char>) -> Seq<char> {
    if lang == default_language {
        "_index.md"@
    } else {
        "_index."@ + lang + ".md"@
    }
}

/// The path at which the section of directory `dir` lies for `lang`.
pub open spec fn section_path(dir: Seq<char>, lang: Seq<char>, default_language: Seq<char>) -> Seq<
    char,
> {
    joined(dir, index_name(lang, default_language))
}

/// The directory reached from `base` by descending through the first `depth`
/// of `components`.
pub open spec fn descend(base: Seq<char>, components: Seq<Seq<char>>, depth: int) -> Seq<char>
    decreases depth,
{
    if depth <= 0 {
        base
    } else {
        joined(descend(base, components, depth - 1), components[depth - 1])
    }
}

/// What follows the last slash of `path`; all of it where there is none.
pub open spec fn last_segment(path: Seq<char>) -> Seq<char> {
    split(path, '/').last()
}

/// The directory that holds `path`: what stands before its last slash.
/// A path without a slash has none.
pub open spec fn parent_directory(path: Seq<char>) -> Option<Seq<char>> {
    let pieces = split(path, '/');
    if pieces.len() <= 1 {
        None
    } else {
        Some(join(pieces.drop_last(), seq!['/']))
    }
}

/// A file name without its extension: what stands before its last dot, and
/// all of it where it has no dot.
pub open spec fn stem(filename: Seq<char>) -> Seq<char> {
    let pieces = split(filename, '.');
    if pieces.len() <= 1 {
        filename
    } else {
        join(pieces.drop_last(), seq!['.'])
    }
}

/// The directory that holds `path`.
pub fn parent_of(path: &str) -> (out: Option<String>)
    ensures
        match out {
            Some(dir) => parent_directory(path@) == Some(dir@),
            None => parent_directory(path@).is_none(),
        },
{
    let mut pieces = split_on(path, '/');
    if pieces.len() <= 1 {
        return None;
    }
    let ghost all = views(pieces@);
    pieces.pop();
    proof {
        reveal_strlit("/");
        assert("/"@ =~= seq!['/']);
        assert(views(pieces@) =~= all.drop_last());
    }
    Some(join_with(&pieces, "/"))
}

/// The file name `filename` without its extension.
pub fn stem_of(filename: &str) -> (out: String)
    ensures
        out@ == stem(filename@),
{
    let mut pieces = split_on(filename, '.');
    if pieces.len() <= 1 {
        return filename.to_owned();
    }
    let ghost all = views(pieces@);
    pieces.pop();
    proof {
        reveal_strlit(".");
        assert("."@ =~= seq!['.']);
        assert(views(pieces@) =~= all.drop_last());
    }
    join_with(&pieces, ".")
}

/// The pieces of `pieces` that are not empty, among the first `n`.
pub open spec fn filled(pieces: Seq<Seq<char>>, n: int) -> Seq<Seq<char>>
    decreases n,
{
    if n <= 0 {
        Seq::empty()
    } else if pieces[n - 1].len() == 0 {
        filled(pieces, n - 1)
    } else {
        filled(pieces, n - 1).push(pieces[n - 1])
    }
}

/// The directories that `path` names, one after the other.
pub open spec fn segments(path: Seq<char>) -> Seq<Seq<char>> {
    filled(split(path, '/'), split(path, '/').len() as int)
}

/// The path of `name` inside `dir`.
pub fn join_path(dir: &str, name: &str) -> (out: String)
    ensures
        out@ == joined(dir@, name@),
{
    proof {
        reveal_strlit("/");
    }
    let mut out = dir.to_owned();
    let n = dir.unicode_len();
    if n > 0 && dir.get_char(n - 1) != '/' {
        out.append("/");
        assert("/"@ =~= seq!['/']);
    }
    out.append(name);
    out
}

/// The name of the index file of a directory, for the language `lang`.
pub fn index_filename(lang: &str, default_language: &str) -> (out: String)
    ensures
        out@ == index_name(lang@, default_language@),
{
    if str_eq(lang, default_language) {
        "_index.md".to_owned()
    } else {
        let mut out = "_index.".to_owned();
        out.append(lang);
        out.append(".md");
        out
    }
}

/// The path at which the section of directory `dir` lies for `lang`.
pub fn section_path_of(dir: &str, lang: &str, default_language: &str) -> (out: String)
    ensures
        out@ == section_path(dir@, lang@, default_language@),
{
    let name = index_filename(lang, default_language);
    join_path(dir, name.as_str())
}

/// What follows the last slash of `path`.
pub fn file_name(path: &str) -> (out: String)
    ensures
        out@ == last_segment(path@),
{
    let mut pieces = split_on(path, '/');
    let ghost before = pieces@;
    let last = pieces.pop();
    match last {
        Some(s) => {
            assert(views(before).last() == s@);
            s
        },
        None => String::new(),
    }
}

/// The pieces of `path` that are not empty: the directories that it names.
pub fn segments_of(path: &str) -> (out: Vec<String>)
    ensures
        views(out@) == segments(path@),
{
    let pieces = split_on(path, '/');
    let mut out: Vec<String> = Vec::new();
    let mut i: usize = 0;
    proof {
        assert(views(out@) =~= filled(views(pieces@), 0));
    }
    while i < pieces.len()
        invariant
            i <= pieces.len(),
            views(pieces@) == split(path@, '/'),
            views(out@) == filled(views(pieces@), i as int),
        decreases pieces.len() - i,
    {
        proof {
            assert(views(pieces@)[i as int] == pieces@[i as int]@);
        }
        if pieces[i].as_str().unicode_len() > 0 {
            let piece = pieces[i].clone();
            proof {
                lemma_views_push(out@, piece);
            }
            out.push(piece);
        }
        i += 1;
    }
    proof {
        assert(views(pieces@).len() == pieces@.len());
    }
    out
}

} // verus!
