//! The core of a static site generator: the documents of a site and the
//! relations between them, and the order in which a site is built.
//!
//! A [`site::Site`] holds the settings and the [`library::Library`] of pages
//! and sections. Loading puts the parsed documents into the library, gives
//! every language a root section, links sections to their pages and gathers
//! the taxonomies. Building lays down the [`plan::Step`]s to take: what to
//! ask the renderer for, and where to write what comes back. Writing goes
//! through an [`output::Output`], which stands for the output tree on a disk
//! or for the content that a preview server keeps in memory.
//!
//! Reading files, rendering templates and touching the disk are left to the
//! caller. The functions here are verified against their contracts; the few
//! that call the `minify-html`, `url` and `relative-path` crates say in
//! their comments what is taken on trust.

use vstd::prelude::*;

pub mod config;
pub mod content;
pub mod errors;
pub mod library;
pub mod output;
pub mod pagination;
pub mod paths;
pub mod pipeline;
pub mod plan;
pub mod render;
pub mod seqs;
pub mod site;
pub mod sitemap;
pub mod store;
pub mod taxonomy;
pub mod text;

verus! {

/// Where the rendered site goes.
#[derive(Debug, Clone, Copy, PartialEq, Eq, Structural)]
pub enum BuildMode {
    /// Onto the filesystem, under the output path.
    Disk,
    /// Into the in-memory content map that a preview server reads.
    Memory,
}

} // verus!
