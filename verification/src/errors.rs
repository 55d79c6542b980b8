//! What can stop a build.

use vstd::prelude::*;
use vstd::string::*;
use crate::text::{decimal, decimal_string, join, join_with, views};

verus! {

/// A failure that ends the build. None is recovered from.
#[derive(Debug, Clone, PartialEq, Eq)]
pub enum Error {
    /// Several documents claim one permalink. Each entry holds the permalink
    /// and the documents that claim it.
    Collisions { found: Vec<(String, Vec<String>)> },
    /// The settings ask for a search index, and the root section of the
    /// default language keeps itself out of it.
    SearchIndexDisabled,
    /// A page declares terms in a taxonomy that the settings do not have for
    /// the page's language.
    UnknownTaxonomy { page: String, taxonomy: String },
    /// The name of a file gives a language that the settings do not have.
    UnknownLanguage { path: String, code: String },
    /// A document links to a document that the site does not have.
    BrokenLink { document: String, target: String },
    /// The markup could not be minified: where the minifier gave up, what it
    /// says of it, and the markup around that place set out for reading.
    /// The last two are missing where what the minifier hands over for them
    /// is no text.
    Minify { position: usize, message: Option<String>, code_context: Option<String> },
    /// What minifying left is not text.
    MinifiedNotText,
    /// A logical path has no key in the in-memory content.
    NoContentKey { path: String },
}

/// The text that reports a root section that refuses the search index.
pub open spec fn search_report() -> Seq<char> {
    "The settings ask for a search index, but the root section keeps itself out of it: turn the search index off in the settings, or take `in_search_index = false` out of the front matter of the root section."@
}

/// The view of a text that may be missing.
pub open spec fn optional_view(text: Option<String>) -> Option<Seq<char>> {
    match text {
        Some(t) => Some(t@),
        None => None,
    }
}

/// The text that reports a failed minification: the position, then the
/// message and the context as far as there are any.
pub open spec fn minify_report(
    position: nat,
    message: Option<Seq<char>>,
    code_context: Option<Seq<char>>,
) -> Seq<char> {
    "Failed to truncate html at character "@ + decimal(position) + (match message {
        Some(m) => ": "@ + m,
        None => Seq::empty(),
    }) + (match code_context {
        Some(c) => " \n "@ + c,
        None => Seq::empty(),
    })
}

/// The text that reports an unknown taxonomy.
pub open spec fn taxonomy_report(page: Seq<char>, taxonomy: Seq<char>) -> Seq<char> {
    "Page `"@ + page + "` has taxonomy `"@ + taxonomy + "` which is not defined in config.toml"@
}

/// The text that reports an unknown language.
pub open spec fn language_report(path: Seq<char>, code: Seq<char>) -> Seq<char> {
    "File `"@ + path + "` has a language code of `"@ + code
        + "` which is not among the languages of the settings"@
}

/// The text that reports a broken link.
pub open spec fn link_report(document: Seq<char>, target: Seq<char>) -> Seq<char> {
    "Relative link "@ + target + " not found in "@ + document
}

/// The line that reports one collision.
pub open spec fn collision_line(permalink: Seq<char>, documents: Seq<Seq<char>>) -> Seq<char> {
    "- `"@ + permalink + "` from files "@ + join(documents, ", "@) + "\n"@
}

/// The lines that report the first `n` collisions.
pub open spec fn collision_lines(found: Seq<(String, Vec<String>)>, n: int) -> Seq<char>
    decreases n,
{
    if n <= 0 {
        Seq::empty()
    } else {
        collision_lines(found, n - 1) + collision_line(found[n - 1].0@, views(found[n - 1].1@))
    }
}

impl Error {
    /// The failure is a failed minification at the position `at`, with this
    /// message and this context.
    pub open spec fn is_minify(
        &self,
        at: int,
        why: Option<Seq<char>>,
        context: Option<Seq<char>>,
    ) -> bool {
        &&& self matches Error::Minify { position, message, code_context }
        &&& position == at
        &&& optional_view(*message) == why
        &&& optional_view(*code_context) == context
    }

    /// What the failure is, in words.
    pub open spec fn report(&self) -> Seq<char> {
        match self {
            Error::Collisions { found } => "Found path collisions:\n"@ + collision_lines(
                found@,
                found@.len() as int,
            ),
            Error::SearchIndexDisabled => search_report(),
            Error::UnknownTaxonomy { page, taxonomy } => taxonomy_report(page@, taxonomy@),
            Error::UnknownLanguage { path, code } => language_report(path@, code@),
            Error::BrokenLink { document, target } => link_report(document@, target@),
            Error::Minify { position, message, code_context } => minify_report(
                *position as nat,
                optional_view(*message),
                optional_view(*code_context),
            ),
            Error::MinifiedNotText => "Failed to convert bytes to string"@,
            Error::NoContentKey { path } => "No content key for `"@ + path@ + "`"@,
        }
    }

    /// What the failure is, in words.
    pub fn message(&self) -> (out: String)
        ensures
            out@ == self.report(),
    {
        match self {
            Error::Collisions { found } => {
                let mut out = "Found path collisions:\n".to_owned();
                let mut i: usize = 0;
                while i < found.len()
                    invariant
                        i <= found.len(),
                        out@ == "Found path collisions:\n"@ + collision_lines(found@, i as int),
                    decreases found.len() - i,
                {
                    let ghost before = out@;
                    let documents = join_with(&found[i].1, ", ");
                    out.append("- `");
                    out.append(found[i].0.as_str());
                    out.append("` from files ");
                    out.append(documents.as_str());
                    out.append("\n");
                    proof {
                        assert(out@ =~= before + collision_line(
                            found@[i as int].0@,
                            views(found@[i as int].1@),
                        ));
                        assert(out@ =~= "Found path collisions:\n"@ + collision_lines(
                            found@,
                            i + 1,
                        ));
                    }
                    i += 1;
                }
                out
            },
            Error::SearchIndexDisabled => "The settings ask for a search index, but the root section keeps itself out of it: turn the search index off in the settings, or take `in_search_index = false` out of the front matter of the root section.".to_owned(),
            Error::UnknownTaxonomy { page, taxonomy } => {
                let mut out = "Page `".to_owned();
                out.append(page.as_str());
                out.append("` has taxonomy `");
                out.append(taxonomy.as_str());
                out.append("` which is not defined in config.toml");
                out
            },
            Error::UnknownLanguage { path, code } => {
                let mut out = "File `".to_owned();
                out.append(path.as_str());
                out.append("` has a language code of `");
                out.append(code.as_str());
                out.append("` which is not among the languages of the settings");
                out
            },
            Error::BrokenLink { document, target } => {
                let mut out = "Relative link ".to_owned();
                out.append(target.as_str());
                out.append(" not found in ");
                out.append(document.as_str());
                out
            },
            Error::Minify { position, message, code_context } => {
                let mut out = "Failed to truncate html at character ".to_owned();
                let at = decimal_string(*position);
                out.append(at.as_str());
                let ghost first = out@;
                match message {
                    Some(m) => {
                        out.append(": ");
                        out.append(m.as_str());
                        proof {
                            assert(out@ =~= first + (": "@ + m@));
                        }
                    },
                    None => {
                        proof {
                            assert(out@ =~= first + Seq::<char>::empty());
                        }
                    },
                }
                let ghost second = out@;
                match code_context {
                    Some(c) => {
                        out.append(" \n ");
                        out.append(c.as_str());
                        proof {
                            assert(out@ =~= second + (" \n "@ + c@));
                        }
                    },
                    None => {
                        proof {
                            assert(out@ =~= second + Seq::<char>::empty());
                        }
                    },
                }
                out
            },
            Error::MinifiedNotText => "Failed to convert bytes to string".to_owned(),
            Error::NoContentKey { path } => {
                let mut out = "No content key for `".to_owned();
                out.append(path.as_str());
                out.append("`");
                out
            },
        }
    }
}

} // verus!
