//! Materialization: where a rendered document goes, and what is done to its
//! content on the way.
//!
//! A build either fills the directories and files of an output tree or puts
//! content into the in-memory store. Both are recorded in an [`Output`]; a
//! caller that builds onto a disk carries the recorded directories and files
//! out afterwards.

use vstd::prelude::*;
use vstd::string::*;
use vstd::utf8::{decode_utf8, encode_utf8, encode_utf8_decode_utf8, valid_utf8};
use crate::errors::{optional_view, Error};
use crate::paths::{segments, segments_of};
use crate::store::TextMap;
use crate::text::{
    copy_prefix, copy_strings, decimal, decimal_string, ends_with, join, join_with, last_occurrence,
    rfind, str_eq, trim_start, trim_start_matches, views,
};
use crate::BuildMode;

verus! {

/// A file of the output tree.
#[derive(Debug, Clone, PartialEq, Eq)]
pub struct OutputFile {
    /// The directories from the output root down to the file.
    pub components: Vec<String>,
    pub filename: String,
    pub content: String,
}

/// What a build has produced so far.
#[derive(Debug)]
pub struct Output {
    /// The directories asked for below the output root, each by its
    /// components, in the order of asking. The root itself has none.
    pub directories: Vec<Vec<String>>,
    /// The files written, in the order of writing. Where two have the same
    /// place, the later one stands.
    pub files: Vec<OutputFile>,
    /// The content kept in memory.
    pub content: TextMap,
}

/// Why markup could not be minified, as the minifier hands it over. The
/// message and the context come as bytes: the minifier makes them of its
/// buffer without looking whether they are text.
#[derive(Debug, Clone, PartialEq, Eq)]
pub struct MinifyFailure {
    /// Where in the markup the minifier gave up.
    pub position: usize,
    pub message: Vec<u8>,
    /// The markup around that place, set out for reading.
    pub code_context: Vec<u8>,
}

/// What `minify_html::with_friendly_error` makes of the markup `code` with
/// scripts left alone: the buffer as it leaves it together with the length
/// of the minified markup at its start, or the position of its error with
/// the bytes of the message and of the context.
pub uninterp spec fn minified(code: Seq<u8>) -> Result<(Seq<u8>, int), (int, Seq<u8>, Seq<u8>)>;

/// The path of the URL `url` as `url::Url::parse` and `Url::path` give it, if
/// the URL parses.
pub uninterp spec fn url_path_of(url: Seq<char>) -> Option<Seq<char>>;

/// A relative path with `other` pushed onto it: a slash that `other` begins
/// with is dropped, and a slash is put between the two unless the path is
/// empty or ends in one.
pub open spec fn pushed(base: Seq<char>, other: Seq<char>) -> Seq<char> {
    let tail = if other.len() > 0 && other[0] == '/' {
        other.drop_first()
    } else {
        other
    };
    if base.len() > 0 && base.last() != '/' {
        base + seq!['/'] + tail
    } else {
        base + tail
    }
}

/// The logical path of the first `n` components.
pub open spec fn pushed_all(components: Seq<Seq<char>>, n: int) -> Seq<char>
    decreases n,
{
    if n <= 0 {
        Seq::empty()
    } else {
        pushed(pushed_all(components, n - 1), components[n - 1])
    }
}

/// The logical path under which content is kept in memory: the components,
/// then the file name unless it is `index.html`, so that a directory and its
/// index document are one.
pub open spec fn site_path(components: Seq<Seq<char>>, filename: Seq<char>) -> Seq<char> {
    let directory = pushed_all(components, components.len() as int);
    if filename == "index.html"@ {
        directory
    } else {
        pushed(directory, filename)
    }
}

/// The URL whose path gives the form of a logical path that a preview
/// server is asked for.
pub open spec fn preview_url(path: Seq<char>) -> Seq<char> {
    "http://127.0.0.1:1111/"@ + path
}

/// The path under which a preview server is asked for the logical path
/// `path`: the path of its preview URL, without the slashes in front.
pub open spec fn preview_path(path: Seq<char>) -> Option<Seq<char>> {
    match url_path_of(preview_url(path)) {
        Some(found) => Some(trim_start(found, '/')),
        None => None,
    }
}

/// What a hexadecimal digit stands for.
pub open spec fn hex_value(digit: u8) -> Option<int> {
    if 0x30 <= digit <= 0x39 {
        Some(digit - 0x30)
    } else if 0x41 <= digit <= 0x46 {
        Some(digit - 0x41 + 10)
    } else if 0x61 <= digit <= 0x66 {
        Some(digit - 0x61 + 10)
    } else {
        None
    }
}

/// Whether `bytes` begin with a percent sign and two hexadecimal digits.
pub open spec fn begins_escaped(bytes: Seq<u8>) -> bool {
    bytes.len() >= 3 && bytes[0] == 0x25 && hex_value(bytes[1]).is_some() && hex_value(
        bytes[2],
    ).is_some()
}

/// `bytes` with every percent sign that two hexadecimal digits follow
/// replaced, together with the digits, by the byte that the digits give.
/// Everything else stays.
pub open spec fn percent_decoded_bytes(bytes: Seq<u8>) -> Seq<u8>
    decreases bytes.len(),
{
    if bytes.len() == 0 {
        Seq::empty()
    } else if begins_escaped(bytes) {
        seq![(16 * hex_value(bytes[1]).unwrap() + hex_value(bytes[2]).unwrap()) as u8]
            + percent_decoded_bytes(bytes.skip(3))
    } else {
        seq![bytes[0]] + percent_decoded_bytes(bytes.skip(1))
    }
}

/// The text that a percent-encoded text stands for, if what it stands for
/// is text.
pub open spec fn percent_decoded(text: Seq<char>) -> Option<Seq<char>> {
    text_in(percent_decoded_bytes(encode_utf8(text)))
}

/// The key under which the content of the logical path `path` is kept in
/// memory: the directories that its preview path names once it is
/// percent-decoded, with single slashes between them and none at either
/// end.
pub open spec fn content_key(path: Seq<char>) -> Option<Seq<char>> {
    match preview_path(path) {
        Some(asked) => match percent_decoded(asked) {
            Some(plain) => Some(join(segments(plain), seq!['/'])),
            None => None,
        },
        None => None,
    }
}

/// The script element that makes a page reload itself, for a server
/// listening on `port`.
pub open spec fn livereload_script(port: nat) -> Seq<char> {
    "<script src=\"/livereload.js?port="@ + decimal(port) + "&amp;mindelay=10\"></script>"@
}

/// `html` with `script` put in front of the last `</body>`, or at the end
/// where there is none.
pub open spec fn injected(html: Seq<char>, script: Seq<char>) -> Seq<char> {
    match last_occurrence(html, "</body>"@) {
        Some(i) => html.subrange(0, i) + script + html.subrange(i, html.len() as int),
        None => html + script,
    }
}

/// The first `n` prefixes of `components`, shortest first: the directories
/// on the way down to the last of them.
pub open spec fn prefixes(components: Seq<Seq<char>>, n: int) -> Seq<Seq<Seq<char>>>
    decreases n,
{
    if n <= 0 {
        Seq::empty()
    } else {
        prefixes(components, n - 1).push(components.take(n))
    }
}

/// The views of a list of directories.
pub open spec fn directory_views(directories: Seq<Vec<String>>) -> Seq<Seq<Seq<char>>> {
    Seq::new(directories.len(), |i: int| views(directories[i]@))
}

/// The view of a file: its components, its name and its content.
pub open spec fn file_view(file: OutputFile) -> (Seq<Seq<char>>, Seq<char>, Seq<char>) {
    (views(file.components@), file.filename@, file.content@)
}

/// The views of a list of files.
pub open spec fn file_views(files: Seq<OutputFile>) -> Seq<(Seq<Seq<char>>, Seq<char>, Seq<char>)> {
    Seq::new(files.len(), |i: int| file_view(files[i]))
}

/// What becomes of content on its way out.
pub enum Passed {
    /// It goes out as this text.
    Text(Seq<char>),
    /// Minifying left bytes that are no text.
    NotText,
    /// Minifying failed at this position, with this message and context, as
    /// far as they are text.
    Failed(int, Option<Seq<char>>, Option<Seq<char>>),
}

/// The text that `bytes` encode, if they encode one.
pub open spec fn text_in(bytes: Seq<u8>) -> Option<Seq<char>> {
    if valid_utf8(bytes) {
        Some(decode_utf8(bytes))
    } else {
        None
    }
}

/// What is left of the buffer that the minifier hands back: the first `len`
/// bytes of it.
pub open spec fn markup_of(buffer: Seq<u8>, len: int) -> Seq<u8> {
    if 0 <= len <= buffer.len() {
        buffer.subrange(0, len)
    } else {
        buffer
    }
}

/// What becomes of `content`: it is minified if `minifies` says so, and
/// passes unchanged if not.
pub open spec fn passed(content: Seq<char>, minifies: bool) -> Passed {
    if !minifies {
        Passed::Text(content)
    } else {
        match minified(encode_utf8(content)) {
            Ok((buffer, len)) => match text_in(markup_of(buffer, len)) {
                Some(text) => Passed::Text(text),
                None => Passed::NotText,
            },
            Err((at, why, context)) => Passed::Failed(at, text_in(why), text_in(context)),
        }
    }
}

/// The directories that writing below `components` asks for: the output
/// root, and with `write_dirs` every directory on the way down.
pub open spec fn asked(components: Seq<Seq<char>>, write_dirs: bool) -> Seq<Seq<Seq<char>>> {
    if write_dirs {
        seq![Seq::<Seq<char>>::empty()] + prefixes(components, components.len() as int)
    } else {
        seq![Seq::<Seq<char>>::empty()]
    }
}

/// Content is minified on its way out if the name of its file ends in `html`
/// and the settings ask for it.
pub open spec fn minifies(filename: Seq<char>, minify_html: bool) -> bool {
    "html"@.is_suffix_of(filename) && minify_html
}

/// What writing `content` as `filename` at the logical place `components`
/// makes of an output, and how it may fail. `failed` is what the writing
/// failed with, if it failed.
///
/// The output root is asked for, and with `create_dirs`, or always on a
/// disk, every directory on the way down. Content that is to be minified
/// and cannot be is not written. On a disk the file is recorded, and the
/// writing succeeds. In memory the content is kept under the key of its
/// logical path. The writing fails, and keeps nothing, where the path has no
/// key, and where the `relative-path` crate makes another relative path of
/// the decoded preview path than the key.
pub open spec fn written(
    before: Output,
    after: Output,
    mode: BuildMode,
    minify_html: bool,
    components: Seq<Seq<char>>,
    filename: Seq<char>,
    content: Seq<char>,
    create_dirs: bool,
    failed: Option<Error>,
) -> bool {
    &&& directory_views(after.directories@) == directory_views(before.directories@) + asked(
        components,
        mode == BuildMode::Disk || create_dirs,
    )
    &&& match passed(content, minifies(filename, minify_html)) {
        Passed::Text(text) => match mode {
            BuildMode::Disk => {
                &&& failed.is_none()
                &&& after.content@ == before.content@
                &&& file_views(after.files@) == file_views(before.files@).push(
                    (components, filename, text),
                )
            },
            BuildMode::Memory => {
                &&& after.files == before.files
                &&& match failed {
                    None => {
                        &&& content_key(site_path(components, filename)) matches Some(key)
                        &&& after.content@ == before.content@.insert(key, text)
                    },
                    Some(e) => {
                        &&& after.content@ == before.content@
                        &&& e matches Error::NoContentKey { path }
                        &&& path@ == site_path(components, filename)
                    },
                }
            },
        },
        Passed::NotText => {
            &&& failed matches Some(Error::MinifiedNotText)
            &&& after.files == before.files
            &&& after.content@ == before.content@
        },
        Passed::Failed(at, why, context) => {
            &&& failed matches Some(e)
            &&& e.is_minify(at, why, context)
            &&& after.files == before.files
            &&& after.content@ == before.content@
        },
    }
}

/// What a result failed with, if it failed.
pub open spec fn failure<T>(r: Result<T, Error>) -> Option<Error> {
    match r {
        Ok(_) => None,
        Err(e) => Some(e),
    }
}

/// Calls `minify_html::with_friendly_error` on a buffer that holds `code`,
/// with the minification of scripts switched off. The contract gives the
/// outcome its name and claims nothing more of it. The message and the
/// context of an error are handed on as the bytes they are made of, since
/// the minifier cuts them out of its buffer and they need not be text.
/// That the minifier returns on every input is taken on trust as well: its
/// source names no input on which it would not.
#[verifier::external_body]
fn minify_in_place(code: Vec<u8>) -> (r: Result<(Vec<u8>, usize), MinifyFailure>)
    ensures
        match r {
            Ok((buffer, len)) => minified(code@) == Ok::<
                (Seq<u8>, int),
                (int, Seq<u8>, Seq<u8>),
            >((buffer@, len as int)),
            Err(failure) => minified(code@) == Err::<(Seq<u8>, int), (int, Seq<u8>, Seq<u8>)>(
                (failure.position as int, failure.message@, failure.code_context@),
            ),
        },
{
    let mut buffer = code;
    match minify_html::with_friendly_error(&mut buffer, &minify_html::Cfg { minify_js: false }) {
        Ok(len) => Ok((buffer, len)),
        Err(e) => Err(
            MinifyFailure {
                position: e.position,
                message: e.message.into_bytes(),
                code_context: e.code_context.into_bytes(),
            },
        ),
    }
}

/// Calls `String::from_utf8`: the text whose UTF-8 encoding `bytes` is, if
/// it is one.
#[verifier::external_body]
fn text_of(bytes: Vec<u8>) -> (r: Option<String>)
    ensures
        r.is_some() == valid_utf8(bytes@),
        r matches Some(text) ==> encode_utf8(text@) == bytes@,
{
    String::from_utf8(bytes).ok()
}

/// Calls `url::Url::parse` and `Url::path`: the path of `url`, if it parses.
/// The contract gives the path its name and claims nothing more of it.
#[verifier::external_body]
fn url_path(url: &str) -> (r: Option<String>)
    ensures
        match r {
            Some(path) => url_path_of(url@) == Some(path@),
            None => url_path_of(url@).is_none(),
        },
{
    match url::Url::parse(url) {
        Ok(parsed) => Some(parsed.path().to_owned()),
        Err(_) => None,
    }
}

/// Calls `RelativePathBuf::push` on the relative path `base`. The contract
/// restates what the method does to the text of the path.
#[verifier::external_body]
fn push_component(base: String, other: &str) -> (r: String)
    ensures
        r@ == pushed(base@, other@),
{
    let mut path = relative_path::RelativePathBuf::from(base);
    path.push(other);
    path.into_string()
}

/// Calls `RelativePathBuf::from_path`: `path` as a relative path, if it is
/// one by the rules of the host. Which text comes back depends on those
/// rules, so nothing is claimed of it; the caller holds it against the key
/// that it expects.
#[verifier::external_body]
fn relative_path_of(path: &str) -> (r: Option<String>) {
    match relative_path::RelativePathBuf::from_path(std::path::Path::new(path)) {
        Ok(relative) => Some(relative.into_string()),
        Err(_) => None,
    }
}

/// The text that `bytes` encode, if they encode one.
pub fn read_text(bytes: Vec<u8>) -> (r: Option<String>)
    ensures
        optional_view(r) == text_in(bytes@),
{
    let r = text_of(bytes);
    proof {
        if let Some(text) = &r {
            encode_utf8_decode_utf8(text@);
        }
    }
    r
}

/// What is made of the outcome of minifying: the minified markup, which
/// stands at the start of the buffer, as text; or the failure to report,
/// with the message and the context of the minifier as far as they are
/// text.
pub fn minified_text(outcome: Result<(Vec<u8>, usize), MinifyFailure>) -> (r: Result<String, Error>)
    ensures
        match outcome {
            Ok((buffer, len)) => match text_in(markup_of(buffer@, len as int)) {
                Some(text) => r matches Ok(out) && out@ == text,
                None => r matches Err(Error::MinifiedNotText),
            },
            Err(failure) => r matches Err(e) && e.is_minify(
                failure.position as int,
                text_in(failure.message@),
                text_in(failure.code_context@),
            ),
        },
{
    match outcome {
        Ok((buffer, len)) => {
            let mut buffer = buffer;
            buffer.truncate(len);
            match read_text(buffer) {
                Some(text) => Ok(text),
                None => Err(Error::MinifiedNotText),
            }
        },
        Err(failure) => Err(
            Error::Minify {
                position: failure.position,
                message: read_text(failure.message),
                code_context: read_text(failure.code_context),
            },
        ),
    }
}

/// The markup of `html`, minified.
pub fn minify(html: String) -> (r: Result<String, Error>)
    ensures
        match passed(html@, true) {
            Passed::Text(text) => r matches Ok(out) && out@ == text,
            Passed::NotText => r matches Err(Error::MinifiedNotText),
            Passed::Failed(at, why, context) => r matches Err(e) && e.is_minify(at, why, context),
        },
{
    let code = html.as_str().as_bytes_vec();
    minified_text(minify_in_place(code))
}

/// `html` with the script that reloads the page, for a server on `port`.
pub fn inject(html: String, port: u16) -> (out: String)
    ensures
        out@ == injected(html@, livereload_script(port as nat)),
{
    let mut script = "<script src=\"/livereload.js?port=".to_owned();
    let number = decimal_string(port as usize);
    script.append(number.as_str());
    script.append("&amp;mindelay=10\"></script>");
    match rfind(html.as_str(), "</body>") {
        Some(i) => {
            let n = html.as_str().unicode_len();
            let mut out = html.as_str().substring_char(0, i).to_owned();
            out.append(script.as_str());
            out.append(html.as_str().substring_char(i, n));
            out
        },
        None => {
            let mut out = html;
            out.append(script.as_str());
            out
        },
    }
}

/// The logical path under which content is kept in memory.
pub fn site_path_of(components: &Vec<String>, filename: &str) -> (out: String)
    ensures
        out@ == site_path(views(components@), filename@),
{
    let mut path = String::new();
    let mut i: usize = 0;
    while i < components.len()
        invariant
            i <= components.len(),
            path@ == pushed_all(views(components@), i as int),
        decreases components.len() - i,
    {
        path = push_component(path, components[i].as_str());
        i += 1;
    }
    if str_eq(filename, "index.html") {
        path
    } else {
        push_component(path, filename)
    }
}

/// The path under which a preview server is asked for the logical path
/// `path`, if the preview URL of the path parses. It is what the key of
/// the in-memory content is made of.
pub fn preview_path_of(path: &str) -> (out: Option<String>)
    ensures
        match out {
            Some(found) => preview_path(path@) == Some(found@),
            None => preview_path(path@).is_none(),
        },
{
    let mut url = "http://127.0.0.1:1111/".to_owned();
    url.append(path);
    match url_path(url.as_str()) {
        Some(found) => Some(trim_start_matches(found.as_str(), '/')),
        None => None,
    }
}

/// What a hexadecimal digit stands for.
fn hex_of(digit: u8) -> (r: Option<u8>)
    ensures
        match r {
            Some(v) => hex_value(digit) == Some(v as int) && v < 16,
            None => hex_value(digit).is_none(),
        },
{
    if 0x30 <= digit && digit <= 0x39 {
        Some(digit - 0x30)
    } else if 0x41 <= digit && digit <= 0x46 {
        Some(digit - 0x41 + 10)
    } else if 0x61 <= digit && digit <= 0x66 {
        Some(digit - 0x61 + 10)
    } else {
        None
    }
}

/// The text that the percent-encoded `text` stands for: every percent sign
/// that two hexadecimal digits follow gives, with the digits, one byte, and
/// the bytes are read as text. There is none where they are no text.
pub fn percent_decode(text: &str) -> (r: Option<String>)
    ensures
        optional_view(r) == percent_decoded(text@),
{
    let bytes = text.as_bytes_vec();
    let n = bytes.len();
    let mut out: Vec<u8> = Vec::new();
    let mut i: usize = 0;
    proof {
        assert(bytes@.skip(0) =~= bytes@);
        assert(out@ + percent_decoded_bytes(bytes@) =~= percent_decoded_bytes(bytes@));
    }
    while i < n
        invariant
            i <= n,
            n == bytes@.len(),
            out@ + percent_decoded_bytes(bytes@.skip(i as int)) == percent_decoded_bytes(bytes@),
        decreases n - i,
    {
        let ghost rest = bytes@.skip(i as int);
        let ghost before = out@;
        proof {
            assert(rest[0] == bytes@[i as int]);
            if n - i >= 3 {
                assert(rest[1] == bytes@[i + 1]);
                assert(rest[2] == bytes@[i + 2]);
            }
        }
        let mut taken: usize = 1;
        let mut value: u8 = bytes[i];
        if bytes[i] == 0x25 && n - i >= 3 {
            match hex_of(bytes[i + 1]) {
                Some(high) => match hex_of(bytes[i + 2]) {
                    Some(low) => {
                        value = 16 * high + low;
                        taken = 3;
                    },
                    None => {},
                },
                None => {},
            }
        }
        out.push(value);
        proof {
            assert(rest.skip(taken as int) =~= bytes@.skip(i + taken));
            assert(percent_decoded_bytes(rest) == seq![value] + percent_decoded_bytes(
                rest.skip(taken as int),
            ));
            assert(out@ + percent_decoded_bytes(bytes@.skip(i + taken)) =~= before
                + percent_decoded_bytes(rest));
        }
        i += taken;
    }
    proof {
        assert(bytes@.skip(n as int) =~= Seq::<u8>::empty());
        assert(out@ + Seq::<u8>::empty() =~= out@);
    }
    read_text(out)
}

/// The directories that the path `asked` names, with single slashes
/// between them.
fn content_key_of(asked: &str) -> (out: String)
    ensures
        out@ == join(segments(asked@), seq!['/']),
{
    proof {
        reveal_strlit("/");
        assert("/"@ =~= seq!['/']);
    }
    let pieces = segments_of(asked);
    join_with(&pieces, "/")
}

/// The key that was expected, if the key that was found is the same.
pub fn agreed(expected: String, found: Option<String>) -> (key: Option<String>)
    ensures
        match key {
            Some(k) => k@ == expected@ && found.is_some() && found.unwrap()@ == expected@,
            None => found.is_none() || found.unwrap()@ != expected@,
        },
{
    match found {
        Some(f) => if f == expected {
            Some(expected)
        } else {
            None
        },
        None => None,
    }
}

impl Output {
    /// The content store is sound.
    pub open spec fn wf(&self) -> bool {
        self.content.wf()
    }

    /// An output with nothing in it.
    pub fn new() -> (r: Output)
        ensures
            r.wf(),
            r.directories@.len() == 0,
            r.files@.len() == 0,
            r.content@ == Map::<Seq<char>, Seq<char>>::empty(),
    {
        Output { directories: Vec::new(), files: Vec::new(), content: TextMap::new() }
    }

    /// Asks for the directories on the way down through `components`.
    fn ask_directories(&mut self, components: &Vec<String>, write_dirs: bool)
        ensures
            final(self).files == old(self).files,
            final(self).content == old(self).content,
            directory_views(final(self).directories@) == directory_views(old(self).directories@)
                + asked(views(components@), write_dirs),
    {
        let ghost before = directory_views(self.directories@);
        let ghost parts = views(components@);
        self.directories.push(Vec::new());
        proof {
            assert(views(Seq::<String>::empty()) =~= Seq::<Seq<char>>::empty());
            assert(directory_views(self.directories@) =~= before + seq![Seq::<Seq<char>>::empty()]);
        }
        if write_dirs {
            let mut i: usize = 0;
            while i < components.len()
                invariant
                    i <= components.len(),
                    parts == views(components@),
                    self.files == old(self).files,
                    self.content == old(self).content,
                    directory_views(self.directories@) == before + (seq![Seq::<Seq<char>>::empty()]
                        + prefixes(parts, i as int)),
                decreases components.len() - i,
            {
                let ghost so_far = directory_views(self.directories@);
                let directory = copy_prefix(components, i + 1);
                proof {
                    assert(directory_views(self.directories@.push(directory)) =~= so_far.push(
                        parts.take(i + 1),
                    ));
                    assert(so_far.push(parts.take(i + 1)) =~= before + (seq![
                        Seq::<Seq<char>>::empty(),
                    ] + prefixes(parts, i + 1)));
                }
                self.directories.push(directory);
                i += 1;
            }
            proof {
                assert(parts.len() == components@.len());
            }
        } else {
            proof {
                assert(before + seq![Seq::<Seq<char>>::empty()] =~= before + asked(parts, false));
            }
        }
    }

    /// Produces the artifact `filename` with `content` at the logical place
    /// `components`. The output root is asked for, and with `create_dirs`,
    /// or always on a disk, every directory on the way down. Content for a
    /// file whose name ends in `html` is minified first if `minify_html`
    /// says so; where that fails nothing is written. On a disk the file is
    /// recorded. In memory the content is kept under the key of its logical
    /// path, which is the directory itself for `index.html`.
    pub fn write(
        &mut self,
        mode: BuildMode,
        minify_html: bool,
        components: &Vec<String>,
        filename: &str,
        content: String,
        create_dirs: bool,
    ) -> (r: Result<Vec<String>, Error>)
        requires
            old(self).wf(),
        ensures
            final(self).wf(),
            r matches Ok(directory) ==> directory@ == components@,
            written(
                *old(self),
                *final(self),
                mode,
                minify_html,
                views(components@),
                filename@,
                content@,
                create_dirs,
                failure(r),
            ),
    {
        let on_disk = match mode {
            BuildMode::Disk => true,
            BuildMode::Memory => false,
        };
        self.ask_directories(components, on_disk || create_dirs);
        let text = if !ends_with(filename, "html") || !minify_html {
            content
        } else {
            match minify(content) {
                Ok(minified) => minified,
                Err(e) => {
                    return Err(e);
                },
            }
        };
        if on_disk {
            let file = OutputFile {
                components: copy_strings(components),
                filename: filename.to_owned(),
                content: text,
            };
            proof {
                assert(file_views(self.files@.push(file)) =~= file_views(self.files@).push(
                    file_view(file),
                ));
            }
            self.files.push(file);
        } else {
            let path = site_path_of(components, filename);
            let key = match preview_path_of(path.as_str()) {
                Some(asked) => match percent_decode(asked.as_str()) {
                    Some(plain) => {
                        let expected = content_key_of(plain.as_str());
                        agreed(expected, relative_path_of(plain.as_str()))
                    },
                    None => None,
                },
                None => None,
            };
            match self.keep(path.as_str(), key, text) {
                Ok(()) => {},
                Err(e) => {
                    return Err(e);
                },
            }
        }
        Ok(copy_strings(components))
    }

    /// Puts `content` into the store under the key that came of the logical
    /// path `path`, or fails where none came of it.
    pub fn keep(&mut self, path: &str, key: Option<String>, content: String) -> (r: Result<(), Error>)
        requires
            old(self).wf(),
        ensures
            final(self).wf(),
            final(self).directories == old(self).directories,
            final(self).files == old(self).files,
            match key {
                Some(k) => r.is_ok() && final(self).content@ == old(self).content@.insert(
                    k@,
                    content@,
                ),
                None => {
                    &&& final(self).content@ == old(self).content@
                    &&& r matches Err(Error::NoContentKey { path: reported })
                    &&& reported@ == path@
                },
            },
    {
        match key {
            Some(k) => {
                self.content.insert(k, content);
                Ok(())
            },
            None => Err(Error::NoContentKey { path: path.to_owned() }),
        }
    }
}

} // verus!
