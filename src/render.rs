//! Content of a file's page and of a raw file response.

use vstd::prelude::*;
use crate::page::{breadcrumbs_of, crumbs_view, file_size_text, format_file_size, generate_breadcrumbs, BreadcrumbItem};
use crate::path::{file_name, is_markdown, is_markdown_path, path_file_name, trim_leading_slashes, trim_slashes_start};
use crate::text::{push_char, push_text, same_text};

verus! {

/// The HTML that pulldown-cmark renders for a markdown text.
pub uninterp spec fn markdown_html(text: Seq<char>) -> Seq<char>;

/// Relies on `pulldown_cmark::html::push_html` over `Parser::new_ext` with
/// tables, footnotes, strikethrough and task lists enabled: it writes the
/// HTML of the text into an empty string, and the HTML depends on the text
/// alone.
#[verifier::external_body]
fn render_markdown(content: &str) -> (r: String)
    ensures
        r@ == markdown_html(content@),
{
    let mut options = pulldown_cmark::Options::empty();
    options.insert(pulldown_cmark::Options::ENABLE_TABLES);
    options.insert(pulldown_cmark::Options::ENABLE_FOOTNOTES);
    options.insert(pulldown_cmark::Options::ENABLE_STRIKETHROUGH);
    options.insert(pulldown_cmark::Options::ENABLE_TASKLISTS);
    let mut html_output = String::new();
    pulldown_cmark::html::push_html(&mut html_output, pulldown_cmark::Parser::new_ext(content, options));
    html_output
}

/// The MIME type that mime_guess gives for a path, as `type/subtype`.
pub uninterp spec fn mime_of_path(p: Seq<char>) -> Seq<char>;

/// Relies on `mime_guess::from_path(..).first_or_octet_stream()`: a guess
/// from the path's extension alone, no disk access, `application/octet-stream`
/// when nothing is known; printed by `Mime`'s `to_string`.
#[verifier::external_body]
fn guess_mime(path: &str) -> (r: String)
    ensures
        r@ == mime_of_path(path@),
{
    mime_guess::from_path(path).first_or_octet_stream().to_string()
}

/// The top-level type of a MIME string: what precedes its first slash.
pub open spec fn top_level_type(m: Seq<char>) -> Seq<char>
    decreases m.len(),
{
    if m.len() == 0 || m[0] == '/' {
        Seq::empty()
    } else {
        seq![m[0]] + top_level_type(m.drop_first())
    }
}

pub open spec fn charset_suffix() -> Seq<char> {
    seq![';', ' ', 'c', 'h', 'a', 'r', 's', 'e', 't', '=', 'u', 't', 'f', '-', '8']
}

/// The `Content-Type` for a MIME type: text types are declared UTF-8.
pub open spec fn content_type_of(m: Seq<char>) -> Seq<char> {
    if top_level_type(m) == seq!['t', 'e', 'x', 't'] {
        m + charset_suffix()
    } else {
        m
    }
}

fn top_level_is_text(m: &str) -> (r: bool)
    ensures
        r == (top_level_type(m@) == seq!['t', 'e', 'x', 't']),
{
    let n = m.unicode_len();
    let mut i: usize = 0;
    while i < n && m.get_char(i) != '/'
        invariant
            i <= n,
            n == m@.len(),
            forall|j: int| 0 <= j < i ==> m@[j] != '/',
        decreases n - i,
    {
        i = i + 1;
    }
    proof {
        lemma_top_level(m@, i as int);
    }
    let head = m.substring_char(0, i);
    let text = "text";
    proof {
        reveal_strlit("text");
        assert(text@ =~= seq!['t', 'e', 'x', 't']);
    }
    same_text(head, text)
}

proof fn lemma_top_level(m: Seq<char>, i: int)
    requires
        0 <= i <= m.len(),
        forall|j: int| 0 <= j < i ==> m[j] != '/',
        i == m.len() || m[i] == '/',
    ensures
        top_level_type(m) == m.subrange(0, i),
    decreases m.len(),
{
    if i > 0 {
        lemma_top_level(m.drop_first(), i - 1);
        assert(m.subrange(0, i) =~= seq![m[0]] + m.drop_first().subrange(0, i - 1));
    } else {
        assert(m.subrange(0, i) =~= Seq::<char>::empty());
    }
}

/// The `Content-Type` header for a MIME type.
pub fn content_type_for_mime(mime: &str) -> (r: String)
    ensures
        r@ == content_type_of(mime@),
{
    let mut out = String::from_str(mime);
    if top_level_is_text(mime) {
        let suffix = "; charset=utf-8";
        proof {
            reveal_strlit("; charset=utf-8");
            assert(suffix@ =~= charset_suffix());
        }
        push_text(&mut out, suffix);
    }
    out
}

/// The `Content-Type` header for serving the file at `path` raw.
pub fn content_type(path: &str) -> (r: String)
    ensures
        r@ == content_type_of(mime_of_path(path@)),
{
    let mime = guess_mime(path);
    content_type_for_mime(mime.as_str())
}

/// What a markdown file's page shows.
pub struct MarkdownPage {
    pub breadcrumbs: Vec<BreadcrumbItem>,
    pub content: String,
    pub filename: String,
    pub file_size: String,
    pub raw_path: String,
    pub workspace_id: String,
    pub workspace_name: String,
}

pub open spec fn raw_prefix() -> Seq<char> {
    seq!['/', '_', 'r', 'a', 'w', '/']
}

/// The URL that serves a workspace file raw.
pub open spec fn raw_url(id: Seq<char>, url_path: Seq<char>) -> Seq<char> {
    raw_prefix() + id + seq!['/'] + trim_leading_slashes(url_path)
}

pub open spec fn dash() -> Seq<char> {
    seq!['-']
}

pub open spec fn unknown_name() -> Seq<char> {
    seq!['u', 'n', 'k', 'n', 'o', 'w', 'n']
}

/// Everything but the HTML of the text is fixed by the arguments; the HTML
/// is `html`.
pub open spec fn markdown_page_fits(
    p: MarkdownPage,
    id: Seq<char>,
    name: Seq<char>,
    full_path: Seq<char>,
    url_path: Seq<char>,
    html: Seq<char>,
    size: Option<u64>,
) -> bool {
    &&& crumbs_view(p.breadcrumbs@) == breadcrumbs_of(id, name, url_path)
    &&& p.content@ == html
    &&& p.filename@ == match file_name(full_path) {
        Some(f) => f,
        None => unknown_name(),
    }
    &&& p.file_size@ == match size {
        Some(n) => file_size_text(n as nat),
        None => dash(),
    }
    &&& p.raw_path@ == raw_url(id, url_path)
    &&& p.workspace_id@ == id
    &&& p.workspace_name@ == name
}

fn dash_string() -> (r: String)
    ensures
        r@ == dash(),
{
    let d = "-";
    proof {
        reveal_strlit("-");
    }
    let r = String::from_str(d);
    assert(r@ =~= dash());
    r
}

/// The page of a markdown file at `full_path`, shown at `url_path` of a
/// workspace, given the HTML of its text and its size when known.
pub fn markdown_page_with_html(
    workspace_id: &str,
    workspace_name: &str,
    full_path: &str,
    url_path: &str,
    html: String,
    size: Option<u64>,
) -> (r: MarkdownPage)
    ensures
        markdown_page_fits(r, workspace_id@, workspace_name@, full_path@, url_path@, html@, size),
{
    let breadcrumbs = generate_breadcrumbs(workspace_id, workspace_name, url_path);
    let file_size = match size {
        Some(n) => format_file_size(n),
        None => dash_string(),
    };
    let filename = match path_file_name(full_path) {
        Some(f) => f,
        None => {
            let u = "unknown";
            proof {
                reveal_strlit("unknown");
            }
            let s = String::from_str(u);
            assert(s@ =~= unknown_name());
            s
        },
    };
    let raw = "/_raw/";
    proof {
        reveal_strlit("/_raw/");
    }
    let mut raw_path = String::from_str(raw);
    push_text(&mut raw_path, workspace_id);
    push_char(&mut raw_path, '/');
    let rest = trim_slashes_start(url_path);
    push_text(&mut raw_path, rest.as_str());
    assert(raw_path@ =~= raw_url(workspace_id@, url_path@));
    MarkdownPage {
        breadcrumbs,
        content: html,
        filename,
        file_size,
        raw_path,
        workspace_id: String::from_str(workspace_id),
        workspace_name: String::from_str(workspace_name),
    }
}

/// The page of a markdown file whose text is `content`.
pub fn markdown_page(
    workspace_id: &str,
    workspace_name: &str,
    full_path: &str,
    url_path: &str,
    content: &str,
    size: Option<u64>,
) -> (r: MarkdownPage)
    ensures
        markdown_page_fits(
            r,
            workspace_id@,
            workspace_name@,
            full_path@,
            url_path@,
            markdown_html(content@),
            size,
        ),
{
    let html = render_markdown(content);
    markdown_page_with_html(workspace_id, workspace_name, full_path, url_path, html, size)
}

/// How a resolved path inside a workspace is shown.
#[derive(Clone, Copy, Debug, PartialEq, Eq, Structural)]
pub enum ViewKind {
    /// A listing of the directory.
    Directory,
    /// The rendered markdown file.
    Markdown,
    /// The file's bytes with their content type.
    Static,
    /// Neither a directory nor a file.
    Missing,
}

/// Directories are listed, markdown files rendered, other files served as
/// they are; anything else is not found.
pub fn view_kind(path: &str, is_dir: bool, is_file: bool) -> (r: ViewKind)
    ensures
        r == (if is_dir {
            ViewKind::Directory
        } else if is_file && is_markdown(path@) {
            ViewKind::Markdown
        } else if is_file {
            ViewKind::Static
        } else {
            ViewKind::Missing
        }),
{
    if is_dir {
        ViewKind::Directory
    } else if is_file {
        if is_markdown_path(path) {
            ViewKind::Markdown
        } else {
            ViewKind::Static
        }
    } else {
        ViewKind::Missing
    }
}

} // verus!
