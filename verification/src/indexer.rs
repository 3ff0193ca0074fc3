//! Content extraction for the search index.
//!
//! From the text of a file these functions take a title and the body that
//! is to be searched.

use vstd::prelude::*;
use vstd::string::*;

use crate::blockstore::scanner::lines::{
    after_first_line, first_line, lemma_line_end, split_lines, LineIter,
};
use crate::text::{
    byte_len, chars_of, find_first, find_from, find_in, has_prefix, is_space, is_whitespace,
    join_strings, join_with, lemma_find_from, replaced, same_text, starts_with, string_of,
    texts_of, trim, trim_of,
};
use crate::models::ContentIndexEntry;
use crate::utils::{
    is_document_file, is_module_file, is_page_file, is_path_id, is_path_title, is_quote,
    normalize_path, path_to_id, path_to_title, tail, tail_of, text_of, trim_quotes,
    trim_quotes_of,
};

verus! {

// ── Searchable text of a module ────────────────────────────────────────────────

/// The comment that the line `line` holds: what follows `//` at its start,
/// trimmed.
pub open spec fn js_comment(line: Seq<char>) -> Option<Seq<char>> {
    let t = trim(line);
    if has_prefix(t, "//"@) {
        Some(trim(tail(t, "//"@.len() as int)))
    } else {
        None
    }
}

/// The comments of `lines`, in order.
pub open spec fn js_comments(lines: Seq<Seq<char>>) -> Seq<Seq<char>>
    decreases lines.len(),
{
    if lines.len() == 0 {
        Seq::empty()
    } else {
        match js_comment(lines.last()) {
            Some(c) => js_comments(lines.drop_last()).push(c),
            None => js_comments(lines.drop_last()),
        }
    }
}

/// The state of the search for string literals.
pub struct Literals {
    /// The literals found so far.
    pub found: Seq<Seq<char>>,
    /// The quote that opened the literal being read, if one is open.
    pub quote: Option<char>,
    /// What was read of the open literal.
    pub current: Seq<char>,
}

/// The search for string literals after the character `c`. A quote opens a
/// literal; the same quote closes it, and the literal counts where it is
/// longer than three bytes.
pub open spec fn literal_step(st: Literals, c: char) -> Literals {
    match st.quote {
        Some(q) => if c == q {
            Literals {
                found: if byte_len(st.current) > 3 {
                    st.found.push(st.current)
                } else {
                    st.found
                },
                quote: None,
                current: Seq::empty(),
            }
        } else {
            Literals { current: st.current.push(c), ..st }
        },
        None => if is_quote(c) {
            Literals { quote: Some(c), ..st }
        } else {
            st
        },
    }
}

/// The search for string literals after the first `upto` characters of `s`.
pub open spec fn literals(s: Seq<char>, upto: int) -> Literals
    decreases upto,
{
    if upto <= 0 {
        Literals { found: Seq::empty(), quote: None, current: Seq::empty() }
    } else {
        literal_step(literals(s, upto - 1), s[upto - 1])
    }
}

/// The searchable text of a module: its line comments and then its string
/// literals, separated by single spaces.
pub open spec fn js_searchable(content: Seq<char>) -> Seq<char> {
    join_with(
        js_comments(split_lines(content)) + literals(content, content.len() as int).found,
        ' ',
    )
}

/// Extract searchable text from JavaScript
pub fn extract_js_searchable_text(content: &str) -> (out: String)
    ensures
        out@ == js_searchable(content@),
{
    let text = chars_of(content);
    let slashes = chars_of("//");
    let mut searchable: Vec<String> = Vec::new();
    let mut iter = LineIter::new(text.as_slice());
    let ghost mut done: Seq<Seq<char>> = Seq::empty();
    assert(done + split_lines(text@) =~= split_lines(text@));
    assert(texts_of(searchable@) =~= js_comments(done));
    loop
        invariant
            slashes@ == "//"@,
            split_lines(text@) == done + split_lines(iter.remaining@),
            texts_of(searchable@) == js_comments(done),
        ensures
            texts_of(searchable@) == js_comments(split_lines(text@)),
        decreases iter.remaining@.len(),
    {
        let ghost rest = iter.remaining@;
        let line = match iter.next() {
            Some(line) => line,
            None => {
                assert(done + split_lines(rest) =~= done);
                break ;
            },
        };
        proof {
            lemma_line_end(rest, 0);
            assert(done.push(line@).drop_last() =~= done);
            assert(done + (seq![line@] + split_lines(after_first_line(rest))) =~= done.push(line@)
                + split_lines(after_first_line(rest)));
        }
        let trimmed = trim_of(line);
        let ghost before = texts_of(searchable@);
        if starts_with(trimmed, slashes.as_slice()) {
            searchable.push(string_of(trim_of(tail_of(trimmed, slashes.len()))));
            assert(texts_of(searchable@) =~= before.push(searchable@.last()@));
        }
        proof {
            done = done.push(line@);
        }
    }
    let ghost comments = texts_of(searchable@);
    let mut quote: Option<char> = None;
    let mut current = String::new();
    let mut i: usize = 0;
    assert(texts_of(searchable@) =~= comments + literals(text@, 0).found);
    while i < text.len()
        invariant
            i <= text.len(),
            texts_of(searchable@) == comments + literals(text@, i as int).found,
            quote == literals(text@, i as int).quote,
            current@ == literals(text@, i as int).current,
        decreases text.len() - i,
    {
        let ch = text[i];
        let ghost before = texts_of(searchable@);
        let ghost st = literals(text@, i as int);
        match quote {
            Some(q) => {
                if ch == q {
                    if current.as_str().as_bytes().len() > 3 {
                        searchable.push(current);
                        assert(texts_of(searchable@) =~= before.push(st.current));
                        assert(before.push(st.current) =~= comments + st.found.push(st.current));
                    }
                    current = String::new();
                    quote = None;
                } else {
                    current.push(ch);
                }
            },
            None => {
                if ch == '\'' || ch == '"' {
                    quote = Some(ch);
                }
            },
        }
        i = i + 1;
    }
    join_strings(&searchable, ' ')
}

// ── Module titles ──────────────────────────────────────────────────────────────

/// Index of the first quote of `s` at or after `from`, or `s.len()`.
pub open spec fn find_quote(s: Seq<char>, from: int) -> int
    decreases s.len() - from,
{
    if from < 0 || from >= s.len() {
        s.len() as int
    } else if is_quote(s[from]) {
        from
    } else {
        find_quote(s, from + 1)
    }
}

/// The display name that a module declares: what stands between the first
/// two quotes after the first `displayName`.
pub open spec fn display_name(content: Seq<char>) -> Option<Seq<char>> {
    match find_first(content, "displayName"@) {
        Some(start) => {
            let open = find_quote(content, start);
            let close = find_quote(content, open + 1);
            if open < content.len() && close < content.len() {
                Some(content.subrange(open + 1, close))
            } else {
                None
            }
        },
        None => None,
    }
}

/// Index of the first quote of `s` at or after `from`, or `s.len()`.
fn position_of_quote(s: &[char], from: usize) -> (k: usize)
    ensures
        k == find_quote(s@, from as int),
        k <= s.len(),
        k < s.len() ==> from <= k,
{
    if from >= s.len() {
        return s.len();
    }
    let mut k: usize = from;
    while k < s.len() && !(s[k] == '\'' || s[k] == '"')
        invariant
            from <= k <= s.len(),
            find_quote(s@, from as int) == find_quote(s@, k as int),
        decreases s.len() - k,
    {
        k = k + 1;
    }
    k
}

/// The display name that a module declares.
fn display_name_of(content: &[char]) -> (r: Option<String>)
    ensures
        text_of(r) == display_name(content@),
{
    let key = chars_of("displayName");
    let start = match find_in(content, key.as_slice(), 0) {
        Some(start) => start,
        None => {
            return None;
        },
    };
    let open = position_of_quote(content, start);
    if open >= content.len() {
        assert(find_quote(content@, open + 1) == content@.len());
        return None;
    }
    let close = position_of_quote(content, open + 1);
    if close >= content.len() {
        return None;
    }
    Some(string_of(&content[open + 1..close]))
}

/// The given title, or `fallback` without one.
pub open spec fn title_or(title: Option<Seq<char>>, fallback: Seq<char>) -> Seq<char> {
    match title {
        Some(t) => t,
        None => fallback,
    }
}

/// Title and body of a JavaScript module whose file name gives the title
/// `fallback`.
pub fn module_content(fallback: String, content: &str) -> (r: (String, String))
    ensures
        r.0@ == title_or(display_name(content@), fallback@),
        r.1@ == js_searchable(content@),
{
    let text = chars_of(content);
    let title = match display_name_of(text.as_slice()) {
        Some(name) => name,
        None => fallback,
    };
    (title, extract_js_searchable_text(content))
}

/// Whether `title` and `body` are what the file at `path` with the text
/// `content` gives as content of the kind named `name`: the fallback title
/// is one that `path` can have.
pub open spec fn extracted(
    path: Seq<char>,
    content: Seq<char>,
    name: Seq<char>,
    title: Seq<char>,
    body: Seq<char>,
) -> bool {
    exists|fallback: Seq<char>| #[trigger]
        is_path_title(fallback, path) && (title, body) == content_of(name, fallback, content)
}

/// Extract content from JavaScript module
pub fn extract_module_content(path: &str, content: &str) -> (r: (String, String))
    ensures
        extracted(path@, content@, "module"@, r.0@, r.1@),
{
    let fallback = path_to_title(path);
    proof {
        lemma_kind_names();
        assert(is_path_title(fallback@, path@));
    }
    module_content(fallback, content)
}

// ── HTML pages ─────────────────────────────────────────────────────────────────

/// The state of the removal of tags.
pub struct Stripped {
    /// The text kept so far.
    pub out: Seq<char>,
    /// Whether a tag is open.
    pub in_tag: bool,
}

/// The removal of tags after the character `c`: `<` opens a tag, `>` closes
/// it and leaves a space, and what stands outside of tags is kept.
pub open spec fn strip_step(st: Stripped, c: char) -> Stripped {
    if c == '<' {
        Stripped { in_tag: true, ..st }
    } else if c == '>' {
        Stripped { out: st.out.push(' '), in_tag: false }
    } else if !st.in_tag {
        Stripped { out: st.out.push(c), ..st }
    } else {
        st
    }
}

/// The removal of tags after the first `upto` characters of `s`.
pub open spec fn stripped(s: Seq<char>, upto: int) -> Stripped
    decreases upto,
{
    if upto <= 0 {
        Stripped { out: Seq::empty(), in_tag: false }
    } else {
        strip_step(stripped(s, upto - 1), s[upto - 1])
    }
}

/// The state of the splitting into words.
pub struct Words {
    /// The words finished so far.
    pub done: Seq<Seq<char>>,
    /// The word being read; empty between words.
    pub current: Seq<char>,
}

/// The splitting into words after the character `c`: whitespace ends a
/// word, anything else continues one.
pub open spec fn word_step(st: Words, c: char) -> Words {
    if is_space(c) {
        if st.current.len() > 0 {
            Words { done: st.done.push(st.current), current: Seq::empty() }
        } else {
            st
        }
    } else {
        Words { current: st.current.push(c), ..st }
    }
}

/// The splitting into words after the first `upto` characters of `s`.
pub open spec fn words_upto(s: Seq<char>, upto: int) -> Words
    decreases upto,
{
    if upto <= 0 {
        Words { done: Seq::empty(), current: Seq::empty() }
    } else {
        word_step(words_upto(s, upto - 1), s[upto - 1])
    }
}

/// The words of `s`: its maximal runs of characters that are not
/// whitespace.
pub open spec fn words_of(s: Seq<char>) -> Seq<Seq<char>> {
    let st = words_upto(s, s.len() as int);
    if st.current.len() > 0 {
        st.done.push(st.current)
    } else {
        st.done
    }
}

/// `s` with every run of whitespace turned into one space and none at
/// either end.
pub open spec fn squeezed(s: Seq<char>) -> Seq<char> {
    join_with(words_of(s), ' ')
}

/// The text of an HTML page without its tags.
pub open spec fn html_text(html: Seq<char>) -> Seq<char> {
    squeezed(stripped(html, html.len() as int).out)
}

/// `s` with every run of whitespace turned into one space and none at
/// either end.
pub fn squeeze(s: &[char]) -> (out: String)
    ensures
        out@ == squeezed(s@),
{
    let mut words: Vec<String> = Vec::new();
    let mut current = String::new();
    let mut open = false;
    let mut i: usize = 0;
    assert(texts_of(words@) =~= words_upto(s@, 0).done);
    while i < s.len()
        invariant
            i <= s.len(),
            texts_of(words@) == words_upto(s@, i as int).done,
            current@ == words_upto(s@, i as int).current,
            open == (current@.len() > 0),
        decreases s.len() - i,
    {
        let c = s[i];
        let ghost before = texts_of(words@);
        if is_whitespace(c) {
            if open {
                words.push(current);
                assert(texts_of(words@) =~= before.push(words@.last()@));
                current = String::new();
                open = false;
            }
        } else {
            current.push(c);
            open = true;
        }
        i = i + 1;
    }
    if open {
        let ghost before = texts_of(words@);
        words.push(current);
        assert(texts_of(words@) =~= before.push(words@.last()@));
    }
    join_strings(&words, ' ')
}

/// Strip HTML tags from content
pub fn strip_html_tags(html: &str) -> (out: String)
    ensures
        out@ == html_text(html@),
{
    let mut kept: Vec<char> = Vec::new();
    let mut in_tag = false;
    for ch in it: html.chars()
        invariant
            it.seq() == html@,
            kept@ == stripped(html@, it.index() as int).out,
            in_tag == stripped(html@, it.index() as int).in_tag,
    {
        if ch == '<' {
            in_tag = true;
        } else if ch == '>' {
            in_tag = false;
            kept.push(' ');
        } else if !in_tag {
            kept.push(ch);
        }
    }
    squeeze(kept.as_slice())
}

/// The title that an HTML page declares: what stands between the first
/// `<title>` and the first `</title>` after it, trimmed.
pub open spec fn page_title(content: Seq<char>) -> Option<Seq<char>> {
    match find_first(content, "<title>"@) {
        Some(start) => match find_from(content, "</title>"@, start) {
            Some(end) => Some(trim(content.subrange(start + "<title>"@.len(), end))),
            None => None,
        },
        None => None,
    }
}

/// The title that an HTML page declares.
fn page_title_of(content: &[char]) -> (r: Option<String>)
    ensures
        text_of(r) == page_title(content@),
{
    let open = chars_of("<title>");
    let close = chars_of("</title>");
    let start = match find_in(content, open.as_slice(), 0) {
        Some(start) => start,
        None => {
            return None;
        },
    };
    let end = match find_in(content, close.as_slice(), start) {
        Some(end) => end,
        None => {
            return None;
        },
    };
    proof {
        reveal_strlit("<title>");
        reveal_strlit("</title>");
        lemma_find_from(content@, open@, 0);
        lemma_find_from(content@, close@, start as int);
        let a = content@.subrange(start as int, start + 7);
        let b = content@.subrange(end as int, end + 8);
        assert(a == open@);
        assert(b == close@);
        if end < start + 7 {
            assert(b[0] == '<');
            assert(b[1] == '/');
            assert(content@[end as int] == b[0]);
            assert(content@[end + 1] == b[1]);
            assert(content@[end as int] == a[end - start]);
            if end == start {
                assert(content@[end + 1] == a[1]);
            }
        }
    }
    Some(string_of(trim_of(&content[start + open.len()..end])))
}

/// Title and body of an HTML page whose file name gives the title
/// `fallback`.
pub fn html_content(fallback: String, content: &str) -> (r: (String, String))
    ensures
        r.0@ == title_or(page_title(content@), fallback@),
        r.1@ == html_text(content@),
{
    let text = chars_of(content);
    let title = match page_title_of(text.as_slice()) {
        Some(title) => title,
        None => fallback,
    };
    (title, strip_html_tags(content))
}

/// Extract content from HTML page
pub fn extract_html_content(path: &str, content: &str) -> (r: (String, String))
    ensures
        extracted(path@, content@, "page"@, r.0@, r.1@),
{
    let fallback = path_to_title(path);
    proof {
        lemma_kind_names();
        assert(is_path_title(fallback@, path@));
    }
    html_content(fallback, content)
}

// ── Documents ──────────────────────────────────────────────────────────────────

/// The title that the line `line` of a document gives: what follows `# `,
/// trimmed, or what follows `title:`, trimmed of whitespace and then of
/// quotes.
pub open spec fn document_line_title(line: Seq<char>) -> Option<Seq<char>> {
    let t = trim(line);
    if has_prefix(t, "# "@) {
        Some(trim(tail(t, "# "@.len() as int)))
    } else if has_prefix(t, "title:"@) {
        Some(trim_quotes(trim(tail(t, "title:"@.len() as int))))
    } else {
        None
    }
}

/// The title of the first of `lines` that gives one.
pub open spec fn first_document_title(lines: Seq<Seq<char>>) -> Option<Seq<char>>
    decreases lines.len(),
{
    if lines.len() == 0 {
        None
    } else if document_line_title(lines[0]).is_some() {
        document_line_title(lines[0])
    } else {
        first_document_title(lines.drop_first())
    }
}

/// The title of a document: that of its first line that gives one.
pub open spec fn document_title(content: Seq<char>) -> Option<Seq<char>> {
    first_document_title(split_lines(content))
}

/// The title of a document.
fn document_title_of(content: &[char]) -> (r: Option<String>)
    ensures
        text_of(r) == document_title(content@),
{
    let heading = chars_of("# ");
    let key = chars_of("title:");
    let mut iter = LineIter::new(content);
    loop
        invariant
            heading@ == "# "@,
            key@ == "title:"@,
            document_title(content@) == first_document_title(split_lines(iter.remaining@)),
        decreases iter.remaining@.len(),
    {
        let ghost rest = iter.remaining@;
        let line = match iter.next() {
            Some(line) => line,
            None => {
                return None;
            },
        };
        proof {
            lemma_line_end(rest, 0);
            let lines = split_lines(rest);
            assert(lines[0] == first_line(rest));
            assert(lines.drop_first() =~= split_lines(after_first_line(rest)));
        }
        let trimmed = trim_of(line);
        if starts_with(trimmed, heading.as_slice()) {
            return Some(string_of(trim_of(tail_of(trimmed, heading.len()))));
        }
        if starts_with(trimmed, key.as_slice()) {
            return Some(string_of(trim_quotes_of(trim_of(tail_of(trimmed, key.len())))));
        }
    }
}

/// Title and body of a markdown or text document whose file name gives the
/// title `fallback`.
pub fn document_content(fallback: String, content: &str) -> (r: (String, String))
    ensures
        r.0@ == title_or(document_title(content@), fallback@),
        r.1@ == content@,
{
    let text = chars_of(content);
    let title = match document_title_of(text.as_slice()) {
        Some(title) => title,
        None => fallback,
    };
    (title, content.to_owned())
}

/// Extract content from markdown/text document
pub fn extract_document_content(path: &str, content: &str) -> (r: (String, String))
    ensures
        extracted(path@, content@, "document"@, r.0@, r.1@),
{
    let fallback = path_to_title(path);
    proof {
        lemma_kind_names();
        assert(is_path_title(fallback@, path@));
    }
    document_content(fallback, content)
}

// ── Index entries ──────────────────────────────────────────────────────────────

/// The kind of content that a file holds.
#[derive(Debug, Clone, Copy, PartialEq, Eq, Structural)]
pub enum ContentKind {
    Module,
    Page,
    Document,
}

/// The name of a kind of content.
pub open spec fn kind_name(kind: ContentKind) -> Seq<char> {
    match kind {
        ContentKind::Module => "module"@,
        ContentKind::Page => "page"@,
        ContentKind::Document => "document"@,
    }
}

/// The kind of content named `name`, if it names one.
pub open spec fn kind_named(name: Seq<char>) -> Option<ContentKind> {
    if name == "module"@ {
        Some(ContentKind::Module)
    } else if name == "page"@ {
        Some(ContentKind::Page)
    } else if name == "document"@ {
        Some(ContentKind::Document)
    } else {
        None
    }
}

/// Title and body that content of the kind named `name` gives, with the
/// title `fallback` where the content declares none. Content of an unknown
/// kind has the title `fallback` and is its own body.
pub open spec fn content_of(name: Seq<char>, fallback: Seq<char>, content: Seq<char>) -> (
    Seq<char>,
    Seq<char>,
) {
    match kind_named(name) {
        Some(ContentKind::Module) => (
            title_or(display_name(content), fallback),
            js_searchable(content),
        ),
        Some(ContentKind::Page) => (title_or(page_title(content), fallback), html_text(content)),
        Some(ContentKind::Document) => (title_or(document_title(content), fallback), content),
        None => (fallback, content),
    }
}

/// The names of the kinds of content differ from each other.
proof fn lemma_kind_names()
    ensures
        kind_named("module"@) == Some(ContentKind::Module),
        kind_named("page"@) == Some(ContentKind::Page),
        kind_named("document"@) == Some(ContentKind::Document),
{
    reveal_strlit("module");
    reveal_strlit("page");
    reveal_strlit("document");
    assert("module"@.len() == 6);
    assert("page"@.len() == 4);
    assert("document"@.len() == 8);
}

/// Title and body of content of the kind named `content_type`, with the
/// title `fallback` where the content declares none.
pub fn typed_content(fallback: String, content: &str, content_type: &str) -> (r: (String, String))
    ensures
        (r.0@, r.1@) == content_of(content_type@, fallback@, content@),
{
    if same_text(content_type, "module") {
        module_content(fallback, content)
    } else if same_text(content_type, "page") {
        html_content(fallback, content)
    } else if same_text(content_type, "document") {
        document_content(fallback, content)
    } else {
        (fallback, content.to_owned())
    }
}

/// Extract title and body from file content
pub fn extract_content(path: &str, content: &str, content_type: &str) -> (r: (String, String))
    ensures
        extracted(path@, content@, content_type@, r.0@, r.1@),
{
    let fallback = path_to_title(path);
    assert(is_path_title(fallback@, path@));
    typed_content(fallback, content, content_type)
}

/// The kind of content that the file at `path` holds: a module or a page
/// by its extension, else a document.
pub open spec fn kind_of_path(path: Seq<char>) -> ContentKind {
    if crate::text::has_suffix(path, ".js"@) && !crate::text::has_suffix(path, ".min.js"@) {
        ContentKind::Module
    } else if crate::text::has_suffix(path, ".html"@) || crate::text::has_suffix(path, ".htm"@) {
        ContentKind::Page
    } else {
        ContentKind::Document
    }
}

/// The kind of content that the file at `path` holds.
pub fn content_kind(path: &str) -> (kind: ContentKind)
    ensures
        kind == kind_of_path(path@),
{
    if is_module_file(path) {
        ContentKind::Module
    } else if is_page_file(path) {
        ContentKind::Page
    } else {
        ContentKind::Document
    }
}

/// The name of a kind of content.
pub fn content_type_name(kind: ContentKind) -> (name: &'static str)
    ensures
        name@ == kind_name(kind),
{
    match kind {
        ContentKind::Module => "module",
        ContentKind::Page => "page",
        ContentKind::Document => "document",
    }
}

/// Whether a directory entry named `name` is left out of the index: hidden
/// files and special directories, whose names start with `.` or `_`.
pub fn is_skipped_entry(name: &str) -> (r: bool)
    ensures
        r == (name@.len() > 0 && (name@[0] == '.' || name@[0] == '_')),
{
    let chars = chars_of(name);
    chars.len() > 0 && (chars[0] == '.' || chars[0] == '_')
}

/// Whether the file at `path` is of a kind that is indexed.
pub fn is_indexed_file(path: &str) -> (r: bool)
    ensures
        r == (kind_of_path(path@) != ContentKind::Document || crate::text::has_suffix(
            path@,
            ".md"@,
        ) || crate::text::has_suffix(path@, ".txt"@)),
{
    is_module_file(path) || is_page_file(path) || is_document_file(path)
}

/// The index entry of the file at `path` with the text `content`, last
/// modified at `modified_at` and indexed at `indexed_at`, both in seconds.
pub fn index_entry(path: &str, content: &str, modified_at: u64, indexed_at: u64) -> (entry:
    ContentIndexEntry)
    ensures
        is_path_id(entry.id@, path@),
        entry.path@ == replaced(path@, '\\', '/'),
        entry.content_type@ == kind_name(kind_of_path(path@)),
        entry.body.is_some(),
        extracted(path@, content@, entry.content_type@, entry.title@, entry.body.unwrap()@),
        entry.modified_at == modified_at,
        entry.indexed_at == indexed_at,
{
    let content_type = content_type_name(content_kind(path));
    let (title, body) = extract_content(path, content, content_type);
    ContentIndexEntry {
        id: path_to_id(path),
        path: normalize_path(path),
        title,
        content_type: String::from_str(content_type),
        body: Some(body),
        modified_at,
        indexed_at,
    }
}

} // verus!
