//! Utility functions on paths and file contents.

use vstd::prelude::*;
use vstd::string::*;

use crate::blockstore::scanner::lines::{
    after_first_line, first_line, lemma_line_end, split_lines, LineIter,
};
use crate::text::{
    chars_of, ends_with, find_first, find_from, find_in, has_prefix, has_suffix, lemma_find_from,
    occurs_at, replace_char, replaced, starts_with, string_of, trim, trim_of,
};

verus! {

// ── File kinds ─────────────────────────────────────────────────────────────────

/// Whether `s` ends with `suffix`.
pub fn str_ends_with(s: &[char], suffix: &str) -> (r: bool)
    ensures
        r == has_suffix(s@, suffix@),
{
    let tail = chars_of(suffix);
    ends_with(s, tail.as_slice())
}

/// Check if path is a JavaScript module
pub fn is_module_file(path: &str) -> (r: bool)
    ensures
        r == (has_suffix(path@, ".js"@) && !has_suffix(path@, ".min.js"@)),
{
    let p = chars_of(path);
    str_ends_with(p.as_slice(), ".js") && !str_ends_with(p.as_slice(), ".min.js")
}

/// Check if path is an HTML page
pub fn is_page_file(path: &str) -> (r: bool)
    ensures
        r == (has_suffix(path@, ".html"@) || has_suffix(path@, ".htm"@)),
{
    let p = chars_of(path);
    str_ends_with(p.as_slice(), ".html") || str_ends_with(p.as_slice(), ".htm")
}

/// Check if path is a document
pub fn is_document_file(path: &str) -> (r: bool)
    ensures
        r == (has_suffix(path@, ".md"@) || has_suffix(path@, ".txt"@)),
{
    let p = chars_of(path);
    str_ends_with(p.as_slice(), ".md") || str_ends_with(p.as_slice(), ".txt")
}

/// Normalize path separators to forward slashes
pub fn normalize_path(path: &str) -> (out: String)
    ensures
        out@ == replaced(path@, '\\', '/'),
{
    replace_char(path, '\\', '/')
}

// ── File names ─────────────────────────────────────────────────────────────────

/// What can be said of the final component of `path` on every platform: it
/// is a part of `path`, and it is not empty.
pub open spec fn component_of(name: Seq<char>, path: Seq<char>) -> bool {
    &&& name.len() > 0
    &&& exists|i: int| occurs_at(path, name, i)
}

/// Whether `name` can be what the platform takes for the file name of
/// `path`: a component of it, or nothing.
pub open spec fn names_file_of(name: Option<Seq<char>>, path: Seq<char>) -> bool {
    match name {
        Some(n) => component_of(n, path),
        None => true,
    }
}

/// `Path::file_name` of the standard library, read as text: the final
/// component of `path`, or `None` where it has none (the path is empty, is
/// a root, or ends in `..`). Which characters separate components depends
/// on the platform, so the contract claims only what holds on all of them.
#[verifier::external_body]
pub(crate) fn file_name(path: &str) -> (name: Option<String>)
    ensures
        names_file_of(text_of(name), path@),
{
    match std::path::Path::new(path).file_name() {
        Some(name) => match name.to_str() {
            Some(text) => Some(text.to_owned()),
            None => None,
        },
        None => None,
    }
}

/// Index of the last `.` of `name` before `to`, or -1.
pub open spec fn last_dot(name: Seq<char>, to: int) -> int
    decreases to,
{
    if to <= 0 || to > name.len() {
        -1
    } else if name[to - 1] == '.' {
        to - 1
    } else {
        last_dot(name, to - 1)
    }
}

/// The stem of a file name: the name up to its last `.`, or all of it where
/// it holds no `.` or only one at its start.
pub open spec fn stem_of(name: Seq<char>) -> Seq<char> {
    let dot = last_dot(name, name.len() as int);
    if dot <= 0 {
        name
    } else {
        name.subrange(0, dot)
    }
}

/// The id that a file name gives: the name itself, `unknown` without one.
pub open spec fn id_of_name(name: Option<Seq<char>>) -> Seq<char> {
    match name {
        Some(n) => n,
        None => "unknown"@,
    }
}

/// The title that a file name gives: its stem, `Untitled` without one.
pub open spec fn title_of_name(name: Option<Seq<char>>) -> Seq<char> {
    match name {
        Some(n) => stem_of(n),
        None => "Untitled"@,
    }
}

/// The view of an optional string.
pub open spec fn text_of(s: Option<String>) -> Option<Seq<char>> {
    match s {
        Some(s) => Some(s@),
        None => None,
    }
}

/// The id of a file with the given name.
pub fn id_from_file_name(name: Option<String>) -> (id: String)
    ensures
        id@ == id_of_name(text_of(name)),
{
    match name {
        Some(n) => n,
        None => String::from_str("unknown"),
    }
}

/// The title of a file with the given name.
pub fn title_from_file_name(name: Option<String>) -> (title: String)
    ensures
        title@ == title_of_name(text_of(name)),
{
    match name {
        Some(n) => {
            let chars = chars_of(n.as_str());
            let mut dot: usize = chars.len();
            while dot > 0 && chars[dot - 1] != '.'
                invariant
                    dot <= chars.len(),
                    last_dot(chars@, chars@.len() as int) == last_dot(chars@, dot as int),
                decreases dot,
            {
                dot = dot - 1;
            }
            if dot <= 1 {
                n
            } else {
                string_of(&chars.as_slice()[0..dot - 1])
            }
        },
        None => String::from_str("Untitled"),
    }
}

/// Whether `id` can be the id of the file at `path`: the id of a file name
/// that `path` can have.
pub open spec fn is_path_id(id: Seq<char>, path: Seq<char>) -> bool {
    exists|name: Option<Seq<char>>| #[trigger] names_file_of(name, path) && id == id_of_name(name)
}

/// Whether `title` can be the title of the file at `path`: the title of a
/// file name that `path` can have.
pub open spec fn is_path_title(title: Seq<char>, path: Seq<char>) -> bool {
    exists|name: Option<Seq<char>>| #[trigger]
        names_file_of(name, path) && title == title_of_name(name)
}

/// Extract module ID from file path: the full file name, with extension.
/// e.g., "Home/Tools/calcA.js" -> "calcA.js"
pub fn path_to_id(path: &str) -> (id: String)
    ensures
        is_path_id(id@, path@),
{
    let name = file_name(path);
    assert(names_file_of(text_of(name), path@));
    id_from_file_name(name)
}

/// Extract title from file name: the file name without its extension.
/// e.g., "calcA.js" -> "calcA"
pub fn path_to_title(path: &str) -> (title: String)
    ensures
        is_path_title(title@, path@),
{
    let name = file_name(path);
    assert(names_file_of(text_of(name), path@));
    title_from_file_name(name)
}

// ── Titles in file contents ────────────────────────────────────────────────────

/// Whether `c` is a single or a double quote.
pub open spec fn is_quote(c: char) -> bool {
    c == '\'' || c == '"'
}

/// Index of the first character of `s` at or after `from` that is no quote.
pub open spec fn skip_quote(s: Seq<char>, from: int) -> int
    decreases s.len() - from,
{
    if 0 <= from < s.len() && is_quote(s[from]) {
        skip_quote(s, from + 1)
    } else {
        from
    }
}

/// One past the last character of `s` before `to` and not before `from`
/// that is no quote.
pub open spec fn back_quote(s: Seq<char>, from: int, to: int) -> int
    decreases to,
{
    if 0 <= from < to <= s.len() && is_quote(s[to - 1]) {
        back_quote(s, from, to - 1)
    } else {
        to
    }
}

/// `s` without the quotes at its start and at its end.
pub open spec fn trim_quotes(s: Seq<char>) -> Seq<char> {
    let a = if skip_quote(s, 0) <= s.len() {
        skip_quote(s, 0)
    } else {
        s.len() as int
    };
    s.subrange(a, back_quote(s, a, s.len() as int))
}

/// `s` from index `from` on, or nothing where `from` is past its end.
pub open spec fn tail(s: Seq<char>, from: int) -> Seq<char> {
    if 0 <= from <= s.len() {
        s.subrange(from, s.len() as int)
    } else {
        Seq::empty()
    }
}

/// The frontmatter title of the line `t`: what follows `title:`, trimmed of
/// whitespace and then of quotes.
pub open spec fn yaml_title(t: Seq<char>) -> Option<Seq<char>> {
    if has_prefix(t, "title:"@) {
        let value = trim_quotes(trim(tail(t, "title:"@.len() as int)));
        if value.len() > 0 {
            Some(value)
        } else {
            None
        }
    } else {
        None
    }
}

/// The heading title of the line `t`: what follows `# `, trimmed.
pub open spec fn heading_title(t: Seq<char>) -> Option<Seq<char>> {
    if has_prefix(t, "# "@) {
        let title = trim(tail(t, "# "@.len() as int));
        if title.len() > 0 {
            Some(title)
        } else {
            None
        }
    } else {
        None
    }
}

/// The HTML title of the line `t`: what stands between the end of the first
/// `<h1` tag and the first `</h1>` after it, trimmed.
pub open spec fn html_title(t: Seq<char>) -> Option<Seq<char>> {
    match find_first(t, "<h1"@) {
        Some(start) => match find_from(t, ">"@, start) {
            Some(tag_end) => {
                let after = tail(t, tag_end + 1);
                match find_first(after, "</h1>"@) {
                    Some(end) => {
                        let title = trim(after.subrange(0, end));
                        if title.len() > 0 {
                            Some(title)
                        } else {
                            None
                        }
                    },
                    None => None,
                }
            },
            None => None,
        },
        None => None,
    }
}

/// The title that the trimmed line `t` gives, inside frontmatter or
/// outside: a frontmatter title inside, a heading outside, and else an HTML
/// title.
pub open spec fn line_title(t: Seq<char>, in_frontmatter: bool) -> Option<Seq<char>> {
    if in_frontmatter && yaml_title(t).is_some() {
        yaml_title(t)
    } else if !in_frontmatter && heading_title(t).is_some() {
        heading_title(t)
    } else {
        html_title(t)
    }
}

/// The first title among `lines`. A line `---` opens the frontmatter the
/// first time and closes it every time after; `started` says whether one
/// was seen, `in_frontmatter` whether the frontmatter is open.
pub open spec fn first_title(lines: Seq<Seq<char>>, started: bool, in_frontmatter: bool) -> Option<
    Seq<char>,
>
    decreases lines.len(),
{
    if lines.len() == 0 {
        None
    } else {
        let t = trim(lines[0]);
        if t == "---"@ {
            first_title(lines.drop_first(), true, !started)
        } else if line_title(t, in_frontmatter).is_some() {
            line_title(t, in_frontmatter)
        } else {
            first_title(lines.drop_first(), started, in_frontmatter)
        }
    }
}

/// The title of a text: the first that one of its lines gives.
pub open spec fn title_of_content(content: Seq<char>) -> Option<Seq<char>> {
    first_title(split_lines(content), false, false)
}

/// `s` without the quotes at its start and at its end.
pub fn trim_quotes_of(s: &[char]) -> (t: &[char])
    ensures
        t@ == trim_quotes(s@),
{
    let mut a: usize = 0;
    while a < s.len() && (s[a] == '\'' || s[a] == '"')
        invariant
            a <= s.len(),
            skip_quote(s@, 0) == skip_quote(s@, a as int),
        decreases s.len() - a,
    {
        a = a + 1;
    }
    let mut b: usize = s.len();
    while b > a && (s[b - 1] == '\'' || s[b - 1] == '"')
        invariant
            a <= b <= s.len(),
            back_quote(s@, a as int, s@.len() as int) == back_quote(s@, a as int, b as int),
        decreases b,
    {
        b = b - 1;
    }
    &s[a..b]
}

/// `s` from index `from` on.
pub fn tail_of(s: &[char], from: usize) -> (t: &[char])
    ensures
        t@ == tail(s@, from as int),
{
    if from <= s.len() {
        &s[from..s.len()]
    } else {
        &s[0..0]
    }
}

/// The text of `s`, unless it is empty.
fn non_empty(s: &[char]) -> (r: Option<String>)
    ensures
        text_of(r) == if s@.len() > 0 {
            Some(s@)
        } else {
            None
        },
{
    if s.len() > 0 {
        Some(string_of(s))
    } else {
        None
    }
}

/// The frontmatter title of the line `t`.
fn yaml_title_of(t: &[char]) -> (r: Option<String>)
    ensures
        text_of(r) == yaml_title(t@),
{
    let key = chars_of("title:");
    if starts_with(t, key.as_slice()) {
        non_empty(trim_quotes_of(trim_of(tail_of(t, key.len()))))
    } else {
        None
    }
}

/// The heading title of the line `t`.
fn heading_title_of(t: &[char]) -> (r: Option<String>)
    ensures
        text_of(r) == heading_title(t@),
{
    let key = chars_of("# ");
    if starts_with(t, key.as_slice()) {
        non_empty(trim_of(tail_of(t, key.len())))
    } else {
        None
    }
}

/// The HTML title of the line `t`.
fn html_title_of(t: &[char]) -> (r: Option<String>)
    ensures
        text_of(r) == html_title(t@),
{
    let open = chars_of("<h1");
    let close = chars_of(">");
    let end_tag = chars_of("</h1>");
    let start = match find_in(t, open.as_slice(), 0) {
        Some(start) => start,
        None => {
            return None;
        },
    };
    let tag_end = match find_in(t, close.as_slice(), start) {
        Some(tag_end) => tag_end,
        None => {
            return None;
        },
    };
    proof {
        reveal_strlit(">");
        lemma_find_from(t@, close@, start as int);
        assert(tag_end + 1 <= t.len());
    }
    let after = tail_of(t, tag_end + 1);
    let end = match find_in(after, end_tag.as_slice(), 0) {
        Some(end) => end,
        None => {
            return None;
        },
    };
    proof {
        lemma_find_from(after@, end_tag@, 0);
    }
    non_empty(trim_of(&after[0..end]))
}

/// The title that the trimmed line `t` gives.
fn line_title_of(t: &[char], in_frontmatter: bool) -> (r: Option<String>)
    ensures
        text_of(r) == line_title(t@, in_frontmatter),
{
    if in_frontmatter {
        let title = yaml_title_of(t);
        if title.is_some() {
            return title;
        }
    } else {
        let title = heading_title_of(t);
        if title.is_some() {
            return title;
        }
    }
    html_title_of(t)
}

/// Extract title from file content
/// Priority:
/// 1) YAML frontmatter `title:` field (markdown)
/// 2) First `#` heading (markdown)
/// 3) First `<h1>` tag content (HTML/JavaScript)
/// 4) None (falls back to filename)
pub fn extract_title_from_content(content: &str) -> (title: Option<String>)
    ensures
        text_of(title) == title_of_content(content@),
{
    let text = chars_of(content);
    let marker = chars_of("---");
    let mut in_frontmatter = false;
    let mut frontmatter_started = false;
    let mut iter = LineIter::new(text.as_slice());
    loop
        invariant
            marker@ == "---"@,
            iter.remaining@.len() <= text@.len(),
            title_of_content(content@) == first_title(
                split_lines(iter.remaining@),
                frontmatter_started,
                in_frontmatter,
            ),
        decreases iter.remaining@.len(),
    {
        let ghost rest = iter.remaining@;
        let line = match iter.next() {
            Some(line) => line,
            None => {
                return None;
            },
        };
        proof {
            lemma_line_end(rest, 0);
            let lines = split_lines(rest);
            assert(lines[0] == first_line(rest));
            assert(lines.drop_first() =~= split_lines(after_first_line(rest)));
        }
        let trimmed = trim_of(line);
        if crate::text::same_chars(trimmed, marker.as_slice()) {
            in_frontmatter = !frontmatter_started;
            frontmatter_started = true;
        } else {
            let title = line_title_of(trimmed, in_frontmatter);
            if title.is_some() {
                return title;
            }
        }
    }
}

} // verus!
