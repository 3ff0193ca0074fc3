//! Queries for the full-text index.

use vstd::prelude::*;
use vstd::string::*;

use crate::text::{chars_of, string_of, trim, trim_of};

verus! {

/// Number of results that a search asks for.
pub const SEARCH_LIMIT: usize = 20;

/// What stands for the character `c` in an escaped query: a double quote is
/// doubled, `*` is dropped, and `:`, `(`, `)`, `[` and `]` become spaces.
pub open spec fn escaped_char(c: char) -> Seq<char> {
    if c == '"' {
        seq!['"', '"']
    } else if c == '*' {
        Seq::empty()
    } else if c == ':' || c == '(' || c == ')' || c == '[' || c == ']' {
        seq![' ']
    } else {
        seq![c]
    }
}

/// The first `upto` characters of `s`, escaped.
pub open spec fn escaped_upto(s: Seq<char>, upto: int) -> Seq<char>
    decreases upto,
{
    if upto <= 0 {
        Seq::empty()
    } else {
        escaped_upto(s, upto - 1) + escaped_char(s[upto - 1])
    }
}

/// The query `query` with the characters escaped that the index gives a
/// meaning to, and trimmed.
pub open spec fn escaped_query(query: Seq<char>) -> Seq<char> {
    trim(escaped_upto(query, query.len() as int))
}

/// The query that a search for `query` puts to the index: nothing for a
/// blank query, else the escaped query as a prefix pattern.
pub open spec fn fts_query_of(query: Seq<char>) -> Option<Seq<char>> {
    if trim(query).len() == 0 {
        None
    } else {
        Some(escaped_query(query).push('*'))
    }
}

/// Escape special FTS5 query characters
pub fn escape_fts_query(query: &str) -> (out: String)
    ensures
        out@ == escaped_query(query@),
{
    let mut kept: Vec<char> = Vec::new();
    for c in it: query.chars()
        invariant
            it.seq() == query@,
            kept@ == escaped_upto(query@, it.index() as int),
    {
        let ghost before = kept@;
        if c == '"' {
            kept.push('"');
            kept.push('"');
            assert(kept@ =~= before + escaped_char(c));
        } else if c == '*' {
            assert(kept@ =~= before + escaped_char(c));
        } else if c == ':' || c == '(' || c == ')' || c == '[' || c == ']' {
            kept.push(' ');
            assert(kept@ =~= before + escaped_char(c));
        } else {
            kept.push(c);
            assert(kept@ =~= before + escaped_char(c));
        }
    }
    string_of(trim_of(kept.as_slice()))
}

/// The query that a search for `query` puts to the index.
pub fn fts_query(query: &str) -> (r: Option<String>)
    ensures
        match r {
            Some(q) => fts_query_of(query@) == Some(q@),
            None => fts_query_of(query@).is_none(),
        },
{
    let chars = chars_of(query);
    if trim_of(chars.as_slice()).len() == 0 {
        return None;
    }
    let mut out = escape_fts_query(query);
    out.push('*');
    Some(out)
}

} // verus!
