//! Case-insensitive search within the blocks of a document.

use vstd::prelude::*;
use vstd::string::*;

use crate::blockstore::scanner::{views, Block, BlockView};
use crate::text::{chars_of, lowercase_of, same_text, to_lowercase};

verus! {

/// A search match within the block store.
#[derive(Debug)]
pub struct BlockSearchMatch {
    pub block_id: usize,
    pub start_line: usize,
    pub match_text: String,
}

/// The mathematical value of a [`BlockSearchMatch`].
pub struct MatchView {
    pub block_id: nat,
    pub start_line: nat,
    pub match_text: Seq<char>,
}

impl View for BlockSearchMatch {
    type V = MatchView;

    open spec fn view(&self) -> MatchView {
        MatchView {
            block_id: self.block_id as nat,
            start_line: self.start_line as nat,
            match_text: self.match_text@,
        }
    }
}

/// The values of `matches`, in order.
pub open spec fn match_views(matches: Seq<BlockSearchMatch>) -> Seq<MatchView> {
    Seq::new(matches.len(), |i: int| matches[i]@)
}

/// Whether the part of `markdown` from index `a` up to index `b` is a
/// match for a query whose lowercase form is `query_lower`: its own
/// lowercase form is that of the query.
pub open spec fn is_match(markdown: Seq<char>, a: int, b: int, query_lower: Seq<char>) -> bool {
    0 <= a <= b <= markdown.len() && lowercase_of(markdown.subrange(a, b)) == query_lower
}

/// The least end, at or after `b`, of a match that starts at `a`.
pub open spec fn first_end(markdown: Seq<char>, a: int, b: int, query_lower: Seq<char>) -> Option<
    int,
>
    decreases markdown.len() - b + 1,
{
    if b < a || b > markdown.len() {
        None
    } else if is_match(markdown, a, b, query_lower) {
        Some(b)
    } else {
        first_end(markdown, a, b + 1, query_lower)
    }
}

/// The first match at or after `a`: the least start of a match, with the
/// least end of a match that starts there.
pub open spec fn first_match(markdown: Seq<char>, a: int, query_lower: Seq<char>) -> Option<
    (int, int),
>
    decreases markdown.len() - a + 1,
{
    if a < 0 || a > markdown.len() {
        None
    } else {
        match first_end(markdown, a, a, query_lower) {
            Some(b) => Some((a, b)),
            None => first_match(markdown, a + 1, query_lower),
        }
    }
}

/// The text that a search shows for a block with the text `markdown`,
/// where `query_lower` is the lowercase form of the query: the first part
/// of `markdown`, in its own letter case, whose lowercase form is that of
/// the query; nothing where `markdown` has no such part.
pub open spec fn located(markdown: Seq<char>, query_lower: Seq<char>) -> Option<Seq<char>> {
    match first_match(markdown, 0, query_lower) {
        Some((a, b)) => Some(markdown.subrange(a, b)),
        None => None,
    }
}

/// The text that a search for `query` shows for a block with the text
/// `markdown`, if it matches.
pub open spec fn match_in(markdown: Seq<char>, query: Seq<char>) -> Option<Seq<char>> {
    located(markdown, lowercase_of(query))
}

/// The matches of `query` in `blocks`: one for each block that matches, in
/// the order of the blocks.
pub open spec fn search_matches(blocks: Seq<BlockView>, query: Seq<char>) -> Seq<MatchView>
    decreases blocks.len(),
{
    if blocks.len() == 0 {
        Seq::empty()
    } else {
        let before = search_matches(blocks.drop_last(), query);
        match match_in(blocks.last().markdown, query) {
            Some(text) => before.push(
                MatchView {
                    block_id: blocks.last().id,
                    start_line: blocks.last().start_line,
                    match_text: text,
                },
            ),
            None => before,
        }
    }
}

/// What `first_end` finds is the least end of a match that starts at `a`,
/// and it finds one wherever there is any.
pub proof fn lemma_first_end(markdown: Seq<char>, a: int, b: int, query_lower: Seq<char>)
    requires
        0 <= a <= b,
    ensures
        match first_end(markdown, a, b, query_lower) {
            Some(e) => b <= e && is_match(markdown, a, e, query_lower) && forall|k: int|
                b <= k < e ==> !is_match(markdown, a, k, query_lower),
            None => forall|k: int| b <= k ==> !is_match(markdown, a, k, query_lower),
        },
    decreases markdown.len() - b + 1,
{
    if b <= markdown.len() && !is_match(markdown, a, b, query_lower) {
        lemma_first_end(markdown, a, b + 1, query_lower);
    }
}

/// What `first_match` finds is a match with the least start, and it finds
/// one wherever there is any.
pub proof fn lemma_first_match(markdown: Seq<char>, a: int, query_lower: Seq<char>)
    requires
        0 <= a,
    ensures
        match first_match(markdown, a, query_lower) {
            Some((s, e)) => a <= s && is_match(markdown, s, e, query_lower) && forall|
                i: int,
                j: int,
            |
                a <= i < s ==> !is_match(markdown, i, j, query_lower),
            None => forall|i: int, j: int| a <= i ==> !is_match(markdown, i, j, query_lower),
        },
    decreases markdown.len() - a + 1,
{
    if a <= markdown.len() {
        lemma_first_end(markdown, a, a, query_lower);
        if first_end(markdown, a, a, query_lower).is_none() {
            lemma_first_match(markdown, a + 1, query_lower);
        }
    }
}

/// The text that a search shows is a part of the block's own text, in the
/// block's own letter case, whose lowercase form is that of the query; it
/// starts at the least index at which such a part starts. A block matches
/// if and only if it has such a part.
pub proof fn lemma_match_is_exact_case(markdown: Seq<char>, query: Seq<char>)
    ensures
        match match_in(markdown, query) {
            Some(text) => lowercase_of(text) == lowercase_of(query) && exists|a: int, b: int|
                #![trigger markdown.subrange(a, b)]
                is_match(markdown, a, b, lowercase_of(query)) && text == markdown.subrange(a, b)
                    && forall|i: int, j: int|
                    0 <= i < a ==> !is_match(markdown, i, j, lowercase_of(query)),
            None => forall|i: int, j: int| !is_match(markdown, i, j, lowercase_of(query)),
        },
{
    lemma_first_match(markdown, 0, lowercase_of(query));
    match first_match(markdown, 0, lowercase_of(query)) {
        Some((a, b)) => {
            assert(is_match(markdown, a, b, lowercase_of(query)) && markdown.subrange(a, b)
                == markdown.subrange(a, b));
        },
        None => {},
    }
}

/// The text that a search shows for a block with the text `markdown`,
/// where `query_lower` is the lowercase form of the query.
pub fn locate(markdown: &str, query_lower: &str) -> (r: Option<String>)
    ensures
        text_view(r) == located(markdown@, query_lower@),
{
    let md = chars_of(markdown);
    let mut a: usize = 0;
    loop
        invariant
            a <= md@.len(),
            md@ == markdown@,
            first_match(md@, 0, query_lower@) == first_match(md@, a as int, query_lower@),
        decreases md@.len() - a,
    {
        let mut candidate = String::new();
        let mut b: usize = a;
        assert(md@.subrange(a as int, a as int) =~= Seq::<char>::empty());
        loop
            invariant
                a <= b <= md@.len(),
                md@ == markdown@,
                first_match(md@, 0, query_lower@) == first_match(md@, a as int, query_lower@),
                candidate@ == md@.subrange(a as int, b as int),
                first_end(md@, a as int, a as int, query_lower@) == first_end(
                    md@,
                    a as int,
                    b as int,
                    query_lower@,
                ),
            ensures
                b == md@.len(),
                first_end(md@, a as int, a as int, query_lower@).is_none(),
            decreases md@.len() - b,
        {
            let lowered = to_lowercase(candidate.as_str());
            if same_text(lowered.as_str(), query_lower) {
                assert(is_match(md@, a as int, b as int, query_lower@));
                assert(first_end(md@, a as int, b as int, query_lower@) == Some(b as int));
                assert(first_match(md@, a as int, query_lower@) == Some((a as int, b as int)));
                return Some(candidate);
            }
            if b == md.len() {
                assert(first_end(md@, a as int, b + 1, query_lower@).is_none());
                break ;
            }
            candidate.push(md[b]);
            b = b + 1;
            assert(candidate@ =~= md@.subrange(a as int, b as int));
        }
        if a == md.len() {
            assert(first_match(md@, a + 1, query_lower@).is_none());
            return None;
        }
        a = a + 1;
    }
}

/// The view of an optional string.
pub open spec fn text_view(s: Option<String>) -> Option<Seq<char>> {
    match s {
        Some(s) => Some(s@),
        None => None,
    }
}

/// The matches of `query` in `blocks`.
pub fn search_in(blocks: &[Block], query: &str) -> (matches: Vec<BlockSearchMatch>)
    ensures
        match_views(matches@) == search_matches(views(blocks@), query@),
{
    let query_lower = to_lowercase(query);
    let mut matches: Vec<BlockSearchMatch> = Vec::new();
    let mut i: usize = 0;
    assert(views(blocks@).take(0) =~= Seq::<BlockView>::empty());
    assert(match_views(matches@) =~= Seq::<MatchView>::empty());
    while i < blocks.len()
        invariant
            i <= blocks.len(),
            query_lower@ == lowercase_of(query@),
            match_views(matches@) == search_matches(views(blocks@).take(i as int), query@),
        decreases blocks.len() - i,
    {
        let block = &blocks[i];
        let ghost before = match_views(matches@);
        match locate(block.markdown.as_str(), query_lower.as_str()) {
            Some(match_text) => {
                matches.push(
                    BlockSearchMatch {
                        block_id: block.id,
                        start_line: block.start_line,
                        match_text,
                    },
                );
                assert(match_views(matches@) =~= before.push(matches@.last()@));
            },
            None => {},
        }
        i = i + 1;
        proof {
            let all = views(blocks@);
            assert(all.take(i as int).drop_last() =~= all.take(i - 1));
            assert(all.take(i as int).last() == blocks@[i - 1]@);
        }
    }
    assert(views(blocks@).take(blocks.len() as int) =~= views(blocks@));
    matches
}

} // verus!
