//! Classification of single lines.
//!
//! Every function here looks at one line, already stripped of its line
//! break, and decides one lexical question about it.

use vstd::prelude::*;

use crate::blockstore::scanner::BlockType;
use crate::text::{
    blank_from, is_ascii_digit, is_digit, is_space, is_whitespace, leading_run,
    lemma_skip_space_bounds, skip_chars, skip_spaces, trim_start, trim_start_of,
};

verus! {

// ── Tables ─────────────────────────────────────────────────────────────────────

/// A table line is one whose first character after leading whitespace is `|`.
pub open spec fn table_line(line: Seq<char>) -> bool {
    let t = trim_start(line);
    t.len() > 0 && t[0] == '|'
}

/// Returns `true` if the line is part of a markdown table (starts with `|`).
pub fn is_table_line(line: &[char]) -> (r: bool)
    ensures
        r == table_line(line@),
{
    let t = trim_start_of(line);
    t.len() > 0 && t[0] == '|'
}

// ── Code fences ────────────────────────────────────────────────────────────────

/// The fence that `line` opens, if any: the fence character and the length
/// of its run. A fence is a run of at least three backticks or at least
/// three tildes after leading whitespace.
pub open spec fn fence_open(line: Seq<char>) -> Option<(char, nat)> {
    let t = trim_start(line);
    if leading_run(t, '`') >= 3 {
        Some(('`', leading_run(t, '`')))
    } else if leading_run(t, '~') >= 3 {
        Some(('~', leading_run(t, '~')))
    } else {
        None
    }
}

/// Whether `line` closes a fence opened with `min_len` repetitions of
/// `fence_char`: after leading whitespace it holds at least `min_len` of
/// that character and then nothing but whitespace.
pub open spec fn fence_close(line: Seq<char>, fence_char: char, min_len: nat) -> bool {
    let t = trim_start(line);
    let n = leading_run(t, fence_char);
    n >= min_len && blank_from(t, n as int)
}

/// Detect whether `line` opens a code fence.
/// Returns `(fence_char, min_closing_length)` if it does.
pub fn detect_fence_open(line: &[char]) -> (r: Option<(char, usize)>)
    ensures
        match r {
            Some((ch, len)) => fence_open(line@) == Some((ch, len as nat)),
            None => fence_open(line@).is_none(),
        },
{
    let t = trim_start_of(line);
    let ticks = skip_chars(t, '`', 0);
    if ticks >= 3 {
        return Some(('`', ticks));
    }
    let tildes = skip_chars(t, '~', 0);
    if tildes >= 3 {
        return Some(('~', tildes));
    }
    None
}

/// Return `true` if `line` closes an open fence of `(fence_char, min_len)`.
pub fn is_fence_close(line: &[char], fence_char: char, min_len: usize) -> (r: bool)
    ensures
        r == fence_close(line@, fence_char, min_len as nat),
{
    let t = trim_start_of(line);
    let count = skip_chars(t, fence_char, 0);
    if count < min_len {
        return false;
    }
    let rest = skip_spaces(t, count);
    rest >= t.len()
}

// ── Headings ───────────────────────────────────────────────────────────────────

/// The ATX heading level of `line`: the number of `#` it starts with, when
/// that number is between 1 and 6 and a space or the end of the line follows.
pub open spec fn heading_level(line: Seq<char>) -> Option<nat> {
    let n = leading_run(line, '#');
    if 1 <= n <= 6 && (line.len() == n || line[n as int] == ' ') {
        Some(n)
    } else {
        None
    }
}

/// Detect the ATX heading level (1–6) from a line.
pub fn detect_heading_level(line: &[char]) -> (r: Option<usize>)
    ensures
        match r {
            Some(n) => heading_level(line@) == Some(n as nat),
            None => heading_level(line@).is_none(),
        },
{
    let n = skip_chars(line, '#', 0);
    if n >= 1 && n <= 6 && (line.len() == n || line[n] == ' ') {
        Some(n)
    } else {
        None
    }
}

// ── Thematic breaks ────────────────────────────────────────────────────────────

/// Number of characters among the first `upto` of `s` that are not whitespace.
pub open spec fn solid_count(s: Seq<char>, upto: int) -> nat
    decreases upto,
{
    if upto <= 0 || upto > s.len() {
        0
    } else if is_space(s[upto - 1]) {
        solid_count(s, upto - 1)
    } else {
        solid_count(s, upto - 1) + 1
    }
}

/// Whether `line` is a rule drawn with `mark`: it holds `mark` at least
/// three times and otherwise only whitespace.
pub open spec fn rule_of(line: Seq<char>, mark: char) -> bool {
    &&& forall|i: int| 0 <= i < line.len() ==> is_space(#[trigger] line[i]) || line[i] == mark
    &&& solid_count(line, line.len() as int) >= 3
}

/// A thematic break is a rule drawn with `-`, `*` or `_`.
pub open spec fn horizontal_rule(line: Seq<char>) -> bool {
    rule_of(line, '-') || rule_of(line, '*') || rule_of(line, '_')
}

/// Return `true` if `line` is a thematic break (horizontal rule).
pub fn is_horizontal_rule(line: &[char]) -> (r: bool)
    ensures
        r == horizontal_rule(line@),
{
    let first = skip_spaces(line, 0);
    proof {
        lemma_skip_space_bounds(line@, 0);
    }
    if first >= line.len() {
        proof {
            lemma_solid_count_blank(line@, line.len() as int);
        }
        return false;
    }
    let mark = line[first];
    if !(mark == '-' || mark == '*' || mark == '_') {
        return false;
    }
    let mut count: usize = 0;
    let mut i: usize = 0;
    while i < line.len()
        invariant
            i <= line.len(),
            count == solid_count(line@, i as int),
            count <= i,
            first < line.len(),
            line@[first as int] == mark,
            !is_space(mark),
            forall|j: int| 0 <= j < i ==> is_space(#[trigger] line@[j]) || line@[j] == mark,
        decreases line.len() - i,
    {
        let c = line[i];
        if !is_whitespace(c) {
            if c != mark {
                return false;
            }
            count = count + 1;
        }
        i = i + 1;
    }
    count >= 3
}

/// A line of whitespace alone has no solid character.
pub proof fn lemma_solid_count_blank(s: Seq<char>, upto: int)
    requires
        0 <= upto <= s.len(),
        forall|i: int| 0 <= i < upto ==> is_space(#[trigger] s[i]),
    ensures
        solid_count(s, upto) == 0,
    decreases upto,
{
    if upto > 0 {
        lemma_solid_count_blank(s, upto - 1);
    }
}

// ── Lists and quotes ───────────────────────────────────────────────────────────

/// Whether `s` holds `a` at index `i` and `b` right after it.
pub open spec fn pair_at(s: Seq<char>, i: int, a: char, b: char) -> bool {
    0 <= i && i + 1 < s.len() && s[i] == a && s[i + 1] == b
}

/// Index of the first character of `s` at or after `from` that is no
/// decimal digit, or `s.len()` where only digits follow.
pub open spec fn skip_digits(s: Seq<char>, from: int) -> int
    decreases s.len() - from,
{
    if 0 <= from < s.len() && is_digit(s[from]) {
        skip_digits(s, from + 1)
    } else {
        from
    }
}

/// An unordered list item starts with `-`, `*` or `+` and a space.
pub open spec fn bullet_item(t: Seq<char>) -> bool {
    pair_at(t, 0, '-', ' ') || pair_at(t, 0, '*', ' ') || pair_at(t, 0, '+', ' ')
}

/// An ordered list item starts with one or more decimal digits, followed
/// by `.` or `)` and a space.
pub open spec fn ordered_item(t: Seq<char>) -> bool {
    let n = skip_digits(t, 0);
    n >= 1 && n + 1 < t.len() && (t[n] == '.' || t[n] == ')') && t[n + 1] == ' '
}

/// A quote starts with `>`.
pub open spec fn quote_line(t: Seq<char>) -> bool {
    t.len() > 0 && t[0] == '>'
}

/// Whether `t` starts with one or more decimal digits, followed by `.` or
/// `)` and a space.
fn is_ordered_item(t: &[char]) -> (r: bool)
    ensures
        r == ordered_item(t@),
{
    let mut n: usize = 0;
    while n < t.len() && is_ascii_digit(t[n])
        invariant
            n <= t.len(),
            skip_digits(t@, 0) == skip_digits(t@, n as int),
        decreases t.len() - n,
    {
        n = n + 1;
    }
    n >= 1 && t.len() - n >= 2 && (t[n] == '.' || t[n] == ')') && t[n + 1] == ' '
}

// ── First-line classification ──────────────────────────────────────────────────

/// The heading type of a level between 1 and 6.
pub open spec fn heading_type(level: nat) -> BlockType {
    if level == 1 {
        BlockType::Heading1
    } else if level == 2 {
        BlockType::Heading2
    } else if level == 3 {
        BlockType::Heading3
    } else if level == 4 {
        BlockType::Heading4
    } else if level == 5 {
        BlockType::Heading5
    } else {
        BlockType::Heading6
    }
}

/// The type that the opening line of a block gives it, in priority order:
/// thematic break, heading, list, quote; `None` where no pattern applies.
pub open spec fn first_line_type(line: Seq<char>) -> Option<BlockType> {
    let t = trim_start(line);
    if horizontal_rule(t) {
        Some(BlockType::HorizontalRule)
    } else if heading_level(t).is_some() {
        Some(heading_type(heading_level(t).unwrap()))
    } else if bullet_item(t) || ordered_item(t) {
        Some(BlockType::List)
    } else if quote_line(t) {
        Some(BlockType::Blockquote)
    } else {
        None
    }
}

/// Classify the semantic block type from the first line of a new block.
pub fn classify_first_line(line: &[char]) -> (r: Option<BlockType>)
    ensures
        r == first_line_type(line@),
{
    let t = trim_start_of(line);
    if is_horizontal_rule(t) {
        return Some(BlockType::HorizontalRule);
    }
    if let Some(level) = detect_heading_level(t) {
        return Some(
            match level {
                1 => BlockType::Heading1,
                2 => BlockType::Heading2,
                3 => BlockType::Heading3,
                4 => BlockType::Heading4,
                5 => BlockType::Heading5,
                _ => BlockType::Heading6,
            },
        );
    }
    if t.len() >= 2 && (t[0] == '-' || t[0] == '*' || t[0] == '+') && t[1] == ' ' {
        return Some(BlockType::List);
    }
    if is_ordered_item(t) {
        return Some(BlockType::List);
    }
    if t.len() > 0 && t[0] == '>' {
        return Some(BlockType::Blockquote);
    }
    None
}

} // verus!
