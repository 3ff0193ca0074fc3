//! Blank lines in blocks and in the canonical text.
//!
//! No block starts with a blank line, and a block that a blank line or the
//! end of the frontmatter ended does not end with one. So exactly one blank
//! line stands between two blocks of the canonical text, unless a table
//! keeps a blank line before other text; and the canonical text ends with
//! exactly one line feed, unless the scanner keeps a blank line at the end
//! of the text. Two blank lines in a row stand only within one block.
//! Where a text holds no code fence, no table and no frontmatter, its
//! canonical text holds no blank line but the single ones between blocks.

use vstd::prelude::*;

use crate::blockstore::scanner::classify::{fence_open, table_line};
use crate::blockstore::scanner::lines::split_lines;
use crate::blockstore::scanner::machine::{
    dashes, initial_state, join_lines, run, scan_text, step, ScanState,
};
use crate::blockstore::scanner::roundtrip::{
    is_raw_line, lemma_content_of_raw, lemma_split_lines_raw, no_line_feed,
};
use crate::blockstore::scanner::laws::{lemma_step_inv, state_inv};
use crate::blockstore::scanner::{joined, reassembled, BlockType, BlockView};
use crate::text::trim_line_break;

verus! {

/// A text without blank lines: it is not empty, neither starts nor ends
/// with a line feed, and holds no two line feeds in a row.
pub open spec fn tight(m: Seq<char>) -> bool {
    &&& m.len() > 0
    &&& m[0] != '\n'
    &&& m.last() != '\n'
    &&& forall|i: int| 0 <= i < m.len() - 1 ==> !(#[trigger] m[i] == '\n' && m[i + 1] == '\n')
}

/// A text in which blank lines stand alone: it is not empty, neither
/// starts nor ends with a line feed, and holds no three line feeds in a
/// row.
pub open spec fn spaced(m: Seq<char>) -> bool {
    &&& m.len() > 0
    &&& m[0] != '\n'
    &&& m.last() != '\n'
    &&& forall|i: int|
        0 <= i < m.len() - 2 ==> !(#[trigger] m[i] == '\n' && m[i + 1] == '\n' && m[i + 2] == '\n')
}

/// A canonical text in which every run of blank lines is a single blank
/// line: it is empty, or it starts with a line that is not blank, holds no
/// three line feeds in a row, and ends with exactly one line feed.
pub open spec fn single_spaced(r: Seq<char>) -> bool {
    r.len() == 0 || (r.len() >= 2 && r[0] != '\n' && r.last() == '\n' && r[r.len() - 2] != '\n'
        && forall|i: int|
        0 <= i < r.len() - 2 ==> !(#[trigger] r[i] == '\n' && r[i + 1] == '\n' && r[i + 2] == '\n'))
}

/// The line `line` neither opens a code fence nor belongs to a table.
pub open spec fn plain_line(line: Seq<char>) -> bool {
    fence_open(line).is_none() && !table_line(line)
}

/// The lines `lines` hold no code fence and no table.
pub open spec fn plain_lines(lines: Seq<Seq<char>>) -> bool {
    forall|i: int| 0 <= i < lines.len() ==> plain_line(trim_line_break(#[trigger] lines[i]))
}

/// The text holds no code fence, no table and no frontmatter.
pub open spec fn is_plain(text: Seq<char>) -> bool {
    let lines = split_lines(text);
    plain_lines(lines) && (lines.len() > 0 ==> trim_line_break(lines[0]) != dashes())
}

/// Every line is a content that is not empty.
pub open spec fn solid_lines(lines: Seq<Seq<char>>) -> bool {
    forall|i: int| 0 <= i < lines.len() ==> (#[trigger] lines[i]).len() > 0 && no_line_feed(lines[i])
}

/// The text of every block is tight.
pub open spec fn tight_blocks(blocks: Seq<BlockView>) -> bool {
    forall|i: int| 0 <= i < blocks.len() ==> tight((#[trigger] blocks[i]).markdown)
}

/// What holds of the machine between the lines of a plain text.
pub open spec fn plain_inv(st: ScanState) -> bool {
    &&& st.mode is Normal
    &&& tight_blocks(st.blocks)
    &&& solid_lines(st.pending)
}

/// Lines that are not empty, joined, make a tight text.
proof fn lemma_join_tight(lines: Seq<Seq<char>>)
    requires
        lines.len() > 0,
        solid_lines(lines),
    ensures
        tight(join_lines(lines)),
    decreases lines.len(),
{
    if lines.len() > 1 {
        let front = lines.drop_last();
        let last = lines.last();
        assert forall|i: int| 0 <= i < front.len() implies (#[trigger] front[i]).len() > 0
            && no_line_feed(front[i]) by {
            assert(front[i] == lines[i]);
        }
        lemma_join_tight(front);
        let a = join_lines(front);
        let m = join_lines(lines);
        assert(m =~= a + seq!['\n'] + last);
        assert(last == lines[lines.len() - 1]);
        assert forall|i: int| 0 <= i < m.len() - 1 implies !(#[trigger] m[i] == '\n' && m[i + 1]
            == '\n') by {
            if i < a.len() - 1 {
                assert(m[i] == a[i]);
                assert(m[i + 1] == a[i + 1]);
            } else if i == a.len() - 1 {
                assert(m[i] == a.last());
            } else if i == a.len() {
                assert(m[i + 1] == last[0]);
            } else {
                assert(m[i] == last[i - a.len() - 1]);
            }
        }
        assert(m[0] == a[0]);
        assert(m.last() == last.last());
    } else {
        assert(lines[0].len() > 0);
        let m = lines[0];
        assert(m.last() == m[m.len() - 1]);
    }
}

/// Reading a plain line keeps what holds between the lines of a plain
/// text.
proof fn lemma_plain_step(st: ScanState, raw: Seq<char>)
    requires
        plain_inv(st),
        is_raw_line(raw),
        plain_line(trim_line_break(raw)),
        !(st.line_no == 0 && trim_line_break(raw) == dashes()),
    ensures
        plain_inv(step(st, raw)),
{
    let line = trim_line_break(raw);
    let st2 = step(st, raw);
    lemma_content_of_raw(raw);
    if line.len() == 0 {
        if st.pending.len() > 0 {
            lemma_join_tight(st.pending);
            assert forall|i: int| 0 <= i < st2.blocks.len() implies tight(
                (#[trigger] st2.blocks[i]).markdown,
            ) by {
                if i < st.blocks.len() {
                    assert(st2.blocks[i] == st.blocks[i]);
                }
            }
        }
    } else {
        assert forall|i: int| 0 <= i < st2.pending.len() implies (#[trigger] st2.pending[i]).len()
            > 0 && no_line_feed(st2.pending[i]) by {
            if i < st.pending.len() {
                assert(st2.pending[i] == st.pending[i]);
            }
        }
    }
}

/// Reading plain lines keeps what holds between the lines of a plain text.
proof fn lemma_plain_run(lines: Seq<Seq<char>>)
    requires
        plain_lines(lines),
        forall|i: int| 0 <= i < lines.len() ==> is_raw_line(#[trigger] lines[i]),
        lines.len() > 0 ==> trim_line_break(lines[0]) != dashes(),
    ensures
        plain_inv(run(initial_state(), lines)),
        run(initial_state(), lines).line_no == lines.len(),
    decreases lines.len(),
{
    if lines.len() > 0 {
        let front = lines.drop_last();
        assert forall|i: int| 0 <= i < front.len() implies plain_line(
            trim_line_break(#[trigger] front[i]),
        ) && is_raw_line(front[i]) by {
            assert(front[i] == lines[i]);
        }
        if front.len() > 0 {
            assert(front[0] == lines[0]);
        }
        lemma_plain_run(front);
        assert(plain_line(trim_line_break(lines[lines.len() - 1])));
        assert(is_raw_line(lines[lines.len() - 1]));
        lemma_plain_step(run(initial_state(), front), lines.last());
    }
}

/// Tight texts, joined by blank lines, make a text in which blank lines
/// stand alone.
proof fn lemma_joined_spaced(blocks: Seq<BlockView>)
    requires
        blocks.len() > 0,
        tight_blocks(blocks),
    ensures
        spaced(joined(blocks)),
    decreases blocks.len(),
{
    if blocks.len() > 1 {
        let front = blocks.drop_last();
        let last = blocks.last().markdown;
        assert forall|i: int| 0 <= i < front.len() implies tight((#[trigger] front[i]).markdown) by {
            assert(front[i] == blocks[i]);
        }
        lemma_joined_spaced(front);
        assert(tight(blocks[blocks.len() - 1].markdown));
        let a = joined(front);
        let m = joined(blocks);
        assert(m =~= a + seq!['\n', '\n'] + last);
        assert(m[0] == a[0]);
        assert(m.last() == last.last());
        assert forall|i: int| 0 <= i < m.len() - 2 implies !(#[trigger] m[i] == '\n' && m[i + 1]
            == '\n' && m[i + 2] == '\n') by {
            if i < a.len() - 2 {
                assert(m[i] == a[i]);
                assert(m[i + 1] == a[i + 1]);
                assert(m[i + 2] == a[i + 2]);
            } else if i < a.len() {
                assert(m[a.len() - 1] == a.last());
            } else if i < a.len() + 2 {
                assert(m[a.len() as int + 2] == last[0]);
            } else {
                let k = i - a.len() - 2;
                assert(m[i] == last[k]);
                assert(m[i + 1] == last[k + 1]);
            }
        }
    } else {
        let m = blocks[0].markdown;
        assert(tight(m));
        assert forall|i: int| 0 <= i < m.len() - 2 implies !(#[trigger] m[i] == '\n' && m[i + 1]
            == '\n' && m[i + 2] == '\n') by {}
    }
}

/// Reassembling the scan of a plain text turns every run of blank lines
/// into a single blank line, drops the blank lines at the start and at the
/// end, and ends the text with a single line feed.
pub proof fn lemma_plain_text_single_spaced(text: Seq<char>)
    requires
        is_plain(text),
    ensures
        single_spaced(reassembled(scan_text(text))),
        tight_blocks(scan_text(text)),
{
    let lines = split_lines(text);
    lemma_split_lines_raw(text);
    lemma_plain_run(lines);
    let st = run(initial_state(), lines);
    let blocks = scan_text(text);
    if st.pending.len() > 0 {
        lemma_join_tight(st.pending);
        assert forall|i: int| 0 <= i < blocks.len() implies tight((#[trigger] blocks[i]).markdown) by {
            if i < st.blocks.len() {
                assert(blocks[i] == st.blocks[i]);
            }
        }
    }
    if blocks.len() > 0 {
        lemma_joined_spaced(blocks);
        let j = joined(blocks);
        let r = reassembled(blocks);
        assert(r =~= j.push('\n'));
        assert(r[0] == j[0]);
        assert(r[r.len() - 2] == j.last());
        assert forall|i: int| 0 <= i < r.len() - 2 implies !(#[trigger] r[i] == '\n' && r[i + 1]
            == '\n' && r[i + 2] == '\n') by {
            if i < j.len() - 2 {
                assert(r[i] == j[i]);
                assert(r[i + 1] == j[i + 1]);
                assert(r[i + 2] == j[i + 2]);
            } else {
                assert(r[j.len() - 1] == j.last());
            }
        }
    }
}

// ── The first and the last line of a block ─────────────────────────────────────

/// The text starts with a line that is not blank.
pub open spec fn starts_solid(m: Seq<char>) -> bool {
    m.len() > 0 && m[0] != '\n'
}

/// The text ends with a line that is not blank.
pub open spec fn ends_solid(m: Seq<char>) -> bool {
    m.len() > 0 && m.last() != '\n'
}

/// Every block starts with a line that is not blank, and every block that
/// is not a table ends with one.
pub open spec fn solid_edges(blocks: Seq<BlockView>) -> bool {
    forall|i: int|
        0 <= i < blocks.len() ==> starts_solid((#[trigger] blocks[i]).markdown) && (
        blocks[i].block_type != BlockType::Table ==> ends_solid(blocks[i].markdown))
}

/// What holds of the first and last of the gathered lines between any two
/// lines.
pub open spec fn edge_inv(st: ScanState) -> bool {
    &&& solid_edges(st.blocks)
    &&& forall|i: int| 0 <= i < st.pending.len() ==> no_line_feed(#[trigger] st.pending[i])
    &&& st.pending.len() > 0 ==> st.pending[0].len() > 0
    &&& st.mode is Normal && st.pending.len() > 0 ==> st.pending.last().len() > 0
    &&& st.mode is Fence ==> st.mode->min_len >= 3
}

/// The joined text of lines starts as the first line does and ends as the
/// last one does.
proof fn lemma_join_edges(lines: Seq<Seq<char>>)
    requires
        lines.len() > 0,
        lines[0].len() > 0,
        forall|i: int| 0 <= i < lines.len() ==> no_line_feed(#[trigger] lines[i]),
    ensures
        starts_solid(join_lines(lines)),
        lines.last().len() > 0 <==> ends_solid(join_lines(lines)),
    decreases lines.len(),
{
    if lines.len() > 1 {
        let front = lines.drop_last();
        let last = lines.last();
        assert(front[0] == lines[0]);
        assert forall|i: int| 0 <= i < front.len() implies no_line_feed(#[trigger] front[i]) by {
            assert(front[i] == lines[i]);
        }
        lemma_join_edges(front);
        let a = join_lines(front);
        let m = join_lines(lines);
        assert(m =~= a + seq!['\n'] + last);
        assert(m[0] == a[0]);
        assert(no_line_feed(lines[lines.len() - 1]));
        if last.len() > 0 {
            assert(m.last() == last.last());
            assert(last.last() == last[last.len() - 1]);
        } else {
            assert(m.last() == '\n');
        }
    } else {
        let m = lines[0];
        assert(no_line_feed(m));
        assert(m[0] != '\n');
        assert(m.last() == m[m.len() - 1]);
    }
}

/// Reading a line keeps what holds of the first and last gathered lines.
proof fn lemma_edge_step(st: ScanState, raw: Seq<char>)
    requires
        state_inv(st),
        edge_inv(st),
        is_raw_line(raw),
    ensures
        edge_inv(step(st, raw)),
{
    let line = trim_line_break(raw);
    let st2 = step(st, raw);
    lemma_content_of_raw(raw);
    assert(dashes().len() == 3);
    assert(crate::blockstore::scanner::machine::dots().len() == 3);
    if st2.blocks.len() > st.blocks.len() {
        let b = st2.blocks.last();
        assert(st2.blocks =~= st.blocks.push(b));
        let gathered = if st.mode is Frontmatter {
            st.pending.push(line)
        } else {
            st.pending
        };
        assert(b.markdown == join_lines(gathered));
        assert(gathered[0] == st.pending[0]);
        assert forall|i: int| 0 <= i < gathered.len() implies no_line_feed(
            #[trigger] gathered[i],
        ) by {
            if i < st.pending.len() {
                assert(gathered[i] == st.pending[i]);
            }
        }
        lemma_join_edges(gathered);
        assert forall|i: int| 0 <= i < st2.blocks.len() implies starts_solid(
            (#[trigger] st2.blocks[i]).markdown,
        ) && (st2.blocks[i].block_type != BlockType::Table ==> ends_solid(
            st2.blocks[i].markdown,
        )) by {
            if i < st.blocks.len() {
                assert(st2.blocks[i] == st.blocks[i]);
            }
        }
    }
    assert forall|i: int| 0 <= i < st2.pending.len() implies no_line_feed(
        #[trigger] st2.pending[i],
    ) by {
        if i < st.pending.len() && st2.pending.len() == st.pending.len() + 1 {
            assert(st2.pending[i] == st.pending[i]);
        }
    }
}

/// Reading raw lines keeps what holds of the first and last gathered lines.
proof fn lemma_edge_run(lines: Seq<Seq<char>>)
    requires
        forall|i: int| 0 <= i < lines.len() ==> is_raw_line(#[trigger] lines[i]),
    ensures
        edge_inv(run(initial_state(), lines)),
        state_inv(run(initial_state(), lines)),
    decreases lines.len(),
{
    if lines.len() > 0 {
        let front = lines.drop_last();
        assert forall|i: int| 0 <= i < front.len() implies is_raw_line(#[trigger] front[i]) by {
            assert(front[i] == lines[i]);
        }
        lemma_edge_run(front);
        assert(is_raw_line(lines[lines.len() - 1]));
        lemma_edge_step(run(initial_state(), front), lines.last());
        lemma_step_inv(run(initial_state(), front), lines.last());
    }
}

/// No block of a scan is empty or starts with a blank line; and every
/// block but the last, unless it is a table, ends with a line that is not
/// blank.
pub proof fn lemma_blocks_edges(text: Seq<char>)
    ensures
        forall|i: int|
            0 <= i < scan_text(text).len() ==> starts_solid((#[trigger] scan_text(text)[i]).markdown),
        forall|i: int|
            0 <= i < scan_text(text).len() - 1 && (#[trigger] scan_text(text)[i]).block_type
                != BlockType::Table ==> ends_solid(scan_text(text)[i].markdown),
{
    let lines = split_lines(text);
    lemma_split_lines_raw(text);
    lemma_edge_run(lines);
    let st = run(initial_state(), lines);
    let blocks = scan_text(text);
    if st.pending.len() > 0 {
        lemma_join_edges(st.pending);
        assert forall|i: int| 0 <= i < blocks.len() implies starts_solid(
            (#[trigger] blocks[i]).markdown,
        ) by {
            if i < st.blocks.len() {
                assert(blocks[i] == st.blocks[i]);
            }
        }
        assert forall|i: int|
            0 <= i < blocks.len() - 1 && (#[trigger] blocks[i]).block_type
                != BlockType::Table implies ends_solid(blocks[i].markdown) by {
            assert(blocks[i] == st.blocks[i]);
        }
    }
}

// ── Where a blank line is kept ─────────────────────────────────────────────────

/// Whether the line `line` ends a table that has gathered a blank line as
/// its last line: the table keeps that blank line before other text.
pub open spec fn loose_exit(st: ScanState, line: Seq<char>) -> bool {
    st.mode is Table && line.len() > 0 && !table_line(line) && st.pending.len() > 0
        && st.pending.last().len() == 0
}

/// Whether, among `lines`, a table keeps a blank line before other text.
pub open spec fn has_loose_exit(lines: Seq<Seq<char>>) -> bool
    decreases lines.len(),
{
    lines.len() > 0 && (has_loose_exit(lines.drop_last()) || loose_exit(
        run(initial_state(), lines.drop_last()),
        trim_line_break(lines.last()),
    ))
}

/// Whether, in the text, a table keeps a blank line before other text: a
/// blank line follows a table line, and the next line that is not blank
/// is no table line.
pub open spec fn keeps_blank_before_text(text: Seq<char>) -> bool {
    has_loose_exit(split_lines(text))
}

/// Whether the scan keeps a blank line at the end of the text: the text
/// ends inside a frontmatter, a code fence or a table, and the last line
/// gathered is blank.
pub open spec fn keeps_blank_at_end(text: Seq<char>) -> bool {
    let st = run(initial_state(), split_lines(text));
    st.pending.len() > 0 && st.pending.last().len() == 0
}

/// Every block ends with a line that is not blank.
pub open spec fn all_end_solid(blocks: Seq<BlockView>) -> bool {
    forall|i: int| 0 <= i < blocks.len() ==> ends_solid((#[trigger] blocks[i]).markdown)
}

/// What holds of the last lines of the finished blocks, where `loose` says
/// whether a table has kept a blank line before other text.
pub open spec fn tails_inv(st: ScanState, loose: bool) -> bool {
    &&& all_end_solid(st.blocks) <==> !loose
    &&& st.pending.len() == 0 && st.blocks.len() > 0 ==> ends_solid(st.blocks.last().markdown)
}

/// Reading a line keeps what holds of the last lines of the finished
/// blocks.
proof fn lemma_tails_step(st: ScanState, raw: Seq<char>, loose: bool)
    requires
        state_inv(st),
        edge_inv(st),
        tails_inv(st, loose),
        is_raw_line(raw),
    ensures
        tails_inv(step(st, raw), loose || loose_exit(st, trim_line_break(raw))),
{
    let line = trim_line_break(raw);
    let st2 = step(st, raw);
    lemma_content_of_raw(raw);
    assert(dashes().len() == 3);
    assert(crate::blockstore::scanner::machine::dots().len() == 3);
    if st2.blocks.len() > st.blocks.len() {
        let b = st2.blocks.last();
        assert(st2.blocks =~= st.blocks.push(b));
        let gathered = if st.mode is Frontmatter {
            st.pending.push(line)
        } else {
            st.pending
        };
        assert(b.markdown == join_lines(gathered));
        assert(gathered[0] == st.pending[0]);
        assert forall|i: int| 0 <= i < gathered.len() implies no_line_feed(
            #[trigger] gathered[i],
        ) by {
            if i < st.pending.len() {
                assert(gathered[i] == st.pending[i]);
            }
        }
        lemma_join_edges(gathered);
        assert(ends_solid(b.markdown) <==> !loose_exit(st, line));
        if all_end_solid(st.blocks) && ends_solid(b.markdown) {
            assert forall|i: int| 0 <= i < st2.blocks.len() implies ends_solid(
                (#[trigger] st2.blocks[i]).markdown,
            ) by {
                if i < st.blocks.len() {
                    assert(st2.blocks[i] == st.blocks[i]);
                }
            }
        }
        if all_end_solid(st2.blocks) {
            assert(ends_solid(st2.blocks[st2.blocks.len() - 1].markdown));
            assert forall|i: int| 0 <= i < st.blocks.len() implies ends_solid(
                (#[trigger] st.blocks[i]).markdown,
            ) by {
                assert(st2.blocks[i] == st.blocks[i]);
            }
        }
    } else {
        assert(st2.blocks == st.blocks);
        assert(!loose_exit(st, line));
    }
}

/// Reading raw lines keeps what holds of the last lines of the finished
/// blocks.
proof fn lemma_tails_run(lines: Seq<Seq<char>>)
    requires
        forall|i: int| 0 <= i < lines.len() ==> is_raw_line(#[trigger] lines[i]),
    ensures
        tails_inv(run(initial_state(), lines), has_loose_exit(lines)),
        edge_inv(run(initial_state(), lines)),
        state_inv(run(initial_state(), lines)),
    decreases lines.len(),
{
    lemma_edge_run(lines);
    if lines.len() > 0 {
        let front = lines.drop_last();
        assert forall|i: int| 0 <= i < front.len() implies is_raw_line(#[trigger] front[i]) by {
            assert(front[i] == lines[i]);
        }
        lemma_tails_run(front);
        assert(is_raw_line(lines[lines.len() - 1]));
        lemma_tails_step(run(initial_state(), front), lines.last(), has_loose_exit(front));
    }
}

/// Between two blocks of the canonical text stands exactly one blank line:
/// no block starts with a blank line, and every block but the last ends
/// with a line that is not blank, unless a table keeps a blank line before
/// other text. That is the one case in which it fails: the scan then puts
/// the kept blank line and the separating one in a row.
pub proof fn lemma_one_blank_line_between_blocks(text: Seq<char>)
    ensures
        forall|i: int|
            0 <= i < scan_text(text).len() ==> starts_solid((#[trigger] scan_text(text)[i]).markdown),
        (forall|i: int|
            0 <= i < scan_text(text).len() - 1 ==> ends_solid(
                (#[trigger] scan_text(text)[i]).markdown,
            )) <==> !keeps_blank_before_text(text),
{
    let lines = split_lines(text);
    lemma_split_lines_raw(text);
    lemma_tails_run(lines);
    lemma_blocks_edges(text);
    let st = run(initial_state(), lines);
    let blocks = scan_text(text);
    if st.pending.len() > 0 {
        assert(blocks.drop_last() =~= st.blocks);
        if all_end_solid(st.blocks) {
            assert forall|i: int| 0 <= i < blocks.len() - 1 implies ends_solid(
                (#[trigger] blocks[i]).markdown,
            ) by {
                assert(blocks[i] == st.blocks[i]);
            }
        }
        if forall|i: int| 0 <= i < blocks.len() - 1 ==> ends_solid((#[trigger] blocks[i]).markdown) {
            assert forall|i: int| 0 <= i < st.blocks.len() implies ends_solid(
                (#[trigger] st.blocks[i]).markdown,
            ) by {
                assert(blocks[i] == st.blocks[i]);
            }
        }
    } else {
        assert(blocks == st.blocks);
        if forall|i: int| 0 <= i < blocks.len() - 1 ==> ends_solid((#[trigger] blocks[i]).markdown) {
            assert forall|i: int| 0 <= i < st.blocks.len() implies ends_solid(
                (#[trigger] st.blocks[i]).markdown,
            ) by {
                if i == st.blocks.len() - 1 {
                    assert(st.blocks.last() == st.blocks[i]);
                }
            }
        }
    }
}

/// The text of block lists that are not empty ends as the text of their
/// last block does.
proof fn lemma_joined_last(blocks: Seq<BlockView>)
    requires
        blocks.len() > 0,
        blocks.last().markdown.len() > 0,
    ensures
        joined(blocks).len() > 0,
        joined(blocks).last() == blocks.last().markdown.last(),
{
    if blocks.len() > 1 {
        let m = blocks.last().markdown;
        let j = joined(blocks);
        assert(j =~= joined(blocks.drop_last()) + seq!['\n', '\n'] + m);
        assert(j.last() == m[m.len() - 1]);
    } else {
        assert(blocks[0] == blocks.last());
    }
}

/// The canonical text of a scan that is not empty ends with a line feed,
/// and with exactly one unless the scan keeps a blank line at the end of
/// the text, which it does only inside a frontmatter, a code fence or a
/// table. That is the one case in which it ends with two.
pub proof fn lemma_one_trailing_line_feed(text: Seq<char>)
    ensures
        scan_text(text).len() > 0 ==> {
            let r = reassembled(scan_text(text));
            &&& r.len() >= 2
            &&& r.last() == '\n'
            &&& r[r.len() - 2] != '\n' <==> !keeps_blank_at_end(text)
            &&& ends_solid(scan_text(text).last().markdown) <==> !keeps_blank_at_end(text)
        },
        keeps_blank_at_end(text) ==> !(run(initial_state(), split_lines(text)).mode is Normal),
{
    let lines = split_lines(text);
    lemma_split_lines_raw(text);
    lemma_tails_run(lines);
    lemma_blocks_edges(text);
    let st = run(initial_state(), lines);
    let blocks = scan_text(text);
    if blocks.len() > 0 {
        let last = blocks.last().markdown;
        assert(starts_solid(blocks[blocks.len() - 1].markdown));
        lemma_joined_last(blocks);
        let r = reassembled(blocks);
        let j = joined(blocks);
        assert(r =~= j.push('\n'));
        assert(r[r.len() - 2] == j.last());
        if st.pending.len() > 0 {
            lemma_join_edges(st.pending);
            assert(last == join_lines(st.pending));
        } else {
            assert(blocks == st.blocks);
        }
    }
}

// ── Two blank lines in a row ───────────────────────────────────────────────────

/// Whether `r` holds three line feeds in a row from index `i` on: two
/// blank lines in a row.
pub open spec fn triple_at(r: Seq<char>, i: int) -> bool {
    0 <= i && i + 2 < r.len() && r[i] == '\n' && r[i + 1] == '\n' && r[i + 2] == '\n'
}

/// Where the text of block `k` starts in the canonical text of `blocks`.
pub open spec fn block_start(blocks: Seq<BlockView>, k: int) -> int
    decreases k,
{
    if k <= 0 {
        0
    } else {
        block_start(blocks, k - 1) + blocks[k - 1].markdown.len() + 2
    }
}

/// Whether the three characters from index `i` on lie within the text of
/// block `k`.
pub open spec fn within_block(blocks: Seq<BlockView>, k: int, i: int) -> bool {
    0 <= k < blocks.len() && block_start(blocks, k) <= i && i + 3 <= block_start(blocks, k)
        + blocks[k].markdown.len()
}

/// Where a block starts depends on the blocks before it alone.
proof fn lemma_block_start_front(blocks: Seq<BlockView>, k: int)
    requires
        blocks.len() > 0,
        0 <= k < blocks.len(),
    ensures
        block_start(blocks.drop_last(), k) == block_start(blocks, k),
    decreases k,
{
    if k > 0 {
        lemma_block_start_front(blocks, k - 1);
        assert(blocks.drop_last()[k - 1] == blocks[k - 1]);
    }
}

/// Where every blank line between two blocks stands alone, two blank lines
/// in a row stand only within the text of one block.
proof fn lemma_triples_within(blocks: Seq<BlockView>)
    requires
        blocks.len() > 0,
        forall|i: int| 0 <= i < blocks.len() ==> starts_solid((#[trigger] blocks[i]).markdown),
        forall|i: int| 0 <= i < blocks.len() - 1 ==> ends_solid((#[trigger] blocks[i]).markdown),
    ensures
        joined(blocks).len() == block_start(blocks, blocks.len() - 1)
            + blocks.last().markdown.len(),
        forall|i: int| #[trigger]
            triple_at(joined(blocks), i) ==> exists|k: int| #[trigger] within_block(blocks, k, i),
    decreases blocks.len(),
{
    let n = blocks.len() as int;
    let j = joined(blocks);
    if n > 1 {
        let front = blocks.drop_last();
        let m = blocks.last().markdown;
        assert forall|i: int| 0 <= i < front.len() implies starts_solid(
            (#[trigger] front[i]).markdown,
        ) by {
            assert(front[i] == blocks[i]);
        }
        assert forall|i: int| 0 <= i < front.len() - 1 implies ends_solid(
            (#[trigger] front[i]).markdown,
        ) by {
            assert(front[i] == blocks[i]);
        }
        lemma_triples_within(front);
        let a = joined(front);
        assert(j =~= a + seq!['\n', '\n'] + m);
        lemma_block_start_front(blocks, n - 2);
        assert(front.last() == blocks[n - 2]);
        assert(ends_solid(blocks[n - 2].markdown));
        assert(starts_solid(blocks[n - 1].markdown));
        assert(block_start(blocks, n - 1) == a.len() + 2);
        lemma_joined_last(front);
        assert forall|i: int| #[trigger] triple_at(j, i) implies exists|k: int| #[trigger]
            within_block(blocks, k, i) by {
            if i + 3 <= a.len() {
                assert(j[i] == a[i]);
                assert(j[i + 1] == a[i + 1]);
                assert(j[i + 2] == a[i + 2]);
                assert(triple_at(a, i));
                let k = choose|k: int| #[trigger] within_block(front, k, i);
                lemma_block_start_front(blocks, k);
                assert(front[k] == blocks[k]);
                assert(within_block(blocks, k, i));
            } else if i >= a.len() + 2 {
                assert(within_block(blocks, n - 1, i));
            } else if i <= a.len() - 1 {
                assert(j[a.len() - 1] == a.last());
                assert(false);
            } else {
                assert(j[a.len() as int + 2] == m[0]);
                assert(false);
            }
        }
    } else {
        assert(blocks[0] == blocks.last());
        assert forall|i: int| #[trigger] triple_at(j, i) implies exists|k: int| #[trigger]
            within_block(blocks, k, i) by {
            assert(within_block(blocks, 0, i));
        }
    }
}

/// In the canonical text of a scan two blank lines stand in a row only
/// within the text of one block, where the scanner has kept them: every
/// run of blank lines between two blocks has become a single blank line,
/// and the text ends with a single line feed. This holds of every text in
/// which no table keeps a blank line before other text and at whose end no
/// blank line is kept.
pub proof fn lemma_blank_lines_stand_alone(text: Seq<char>)
    requires
        !keeps_blank_before_text(text),
        !keeps_blank_at_end(text),
    ensures
        forall|i: int| #[trigger]
            triple_at(reassembled(scan_text(text)), i) ==> exists|k: int| #[trigger]
                within_block(scan_text(text), k, i),
{
    let blocks = scan_text(text);
    let r = reassembled(blocks);
    lemma_one_blank_line_between_blocks(text);
    lemma_one_trailing_line_feed(text);
    if blocks.len() > 0 {
        lemma_triples_within(blocks);
        let j = joined(blocks);
        assert(r =~= j.push('\n'));
        lemma_joined_last(blocks);
        assert forall|i: int| #[trigger] triple_at(r, i) implies exists|k: int| #[trigger]
            within_block(blocks, k, i) by {
            if i + 2 < j.len() {
                assert(r[i] == j[i]);
                assert(r[i + 1] == j[i + 1]);
                assert(r[i + 2] == j[i + 2]);
                assert(triple_at(j, i));
            } else {
                assert(r[i + 1] == j.last());
                assert(false);
            }
        }
    }
}

} // verus!
