//! What holds of every scan.

use vstd::prelude::*;

use crate::blockstore::scanner::classify::{fence_close, fence_open, table_line};
use crate::blockstore::scanner::lines::split_lines;
use crate::blockstore::scanner::machine::{
    dashes, finish, initial_state, join_lines, run, scan_lines, scan_text, step, ScanState,
};
use crate::blockstore::scanner::roundtrip::{
    flat, is_content, lemma_flat_concat, lemma_flat_join, lemma_raw_of_content, lemma_split_flat,
    lemma_split_last, lemma_split_push, nl, no_line_feed, raws,
};
use crate::blockstore::scanner::{all_wf, ordered, sequential, BlockType};
use crate::text::trim_line_break;

verus! {

/// What holds of the machine between any two lines.
pub open spec fn state_inv(st: ScanState) -> bool {
    &&& sequential(st.blocks)
    &&& all_wf(st.blocks)
    &&& ordered(st.blocks)
    &&& forall|i: int|
        0 <= i < st.blocks.len() ==> (#[trigger] st.blocks[i]).end_line < st.line_no
            && st.blocks[i].end_byte <= st.offset
    &&& st.line_no == 0 ==> st.blocks.len() == 0 && st.pending.len() == 0
    &&& !(st.mode is Normal) ==> st.pending.len() > 0
    &&& st.mode is Table ==> st.kind == BlockType::Table
    &&& st.mode is Frontmatter ==> st.kind == BlockType::Frontmatter
    &&& st.pending.len() > 0 ==> {
        &&& st.start_line < st.line_no
        &&& st.start_byte <= st.offset
        &&& forall|i: int|
            0 <= i < st.blocks.len() ==> (#[trigger] st.blocks[i]).end_line < st.start_line
                && st.blocks[i].end_byte <= st.start_byte
    }
}

/// Reading a line keeps what holds between lines.
pub proof fn lemma_step_inv(st: ScanState, raw: Seq<char>)
    requires
        state_inv(st),
    ensures
        state_inv(step(st, raw)),
{
}

/// Reading any lines keeps what holds between lines.
pub proof fn lemma_run_inv(st: ScanState, lines: Seq<Seq<char>>)
    requires
        state_inv(st),
    ensures
        state_inv(run(st, lines)),
    decreases lines.len(),
{
    if lines.len() > 0 {
        lemma_run_inv(st, lines.drop_last());
        lemma_step_inv(run(st, lines.drop_last()), lines.last());
    }
}

/// The blocks of any lines are numbered from 0 in order, carry the hash and
/// counts of their text, and lie one after the other.
pub proof fn lemma_scan_lines(lines: Seq<Seq<char>>)
    ensures
        sequential(scan_lines(lines)),
        all_wf(scan_lines(lines)),
        ordered(scan_lines(lines)),
{
    lemma_run_inv(initial_state(), lines);
}

/// The blocks of any text are numbered from 0 in order, carry the hash and
/// counts of their text, and lie one after the other.
pub proof fn lemma_scan_text(text: Seq<char>)
    ensures
        sequential(scan_text(text)),
        all_wf(scan_text(text)),
        ordered(scan_text(text)),
{
    lemma_scan_lines(split_lines(text));
}

// ── Fences and tables are never split ──────────────────────────────────────────

/// `lines`, each without its line break.
pub open spec fn contents(lines: Seq<Seq<char>>) -> Seq<Seq<char>> {
    Seq::new(lines.len(), |i: int| trim_line_break(lines[i]))
}

/// No line of `lines` closes a fence of `min_len` times `ch`.
pub open spec fn none_closes(lines: Seq<Seq<char>>, ch: char, min_len: nat) -> bool {
    forall|i: int|
        0 <= i < lines.len() ==> !fence_close(trim_line_break(#[trigger] lines[i]), ch, min_len)
}

/// Every line of `lines` is blank or a table line.
pub open spec fn all_table_or_blank(lines: Seq<Seq<char>>) -> bool {
    forall|i: int|
        0 <= i < lines.len() ==> trim_line_break(#[trigger] lines[i]).len() == 0 || table_line(
            trim_line_break(lines[i]),
        )
}

/// An open code fence is never split: as long as no line closes the fence,
/// every line, blank or not, joins the block being gathered, and no block
/// is finished.
pub proof fn lemma_fence_never_split(st: ScanState, lines: Seq<Seq<char>>)
    requires
        state_inv(st),
        st.mode is Fence,
        none_closes(lines, st.mode->ch, st.mode->min_len),
    ensures
        run(st, lines).mode == st.mode,
        run(st, lines).kind == st.kind,
        run(st, lines).blocks == st.blocks,
        run(st, lines).pending == st.pending + contents(lines),
        run(st, lines).start_line == st.start_line,
        run(st, lines).start_byte == st.start_byte,
    decreases lines.len(),
{
    if lines.len() == 0 {
        assert(st.pending + contents(lines) =~= st.pending);
    } else {
        let front = lines.drop_last();
        assert forall|i: int| 0 <= i < front.len() implies !fence_close(
            trim_line_break(#[trigger] front[i]),
            st.mode->ch,
            st.mode->min_len,
        ) by {
            assert(front[i] == lines[i]);
        }
        lemma_fence_never_split(st, front);
        lemma_run_inv(st, front);
        assert(!fence_close(
            trim_line_break(lines[lines.len() - 1]),
            st.mode->ch,
            st.mode->min_len,
        ));
        assert(st.pending + contents(lines) =~= (st.pending + contents(front)).push(
            trim_line_break(lines.last()),
        ));
    }
}

/// A table is never split by blank lines: as long as every line is blank or
/// a table line, every line joins the table being gathered, and no block is
/// finished.
pub proof fn lemma_table_never_split(st: ScanState, lines: Seq<Seq<char>>)
    requires
        state_inv(st),
        st.mode is Table,
        all_table_or_blank(lines),
    ensures
        run(st, lines).mode is Table,
        run(st, lines).kind == BlockType::Table,
        run(st, lines).blocks == st.blocks,
        run(st, lines).pending == st.pending + contents(lines),
        run(st, lines).start_line == st.start_line,
        run(st, lines).start_byte == st.start_byte,
    decreases lines.len(),
{
    if lines.len() == 0 {
        assert(st.pending + contents(lines) =~= st.pending);
    } else {
        let front = lines.drop_last();
        assert forall|i: int| 0 <= i < front.len() implies trim_line_break(
            #[trigger] front[i],
        ).len() == 0 || table_line(trim_line_break(front[i])) by {
            assert(front[i] == lines[i]);
        }
        lemma_table_never_split(st, front);
        lemma_run_inv(st, front);
        let last = trim_line_break(lines[lines.len() - 1]);
        assert(last.len() == 0 || table_line(last));
        assert(st.pending + contents(lines) =~= (st.pending + contents(front)).push(
            trim_line_break(lines.last()),
        ));
    }
}

/// Reading one line is one step.
pub proof fn lemma_run_one(st: ScanState, raw: Seq<char>)
    ensures
        run(st, seq![raw]) == step(st, raw),
{
    assert(seq![raw].drop_last() =~= Seq::<Seq<char>>::empty());
    assert(run(st, seq![raw].drop_last()) == st);
}

/// Reading lines and then more lines is reading them all.
pub proof fn lemma_run_concat(st: ScanState, a: Seq<Seq<char>>, b: Seq<Seq<char>>)
    ensures
        run(st, a + b) == run(run(st, a), b),
    decreases b.len(),
{
    if b.len() == 0 {
        assert(a + b =~= a);
    } else {
        lemma_run_concat(st, a, b.drop_last());
        assert((a + b).drop_last() =~= a + b.drop_last());
        assert((a + b).last() == b.last());
    }
}

/// A code fence opened between two blocks, after the first line of the
/// text, is exactly one block of the type `CodeFence`, whatever blank
/// lines it holds: from the line that opens it to the line that closes it
/// the scanner gathers every line into one block and finishes no other.
pub proof fn lemma_fence_is_one_block(
    st: ScanState,
    opener: Seq<char>,
    body: Seq<Seq<char>>,
    closer: Seq<char>,
)
    requires
        state_inv(st),
        st.mode is Normal,
        st.pending.len() == 0,
        st.line_no > 0,
        fence_open(trim_line_break(opener)).is_some(),
        none_closes(
            body,
            fence_open(trim_line_break(opener)).unwrap().0,
            fence_open(trim_line_break(opener)).unwrap().1,
        ),
        fence_close(
            trim_line_break(closer),
            fence_open(trim_line_break(opener)).unwrap().0,
            fence_open(trim_line_break(opener)).unwrap().1,
        ),
    ensures
        ({
            let lines = seq![opener] + body + seq![closer];
            let after = run(st, lines);
            &&& after.blocks == st.blocks
            &&& after.mode is Normal
            &&& after.kind == BlockType::CodeFence
            &&& after.pending == contents(lines)
            &&& after.start_line == st.line_no
            &&& finish(after).len() == st.blocks.len() + 1
            &&& finish(after).last().block_type == BlockType::CodeFence
            &&& finish(after).last().markdown == join_lines(contents(lines))
        }),
{
    let first = trim_line_break(opener);
    let lines = seq![opener] + body + seq![closer];
    assert(first.len() > 0) by {
        if first.len() == 0 {
            assert(crate::text::skip_space(first, 0) == 0);
            let t = crate::text::trim_start(first);
            assert(t.len() == 0);
            assert(crate::text::skip_char(t, '`', 0) == 0);
            assert(crate::text::skip_char(t, '~', 0) == 0);
        }
    }
    let opened = step(st, opener);
    lemma_step_inv(st, opener);
    lemma_run_one(st, opener);
    lemma_fence_never_split(opened, body);
    let inside = run(opened, body);
    lemma_run_inv(opened, body);
    lemma_run_concat(st, seq![opener], body);
    lemma_run_concat(st, seq![opener] + body, seq![closer]);
    lemma_run_one(inside, closer);
    let after = step(inside, closer);
    assert(run(st, lines) == after);
    assert(opened.pending =~= seq![first]);
    assert(after.pending =~= contents(lines));
}

/// A table opened between two blocks, after the first line of the text, is
/// exactly one block of the type `Table`, whatever blank lines it holds:
/// as long as only table lines and blank lines follow the line that opens
/// it, the scanner gathers every line into one block and finishes no
/// other.
pub proof fn lemma_table_is_one_block(st: ScanState, opener: Seq<char>, body: Seq<Seq<char>>)
    requires
        state_inv(st),
        st.mode is Normal,
        st.pending.len() == 0,
        st.line_no > 0,
        table_line(trim_line_break(opener)),
        all_table_or_blank(body),
    ensures
        ({
            let lines = seq![opener] + body;
            let after = run(st, lines);
            &&& after.blocks == st.blocks
            &&& after.mode is Table
            &&& after.pending == contents(lines)
            &&& after.start_line == st.line_no
            &&& finish(after).len() == st.blocks.len() + 1
            &&& finish(after).last().block_type == BlockType::Table
            &&& finish(after).last().markdown == join_lines(contents(lines))
        }),
{
    let first = trim_line_break(opener);
    let lines = seq![opener] + body;
    let t = crate::text::trim_start(first);
    assert(fence_open(first).is_none()) by {
        assert(t[0] == '|');
        assert(crate::text::skip_char(t, '`', 0) == 0);
        assert(crate::text::skip_char(t, '~', 0) == 0);
    }
    assert(first.len() > 0) by {
        if first.len() == 0 {
            assert(crate::text::skip_space(first, 0) == 0);
            assert(t.len() == 0);
        }
    }
    let opened = step(st, opener);
    lemma_step_inv(st, opener);
    lemma_run_one(st, opener);
    lemma_table_never_split(opened, body);
    lemma_run_concat(st, seq![opener], body);
    let after = run(opened, body);
    assert(run(st, lines) == after);
    assert(opened.pending =~= seq![first]);
    assert(after.pending =~= contents(lines));
}

/// A line of ordinary text and a blank line after it, at the start of a
/// text, make one block.
proof fn lemma_paragraph_then_blank(before: Seq<char>)
    requires
        is_content(before),
        before.len() > 0,
        before != dashes(),
        fence_open(before).is_none(),
        !table_line(before),
    ensures
        ({
            let st = run(initial_state(), seq![before + nl(), nl()]);
            &&& state_inv(st)
            &&& st.mode is Normal
            &&& st.pending.len() == 0
            &&& st.line_no == 2
            &&& st.blocks.len() == 1
            &&& st.blocks[0].markdown == before
        }),
{
    let blank = Seq::<char>::empty();
    lemma_raw_of_content(before);
    lemma_raw_of_content(blank);
    assert(blank + nl() =~= nl());
    let s0 = initial_state();
    let s1 = step(s0, before + nl());
    let s2 = step(s1, nl());
    lemma_step_inv(s0, before + nl());
    lemma_step_inv(s1, nl());
    lemma_run_one(s0, before + nl());
    lemma_run_one(s1, nl());
    lemma_run_concat(s0, seq![before + nl()], seq![nl()]);
    assert(seq![before + nl()] + seq![nl()] =~= seq![before + nl(), nl()]);
    assert(s1.pending =~= seq![before]);
    assert(join_lines(s1.pending) == before);
}

/// A blank line and a line of ordinary text after it, at the end of a
/// text, finish the block being gathered and make one more.
proof fn lemma_blank_then_paragraph(st: ScanState, after: Seq<char>, raw: Seq<char>)
    requires
        st.mode is Normal,
        st.pending.len() > 0,
        st.line_no > 0,
        is_content(after),
        after.len() > 0,
        fence_open(after).is_none(),
        !table_line(after),
        trim_line_break(raw) == after,
    ensures
        ({
            let blocks = finish(run(st, seq![nl(), raw]));
            &&& blocks.len() == st.blocks.len() + 2
            &&& blocks.subrange(0, st.blocks.len() as int) == st.blocks
            &&& blocks[st.blocks.len() as int].markdown == join_lines(st.pending)
            &&& blocks[st.blocks.len() as int].block_type == st.kind
            &&& blocks[st.blocks.len() as int + 1].markdown == after
        }),
{
    let blank = Seq::<char>::empty();
    lemma_raw_of_content(blank);
    assert(blank + nl() =~= nl());
    let s1 = step(st, nl());
    let s2 = step(s1, raw);
    lemma_run_one(st, nl());
    lemma_run_one(s1, raw);
    lemma_run_concat(st, seq![nl()], seq![raw]);
    assert(seq![nl()] + seq![raw] =~= seq![nl(), raw]);
    assert(dashes().len() == 3);
    assert(s2.pending =~= seq![after]);
    assert(join_lines(s2.pending) == after);
    let blocks = finish(s2);
    assert(blocks.subrange(0, st.blocks.len() as int) =~= st.blocks);
}

/// The content of a line without line break is the line.
proof fn lemma_content_is_own(line: Seq<char>)
    requires
        is_content(line),
    ensures
        trim_line_break(line) == line,
{
    if line.len() > 0 {
        assert(!crate::text::is_line_break(line[line.len() - 1]));
    }
    assert(trim_line_break(line) =~= line);
}

/// The raw lines of a text made of a line, a blank line, a fence, a blank
/// line and a last line, with or without its line feed.
proof fn lemma_fence_text_lines(
    before: Seq<char>,
    fence: Seq<Seq<char>>,
    after: Seq<char>,
    ending: Seq<char>,
)
    requires
        is_content(before),
        is_content(after),
        after.len() > 0,
        fence.len() > 0,
        forall|i: int| 0 <= i < fence.len() ==> no_line_feed(#[trigger] fence[i]),
        ending == nl() || ending == Seq::<char>::empty(),
    ensures
        split_lines(before + nl() + nl() + join_lines(fence) + nl() + nl() + after + ending)
            == seq![before + nl(), nl()] + raws(fence) + seq![nl(), after + ending],
        trim_line_break(after + ending) == after,
{
    let blank = Seq::<char>::empty();
    let lead = seq![before, blank] + fence + seq![blank];
    let raw = after + ending;
    let text = before + nl() + nl() + join_lines(fence) + nl() + nl() + after + ending;
    assert forall|i: int| 0 <= i < lead.len() implies no_line_feed(#[trigger] lead[i]) by {
        if 2 <= i < 2 + fence.len() {
            assert(lead[i] == fence[i - 2]);
        }
    }
    lemma_split_flat(lead);
    lemma_flat_concat(seq![before, blank], fence);
    lemma_flat_concat(seq![before, blank] + fence, seq![blank]);
    lemma_flat_join(fence);
    lemma_flat_join(seq![before, blank]);
    lemma_flat_join(seq![blank]);
    assert(seq![before, blank].drop_last() =~= seq![before]);
    assert(seq![before][0] == before);
    assert(join_lines(seq![before]) == before);
    assert(seq![before, blank].last() == blank);
    assert(join_lines(seq![before, blank]) =~= before + seq!['\n'] + blank);
    assert(join_lines(seq![before, blank]) =~= before + nl());
    assert(join_lines(seq![blank]) =~= blank);
    assert(text =~= flat(lead) + raw);
    if ending == nl() {
        lemma_split_push(flat(lead), after);
        lemma_raw_of_content(after);
        assert(flat(lead) + after + nl() =~= flat(lead) + raw);
    } else {
        assert(raw =~= after);
        lemma_split_last(flat(lead), after);
        lemma_content_is_own(after);
    }
    assert(blank + nl() =~= nl());
    assert(raws(lead).push(raw) =~= seq![before + nl(), nl()] + raws(fence) + seq![nl(), raw]);
}

/// The scan of lines made of a line of ordinary text, a blank line, a
/// fence, a blank line and a last line of ordinary text.
proof fn lemma_fence_between_lines(
    before: Seq<char>,
    opener: Seq<char>,
    body: Seq<Seq<char>>,
    closer: Seq<char>,
    after: Seq<char>,
    raw: Seq<char>,
)
    requires
        is_content(before),
        before.len() > 0,
        before != dashes(),
        fence_open(before).is_none(),
        !table_line(before),
        is_content(after),
        after.len() > 0,
        fence_open(after).is_none(),
        !table_line(after),
        trim_line_break(raw) == after,
        is_content(opener),
        is_content(closer),
        forall|i: int| 0 <= i < body.len() ==> is_content(#[trigger] body[i]),
        fence_open(opener).is_some(),
        forall|i: int|
            0 <= i < body.len() ==> !fence_close(
                #[trigger] body[i],
                fence_open(opener).unwrap().0,
                fence_open(opener).unwrap().1,
            ),
        fence_close(closer, fence_open(opener).unwrap().0, fence_open(opener).unwrap().1),
    ensures
        ({
            let fence = seq![opener] + body + seq![closer];
            let blocks = scan_lines(seq![before + nl(), nl()] + raws(fence) + seq![nl(), raw]);
            &&& blocks.len() == 3
            &&& blocks[0].markdown == before
            &&& blocks[1].block_type == BlockType::CodeFence
            &&& blocks[1].markdown == join_lines(fence)
            &&& blocks[2].markdown == after
        }),
{
    let fence = seq![opener] + body + seq![closer];
    lemma_raw_of_content(opener);
    lemma_raw_of_content(closer);
    let head = seq![before + nl(), nl()];
    let middle = seq![opener + nl()] + raws(body) + seq![closer + nl()];
    let tail = seq![nl(), raw];
    assert(raws(fence) =~= middle);
    assert forall|i: int| 0 <= i < body.len() implies trim_line_break(
        #[trigger] raws(body)[i],
    ) == body[i] by {
        lemma_raw_of_content(body[i]);
    }
    let s0 = initial_state();
    lemma_paragraph_then_blank(before);
    let s2 = run(s0, head);
    lemma_fence_is_one_block(s2, opener + nl(), raws(body), closer + nl());
    let s3 = run(s2, middle);
    assert(contents(middle) =~= fence);
    lemma_blank_then_paragraph(s3, after, raw);
    lemma_run_concat(s0, head, middle);
    lemma_run_concat(s0, head + middle, tail);
    let blocks = finish(run(s3, tail));
    assert(blocks == scan_lines(head + middle + tail));
    assert(blocks.subrange(0, 1)[0] == blocks[0]);
}

/// A code fence that stands between two lines of ordinary text, a blank
/// line before it and one after it, is exactly one block of the scan,
/// whatever blank lines it holds: the scan of the whole text has three
/// blocks, the second of the type `CodeFence` with the fence as its text,
/// from the line that opens it to the line that closes it. The text may
/// end with a line feed or without one.
pub proof fn lemma_fence_between_paragraphs(
    before: Seq<char>,
    opener: Seq<char>,
    body: Seq<Seq<char>>,
    closer: Seq<char>,
    after: Seq<char>,
    ending: Seq<char>,
)
    requires
        is_content(before),
        before.len() > 0,
        before != dashes(),
        fence_open(before).is_none(),
        !table_line(before),
        is_content(after),
        after.len() > 0,
        fence_open(after).is_none(),
        !table_line(after),
        is_content(opener),
        is_content(closer),
        forall|i: int| 0 <= i < body.len() ==> is_content(#[trigger] body[i]),
        fence_open(opener).is_some(),
        forall|i: int|
            0 <= i < body.len() ==> !fence_close(
                #[trigger] body[i],
                fence_open(opener).unwrap().0,
                fence_open(opener).unwrap().1,
            ),
        fence_close(closer, fence_open(opener).unwrap().0, fence_open(opener).unwrap().1),
        ending == nl() || ending == Seq::<char>::empty(),
    ensures
        ({
            let fence = join_lines(seq![opener] + body + seq![closer]);
            let text = before + nl() + nl() + fence + nl() + nl() + after + ending;
            let blocks = scan_text(text);
            &&& blocks.len() == 3
            &&& blocks[0].markdown == before
            &&& blocks[1].block_type == BlockType::CodeFence
            &&& blocks[1].markdown == fence
            &&& blocks[2].markdown == after
        }),
{
    let fence = seq![opener] + body + seq![closer];
    assert forall|i: int| 0 <= i < fence.len() implies no_line_feed(#[trigger] fence[i]) by {
        if 1 <= i <= body.len() {
            assert(fence[i] == body[i - 1]);
        }
    }
    lemma_fence_text_lines(before, fence, after, ending);
    lemma_fence_between_lines(before, opener, body, closer, after, after + ending);
}

} // verus!
