//! Scanning the canonical text of a scan.
//!
//! Reassembling the blocks of a text and scanning the result gives the same
//! texts again, for every text whose blocks are all ended by a blank line,
//! by the end of the frontmatter or by the end of the text.

use vstd::prelude::*;

use crate::blockstore::scanner::classify::table_line;
use crate::blockstore::scanner::laws::{lemma_run_inv, state_inv};
use crate::blockstore::scanner::lines::{
    after_first_line, first_line, lemma_line_end, line_end, split_lines,
};
use crate::blockstore::scanner::machine::{
    dashes, dots, finish, initial_state, join_lines, run, scan_text, step, ScanState,
};
use crate::blockstore::scanner::{joined, reassembled, BlockView};
use crate::text::{back_line_break, is_line_break, lemma_back_line_break_bounds, trim_line_break};

verus! {

// ── Lines ──────────────────────────────────────────────────────────────────────

/// `s` holds no line feed.
pub open spec fn no_line_feed(s: Seq<char>) -> bool {
    forall|i: int| 0 <= i < s.len() ==> #[trigger] s[i] != '\n'
}

/// `s` holds no line feed before its last character.
pub open spec fn is_raw_line(s: Seq<char>) -> bool {
    forall|i: int| 0 <= i < s.len() - 1 ==> #[trigger] s[i] != '\n'
}

/// `s` is empty or ends with a line feed.
pub open spec fn ends_lines(s: Seq<char>) -> bool {
    s.len() == 0 || s.last() == '\n'
}

/// `s` does not end with a carriage return or a line feed.
pub open spec fn is_content(s: Seq<char>) -> bool {
    no_line_feed(s) && (s.len() > 0 ==> !is_line_break(s.last()))
}

/// The line feed as a text.
pub open spec fn nl() -> Seq<char> {
    seq!['\n']
}

/// Every line of a text is a raw line.
pub proof fn lemma_split_lines_raw(text: Seq<char>)
    ensures
        forall|i: int|
            0 <= i < split_lines(text).len() ==> is_raw_line(#[trigger] split_lines(text)[i]),
    decreases text.len(),
{
    if text.len() > 0 {
        lemma_line_end(text, 0);
        lemma_split_lines_raw(after_first_line(text));
        let rest = split_lines(after_first_line(text));
        assert forall|i: int| 0 <= i < split_lines(text).len() implies is_raw_line(
            #[trigger] split_lines(text)[i],
        ) by {
            if i > 0 {
                assert(split_lines(text)[i] == rest[i - 1]);
            }
        }
    }
}

/// The content of a raw line holds no line break at its end and no line
/// feed at all.
pub proof fn lemma_content_of_raw(raw: Seq<char>)
    requires
        is_raw_line(raw),
    ensures
        is_content(trim_line_break(raw)),
{
    lemma_back_line_break_bounds(raw, raw.len() as int);
    let k = back_line_break(raw, raw.len() as int);
    let t = trim_line_break(raw);
    assert forall|i: int| 0 <= i < t.len() implies #[trigger] t[i] != '\n' by {
        assert(t[i] == raw[i]);
        if i == raw.len() - 1 {
            assert(k == raw.len());
            assert(!is_line_break(raw[k - 1]));
        }
    }
}

/// A content followed by a line feed is a raw line with that content.
pub proof fn lemma_raw_of_content(line: Seq<char>)
    requires
        is_content(line),
    ensures
        trim_line_break(line + nl()) == line,
        is_raw_line(line + nl()),
{
    let raw = line + nl();
    assert(raw.len() == line.len() + 1);
    assert(raw[raw.len() - 1] == '\n');
    assert(back_line_break(raw, raw.len() as int) == back_line_break(raw, raw.len() - 1));
    if line.len() > 0 {
        assert(raw[line.len() - 1] == line.last());
    }
    assert(back_line_break(raw, raw.len() - 1) == line.len());
    assert(trim_line_break(raw) =~= line);
}

/// Where a text ends its lines, what follows does not move the end of
/// any of its lines.
proof fn lemma_line_end_prefix(x: Seq<char>, y: Seq<char>, from: int)
    requires
        x.len() > 0,
        x.last() == '\n',
        0 <= from < x.len(),
    ensures
        line_end(x + y, from) == line_end(x, from),
    decreases x.len() - from,
{
    assert((x + y)[from] == x[from]);
    if x[from] != '\n' {
        lemma_line_end_prefix(x, y, from + 1);
    }
}

/// The only line of a content followed by a line feed is all of it.
proof fn lemma_line_end_single(line: Seq<char>, from: int)
    requires
        no_line_feed(line),
        0 <= from <= line.len(),
    ensures
        line_end(line + nl(), from) == line.len() + 1,
    decreases line.len() - from,
{
    let raw = line + nl();
    if from < line.len() {
        assert(raw[from] == line[from]);
        lemma_line_end_single(line, from + 1);
    } else {
        assert(raw[from] == '\n');
    }
}

/// A line added to a text that ends its lines is the last line of the
/// result, after the lines of the text.
pub proof fn lemma_split_push(x: Seq<char>, line: Seq<char>)
    requires
        ends_lines(x),
        no_line_feed(line),
    ensures
        split_lines(x + line + nl()) == split_lines(x).push(line + nl()),
    decreases x.len(),
{
    let raw = line + nl();
    let all = x + line + nl();
    assert(all =~= x + raw);
    if x.len() == 0 {
        assert(all =~= raw);
        lemma_line_end_single(line, 0);
        assert(first_line(raw) =~= raw);
        assert(after_first_line(raw) =~= Seq::<char>::empty());
        assert(split_lines(raw) =~= seq![raw] + split_lines(Seq::<char>::empty()));
        assert(split_lines(x).push(raw) =~= seq![raw]);
    } else {
        lemma_line_end(x, 0);
        lemma_line_end_prefix(x, raw, 0);
        let k = line_end(x, 0);
        let rest = after_first_line(x);
        assert(first_line(x + raw) =~= first_line(x));
        assert(after_first_line(x + raw) =~= rest + raw);
        assert(rest.len() == 0 || rest.last() == x.last());
        lemma_split_push(rest, line);
        assert(rest + line + nl() =~= rest + raw);
        assert(split_lines(x + raw) =~= seq![first_line(x)] + split_lines(rest + raw));
        assert(split_lines(x) =~= seq![first_line(x)] + split_lines(rest));
        assert(seq![first_line(x)] + split_lines(rest).push(raw) =~= (seq![first_line(x)]
            + split_lines(rest)).push(raw));
    }
}

/// A text without line feed is its only line.
proof fn lemma_line_end_none(line: Seq<char>, from: int)
    requires
        no_line_feed(line),
        0 <= from <= line.len(),
    ensures
        line_end(line, from) == line.len(),
    decreases line.len() - from,
{
    if from < line.len() {
        lemma_line_end_none(line, from + 1);
    }
}

/// A last line without a line feed, added to a text that ends its lines,
/// is the last line of the result, after the lines of the text.
pub proof fn lemma_split_last(x: Seq<char>, line: Seq<char>)
    requires
        ends_lines(x),
        no_line_feed(line),
        line.len() > 0,
    ensures
        split_lines(x + line) == split_lines(x).push(line),
    decreases x.len(),
{
    if x.len() == 0 {
        assert(x + line =~= line);
        lemma_line_end_none(line, 0);
        assert(first_line(line) =~= line);
        assert(after_first_line(line) =~= Seq::<char>::empty());
        assert(split_lines(line) =~= seq![line] + split_lines(Seq::<char>::empty()));
        assert(split_lines(x).push(line) =~= seq![line]);
    } else {
        lemma_line_end(x, 0);
        lemma_line_end_prefix(x, line, 0);
        let rest = after_first_line(x);
        assert(first_line(x + line) =~= first_line(x));
        assert(after_first_line(x + line) =~= rest + line);
        assert(rest.len() == 0 || rest.last() == x.last());
        lemma_split_last(rest, line);
        assert(split_lines(x + line) =~= seq![first_line(x)] + split_lines(rest + line));
        assert(split_lines(x) =~= seq![first_line(x)] + split_lines(rest));
        assert(seq![first_line(x)] + split_lines(rest).push(line) =~= (seq![first_line(x)]
            + split_lines(rest)).push(line));
    }
}

/// The text made of `lines`, each followed by a line feed.
pub open spec fn flat(lines: Seq<Seq<char>>) -> Seq<char>
    decreases lines.len(),
{
    if lines.len() == 0 {
        Seq::empty()
    } else {
        flat(lines.drop_last()) + lines.last() + nl()
    }
}

/// `lines`, each followed by a line feed.
pub open spec fn raws(lines: Seq<Seq<char>>) -> Seq<Seq<char>> {
    Seq::new(lines.len(), |i: int| lines[i] + nl())
}

/// The lines of a text made of lines without line feeds are those lines.
pub proof fn lemma_split_flat(lines: Seq<Seq<char>>)
    requires
        forall|i: int| 0 <= i < lines.len() ==> no_line_feed(#[trigger] lines[i]),
    ensures
        split_lines(flat(lines)) == raws(lines),
        ends_lines(flat(lines)),
    decreases lines.len(),
{
    if lines.len() == 0 {
        assert(split_lines(flat(lines)) =~= raws(lines));
    } else {
        let front = lines.drop_last();
        assert forall|i: int| 0 <= i < front.len() implies no_line_feed(#[trigger] front[i]) by {
            assert(front[i] == lines[i]);
        }
        lemma_split_flat(front);
        assert(no_line_feed(lines[lines.len() - 1]));
        lemma_split_push(flat(front), lines.last());
        assert(raws(front).push(lines.last() + nl()) =~= raws(lines));
        assert(flat(lines).last() == '\n');
    }
}

/// The text made of lines and then more lines is the text made of the
/// first and then that made of the others.
pub proof fn lemma_flat_concat(a: Seq<Seq<char>>, b: Seq<Seq<char>>)
    ensures
        flat(a + b) == flat(a) + flat(b),
    decreases b.len(),
{
    if b.len() == 0 {
        assert(a + b =~= a);
        assert(flat(a) + flat(b) =~= flat(a));
    } else {
        lemma_flat_concat(a, b.drop_last());
        assert((a + b).drop_last() =~= a + b.drop_last());
        assert((a + b).last() == b.last());
        assert(flat(a + b) =~= flat(a) + flat(b));
    }
}

/// The text made of lines is the lines joined, and a last line feed.
pub proof fn lemma_flat_join(lines: Seq<Seq<char>>)
    requires
        lines.len() > 0,
    ensures
        flat(lines) == join_lines(lines) + nl(),
    decreases lines.len(),
{
    if lines.len() == 1 {
        assert(lines.drop_last() =~= Seq::<Seq<char>>::empty());
        assert(flat(lines.drop_last()) =~= Seq::<char>::empty());
        assert(lines.last() == lines[0]);
        assert(flat(lines) =~= join_lines(lines) + nl());
    } else {
        lemma_flat_join(lines.drop_last());
        assert(seq!['\n'] =~= nl());
        assert(flat(lines) =~= join_lines(lines) + nl());
    }
}

// ── The canonical text of a state ──────────────────────────────────────────────

/// The texts of `blocks`, each followed by a blank line.
pub open spec fn blocks_text(blocks: Seq<BlockView>) -> Seq<char>
    decreases blocks.len(),
{
    if blocks.len() == 0 {
        Seq::empty()
    } else {
        blocks_text(blocks.drop_last()) + blocks.last().markdown + nl() + nl()
    }
}

/// The canonical text of what the machine holds: the finished blocks, each
/// followed by a blank line, and the lines of the block being gathered.
pub open spec fn canon_text(st: ScanState) -> Seq<char> {
    if st.pending.len() > 0 {
        blocks_text(st.blocks) + join_lines(st.pending) + nl()
    } else {
        blocks_text(st.blocks)
    }
}

/// Two block lists hold the same texts with the same types.
pub open spec fn same_texts(a: Seq<BlockView>, b: Seq<BlockView>) -> bool {
    &&& a.len() == b.len()
    &&& forall|i: int|
        0 <= i < a.len() ==> (#[trigger] a[i]).markdown == b[i].markdown && a[i].block_type
            == b[i].block_type
}

/// The state `c` is that of `st` as far as texts go.
pub open spec fn mirrors(st: ScanState, c: ScanState) -> bool {
    &&& c.mode == st.mode
    &&& c.kind == st.kind
    &&& c.pending == st.pending
    &&& same_texts(c.blocks, st.blocks)
    &&& c.line_no == 0 <==> st.blocks.len() == 0 && st.pending.len() == 0
}

/// The state that scanning the canonical text of `st` leads to.
pub open spec fn rescanned(st: ScanState) -> ScanState {
    run(initial_state(), split_lines(canon_text(st)))
}

/// Block lists with the same texts have the same canonical text.
pub proof fn lemma_same_texts_joined(a: Seq<BlockView>, b: Seq<BlockView>)
    requires
        same_texts(a, b),
    ensures
        joined(a) == joined(b),
        reassembled(a) == reassembled(b),
    decreases a.len(),
{
    if a.len() > 1 {
        assert(a.drop_last().len() == b.drop_last().len());
        assert forall|i: int| 0 <= i < a.drop_last().len() implies (
        #[trigger] a.drop_last()[i]).markdown == b.drop_last()[i].markdown && a.drop_last()[i].block_type
            == b.drop_last()[i].block_type by {
            assert(a.drop_last()[i] == a[i]);
            assert(b.drop_last()[i] == b[i]);
        }
        lemma_same_texts_joined(a.drop_last(), b.drop_last());
        assert(a.last().markdown == a[a.len() - 1].markdown);
    } else if a.len() == 1 {
        assert(a[0].markdown == b[0].markdown);
    }
}

/// The texts of blocks, each followed by a blank line, are their canonical
/// text and one line feed more.
pub proof fn lemma_blocks_text(blocks: Seq<BlockView>)
    ensures
        blocks.len() > 0 ==> blocks_text(blocks) == joined(blocks) + nl() + nl(),
        blocks.len() == 0 ==> blocks_text(blocks) == Seq::<char>::empty(),
        ends_lines(blocks_text(blocks)),
    decreases blocks.len(),
{
    if blocks.len() > 1 {
        lemma_blocks_text(blocks.drop_last());
        assert(seq!['\n', '\n'] =~= nl() + nl());
        assert(blocks_text(blocks) =~= joined(blocks) + nl() + nl());
    } else if blocks.len() == 1 {
        assert(blocks.drop_last().len() == 0);
        assert(blocks_text(blocks.drop_last()) =~= Seq::<char>::empty());
        assert(blocks.last() == blocks[0]);
        assert(blocks_text(blocks) =~= blocks[0].markdown + nl() + nl());
    }
}

// ── Scanning the canonical text ────────────────────────────────────────────────

/// Whether the state `st` can read the line `line` without ending a block
/// in a way that the canonical text does not keep: a table is not ended by
/// a line of another kind, and no line `---` comes first after blank lines
/// alone.
pub open spec fn keeps_shape(st: ScanState, line: Seq<char>) -> bool {
    &&& !(st.mode is Table && line.len() > 0 && !table_line(line))
    &&& !(st.line_no > 0 && st.blocks.len() == 0 && st.pending.len() == 0 && line == dashes())
}

/// Whether the machine, started in `st`, reads every line of `lines`
/// keeping the shape.
pub open spec fn keeps_shape_all(st: ScanState, lines: Seq<Seq<char>>) -> bool
    decreases lines.len(),
{
    lines.len() == 0 || (keeps_shape_all(st, lines.drop_last()) && keeps_shape(
        run(st, lines.drop_last()),
        trim_line_break(lines.last()),
    ))
}

/// The canonical text of a state ends its lines.
pub proof fn lemma_canon_ends_lines(st: ScanState)
    ensures
        ends_lines(canon_text(st)),
{
    lemma_blocks_text(st.blocks);
    if st.pending.len() > 0 {
        assert(canon_text(st).last() == '\n');
    }
}

/// Scanning a text that ends its lines and one line more is scanning the
/// text and then reading the line.
proof fn lemma_feed(x: Seq<char>, line: Seq<char>)
    requires
        ends_lines(x),
        is_content(line),
    ensures
        run(initial_state(), split_lines(x + line + nl())) == step(
            run(initial_state(), split_lines(x)),
            line + nl(),
        ),
        trim_line_break(line + nl()) == line,
{
    lemma_split_push(x, line);
    lemma_raw_of_content(line);
    assert(split_lines(x).push(line + nl()).drop_last() =~= split_lines(x));
}

/// Adding a line to the lines of a block adds it, after a line feed, to
/// their joined text.
pub proof fn lemma_join_push(lines: Seq<Seq<char>>, line: Seq<char>)
    ensures
        join_lines(lines.push(line)) == if lines.len() == 0 {
            line
        } else {
            join_lines(lines) + nl() + line
        },
{
    assert(lines.push(line).drop_last() =~= lines);
    assert(lines.push(line).last() == line);
    if lines.len() == 0 {
        assert(lines.push(line)[0] == line);
    }
}

/// Adding a block to a list adds its text and a blank line to the text of
/// the list.
pub proof fn lemma_blocks_text_push(blocks: Seq<BlockView>, b: BlockView)
    ensures
        blocks_text(blocks.push(b)) == blocks_text(blocks) + b.markdown + nl() + nl(),
{
    assert(blocks.push(b).drop_last() =~= blocks);
}

/// Adding blocks with the same text to lists with the same texts gives
/// lists with the same texts.
proof fn lemma_same_texts_push(a: Seq<BlockView>, b: Seq<BlockView>, x: BlockView, y: BlockView)
    requires
        same_texts(a, b),
        x.markdown == y.markdown,
        x.block_type == y.block_type,
    ensures
        same_texts(a.push(x), b.push(y)),
{
    assert forall|i: int| 0 <= i < a.push(x).len() implies (#[trigger] a.push(x)[i]).markdown
        == b.push(y)[i].markdown && a.push(x)[i].block_type == b.push(y)[i].block_type by {
        if i < a.len() {
            assert(a.push(x)[i] == a[i]);
            assert(b.push(y)[i] == b[i]);
        }
    }
}

/// What the step lemmas need of a state.
pub open spec fn light_inv(st: ScanState) -> bool {
    &&& st.line_no == 0 ==> st.blocks.len() == 0 && st.pending.len() == 0
    &&& !(st.mode is Normal) ==> st.pending.len() > 0
}

/// Whether the line `line` ends the frontmatter that `st` is in.
pub open spec fn closes_frontmatter(st: ScanState, line: Seq<char>) -> bool {
    !(st.line_no == 0 && line == dashes()) && st.mode is Frontmatter && (line == dashes() || line
        == dots())
}

/// Whether the line `line` is a blank line between blocks for `st`.
pub open spec fn is_gap(st: ScanState, line: Seq<char>) -> bool {
    !(st.line_no == 0 && line == dashes()) && st.mode is Normal && line.len() == 0
        && st.pending.len() == 0
}

/// The canonical text after a line, from the one before it.
pub proof fn lemma_canon_step(st: ScanState, raw: Seq<char>)
    requires
        light_inv(st),
        keeps_shape(st, trim_line_break(raw)),
    ensures
        canon_text(step(st, raw)) == if is_gap(st, trim_line_break(raw)) {
            canon_text(st)
        } else if closes_frontmatter(st, trim_line_break(raw)) {
            canon_text(st) + trim_line_break(raw) + nl() + nl()
        } else {
            canon_text(st) + trim_line_break(raw) + nl()
        },
{
    let x = canon_text(st);
    let line = trim_line_break(raw);
    let st2 = step(st, raw);
    lemma_join_push(st.pending, line);
    if is_gap(st, line) {
    } else if closes_frontmatter(st, line) {
        let b = st2.blocks.last();
        assert(st2.blocks =~= st.blocks.push(b));
        lemma_blocks_text_push(st.blocks, b);
        assert(canon_text(st2) =~= x + line + nl() + nl());
    } else if st.mode is Normal && line.len() == 0 && !(st.line_no == 0 && line == dashes()) {
        let b = st2.blocks.last();
        assert(st2.blocks =~= st.blocks.push(b));
        lemma_blocks_text_push(st.blocks, b);
        assert(canon_text(st2) =~= x + line + nl());
    } else {
        if st.pending.len() == 0 {
            assert(st.pending.push(line) =~= seq![line]);
        }
        assert(st2.blocks == st.blocks);
        assert(st2.pending == st.pending.push(line));
        assert(canon_text(st2) =~= x + line + nl());
    }
}

/// States that mirror each other and read the same line mirror each other
/// after it.
proof fn lemma_mirror_line(st: ScanState, c: ScanState, raw: Seq<char>, fed: Seq<char>)
    requires
        light_inv(st),
        mirrors(st, c),
        keeps_shape(st, trim_line_break(raw)),
        trim_line_break(fed) == trim_line_break(raw),
        !is_gap(st, trim_line_break(raw)),
    ensures
        mirrors(step(st, raw), step(c, fed)),
{
    let line = trim_line_break(raw);
    let st2 = step(st, raw);
    let c2 = step(c, fed);
    if closes_frontmatter(st, line) || (st.mode is Normal && line.len() == 0 && !(st.line_no == 0
        && line == dashes())) {
        let b = st2.blocks.last();
        let d = c2.blocks.last();
        assert(st2.blocks =~= st.blocks.push(b));
        assert(c2.blocks =~= c.blocks.push(d));
        lemma_same_texts_push(c.blocks, st.blocks, d, b);
    }
}

/// A state that reads a blank line between blocks keeps its texts.
proof fn lemma_mirror_gap(st: ScanState, c: ScanState, raw: Seq<char>)
    requires
        mirrors(st, c),
        st.mode is Normal,
        st.pending.len() == 0,
        trim_line_break(raw).len() == 0,
        c.line_no > 0,
    ensures
        mirrors(st, step(c, raw)),
{
    assert(trim_line_break(raw) != dashes()) by {
        assert(dashes().len() == 3);
    }
}

/// Reading a line that keeps the shape, the machine stays mirrored by the
/// scan of its canonical text.
proof fn lemma_mirror_step(st: ScanState, raw: Seq<char>)
    requires
        light_inv(st),
        is_raw_line(raw),
        mirrors(st, rescanned(st)),
        keeps_shape(st, trim_line_break(raw)),
    ensures
        mirrors(step(st, raw), rescanned(step(st, raw))),
{
    let x = canon_text(st);
    let c = rescanned(st);
    let line = trim_line_break(raw);
    let st2 = step(st, raw);
    lemma_content_of_raw(raw);
    lemma_canon_ends_lines(st);
    lemma_canon_step(st, raw);
    if is_gap(st, line) {
        assert(canon_text(st2) == x);
        assert(mirrors(st2, c));
    } else {
        lemma_feed(x, line);
        let c2 = step(c, line + nl());
        lemma_mirror_line(st, c, raw, line + nl());
        if closes_frontmatter(st, line) {
            let x1 = x + line + nl();
            assert(x1.last() == '\n');
            let blank = Seq::<char>::empty();
            lemma_feed(x1, blank);
            assert(x1 + blank + nl() =~= x1 + nl());
            assert(blank + nl() =~= nl());
            assert(rescanned(st2) == step(c2, nl()));
            lemma_mirror_gap(st2, c2, nl());
        } else {
            assert(rescanned(st2) == c2);
        }
    }
}

/// Reading lines that keep the shape, the machine stays mirrored by the
/// scan of its canonical text.
proof fn lemma_mirror_run(lines: Seq<Seq<char>>)
    requires
        forall|i: int| 0 <= i < lines.len() ==> is_raw_line(#[trigger] lines[i]),
        keeps_shape_all(initial_state(), lines),
    ensures
        mirrors(run(initial_state(), lines), rescanned(run(initial_state(), lines))),
    decreases lines.len(),
{
    if lines.len() == 0 {
        assert(canon_text(initial_state()) =~= Seq::<char>::empty());
    } else {
        let front = lines.drop_last();
        assert forall|i: int| 0 <= i < front.len() implies is_raw_line(#[trigger] front[i]) by {
            assert(front[i] == lines[i]);
        }
        lemma_mirror_run(front);
        lemma_run_inv(initial_state(), front);
        assert(is_raw_line(lines[lines.len() - 1]));
        lemma_mirror_step(run(initial_state(), front), lines.last());
    }
}

/// A text keeps its shape: none of its tables is ended by a line of another
/// kind, and its first line that is not blank is not a line `---` after
/// blank lines.
pub open spec fn keeps_its_shape(text: Seq<char>) -> bool {
    keeps_shape_all(initial_state(), split_lines(text))
}

/// The canonical text of any scan is empty or ends with a line feed.
pub proof fn lemma_reassembled_ends_lines(text: Seq<char>)
    ensures
        ends_lines(reassembled(scan_text(text))),
        reassembled(scan_text(text)).len() == 0 <==> scan_text(text).len() == 0,
{
    let blocks = scan_text(text);
    if blocks.len() > 0 {
        assert(reassembled(blocks).last() == '\n');
    }
}

/// Scanning the canonical text of a scan gives the same texts with the same
/// types, block for block; so reassembling, applied twice, gives what it
/// gives applied once. This holds of every text that keeps its shape.
pub proof fn lemma_reassemble_fixed_point(text: Seq<char>)
    requires
        keeps_its_shape(text),
    ensures
        same_texts(scan_text(reassembled(scan_text(text))), scan_text(text)),
        reassembled(scan_text(reassembled(scan_text(text)))) == reassembled(scan_text(text)),
{
    let lines = split_lines(text);
    let st = run(initial_state(), lines);
    let blocks = scan_text(text);
    let r = reassembled(blocks);
    lemma_split_lines_raw(text);
    lemma_mirror_run(lines);
    lemma_run_inv(initial_state(), lines);
    let c = rescanned(st);
    lemma_blocks_text(st.blocks);
    if st.pending.len() > 0 {
        let last = blocks.last();
        assert(blocks =~= st.blocks.push(last));
        assert(blocks.drop_last() =~= st.blocks);
        if st.blocks.len() == 0 {
            assert(blocks[0] == last);
            assert(r =~= canon_text(st));
        } else {
            assert(seq!['\n', '\n'] =~= nl() + nl());
            assert(r =~= canon_text(st));
        }
        let again = finish(c);
        assert(again =~= c.blocks.push(again.last()));
        lemma_same_texts_push(c.blocks, st.blocks, again.last(), last);
        lemma_same_texts_joined(again, blocks);
    } else if blocks.len() == 0 {
        assert(r =~= Seq::<char>::empty());
        assert(split_lines(r) =~= Seq::<Seq<char>>::empty());
    } else {
        assert(canon_text(st) =~= r + nl());
        assert(r.last() == '\n');
        let blank = Seq::<char>::empty();
        lemma_feed(r, blank);
        assert(r + blank + nl() =~= r + nl());
        assert(blank + nl() =~= nl());
        let before = run(initial_state(), split_lines(r));
        assert(c == step(before, nl()));
        lemma_run_inv(initial_state(), split_lines(r));
        lemma_before_gap(before, nl(), blocks);
        lemma_same_texts_joined(finish(before), blocks);
    }
}

/// A state that a blank line leaves between blocks held, before the line,
/// the same texts, finished or being gathered.
proof fn lemma_before_gap(before: ScanState, raw: Seq<char>, blocks: Seq<BlockView>)
    requires
        state_inv(before),
        trim_line_break(raw).len() == 0,
        step(before, raw).mode is Normal,
        step(before, raw).pending.len() == 0,
        same_texts(step(before, raw).blocks, blocks),
    ensures
        same_texts(finish(before), blocks),
{
    let after = step(before, raw);
    assert(trim_line_break(raw) != dashes()) by {
        assert(dashes().len() == 3);
    }
    assert(trim_line_break(raw) != dots()) by {
        assert(dots().len() == 3);
    }
    if before.pending.len() > 0 {
        assert(before.mode is Normal);
        let b = after.blocks.last();
        let d = finish(before).last();
        assert(after.blocks =~= before.blocks.push(b));
        assert(finish(before) =~= before.blocks.push(d));
        assert forall|i: int| 0 <= i < finish(before).len() implies (
        #[trigger] finish(before)[i]).markdown == blocks[i].markdown && finish(
            before,
        )[i].block_type == blocks[i].block_type by {
            assert(after.blocks[i].markdown == blocks[i].markdown);
            if i < before.blocks.len() {
                assert(finish(before)[i] == after.blocks[i]);
            }
        }
    }
}

} // verus!
