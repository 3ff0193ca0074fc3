//! Texts in canonical form.
//!
//! A text is in canonical form where the scanner gathers every one of its
//! lines and a single blank line stands wherever a block ends. Such a text
//! is what reassembling its scan gives: it is a fixed point of scanning and
//! reassembling.

use vstd::prelude::*;

use crate::blockstore::scanner::classify::table_line;
use crate::blockstore::scanner::laws::lemma_run_inv;
use crate::blockstore::scanner::lines::{after_first_line, first_line, lemma_line_end, split_lines};
use crate::blockstore::scanner::machine::{
    dashes, dots, finish, initial_state, run, scan_text, step, ScanState,
};
use crate::blockstore::scanner::roundtrip::{
    canon_text, closes_frontmatter, ends_lines, is_content, is_gap, is_raw_line, keeps_shape,
    lemma_blocks_text, lemma_blocks_text_push, lemma_canon_ends_lines, lemma_canon_step,
    lemma_content_of_raw, lemma_join_push, lemma_raw_of_content, lemma_split_lines_raw,
    lemma_reassemble_fixed_point, lemma_split_push, light_inv, keeps_its_shape, nl,
};
use crate::blockstore::scanner::{reassembled};
use crate::text::trim_line_break;

verus! {

/// `lines` put one after the other.
pub open spec fn concat(lines: Seq<Seq<char>>) -> Seq<char>
    decreases lines.len(),
{
    if lines.len() == 0 {
        Seq::empty()
    } else {
        concat(lines.drop_last()) + lines.last()
    }
}

/// How the lines read so far stand to the canonical text of what the
/// scanner has made of them.
pub enum Standing {
    /// The canonical text is the lines read.
    Even,
    /// The canonical text is the lines read and one line feed more: a
    /// frontmatter has just ended, and a blank line is due.
    Owed,
    /// The canonical text differs from the lines read.
    Off,
}

/// How `lines` stand to their canonical text. A line keeps it even where
/// it ends with a single line feed and no carriage return, is gathered by
/// the scanner and ends no table; the line that closes the frontmatter
/// must be followed by a blank line, and no other blank line may stand
/// between blocks or before the first.
pub open spec fn standing(lines: Seq<Seq<char>>) -> Standing
    decreases lines.len(),
{
    if lines.len() == 0 {
        Standing::Even
    } else {
        let st = run(initial_state(), lines.drop_last());
        let raw = lines.last();
        let line = trim_line_break(raw);
        match standing(lines.drop_last()) {
            Standing::Off => Standing::Off,
            Standing::Owed => if raw == nl() {
                Standing::Even
            } else {
                Standing::Off
            },
            Standing::Even => if raw != line + nl() || is_gap(st, line) || !keeps_shape(st, line) {
                Standing::Off
            } else if closes_frontmatter(st, line) {
                Standing::Owed
            } else {
                Standing::Even
            },
        }
    }
}

/// Whether the text is in canonical form: its lines stand even with their
/// canonical text, and it does not end with a blank line after a block
/// that a blank line ended.
pub open spec fn is_canonical(text: Seq<char>) -> bool {
    let lines = split_lines(text);
    match standing(lines) {
        Standing::Owed => true,
        Standing::Even => lines.len() == 0 || run(initial_state(), lines).pending.len() > 0,
        Standing::Off => false,
    }
}

/// Lines put after a first line are that line and then the lines.
proof fn lemma_concat_front(first: Seq<char>, rest: Seq<Seq<char>>)
    ensures
        concat(seq![first] + rest) == first + concat(rest),
    decreases rest.len(),
{
    if rest.len() == 0 {
        assert(seq![first] + rest =~= seq![first]);
        assert(seq![first].drop_last() =~= Seq::<Seq<char>>::empty());
        assert(concat(seq![first].drop_last()) =~= Seq::<char>::empty());
        assert(seq![first].last() == first);
        assert(concat(seq![first]) =~= first);
        assert(first + concat(rest) =~= first);
    } else {
        lemma_concat_front(first, rest.drop_last());
        assert((seq![first] + rest).drop_last() =~= seq![first] + rest.drop_last());
        assert((seq![first] + rest).last() == rest.last());
        assert(concat(seq![first] + rest) =~= first + concat(rest));
    }
}

/// A text is its lines put one after the other.
pub proof fn lemma_concat_split(text: Seq<char>)
    ensures
        concat(split_lines(text)) == text,
    decreases text.len(),
{
    if text.len() == 0 {
        assert(concat(split_lines(text)) =~= text);
    } else {
        lemma_line_end(text, 0);
        lemma_concat_split(after_first_line(text));
        lemma_concat_front(first_line(text), split_lines(after_first_line(text)));
        assert(first_line(text) + after_first_line(text) =~= text);
    }
}

/// What the standing of lines says of their canonical text.
proof fn lemma_standing(lines: Seq<Seq<char>>)
    ensures
        ({
            let st = run(initial_state(), lines);
            match standing(lines) {
                Standing::Even => canon_text(st) == concat(lines) && (lines.len() > 0 ==> st.line_no
                    > 0),
                Standing::Owed => canon_text(st) == concat(lines) + nl() && st.mode is Normal
                    && st.pending.len() == 0 && st.blocks.len() > 0 && st.line_no > 0,
                Standing::Off => true,
            }
        }),
    decreases lines.len(),
{
    if lines.len() > 0 {
        let front = lines.drop_last();
        let st = run(initial_state(), front);
        let raw = lines.last();
        let line = trim_line_break(raw);
        lemma_standing(front);
        lemma_run_inv(initial_state(), front);
        match standing(front) {
            Standing::Off => {},
            Standing::Owed => {
                if raw == nl() {
                    let blank = Seq::<char>::empty();
                    lemma_raw_of_content(blank);
                    assert(blank + nl() =~= nl());
                    assert(line.len() == 0);
                    assert(is_gap(st, line));
                    lemma_canon_step(st, raw);
                    assert(concat(lines) =~= concat(front) + nl());
                }
            },
            Standing::Even => {
                if raw == line + nl() && !is_gap(st, line) && keeps_shape(st, line) {
                    lemma_canon_step(st, raw);
                    if closes_frontmatter(st, line) {
                        assert(canon_text(step(st, raw)) =~= concat(lines) + nl());
                    } else {
                        assert(canon_text(step(st, raw)) =~= concat(lines));
                    }
                }
            },
        }
    }
}

/// The canonical text of a state is what reassembling its blocks gives,
/// and one line feed more where no block is being gathered.
proof fn lemma_reassembled_of_state(st: ScanState)
    ensures
        st.pending.len() > 0 ==> reassembled(finish(st)) == canon_text(st),
        st.pending.len() == 0 && st.blocks.len() > 0 ==> reassembled(finish(st)) + nl()
            == canon_text(st),
{
    lemma_blocks_text(st.blocks);
    let blocks = finish(st);
    let r = reassembled(blocks);
    if st.pending.len() > 0 {
        let last = blocks.last();
        assert(blocks =~= st.blocks.push(last));
        assert(blocks.drop_last() =~= st.blocks);
        if st.blocks.len() == 0 {
            assert(blocks[0] == last);
            assert(r =~= canon_text(st));
        } else {
            assert(seq!['\n', '\n'] =~= nl() + nl());
            assert(r =~= canon_text(st));
        }
    } else if st.blocks.len() > 0 {
        assert(r + nl() =~= canon_text(st));
    }
}

/// A text in canonical form is what reassembling its scan gives.
pub proof fn lemma_canonical_is_fixed_point(text: Seq<char>)
    requires
        is_canonical(text),
    ensures
        reassembled(scan_text(text)) == text,
{
    let lines = split_lines(text);
    let st = run(initial_state(), lines);
    lemma_concat_split(text);
    lemma_standing(lines);
    lemma_reassembled_of_state(st);
    let r = reassembled(scan_text(text));
    match standing(lines) {
        Standing::Owed => {
            assert(r + nl() == text + nl());
            assert(r.len() == text.len()) by {
                assert((r + nl()).len() == r.len() + 1);
                assert((text + nl()).len() == text.len() + 1);
            }
            assert forall|i: int| 0 <= i < r.len() implies r[i] == text[i] by {
                assert((r + nl())[i] == r[i]);
                assert((text + nl())[i] == text[i]);
            }
            assert(r =~= text);
        },
        Standing::Even => {
            if lines.len() == 0 {
                assert(text =~= Seq::<char>::empty());
                assert(r =~= Seq::<char>::empty());
            }
        },
        Standing::Off => {},
    }
}

// ── The converse ───────────────────────────────────────────────────────────────

/// Whether the line `line` ends the table that `st` is in.
pub open spec fn leaves_table(st: ScanState, line: Seq<char>) -> bool {
    !(st.line_no == 0 && line == dashes()) && st.mode is Table && line.len() > 0 && !table_line(
        line,
    )
}

/// What the canonical text grows by when the state `st` reads the line
/// `line`: nothing for a blank line between blocks; the line and a blank
/// line where it closes the frontmatter; a blank line and the line where
/// it ends a table; else the line.
pub open spec fn fed(st: ScanState, line: Seq<char>) -> Seq<char> {
    if is_gap(st, line) {
        Seq::empty()
    } else if closes_frontmatter(st, line) {
        line + nl() + nl()
    } else if leaves_table(st, line) {
        nl() + line + nl()
    } else {
        line + nl()
    }
}

/// The canonical text only grows: after a line it is what it was and what
/// the line feeds.
pub proof fn lemma_canon_feed(st: ScanState, raw: Seq<char>)
    requires
        light_inv(st),
    ensures
        canon_text(step(st, raw)) == canon_text(st) + fed(st, trim_line_break(raw)),
{
    let x = canon_text(st);
    let line = trim_line_break(raw);
    let st2 = step(st, raw);
    lemma_join_push(st.pending, line);
    if leaves_table(st, line) {
        let b = st.blocks.len() as int;
        let done = st2.blocks[b];
        assert(st2.blocks =~= st.blocks.push(done));
        lemma_blocks_text_push(st.blocks, done);
        assert(st2.pending =~= seq![line]);
        assert(canon_text(st2) =~= x + (nl() + line + nl()));
    } else if st.line_no > 0 && st.blocks.len() == 0 && st.pending.len() == 0 && line == dashes() {
        assert(dashes().len() == 3);
        assert(st.mode is Normal);
        assert(st2.pending =~= seq![line]);
        assert(st2.blocks == st.blocks);
        assert(canon_text(st2) =~= x + (line + nl()));
    } else {
        lemma_canon_step(st, raw);
        if is_gap(st, line) {
            assert(x + fed(st, line) =~= x);
        } else if closes_frontmatter(st, line) {
            assert(x + line + nl() + nl() =~= x + (line + nl() + nl()));
        } else {
            assert(x + line + nl() =~= x + (line + nl()));
        }
    }
}

/// Every line is its content followed by a single line feed: none holds a
/// carriage return before its line feed, and the last one has its line
/// feed.
pub open spec fn flat_lines(lines: Seq<Seq<char>>) -> bool {
    forall|i: int|
        0 <= i < lines.len() ==> is_raw_line(#[trigger] lines[i]) && lines[i] == trim_line_break(
            lines[i],
        ) + nl()
}

/// Whether the canonical text `c` has a line feed at `p`, before its end,
/// where the text `x` has another character.
pub open spec fn is_ahead(c: Seq<char>, x: Seq<char>, p: int) -> bool {
    0 <= p && p + 1 < c.len() && p < x.len() && c[p] == '\n' && x[p] != '\n'
}

/// Whether the text `x` has a line feed at `p` where the canonical text
/// `c` has another character, or where it ends while the scanner waits
/// for a block to start.
pub open spec fn is_behind(c: Seq<char>, x: Seq<char>, waiting: bool, p: int) -> bool {
    0 <= p < x.len() && x[p] == '\n' && ((p == c.len() && waiting) || (p < c.len() && c[p]
        != '\n'))
}

/// Whether the state waits for a block to start, after the first line.
pub open spec fn is_waiting(st: ScanState) -> bool {
    st.mode is Normal && st.pending.len() == 0 && st.line_no > 0
}

/// Whether the canonical text `c` and the text `x` differ for good.
pub open spec fn parted(c: Seq<char>, x: Seq<char>, waiting: bool) -> bool {
    (exists|p: int| #[trigger] is_ahead(c, x, p)) || (exists|p: int| #[trigger]
        is_behind(c, x, waiting, p))
}

/// The number of lines read.
proof fn lemma_run_line_no(lines: Seq<Seq<char>>)
    ensures
        run(initial_state(), lines).line_no == lines.len(),
    decreases lines.len(),
{
    if lines.len() > 0 {
        lemma_run_line_no(lines.drop_last());
    }
}

/// Lines that are not empty make a text that is not empty.
proof fn lemma_concat_len(lines: Seq<Seq<char>>)
    requires
        lines.len() > 0,
        lines.last().len() > 0,
    ensures
        concat(lines).len() > 0,
{
}

/// Where lines stand off from their canonical text, the two differ for
/// good.
proof fn lemma_off(lines: Seq<Seq<char>>)
    requires
        flat_lines(lines),
    ensures
        standing(lines) is Off ==> parted(
            canon_text(run(initial_state(), lines)),
            concat(lines),
            is_waiting(run(initial_state(), lines)),
        ),
    decreases lines.len(),
{
    if lines.len() > 0 {
        let front = lines.drop_last();
        let st = run(initial_state(), front);
        let st2 = run(initial_state(), lines);
        let raw = lines.last();
        let line = trim_line_break(raw);
        let c = canon_text(st);
        let x = concat(front);
        let c2 = canon_text(st2);
        let x2 = concat(lines);
        assert forall|i: int| 0 <= i < front.len() implies is_raw_line(#[trigger] front[i])
            && front[i] == trim_line_break(front[i]) + nl() by {
            assert(front[i] == lines[i]);
        }
        assert(is_raw_line(lines[lines.len() - 1]));
        assert(raw == line + nl());
        lemma_off(front);
        lemma_standing(front);
        lemma_run_inv(initial_state(), front);
        lemma_run_line_no(front);
        lemma_content_of_raw(raw);
        lemma_canon_feed(st, raw);
        assert(c2 == c + fed(st, line));
        assert(x2 == x + raw);
        assert(dashes().len() == 3);
        assert(dots().len() == 3);
        match standing(front) {
            Standing::Off => {
                if exists|p: int| #[trigger] is_ahead(c, x, p) {
                    let p = choose|p: int| #[trigger] is_ahead(c, x, p);
                    assert(c2[p] == c[p]);
                    assert(x2[p] == x[p]);
                    assert(is_ahead(c2, x2, p));
                } else {
                    let p = choose|p: int| #[trigger] is_behind(c, x, is_waiting(st), p);
                    assert(x2[p] == x[p]);
                    if p < c.len() {
                        assert(c2[p] == c[p]);
                        assert(is_behind(c2, x2, is_waiting(st2), p));
                    } else if line.len() == 0 {
                        assert(is_gap(st, line));
                        assert(c2 =~= c);
                        assert(is_behind(c2, x2, is_waiting(st2), p));
                    } else {
                        assert(fed(st, line) == line + nl());
                        assert(c2[p] == line[0]);
                        assert(is_behind(c2, x2, is_waiting(st2), p));
                    }
                }
            },
            Standing::Owed => {
                if raw != nl() {
                    assert(line.len() > 0) by {
                        if line.len() == 0 {
                            assert(line + nl() =~= nl());
                        }
                    }
                    let p = x.len() as int;
                    assert(fed(st, line) == line + nl());
                    assert(c2 =~= x + nl() + (line + nl()));
                    assert(c2[p] == '\n');
                    assert(x2[p] == line[0]);
                    assert(is_ahead(c2, x2, p));
                }
            },
            Standing::Even => {
                let p = x.len() as int;
                if is_gap(st, line) {
                    assert(c2 =~= c);
                    assert(x2[p] == '\n');
                    assert(is_behind(c2, x2, is_waiting(st2), p));
                } else if !keeps_shape(st, line) {
                    if leaves_table(st, line) {
                        assert(c2 =~= c + (nl() + line + nl()));
                        assert(c2[p] == '\n');
                        assert(x2[p] == line[0]);
                        assert(is_ahead(c2, x2, p));
                    } else {
                        assert(front.len() > 0);
                        assert(front[front.len() - 1].len() > 0);
                        lemma_concat_len(front);
                        lemma_blocks_text(st.blocks);
                        assert(c.len() == 0);
                    }
                }
            },
        }
    }
}

/// A text whose lines are flat and that is what reassembling its scan
/// gives is in canonical form.
pub proof fn lemma_fixed_point_is_canonical(text: Seq<char>)
    requires
        flat_lines(split_lines(text)),
        reassembled(scan_text(text)) == text,
    ensures
        is_canonical(text),
{
    let lines = split_lines(text);
    let st = run(initial_state(), lines);
    let c = canon_text(st);
    let r = reassembled(scan_text(text));
    lemma_concat_split(text);
    lemma_standing(lines);
    lemma_off(lines);
    lemma_reassembled_of_state(st);
    lemma_blocks_text(st.blocks);
    if st.pending.len() == 0 && st.blocks.len() > 0 {
        assert((r + nl()).len() == r.len() + 1);
    }
    match standing(lines) {
        Standing::Off => {
            if exists|p: int| #[trigger] is_ahead(c, text, p) {
                let p = choose|p: int| #[trigger] is_ahead(c, text, p);
                if st.pending.len() == 0 && st.blocks.len() > 0 {
                    assert((r + nl())[p] == r[p]);
                }
                assert(false);
            } else {
                let p = choose|p: int| #[trigger] is_behind(c, text, is_waiting(st), p);
                if st.pending.len() == 0 && st.blocks.len() > 0 {
                    assert((r + nl())[p] == r[p]);
                }
                assert(false);
            }
        },
        Standing::Even => {
            if lines.len() > 0 && st.pending.len() == 0 {
                assert(lines[lines.len() - 1].len() > 0);
                lemma_concat_len(lines);
                assert(false);
            }
        },
        Standing::Owed => {},
    }
}

/// A text of flat lines and one content more, with its line feed, is a
/// text of flat lines.
proof fn lemma_flat_after_line(c: Seq<char>, line: Seq<char>)
    requires
        ends_lines(c),
        flat_lines(split_lines(c)),
        is_content(line),
    ensures
        ends_lines(c + line + nl()),
        flat_lines(split_lines(c + line + nl())),
{
    lemma_split_push(c, line);
    lemma_raw_of_content(line);
    lemma_push_flat(split_lines(c), line + nl());
    assert((c + line + nl()).last() == '\n');
}

/// What a line feeds keeps the lines of the canonical text flat.
proof fn lemma_flat_after_feed(c: Seq<char>, st: ScanState, line: Seq<char>)
    requires
        ends_lines(c),
        flat_lines(split_lines(c)),
        is_content(line),
    ensures
        flat_lines(split_lines(c + fed(st, line))),
{
    let blank = Seq::<char>::empty();
    if is_gap(st, line) {
        assert(c + fed(st, line) =~= c);
    } else if closes_frontmatter(st, line) {
        lemma_flat_after_line(c, line);
        lemma_flat_after_line(c + line + nl(), blank);
        assert(c + line + nl() + blank + nl() =~= c + fed(st, line));
    } else if leaves_table(st, line) {
        lemma_flat_after_line(c, blank);
        lemma_flat_after_line(c + blank + nl(), line);
        assert(c + blank + nl() + line + nl() =~= c + fed(st, line));
    } else {
        lemma_flat_after_line(c, line);
        assert(c + line + nl() =~= c + fed(st, line));
    }
}

/// The lines of the canonical text of any state that the scan of a text
/// reaches are flat.
proof fn lemma_canon_is_flat(lines: Seq<Seq<char>>)
    requires
        forall|i: int| 0 <= i < lines.len() ==> is_raw_line(#[trigger] lines[i]),
    ensures
        flat_lines(split_lines(canon_text(run(initial_state(), lines)))),
        ends_lines(canon_text(run(initial_state(), lines))),
    decreases lines.len(),
{
    let st2 = run(initial_state(), lines);
    lemma_canon_ends_lines(st2);
    if lines.len() == 0 {
        assert(canon_text(st2) =~= Seq::<char>::empty());
    } else {
        let front = lines.drop_last();
        let st = run(initial_state(), front);
        let raw = lines.last();
        assert forall|i: int| 0 <= i < front.len() implies is_raw_line(#[trigger] front[i]) by {
            assert(front[i] == lines[i]);
        }
        assert(is_raw_line(lines[lines.len() - 1]));
        lemma_canon_is_flat(front);
        lemma_run_inv(initial_state(), front);
        lemma_content_of_raw(raw);
        lemma_canon_feed(st, raw);
        lemma_flat_after_feed(canon_text(st), st, trim_line_break(raw));
    }
}

/// Flat lines and one flat line more are flat lines.
proof fn lemma_push_flat(lines: Seq<Seq<char>>, raw: Seq<char>)
    requires
        flat_lines(lines),
        is_raw_line(raw),
        raw == trim_line_break(raw) + nl(),
    ensures
        flat_lines(lines.push(raw)),
{
    assert forall|i: int| 0 <= i < lines.push(raw).len() implies is_raw_line(
        #[trigger] lines.push(raw)[i],
    ) && lines.push(raw)[i] == trim_line_break(lines.push(raw)[i]) + nl() by {
        if i < lines.len() {
            assert(lines.push(raw)[i] == lines[i]);
        }
    }
}

/// The lines of the canonical text of any scan are flat.
pub proof fn lemma_reassembled_is_flat(text: Seq<char>)
    ensures
        flat_lines(split_lines(reassembled(scan_text(text)))),
{
    let lines = split_lines(text);
    let st = run(initial_state(), lines);
    let r = reassembled(scan_text(text));
    lemma_split_lines_raw(text);
    lemma_canon_is_flat(lines);
    lemma_reassembled_of_state(st);
    if st.pending.len() == 0 {
        if st.blocks.len() > 0 {
            let blank = Seq::<char>::empty();
            assert(r.last() == '\n');
            lemma_split_push(r, blank);
            assert(r + blank + nl() =~= r + nl());
            let all = split_lines(canon_text(st));
            assert(split_lines(r) =~= all.drop_last());
            assert forall|i: int| 0 <= i < split_lines(r).len() implies is_raw_line(
                #[trigger] split_lines(r)[i],
            ) && split_lines(r)[i] == trim_line_break(split_lines(r)[i]) + nl() by {
                assert(split_lines(r)[i] == all[i]);
            }
        } else {
            assert(r =~= Seq::<char>::empty());
        }
    }
}

/// Scanning and reassembling, applied to the canonical text of a scan,
/// gives that text again exactly where it is in canonical form.
pub proof fn lemma_fixed_point_exactly(text: Seq<char>)
    ensures
        reassembled(scan_text(reassembled(scan_text(text)))) == reassembled(scan_text(text))
            <==> is_canonical(reassembled(scan_text(text))),
{
    let r = reassembled(scan_text(text));
    lemma_reassembled_is_flat(text);
    if is_canonical(r) {
        lemma_canonical_is_fixed_point(r);
    }
    if reassembled(scan_text(r)) == r {
        lemma_fixed_point_is_canonical(r);
    }
}

/// The canonical text of a text that keeps its shape is in canonical form.
pub proof fn lemma_kept_shape_is_canonical(text: Seq<char>)
    requires
        keeps_its_shape(text),
    ensures
        is_canonical(reassembled(scan_text(text))),
{
    lemma_reassemble_fixed_point(text);
    lemma_fixed_point_exactly(text);
}

} // verus!
