//! The scanner as a state machine over lines.
//!
//! The machine reads the raw lines of a text in order. It is in one of four
//! modes, holds the lines of the block that it is gathering, and has a list
//! of the blocks that it has finished.

use vstd::prelude::*;

use crate::blockstore::scanner::classify::{fence_close, fence_open, first_line_type, table_line};
use crate::blockstore::scanner::lines::split_lines;
use crate::blockstore::scanner::{block_of, BlockType, BlockView};
use crate::text::{byte_len, trim_line_break};

verus! {

/// The lexical mode of the scanner.
pub enum Mode {
    /// Blank lines separate blocks.
    Normal,
    /// Inside the frontmatter that the first line opened.
    Frontmatter,
    /// Inside a code fence opened with `min_len` repetitions of `ch`.
    Fence { ch: char, min_len: nat },
    /// Inside a table.
    Table,
}

/// The state of the scanner between two lines.
pub struct ScanState {
    /// The current mode.
    pub mode: Mode,
    /// The type of the block being gathered.
    pub kind: BlockType,
    /// The lines of the block being gathered; empty between blocks.
    pub pending: Seq<Seq<char>>,
    /// Byte offset at which the block being gathered starts.
    pub start_byte: nat,
    /// Line at which the block being gathered starts.
    pub start_line: nat,
    /// Number of bytes read so far.
    pub offset: nat,
    /// Number of lines read so far.
    pub line_no: nat,
    /// The finished blocks.
    pub blocks: Seq<BlockView>,
}

/// The frontmatter delimiter `---`.
pub open spec fn dashes() -> Seq<char> {
    seq!['-', '-', '-']
}

/// The alternative frontmatter terminator `...`.
pub open spec fn dots() -> Seq<char> {
    seq!['.', '.', '.']
}

/// `lines` joined by single line feeds.
pub open spec fn join_lines(lines: Seq<Seq<char>>) -> Seq<char>
    decreases lines.len(),
{
    if lines.len() == 0 {
        Seq::empty()
    } else if lines.len() == 1 {
        lines[0]
    } else {
        join_lines(lines.drop_last()) + seq!['\n'] + lines.last()
    }
}

/// The line before line `n`, or line 0.
pub open spec fn line_before(n: nat) -> nat {
    if n == 0 {
        0
    } else {
        (n - 1) as nat
    }
}

/// The state before the first line.
pub open spec fn initial_state() -> ScanState {
    ScanState {
        mode: Mode::Normal,
        kind: BlockType::Paragraph,
        pending: Seq::empty(),
        start_byte: 0,
        start_line: 0,
        offset: 0,
        line_no: 0,
        blocks: Seq::empty(),
    }
}

/// The block that the gathered lines make, with the next free id.
pub open spec fn pending_block(st: ScanState, end_byte: nat, end_line: nat) -> BlockView {
    block_of(
        st.blocks.len(),
        st.start_byte,
        end_byte,
        st.start_line,
        end_line,
        join_lines(st.pending),
        st.kind,
    )
}

/// Finishes the block being gathered and returns to normal mode.
pub open spec fn flush(st: ScanState, end_byte: nat, end_line: nat) -> ScanState {
    ScanState {
        mode: Mode::Normal,
        kind: BlockType::Paragraph,
        pending: Seq::empty(),
        blocks: st.blocks.push(pending_block(st, end_byte, end_line)),
        ..st
    }
}

/// Adds `line` to the block being gathered.
pub open spec fn append(st: ScanState, line: Seq<char>) -> ScanState {
    ScanState { pending: st.pending.push(line), ..st }
}

/// Starts a block with `line`, which is not blank. A fence opener makes it a
/// code fence, a table line a table; otherwise its type is that of its first
/// line, a paragraph where no pattern applies.
pub open spec fn open_block(st: ScanState, line: Seq<char>) -> ScanState {
    let (mode, kind) = match fence_open(line) {
        Some((ch, min_len)) => (Mode::Fence { ch, min_len }, BlockType::CodeFence),
        None => if table_line(line) {
            (Mode::Table, BlockType::Table)
        } else {
            (
                Mode::Normal,
                match first_line_type(line) {
                    Some(t) => t,
                    None => BlockType::Paragraph,
                },
            )
        },
    };
    ScanState {
        mode,
        kind,
        pending: seq![line],
        start_byte: st.offset,
        start_line: st.line_no,
        ..st
    }
}

/// Adds `line`, which is not blank, to a block gathered in normal mode. A
/// fence opener enters fence mode and leaves the type as it is; a table
/// line turns the block into a table.
pub open spec fn extend_block(st: ScanState, line: Seq<char>) -> ScanState {
    match fence_open(line) {
        Some((ch, min_len)) => ScanState { mode: Mode::Fence { ch, min_len }, ..append(st, line) },
        None => if table_line(line) {
            ScanState { mode: Mode::Table, kind: BlockType::Table, ..append(st, line) }
        } else {
            append(st, line)
        },
    }
}

/// What `line`, stripped of its line break, does to the state, apart from
/// the count of bytes and lines. `next_offset` is the byte offset after the
/// line.
pub open spec fn step_line(st: ScanState, line: Seq<char>, next_offset: nat) -> ScanState {
    if st.line_no == 0 && line == dashes() {
        ScanState {
            mode: Mode::Frontmatter,
            kind: BlockType::Frontmatter,
            pending: seq![line],
            start_byte: 0,
            start_line: 0,
            ..st
        }
    } else {
        match st.mode {
            Mode::Frontmatter => {
                if line == dashes() || line == dots() {
                    flush(append(st, line), next_offset, st.line_no)
                } else {
                    append(st, line)
                }
            },
            Mode::Fence { ch, min_len } => {
                if fence_close(line, ch, min_len) {
                    ScanState { mode: Mode::Normal, ..append(st, line) }
                } else {
                    append(st, line)
                }
            },
            Mode::Table => {
                if line.len() == 0 || table_line(line) {
                    append(st, line)
                } else {
                    open_block(flush(st, st.offset, line_before(st.line_no)), line)
                }
            },
            Mode::Normal => {
                if line.len() == 0 {
                    if st.pending.len() > 0 {
                        flush(st, st.offset, line_before(st.line_no))
                    } else {
                        st
                    }
                } else if st.pending.len() == 0 {
                    open_block(st, line)
                } else {
                    extend_block(st, line)
                }
            },
        }
    }
}

/// The state after reading the raw line `raw`.
pub open spec fn step(st: ScanState, raw: Seq<char>) -> ScanState {
    let next_offset = st.offset + byte_len(raw);
    ScanState {
        offset: next_offset,
        line_no: st.line_no + 1,
        ..step_line(st, trim_line_break(raw), next_offset)
    }
}

/// The state after reading `lines` in order, starting from `st`.
pub open spec fn run(st: ScanState, lines: Seq<Seq<char>>) -> ScanState
    decreases lines.len(),
{
    if lines.len() == 0 {
        st
    } else {
        step(run(st, lines.drop_last()), lines.last())
    }
}

/// The blocks at the end of the text: the finished ones, and the one
/// being gathered, if any.
pub open spec fn finish(st: ScanState) -> Seq<BlockView> {
    if st.pending.len() > 0 {
        st.blocks.push(pending_block(st, st.offset, line_before(st.line_no)))
    } else {
        st.blocks
    }
}

/// The blocks of a text given as raw lines.
pub open spec fn scan_lines(lines: Seq<Seq<char>>) -> Seq<BlockView> {
    finish(run(initial_state(), lines))
}

/// The blocks of a text.
pub open spec fn scan_text(text: Seq<char>) -> Seq<BlockView> {
    scan_lines(split_lines(text))
}

} // verus!
