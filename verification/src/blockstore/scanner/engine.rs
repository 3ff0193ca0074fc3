//! The executable scanner: one pass over the raw lines of a text, in step
//! with the state machine.

use vstd::prelude::*;
use vstd::string::*;

use crate::blockstore::scanner::classify::{
    classify_first_line, detect_fence_open, is_fence_close, is_table_line,
};
use crate::blockstore::scanner::lines::{
    after_first_line, lemma_line_end, line_end, split_lines, LineIter,
};
use crate::blockstore::scanner::machine::{
    append, dashes, dots, extend_block, finish, flush, initial_state, join_lines, line_before,
    open_block, pending_block, run, scan_text, step, Mode, ScanState,
};
use crate::blockstore::scanner::{views, Block, BlockType};
use crate::text::{
    byte_len, lemma_byte_len_concat, lemma_len_le_byte_len, push_chars, trim_line_break_of,
    utf8_len,
};

verus! {

/// The lexical mode, as the scanner holds it.
#[derive(Clone, Copy)]
pub enum Lexer {
    Normal,
    Frontmatter,
    Fence { ch: char, min_len: usize },
    Table,
}

impl View for Lexer {
    type V = Mode;

    open spec fn view(&self) -> Mode {
        match *self {
            Lexer::Normal => Mode::Normal,
            Lexer::Frontmatter => Mode::Frontmatter,
            Lexer::Fence { ch, min_len } => Mode::Fence { ch, min_len: min_len as nat },
            Lexer::Table => Mode::Table,
        }
    }
}

/// The scanner between two lines.
pub struct Scanner {
    pub mode: Lexer,
    pub kind: BlockType,
    /// The gathered lines, already joined.
    pub pending: String,
    /// Whether any line has been gathered.
    pub gathering: bool,
    pub start_byte: usize,
    pub start_line: usize,
    pub offset: usize,
    pub line_no: usize,
    pub blocks: Vec<Block>,
}

impl Scanner {
    /// The scanner holds the state `st` of the machine.
    pub open spec fn models(&self, st: ScanState) -> bool {
        &&& self.mode@ == st.mode
        &&& self.kind == st.kind
        &&& self.pending@ == join_lines(st.pending)
        &&& self.gathering == (st.pending.len() > 0)
        &&& self.start_byte == st.start_byte
        &&& self.start_line == st.start_line
        &&& self.offset == st.offset
        &&& self.line_no == st.line_no
        &&& views(self.blocks@) == st.blocks
    }

    pub fn new() -> (s: Scanner)
        ensures
            s.models(initial_state()),
    {
        let s = Scanner {
            mode: Lexer::Normal,
            kind: BlockType::Paragraph,
            pending: String::new(),
            gathering: false,
            start_byte: 0,
            start_line: 0,
            offset: 0,
            line_no: 0,
            blocks: Vec::new(),
        };
        assert(views(s.blocks@) =~= initial_state().blocks);
        s
    }

    /// Finishes the block being gathered.
    fn flush(&mut self, end_byte: usize, end_line: usize, Ghost(st): Ghost<ScanState>)
        requires
            old(self).models(st),
        ensures
            final(self).models(flush(st, end_byte as nat, end_line as nat)),
    {
        let mut markdown = String::new();
        core::mem::swap(&mut markdown, &mut self.pending);
        let block = Block::new(
            self.blocks.len(),
            self.start_byte,
            end_byte,
            self.start_line,
            end_line,
            markdown,
            self.kind,
        );
        self.blocks.push(block);
        self.mode = Lexer::Normal;
        self.kind = BlockType::Paragraph;
        self.gathering = false;
        assert(views(self.blocks@) =~= st.blocks.push(
            pending_block(st, end_byte as nat, end_line as nat),
        ));
    }

    /// Adds `line` to the block being gathered.
    fn append(&mut self, line: &[char], Ghost(st): Ghost<ScanState>)
        requires
            old(self).models(st),
        ensures
            final(self).models(append(st, line@)),
    {
        if self.gathering {
            self.pending.push('\n');
        }
        push_chars(&mut self.pending, line);
        self.gathering = true;
        proof {
            let lines = st.pending.push(line@);
            assert(lines.drop_last() =~= st.pending);
            if st.pending.len() == 0 {
                assert(Seq::<char>::empty() + line@ =~= line@);
            } else {
                assert(join_lines(st.pending).push('\n') =~= join_lines(st.pending) + seq!['\n']);
            }
        }
    }

    /// Starts a block with `line`.
    fn open_block(&mut self, line: &[char], Ghost(st): Ghost<ScanState>)
        requires
            old(self).models(st),
            st.pending.len() == 0,
        ensures
            final(self).models(open_block(st, line@)),
    {
        self.start_byte = self.offset;
        self.start_line = self.line_no;
        match detect_fence_open(line) {
            Some((ch, min_len)) => {
                self.mode = Lexer::Fence { ch, min_len };
                self.kind = BlockType::CodeFence;
            },
            None => {
                if is_table_line(line) {
                    self.mode = Lexer::Table;
                    self.kind = BlockType::Table;
                } else {
                    self.mode = Lexer::Normal;
                    self.kind = match classify_first_line(line) {
                        Some(t) => t,
                        None => BlockType::Paragraph,
                    };
                }
            },
        }
        let ghost before = ScanState {
            mode: self.mode@,
            kind: self.kind,
            start_byte: st.offset,
            start_line: st.line_no,
            ..st
        };
        self.append(line, Ghost(before));
        assert(before.pending.push(line@) =~= seq![line@]);
    }

    /// Adds `line` to a block gathered in normal mode.
    fn extend_block(&mut self, line: &[char], Ghost(st): Ghost<ScanState>)
        requires
            old(self).models(st),
        ensures
            final(self).models(extend_block(st, line@)),
    {
        match detect_fence_open(line) {
            Some((ch, min_len)) => {
                self.mode = Lexer::Fence { ch, min_len };
            },
            None => {
                if is_table_line(line) {
                    self.mode = Lexer::Table;
                    self.kind = BlockType::Table;
                }
            },
        }
        let ghost before = ScanState { mode: self.mode@, kind: self.kind, ..st };
        self.append(line, Ghost(before));
    }

    /// Reads the raw line `raw`.
    pub fn step(&mut self, raw: &[char], Ghost(st): Ghost<ScanState>)
        requires
            old(self).models(st),
            st.offset + byte_len(raw@) <= usize::MAX,
            st.line_no < usize::MAX,
        ensures
            final(self).models(step(st, raw@)),
    {
        let line = trim_line_break_of(raw);
        let next_offset = self.offset + utf8_len(raw);
        let before_line = if self.line_no == 0 {
            0
        } else {
            self.line_no - 1
        };
        if self.line_no == 0 && is_dashes(line) {
            self.mode = Lexer::Frontmatter;
            self.kind = BlockType::Frontmatter;
            self.start_byte = 0;
            self.start_line = 0;
            self.pending = String::new();
            self.gathering = false;
            let ghost before = ScanState {
                mode: Mode::Frontmatter,
                kind: BlockType::Frontmatter,
                pending: Seq::empty(),
                start_byte: 0,
                start_line: 0,
                ..st
            };
            self.append(line, Ghost(before));
            assert(before.pending.push(line@) =~= seq![line@]);
        } else {
            match self.mode {
                Lexer::Frontmatter => {
                    self.append(line, Ghost(st));
                    if is_dashes(line) || is_dots(line) {
                        self.flush(next_offset, self.line_no, Ghost(append(st, line@)));
                    }
                },
                Lexer::Fence { ch, min_len } => {
                    self.append(line, Ghost(st));
                    if is_fence_close(line, ch, min_len) {
                        self.mode = Lexer::Normal;
                    }
                },
                Lexer::Table => {
                    if line.len() == 0 || is_table_line(line) {
                        self.append(line, Ghost(st));
                    } else {
                        self.flush(self.offset, before_line, Ghost(st));
                        self.open_block(
                            line,
                            Ghost(flush(st, st.offset, line_before(st.line_no))),
                        );
                    }
                },
                Lexer::Normal => {
                    if line.len() == 0 {
                        if self.gathering {
                            self.flush(self.offset, before_line, Ghost(st));
                        }
                    } else if !self.gathering {
                        self.open_block(line, Ghost(st));
                    } else {
                        self.extend_block(line, Ghost(st));
                    }
                },
            }
        }
        self.offset = next_offset;
        self.line_no = self.line_no + 1;
    }

    /// The blocks at the end of the text.
    pub fn finish(self, Ghost(st): Ghost<ScanState>) -> (blocks: Vec<Block>)
        requires
            self.models(st),
        ensures
            views(blocks@) == finish(st),
    {
        let mut s = self;
        if s.gathering {
            let before_line = if s.line_no == 0 {
                0
            } else {
                s.line_no - 1
            };
            s.flush(s.offset, before_line, Ghost(st));
        }
        s.blocks
    }
}

/// Whether `line` is the frontmatter delimiter `---`.
fn is_dashes(line: &[char]) -> (r: bool)
    ensures
        r == (line@ == dashes()),
{
    let r = line.len() == 3 && line[0] == '-' && line[1] == '-' && line[2] == '-';
    assert(r ==> line@ =~= dashes());
    r
}

/// Whether `line` is the frontmatter terminator `...`.
fn is_dots(line: &[char]) -> (r: bool)
    ensures
        r == (line@ == dots()),
{
    let r = line.len() == 3 && line[0] == '.' && line[1] == '.' && line[2] == '.';
    assert(r ==> line@ =~= dots());
    r
}

/// Scans a text held as characters.
pub(crate) fn scan_chars(text: &[char]) -> (blocks: Vec<Block>)
    requires
        byte_len(text@) <= usize::MAX,
    ensures
        views(blocks@) == scan_text(text@),
{
    let mut scanner = Scanner::new();
    let mut iter = LineIter::new(text);
    let ghost mut done: Seq<Seq<char>> = Seq::empty();
    let ghost mut read: int = 0;
    proof {
        assert(text@.subrange(0, text@.len() as int) =~= text@);
        assert(done + split_lines(text@) =~= split_lines(text@));
        assert(text@.subrange(0, 0) =~= Seq::<char>::empty());
    }
    loop
        invariant
            0 <= read <= text@.len(),
            iter.remaining@ == text@.subrange(read, text@.len() as int),
            split_lines(text@) == done + split_lines(iter.remaining@),
            scanner.models(run(initial_state(), done)),
            run(initial_state(), done).offset == byte_len(text@.subrange(0, read)),
            run(initial_state(), done).line_no == done.len(),
            done.len() <= read,
            byte_len(text@) <= usize::MAX,
        ensures
            iter.remaining@.len() == 0,
            split_lines(text@) == done + split_lines(iter.remaining@),
            scanner.models(run(initial_state(), done)),
        decreases text@.len() - read,
    {
        let ghost rest = iter.remaining@;
        match iter.next() {
            None => {
                break ;
            },
            Some(raw) => {
                proof {
                    lemma_line_end(rest, 0);
                    let k = line_end(rest, 0);
                    assert(raw@ =~= text@.subrange(read, read + k));
                    assert(text@.subrange(0, read) + raw@ =~= text@.subrange(0, read + k));
                    lemma_byte_len_concat(text@.subrange(0, read), raw@);
                    assert(text@.subrange(0, read + k) + text@.subrange(
                        read + k,
                        text@.len() as int,
                    ) =~= text@);
                    lemma_byte_len_concat(
                        text@.subrange(0, read + k),
                        text@.subrange(read + k, text@.len() as int),
                    );
                    lemma_len_le_byte_len(text@);
                    assert(after_first_line(rest) =~= text@.subrange(
                        read + k,
                        text@.len() as int,
                    ));
                    assert(done.push(raw@).drop_last() =~= done);
                    assert(done + (seq![raw@] + split_lines(after_first_line(rest))) =~= done.push(
                        raw@,
                    ) + split_lines(after_first_line(rest)));
                }
                scanner.step(raw, Ghost(run(initial_state(), done)));
                proof {
                    read = read + line_end(rest, 0);
                    done = done.push(raw@);
                }
            },
        }
    }
    proof {
        assert(done + split_lines(iter.remaining@) =~= done);
    }
    scanner.finish(Ghost(run(initial_state(), done)))
}

} // verus!
