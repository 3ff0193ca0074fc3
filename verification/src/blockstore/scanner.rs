//! Markdown block scanner.
//!
//! Splits a markdown document into paragraph-level blocks at blank-line
//! boundaries, keeping YAML frontmatter, fenced code blocks and tables
//! together as single blocks.

use vstd::prelude::*;
use vstd::string::*;
use vstd::utf8::*;

use crate::blockstore::scanner::engine::scan_chars;
use crate::blockstore::scanner::machine::scan_text;
use crate::text::{chars_of, lemma_len_le_byte_len};

pub mod canonical;
pub mod classify;
pub mod engine;
pub mod laws;
pub mod lines;
pub mod machine;
pub mod roundtrip;
pub mod spacing;

pub use classify::{
    classify_first_line, detect_fence_open, detect_heading_level, is_fence_close,
    is_horizontal_rule, is_table_line,
};
pub use lines::LineIter;

verus! {

// ── Public types ───────────────────────────────────────────────────────────────

/// The semantic type of a block.
#[derive(Debug, Clone, Copy, PartialEq, Eq, Structural)]
pub enum BlockType {
    Paragraph,
    Heading1,
    Heading2,
    Heading3,
    Heading4,
    Heading5,
    Heading6,
    List,
    Blockquote,
    HorizontalRule,
    CodeFence,
    Table,
    Frontmatter,
}

/// A single content block extracted from a markdown document.
#[derive(Debug, Clone)]
pub struct Block {
    /// Zero-based sequential index within the document.
    pub id: usize,
    /// Byte offset of the first character in the scanned text.
    pub start_byte: usize,
    /// Byte offset one past the last character in the scanned text.
    pub end_byte: usize,
    /// Zero-based first line number.
    pub start_line: usize,
    /// Zero-based last line number (inclusive).
    pub end_line: usize,
    /// Block content: its lines joined with `\n`.
    pub markdown: String,
    /// Semantic type.
    pub block_type: BlockType,
    /// FNV-1a 64-bit hash of `markdown`.
    pub content_hash: u64,
    /// Number of lines in `markdown`.
    pub line_count: u32,
    /// Number of rows; tables only.
    pub row_count: Option<u32>,
    /// Number of columns; tables only.
    pub col_count: Option<u32>,
}

/// The mathematical value of a [`Block`].
pub struct BlockView {
    pub id: nat,
    pub start_byte: nat,
    pub end_byte: nat,
    pub start_line: nat,
    pub end_line: nat,
    pub markdown: Seq<char>,
    pub block_type: BlockType,
    pub content_hash: u64,
    pub line_count: u32,
    pub row_count: Option<u32>,
    pub col_count: Option<u32>,
}

impl View for Block {
    type V = BlockView;

    open spec fn view(&self) -> BlockView {
        BlockView {
            id: self.id as nat,
            start_byte: self.start_byte as nat,
            end_byte: self.end_byte as nat,
            start_line: self.start_line as nat,
            end_line: self.end_line as nat,
            markdown: self.markdown@,
            block_type: self.block_type,
            content_hash: self.content_hash,
            line_count: self.line_count,
            row_count: self.row_count,
            col_count: self.col_count,
        }
    }
}

/// The values of the blocks of `blocks`, in order.
pub open spec fn views(blocks: Seq<Block>) -> Seq<BlockView> {
    Seq::new(blocks.len(), |i: int| blocks[i]@)
}

/// The ids of `blocks` are 0, 1, 2 and so on, in order.
pub open spec fn sequential(blocks: Seq<BlockView>) -> bool {
    forall|i: int| 0 <= i < blocks.len() ==> (#[trigger] blocks[i]).id == i
}

/// Hash and counts of every block agree with its text and type.
pub open spec fn all_wf(blocks: Seq<BlockView>) -> bool {
    forall|i: int| 0 <= i < blocks.len() ==> (#[trigger] blocks[i]).wf()
}

/// Every block spans at least one line, and each ends before the next
/// starts, in lines and in bytes.
pub open spec fn ordered(blocks: Seq<BlockView>) -> bool {
    &&& forall|i: int|
        0 <= i < blocks.len() ==> (#[trigger] blocks[i]).start_line <= blocks[i].end_line
            && blocks[i].start_byte <= blocks[i].end_byte
    &&& forall|i: int, j: int|
        0 <= i < j < blocks.len() ==> (#[trigger] blocks[i]).end_line < (
        #[trigger] blocks[j]).start_line && blocks[i].end_byte <= blocks[j].start_byte
}

// ── Content hash ───────────────────────────────────────────────────────────────

/// The FNV-1a 64-bit offset basis.
pub const FNV_OFFSET_BASIS: u64 = 14_695_981_039_346_656_037;

/// The FNV-1a 64-bit prime.
pub const FNV_PRIME: u64 = 1_099_511_628_211;

/// FNV-1a over a byte sequence: starting from the offset basis, each byte
/// is xor-ed into the hash, which is then multiplied by the prime modulo
/// 2^64.
pub open spec fn fnv1a(bytes: Seq<u8>) -> u64
    decreases bytes.len(),
{
    if bytes.len() == 0 {
        FNV_OFFSET_BASIS
    } else {
        (fnv1a(bytes.drop_last()) ^ (bytes.last() as u64)).wrapping_mul(FNV_PRIME)
    }
}

/// The content hash of a text: FNV-1a over its UTF-8 encoding.
pub open spec fn content_hash_of(text: Seq<char>) -> u64 {
    fnv1a(encode_utf8(text))
}

/// FNV-1a 64-bit hash.
pub fn fnv1a_hash(s: &str) -> (hash: u64)
    ensures
        hash == content_hash_of(s@),
{
    let bytes = s.as_bytes();
    let mut hash: u64 = FNV_OFFSET_BASIS;
    let mut i: usize = 0;
    while i < bytes.len()
        invariant
            i <= bytes.len(),
            hash == fnv1a(bytes@.take(i as int)),
        decreases bytes.len() - i,
    {
        hash = (hash ^ (bytes[i] as u64)).wrapping_mul(FNV_PRIME);
        i = i + 1;
        assert(bytes@.take(i as int).drop_last() =~= bytes@.take(i - 1));
    }
    assert(bytes@.take(bytes.len() as int) =~= bytes@);
    hash
}

// ── Line and column counts ─────────────────────────────────────────────────────

/// Number of occurrences of `c` among the first `upto` characters of `s`.
pub open spec fn count_char(s: Seq<char>, c: char, upto: int) -> nat
    decreases upto,
{
    if upto <= 0 || upto > s.len() {
        0
    } else if s[upto - 1] == c {
        count_char(s, c, upto - 1) + 1
    } else {
        count_char(s, c, upto - 1)
    }
}

/// Number of lines of `s`, a final line feed ending the last line rather
/// than starting another: the line feeds of `s`, and one more where `s` ends
/// in another character.
pub open spec fn count_lines(s: Seq<char>) -> nat {
    if s.len() > 0 && s.last() != '\n' {
        count_char(s, '\n', s.len() as int) + 1
    } else {
        count_char(s, '\n', s.len() as int)
    }
}

/// Index of the first line feed of `s` at or after `from`, or `s.len()`
/// where none follows.
pub open spec fn first_break(s: Seq<char>, from: int) -> int
    decreases s.len() - from,
{
    if from < 0 || from >= s.len() {
        s.len() as int
    } else if s[from] == '\n' {
        from
    } else {
        first_break(s, from + 1)
    }
}

/// Number of table columns that the first line of `s` shows: its count of
/// `|` less one, and at least 1.
pub open spec fn count_columns(s: Seq<char>) -> nat {
    let pipes = count_char(s, '|', first_break(s, 0));
    if pipes >= 2 {
        (pipes - 1) as nat
    } else {
        1
    }
}

pub proof fn lemma_count_char_bound(s: Seq<char>, c: char, upto: int)
    requires
        0 <= upto <= s.len(),
    ensures
        count_char(s, c, upto) <= upto,
        upto > 0 && s[upto - 1] != c ==> count_char(s, c, upto) < upto,
    decreases upto,
{
    if upto > 0 {
        lemma_count_char_bound(s, c, upto - 1);
    }
}

/// Number of lines in `s`.
pub fn line_count_of(s: &str) -> (n: usize)
    ensures
        n == count_lines(s@),
{
    let bytes = s.as_bytes().len();
    proof {
        lemma_len_le_byte_len(s@);
    }
    let mut newlines: usize = 0;
    let mut open_line: bool = false;
    for c in it: s.chars()
        invariant
            it.seq() == s@,
            s@.len() <= bytes,
            newlines == count_char(s@, '\n', it.index() as int),
            newlines <= it.index(),
            open_line == (it.index() > 0 && s@[it.index() - 1] != '\n'),
            open_line ==> newlines < it.index(),
    {
        proof {
            lemma_count_char_bound(s@, '\n', it.index() as int);
        }
        if c == '\n' {
            newlines = newlines + 1;
            open_line = false;
        } else {
            open_line = true;
        }
    }
    if open_line {
        newlines + 1
    } else {
        newlines
    }
}

/// Number of table columns that the first line of `s` shows.
pub fn column_count_of(s: &str) -> (n: usize)
    ensures
        n == count_columns(s@),
{
    let bytes = s.as_bytes().len();
    proof {
        lemma_len_le_byte_len(s@);
    }
    let mut pipes: usize = 0;
    let mut in_first: bool = true;
    for c in it: s.chars()
        invariant
            it.seq() == s@,
            s@.len() <= bytes,
            in_first ==> first_break(s@, 0) == first_break(s@, it.index() as int),
            in_first ==> pipes == count_char(s@, '|', it.index() as int),
            !in_first ==> pipes == count_char(s@, '|', first_break(s@, 0)),
            pipes <= it.index(),
    {
        if in_first {
            if c == '\n' {
                in_first = false;
            } else if c == '|' {
                pipes = pipes + 1;
            }
        }
    }
    if pipes >= 2 {
        pipes - 1
    } else {
        1
    }
}

// ── Block construction ─────────────────────────────────────────────────────────

/// The block that the given position, text and type make: hash and counts
/// are those of the text, and rows and columns are present for tables alone.
pub open spec fn block_of(
    id: nat,
    start_byte: nat,
    end_byte: nat,
    start_line: nat,
    end_line: nat,
    markdown: Seq<char>,
    block_type: BlockType,
) -> BlockView {
    BlockView {
        id,
        start_byte,
        end_byte,
        start_line,
        end_line,
        markdown,
        block_type,
        content_hash: content_hash_of(markdown),
        line_count: line_count_field(markdown),
        row_count: if block_type == BlockType::Table {
            Some(line_count_field(markdown))
        } else {
            None
        },
        col_count: if block_type == BlockType::Table {
            Some(count_columns(markdown) as usize as u32)
        } else {
            None
        },
    }
}

/// The line count as a block stores it: that of the text, kept to its low
/// 32 bits.
pub open spec fn line_count_field(markdown: Seq<char>) -> u32 {
    count_lines(markdown) as usize as u32
}

impl BlockView {
    /// Hash and counts agree with the text and the type.
    pub open spec fn wf(self) -> bool {
        self == block_of(
            self.id,
            self.start_byte,
            self.end_byte,
            self.start_line,
            self.end_line,
            self.markdown,
            self.block_type,
        )
    }
}

impl Block {
    /// Builds a block, computing hash and counts from `markdown`.
    pub fn new(
        id: usize,
        start_byte: usize,
        end_byte: usize,
        start_line: usize,
        end_line: usize,
        markdown: String,
        block_type: BlockType,
    ) -> (b: Block)
        ensures
            b@ == block_of(
                id as nat,
                start_byte as nat,
                end_byte as nat,
                start_line as nat,
                end_line as nat,
                markdown@,
                block_type,
            ),
    {
        let lines = line_count_of(markdown.as_str());
        let line_count: u32 = #[verifier::truncate]
        (lines as u32);
        let is_table = block_type == BlockType::Table;
        let row_count = if is_table {
            Some(line_count)
        } else {
            None
        };
        let col_count = if is_table {
            let cols = column_count_of(markdown.as_str());
            Some(
                #[verifier::truncate]
                (cols as u32),
            )
        } else {
            None
        };
        let content_hash = fnv1a_hash(markdown.as_str());
        Block {
            id,
            start_byte,
            end_byte,
            start_line,
            end_line,
            markdown,
            block_type,
            content_hash,
            line_count,
            row_count,
            col_count,
        }
    }
}

// ── Public API ─────────────────────────────────────────────────────────────────

/// Scan `content` and return a list of blocks in document order.
///
/// Blocks are delineated by one or more blank lines. Code fences, YAML
/// frontmatter, and markdown tables are treated as atomic and never split.
pub fn scan(content: &str) -> (blocks: Vec<Block>)
    ensures
        views(blocks@) == scan_text(content@),
        sequential(views(blocks@)),
        all_wf(views(blocks@)),
        ordered(views(blocks@)),
{
    proof {
        crate::blockstore::scanner::laws::lemma_scan_text(content@);
    }
    let text = chars_of(content);
    let size = content.as_bytes().len();
    assert(content.spec_bytes().len() == size);
    scan_chars(text.as_slice())
}

/// The texts of `blocks`, each separated from the next by one blank line.
pub open spec fn joined(blocks: Seq<BlockView>) -> Seq<char>
    decreases blocks.len(),
{
    if blocks.len() == 0 {
        Seq::empty()
    } else if blocks.len() == 1 {
        blocks[0].markdown
    } else {
        joined(blocks.drop_last()) + seq!['\n', '\n'] + blocks.last().markdown
    }
}

/// The canonical text of a block list: empty for no block, else the texts
/// separated by one blank line and ended by a single line feed.
pub open spec fn reassembled(blocks: Seq<BlockView>) -> Seq<char> {
    if blocks.len() == 0 {
        Seq::empty()
    } else {
        joined(blocks) + seq!['\n']
    }
}

/// Reassemble a slice of blocks into a complete markdown document.
///
/// Blocks are joined with a blank line; a trailing line feed is appended.
pub fn reassemble(blocks: &[Block]) -> (out: String)
    ensures
        out@ == reassembled(views(blocks@)),
{
    let mut out = String::new();
    if blocks.len() == 0 {
        return out;
    }
    let mut i: usize = 0;
    while i < blocks.len()
        invariant
            i <= blocks.len(),
            out@ == joined(views(blocks@).take(i as int)),
        decreases blocks.len() - i,
    {
        let ghost before = out@;
        if i > 0 {
            out.push('\n');
            out.push('\n');
        }
        out.append(blocks[i].markdown.as_str());
        i = i + 1;
        proof {
            let all = views(blocks@);
            assert(all.take(i as int).drop_last() =~= all.take(i - 1));
            assert(all.take(i as int).last() == blocks@[i - 1]@);
            if i > 1 {
                assert(before.push('\n').push('\n') =~= before + seq!['\n', '\n']);
            } else {
                assert(Seq::<char>::empty() + blocks@[0]@.markdown =~= blocks@[0]@.markdown);
            }
        }
    }
    assert(views(blocks@).take(blocks.len() as int) =~= views(blocks@));
    out.push('\n');
    assert(out@ =~= joined(views(blocks@)) + seq!['\n']);
    out
}

} // verus!
