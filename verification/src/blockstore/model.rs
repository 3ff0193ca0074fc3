//! The document store as mathematics: what a document is and what each
//! operation makes of it.

use vstd::prelude::*;

use crate::blockstore::scanner::machine::scan_text;
use crate::blockstore::scanner::{
    all_wf, block_of, reassembled, sequential, BlockView,
};
use crate::text::replaced;

verus! {

/// The mathematical value of an open document.
pub struct DocumentView {
    /// The path that the document was opened from.
    pub path: Seq<char>,
    /// Its blocks, in order.
    pub blocks: Seq<BlockView>,
    /// Whether it has changed since it was opened or last saved.
    pub dirty: bool,
}

impl DocumentView {
    /// The blocks are numbered from 0 in order, and each carries the hash
    /// and counts of its text.
    pub open spec fn wf(self) -> bool {
        sequential(self.blocks) && all_wf(self.blocks)
    }
}

/// The identifier of the document at `path`: the path with forward slashes.
pub open spec fn doc_id_of(path: Seq<char>) -> Seq<char> {
    replaced(path, '\\', '/')
}

/// The document that opening `path` with the text `content` gives.
pub open spec fn opened(path: Seq<char>, content: Seq<char>) -> DocumentView {
    DocumentView { path, blocks: scan_text(content), dirty: false }
}

// ── Reading a range ────────────────────────────────────────────────────────────

/// Where the range `start..end` starts among `len` blocks.
pub open spec fn range_start(len: nat, start: nat) -> nat {
    if start <= len {
        start
    } else {
        len
    }
}

/// Where the range `start..end` ends among `len` blocks: at `end` or at
/// `len`, whichever is less, and not before its start.
pub open spec fn range_end(len: nat, start: nat, end: nat) -> nat {
    let e = if end <= len {
        end
    } else {
        len
    };
    if e >= range_start(len, start) {
        e
    } else {
        range_start(len, start)
    }
}

/// The blocks of `blocks` in the range `start..end`.
pub open spec fn in_range(blocks: Seq<BlockView>, start: nat, end: nat) -> Seq<BlockView> {
    blocks.subrange(
        range_start(blocks.len(), start) as int,
        range_end(blocks.len(), start, end) as int,
    )
}

// ── Replacing the text of blocks ───────────────────────────────────────────────

/// One replacement: the id of a block and its new text.
pub struct UpdateView {
    pub id: nat,
    pub markdown: Seq<char>,
}

/// `b` with the text `markdown`: id, spans and type stay, hash and counts
/// are those of the new text.
pub open spec fn rewritten(b: BlockView, markdown: Seq<char>) -> BlockView {
    block_of(b.id, b.start_byte, b.end_byte, b.start_line, b.end_line, markdown, b.block_type)
}

/// `blocks` after one replacement; a replacement for an id that no block
/// has changes nothing.
pub open spec fn apply_update(blocks: Seq<BlockView>, update: UpdateView) -> Seq<BlockView> {
    if update.id < blocks.len() {
        blocks.update(update.id as int, rewritten(blocks[update.id as int], update.markdown))
    } else {
        blocks
    }
}

/// `blocks` after the replacements `updates`, made in order.
pub open spec fn apply_updates(blocks: Seq<BlockView>, updates: Seq<UpdateView>) -> Seq<BlockView>
    decreases updates.len(),
{
    if updates.len() == 0 {
        blocks
    } else {
        apply_update(apply_updates(blocks, updates.drop_last()), updates.last())
    }
}

/// Whether any of `updates` names a block among `len` blocks.
pub open spec fn any_applies(len: nat, updates: Seq<UpdateView>) -> bool {
    exists|i: int| 0 <= i < updates.len() && (#[trigger] updates[i]).id < len
}

/// The document after the replacements `updates`. It is dirty if it was, or
/// if any replacement was made.
pub open spec fn blocks_updated(doc: DocumentView, updates: Seq<UpdateView>) -> DocumentView {
    DocumentView {
        blocks: apply_updates(doc.blocks, updates),
        dirty: doc.dirty || any_applies(doc.blocks.len(), updates),
        ..doc
    }
}

// ── Replacing a window ─────────────────────────────────────────────────────────

/// `blocks` with the range `start..end` replaced by `fresh`.
pub open spec fn spliced(blocks: Seq<BlockView>, start: nat, end: nat, fresh: Seq<BlockView>) -> Seq<
    BlockView,
> {
    blocks.subrange(0, range_start(blocks.len(), start) as int) + fresh + blocks.subrange(
        range_end(blocks.len(), start, end) as int,
        blocks.len() as int,
    )
}

/// `blocks`, each given its position as id.
pub open spec fn renumbered(blocks: Seq<BlockView>) -> Seq<BlockView> {
    Seq::new(blocks.len(), |i: int| BlockView { id: i as nat, ..blocks[i] })
}

/// The document after its blocks `start..end` were replaced by the blocks
/// of the text `window` and all blocks were numbered anew. It is dirty.
pub open spec fn window_updated(doc: DocumentView, start: nat, end: nat, window: Seq<char>) -> DocumentView {
    DocumentView {
        blocks: renumbered(spliced(doc.blocks, start, end, scan_text(window))),
        dirty: true,
        ..doc
    }
}

// ── Saving ─────────────────────────────────────────────────────────────────────

/// What saving a document asks of the caller.
pub enum SaveView {
    /// Nothing: the document has not changed.
    Skip,
    /// To write `content` to `path`.
    Write { path: Seq<char>, content: Seq<char> },
}

/// What saving `doc` asks for: nothing where it is clean, else to write its
/// canonical text to its path.
pub open spec fn save_of(doc: DocumentView) -> SaveView {
    if doc.dirty {
        SaveView::Write { path: doc.path, content: reassembled(doc.blocks) }
    } else {
        SaveView::Skip
    }
}

/// The document after it was written.
pub open spec fn saved(doc: DocumentView) -> DocumentView {
    DocumentView { dirty: false, ..doc }
}

} // verus!
