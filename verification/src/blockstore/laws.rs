//! What holds of the store's operations, whatever the document.

use vstd::prelude::*;

use crate::blockstore::model::{
    any_applies, apply_updates, blocks_updated, save_of, saved, spliced, window_updated,
    DocumentView, SaveView, UpdateView,
};
use crate::blockstore::scanner::laws::lemma_scan_text;
use crate::blockstore::scanner::machine::scan_text;
use crate::blockstore::scanner::{reassembled, sequential, BlockView};

verus! {

/// After a window was replaced, the ids of the blocks are exactly
/// 0, 1, 2 and so on up to the number of blocks, without gap or repeat,
/// whatever the ids were before and whatever the range and the text.
pub proof fn lemma_window_update_ids(doc: DocumentView, start: nat, end: nat, window: Seq<char>)
    ensures
        sequential(window_updated(doc, start, end, window).blocks),
        forall|i: int, j: int|
            0 <= i < j < window_updated(doc, start, end, window).blocks.len() ==> window_updated(
                doc,
                start,
                end,
                window,
            ).blocks[i].id != window_updated(doc, start, end, window).blocks[j].id,
{
}

/// Replacing a window keeps a document well formed.
pub proof fn lemma_window_update_wf(doc: DocumentView, start: nat, end: nat, window: Seq<char>)
    requires
        doc.wf(),
    ensures
        window_updated(doc, start, end, window).wf(),
{
    lemma_scan_text(window);
    let joined = spliced(doc.blocks, start, end, scan_text(window));
    assert forall|i: int| 0 <= i < joined.len() implies (#[trigger] joined[i]).wf() by {}
}

/// Replacing the text of blocks keeps the number of blocks, their ids and
/// a document well formed.
pub proof fn lemma_block_update_wf(doc: DocumentView, updates: Seq<UpdateView>)
    requires
        doc.wf(),
    ensures
        blocks_updated(doc, updates).wf(),
        blocks_updated(doc, updates).blocks.len() == doc.blocks.len(),
    decreases updates.len(),
{
    if updates.len() > 0 {
        lemma_block_update_wf(doc, updates.drop_last());
    }
}

/// Saving a document that has not changed writes nothing.
pub proof fn lemma_clean_save_is_skipped(doc: DocumentView)
    requires
        !doc.dirty,
    ensures
        save_of(doc) is Skip,
{
}

/// After a window was replaced the document is dirty: the next save writes,
/// once, the canonical text of the new blocks to the document's path, and
/// the save after that one writes nothing.
pub proof fn lemma_window_update_then_save(
    doc: DocumentView,
    start: nat,
    end: nat,
    window: Seq<char>,
)
    ensures
        window_updated(doc, start, end, window).dirty,
        save_of(window_updated(doc, start, end, window)) == (SaveView::Write {
            path: doc.path,
            content: reassembled(window_updated(doc, start, end, window).blocks),
        }),
        !saved(window_updated(doc, start, end, window)).dirty,
        save_of(saved(window_updated(doc, start, end, window))) is Skip,
{
}

/// After the text of at least one block was replaced the document is dirty:
/// the next save writes, once, and the save after that one writes nothing.
/// Replacements that name no block of the document leave it as it was.
pub proof fn lemma_block_update_then_save(doc: DocumentView, updates: Seq<UpdateView>)
    ensures
        any_applies(doc.blocks.len(), updates) ==> blocks_updated(doc, updates).dirty && save_of(
            blocks_updated(doc, updates),
        ) is Write,
        !any_applies(doc.blocks.len(), updates) ==> blocks_updated(doc, updates) == doc,
        save_of(saved(blocks_updated(doc, updates))) is Skip,
{
    if !any_applies(doc.blocks.len(), updates) {
        lemma_no_update_applies(doc.blocks, updates);
    }
}

/// Replacements that name no block change nothing.
proof fn lemma_no_update_applies(blocks: Seq<BlockView>, updates: Seq<UpdateView>)
    requires
        !any_applies(blocks.len(), updates),
    ensures
        apply_updates(blocks, updates) == blocks,
    decreases updates.len(),
{
    if updates.len() > 0 {
        let front = updates.drop_last();
        assert forall|i: int| 0 <= i < front.len() implies !((#[trigger] front[i]).id
            < blocks.len()) by {
            assert(front[i] == updates[i]);
        }
        lemma_no_update_applies(blocks, front);
        assert(!(updates[updates.len() - 1].id < blocks.len()));
    }
}

} // verus!
