//! Block store for large document editing.
//!
//! Holds the blocks of every open document and applies edits to them:
//! replacing the text of blocks, splicing a re-scanned window into the
//! block list, and reassembling the blocks for saving.

use vstd::prelude::*;
use vstd::string::*;

pub mod laws;
pub mod model;
pub mod scanner;
pub mod search;

pub use search::BlockSearchMatch;

use crate::blockstore::model::{
    any_applies, apply_update, apply_updates, blocks_updated, doc_id_of, in_range, opened,
    renumbered, rewritten, save_of, saved, spliced, window_updated, DocumentView, SaveView,
    UpdateView,
};
use crate::blockstore::scanner::laws::lemma_scan_text;
use crate::blockstore::scanner::machine::scan_text;
use crate::blockstore::scanner::{
    all_wf, reassemble, scan, sequential, views, Block, BlockType, BlockView,
};
use crate::blockstore::search::{match_views, search_in, search_matches};
use crate::registry::Registry;
use crate::text::{hex_of, replace_char, to_hex};
use crate::write_tracker::{after_write, record_write, tracker_key, WriteTracker};

verus! {

// ── Data handed to and from callers ────────────────────────────────────────────

/// Block metadata: everything about a block but its text.
#[derive(Debug, Clone)]
pub struct BlockMeta {
    pub id: usize,
    pub start_line: usize,
    pub end_line: usize,
    /// The content hash in lowercase hexadecimal.
    pub content_hash: String,
    pub block_type: BlockType,
    pub line_count: u32,
    pub row_count: Option<u32>,
    pub col_count: Option<u32>,
}

/// Returned by `open_document`.
#[derive(Debug)]
pub struct DocumentHandle {
    pub doc_id: String,
    pub path: String,
    pub total_blocks: usize,
    pub blocks: Vec<BlockMeta>,
}

/// Block with markdown content, returned by `get_blocks`.
#[derive(Debug)]
pub struct BlockContent {
    pub id: usize,
    pub markdown: String,
}

/// New text for one block.
#[derive(Debug)]
pub struct BlockUpdate {
    pub id: usize,
    pub markdown: String,
}

/// Result returned by `update_visible_window`.
#[derive(Debug)]
pub struct WindowUpdateResult {
    pub new_total_blocks: usize,
    pub blocks: Vec<BlockMeta>,
}

/// Why an operation of the store failed.
#[derive(Debug)]
pub enum StoreError {
    /// No open document has the given identifier.
    NotFound(String),
}

/// What the caller of `save_document` is to do.
#[derive(Debug)]
pub enum SaveAction {
    /// Nothing: the document has not changed.
    Skip,
    /// Write `content` to `path`, then call `mark_saved`.
    Write { path: String, content: String },
}

impl View for SaveAction {
    type V = SaveView;

    open spec fn view(&self) -> SaveView {
        match self {
            SaveAction::Skip => SaveView::Skip,
            SaveAction::Write { path, content } => SaveView::Write {
                path: path@,
                content: content@,
            },
        }
    }
}

impl View for BlockUpdate {
    type V = UpdateView;

    open spec fn view(&self) -> UpdateView {
        UpdateView { id: self.id as nat, markdown: self.markdown@ }
    }
}

/// The values of `updates`, in order.
pub open spec fn update_views(updates: Seq<BlockUpdate>) -> Seq<UpdateView> {
    Seq::new(updates.len(), |i: int| updates[i]@)
}

/// `meta` is the metadata of `b`.
pub open spec fn describes(meta: BlockMeta, b: BlockView) -> bool {
    &&& meta.id == b.id
    &&& meta.start_line == b.start_line
    &&& meta.end_line == b.end_line
    &&& meta.content_hash@ == hex_of(b.content_hash as nat)
    &&& meta.block_type == b.block_type
    &&& meta.line_count == b.line_count
    &&& meta.row_count == b.row_count
    &&& meta.col_count == b.col_count
}

/// `metas` is the metadata of `blocks`, block for block.
pub open spec fn describe_all(metas: Seq<BlockMeta>, blocks: Seq<BlockView>) -> bool {
    &&& metas.len() == blocks.len()
    &&& forall|i: int| 0 <= i < metas.len() ==> describes(#[trigger] metas[i], blocks[i])
}

/// `contents` holds id and text of `blocks`, block for block.
pub open spec fn contents_of(contents: Seq<BlockContent>, blocks: Seq<BlockView>) -> bool {
    &&& contents.len() == blocks.len()
    &&& forall|i: int|
        0 <= i < contents.len() ==> (#[trigger] contents[i]).id == blocks[i].id
            && contents[i].markdown@ == blocks[i].markdown
}

impl BlockMeta {
    /// The metadata of `b`.
    pub fn from_block(b: &Block) -> (meta: BlockMeta)
        ensures
            describes(meta, b@),
    {
        BlockMeta {
            id: b.id,
            start_line: b.start_line,
            end_line: b.end_line,
            content_hash: to_hex(b.content_hash),
            block_type: b.block_type,
            line_count: b.line_count,
            row_count: b.row_count,
            col_count: b.col_count,
        }
    }
}

impl StoreError {
    /// The error says that no open document has the identifier `doc_id`.
    pub open spec fn is_not_found(self, doc_id: Seq<char>) -> bool {
        match self {
            StoreError::NotFound(id) => id@ == doc_id,
        }
    }

    /// A description of the failure.
    pub fn message(&self) -> (text: String)
        ensures
            text@ == match self {
                StoreError::NotFound(id) => "Document not found: "@ + id@,
            },
    {
        match self {
            StoreError::NotFound(id) => String::from_str("Document not found: ").concat(
                id.as_str(),
            ),
        }
    }
}

/// The metadata of `blocks`.
fn metas_of(blocks: &Vec<Block>) -> (metas: Vec<BlockMeta>)
    ensures
        describe_all(metas@, views(blocks@)),
{
    let mut metas: Vec<BlockMeta> = Vec::new();
    let mut i: usize = 0;
    while i < blocks.len()
        invariant
            i <= blocks.len(),
            metas@.len() == i,
            forall|j: int| 0 <= j < i ==> describes(#[trigger] metas@[j], blocks@[j]@),
        decreases blocks.len() - i,
    {
        metas.push(BlockMeta::from_block(&blocks[i]));
        i = i + 1;
    }
    metas
}

/// Normalise a filesystem path to a stable document ID.
pub fn normalize_doc_id(path: &str) -> (id: String)
    ensures
        id@ == doc_id_of(path@),
{
    replace_char(path, '\\', '/')
}

// ── One open document ──────────────────────────────────────────────────────────

/// An open document: its path, its blocks and whether it has changed.
pub struct DocumentData {
    path: String,
    blocks: Vec<Block>,
    dirty: bool,
}

impl View for DocumentData {
    type V = DocumentView;

    closed spec fn view(&self) -> DocumentView {
        DocumentView { path: self.path@, blocks: views(self.blocks@), dirty: self.dirty }
    }
}

impl DocumentData {
    #[verifier::type_invariant]
    spec fn inv(&self) -> bool {
        sequential(views(self.blocks@)) && all_wf(views(self.blocks@))
    }

    /// The document that `path` with the text `content` opens as.
    fn open(path: &str, content: &str) -> (doc: DocumentData)
        ensures
            doc@ == opened(path@, content@),
    {
        let blocks = scan(content);
        proof {
            lemma_scan_text(content@);
        }
        DocumentData { path: path.to_owned(), blocks, dirty: false }
    }

    /// The document is well formed: its blocks are numbered from 0 in
    /// order, and each carries the hash and counts of its text.
    fn check(&self)
        ensures
            self@.wf(),
    {
        proof {
            use_type_invariant(self);
        }
    }

    /// Id and text of the blocks in the range `start..end`.
    fn contents(&self, start: usize, end: usize) -> (out: Vec<BlockContent>)
        ensures
            contents_of(out@, in_range(self@.blocks, start as nat, end as nat)),
    {
        let len = self.blocks.len();
        let s = if start <= len {
            start
        } else {
            len
        };
        let e0 = if end <= len {
            end
        } else {
            len
        };
        let e = if e0 >= s {
            e0
        } else {
            s
        };
        let mut out: Vec<BlockContent> = Vec::new();
        let mut i: usize = s;
        while i < e
            invariant
                s <= i <= e <= self.blocks@.len(),
                out@.len() == i - s,
                forall|j: int|
                    0 <= j < out@.len() ==> (#[trigger] out@[j]).id == self.blocks@[s + j].id
                        && out@[j].markdown@ == self.blocks@[s + j].markdown@,
            decreases e - i,
        {
            let b = &self.blocks[i];
            out.push(BlockContent { id: b.id, markdown: b.markdown.clone() });
            i = i + 1;
        }
        out
    }

    /// Replaces the text of blocks, one replacement after the other.
    fn update(&mut self, updates: &Vec<BlockUpdate>)
        ensures
            final(self)@ == blocks_updated(old(self)@, update_views(updates@)),
    {
        proof {
            use_type_invariant(&*self);
        }
        let mut blocks: Vec<Block> = Vec::new();
        core::mem::swap(&mut blocks, &mut self.blocks);
        let ghost orig = views(blocks@);
        let ghost ups = update_views(updates@);
        let mut applied = false;
        let mut k: usize = 0;
        assert(ups.take(0) =~= Seq::<UpdateView>::empty());
        while k < updates.len()
            invariant
                k <= updates.len(),
                ups == update_views(updates@),
                views(blocks@) == apply_updates(orig, ups.take(k as int)),
                applied == any_applies(orig.len(), ups.take(k as int)),
                blocks@.len() == orig.len(),
                sequential(views(blocks@)),
                all_wf(views(blocks@)),
            decreases updates.len() - k,
        {
            let upd = &updates[k];
            let ghost before = views(blocks@);
            let ghost was = applied;
            if upd.id < blocks.len() {
                let old_block = &blocks[upd.id];
                let block = Block::new(
                    old_block.id,
                    old_block.start_byte,
                    old_block.end_byte,
                    old_block.start_line,
                    old_block.end_line,
                    upd.markdown.clone(),
                    old_block.block_type,
                );
                blocks[upd.id] = block;
                applied = true;
                assert(views(blocks@) =~= before.update(
                    upd.id as int,
                    rewritten(before[upd.id as int], upd.markdown@),
                ));
            }
            k = k + 1;
            proof {
                let now = ups.take(k as int);
                assert(now.drop_last() =~= ups.take(k - 1));
                assert(now.last() == upd@);
                assert(views(blocks@) == apply_update(before, upd@));
                if any_applies(orig.len(), now) {
                    let w = choose|w: int| 0 <= w < now.len() && (#[trigger] now[w]).id < orig.len();
                    if w < k - 1 {
                        assert(ups.take(k - 1)[w].id < orig.len());
                    }
                }
                if was {
                    let w = choose|w: int|
                        0 <= w < k - 1 && (#[trigger] ups.take(k - 1)[w]).id < orig.len();
                    assert(now[w].id < orig.len());
                }
                if upd.id < orig.len() {
                    assert(now[k - 1].id < orig.len());
                }
            }
        }
        assert(ups.take(updates@.len() as int) =~= ups);
        self.blocks = blocks;
        if applied {
            self.dirty = true;
        }
    }

    /// Replaces the blocks `start..end` by those of the text `window` and
    /// numbers all blocks anew.
    fn splice(&mut self, start: usize, end: usize, window: &str)
        ensures
            final(self)@ == window_updated(old(self)@, start as nat, end as nat, window@),
    {
        proof {
            use_type_invariant(&*self);
            lemma_scan_text(window@);
        }
        let mut fresh = scan(window);
        let mut blocks: Vec<Block> = Vec::new();
        core::mem::swap(&mut blocks, &mut self.blocks);
        let ghost orig = views(blocks@);
        let len = blocks.len();
        let s = if start <= len {
            start
        } else {
            len
        };
        let e0 = if end <= len {
            end
        } else {
            len
        };
        let e = if e0 >= s {
            e0
        } else {
            s
        };
        let mut tail = blocks.split_off(e);
        blocks.truncate(s);
        blocks.append(&mut fresh);
        blocks.append(&mut tail);
        let ghost joined = views(blocks@);
        assert(joined =~= spliced(orig, start as nat, end as nat, scan_text(window@)));
        let n = blocks.len();
        let mut i: usize = 0;
        while i < n
            invariant
                i <= n,
                n == blocks@.len(),
                n == joined.len(),
                forall|j: int| 0 <= j < i ==> views(blocks@)[j] == renumbered(joined)[j],
                forall|j: int| i <= j < n ==> views(blocks@)[j] == joined[j],
            decreases n - i,
        {
            blocks[i].id = i;
            i = i + 1;
        }
        assert(views(blocks@) =~= renumbered(joined));
        self.blocks = blocks;
        self.dirty = true;
    }

    /// Marks the document as written.
    fn clean(&mut self)
        ensures
            final(self)@ == saved(old(self)@),
    {
        proof {
            use_type_invariant(&*self);
        }
        self.dirty = false;
    }

    /// What saving asks of the caller.
    fn save_action(&self) -> (action: SaveAction)
        ensures
            action@ == save_of(self@),
    {
        if self.dirty {
            SaveAction::Write {
                path: self.path.clone(),
                content: reassemble(self.blocks.as_slice()),
            }
        } else {
            SaveAction::Skip
        }
    }
}

// ── DocumentStore ──────────────────────────────────────────────────────────────

/// In-memory store for all currently open documents.
pub struct DocumentStore {
    documents: Registry<DocumentData>,
}

impl View for DocumentStore {
    type V = Map<Seq<char>, DocumentView>;

    closed spec fn view(&self) -> Map<Seq<char>, DocumentView> {
        self.documents@.map_values(|d: DocumentData| d@)
    }
}

impl DocumentStore {
    /// A store with no open document.
    pub fn new() -> (store: Self)
        ensures
            store@ == Map::<Seq<char>, DocumentView>::empty(),
    {
        let store = DocumentStore { documents: Registry::new() };
        assert(store@ =~= Map::<Seq<char>, DocumentView>::empty());
        store
    }

    // ── open / close ──────────────────────────────────────────────────────────

    /// Scans `content`, the text read from `path`, into blocks and keeps
    /// them under the identifier of `path`, in place of any document that
    /// had it.
    pub fn open_document(&mut self, path: &str, content: &str) -> (handle: DocumentHandle)
        ensures
            final(self)@ == old(self)@.insert(doc_id_of(path@), opened(path@, content@)),
            handle.doc_id@ == doc_id_of(path@),
            handle.path@ == path@,
            handle.total_blocks == scan_text(content@).len(),
            describe_all(handle.blocks@, scan_text(content@)),
    {
        let doc = DocumentData::open(path, content);
        let total_blocks = doc.blocks.len();
        let blocks = metas_of(&doc.blocks);
        let doc_id = normalize_doc_id(path);
        self.documents.insert(doc_id.clone(), doc);
        assert(self@ =~= old(self)@.insert(doc_id_of(path@), opened(path@, content@)));
        DocumentHandle { doc_id, path: path.to_owned(), total_blocks, blocks }
    }

    /// Remove a document from the in-memory store.
    pub fn close_document(&mut self, doc_id: &str)
        ensures
            final(self)@ == old(self)@.remove(doc_id@),
    {
        let _ = self.documents.remove(doc_id);
        assert(self@ =~= old(self)@.remove(doc_id@));
    }

    // ── block reads ───────────────────────────────────────────────────────────

    /// Number of blocks of a document.
    pub fn block_count(&self, doc_id: &str) -> (r: Result<usize, StoreError>)
        ensures
            match r {
                Ok(n) => self@.contains_key(doc_id@) && n == self@[doc_id@].blocks.len()
                    && self@[doc_id@].wf(),
                Err(e) => !self@.contains_key(doc_id@) && e.is_not_found(doc_id@),
            },
    {
        match self.documents.get(doc_id) {
            Some(doc) => {
                doc.check();
                Ok(doc.blocks.len())
            },
            None => Err(StoreError::NotFound(doc_id.to_owned())),
        }
    }

    /// Whether a document has changed since it was opened or last saved.
    pub fn is_dirty(&self, doc_id: &str) -> (r: Result<bool, StoreError>)
        ensures
            match r {
                Ok(dirty) => self@.contains_key(doc_id@) && dirty == self@[doc_id@].dirty,
                Err(e) => !self@.contains_key(doc_id@) && e.is_not_found(doc_id@),
            },
    {
        match self.documents.get(doc_id) {
            Some(doc) => Ok(doc.dirty),
            None => Err(StoreError::NotFound(doc_id.to_owned())),
        }
    }

    /// Return markdown content for blocks `[start, end)`.
    pub fn get_blocks(&self, doc_id: &str, start: usize, end: usize) -> (r: Result<
        Vec<BlockContent>,
        StoreError,
    >)
        ensures
            match r {
                Ok(contents) => self@.contains_key(doc_id@) && contents_of(
                    contents@,
                    in_range(self@[doc_id@].blocks, start as nat, end as nat),
                ) && self@[doc_id@].wf(),
                Err(e) => !self@.contains_key(doc_id@) && e.is_not_found(doc_id@),
            },
    {
        match self.documents.get(doc_id) {
            Some(doc) => {
                doc.check();
                Ok(doc.contents(start, end))
            },
            None => Err(StoreError::NotFound(doc_id.to_owned())),
        }
    }

    // ── block writes ──────────────────────────────────────────────────────────

    /// Apply individual block updates (no block count change).
    pub fn update_blocks(&mut self, doc_id: &str, updates: Vec<BlockUpdate>) -> (r: Result<
        (),
        StoreError,
    >)
        ensures
            match r {
                Ok(()) => old(self)@.contains_key(doc_id@) && final(self)@ == old(self)@.insert(
                    doc_id@,
                    blocks_updated(old(self)@[doc_id@], update_views(updates@)),
                ),
                Err(e) => !old(self)@.contains_key(doc_id@) && final(self)@ == old(self)@
                    && e.is_not_found(doc_id@),
            },
    {
        let mut doc = match self.documents.remove(doc_id) {
            Some(doc) => doc,
            None => {
                assert(self@ =~= old(self)@);
                return Err(StoreError::NotFound(doc_id.to_owned()));
            },
        };
        doc.update(&updates);
        self.documents.insert(doc_id.to_owned(), doc);
        assert(self@ =~= old(self)@.insert(
            doc_id@,
            blocks_updated(old(self)@[doc_id@], update_views(updates@)),
        ));
        Ok(())
    }

    /// Replace blocks `[start_block, end_block)` with a re-scan of
    /// `window_markdown`. Handles block splits and merges automatically.
    ///
    /// Returns updated metadata for the whole document.
    pub fn update_visible_window(
        &mut self,
        doc_id: &str,
        start_block: usize,
        end_block: usize,
        window_markdown: &str,
    ) -> (r: Result<WindowUpdateResult, StoreError>)
        ensures
            match r {
                Ok(result) => {
                    let doc = window_updated(
                        old(self)@[doc_id@],
                        start_block as nat,
                        end_block as nat,
                        window_markdown@,
                    );
                    &&& old(self)@.contains_key(doc_id@)
                    &&& final(self)@ == old(self)@.insert(doc_id@, doc)
                    &&& sequential(doc.blocks)
                    &&& result.new_total_blocks == doc.blocks.len()
                    &&& describe_all(result.blocks@, doc.blocks)
                },
                Err(e) => !old(self)@.contains_key(doc_id@) && final(self)@ == old(self)@
                    && e.is_not_found(doc_id@),
            },
    {
        let mut doc = match self.documents.remove(doc_id) {
            Some(doc) => doc,
            None => {
                assert(self@ =~= old(self)@);
                return Err(StoreError::NotFound(doc_id.to_owned()));
            },
        };
        doc.splice(start_block, end_block, window_markdown);
        doc.check();
        let new_total_blocks = doc.blocks.len();
        let blocks = metas_of(&doc.blocks);
        self.documents.insert(doc_id.to_owned(), doc);
        assert(self@ =~= old(self)@.insert(
            doc_id@,
            window_updated(
                old(self)@[doc_id@],
                start_block as nat,
                end_block as nat,
                window_markdown@,
            ),
        ));
        Ok(WindowUpdateResult { new_total_blocks, blocks })
    }

    // ── save ──────────────────────────────────────────────────────────────────

    /// Prepares the saving of a document. A document that has changed is
    /// reassembled, the write is recorded with `tracker`, and the caller is
    /// asked to write the text; for one that has not, nothing is recorded
    /// and nothing is to be written. The store itself does not change: the
    /// caller reports a write that succeeded with `mark_saved`.
    pub fn save_document(&self, doc_id: &str, tracker: &mut WriteTracker, now_ms: u64) -> (r:
        Result<SaveAction, StoreError>)
        ensures
            match r {
                Ok(action) => {
                    &&& self@.contains_key(doc_id@)
                    &&& action@ == save_of(self@[doc_id@])
                    &&& final(tracker)@ == if self@[doc_id@].dirty {
                        after_write(old(tracker)@, tracker_key(self@[doc_id@].path), now_ms)
                    } else {
                        old(tracker)@
                    }
                },
                Err(e) => !self@.contains_key(doc_id@) && final(tracker)@ == old(tracker)@
                    && e.is_not_found(doc_id@),
            },
    {
        match self.documents.get(doc_id) {
            Some(doc) => {
                let action = doc.save_action();
                match &action {
                    SaveAction::Write { path, content } => {
                        record_write(tracker, path.as_str(), now_ms);
                    },
                    SaveAction::Skip => {},
                }
                Ok(action)
            },
            None => Err(StoreError::NotFound(doc_id.to_owned())),
        }
    }

    /// Records that the text of a document was written: the document is
    /// clean. Nothing changes where no document has the identifier.
    pub fn mark_saved(&mut self, doc_id: &str)
        ensures
            final(self)@ == if old(self)@.contains_key(doc_id@) {
                old(self)@.insert(doc_id@, saved(old(self)@[doc_id@]))
            } else {
                old(self)@
            },
    {
        match self.documents.remove(doc_id) {
            Some(doc) => {
                let mut doc = doc;
                doc.clean();
                self.documents.insert(doc_id.to_owned(), doc);
                assert(self@ =~= old(self)@.insert(doc_id@, saved(old(self)@[doc_id@])));
            },
            None => {
                assert(self@ =~= old(self)@);
            },
        }
    }

    // ── search ────────────────────────────────────────────────────────────────

    /// Case-insensitive substring search across all blocks.
    pub fn search_blocks(&self, doc_id: &str, query: &str) -> (r: Result<
        Vec<BlockSearchMatch>,
        StoreError,
    >)
        ensures
            match r {
                Ok(matches) => self@.contains_key(doc_id@) && match_views(matches@)
                    == search_matches(self@[doc_id@].blocks, query@) && self@[doc_id@].wf(),
                Err(e) => !self@.contains_key(doc_id@) && e.is_not_found(doc_id@),
            },
    {
        match self.documents.get(doc_id) {
            Some(doc) => {
                doc.check();
                Ok(search_in(doc.blocks.as_slice(), query))
            },
            None => Err(StoreError::NotFound(doc_id.to_owned())),
        }
    }
}

} // verus!
