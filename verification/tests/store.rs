use unstablon_pkm::blockstore::scanner::{fnv1a_hash, reassemble, scan, Block, BlockType};
use unstablon_pkm::blockstore::search::locate;
use unstablon_pkm::blockstore::{
    normalize_doc_id, BlockMeta, BlockUpdate, DocumentStore, SaveAction, StoreError,
};
use unstablon_pkm::write_tracker::{record_write, was_recently_written, WriteTracker};

const DOC: &str = "# Title\n\nFirst paragraph\n\n| a | b |\n|---|---|\n| 1 | 2 |\n";

fn ids(store: &DocumentStore, doc_id: &str) -> Vec<usize> {
    store
        .get_blocks(doc_id, 0, usize::MAX)
        .unwrap()
        .iter()
        .map(|b| b.id)
        .collect()
}

fn texts(store: &DocumentStore, doc_id: &str) -> Vec<String> {
    store
        .get_blocks(doc_id, 0, usize::MAX)
        .unwrap()
        .into_iter()
        .map(|b| b.markdown)
        .collect()
}

#[test]
fn single_line_is_one_paragraph() {
    assert_eq!(scan("").len(), 0);
    let blocks = scan("Hello");
    assert_eq!(blocks.len(), 1);
    assert_eq!(blocks[0].block_type, BlockType::Paragraph);
    assert_eq!(blocks[0].markdown, "Hello");
    assert_eq!(blocks[0].id, 0);
    assert_eq!((blocks[0].start_byte, blocks[0].end_byte), (0, 5));
    assert_eq!((blocks[0].start_line, blocks[0].end_line), (0, 0));
}

#[test]
fn fnv1a_known_values() {
    assert_eq!(fnv1a_hash(""), 0xcbf29ce484222325);
    assert_eq!(fnv1a_hash("a"), 0xaf63dc4c8601ec8c);
    assert_eq!(fnv1a_hash("foobar"), 0x85944171f73967e8);
}

#[test]
fn block_carries_hash_and_counts_of_its_text() {
    let blocks = scan(DOC);
    assert_eq!(blocks.len(), 3);
    for b in &blocks {
        assert_eq!(b.content_hash, fnv1a_hash(&b.markdown));
    }
    assert_eq!(blocks[0].line_count, 1);
    assert_eq!(blocks[0].row_count, None);
    assert_eq!(blocks[0].col_count, None);
    assert_eq!(blocks[2].block_type, BlockType::Table);
    assert_eq!(blocks[2].line_count, 3);
    assert_eq!(blocks[2].row_count, Some(3));
    assert_eq!(blocks[2].col_count, Some(2));
}

#[test]
fn table_columns_are_at_least_one() {
    let b = Block::new(0, 0, 0, 0, 0, "|".to_string(), BlockType::Table);
    assert_eq!(b.col_count, Some(1));
    let b = Block::new(0, 0, 0, 0, 0, "no pipes\n| a | b | c |".to_string(), BlockType::Table);
    assert_eq!(b.col_count, Some(1));
    assert_eq!(b.row_count, Some(2));
    let b = Block::new(0, 0, 0, 0, 0, "| a | b | c |".to_string(), BlockType::Table);
    assert_eq!(b.col_count, Some(3));
}

#[test]
fn line_count_follows_line_feeds() {
    let count = |s: &str| Block::new(0, 0, 0, 0, 0, s.to_string(), BlockType::Paragraph).line_count;
    assert_eq!(count(""), 0);
    assert_eq!(count("a"), 1);
    assert_eq!(count("a\n"), 1);
    assert_eq!(count("a\nb"), 2);
    assert_eq!(count("a\n\n"), 2);
}

#[test]
fn spans_count_lines_and_bytes() {
    let blocks = scan("é\n\nsecond\nline\n\n\nthird");
    assert_eq!(blocks.len(), 3);
    assert_eq!((blocks[0].start_line, blocks[0].end_line), (0, 0));
    assert_eq!((blocks[0].start_byte, blocks[0].end_byte), (0, 3));
    assert_eq!((blocks[1].start_line, blocks[1].end_line), (2, 3));
    assert_eq!((blocks[1].start_byte, blocks[1].end_byte), (4, 16));
    assert_eq!((blocks[2].start_line, blocks[2].end_line), (6, 6));
    assert_eq!((blocks[2].start_byte, blocks[2].end_byte), (18, 23));
}

#[test]
fn frontmatter_span_includes_its_last_line() {
    let blocks = scan("---\na: 1\n...\nbody\n");
    assert_eq!(blocks.len(), 2);
    assert_eq!(blocks[0].block_type, BlockType::Frontmatter);
    assert_eq!(blocks[0].markdown, "---\na: 1\n...");
    assert_eq!((blocks[0].start_line, blocks[0].end_line), (0, 2));
    assert_eq!((blocks[0].start_byte, blocks[0].end_byte), (0, 13));
    assert_eq!(blocks[1].markdown, "body");
    assert_eq!(blocks[1].start_line, 3);
}

#[test]
fn frontmatter_keeps_blank_lines() {
    let blocks = scan("---\na: 1\n\nb: 2\n---\n");
    assert_eq!(blocks.len(), 1);
    assert_eq!(blocks[0].markdown, "---\na: 1\n\nb: 2\n---");
}

#[test]
fn carriage_returns_are_line_breaks() {
    let blocks = scan("one\r\n\r\ntwo\r\nmore\r\n");
    assert_eq!(blocks.len(), 2);
    assert_eq!(blocks[0].markdown, "one");
    assert_eq!(blocks[1].markdown, "two\nmore");
}

#[test]
fn fence_needs_a_matching_close() {
    let blocks = scan("````\ncode\n```\n\nstill code\n~~~~\n````\n\nafter\n");
    assert_eq!(blocks.len(), 2);
    assert_eq!(blocks[0].block_type, BlockType::CodeFence);
    assert_eq!(blocks[0].markdown, "````\ncode\n```\n\nstill code\n~~~~\n````");
    assert_eq!(blocks[1].markdown, "after");
}

#[test]
fn fence_opened_inside_a_paragraph_keeps_the_type() {
    let blocks = scan("text\n```\n\ncode\n```\n");
    assert_eq!(blocks.len(), 1);
    assert_eq!(blocks[0].block_type, BlockType::Paragraph);
    assert_eq!(blocks[0].markdown, "text\n```\n\ncode\n```");
}

#[test]
fn table_line_inside_a_paragraph_turns_it_into_a_table() {
    let blocks = scan("text\n| a |\n\n| b |\nend\n");
    assert_eq!(blocks.len(), 2);
    assert_eq!(blocks[0].block_type, BlockType::Table);
    assert_eq!(blocks[0].markdown, "text\n| a |\n\n| b |");
    assert_eq!(blocks[1].markdown, "end");
}

#[test]
fn fence_right_after_a_table_starts_a_block() {
    let blocks = scan("| a |\n```\ncode\n```\n");
    assert_eq!(blocks.len(), 2);
    assert_eq!(blocks[0].block_type, BlockType::Table);
    assert_eq!(blocks[1].block_type, BlockType::CodeFence);
    assert_eq!(blocks[1].markdown, "```\ncode\n```");
}

#[test]
fn first_lines_are_classified_by_their_start() {
    assert_eq!(scan("12) item")[0].block_type, BlockType::List);
    assert_eq!(scan("1) foo. bar")[0].block_type, BlockType::List);
    assert_eq!(scan("1) a. b")[0].block_type, BlockType::List);
    assert_eq!(scan("7. item")[0].block_type, BlockType::List);
    assert_eq!(scan("a 1. b")[0].block_type, BlockType::Paragraph);
    assert_eq!(scan("1.item")[0].block_type, BlockType::Paragraph);
    assert_eq!(scan("1.")[0].block_type, BlockType::Paragraph);
    assert_eq!(scan("12")[0].block_type, BlockType::Paragraph);
    assert_eq!(scan(". item")[0].block_type, BlockType::Paragraph);
    assert_eq!(scan("+ item")[0].block_type, BlockType::List);
    assert_eq!(scan("  > quote")[0].block_type, BlockType::Blockquote);
    assert_eq!(scan("- - -")[0].block_type, BlockType::HorizontalRule);
    assert_eq!(scan("--")[0].block_type, BlockType::Paragraph);
    assert_eq!(scan("####### seven")[0].block_type, BlockType::Paragraph);
    assert_eq!(scan("#")[0].block_type, BlockType::Heading1);
}

#[test]
fn reassemble_joins_with_blank_lines() {
    assert_eq!(reassemble(&[]), "");
    let blocks = scan("A\n\n\n\nB");
    assert_eq!(reassemble(&blocks), "A\n\nB\n");
    assert_eq!(reassemble(&blocks[..1]), "A\n");
}

#[test]
fn reassemble_is_a_fixed_point() {
    let text = "\n\n# T\r\n\r\n\r\npara one\nstill\n\n\n```\ncode\n\n\nmore\n```\n\n- a\n- b\n\n\n\nlast";
    let once = reassemble(&scan(text));
    let twice = reassemble(&scan(&once));
    assert_eq!(once, "# T\n\npara one\nstill\n\n```\ncode\n\n\nmore\n```\n\n- a\n- b\n\nlast\n");
    assert_eq!(twice, once);
    let a = scan(text);
    let b = scan(&once);
    assert_eq!(a.len(), b.len());
    for (x, y) in a.iter().zip(b.iter()) {
        assert_eq!(x.markdown, y.markdown);
        assert_eq!(x.block_type, y.block_type);
    }
}

#[test]
fn rule_after_blank_lines_is_a_fixed_point() {
    let once = reassemble(&scan("\n---\nfoo"));
    assert_eq!(once, "---\nfoo\n");
    assert_eq!(reassemble(&scan(&once)), once);
    let once = reassemble(&scan("\n\n---\nfoo\n---\n\nbar"));
    assert_eq!(once, "---\nfoo\n---\n\nbar\n");
    assert_eq!(reassemble(&scan(&once)), once);
}

#[test]
fn rule_after_blank_lines_can_part_on_rescan() {
    let once = reassemble(&scan("\n---\n---\nfoo"));
    assert_eq!(once, "---\n---\nfoo\n");
    assert_eq!(reassemble(&scan(&once)), "---\n---\n\nfoo\n");
}

#[test]
fn canonical_text_ends_with_one_line_feed() {
    assert_eq!(reassemble(&scan("a\n\n```\ncode\n```")), "a\n\n```\ncode\n```\n");
    assert_eq!(reassemble(&scan("a\n\n```\ncode\n```\n\n\n")), "a\n\n```\ncode\n```\n");
    assert_eq!(reassemble(&scan("| a |\n| b |\n")), "| a |\n| b |\n");
    // A blank line kept at the end of an open fence or of a table stays.
    assert_eq!(reassemble(&scan("```\ncode\n\n")), "```\ncode\n\n");
    assert_eq!(reassemble(&scan("| a |\n\n")), "| a |\n\n");
    assert_eq!(reassemble(&scan("---\nopen\n\n")), "---\nopen\n\n");
}

#[test]
fn one_blank_line_stands_between_blocks() {
    let text = "a\n\n\n\n```\nx\n\n\ny\n```\n\n\n| t |\nafter\n\n\n\nz";
    assert_eq!(
        reassemble(&scan(text)),
        "a\n\n```\nx\n\n\ny\n```\n\n| t |\n\nafter\n\nz\n"
    );
    // A table that keeps a blank line before other text is the exception.
    assert_eq!(reassemble(&scan("| t |\n\nafter")), "| t |\n\n\nafter\n");
}

#[test]
fn table_ended_by_text_grows_when_rescanned() {
    let once = reassemble(&scan("| a |\ntext\n"));
    assert_eq!(once, "| a |\n\ntext\n");
    let twice = reassemble(&scan(&once));
    assert_eq!(twice, "| a |\n\n\ntext\n");
}

#[test]
fn open_document_returns_metadata() {
    let mut store = DocumentStore::new();
    let handle = store.open_document("C:\\vault\\note.md", DOC);
    assert_eq!(handle.doc_id, "C:/vault/note.md");
    assert_eq!(handle.path, "C:\\vault\\note.md");
    assert_eq!(handle.total_blocks, 3);
    assert_eq!(handle.blocks.len(), 3);
    let blocks = scan(DOC);
    for (m, b) in handle.blocks.iter().zip(blocks.iter()) {
        assert_eq!(m.id, b.id);
        assert_eq!(m.start_line, b.start_line);
        assert_eq!(m.end_line, b.end_line);
        assert_eq!(m.content_hash, format!("{:x}", b.content_hash));
        assert_eq!(m.block_type, b.block_type);
        assert_eq!(m.line_count, b.line_count);
        assert_eq!(m.row_count, b.row_count);
        assert_eq!(m.col_count, b.col_count);
    }
    assert_eq!(normalize_doc_id("a\\b/c"), "a/b/c");
}

#[test]
fn content_hash_is_lowercase_hex() {
    let b = Block::new(0, 0, 0, 0, 0, String::new(), BlockType::Paragraph);
    assert_eq!(BlockMeta::from_block(&b).content_hash, "cbf29ce484222325");
    let mut zero = b.clone();
    zero.content_hash = 0;
    assert_eq!(BlockMeta::from_block(&zero).content_hash, "0");
    zero.content_hash = 0x0abc;
    assert_eq!(BlockMeta::from_block(&zero).content_hash, "abc");
}

#[test]
fn unknown_document_is_not_found() {
    let mut store = DocumentStore::new();
    store.open_document("a.md", "x");
    let err = store.get_blocks("b.md", 0, 1).unwrap_err();
    assert!(matches!(&err, StoreError::NotFound(id) if id == "b.md"));
    assert_eq!(err.message(), "Document not found: b.md");
    assert!(matches!(store.update_blocks("b.md", vec![]), Err(StoreError::NotFound(_))));
    assert!(matches!(
        store.update_visible_window("b.md", 0, 1, "y"),
        Err(StoreError::NotFound(_))
    ));
    assert!(matches!(store.search_blocks("b.md", "x"), Err(StoreError::NotFound(_))));
    let mut tracker = WriteTracker::new();
    assert!(matches!(
        store.save_document("b.md", &mut tracker, 5),
        Err(StoreError::NotFound(_))
    ));
    assert!(!was_recently_written(&tracker, "b.md", 5));
}

#[test]
fn close_document_removes_it_and_ignores_absent_ones() {
    let mut store = DocumentStore::new();
    store.open_document("a.md", "x");
    store.close_document("zzz");
    assert!(store.get_blocks("a.md", 0, 1).is_ok());
    store.close_document("a.md");
    assert!(store.get_blocks("a.md", 0, 1).is_err());
}

#[test]
fn get_blocks_clamps_the_range() {
    let mut store = DocumentStore::new();
    store.open_document("a.md", "A\n\nB\n\nC\n");
    let all = store.get_blocks("a.md", 0, 100).unwrap();
    assert_eq!(all.len(), 3);
    let mid = store.get_blocks("a.md", 1, 2).unwrap();
    assert_eq!(mid.len(), 1);
    assert_eq!(mid[0].id, 1);
    assert_eq!(mid[0].markdown, "B");
    assert_eq!(store.get_blocks("a.md", 2, 1).unwrap().len(), 0);
    assert_eq!(store.get_blocks("a.md", 7, 9).unwrap().len(), 0);
}

#[test]
fn update_blocks_replaces_text_and_skips_unknown_ids() {
    let mut store = DocumentStore::new();
    store.open_document("a.md", "A\n\n| t |\n");
    let updates = vec![
        BlockUpdate { id: 9, markdown: "lost".to_string() },
        BlockUpdate { id: 1, markdown: "| x | y |\n| 1 | 2 |".to_string() },
        BlockUpdate { id: 0, markdown: "first".to_string() },
        BlockUpdate { id: 0, markdown: "second".to_string() },
    ];
    store.update_blocks("a.md", updates).unwrap();
    assert_eq!(texts(&store, "a.md"), vec!["second", "| x | y |\n| 1 | 2 |"]);
    assert_eq!(ids(&store, "a.md"), vec![0, 1]);
    let result = store.update_visible_window("a.md", 2, 2, "").unwrap();
    assert_eq!(result.blocks[0].content_hash, format!("{:x}", fnv1a_hash("second")));
    assert_eq!(result.blocks[1].line_count, 2);
    assert_eq!(result.blocks[1].row_count, Some(2));
    assert_eq!(result.blocks[1].col_count, Some(2));
    assert_eq!(result.blocks[1].block_type, BlockType::Table);
}

#[test]
fn window_update_splits_merges_and_renumbers() {
    let mut store = DocumentStore::new();
    store.open_document("a.md", "A\n\nB\n\nC\n\nD\n");
    let result = store.update_visible_window("a.md", 1, 3, "B1\n\nB2\n\nC1\n\nC2\n").unwrap();
    assert_eq!(result.new_total_blocks, 6);
    assert_eq!(result.blocks.len(), 6);
    assert_eq!(texts(&store, "a.md"), vec!["A", "B1", "B2", "C1", "C2", "D"]);
    assert_eq!(ids(&store, "a.md"), vec![0, 1, 2, 3, 4, 5]);
    for (i, m) in result.blocks.iter().enumerate() {
        assert_eq!(m.id, i);
    }
    let result = store.update_visible_window("a.md", 0, 5, "merged").unwrap();
    assert_eq!(result.new_total_blocks, 2);
    assert_eq!(texts(&store, "a.md"), vec!["merged", "D"]);
    assert_eq!(ids(&store, "a.md"), vec![0, 1]);
    let result = store.update_visible_window("a.md", 1, 100, "").unwrap();
    assert_eq!(result.new_total_blocks, 1);
    assert_eq!(texts(&store, "a.md"), vec!["merged"]);
}

#[test]
fn window_update_outside_the_blocks_appends() {
    let mut store = DocumentStore::new();
    store.open_document("a.md", "A\n\nB\n");
    store.update_visible_window("a.md", 5, 9, "Z").unwrap();
    assert_eq!(texts(&store, "a.md"), vec!["A", "B", "Z"]);
    assert_eq!(ids(&store, "a.md"), vec![0, 1, 2]);
    store.update_visible_window("a.md", 1, 0, "M").unwrap();
    assert_eq!(texts(&store, "a.md"), vec!["A", "M", "B", "Z"]);
    assert_eq!(ids(&store, "a.md"), vec![0, 1, 2, 3]);
}

#[test]
fn save_writes_only_dirty_documents() {
    let mut store = DocumentStore::new();
    let mut tracker = WriteTracker::new();
    store.open_document("Dir\\Note.md", "A\n\n\nB");
    assert!(matches!(
        store.save_document("Dir/Note.md", &mut tracker, 1000),
        Ok(SaveAction::Skip)
    ));
    assert!(!was_recently_written(&tracker, "Dir\\Note.md", 1000));

    store
        .update_blocks("Dir/Note.md", vec![BlockUpdate { id: 7, markdown: "x".to_string() }])
        .unwrap();
    assert!(matches!(
        store.save_document("Dir/Note.md", &mut tracker, 1000),
        Ok(SaveAction::Skip)
    ));

    store
        .update_blocks("Dir/Note.md", vec![BlockUpdate { id: 1, markdown: "B2".to_string() }])
        .unwrap();
    match store.save_document("Dir/Note.md", &mut tracker, 1000).unwrap() {
        SaveAction::Write { path, content } => {
            assert_eq!(path, "Dir\\Note.md");
            assert_eq!(content, "A\n\nB2\n");
        }
        SaveAction::Skip => panic!("a dirty document must be written"),
    }
    assert!(was_recently_written(&tracker, "dir/note.md", 1500));

    assert!(matches!(
        store.save_document("Dir/Note.md", &mut tracker, 1000),
        Ok(SaveAction::Write { .. })
    ));
    store.mark_saved("Dir/Note.md");
    store.mark_saved("absent");
    assert!(matches!(
        store.save_document("Dir/Note.md", &mut tracker, 1000),
        Ok(SaveAction::Skip)
    ));

    store.update_visible_window("Dir/Note.md", 0, 0, "").unwrap();
    assert!(matches!(
        store.save_document("Dir/Note.md", &mut tracker, 1000),
        Ok(SaveAction::Write { .. })
    ));
}

#[test]
fn edits_make_a_document_dirty_until_it_is_saved() {
    let mut store = DocumentStore::new();
    store.open_document("a.md", "A\n\nB\n");
    assert_eq!(store.is_dirty("a.md").unwrap(), false);
    assert_eq!(store.block_count("a.md").unwrap(), 2);
    store.update_blocks("a.md", vec![]).unwrap();
    assert_eq!(store.is_dirty("a.md").unwrap(), false);
    store
        .update_blocks("a.md", vec![BlockUpdate { id: 0, markdown: "A".to_string() }])
        .unwrap();
    assert_eq!(store.is_dirty("a.md").unwrap(), true);
    store.mark_saved("a.md");
    assert_eq!(store.is_dirty("a.md").unwrap(), false);
    store.update_visible_window("a.md", 0, 1, "A").unwrap();
    assert_eq!(store.is_dirty("a.md").unwrap(), true);
    assert_eq!(store.block_count("a.md").unwrap(), 2);
    assert!(store.is_dirty("b.md").is_err());
    assert!(store.block_count("b.md").is_err());
    store.open_document("a.md", "fresh");
    assert_eq!(store.is_dirty("a.md").unwrap(), false);
    assert_eq!(store.block_count("a.md").unwrap(), 1);
}

#[test]
fn search_finds_the_first_match_of_each_block() {
    let mut store = DocumentStore::new();
    store.open_document("a.md", "Hello World, world\n\nnothing here\n\nline\nWORLD peace\n");
    let found = store.search_blocks("a.md", "wOrLd").unwrap();
    assert_eq!(found.len(), 2);
    assert_eq!(found[0].block_id, 0);
    assert_eq!(found[0].start_line, 0);
    assert_eq!(found[0].match_text, "World");
    assert_eq!(found[1].block_id, 2);
    assert_eq!(found[1].start_line, 4);
    assert_eq!(found[1].match_text, "WORLD");
    assert_eq!(store.search_blocks("a.md", "absent").unwrap().len(), 0);
    let all = store.search_blocks("a.md", "").unwrap();
    assert_eq!(all.len(), 3);
    assert_eq!(all[0].match_text, "");
}

#[test]
fn locate_gives_the_part_in_its_own_case() {
    assert_eq!(locate("Say HeLLo", "hello"), Some("HeLLo".to_string()));
    assert_eq!(locate("Hello World", "world"), Some("World".to_string()));
    assert_eq!(locate("Hello", "x"), None);
    assert_eq!(locate("abcabc", "bc"), Some("bc".to_string()));
    assert_eq!(locate("", ""), Some(String::new()));
    assert_eq!(locate("", "a"), None);
    // Lowercasing changes the length of the first character.
    assert_eq!(locate("\u{130}X", "x"), Some("X".to_string()));
    assert_eq!(locate("\u{130}X", "i\u{307}x"), Some("\u{130}X".to_string()));
    assert_eq!(locate("äÖx", "ö"), Some("Ö".to_string()));
}

#[test]
fn match_text_has_the_lowercase_of_the_query() {
    let mut store = DocumentStore::new();
    store.open_document("a.md", "\u{130}X marks\n\nSay HeLLo\n");
    for query in ["x", "HELLO", "say h", "\u{130}", "i\u{307}X M"] {
        for m in store.search_blocks("a.md", query).unwrap() {
            assert_eq!(m.match_text.to_lowercase(), query.to_lowercase());
        }
    }
    let found = store.search_blocks("a.md", "x").unwrap();
    assert_eq!(found.len(), 1);
    assert_eq!(found[0].match_text, "X");
    let found = store.search_blocks("a.md", "hello").unwrap();
    assert_eq!(found.len(), 1);
    assert_eq!(found[0].block_id, 1);
    assert_eq!(found[0].match_text, "HeLLo");
}

#[test]
fn tracker_remembers_recent_writes() {
    let mut tracker = WriteTracker::new();
    assert!(!was_recently_written(&tracker, "a.md", 0));
    record_write(&mut tracker, "C:\\Vault\\A.md", 1_000);
    assert!(was_recently_written(&tracker, "c:/vault/a.md", 1_000));
    assert!(was_recently_written(&tracker, "C:/VAULT/A.MD", 2_999));
    assert!(!was_recently_written(&tracker, "c:/vault/a.md", 3_000));
    assert!(!was_recently_written(&tracker, "c:/vault/b.md", 1_000));
    // A clock reading before the write counts as no time elapsed.
    assert!(was_recently_written(&tracker, "c:/vault/a.md", 500));
}

#[test]
fn tracker_forgets_old_writes() {
    let mut tracker = WriteTracker::new();
    record_write(&mut tracker, "old.md", 1_000);
    record_write(&mut tracker, "kept.md", 9_500);
    record_write(&mut tracker, "new.md", 11_000);
    assert!(!was_recently_written(&tracker, "old.md", 0));
    assert!(was_recently_written(&tracker, "kept.md", 0));
    assert!(was_recently_written(&tracker, "new.md", 0));
    record_write(&mut tracker, "kept.md", 30_000);
    assert!(was_recently_written(&tracker, "kept.md", 30_500));
    assert!(!was_recently_written(&tracker, "new.md", 0));
}
