use unstablon_pkm::blockstore::scanner::{reassemble, scan, Block, BlockType};

/// Pixel height that the editor assigns to a block of the given line count
/// and type.
fn estimate_height(line_count: usize, block_type: BlockType) -> f64 {
    match block_type {
        BlockType::Paragraph => line_count as f64 * 28.0,
        BlockType::Heading1 => 106.0,
        BlockType::Heading2 => 79.0,
        BlockType::Heading3 => 66.0,
        BlockType::Heading4 | BlockType::Heading5 | BlockType::Heading6 => 53.0,
        BlockType::List => line_count as f64 * 28.0 + 16.0,
        BlockType::Blockquote => line_count as f64 * 28.0 + 32.0,
        BlockType::HorizontalRule => 33.0,
        BlockType::CodeFence => (line_count as f64 * 20.0) + 26.0,
        BlockType::Table => (line_count as f64 * 36.0) + 32.0,
        BlockType::Frontmatter => 0.0,
    }
}

fn estimated_height(block: &Block) -> f64 {
    estimate_height((block.line_count as usize).max(1), block.block_type)
}

#[test]
fn test_simple_paragraphs() {
    let content = "Hello world\n\nSecond paragraph\n\nThird\n";
    let blocks = scan(content);
    assert_eq!(blocks.len(), 3);
    assert_eq!(blocks[0].markdown, "Hello world");
    assert_eq!(blocks[1].markdown, "Second paragraph");
    assert_eq!(blocks[2].markdown, "Third");
    assert!(blocks.iter().all(|b| b.block_type == BlockType::Paragraph));
}

#[test]
fn test_code_fence_not_split() {
    let content = "Before\n\n```rust\nfn main() {\n\n    println!(\"hello\");\n}\n```\n\nAfter\n";
    let blocks = scan(content);
    assert_eq!(blocks.len(), 3, "blocks: {:#?}", blocks);
    assert!(blocks[1].markdown.contains("fn main()"));
    assert_eq!(blocks[2].markdown, "After");
}

#[test]
fn test_tilde_fence() {
    let content = "Before\n\n~~~python\nx = 1\n\ny = 2\n~~~\n\nAfter\n";
    let blocks = scan(content);
    assert_eq!(blocks.len(), 3);
    assert!(blocks[1].markdown.contains("x = 1"));
}

#[test]
fn test_yaml_frontmatter() {
    let content = "---\ntitle: Test\ndate: 2026\n---\n\n# Heading\n\nBody\n";
    let blocks = scan(content);
    assert_eq!(blocks.len(), 3, "blocks: {:#?}", blocks);
    assert!(blocks[0].markdown.starts_with("---"));
    assert_eq!(blocks[1].markdown, "# Heading");
    assert_eq!(blocks[2].markdown, "Body");
}

#[test]
fn test_empty_file() {
    let blocks = scan("");
    assert_eq!(blocks.len(), 0);
}

#[test]
fn test_single_line_no_trailing_newline() {
    let blocks = scan("Hello");
    assert_eq!(blocks.len(), 1);
    assert_eq!(blocks[0].markdown, "Hello");
}

#[test]
fn test_reassemble_simple_roundtrip() {
    let original = "# Title\n\nParagraph one\n\nParagraph two\n";
    let blocks = scan(original);
    let reassembled = reassemble(&blocks);
    assert_eq!(reassembled, original);
}

#[test]
fn test_block_ids_sequential() {
    let content = "A\n\nB\n\nC\n";
    let blocks = scan(content);
    for (i, b) in blocks.iter().enumerate() {
        assert_eq!(b.id, i);
    }
}

#[test]
fn test_multiple_blank_lines_normalised() {
    let content = "A\n\n\n\nB\n";
    let blocks = scan(content);
    assert_eq!(blocks.len(), 2);
    assert_eq!(blocks[0].markdown, "A");
    assert_eq!(blocks[1].markdown, "B");
}

#[test]
fn test_code_fence_block_type() {
    let content = "Text\n\n```rust\nlet x = 1;\n```\n\nMore\n";
    let blocks = scan(content);
    assert_eq!(blocks.len(), 3, "blocks: {:#?}", blocks);
    assert_eq!(blocks[0].block_type, BlockType::Paragraph);
    assert_eq!(blocks[1].block_type, BlockType::CodeFence);
    assert_eq!(blocks[2].block_type, BlockType::Paragraph);
}

#[test]
fn test_frontmatter_block_type() {
    let content = "---\ntitle: Test\n---\n\nBody\n";
    let blocks = scan(content);
    assert_eq!(blocks[0].block_type, BlockType::Frontmatter);
    assert_eq!(blocks[1].block_type, BlockType::Paragraph);
}

#[test]
fn test_table_block_type() {
    let content = "Intro\n\n| Col 1 | Col 2 |\n|-------|-------|\n| A | B |\n\nOutro\n";
    let blocks = scan(content);
    assert_eq!(blocks.len(), 3, "blocks: {:#?}", blocks);
    assert_eq!(blocks[0].block_type, BlockType::Paragraph);
    assert_eq!(blocks[1].block_type, BlockType::Table);
    assert_eq!(blocks[2].block_type, BlockType::Paragraph);
    assert!(blocks[1].markdown.contains("Col 1"));
    assert!(blocks[1].markdown.contains("| A | B |"));
}

#[test]
fn test_table_atomic_with_blank_line_inside() {
    let content = "Before\n\n| H1 | H2 |\n|----|----|\n\n| A  | B  |\n\nAfter\n";
    let blocks = scan(content);
    let table_blocks: Vec<_> = blocks
        .iter()
        .filter(|b| b.block_type == BlockType::Table)
        .collect();
    assert_eq!(table_blocks.len(), 1, "Table split unexpectedly: {:#?}", blocks);
    assert!(table_blocks[0].markdown.contains("| H1 | H2 |"));
    assert!(table_blocks[0].markdown.contains("| A  | B  |"));
}

#[test]
fn test_table_followed_immediately_by_paragraph() {
    let content = "| H1 | H2 |\n|----|----|\n| A  | B  |\nSome text after\n";
    let blocks = scan(content);
    assert_eq!(blocks.len(), 2, "blocks: {:#?}", blocks);
    assert_eq!(blocks[0].block_type, BlockType::Table);
    assert_eq!(blocks[1].block_type, BlockType::Paragraph);
    assert_eq!(blocks[1].markdown, "Some text after");
}

#[test]
fn test_mixed_content_types() {
    let content = format!(
        "{}{}{}{}",
        "# Introduction\n\n",
        "| Name | Value |\n|------|-------|\n| Foo  | 42    |\n\n",
        "```python\nprint('hello')\n```\n\n",
        "Conclusion\n"
    );
    let blocks = scan(&content);
    assert_eq!(blocks.len(), 4, "blocks: {:#?}", blocks);
    assert_eq!(blocks[0].block_type, BlockType::Heading1);
    assert_eq!(blocks[1].block_type, BlockType::Table);
    assert_eq!(blocks[2].block_type, BlockType::CodeFence);
    assert_eq!(blocks[3].block_type, BlockType::Paragraph);
}

#[test]
fn test_height_estimates_differ_by_type() {
    let content = "Paragraph text\n\n| H |\n|---|\n| A |\n\n```\ncode\n```\n";
    let blocks = scan(content);
    let para = blocks.iter().find(|b| b.block_type == BlockType::Paragraph).unwrap();
    let table = blocks.iter().find(|b| b.block_type == BlockType::Table).unwrap();
    let code = blocks.iter().find(|b| b.block_type == BlockType::CodeFence).unwrap();
    assert!(
        estimated_height(table) > estimated_height(para),
        "table height {} should exceed paragraph height {}",
        estimated_height(table),
        estimated_height(para)
    );
    assert!(
        estimated_height(code) > estimated_height(para),
        "code height {} should exceed paragraph height {}",
        estimated_height(code),
        estimated_height(para)
    );
}

#[test]
fn test_paragraph_height_28px() {
    let content = "Line one\nLine two\nLine three\n";
    let blocks = scan(content);
    assert_eq!(blocks.len(), 1);
    assert_eq!(blocks[0].block_type, BlockType::Paragraph);
    assert_eq!(estimated_height(&blocks[0]), 84.0);
}

#[test]
fn test_heading_block_types() {
    let content = "# H1\n\n## H2\n\n### H3\n\n#### H4\n\n##### H5\n\n###### H6\n";
    let blocks = scan(content);
    assert_eq!(blocks.len(), 6, "blocks: {:#?}", blocks);
    assert_eq!(blocks[0].block_type, BlockType::Heading1);
    assert_eq!(blocks[1].block_type, BlockType::Heading2);
    assert_eq!(blocks[2].block_type, BlockType::Heading3);
    assert_eq!(blocks[3].block_type, BlockType::Heading4);
    assert_eq!(blocks[4].block_type, BlockType::Heading5);
    assert_eq!(blocks[5].block_type, BlockType::Heading6);
}

#[test]
fn test_heading_height_estimates() {
    let content = "# Big Title\n\n## Subtitle\n\n### Section\n\n#### Subsection\n";
    let blocks = scan(content);
    assert_eq!(estimated_height(&blocks[0]), 106.0, "h1 height");
    assert_eq!(estimated_height(&blocks[1]), 79.0, "h2 height");
    assert_eq!(estimated_height(&blocks[2]), 66.0, "h3 height");
    assert_eq!(estimated_height(&blocks[3]), 53.0, "h4 height");
}

#[test]
fn test_heading_no_space_is_paragraph() {
    let content = "#hashtag\n\n##also-not-heading\n";
    let blocks = scan(content);
    assert_eq!(blocks.len(), 2);
    assert_eq!(blocks[0].block_type, BlockType::Paragraph);
    assert_eq!(blocks[1].block_type, BlockType::Paragraph);
}

#[test]
fn test_list_unordered_block_type() {
    let content = "Intro\n\n- item 1\n- item 2\n- item 3\n\nOutro\n";
    let blocks = scan(content);
    assert_eq!(blocks.len(), 3, "blocks: {:#?}", blocks);
    assert_eq!(blocks[0].block_type, BlockType::Paragraph);
    assert_eq!(blocks[1].block_type, BlockType::List);
    assert_eq!(blocks[2].block_type, BlockType::Paragraph);
    assert_eq!(estimated_height(&blocks[1]), 100.0);
}

#[test]
fn test_list_ordered_block_type() {
    let content = "1. First\n2. Second\n3. Third\n";
    let blocks = scan(content);
    assert_eq!(blocks.len(), 1);
    assert_eq!(blocks[0].block_type, BlockType::List);
    assert_eq!(estimated_height(&blocks[0]), 100.0);
}

#[test]
fn test_blockquote_block_type() {
    let content = "Text\n\n> Quote line 1\n> Quote line 2\n\nMore text\n";
    let blocks = scan(content);
    assert_eq!(blocks.len(), 3, "blocks: {:#?}", blocks);
    assert_eq!(blocks[1].block_type, BlockType::Blockquote);
    assert_eq!(estimated_height(&blocks[1]), 88.0);
}

#[test]
fn test_horizontal_rule_block_type() {
    let content = "Above\n\n---\n\nBelow\n";
    let blocks = scan(content);
    assert_eq!(blocks.len(), 3, "blocks: {:#?}", blocks);
    assert_eq!(blocks[0].block_type, BlockType::Paragraph);
    assert_eq!(blocks[1].block_type, BlockType::HorizontalRule);
    assert_eq!(blocks[2].block_type, BlockType::Paragraph);
    assert_eq!(estimated_height(&blocks[1]), 33.0);
}

#[test]
fn test_horizontal_rule_variants() {
    let content = "Text\n\n---\n\n***\n\n___\n";
    let blocks = scan(content);
    assert_eq!(blocks.len(), 4, "blocks: {:#?}", blocks);
    assert_eq!(blocks[1].block_type, BlockType::HorizontalRule);
    assert_eq!(blocks[2].block_type, BlockType::HorizontalRule);
    assert_eq!(blocks[3].block_type, BlockType::HorizontalRule);
}

#[test]
fn test_dash_list_vs_horizontal_rule() {
    let content = "- item 1\n- item 2\n\n---\n";
    let blocks = scan(content);
    assert_eq!(blocks.len(), 2, "blocks: {:#?}", blocks);
    assert_eq!(blocks[0].block_type, BlockType::List);
    assert_eq!(blocks[1].block_type, BlockType::HorizontalRule);
}

#[test]
fn test_yaml_frontmatter_heading_body() {
    let content = "---\ntitle: Test\ndate: 2026\n---\n\n# Heading\n\nBody\n";
    let blocks = scan(content);
    assert_eq!(blocks.len(), 3, "blocks: {:#?}", blocks);
    assert!(blocks[0].markdown.starts_with("---"));
    assert_eq!(blocks[0].block_type, BlockType::Frontmatter);
    assert_eq!(blocks[1].block_type, BlockType::Heading1);
    assert_eq!(blocks[2].block_type, BlockType::Paragraph);
}

#[test]
fn test_frontmatter_height_is_zero() {
    let content = "---\ntitle: Test\n---\n\nBody\n";
    let blocks = scan(content);
    assert_eq!(estimated_height(&blocks[0]), 0.0);
}
