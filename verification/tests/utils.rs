use unstablon_pkm::utils::{
    extract_title_from_content, is_document_file, is_module_file, is_page_file, normalize_path,
    path_to_id, path_to_title,
};

#[test]
fn test_path_to_id() {
    assert_eq!(path_to_id("Home/Tools/calcA.js"), "calcA.js");
    assert_eq!(path_to_id("test-module.js"), "test-module.js");
    assert_eq!(path_to_id("test-markdown.md"), "test-markdown.md");
    assert_eq!(path_to_id("test_markdown.md"), "test_markdown.md");
}

#[test]
fn test_path_to_title() {
    assert_eq!(path_to_title("Home/Tools/calcA.js"), "calcA");
    assert_eq!(path_to_title("test-markdown.md"), "test-markdown");
}

#[test]
fn test_is_module_file() {
    assert!(is_module_file("test.js"));
    assert!(!is_module_file("test.min.js"));
    assert!(!is_module_file("test.ts"));
}

#[test]
fn path_without_file_name_has_default_id_and_title() {
    assert_eq!(path_to_id(""), "unknown");
    assert_eq!(path_to_id("a/.."), "unknown");
    assert_eq!(path_to_title(""), "Untitled");
}

#[test]
fn title_is_the_stem_of_the_file_name() {
    assert_eq!(path_to_title("dir/archive.tar.gz"), "archive.tar");
    assert_eq!(path_to_title("dir/.hidden"), ".hidden");
    assert_eq!(path_to_title("dir/plain"), "plain");
    assert_eq!(path_to_title("dir/trailing."), "trailing");
}

#[test]
fn page_and_document_files_go_by_extension() {
    assert!(is_page_file("index.html"));
    assert!(is_page_file("index.htm"));
    assert!(!is_page_file("index.md"));
    assert!(is_document_file("notes.md"));
    assert!(is_document_file("notes.txt"));
    assert!(!is_document_file("notes.js"));
    assert!(!is_document_file("md"));
}

#[test]
fn normalize_path_turns_backslashes() {
    assert_eq!(normalize_path("C:\\Vault\\a\\b.md"), "C:/Vault/a/b.md");
    assert_eq!(normalize_path("already/fine"), "already/fine");
    assert_eq!(normalize_path(""), "");
}

#[test]
fn title_from_frontmatter() {
    let content = "---\ntitle: \"My Note\"\ndate: 2026\n---\n\n# Heading\n";
    assert_eq!(extract_title_from_content(content), Some("My Note".to_string()));
}

#[test]
fn title_from_heading() {
    assert_eq!(
        extract_title_from_content("intro\n\n#   The Heading  \nbody\n"),
        Some("The Heading".to_string())
    );
}

#[test]
fn heading_inside_frontmatter_is_no_title() {
    let content = "---\n# not a title\n---\n# Real\n";
    assert_eq!(extract_title_from_content(content), Some("Real".to_string()));
}

#[test]
fn title_from_html() {
    assert_eq!(
        extract_title_from_content("<body>\n  <h1 class=\"x\"> Page </h1>\n</body>"),
        Some("Page".to_string())
    );
}

#[test]
fn empty_frontmatter_title_falls_through() {
    let content = "---\ntitle: ''\n---\n# After\n";
    assert_eq!(extract_title_from_content(content), Some("After".to_string()));
}

#[test]
fn no_title_in_plain_text() {
    assert_eq!(extract_title_from_content("just\nsome\ntext\n"), None);
    assert_eq!(extract_title_from_content(""), None);
    assert_eq!(extract_title_from_content("#\n# \n<h1></h1>\n"), None);
}

#[test]
fn carriage_returns_do_not_hide_titles() {
    assert_eq!(
        extract_title_from_content("---\r\ntitle: T\r\n---\r\n"),
        Some("T".to_string())
    );
}
