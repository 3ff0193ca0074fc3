use unstablon_pkm::fts::{escape_fts_query, fts_query};
use unstablon_pkm::indexer::{
    content_kind, content_type_name, document_content, extract_content, extract_document_content,
    extract_html_content, extract_js_searchable_text, extract_module_content, html_content,
    index_entry, is_indexed_file, is_skipped_entry, module_content, squeeze, strip_html_tags,
    typed_content, ContentKind,
};
use unstablon_pkm::listing::{lex_before, sort_listed};
use unstablon_pkm::models::{image_dimensions, FileEntry, NavigationNode};
use unstablon_pkm::navigation::{
    describe_file, file_node, folder_node, is_hidden_entry, node_kind, node_title, relative_path,
    sort_children, sort_entries,
};
use unstablon_pkm::schema::{
    compact_sql, has_column, normalize_sql, table_action, table_action_for, TableAction,
};
use unstablon_pkm::watcher::{
    describe_path, is_content_file, is_content_name, is_ignored_name, is_transient_error,
    observe_path, path_to_id, should_ignore, ChangeKind, Emission, EventBatch, FileChange,
    WatchEvent, WatchLoop, WatchedPath, DEBOUNCE_MS,
};

fn s(text: &str) -> String {
    text.to_string()
}

// ── Full-text queries ──────────────────────────────────────────────────────────

#[test]
fn escape_replaces_the_special_characters() {
    assert_eq!(escape_fts_query("  say \"hi\"  "), "say \"\"hi\"\"");
    assert_eq!(escape_fts_query("a*b"), "ab");
    assert_eq!(escape_fts_query("tag:(x)[y]"), "tag  x  y");
    assert_eq!(escape_fts_query(":x:"), "x");
    assert_eq!(escape_fts_query("plain"), "plain");
    assert_eq!(escape_fts_query("***"), "");
}

#[test]
fn blank_queries_are_not_searched() {
    assert_eq!(fts_query(""), None);
    assert_eq!(fts_query(" \t\n"), None);
    assert_eq!(fts_query("note"), Some(s("note*")));
    assert_eq!(fts_query(" a:b "), Some(s("a b*")));
    assert_eq!(fts_query("*"), Some(s("*")));
}

// ── Index content ──────────────────────────────────────────────────────────────

#[test]
fn js_text_is_comments_then_literals() {
    let js = "// first comment\nlet a = 'long literal'; let b = \"abc\";\n  //second\nx('it''s')";
    assert_eq!(extract_js_searchable_text(js), "first comment second long literal");
    assert_eq!(extract_js_searchable_text(""), "");
    assert_eq!(extract_js_searchable_text("'ääx'"), "ääx");
    assert_eq!(extract_js_searchable_text("'abc'"), "");
    assert_eq!(extract_js_searchable_text("'mixed \" quote'"), "mixed \" quote");
    assert_eq!(extract_js_searchable_text("'never closed"), "");
}

#[test]
fn module_title_is_the_display_name() {
    let js = "moduleInfo = { displayName: 'Calc A', x: 1 }";
    assert_eq!(module_content(s("fallback"), js).0, "Calc A");
    assert_eq!(module_content(s("fallback"), "no name here").0, "fallback");
    assert_eq!(module_content(s("fallback"), "displayName: 'open").0, "fallback");
    assert_eq!(module_content(s("fallback"), "displayName").0, "fallback");
    let (title, body) = extract_module_content("Home/calcA.js", "// c\nv = 'text here'");
    assert_eq!(title, "calcA");
    assert_eq!(body, "c text here");
}

#[test]
fn html_tags_are_stripped() {
    assert_eq!(strip_html_tags("<p>Hello   <b>big</b>\n world</p>"), "Hello big world");
    assert_eq!(strip_html_tags("a > b < c > d"), "a b d");
    assert_eq!(strip_html_tags(""), "");
    assert_eq!(strip_html_tags("<unclosed"), "");
    let chars: Vec<char> = "  two\u{a0}\u{3000} words ".chars().collect();
    assert_eq!(squeeze(&chars), "two words");
}

#[test]
fn html_title_is_the_title_tag() {
    let html = "<html><title> My Page </title><body>text</body></html>";
    let (title, body) = html_content(s("fallback"), html);
    assert_eq!(title, "My Page");
    assert_eq!(body, "My Page text");
    assert_eq!(html_content(s("fallback"), "<title>open").0, "fallback");
    assert_eq!(html_content(s("fallback"), "<title></title>").0, "");
    assert_eq!(extract_html_content("a/page.html", "<p>x</p>").0, "page");
}

#[test]
fn document_title_is_heading_or_frontmatter() {
    assert_eq!(document_content(s("f"), "intro\n# Head \nmore").0, "Head");
    assert_eq!(document_content(s("f"), "title: 'Quoted'\n# Head").0, "Quoted");
    assert_eq!(document_content(s("f"), "# \ntitle: later").0, "later");
    assert_eq!(document_content(s("f"), "title:\n# Head").0, "");
    assert_eq!(document_content(s("f"), "nothing").0, "f");
    let (title, body) = extract_document_content("dir/notes.md", "plain\ntext");
    assert_eq!(title, "notes");
    assert_eq!(body, "plain\ntext");
}

#[test]
fn content_goes_by_its_type() {
    assert_eq!(typed_content(s("f"), "# T", "document").0, "T");
    assert_eq!(typed_content(s("f"), "<title>T</title>", "page").0, "T");
    assert_eq!(typed_content(s("f"), "displayName 'T'", "module").0, "T");
    assert_eq!(typed_content(s("f"), "# T", "other"), (s("f"), s("# T")));
    assert_eq!(extract_content("x/y.bin", "# T", "other"), (s("y"), s("# T")));
    assert_eq!(content_kind("a.js"), ContentKind::Module);
    assert_eq!(content_kind("a.min.js"), ContentKind::Document);
    assert_eq!(content_kind("a.htm"), ContentKind::Page);
    assert_eq!(content_kind("a.bin"), ContentKind::Document);
    assert_eq!(content_type_name(ContentKind::Module), "module");
    assert_eq!(content_type_name(ContentKind::Page), "page");
    assert_eq!(content_type_name(ContentKind::Document), "document");
}

#[test]
fn index_entry_describes_the_file() {
    let entry = index_entry("Vault\\Notes\\a.md", "# Title\nbody", 11, 22);
    assert_eq!(entry.path, "Vault/Notes/a.md");
    assert_eq!(entry.content_type, "document");
    assert_eq!(entry.title, "Title");
    assert_eq!(entry.body, Some(s("# Title\nbody")));
    assert_eq!(entry.modified_at, 11);
    assert_eq!(entry.indexed_at, 22);
    let entry = index_entry("Vault/Tools/calc.js", "// adds", 1, 2);
    assert_eq!(entry.id, "calc.js");
    assert_eq!(entry.content_type, "module");
    assert_eq!(entry.title, "calc");
    assert_eq!(entry.body, Some(s("adds")));
}

#[test]
fn hidden_entries_and_other_files_are_not_indexed() {
    assert!(is_skipped_entry(".git"));
    assert!(is_skipped_entry("_drafts"));
    assert!(!is_skipped_entry("notes"));
    assert!(!is_skipped_entry(""));
    assert!(is_indexed_file("a.md"));
    assert!(is_indexed_file("a.txt"));
    assert!(is_indexed_file("a.js"));
    assert!(is_indexed_file("a.html"));
    assert!(!is_indexed_file("a.min.js"));
    assert!(!is_indexed_file("a.png"));
}

// ── Schema ─────────────────────────────────────────────────────────────────────

#[test]
fn sql_is_compared_in_normal_form() {
    assert_eq!(compact_sql("CREATE  TABLE\r\n  t (\n a TEXT\n)"), "CREATE TABLE t ( a TEXT )");
    assert_eq!(compact_sql("a\rb"), "ab");
    assert_eq!(normalize_sql(" CREATE\tTable T "), "create table t");
}

#[test]
fn table_action_follows_the_definition_on_disk() {
    let want = "CREATE TABLE height_cache (\n note_id TEXT,\n node_id TEXT,\n timestamp INTEGER,\n PRIMARY KEY (note_id, node_id)\n)";
    assert_eq!(table_action(None, want), TableAction::Create);
    assert_eq!(table_action(Some(want), want), TableAction::Keep);
    assert_eq!(
        table_action(Some("create table height_cache ( note_id text, node_id text, timestamp integer, primary key (note_id, node_id) )"), want),
        TableAction::Keep
    );
    assert_eq!(
        table_action(Some("CREATE TABLE height_cache (note_id TEXT, node_id TEXT, extra INT, timestamp INT, PRIMARY KEY(note_id,node_id))"), want),
        TableAction::Keep
    );
    assert_eq!(
        table_action(Some("CREATE TABLE height_cache (node_id TEXT PRIMARY KEY, timestamp INT)"), want),
        TableAction::Recreate
    );
    assert_eq!(
        table_action(Some("CREATE TABLE t (note_id TEXT, node_id TEXT, PRIMARY KEY (note_id, node_id))"), want),
        TableAction::Recreate
    );
    assert_eq!(table_action_for(Some("same"), "same"), TableAction::Keep);
    assert_eq!(table_action_for(Some("SAME"), "same"), TableAction::Recreate);
}

#[test]
fn columns_are_found_whatever_their_case() {
    let names = vec![s("Note_ID"), s("height")];
    assert!(has_column(&names, "note_id"));
    assert!(has_column(&names, "HEIGHT"));
    assert!(!has_column(&names, "source"));
    assert!(!has_column(&vec![], "x"));
}

// ── Watcher ────────────────────────────────────────────────────────────────────

fn watched(path: &str, mtime: Option<u64>) -> WatchedPath {
    observe_path(path, mtime)
}

fn change(kind: ChangeKind, paths: &[(&str, Option<u64>)]) -> FileChange {
    FileChange { kind, paths: paths.iter().map(|(p, m)| watched(p, *m)).collect() }
}

#[test]
fn paths_are_described_by_their_file_name() {
    assert!(is_content_file("Home/Notes/a.md"));
    assert!(is_content_file("b.js"));
    assert!(!is_content_file("c.txt"));
    assert!(!is_content_file("dir/.md"));
    assert!(!is_content_file("md"));
    assert!(!is_content_file(""));
    assert_eq!(path_to_id("Home/Notes/example.md"), "example.md");
    assert_eq!(path_to_id(""), "");
    assert_eq!(path_to_id("a/.."), "a/..");
    assert!(is_content_name(&Some(s("x.y.md"))));
    assert!(!is_content_name(&Some(s("x.md.bak"))));
    assert!(!is_content_name(&None));
    assert!(is_ignored_name(&Some(s(".hidden"))));
    assert!(is_ignored_name(&Some(s("~lock"))));
    assert!(is_ignored_name(&Some(s("a.tmp"))));
    assert!(is_ignored_name(&Some(s("a.swp"))));
    assert!(!is_ignored_name(&Some(s("a.md"))));
    assert!(!is_ignored_name(&None));
    let p = describe_path("dir/a.md", Some(s("a.md")), Some(7));
    assert_eq!(p.path, "dir/a.md");
    assert_eq!(p.note_id, "a.md");
    assert!(p.is_content);
    assert!(!p.ignored);
    assert_eq!(p.mtime, Some(7));
    let p = describe_path("dir", None, None);
    assert_eq!(p.note_id, "dir");
    assert!(!p.is_content);
}

#[test]
fn transient_errors_are_file_and_path_not_found() {
    assert!(is_transient_error(Some(2)));
    assert!(is_transient_error(Some(3)));
    assert!(!is_transient_error(Some(5)));
    assert!(!is_transient_error(None));
}

#[test]
fn events_on_ignored_paths_are_ignored() {
    assert!(should_ignore(&change(ChangeKind::Modify, &[("a.md", None), ("dir/.a.md.swp", None)])));
    assert!(!should_ignore(&change(ChangeKind::Modify, &[("a.md", None)])));
    assert!(!should_ignore(&change(ChangeKind::Modify, &[])));
}

#[test]
fn batch_gathers_events() {
    let mut batch = EventBatch::new();
    assert!(batch.is_empty());
    batch.add(&change(ChangeKind::Other, &[("a.md", Some(1))]));
    assert!(batch.is_empty());
    batch.add(&change(ChangeKind::Modify, &[("a.md", Some(1)), ("gone.md", None), ("a.md", Some(5))]));
    assert!(!batch.is_empty());
    assert!(!batch.nav_changed);
    batch.add(&change(ChangeKind::Remove, &[("x.md", None), ("y.png", None), ("z.js", None)]));
    batch.add(&change(ChangeKind::RenameBoth, &[("old.md", None), ("new.txt", None)]));
    batch.add(&change(ChangeKind::RenameBoth, &[("p.png", None), ("q.png", None)]));
    batch.add(&change(ChangeKind::RenameBoth, &[("lonely.md", None)]));
    batch.add(&change(ChangeKind::RenameTo, &[("early.md", None)]));
    batch.add(&change(ChangeKind::RenameFrom, &[("from.png", None)]));
    batch.add(&change(ChangeKind::RenameTo, &[]));
    batch.add(&change(ChangeKind::RenameTo, &[("to.md", None)]));
    batch.add(&change(ChangeKind::RenameTo, &[("again.md", None)]));
    let out = batch.emissions();
    assert_eq!(out.len(), 6);
    match &out[0] {
        Emission::Renamed(p) => {
            assert_eq!(p.old_path, "old.md");
            assert_eq!(p.new_path, "new.txt");
            assert_eq!(p.old_note_id, "old.md");
            assert_eq!(p.new_note_id, "new.txt");
        }
        other => panic!("unexpected {:?}", other),
    }
    match &out[1] {
        Emission::Renamed(p) => {
            assert_eq!(p.old_path, "from.png");
            assert_eq!(p.new_path, "to.md");
        }
        other => panic!("unexpected {:?}", other),
    }
    match (&out[2], &out[3]) {
        (Emission::Deleted(a), Emission::Deleted(b)) => {
            assert_eq!(a.path, "x.md");
            assert_eq!(a.note_id, "x.md");
            assert_eq!(b.path, "z.js");
        }
        other => panic!("unexpected {:?}", other),
    }
    assert!(matches!(out[4], Emission::VaultChanged));
    match &out[5] {
        Emission::Modified(p) => {
            assert_eq!(p.path, "a.md");
            assert_eq!(p.mtime, 5);
        }
        other => panic!("unexpected {:?}", other),
    }
    batch.clear();
    assert!(batch.is_empty());
    assert_eq!(batch.emissions().len(), 0);
}

#[test]
fn rename_from_alone_notifies_only_the_tree() {
    let mut batch = EventBatch::new();
    batch.add(&change(ChangeKind::RenameFrom, &[("a.md", None)]));
    let out = batch.emissions();
    assert_eq!(out.len(), 1);
    assert!(matches!(out[0], Emission::VaultChanged));
    batch.add(&change(ChangeKind::Create, &[("b.md", None)]));
    batch.add(&change(ChangeKind::RenameOther, &[("c.md", None)]));
    assert_eq!(batch.emissions().len(), 1);
}

#[test]
fn loop_sends_the_batch_at_the_deadline() {
    let mut watch = WatchLoop::new();
    assert_eq!(watch.deadline, None);
    let step = watch.handle(WatchEvent::Change(change(ChangeKind::Modify, &[("a.md", Some(3))])), 1_000);
    assert!(!step.stop && !step.report && step.emit.is_empty());
    assert_eq!(watch.deadline, Some(1_000 + DEBOUNCE_MS));
    assert_eq!(DEBOUNCE_MS, 800);
    let step = watch.handle(WatchEvent::Change(change(ChangeKind::Create, &[(".tmpfile", None)])), 1_500);
    assert!(step.emit.is_empty());
    assert_eq!(watch.deadline, Some(1_800));
    let step = watch.handle(WatchEvent::Change(change(ChangeKind::Create, &[("b.md", None)])), 1_600);
    assert!(step.emit.is_empty());
    assert_eq!(watch.deadline, Some(2_400));
    let step = watch.handle(WatchEvent::Failure(Some(2)), 1_700);
    assert!(!step.report && !step.stop);
    let step = watch.handle(WatchEvent::Failure(Some(13)), 1_700);
    assert!(step.report && !step.stop);
    assert_eq!(watch.deadline, Some(2_400));
    let step = watch.handle(WatchEvent::Deadline, 2_400);
    assert!(!step.stop);
    assert_eq!(step.emit.len(), 2);
    assert!(matches!(step.emit[0], Emission::VaultChanged));
    assert!(matches!(step.emit[1], Emission::Modified(_)));
    assert_eq!(watch.deadline, None);
    assert!(watch.batch.is_empty());
    let step = watch.handle(WatchEvent::Change(change(ChangeKind::Create, &[("c.md", None)])), u64::MAX - 1);
    assert!(step.emit.is_empty());
    assert_eq!(watch.deadline, Some(u64::MAX));
    let step = watch.handle(WatchEvent::Cancelled, 0);
    assert!(step.stop);
    assert_eq!(step.emit.len(), 1);
    let step = WatchLoop::new().handle(WatchEvent::Cancelled, 0);
    assert!(step.stop && step.emit.is_empty());
}

// ── Listings and navigation ────────────────────────────────────────────────────

fn entry(name: &str, is_directory: bool) -> FileEntry {
    FileEntry {
        name: s(name),
        path: format!("root/{}", name),
        is_directory,
        is_file: !is_directory,
        modified_at: None,
    }
}

#[test]
fn lexicographic_order_of_characters() {
    let c = |t: &str| t.chars().collect::<Vec<char>>();
    assert!(lex_before(&c(""), &c("")));
    assert!(lex_before(&c(""), &c("a")));
    assert!(!lex_before(&c("a"), &c("")));
    assert!(lex_before(&c("abc"), &c("abd")));
    assert!(!lex_before(&c("abd"), &c("abc")));
    assert!(lex_before(&c("ab"), &c("abc")));
    assert!(lex_before(&c("Z"), &c("a")));
    assert!(lex_before(&c("z"), &c("é")));
}

#[test]
fn entries_list_directories_first_then_by_name() {
    let sorted = sort_entries(vec![
        entry("zeta.md", false),
        entry("Beta", true),
        entry("alpha.md", false),
        entry("Alpha.md", false),
        entry("gamma", true),
        entry("ALPHA", true),
    ]);
    let names: Vec<&str> = sorted.iter().map(|e| e.name.as_str()).collect();
    assert_eq!(names, vec!["ALPHA", "Beta", "gamma", "alpha.md", "Alpha.md", "zeta.md"]);
    assert_eq!(sort_entries(vec![]).len(), 0);
    assert_eq!(sort_listed(vec![entry("only", false)]).len(), 1);
}

#[test]
fn relative_paths_are_seen_from_the_vault() {
    assert_eq!(relative_path("C:/Vault/Notes/a.md", "C:/Vault"), "Notes/a.md");
    assert_eq!(relative_path("C:/Vault//a.md", "C:/Vault"), "a.md");
    assert_eq!(relative_path("C:/Vault", "C:/Vault"), "");
    assert_eq!(relative_path("D:/Other/a.md", "C:/Vault"), "D:/Other/a.md");
    assert_eq!(relative_path("C:/Vaults/a.md", "C:/Vault"), "s/a.md");
}

#[test]
fn files_become_nodes_by_their_kind() {
    assert_eq!(node_kind("a.js"), Some(ContentKind::Module));
    assert_eq!(node_kind("a.min.js"), None);
    assert_eq!(node_kind("a.html"), Some(ContentKind::Page));
    assert_eq!(node_kind("a.txt"), Some(ContentKind::Document));
    assert_eq!(node_kind("a.png"), None);
    assert!(is_hidden_entry(".obsidian"));
    assert!(is_hidden_entry("_private"));
    assert!(!is_hidden_entry("Notes"));
    assert_eq!(node_title(Some("# From Content"), s("fallback")), "From Content");
    assert_eq!(node_title(Some("no title"), s("fallback")), "fallback");
    assert_eq!(node_title(None, s("fallback")), "fallback");

    match describe_file("a.md", "V/Notes/a.md", "V", Some("# Title")) {
        Some(NavigationNode::Document(d)) => {
            assert_eq!(d.id, "a.md");
            assert_eq!(d.name, "a.md");
            assert_eq!(d.path, "Notes/a.md");
            assert_eq!(d.file, "Notes/a.md");
            assert_eq!(d.title, "Title");
        }
        other => panic!("unexpected {:?}", other),
    }
    match describe_file("calc.js", "V/calc.js", "V", None) {
        Some(NavigationNode::Module(m)) => {
            assert_eq!(m.title, "calc");
            assert!(m.tags.is_empty());
        }
        other => panic!("unexpected {:?}", other),
    }
    assert!(matches!(
        describe_file("p.htm", "V/p.htm", "V", Some("<h1>P</h1>")),
        Some(NavigationNode::Page(_))
    ));
    assert!(describe_file("a.png", "V/a.png", "V", None).is_none());
    assert!(matches!(
        file_node(ContentKind::Page, s("i"), "n", s("r"), s("t")),
        NavigationNode::Page(_)
    ));
}

#[test]
fn folders_sort_their_children() {
    let children = vec![
        describe_file("b.md", "V/D/b.md", "V", None).unwrap(),
        NavigationNode::Folder(folder_node("Sub", "V/D/Sub", "V", vec![])),
        describe_file("A.md", "V/D/A.md", "V", None).unwrap(),
    ];
    let folder = folder_node("D", "V/D", "V", children);
    assert_eq!(folder.node_type, "folder");
    assert_eq!(folder.name, "D");
    assert_eq!(folder.path, "D");
    assert_eq!(folder.children.len(), 3);
    assert!(matches!(&folder.children[0], NavigationNode::Folder(f) if f.path == "D/Sub"));
    assert!(matches!(&folder.children[1], NavigationNode::Document(d) if d.name == "A.md"));
    assert!(matches!(&folder.children[2], NavigationNode::Document(d) if d.name == "b.md"));
    assert_eq!(folder_node("Home", "V", "V", vec![]).path, "Home");
    assert_eq!(sort_children(vec![]).len(), 0);
}

#[test]
fn image_dimensions_need_both_sides() {
    assert_eq!(image_dimensions(Some(3), Some(4)), Some((3, 4)));
    assert_eq!(image_dimensions(Some(3), None), None);
    assert_eq!(image_dimensions(None, Some(4)), None);
    assert_eq!(image_dimensions(None, None), None);
}
