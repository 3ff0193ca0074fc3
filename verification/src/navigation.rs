//! Building blocks of the navigation tree and of directory listings.
//!
//! Walking the file system is left to the caller. Here stands what the
//! walk makes of what it finds: which files become nodes and of which
//! kind, which title and path a node gets, and in which order nodes and
//! entries are listed.

use vstd::prelude::*;
use vstd::string::*;

use crate::indexer::{title_or, ContentKind};
use crate::listing::{in_order, is_listing_of, sort_listed, Listed};
use crate::models::{
    DocumentNode, FileEntry, FolderNode, ModuleNode, NavigationNode, PageNode,
};
use crate::text::{
    chars_of, has_prefix, has_suffix, skip_char, skip_chars, starts_with, string_of, to_lowercase,
};
use crate::utils::{
    extract_title_from_content, is_document_file, is_module_file, is_page_file, is_path_id,
    is_path_title, path_to_id, path_to_title, tail, tail_of, title_of_content,
};

verus! {

// ── Order ──────────────────────────────────────────────────────────────────────

impl Listed for FileEntry {
    open spec fn leads(&self) -> bool {
        self.is_directory
    }

    open spec fn label(&self) -> Seq<char> {
        self.name@
    }

    fn is_leading(&self) -> (r: bool) {
        self.is_directory
    }

    fn sort_key(&self) -> (key: Vec<char>) {
        let low = to_lowercase(self.name.as_str());
        chars_of(low.as_str())
    }
}

/// The name of a node.
pub open spec fn node_name(node: NavigationNode) -> Seq<char> {
    match node {
        NavigationNode::Folder(f) => f.name@,
        NavigationNode::Module(m) => m.name@,
        NavigationNode::Page(p) => p.name@,
        NavigationNode::Document(d) => d.name@,
    }
}

impl Listed for NavigationNode {
    open spec fn leads(&self) -> bool {
        self is Folder
    }

    open spec fn label(&self) -> Seq<char> {
        node_name(*self)
    }

    fn is_leading(&self) -> (r: bool) {
        match self {
            NavigationNode::Folder(_) => true,
            _ => false,
        }
    }

    fn sort_key(&self) -> (key: Vec<char>) {
        let low = match self {
            NavigationNode::Folder(f) => to_lowercase(f.name.as_str()),
            NavigationNode::Module(m) => to_lowercase(m.name.as_str()),
            NavigationNode::Page(p) => to_lowercase(p.name.as_str()),
            NavigationNode::Document(d) => to_lowercase(d.name.as_str()),
        };
        chars_of(low.as_str())
    }
}

/// The entries of a directory in the order of a listing: directories
/// first, then by name without regard to case.
pub fn sort_entries(entries: Vec<FileEntry>) -> (out: Vec<FileEntry>)
    ensures
        out@.to_multiset() == entries@.to_multiset(),
        in_order(out@),
        is_listing_of(out@, entries@),
{
    sort_listed(entries)
}

/// The children of a folder in the order of the tree: folders first, then
/// by name without regard to case.
pub fn sort_children(children: Vec<NavigationNode>) -> (out: Vec<NavigationNode>)
    ensures
        out@.to_multiset() == children@.to_multiset(),
        in_order(out@),
        is_listing_of(out@, children@),
{
    sort_listed(children)
}

// ── Paths ──────────────────────────────────────────────────────────────────────

/// The path `path` as seen from the vault at `vault_root`: what follows
/// the root, without the slashes at its start; all of `path` where it does
/// not start with the root.
pub open spec fn relative_to(path: Seq<char>, vault_root: Seq<char>) -> Seq<char> {
    if has_prefix(path, vault_root) {
        let rest = tail(path, vault_root.len() as int);
        rest.subrange(skip_char(rest, '/', 0), rest.len() as int)
    } else {
        path
    }
}

/// The path of a folder in the tree: its relative path, or `Home` for the
/// vault itself.
pub open spec fn folder_path_of(relative: Seq<char>) -> Seq<char> {
    if relative.len() == 0 {
        "Home"@
    } else {
        relative
    }
}

/// The path `path`, given with forward slashes, as seen from the vault at
/// `vault_root`.
pub fn relative_path(path: &str, vault_root: &str) -> (out: String)
    ensures
        out@ == relative_to(path@, vault_root@),
{
    let p = chars_of(path);
    let root = chars_of(vault_root);
    if starts_with(p.as_slice(), root.as_slice()) {
        let rest = tail_of(p.as_slice(), root.len());
        let k = skip_chars(rest, '/', 0);
        string_of(&rest[k..rest.len()])
    } else {
        path.to_owned()
    }
}

/// Whether a directory entry named `name` is left out of the tree: hidden
/// files and special directories, whose names start with `.` or `_`.
pub fn is_hidden_entry(name: &str) -> (r: bool)
    ensures
        r == (name@.len() > 0 && (name@[0] == '.' || name@[0] == '_')),
{
    let chars = chars_of(name);
    chars.len() > 0 && (chars[0] == '.' || chars[0] == '_')
}

// ── Nodes ──────────────────────────────────────────────────────────────────────

/// The kind of node that the file at `path` becomes: a module, a page or a
/// document by its extension, or none.
pub open spec fn node_kind_of(path: Seq<char>) -> Option<ContentKind> {
    if has_suffix(path, ".js"@) && !has_suffix(path, ".min.js"@) {
        Some(ContentKind::Module)
    } else if has_suffix(path, ".html"@) || has_suffix(path, ".htm"@) {
        Some(ContentKind::Page)
    } else if has_suffix(path, ".md"@) || has_suffix(path, ".txt"@) {
        Some(ContentKind::Document)
    } else {
        None
    }
}

/// The kind of node that the file at `path` becomes.
pub fn node_kind(path: &str) -> (kind: Option<ContentKind>)
    ensures
        kind == node_kind_of(path@),
{
    if is_module_file(path) {
        Some(ContentKind::Module)
    } else if is_page_file(path) {
        Some(ContentKind::Page)
    } else if is_document_file(path) {
        Some(ContentKind::Document)
    } else {
        None
    }
}

/// The title of a node: that of its content where the content could be
/// read and declares one, else `fallback`.
pub open spec fn node_title_of(content: Option<Seq<char>>, fallback: Seq<char>) -> Seq<char> {
    match content {
        Some(c) => title_or(title_of_content(c), fallback),
        None => fallback,
    }
}

/// The title of a node whose file name gives the title `fallback`.
/// `content` is the text of the file where it could be read.
pub fn node_title(content: Option<&str>, fallback: String) -> (title: String)
    ensures
        title@ == node_title_of(
            match content {
                Some(c) => Some(c@),
                None => None,
            },
            fallback@,
        ),
{
    match content {
        Some(c) => match extract_title_from_content(c) {
            Some(title) => title,
            None => fallback,
        },
        None => fallback,
    }
}

/// Whether `node` is the node of the given kind for a file with the given
/// id, name, relative path and title.
pub open spec fn is_file_node(
    node: NavigationNode,
    kind: ContentKind,
    id: Seq<char>,
    name: Seq<char>,
    relative: Seq<char>,
    title: Seq<char>,
) -> bool {
    match node {
        NavigationNode::Module(m) => kind == ContentKind::Module && m.id@ == id && m.name@ == name
            && m.path@ == relative && m.title@ == title && m.file@ == relative && m.tags@.len()
            == 0,
        NavigationNode::Page(p) => kind == ContentKind::Page && p.id@ == id && p.name@ == name
            && p.path@ == relative && p.title@ == title && p.file@ == relative,
        NavigationNode::Document(d) => kind == ContentKind::Document && d.id@ == id && d.name@
            == name && d.path@ == relative && d.title@ == title && d.file@ == relative,
        NavigationNode::Folder(_) => false,
    }
}

/// The node of the given kind for a file with the given id, name, relative
/// path and title.
pub fn file_node(kind: ContentKind, id: String, name: &str, relative: String, title: String) -> (node:
    NavigationNode)
    ensures
        is_file_node(node, kind, id@, name@, relative@, title@),
{
    match kind {
        ContentKind::Module => NavigationNode::Module(
            ModuleNode {
                id,
                name: name.to_owned(),
                path: relative.clone(),
                title,
                file: relative,
                tags: Vec::new(),
            },
        ),
        ContentKind::Page => NavigationNode::Page(
            PageNode { id, name: name.to_owned(), path: relative.clone(), title, file: relative },
        ),
        ContentKind::Document => NavigationNode::Document(
            DocumentNode {
                id,
                name: name.to_owned(),
                path: relative.clone(),
                title,
                file: relative,
            },
        ),
    }
}

/// Whether `node` is what the file named `name` at `path` in the vault at
/// `vault_root` becomes, with the text `content` where it could be read:
/// nothing for a file of no kind; else the node of its kind, with an id
/// and a fallback title that `path` can have.
pub open spec fn is_node_of(
    node: Option<NavigationNode>,
    name: Seq<char>,
    path: Seq<char>,
    vault_root: Seq<char>,
    content: Option<Seq<char>>,
) -> bool {
    match node {
        None => node_kind_of(path).is_none(),
        Some(n) => node_kind_of(path).is_some() && exists|id: Seq<char>, fallback: Seq<char>|
            #![trigger is_path_id(id, path), is_path_title(fallback, path)]
            is_path_id(id, path) && is_path_title(fallback, path) && is_file_node(
                n,
                node_kind_of(path).unwrap(),
                id,
                name,
                relative_to(path, vault_root),
                node_title_of(content, fallback),
            ),
    }
}

/// The node that the file named `name` at `path` becomes, if any. `path`
/// and `vault_root` are given with forward slashes; `content` is the text
/// of the file where it could be read.
pub fn describe_file(name: &str, path: &str, vault_root: &str, content: Option<&str>) -> (node:
    Option<NavigationNode>)
    ensures
        is_node_of(
            node,
            name@,
            path@,
            vault_root@,
            match content {
                Some(c) => Some(c@),
                None => None,
            },
        ),
{
    let kind = match node_kind(path) {
        Some(kind) => kind,
        None => {
            return None;
        },
    };
    let fallback = path_to_title(path);
    let ghost fallback_text = fallback@;
    let title = node_title(content, fallback);
    let id = path_to_id(path);
    let relative = relative_path(path, vault_root);
    let node = file_node(kind, id, name, relative, title);
    assert(is_path_id(id@, path@) && is_path_title(fallback_text, path@));
    Some(node)
}

/// The folder named `name` at `path`, given with forward slashes, in the
/// vault at `vault_root`, with the children `children`, which are put in
/// the order of the tree.
pub fn folder_node(name: &str, path: &str, vault_root: &str, children: Vec<NavigationNode>) -> (folder:
    FolderNode)
    ensures
        folder.node_type@ == "folder"@,
        folder.name@ == name@,
        folder.path@ == folder_path_of(relative_to(path@, vault_root@)),
        folder.children@.to_multiset() == children@.to_multiset(),
        in_order(folder.children@),
        is_listing_of(folder.children@, children@),
{
    let relative = relative_path(path, vault_root);
    let chars = chars_of(relative.as_str());
    let folder_path = if chars.len() == 0 {
        String::from_str("Home")
    } else {
        relative
    };
    FolderNode {
        node_type: String::from_str("folder"),
        name: name.to_owned(),
        path: folder_path,
        children: sort_children(children),
    }
}

} // verus!
