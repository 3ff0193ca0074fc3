//! Data models shared by the services around the block store.

use vstd::prelude::*;

verus! {

/// File entry of a directory listing.
#[derive(Debug, Clone)]
pub struct FileEntry {
    pub name: String,
    pub path: String,
    pub is_directory: bool,
    pub is_file: bool,
    pub modified_at: Option<u64>,
}

/// Navigation node types
#[derive(Debug)]
pub enum NavigationNode {
    Folder(FolderNode),
    Module(ModuleNode),
    Page(PageNode),
    Document(DocumentNode),
}

/// Folder node containing children
#[derive(Debug)]
pub struct FolderNode {
    pub node_type: String,
    pub name: String,
    pub path: String,
    pub children: Vec<NavigationNode>,
}

/// Module node (JavaScript file)
#[derive(Debug, Clone)]
pub struct ModuleNode {
    pub id: String,
    pub name: String,
    pub path: String,
    pub title: String,
    pub file: String,
    pub tags: Vec<String>,
}

/// Page node (HTML file)
#[derive(Debug, Clone)]
pub struct PageNode {
    pub id: String,
    pub name: String,
    pub path: String,
    pub title: String,
    pub file: String,
}

/// Document node (Markdown/text file)
#[derive(Debug, Clone)]
pub struct DocumentNode {
    pub id: String,
    pub name: String,
    pub path: String,
    pub title: String,
    pub file: String,
}

/// Content index entry
#[derive(Debug, Clone)]
pub struct ContentIndexEntry {
    pub id: String,
    pub path: String,
    pub title: String,
    pub content_type: String,
    pub body: Option<String>,
    pub modified_at: u64,
    pub indexed_at: u64,
}

/// What the layout knows of one node of a note.
#[derive(Debug, Clone)]
pub struct NodeManifest {
    pub node_id: String,
    pub node_type: String,
    pub text_content: String,
    pub level: Option<u8>,
    pub line_count: Option<u32>,
    pub row_count: Option<u32>,
    pub col_count: Option<u32>,
    pub image_dimensions: Option<(u32, u32)>,
    pub font_override: Option<String>,
}

/// The dimensions of an image whose width and height are stored apart:
/// known where both are.
pub fn image_dimensions(width: Option<u32>, height: Option<u32>) -> (r: Option<(u32, u32)>)
    ensures
        r == match (width, height) {
            (Some(w), Some(h)) => Some((w, h)),
            _ => None,
        },
{
    match (width, height) {
        (Some(w), Some(h)) => Some((w, h)),
        _ => None,
    }
}

} // verus!
