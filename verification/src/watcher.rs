//! Decisions of the vault watcher.
//!
//! The watcher turns the file events of the platform into a few
//! notifications for the editor. Events that follow each other closely are
//! gathered into a batch, which is sent once no event has come for a while.
//! Here stand the rules: what an event adds to the batch, what a batch
//! sends and in which order, and when. Watching the file system and
//! waiting are left to the caller.

use vstd::prelude::*;
use vstd::string::*;

use crate::registry::{lists, Registry};
use crate::text::{chars_of, has_suffix};
use crate::utils::{
    file_name, last_dot, names_file_of, str_ends_with, text_of,
};

verus! {

/// A batch is sent when no event has come for this many milliseconds.
pub const DEBOUNCE_MS: u64 = 800;

// ── Paths ──────────────────────────────────────────────────────────────────────

/// The extension of a file name: what follows its last `.`, where that is
/// not its first character.
pub open spec fn extension_of(name: Seq<char>) -> Option<Seq<char>> {
    let dot = last_dot(name, name.len() as int);
    if dot <= 0 {
        None
    } else {
        Some(name.subrange(dot + 1, name.len() as int))
    }
}

/// Whether a file of the given name holds content: markdown or a module.
pub open spec fn content_name(name: Option<Seq<char>>) -> bool {
    match name {
        Some(n) => extension_of(n) == Some("md"@) || extension_of(n) == Some("js"@),
        None => false,
    }
}

/// Whether events on a file of the given name are ignored: hidden files,
/// lock files and temporary files.
pub open spec fn ignored_name(name: Option<Seq<char>>) -> bool {
    match name {
        Some(n) => (n.len() > 0 && (n[0] == '.' || n[0] == '~')) || has_suffix(n, ".tmp"@)
            || has_suffix(n, ".swp"@),
        None => false,
    }
}

/// The note id of a path with the given file name: the name, or the path
/// itself without one.
pub open spec fn note_id_of(name: Option<Seq<char>>, path: Seq<char>) -> Seq<char> {
    match name {
        Some(n) => n,
        None => path,
    }
}

/// A path named by a file event, with what its file name says of it.
#[derive(Debug)]
pub struct WatchedPath {
    pub path: String,
    /// The id of the note at the path.
    pub note_id: String,
    /// Whether the path is that of a content file.
    pub is_content: bool,
    /// Whether events on the path are ignored.
    pub ignored: bool,
    /// The modification time in milliseconds, where the path is that of a
    /// file whose modification time could be read.
    pub mtime: Option<u64>,
}

/// The mathematical value of a [`WatchedPath`].
pub struct PathView {
    pub path: Seq<char>,
    pub note_id: Seq<char>,
    pub is_content: bool,
    pub ignored: bool,
    pub mtime: Option<u64>,
}

impl View for WatchedPath {
    type V = PathView;

    open spec fn view(&self) -> PathView {
        PathView {
            path: self.path@,
            note_id: self.note_id@,
            is_content: self.is_content,
            ignored: self.ignored,
            mtime: self.mtime,
        }
    }
}

/// The values of `paths`, in order.
pub open spec fn path_views(paths: Seq<WatchedPath>) -> Seq<PathView> {
    Seq::new(paths.len(), |i: int| paths[i]@)
}

/// What a path with the given file name is to the watcher.
pub open spec fn described(path: Seq<char>, name: Option<Seq<char>>, mtime: Option<u64>) -> PathView {
    PathView {
        path,
        note_id: note_id_of(name, path),
        is_content: content_name(name),
        ignored: ignored_name(name),
        mtime,
    }
}

/// Whether a file of the given name holds content.
pub fn is_content_name(name: &Option<String>) -> (r: bool)
    ensures
        r == content_name(text_of(*name)),
{
    match name {
        Some(n) => {
            let chars = chars_of(n.as_str());
            let mut dot: usize = chars.len();
            while dot > 0 && chars[dot - 1] != '.'
                invariant
                    dot <= chars.len(),
                    last_dot(chars@, chars@.len() as int) == last_dot(chars@, dot as int),
                decreases dot,
            {
                dot = dot - 1;
            }
            if dot <= 1 {
                return false;
            }
            let ext = &chars.as_slice()[dot..chars.len()];
            let md = chars_of("md");
            let js = chars_of("js");
            crate::text::same_chars(ext, md.as_slice()) || crate::text::same_chars(
                ext,
                js.as_slice(),
            )
        },
        None => false,
    }
}

/// Whether events on a file of the given name are ignored.
pub fn is_ignored_name(name: &Option<String>) -> (r: bool)
    ensures
        r == ignored_name(text_of(*name)),
{
    match name {
        Some(n) => {
            let chars = chars_of(n.as_str());
            (chars.len() > 0 && (chars[0] == '.' || chars[0] == '~')) || str_ends_with(
                chars.as_slice(),
                ".tmp",
            ) || str_ends_with(chars.as_slice(), ".swp")
        },
        None => false,
    }
}

/// What the path `path` with the file name `name` is to the watcher.
pub fn describe_path(path: &str, name: Option<String>, mtime: Option<u64>) -> (p: WatchedPath)
    ensures
        p@ == described(path@, text_of(name), mtime),
{
    let is_content = is_content_name(&name);
    let ignored = is_ignored_name(&name);
    let note_id = match name {
        Some(n) => n,
        None => path.to_owned(),
    };
    WatchedPath { path: path.to_owned(), note_id, is_content, ignored, mtime }
}

/// What the path `path` is to the watcher. `mtime` is its modification
/// time in milliseconds where it is that of a file.
pub fn observe_path(path: &str, mtime: Option<u64>) -> (p: WatchedPath)
    ensures
        exists|name: Option<Seq<char>>| #[trigger]
            names_file_of(name, path@) && p@ == described(path@, name, mtime),
{
    let name = file_name(path);
    assert(names_file_of(text_of(name), path@));
    describe_path(path, name, mtime)
}

/// Check if path is a content file (.md or .js module)
pub fn is_content_file(path: &str) -> (r: bool)
    ensures
        exists|name: Option<Seq<char>>| #[trigger]
            names_file_of(name, path@) && r == content_name(name),
{
    let name = file_name(path);
    assert(names_file_of(text_of(name), path@));
    is_content_name(&name)
}

/// Convert filesystem path to note ID: the file name with its extension.
pub fn path_to_id(path: &str) -> (id: String)
    ensures
        exists|name: Option<Seq<char>>| #[trigger]
            names_file_of(name, path@) && id@ == note_id_of(name, path@),
{
    let name = file_name(path);
    assert(names_file_of(text_of(name), path@));
    match name {
        Some(n) => n,
        None => path.to_owned(),
    }
}

/// Check if error is transient (common during atomic saves): the operating
/// system reports that the file or the path was not found.
pub fn is_transient_error(os_error: Option<i32>) -> (r: bool)
    ensures
        r == (os_error == Some(2i32) || os_error == Some(3i32)),
{
    match os_error {
        Some(code) => code == 2 || code == 3,
        None => false,
    }
}

// ── Events and notifications ───────────────────────────────────────────────────

/// The kind of a file event.
#[derive(Debug, Clone, Copy, PartialEq, Eq, Structural)]
pub enum ChangeKind {
    /// Something was created.
    Create,
    /// Something was removed.
    Remove,
    /// A rename, reported with the old and the new path.
    RenameBoth,
    /// The first half of a rename: the old path.
    RenameFrom,
    /// The second half of a rename: the new path.
    RenameTo,
    /// A rename reported in another way.
    RenameOther,
    /// Content or metadata was modified.
    Modify,
    /// Anything else.
    Other,
}

/// A file event: its kind and the paths it names.
#[derive(Debug)]
pub struct FileChange {
    pub kind: ChangeKind,
    pub paths: Vec<WatchedPath>,
}

#[derive(Debug, Clone)]
pub struct FileModifiedPayload {
    pub path: String,
    pub mtime: u64,
}

#[derive(Debug, Clone)]
pub struct FileDeletedPayload {
    pub path: String,
    pub note_id: String,
}

#[derive(Debug, Clone)]
pub struct FileRenamedPayload {
    pub old_path: String,
    pub new_path: String,
    pub old_note_id: String,
    pub new_note_id: String,
}

/// A notification for the editor.
#[derive(Debug)]
pub enum Emission {
    Renamed(FileRenamedPayload),
    Deleted(FileDeletedPayload),
    VaultChanged,
    Modified(FileModifiedPayload),
}

/// The mathematical value of an [`Emission`].
pub enum EmissionView {
    Renamed { old_path: Seq<char>, new_path: Seq<char>, old_note_id: Seq<char>, new_note_id: Seq<char> },
    Deleted { path: Seq<char>, note_id: Seq<char> },
    VaultChanged,
    Modified { path: Seq<char>, mtime: u64 },
}

impl View for Emission {
    type V = EmissionView;

    open spec fn view(&self) -> EmissionView {
        match self {
            Emission::Renamed(p) => EmissionView::Renamed {
                old_path: p.old_path@,
                new_path: p.new_path@,
                old_note_id: p.old_note_id@,
                new_note_id: p.new_note_id@,
            },
            Emission::Deleted(p) => EmissionView::Deleted { path: p.path@, note_id: p.note_id@ },
            Emission::VaultChanged => EmissionView::VaultChanged,
            Emission::Modified(p) => EmissionView::Modified { path: p.path@, mtime: p.mtime },
        }
    }
}

/// The values of `emissions`, in order.
pub open spec fn emission_views(emissions: Seq<Emission>) -> Seq<EmissionView> {
    Seq::new(emissions.len(), |i: int| emissions[i]@)
}

/// The notification that `p` was deleted.
pub open spec fn deleted(p: PathView) -> EmissionView {
    EmissionView::Deleted { path: p.path, note_id: p.note_id }
}

/// The notification that `from` was renamed to `to`.
pub open spec fn renamed(from: PathView, to: PathView) -> EmissionView {
    EmissionView::Renamed {
        old_path: from.path,
        new_path: to.path,
        old_note_id: from.note_id,
        new_note_id: to.note_id,
    }
}

/// A copy of `e`.
fn copy_emission(e: &Emission) -> (r: Emission)
    ensures
        r@ == e@,
{
    match e {
        Emission::Renamed(p) => Emission::Renamed(
            FileRenamedPayload {
                old_path: p.old_path.clone(),
                new_path: p.new_path.clone(),
                old_note_id: p.old_note_id.clone(),
                new_note_id: p.new_note_id.clone(),
            },
        ),
        Emission::Deleted(p) => Emission::Deleted(
            FileDeletedPayload { path: p.path.clone(), note_id: p.note_id.clone() },
        ),
        Emission::VaultChanged => Emission::VaultChanged,
        Emission::Modified(p) => Emission::Modified(
            FileModifiedPayload { path: p.path.clone(), mtime: p.mtime },
        ),
    }
}

/// A copy of `p`.
fn copy_path(p: &WatchedPath) -> (r: WatchedPath)
    ensures
        r@ == p@,
{
    WatchedPath {
        path: p.path.clone(),
        note_id: p.note_id.clone(),
        is_content: p.is_content,
        ignored: p.ignored,
        mtime: p.mtime,
    }
}

/// The notification that `p` was deleted.
fn deleted_emission(p: &WatchedPath) -> (r: Emission)
    ensures
        r@ == deleted(p@),
{
    Emission::Deleted(FileDeletedPayload { path: p.path.clone(), note_id: p.note_id.clone() })
}

/// The notification that `from` was renamed to `to`.
fn renamed_emission(from: &WatchedPath, to: &WatchedPath) -> (r: Emission)
    ensures
        r@ == renamed(from@, to@),
{
    Emission::Renamed(
        FileRenamedPayload {
            old_path: from.path.clone(),
            new_path: to.path.clone(),
            old_note_id: from.note_id.clone(),
            new_note_id: to.note_id.clone(),
        },
    )
}

/// Filter out events we don't care about: those that name an ignored path.
pub fn should_ignore(change: &FileChange) -> (r: bool)
    ensures
        r == any_ignored(path_views(change.paths@)),
{
    let mut i: usize = 0;
    while i < change.paths.len()
        invariant
            i <= change.paths.len(),
            forall|j: int| 0 <= j < i ==> !(#[trigger] path_views(change.paths@)[j]).ignored,
        decreases change.paths.len() - i,
    {
        if change.paths[i].ignored {
            assert(path_views(change.paths@)[i as int].ignored);
            return true;
        }
        i = i + 1;
    }
    false
}

/// Whether any of `paths` is ignored.
pub open spec fn any_ignored(paths: Seq<PathView>) -> bool {
    exists|i: int| 0 <= i < paths.len() && (#[trigger] paths[i]).ignored
}

// ── The batch ──────────────────────────────────────────────────────────────────

/// The events gathered since the last notifications.
pub struct EventBatch {
    /// Whether the navigation tree has changed.
    pub nav_changed: bool,
    /// Modified files, each with its modification time.
    pub modifications: Registry<u64>,
    /// Deleted content files.
    pub deletions: Vec<Emission>,
    /// Renamed files.
    pub renames: Vec<Emission>,
    /// The old path of a rename whose new path has not come yet.
    pub pending_rename_from: Option<WatchedPath>,
}

/// The mathematical value of an [`EventBatch`].
pub struct BatchView {
    pub nav_changed: bool,
    pub modifications: Map<Seq<char>, u64>,
    pub deletions: Seq<EmissionView>,
    pub renames: Seq<EmissionView>,
    pub pending: Option<PathView>,
}

impl View for EventBatch {
    type V = BatchView;

    open spec fn view(&self) -> BatchView {
        BatchView {
            nav_changed: self.nav_changed,
            modifications: self.modifications@,
            deletions: emission_views(self.deletions@),
            renames: emission_views(self.renames@),
            pending: match self.pending_rename_from {
                Some(p) => Some(p@),
                None => None,
            },
        }
    }
}

/// The batch that holds nothing.
pub open spec fn empty_batch() -> BatchView {
    BatchView {
        nav_changed: false,
        modifications: Map::empty(),
        deletions: Seq::empty(),
        renames: Seq::empty(),
        pending: None,
    }
}

/// The deletions that the removal of `paths` notifies: one for each content
/// file, in order.
pub open spec fn deletions_of(paths: Seq<PathView>) -> Seq<EmissionView>
    decreases paths.len(),
{
    if paths.len() == 0 {
        Seq::empty()
    } else if paths.last().is_content {
        deletions_of(paths.drop_last()).push(deleted(paths.last()))
    } else {
        deletions_of(paths.drop_last())
    }
}

/// The modification times after `paths` were modified: each path whose
/// modification time is known has it, the later of two for one path.
pub open spec fn modified_by(mods: Map<Seq<char>, u64>, paths: Seq<PathView>) -> Map<Seq<char>, u64>
    decreases paths.len(),
{
    if paths.len() == 0 {
        mods
    } else {
        match paths.last().mtime {
            Some(t) => modified_by(mods, paths.drop_last()).insert(paths.last().path, t),
            None => modified_by(mods, paths.drop_last()),
        }
    }
}

/// The batch after an event of the kind `kind` on `paths`.
pub open spec fn batch_after(b: BatchView, kind: ChangeKind, paths: Seq<PathView>) -> BatchView {
    match kind {
        ChangeKind::Create => BatchView { nav_changed: true, ..b },
        ChangeKind::Remove => BatchView {
            nav_changed: true,
            deletions: b.deletions + deletions_of(paths),
            ..b
        },
        ChangeKind::RenameBoth => BatchView {
            nav_changed: true,
            renames: if paths.len() >= 2 && (paths[0].is_content || paths[1].is_content) {
                b.renames.push(renamed(paths[0], paths[1]))
            } else {
                b.renames
            },
            ..b
        },
        ChangeKind::RenameFrom => BatchView {
            nav_changed: true,
            pending: if paths.len() >= 1 {
                Some(paths[0])
            } else {
                b.pending
            },
            ..b
        },
        ChangeKind::RenameTo => if paths.len() >= 1 && b.pending.is_some() {
            BatchView {
                nav_changed: true,
                pending: None,
                renames: if b.pending.unwrap().is_content || paths[0].is_content {
                    b.renames.push(renamed(b.pending.unwrap(), paths[0]))
                } else {
                    b.renames
                },
                ..b
            }
        } else {
            BatchView { nav_changed: true, ..b }
        },
        ChangeKind::RenameOther => BatchView { nav_changed: true, ..b },
        ChangeKind::Modify => BatchView { modifications: modified_by(b.modifications, paths), ..b },
        ChangeKind::Other => b,
    }
}

/// Whether `out` is what the batch `b` notifies: the renames first, then
/// the deletions, then the change of the navigation tree, then every
/// modification once, in some order.
pub open spec fn notifies(out: Seq<EmissionView>, b: BatchView) -> bool {
    let head = b.renames + b.deletions + if b.nav_changed {
        seq![EmissionView::VaultChanged]
    } else {
        Seq::empty()
    };
    &&& out.len() == head.len() + b.modifications.len()
    &&& b.modifications.dom().finite()
    &&& out.subrange(0, head.len() as int) == head
    &&& forall|i: int|
        head.len() <= i < out.len() ==> (#[trigger] out[i]) is Modified
            && b.modifications.contains_key(out[i]->Modified_path) && b.modifications[out[i]->Modified_path]
            == out[i]->Modified_mtime
    &&& forall|i: int, j: int|
        head.len() <= i < j < out.len() ==> (#[trigger] out[i])->Modified_path != (
        #[trigger] out[j])->Modified_path
}

impl EventBatch {
    /// A batch that holds nothing.
    pub fn new() -> (b: Self)
        ensures
            b@ == empty_batch(),
    {
        let b = EventBatch {
            nav_changed: false,
            modifications: Registry::new(),
            deletions: Vec::new(),
            renames: Vec::new(),
            pending_rename_from: None,
        };
        assert(b@.deletions =~= Seq::<EmissionView>::empty());
        assert(b@.renames =~= Seq::<EmissionView>::empty());
        b
    }

    /// Adds what the event `change` says.
    pub fn add(&mut self, change: &FileChange)
        ensures
            final(self)@ == batch_after(old(self)@, change.kind, path_views(change.paths@)),
    {
        let ghost paths = path_views(change.paths@);
        let ghost before = self@;
        match change.kind {
            ChangeKind::Create => {
                self.nav_changed = true;
            },
            ChangeKind::Remove => {
                self.nav_changed = true;
                let mut i: usize = 0;
                assert(paths.take(0) =~= Seq::<PathView>::empty());
                assert(before.deletions + deletions_of(paths.take(0)) =~= before.deletions);
                while i < change.paths.len()
                    invariant
                        i <= change.paths.len(),
                        paths == path_views(change.paths@),
                        emission_views(self.deletions@) == before.deletions + deletions_of(
                            paths.take(i as int),
                        ),
                        self.nav_changed,
                        self.modifications@ == before.modifications,
                        emission_views(self.renames@) == before.renames,
                        self@.pending == before.pending,
                    decreases change.paths.len() - i,
                {
                    let p = &change.paths[i];
                    let ghost had = emission_views(self.deletions@);
                    if p.is_content {
                        self.deletions.push(deleted_emission(p));
                        assert(emission_views(self.deletions@) =~= had.push(deleted(p@)));
                    }
                    i = i + 1;
                    proof {
                        assert(paths.take(i as int).drop_last() =~= paths.take(i - 1));
                        assert(paths.take(i as int).last() == p@);
                        if p.is_content {
                            assert(had.push(deleted(p@)) =~= before.deletions + deletions_of(
                                paths.take(i as int),
                            ));
                        }
                    }
                }
                assert(paths.take(paths.len() as int) =~= paths);
            },
            ChangeKind::RenameBoth => {
                self.nav_changed = true;
                if change.paths.len() >= 2 {
                    let old_path = &change.paths[0];
                    let new_path = &change.paths[1];
                    if old_path.is_content || new_path.is_content {
                        let ghost had = emission_views(self.renames@);
                        self.renames.push(renamed_emission(old_path, new_path));
                        assert(emission_views(self.renames@) =~= had.push(
                            renamed(paths[0], paths[1]),
                        ));
                    }
                }
            },
            ChangeKind::RenameFrom => {
                self.nav_changed = true;
                if change.paths.len() >= 1 {
                    self.pending_rename_from = Some(copy_path(&change.paths[0]));
                }
            },
            ChangeKind::RenameTo => {
                self.nav_changed = true;
                if change.paths.len() >= 1 {
                    let new_path = &change.paths[0];
                    let mut from: Option<WatchedPath> = None;
                    core::mem::swap(&mut from, &mut self.pending_rename_from);
                    match from {
                        Some(from_path) => {
                            if from_path.is_content || new_path.is_content {
                                let ghost had = emission_views(self.renames@);
                                self.renames.push(renamed_emission(&from_path, new_path));
                                assert(emission_views(self.renames@) =~= had.push(
                                    renamed(from_path@, paths[0]),
                                ));
                            }
                        },
                        None => {},
                    }
                }
            },
            ChangeKind::RenameOther => {
                self.nav_changed = true;
            },
            ChangeKind::Modify => {
                let mut i: usize = 0;
                assert(paths.take(0) =~= Seq::<PathView>::empty());
                while i < change.paths.len()
                    invariant
                        i <= change.paths.len(),
                        paths == path_views(change.paths@),
                        self.modifications@ == modified_by(
                            before.modifications,
                            paths.take(i as int),
                        ),
                        self.nav_changed == before.nav_changed,
                        emission_views(self.deletions@) == before.deletions,
                        emission_views(self.renames@) == before.renames,
                        self@.pending == before.pending,
                    decreases change.paths.len() - i,
                {
                    let p = &change.paths[i];
                    match p.mtime {
                        Some(t) => {
                            self.modifications.insert(p.path.clone(), t);
                        },
                        None => {},
                    }
                    i = i + 1;
                    proof {
                        assert(paths.take(i as int).drop_last() =~= paths.take(i - 1));
                        assert(paths.take(i as int).last() == p@);
                    }
                }
                assert(paths.take(paths.len() as int) =~= paths);
            },
            ChangeKind::Other => {},
        }
    }

    /// Whether the batch has nothing to notify.
    pub fn is_empty(&self) -> (r: bool)
        ensures
            r == (!self@.nav_changed && self@.modifications == Map::<Seq<char>, u64>::empty()
                && self@.deletions.len() == 0 && self@.renames.len() == 0),
    {
        proof {
            self.modifications.lemma_size();
        }
        !self.nav_changed && self.modifications.len() == 0 && self.deletions.len() == 0
            && self.renames.len() == 0
    }

    /// Empties the batch.
    pub fn clear(&mut self)
        ensures
            final(self)@ == empty_batch(),
    {
        self.nav_changed = false;
        self.modifications = Registry::new();
        self.deletions = Vec::new();
        self.renames = Vec::new();
        self.pending_rename_from = None;
        assert(self@.deletions =~= Seq::<EmissionView>::empty());
        assert(self@.renames =~= Seq::<EmissionView>::empty());
    }

    /// The notifications of the batch, in the order in which they are to
    /// be sent.
    pub fn emissions(&self) -> (out: Vec<Emission>)
        ensures
            notifies(emission_views(out@), self@),
    {
        let mut out: Vec<Emission> = Vec::new();
        let ghost renames = emission_views(self.renames@);
        let ghost deletions = emission_views(self.deletions@);
        let mut i: usize = 0;
        while i < self.renames.len()
            invariant
                i <= self.renames.len(),
                renames == emission_views(self.renames@),
                emission_views(out@) =~= renames.take(i as int),
            decreases self.renames.len() - i,
        {
            let ghost had = emission_views(out@);
            out.push(copy_emission(&self.renames[i]));
            assert(emission_views(out@) =~= had.push(renames[i as int]));
            i = i + 1;
            assert(renames.take(i as int) =~= renames.take(i - 1).push(renames[i - 1]));
        }
        assert(renames.take(self.renames@.len() as int) =~= renames);
        let mut i: usize = 0;
        while i < self.deletions.len()
            invariant
                i <= self.deletions.len(),
                renames == emission_views(self.renames@),
                deletions == emission_views(self.deletions@),
                emission_views(out@) =~= renames + deletions.take(i as int),
            decreases self.deletions.len() - i,
        {
            let ghost had = emission_views(out@);
            out.push(copy_emission(&self.deletions[i]));
            assert(emission_views(out@) =~= had.push(deletions[i as int]));
            i = i + 1;
            assert(deletions.take(i as int) =~= deletions.take(i - 1).push(deletions[i - 1]));
        }
        assert(deletions.take(self.deletions@.len() as int) =~= deletions);
        let ghost listed = emission_views(out@);
        if self.nav_changed {
            out.push(Emission::VaultChanged);
            assert(emission_views(out@) =~= listed.push(EmissionView::VaultChanged));
        }
        let ghost head = emission_views(out@);
        assert(head =~= renames + deletions + if self.nav_changed {
            seq![EmissionView::VaultChanged]
        } else {
            Seq::empty()
        });
        let list = self.modifications.snapshot();
        proof {
            lemma_listed_len(list@, self.modifications@);
        }
        let mut i: usize = 0;
        while i < list.len()
            invariant
                i <= list.len(),
                out@.len() == head.len() + i,
                emission_views(out@).subrange(0, head.len() as int) =~= head,
                lists(list@, self.modifications@),
                forall|j: int|
                    0 <= j < i ==> (#[trigger] emission_views(out@)[head.len() + j])
                        == (EmissionView::Modified { path: list@[j].0@, mtime: list@[j].1 }),
            decreases list.len() - i,
        {
            let ghost had = emission_views(out@);
            out.push(
                Emission::Modified(
                    FileModifiedPayload { path: list[i].0.clone(), mtime: list[i].1 },
                ),
            );
            assert forall|j: int| 0 <= j < i implies (#[trigger] emission_views(out@)[head.len()
                + j]) == (EmissionView::Modified { path: list@[j].0@, mtime: list@[j].1 }) by {
                assert(emission_views(out@)[head.len() + j] == had[head.len() + j]);
            }
            assert(emission_views(out@).subrange(0, head.len() as int) =~= had.subrange(
                0,
                head.len() as int,
            ));
            i = i + 1;
        }
        proof {
            let views = emission_views(out@);
            assert forall|a: int| head.len() <= a < views.len() implies (#[trigger] views[a])
                == (EmissionView::Modified {
                path: list@[a - head.len()].0@,
                mtime: list@[a - head.len()].1,
            }) by {
                assert(views[head.len() + (a - head.len())] == views[a]);
            }
            assert forall|a: int, b: int| head.len() <= a < b < views.len() implies (
            #[trigger] views[a])->Modified_path != (#[trigger] views[b])->Modified_path by {
                let x = a - head.len();
                let y = b - head.len();
                assert(crate::registry::keys_of(list@)[x] != crate::registry::keys_of(list@)[y]);
            }
        }
        out
    }
}

/// A list of the entries of a map is as long as the map is large, and the
/// map is finite.
proof fn lemma_listed_len(list: Seq<(String, u64)>, map: Map<Seq<char>, u64>)
    requires
        lists(list, map),
    ensures
        map.dom().finite(),
        map.len() == list.len(),
    decreases list.len(),
{
    if list.len() == 0 {
        assert forall|k: Seq<char>| !map.contains_key(k) by {
            if map.contains_key(k) {
                let i = choose|i: int| 0 <= i < list.len() && (#[trigger] list[i]).0@ == k;
            }
        }
        assert(map.dom() =~= Set::<Seq<char>>::empty());
    } else {
        let last = list.last();
        let rest = list.drop_last();
        let smaller = map.remove(last.0@);
        assert(crate::registry::keys_of(rest) =~= crate::registry::keys_of(list).drop_last());
        assert forall|i: int| 0 <= i < rest.len() implies smaller.contains_key(
            (#[trigger] rest[i]).0@,
        ) && smaller[rest[i].0@] == rest[i].1 by {
            assert(rest[i] == list[i]);
            assert(crate::registry::keys_of(list)[i] != crate::registry::keys_of(list)[list.len()
                - 1]);
        }
        assert forall|k: Seq<char>| #[trigger] smaller.contains_key(k) implies exists|i: int|
            0 <= i < rest.len() && (#[trigger] rest[i]).0@ == k by {
            assert(map.contains_key(k));
            let i = choose|i: int| 0 <= i < list.len() && (#[trigger] list[i]).0@ == k;
            assert(i < list.len() - 1);
            assert(rest[i].0@ == k);
        }
        assert forall|i: int, j: int| 0 <= i < j < rest.len() implies crate::registry::keys_of(
            rest,
        )[i] != crate::registry::keys_of(rest)[j] by {
            assert(crate::registry::keys_of(list)[i] != crate::registry::keys_of(list)[j]);
        }
        lemma_listed_len(rest, smaller);
        assert(map.contains_key(list[list.len() - 1].0@));
        assert(map.dom() =~= smaller.dom().insert(last.0@));
    }
}

// ── The event loop ─────────────────────────────────────────────────────────────

/// What can happen to the watcher.
#[derive(Debug)]
pub enum WatchEvent {
    /// The watcher was told to stop.
    Cancelled,
    /// The deadline of the batch was reached.
    Deadline,
    /// The file system reported an event.
    Change(FileChange),
    /// The file system reported an error, with the code of the operating
    /// system where there is one.
    Failure(Option<i32>),
}

/// What the caller is to do after an event.
#[derive(Debug)]
pub struct WatchStep {
    /// The notifications to send, in order.
    pub emit: Vec<Emission>,
    /// Whether the loop ends.
    pub stop: bool,
    /// Whether the error is to be reported.
    pub report: bool,
}

/// The state of the event loop: the batch and the time at which it is to
/// be sent, if any event is waiting.
pub struct WatchLoop {
    pub batch: EventBatch,
    pub deadline: Option<u64>,
}

/// The deadline of a batch whose last event came at `now_ms`.
pub open spec fn deadline_after(now_ms: u64) -> u64 {
    if now_ms + DEBOUNCE_MS <= u64::MAX {
        (now_ms + DEBOUNCE_MS) as u64
    } else {
        u64::MAX
    }
}

impl WatchLoop {
    /// A loop with an empty batch and no deadline.
    pub fn new() -> (w: Self)
        ensures
            w.batch@ == empty_batch(),
            w.deadline.is_none(),
    {
        WatchLoop { batch: EventBatch::new(), deadline: None }
    }

    /// Takes the event `event`, which came at `now_ms`.
    ///
    /// When the watcher is cancelled, what is waiting is sent and the loop
    /// ends. When the deadline is reached, the batch is sent and emptied.
    /// An event of the file system that names no ignored path joins the
    /// batch and moves the deadline; an error is reported unless it is
    /// transient.
    pub fn handle(&mut self, event: WatchEvent, now_ms: u64) -> (step: WatchStep)
        ensures
            match event {
                WatchEvent::Cancelled => {
                    &&& step.stop
                    &&& !step.report
                    &&& notifies(emission_views(step.emit@), old(self).batch@)
                    &&& final(self).batch@ == old(self).batch@
                    &&& final(self).deadline == old(self).deadline
                },
                WatchEvent::Deadline => {
                    &&& !step.stop
                    &&& !step.report
                    &&& notifies(emission_views(step.emit@), old(self).batch@)
                    &&& final(self).batch@ == empty_batch()
                    &&& final(self).deadline.is_none()
                },
                WatchEvent::Change(change) => {
                    &&& !step.stop
                    &&& !step.report
                    &&& step.emit@.len() == 0
                    &&& if any_ignored(path_views(change.paths@)) {
                        final(self).batch@ == old(self).batch@ && final(self).deadline == old(
                            self,
                        ).deadline
                    } else {
                        final(self).batch@ == batch_after(
                            old(self).batch@,
                            change.kind,
                            path_views(change.paths@),
                        ) && final(self).deadline == Some(deadline_after(now_ms))
                    }
                },
                WatchEvent::Failure(os_error) => {
                    &&& !step.stop
                    &&& step.report == !(os_error == Some(2i32) || os_error == Some(3i32))
                    &&& step.emit@.len() == 0
                    &&& final(self).batch@ == old(self).batch@
                    &&& final(self).deadline == old(self).deadline
                },
            },
    {
        match event {
            WatchEvent::Cancelled => {
                let emit = self.batch.emissions();
                WatchStep { emit, stop: true, report: false }
            },
            WatchEvent::Deadline => {
                let emit = self.batch.emissions();
                self.batch.clear();
                self.deadline = None;
                WatchStep { emit, stop: false, report: false }
            },
            WatchEvent::Change(change) => {
                if !should_ignore(&change) {
                    self.batch.add(&change);
                    self.deadline = Some(
                        if now_ms <= u64::MAX - DEBOUNCE_MS {
                            now_ms + DEBOUNCE_MS
                        } else {
                            u64::MAX
                        },
                    );
                }
                WatchStep { emit: Vec::new(), stop: false, report: false }
            },
            WatchEvent::Failure(os_error) => {
                WatchStep { emit: Vec::new(), stop: false, report: !is_transient_error(os_error) }
            },
        }
    }
}

} // verus!
