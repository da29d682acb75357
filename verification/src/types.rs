//! The records of an index and of the daemon's state.

use vstd::prelude::*;

use crate::text::{optional_text, texts};

verus! {

/// What git says of a project.
#[derive(Debug, Clone, PartialEq, Eq)]
pub struct GitProjectState {
    pub is_git: bool,
    pub root_exists: bool,
    pub branch: Option<String>,
    pub head_sha: Option<String>,
}

/// What a git state holds.
pub struct GitView {
    pub is_git: bool,
    pub root_exists: bool,
    pub branch: Option<Seq<char>>,
    pub head_sha: Option<Seq<char>>,
}

impl View for GitProjectState {
    type V = GitView;

    open spec fn view(&self) -> GitView {
        GitView {
            is_git: self.is_git,
            root_exists: self.root_exists,
            branch: optional_text(self.branch),
            head_sha: optional_text(self.head_sha),
        }
    }
}

/// What the daemon reports of itself.
#[derive(Debug, Clone, PartialEq, Eq)]
pub struct AutoIndexStatus {
    pub enabled: bool,
    pub running: bool,
    pub tracked_projects: usize,
    pub queued_projects: usize,
    pub indexing_projects: Vec<String>,
    pub last_error: Option<String>,
}

/// What a daemon status holds.
pub struct StatusView {
    pub enabled: bool,
    pub running: bool,
    pub tracked_projects: int,
    pub queued_projects: int,
    pub indexing_projects: Seq<Seq<char>>,
    pub last_error: Option<Seq<char>>,
}

impl View for AutoIndexStatus {
    type V = StatusView;

    open spec fn view(&self) -> StatusView {
        StatusView {
            enabled: self.enabled,
            running: self.running,
            tracked_projects: self.tracked_projects as int,
            queued_projects: self.queued_projects as int,
            indexing_projects: texts(self.indexing_projects@),
            last_error: optional_text(self.last_error),
        }
    }
}

/// An indexed file.
#[derive(Debug, Clone)]
pub struct FileEntry {
    pub path: String,
    pub bytes: u64,
    pub lines: usize,
    pub text: String,
}

/// What a file entry holds.
pub struct FileView {
    pub path: Seq<char>,
    pub bytes: int,
    pub lines: int,
    pub text: Seq<char>,
}

impl View for FileEntry {
    type V = FileView;

    open spec fn view(&self) -> FileView {
        FileView {
            path: self.path@,
            bytes: self.bytes as int,
            lines: self.lines as int,
            text: self.text@,
        }
    }
}

/// A symbol that a file declares.
#[derive(Debug, Clone)]
pub struct SymbolEntry {
    pub name: String,
    pub label: String,
    pub file: String,
    pub line: usize,
}

/// What a symbol entry holds.
pub struct SymbolView {
    pub name: Seq<char>,
    pub label: Seq<char>,
    pub file: Seq<char>,
    pub line: int,
}

impl View for SymbolEntry {
    type V = SymbolView;

    open spec fn view(&self) -> SymbolView {
        SymbolView {
            name: self.name@,
            label: self.label@,
            file: self.file@,
            line: self.line as int,
        }
    }
}

/// The index of one project.
#[derive(Debug, Clone)]
pub struct ClabIndex {
    pub project: String,
    pub root_path: String,
    pub status: String,
    pub files: Vec<FileEntry>,
    pub symbols: Vec<SymbolEntry>,
    pub indexed_at: u64,
    pub git: GitProjectState,
}

/// What an index holds.
pub struct IndexView {
    pub project: Seq<char>,
    pub root_path: Seq<char>,
    pub status: Seq<char>,
    pub files: Seq<FileView>,
    pub symbols: Seq<SymbolView>,
    pub indexed_at: int,
    pub git: GitView,
}

/// What the file entries in a sequence hold.
pub open spec fn file_views(files: Seq<FileEntry>) -> Seq<FileView> {
    files.map_values(|f: FileEntry| f@)
}

/// What the symbol entries in a sequence hold.
pub open spec fn symbol_views(symbols: Seq<SymbolEntry>) -> Seq<SymbolView> {
    symbols.map_values(|s: SymbolEntry| s@)
}

/// What the indexes in a sequence hold.
pub open spec fn index_views(indexes: Seq<ClabIndex>) -> Seq<IndexView> {
    indexes.map_values(|i: ClabIndex| i@)
}

impl View for ClabIndex {
    type V = IndexView;

    open spec fn view(&self) -> IndexView {
        IndexView {
            project: self.project@,
            root_path: self.root_path@,
            status: self.status@,
            files: file_views(self.files@),
            symbols: symbol_views(self.symbols@),
            indexed_at: self.indexed_at as int,
            git: self.git@,
        }
    }
}

} // verus!
