//! The store of indexes and the tools that answer from it.

use vstd::prelude::*;

use crate::architecture::{architecture_map, architecture_of};
use crate::git::{
    entries_printed, entry_views, git_status_entries, listed_paths, maybe_limit_paths,
    summarize_change_state, change_summary, GitRun, GitStatusEntry, StatusEntryView,
};
use crate::json::{
    lemma_array_view, optional_text_view, or_empty, views, JsonObject, JsonValue, JsonView,
};
use crate::paths::{
    clab_home, file_in, file_path, home_directory, is_absolute, join_path, joined_path,
};
use crate::scanner::{
    extract_symbols, project_name, project_name_of, symbols_follow_lines, symbols_in,
};
use crate::seqs::{first_of, lemma_filter_step, lemma_first_of_prefix};
use crate::text::{
    contains, ends_with, finishes_with, has_text, lines, lines_of, lowercase, optional_str,
    optional_text, same_text, stands_at, texts,
};
use crate::types::{
    file_views, index_views, symbol_views, ClabIndex, FileEntry, FileView, GitProjectState, GitView,
    IndexView, SymbolEntry, SymbolView,
};
use crate::util::{
    index_summary, opt_str, opt_usize, required_str, size_fits, size_or, str_or_empty, summary,
    text_array, text_array_view, total_size, window, window_of, ToolError, ToolErrorView,
};

verus! {

/// How many paths a change report lists where the call does not say.
pub const DEFAULT_CHANGE_FILE_LIMIT: usize = 50;

/// How many results a search gives where the call does not say.
pub const DEFAULT_SEARCH_LIMIT: usize = 8;

/// How many lines a snippet shows before and after a symbol.
pub const DEFAULT_SNIPPET_RADIUS: usize = 6;

/// How many components an architecture map lists where the call does not say.
pub const DEFAULT_ARCHITECTURE_COMPONENTS: usize = 8;

/// How many hot spots an architecture map lists where the call does not say.
pub const DEFAULT_ARCHITECTURE_HOTSPOTS: usize = 5;

/// The store of indexes, each in a file of one directory.
#[derive(Debug, Clone)]
pub struct ClabStore {
    pub root: String,
}

// ---------------------------------------------------------------------------
// Calls
// ---------------------------------------------------------------------------

/// What a search looks for: a text in lowercase, in one project or in all.
#[derive(Debug, Clone, PartialEq, Eq)]
pub struct SearchRequest {
    pub pattern: String,
    pub limit: usize,
    pub project: Option<String>,
}

/// What a snippet is taken for: a symbol, in one project or in all.
#[derive(Debug, Clone, PartialEq, Eq)]
pub struct SnippetRequest {
    pub name: String,
    pub project: Option<String>,
}

/// A tool call with its arguments read.
#[derive(Debug, Clone, PartialEq, Eq)]
pub enum ToolCall {
    IndexRepository(String),
    IndexStatus(String),
    ListProjects,
    DeleteProject(String),
    DetectChanges,
    SearchGraph(SearchRequest),
    SearchCode(SearchRequest),
    GetCodeSnippet(SnippetRequest),
    GetArchitecture,
}

/// What a search request holds.
pub struct SearchView {
    pub pattern: Seq<char>,
    pub limit: usize,
    pub project: Option<Seq<char>>,
}

/// What a snippet request holds.
pub struct SnippetView {
    pub name: Seq<char>,
    pub project: Option<Seq<char>>,
}

/// What a tool call holds.
pub enum CallView {
    IndexRepository(Seq<char>),
    IndexStatus(Seq<char>),
    ListProjects,
    DeleteProject(Seq<char>),
    DetectChanges,
    SearchGraph(SearchView),
    SearchCode(SearchView),
    GetCodeSnippet(SnippetView),
    GetArchitecture,
}

impl View for SearchRequest {
    type V = SearchView;

    open spec fn view(&self) -> SearchView {
        SearchView {
            pattern: self.pattern@,
            limit: self.limit,
            project: optional_text(self.project),
        }
    }
}

impl View for SnippetRequest {
    type V = SnippetView;

    open spec fn view(&self) -> SnippetView {
        SnippetView { name: self.name@, project: optional_text(self.project) }
    }
}

impl View for ToolCall {
    type V = CallView;

    open spec fn view(&self) -> CallView {
        match self {
            ToolCall::IndexRepository(path) => CallView::IndexRepository(path@),
            ToolCall::IndexStatus(project) => CallView::IndexStatus(project@),
            ToolCall::ListProjects => CallView::ListProjects,
            ToolCall::DeleteProject(project) => CallView::DeleteProject(project@),
            ToolCall::DetectChanges => CallView::DetectChanges,
            ToolCall::SearchGraph(request) => CallView::SearchGraph(request@),
            ToolCall::SearchCode(request) => CallView::SearchCode(request@),
            ToolCall::GetCodeSnippet(request) => CallView::GetCodeSnippet(request@),
            ToolCall::GetArchitecture => CallView::GetArchitecture,
        }
    }
}

/// The symbol that a snippet is asked for: by its qualified name or else by its name.
pub open spec fn snippet_name(args: JsonView) -> Seq<char> {
    match args.text_at("qualified_name"@) {
        Some(name) => name,
        None => or_empty(args.text_at("name"@)),
    }
}

/// The call that a tool name and its arguments make, or why they make none.
pub open spec fn call_of(tool: Seq<char>, args: JsonView) -> Result<CallView, ToolErrorView> {
    let project = args.text_at("project"@);
    if tool == "index_repository"@ {
        Ok(
            CallView::IndexRepository(
                match args.text_at("repo_path"@) {
                    Some(path) => path,
                    None => "."@,
                },
            ),
        )
    } else if tool == "index_status"@ {
        match project {
            Some(p) => Ok(CallView::IndexStatus(p)),
            None => Err(ToolErrorView::Required("project"@)),
        }
    } else if tool == "list_projects"@ {
        Ok(CallView::ListProjects)
    } else if tool == "delete_project"@ {
        match project {
            Some(p) => Ok(CallView::DeleteProject(p)),
            None => Err(ToolErrorView::Required("project"@)),
        }
    } else if tool == "detect_changes"@ {
        Ok(CallView::DetectChanges)
    } else if tool == "search_graph"@ {
        Ok(
            CallView::SearchGraph(
                SearchView {
                    pattern: lowercase(or_empty(args.text_at("query"@))),
                    limit: size_or(args, "limit"@, DEFAULT_SEARCH_LIMIT),
                    project,
                },
            ),
        )
    } else if tool == "search_code"@ {
        match args.text_at("pattern"@) {
            Some(pattern) => Ok(
                CallView::SearchCode(
                    SearchView {
                        pattern: lowercase(pattern),
                        limit: size_or(args, "limit"@, DEFAULT_SEARCH_LIMIT),
                        project,
                    },
                ),
            ),
            None => Err(ToolErrorView::Required("pattern"@)),
        }
    } else if tool == "get_code_snippet"@ {
        Ok(CallView::GetCodeSnippet(SnippetView { name: snippet_name(args), project }))
    } else if tool == "get_architecture"@ {
        Ok(CallView::GetArchitecture)
    } else {
        Err(ToolErrorView::Unsupported(tool))
    }
}

/// The tools of the store.
pub open spec fn known_tools() -> Seq<Seq<char>> {
    seq![
        "index_repository"@,
        "index_status"@,
        "list_projects"@,
        "delete_project"@,
        "detect_changes"@,
        "search_graph"@,
        "search_code"@,
        "get_code_snippet"@,
        "get_architecture"@,
    ]
}

/// A tool is refused as unsupported exactly where it is none of the store.
pub proof fn unknown_tools_are_refused(tool: Seq<char>, args: JsonView)
    ensures
        known_tools().contains(tool) <==> call_of(tool, args) != Err::<CallView, ToolErrorView>(
            ToolErrorView::Unsupported(tool),
        ),
{
    let known = known_tools();
    assert(known[0] == "index_repository"@);
    assert(known[1] == "index_status"@);
    assert(known[2] == "list_projects"@);
    assert(known[3] == "delete_project"@);
    assert(known[4] == "detect_changes"@);
    assert(known[5] == "search_graph"@);
    assert(known[6] == "search_code"@);
    assert(known[7] == "get_code_snippet"@);
    assert(known[8] == "get_architecture"@);
}

/// Which index files a tool reads.
#[derive(Debug, Clone, PartialEq, Eq)]
pub enum IndexReads {
    /// The file at that path.
    One(String),
    /// All index files in that directory.
    All(String),
}

/// What a choice of index files holds.
pub enum ReadsView {
    One(Seq<char>),
    All(Seq<char>),
}

impl View for IndexReads {
    type V = ReadsView;

    open spec fn view(&self) -> ReadsView {
        match self {
            IndexReads::One(path) => ReadsView::One(path@),
            IndexReads::All(directory) => ReadsView::All(directory@),
        }
    }
}

/// Where the index of a project is kept.
pub open spec fn index_file(root: Seq<char>, project: Seq<char>) -> Seq<char> {
    file_in(root, project, ".json"@)
}

fn limit_of(args: &JsonValue) -> (limit: usize)
    ensures
        limit == size_or(args@, "limit"@, DEFAULT_SEARCH_LIMIT),
{
    match opt_usize(args, "limit") {
        Some(n) => n,
        None => DEFAULT_SEARCH_LIMIT,
    }
}

impl ClabStore {
    /// The store in the engine's directory.
    pub fn with_root(home: &str) -> (store: ClabStore)
        ensures
            store.root@ == joined_path(home@, "indexes"@),
    {
        ClabStore { root: join_path(home, "indexes") }
    }

    /// The store in the directory that the environment names.
    pub fn from_env(set: Option<&str>, home: Option<&str>) -> (store: ClabStore)
        ensures
            store.root@ == joined_path(
                home_directory(optional_str(set), optional_str(home)),
                "indexes"@,
            ),
    {
        ClabStore::with_root(clab_home(set, home).as_str())
    }

    /// Where the index of a project is kept.
    pub fn index_path(&self, project: &str) -> (path: String)
        ensures
            path@ == index_file(self.root@, project@),
    {
        file_path(self.root.as_str(), project, ".json")
    }

    /// The index files of one project or, where none is named, of all.
    pub fn filtered(&self, project: Option<&str>) -> (reads: IndexReads)
        ensures
            reads@ == match project {
                Some(p) => ReadsView::One(index_file(self.root@, p@)),
                None => ReadsView::All(self.root@),
            },
    {
        match project {
            Some(p) => IndexReads::One(self.index_path(p)),
            None => IndexReads::All(self.root.clone()),
        }
    }

    /// Which index files the plan for a directory reads: that of the directory's project.
    pub fn plan_reads(&self, root: &str) -> (reads: IndexReads)
        ensures
            reads@ == ReadsView::One(index_file(self.root@, project_name_of(root@))),
    {
        self.filtered(Some(project_name(root).as_str()))
    }

    /// The call that a tool name and its arguments make, or why they make none.
    pub fn dispatch(&self, tool: &str, args: &JsonValue) -> (call: Result<ToolCall, ToolError>)
        ensures
            match call {
                Ok(c) => call_of(tool@, args@) == Ok::<CallView, ToolErrorView>(c@),
                Err(e) => call_of(tool@, args@) == Err::<CallView, ToolErrorView>(e@),
            },
    {
        if same_text(tool, "index_repository") {
            let path = match opt_str(args, "repo_path") {
                Some(path) => path,
                None => ".".to_owned(),
            };
            Ok(ToolCall::IndexRepository(path))
        } else if same_text(tool, "index_status") {
            match required_str(args, "project") {
                Ok(project) => Ok(ToolCall::IndexStatus(project)),
                Err(e) => Err(e),
            }
        } else if same_text(tool, "list_projects") {
            Ok(ToolCall::ListProjects)
        } else if same_text(tool, "delete_project") {
            match required_str(args, "project") {
                Ok(project) => Ok(ToolCall::DeleteProject(project)),
                Err(e) => Err(e),
            }
        } else if same_text(tool, "detect_changes") {
            Ok(ToolCall::DetectChanges)
        } else if same_text(tool, "search_graph") {
            Ok(
                ToolCall::SearchGraph(
                    SearchRequest {
                        pattern: str_or_empty(args, "query").as_str().to_lowercase(),
                        limit: limit_of(args),
                        project: opt_str(args, "project"),
                    },
                ),
            )
        } else if same_text(tool, "search_code") {
            match required_str(args, "pattern") {
                Ok(pattern) => Ok(
                    ToolCall::SearchCode(
                        SearchRequest {
                            pattern: pattern.as_str().to_lowercase(),
                            limit: limit_of(args),
                            project: opt_str(args, "project"),
                        },
                    ),
                ),
                Err(e) => Err(e),
            }
        } else if same_text(tool, "get_code_snippet") {
            let name = match opt_str(args, "qualified_name") {
                Some(name) => name,
                None => str_or_empty(args, "name"),
            };
            Ok(ToolCall::GetCodeSnippet(SnippetRequest { name, project: opt_str(args, "project") }))
        } else if same_text(tool, "get_architecture") {
            Ok(ToolCall::GetArchitecture)
        } else {
            Err(ToolError::Unsupported(tool.to_owned()))
        }
    }
}

// ---------------------------------------------------------------------------
// Indexing
// ---------------------------------------------------------------------------

/// The symbols of files, in the order of the files.
pub open spec fn all_symbols(files: Seq<FileView>) -> Seq<SymbolView>
    decreases files.len(),
{
    if files.len() == 0 {
        Seq::empty()
    } else {
        all_symbols(files.drop_last()) + symbols_in(
            files.last().path,
            lines_of(files.last().text),
        )
    }
}

/// The index of the project at a root.
pub open spec fn index_of(
    root: Seq<char>,
    files: Seq<FileView>,
    git: GitView,
    now: int,
) -> IndexView {
    IndexView {
        project: project_name_of(root),
        root_path: root,
        status: "indexed"@,
        files,
        symbols: all_symbols(files),
        indexed_at: now,
        git,
    }
}

/// The summaries of indexes, each with the status that it has.
pub open spec fn summaries(indexes: Seq<IndexView>) -> Seq<JsonView> {
    indexes.map_values(|i: IndexView| index_summary(i, i.status))
}

fn symbols_of_files(files: &Vec<FileEntry>) -> (symbols: Vec<SymbolEntry>)
    ensures
        symbol_views(symbols@) == all_symbols(file_views(files@)),
{
    let ghost held = file_views(files@);
    let mut symbols: Vec<SymbolEntry> = Vec::new();
    let mut i: usize = 0;
    assert(symbol_views(symbols@) =~= all_symbols(held.take(0)));
    while i < files.len()
        invariant
            i <= files@.len(),
            held == file_views(files@),
            symbol_views(symbols@) == all_symbols(held.take(i as int)),
        decreases files.len() - i,
    {
        let ghost done = symbols@;
        let mut found = extract_symbols(&files[i]);
        let ghost more = found@;
        assert(held.take(i + 1).drop_last() =~= held.take(i as int));
        assert(held.take(i + 1).last() == files@[i as int]@);
        symbols.append(&mut found);
        assert(symbol_views(symbols@) =~= symbol_views(done) + symbol_views(more));
        i = i + 1;
    }
    assert(held.take(i as int) =~= held);
    symbols
}

impl ClabStore {
    /// The index of the project at `root`, and the summary that answers the call.
    pub fn index_repository(
        &self,
        root: &str,
        files: Vec<FileEntry>,
        git: GitProjectState,
        now: u64,
    ) -> (indexed: (ClabIndex, JsonValue))
        requires
            total_size(file_views(files@)) <= u64::MAX,
        ensures
            indexed.0@ == index_of(root@, file_views(files@), git@, now as int),
            indexed.1@ == index_summary(indexed.0@, "indexed"@),
    {
        let symbols = symbols_of_files(&files);
        let index = ClabIndex {
            project: project_name(root),
            root_path: root.to_owned(),
            status: "indexed".to_owned(),
            files,
            symbols,
            indexed_at: now,
            git,
        };
        let answer = summary(&index, "indexed");
        (index, answer)
    }

    /// The summary of an index that was found.
    pub fn index_status(&self, index: &ClabIndex) -> (answer: JsonValue)
        requires
            size_fits(index@),
        ensures
            answer@ == index_summary(index@, "ready"@),
    {
        summary(index, "ready")
    }

    /// The summaries of all indexes.
    pub fn list_projects(&self, indexes: &Vec<ClabIndex>) -> (answer: JsonValue)
        requires
            forall|i: int| 0 <= i < indexes@.len() ==> size_fits((#[trigger] indexes@[i])@),
        ensures
            answer@ == JsonView::Object(
                map!["projects"@ => JsonView::Array(summaries(index_views(indexes@)))],
            ),
    {
        broadcast use lemma_array_view;

        let mut projects: Vec<JsonValue> = Vec::new();
        let mut i: usize = 0;
        while i < indexes.len()
            invariant
                i <= indexes@.len(),
                projects@.len() == i,
                forall|k: int| 0 <= k < indexes@.len() ==> size_fits((#[trigger] indexes@[k])@),
                forall|k: int|
                    0 <= k < i ==> (#[trigger] projects@[k])@ == index_summary(
                        indexes@[k]@,
                        indexes@[k]@.status,
                    ),
            decreases indexes.len() - i,
        {
            projects.push(summary(&indexes[i], indexes[i].status.as_str()));
            i = i + 1;
        }
        assert(views(projects@) =~= summaries(index_views(indexes@)));
        JsonObject::new().put("projects", JsonValue::Array(projects)).value()
    }

    /// The deletion of a project, by whether there is an index to delete.
    pub fn delete_project(&self, project: &str, existed: bool) -> (deletion: ProjectDeletion)
        ensures
            deletion@ == deletion_of(self.root@, project@, existed),
    {
        let remove = if existed {
            Some(self.index_path(project))
        } else {
            None
        };
        let answer = JsonObject::new().put("ok", JsonValue::Bool(true)).put(
            "deleted",
            JsonValue::Bool(existed),
        ).value();
        ProjectDeletion { remove, answer }
    }
}

// ---------------------------------------------------------------------------
// Deletion
// ---------------------------------------------------------------------------

/// What deleting a project comes to: the index file to remove, if any, and the answer.
pub struct ProjectDeletion {
    pub remove: Option<String>,
    pub answer: JsonValue,
}

/// What a deletion holds.
pub struct DeletionView {
    pub remove: Option<Seq<char>>,
    pub answer: JsonView,
}

impl View for ProjectDeletion {
    type V = DeletionView;

    open spec fn view(&self) -> DeletionView {
        DeletionView { remove: optional_text(self.remove), answer: self.answer@ }
    }
}

/// The deletion of a project, by whether there is an index to delete.
pub open spec fn deletion_of(root: Seq<char>, project: Seq<char>, existed: bool) -> DeletionView {
    DeletionView {
        remove: if existed {
            Some(index_file(root, project))
        } else {
            None
        },
        answer: JsonView::Object(
            map!["ok"@ => JsonView::Bool(true), "deleted"@ => JsonView::Bool(existed)],
        ),
    }
}

/// The deletion of a project where these files are kept.
pub open spec fn deletion_among(
    root: Seq<char>,
    files: Set<Seq<char>>,
    project: Seq<char>,
) -> DeletionView {
    deletion_of(root, project, files.contains(index_file(root, project)))
}

/// The files that are left after a deletion.
pub open spec fn files_left(files: Set<Seq<char>>, deletion: DeletionView) -> Set<Seq<char>> {
    match deletion.remove {
        Some(path) => files.remove(path),
        None => files,
    }
}

/// A deletion says whether the project had an index; that index is gone afterwards, and no
/// other file is; the same deletion again removes nothing and says so.
pub proof fn a_deletion_removes_one_index(
    root: Seq<char>,
    files: Set<Seq<char>>,
    project: Seq<char>,
)
    ensures
        ({
            let file = index_file(root, project);
            let first = deletion_among(root, files, project);
            let left = files_left(files, first);
            let second = deletion_among(root, left, project);
            &&& first.answer.get("deleted"@) == Some(JsonView::Bool(files.contains(file)))
            &&& left == files.remove(file)
            &&& second.answer.get("deleted"@) == Some(JsonView::Bool(false))
            &&& files_left(left, second) == left
        }),
{
    assert(files_left(files, deletion_among(root, files, project)) =~= files.remove(
        index_file(root, project),
    ));
}

/// Projects with different names without slashes keep their indexes in different files, so that
/// deleting one leaves the other as it was.
pub proof fn a_deletion_spares_other_projects(
    root: Seq<char>,
    files: Set<Seq<char>>,
    project: Seq<char>,
    other: Seq<char>,
)
    requires
        project != other,
        !project.contains('/'),
        !other.contains('/'),
    ensures
        index_file(root, project) != index_file(root, other),
        files_left(files, deletion_among(root, files, project)).contains(index_file(root, other))
            == files.contains(index_file(root, other)),
{
    reveal_strlit(".json");
    let (mine, its) = (project + ".json"@, other + ".json"@);
    assert(!is_absolute(mine)) by {
        assert(project.len() > 0 ==> project.contains(project[0]));
    }
    assert(!is_absolute(its)) by {
        assert(other.len() > 0 ==> other.contains(other[0]));
    }
    let front = if root.len() == 0 || root.last() == '/' {
        root
    } else {
        root.push('/')
    };
    assert(index_file(root, project) == front + mine);
    assert(index_file(root, other) == front + its);
    if front + mine == front + its {
        let n = front.len() as int;
        assert(mine =~= (front + mine).skip(n));
        assert(its =~= (front + its).skip(n));
        assert(project =~= mine.take(mine.len() - 5));
        assert(other =~= its.take(its.len() - 5));
    }
}

/// A deletion that names no project is refused.
pub proof fn a_deletion_names_a_project(args: JsonView)
    ensures
        match args.text_at("project"@) {
            Some(p) => call_of("delete_project"@, args) == Ok::<CallView, ToolErrorView>(
                CallView::DeleteProject(p),
            ),
            None => call_of("delete_project"@, args) == Err::<CallView, ToolErrorView>(
                ToolErrorView::Required("project"@),
            ),
        },
{
    reveal_strlit("delete_project");
    reveal_strlit("index_repository");
    reveal_strlit("index_status");
    reveal_strlit("list_projects");
    assert("delete_project"@.len() == 14);
    assert("index_repository"@.len() == 16);
    assert("index_status"@.len() == 12);
    assert("list_projects"@.len() == 13);
}

// ---------------------------------------------------------------------------
// Changes
// ---------------------------------------------------------------------------

/// The arguments of a change report.
#[derive(Debug, Clone, PartialEq, Eq)]
pub struct DetectChangesArgs {
    pub project: String,
    pub include_files: Option<bool>,
    pub limit: Option<usize>,
}

/// The paths of the entries that satisfy a condition, in their order.
pub open spec fn paths_where(
    entries: Seq<StatusEntryView>,
    keep: spec_fn(StatusEntryView) -> bool,
) -> Seq<Seq<char>> {
    entries.filter(keep).map_values(|e: StatusEntryView| e.path)
}

/// Whether an entry is of a path that git does not track.
pub open spec fn is_untracked(entry: StatusEntryView) -> bool {
    entry.kind == "untracked"@
}

/// Whether an entry is of a path that was deleted.
pub open spec fn is_deleted(entry: StatusEntryView) -> bool {
    entry.kind != "untracked"@ && entry.kind == "deleted"@
}

/// Whether an entry is of a path that is still there and changed.
pub open spec fn is_changed(entry: StatusEntryView) -> bool {
    entry.kind != "untracked"@ && entry.kind != "deleted"@
}

/// Why an index is out of date.
pub open spec fn stale_reasons(head_changed: bool, branch_changed: bool, dirty: bool) -> Seq<
    Seq<char>,
> {
    let head = if head_changed {
        seq!["head_changed"@]
    } else {
        Seq::empty()
    };
    let branch = if branch_changed {
        seq!["branch_changed"@]
    } else {
        Seq::empty()
    };
    let tree = if dirty {
        seq!["working_tree_dirty"@]
    } else {
        Seq::empty()
    };
    head + branch + tree
}

/// What is best done about an index that is out of date.
pub open spec fn recommended_action(
    head_changed: bool,
    branch_changed: bool,
    dirty: bool,
    file_changes: nat,
    limit: nat,
) -> Seq<char> {
    if !(head_changed || branch_changed || dirty) {
        "none"@
    } else if head_changed || branch_changed || file_changes > limit {
        "reindex_full"@
    } else {
        "reindex_partial"@
    }
}

/// How many changes a report counts: those of files, or the reasons where these are more.
pub open spec fn changed_count(reasons: nat, file_changes: nat) -> nat {
    if reasons == 0 {
        0
    } else if file_changes >= reasons {
        file_changes
    } else {
        reasons
    }
}

/// The report on what changed since an index was made. Every entry counts as one changed file.
pub open spec fn change_report(
    index: IndexView,
    current: GitView,
    entries: Seq<StatusEntryView>,
    include_files: bool,
    limit: nat,
) -> JsonView {
    let head_changed = current.head_sha != index.git.head_sha;
    let branch_changed = current.branch != index.git.branch;
    let dirty = entries.len() > 0;
    let reasons = stale_reasons(head_changed, branch_changed, dirty);
    let changed = paths_where(entries, |e: StatusEntryView| is_changed(e));
    let untracked = paths_where(entries, |e: StatusEntryView| is_untracked(e));
    let deleted = paths_where(entries, |e: StatusEntryView| is_deleted(e));
    JsonView::Object(
        map![
            "project"@ => JsonView::Text(index.project),
            "root_path"@ => JsonView::Text(index.root_path),
            "indexed_head_sha"@ => optional_text_view(index.git.head_sha),
            "current_head_sha"@ => optional_text_view(current.head_sha),
            "branch"@ => JsonView::Object(
                map![
                    "indexed"@ => optional_text_view(index.git.branch),
                    "current"@ => optional_text_view(current.branch),
                    "changed"@ => JsonView::Bool(branch_changed),
                ],
            ),
            "dirty"@ => JsonView::Bool(dirty),
            "head_changed"@ => JsonView::Bool(head_changed),
            "branch_changed"@ => JsonView::Bool(branch_changed),
            "stale"@ => JsonView::Bool(reasons.len() > 0),
            "stale_reason"@ => text_array_view(reasons),
            "changed_files"@ => text_array_view(
                listed_paths(changed, include_files, limit as int),
            ),
            "untracked_files"@ => text_array_view(
                listed_paths(untracked, include_files, limit as int),
            ),
            "deleted_files"@ => text_array_view(
                listed_paths(deleted, include_files, limit as int),
            ),
            "changed_count"@ => JsonView::Integer(
                changed_count(reasons.len(), entries.len()) as int,
            ),
            "recommended_action"@ => JsonView::Text(
                recommended_action(
                    head_changed,
                    branch_changed,
                    dirty,
                    entries.len(),
                    limit,
                ),
            ),
            "summary"@ => JsonView::Text(
                if reasons.len() == 0 {
                    "Index is current."@
                } else {
                    change_summary(head_changed, branch_changed, dirty, entries.len())
                },
            ),
        ],
    )
}

/// Whether two optional texts are the same.
pub fn same_optional(left: &Option<String>, right: &Option<String>) -> (same: bool)
    ensures
        same == (optional_text(*left) == optional_text(*right)),
{
    match (left, right) {
        (Some(a), Some(b)) => *a == *b,
        (None, None) => true,
        _ => false,
    }
}

/// Paths by how they changed.
struct SplitPaths {
    changed: Vec<String>,
    untracked: Vec<String>,
    deleted: Vec<String>,
}

fn split_entries(entries: &Vec<GitStatusEntry>) -> (split: SplitPaths)
    ensures
        texts(split.changed@) == paths_where(
            entry_views(entries@),
            |e: StatusEntryView| is_changed(e),
        ),
        texts(split.untracked@) == paths_where(
            entry_views(entries@),
            |e: StatusEntryView| is_untracked(e),
        ),
        texts(split.deleted@) == paths_where(
            entry_views(entries@),
            |e: StatusEntryView| is_deleted(e),
        ),
        split.changed@.len() + split.untracked@.len() + split.deleted@.len() == entries@.len(),
{
    let ghost all = entry_views(entries@);
    let ghost by_change = |e: StatusEntryView| is_changed(e);
    let ghost by_new = |e: StatusEntryView| is_untracked(e);
    let ghost by_loss = |e: StatusEntryView| is_deleted(e);
    let mut changed: Vec<String> = Vec::new();
    let mut untracked: Vec<String> = Vec::new();
    let mut deleted: Vec<String> = Vec::new();
    let mut i: usize = 0;
    proof {
        reveal(Seq::filter);
        assert(texts(changed@) =~= paths_where(all.take(0), by_change));
        assert(texts(untracked@) =~= paths_where(all.take(0), by_new));
        assert(texts(deleted@) =~= paths_where(all.take(0), by_loss));
    }
    while i < entries.len()
        invariant
            i <= entries@.len(),
            all == entry_views(entries@),
            by_change == (|e: StatusEntryView| is_changed(e)),
            by_new == (|e: StatusEntryView| is_untracked(e)),
            by_loss == (|e: StatusEntryView| is_deleted(e)),
            texts(changed@) == paths_where(all.take(i as int), by_change),
            texts(untracked@) == paths_where(all.take(i as int), by_new),
            texts(deleted@) == paths_where(all.take(i as int), by_loss),
            changed@.len() + untracked@.len() + deleted@.len() == i,
        decreases entries.len() - i,
    {
        let entry = &entries[i];
        let ghost changed_done = changed@;
        let ghost untracked_done = untracked@;
        let ghost deleted_done = deleted@;
        assert(all[i as int] == entry@);
        proof {
            lemma_filter_step(all, by_change, i as int);
            lemma_filter_step(all, by_new, i as int);
            lemma_filter_step(all, by_loss, i as int);
        }
        if same_text(entry.kind.as_str(), "untracked") {
            untracked.push(entry.path.clone());
            assert(texts(untracked@) =~= texts(untracked_done).push(entry@.path));
        } else if same_text(entry.kind.as_str(), "deleted") {
            deleted.push(entry.path.clone());
            assert(texts(deleted@) =~= texts(deleted_done).push(entry@.path));
        } else {
            changed.push(entry.path.clone());
            assert(texts(changed@) =~= texts(changed_done).push(entry@.path));
        }
        i = i + 1;
        assert(texts(changed@) =~= paths_where(all.take(i as int), by_change));
        assert(texts(untracked@) =~= paths_where(all.take(i as int), by_new));
        assert(texts(deleted@) =~= paths_where(all.take(i as int), by_loss));
    }
    assert(all.take(i as int) =~= all);
    SplitPaths { changed, untracked, deleted }
}

fn reasons_for(head_changed: bool, branch_changed: bool, dirty: bool) -> (reasons: Vec<String>)
    ensures
        texts(reasons@) == stale_reasons(head_changed, branch_changed, dirty),
        reasons@.len() <= 3,
{
    let mut reasons: Vec<String> = Vec::new();
    if head_changed {
        reasons.push("head_changed".to_owned());
    }
    if branch_changed {
        reasons.push("branch_changed".to_owned());
    }
    if dirty {
        reasons.push("working_tree_dirty".to_owned());
    }
    assert(texts(reasons@) =~= stale_reasons(head_changed, branch_changed, dirty));
    reasons
}

impl ClabStore {
    /// The report on what changed since an index was made, from the git state now and what git
    /// printed as its short status.
    pub fn detect_changes(
        &self,
        input: &DetectChangesArgs,
        index: &ClabIndex,
        current: &GitProjectState,
        status: &Option<GitRun>,
    ) -> (report: JsonValue)
        ensures
            report@ == change_report(
                index@,
                current@,
                entries_printed(*status),
                match input.include_files {
                    Some(b) => b,
                    None => true,
                },
                match input.limit {
                    Some(n) => n as nat,
                    None => DEFAULT_CHANGE_FILE_LIMIT as nat,
                },
            ),
    {
        let include_files: bool = match input.include_files {
            Some(b) => b,
            None => true,
        };
        let limit: usize = match input.limit {
            Some(n) => n,
            None => DEFAULT_CHANGE_FILE_LIMIT,
        };
        let entries = git_status_entries(status);
        assert(entry_views(entries@).len() == entries@.len());
        let split = split_entries(&entries);
        let head_changed = !same_optional(&current.head_sha, &index.git.head_sha);
        let branch_changed = !same_optional(&current.branch, &index.git.branch);
        let dirty = entries.len() > 0;
        let reasons = reasons_for(head_changed, branch_changed, dirty);
        assert(texts(reasons@).len() == reasons@.len());
        let stale = reasons.len() > 0;
        let total: usize = split.changed.len() + split.untracked.len() + split.deleted.len();
        let action = if !stale {
            "none"
        } else if head_changed || branch_changed || total > limit {
            "reindex_full"
        } else {
            "reindex_partial"
        };
        let words = if !stale {
            "Index is current.".to_owned()
        } else {
            summarize_change_state(head_changed, branch_changed, dirty, total)
        };
        let count: usize = if !stale {
            0
        } else if total >= reasons.len() {
            total
        } else {
            reasons.len()
        };
        let branch = JsonObject::new().put(
            "indexed",
            JsonValue::optional_text(&index.git.branch),
        ).put("current", JsonValue::optional_text(&current.branch)).put(
            "changed",
            JsonValue::Bool(branch_changed),
        ).value();
        JsonObject::new().put("project", JsonValue::text(index.project.as_str())).put(
            "root_path",
            JsonValue::text(index.root_path.as_str()),
        ).put("indexed_head_sha", JsonValue::optional_text(&index.git.head_sha)).put(
            "current_head_sha",
            JsonValue::optional_text(&current.head_sha),
        ).put("branch", branch).put("dirty", JsonValue::Bool(dirty)).put(
            "head_changed",
            JsonValue::Bool(head_changed),
        ).put("branch_changed", JsonValue::Bool(branch_changed)).put(
            "stale",
            JsonValue::Bool(stale),
        ).put("stale_reason", text_array(&reasons)).put(
            "changed_files",
            text_array(&maybe_limit_paths(split.changed, include_files, limit)),
        ).put(
            "untracked_files",
            text_array(&maybe_limit_paths(split.untracked, include_files, limit)),
        ).put(
            "deleted_files",
            text_array(&maybe_limit_paths(split.deleted, include_files, limit)),
        ).put("changed_count", JsonValue::Uint(count as u64)).put(
            "recommended_action",
            JsonValue::text(action),
        ).put("summary", JsonValue::Text(words)).value()
    }
}

/// Every entry is of exactly one of the three sorts that a report lists, so that the three
/// lists of paths have as many paths as there are entries.
pub proof fn entries_are_split(entries: Seq<StatusEntryView>)
    ensures
        paths_where(entries, |e: StatusEntryView| is_changed(e)).len() + paths_where(
            entries,
            |e: StatusEntryView| is_untracked(e),
        ).len() + paths_where(entries, |e: StatusEntryView| is_deleted(e)).len()
            == entries.len(),
    decreases entries.len(),
{
    reveal(Seq::filter);
    if entries.len() > 0 {
        entries_are_split(entries.drop_last());
    }
}

/// A report counts changes exactly where the head, the branch or the working tree changed, and
/// only then recommends to index again.
pub proof fn changes_are_counted_when_stale(
    head_changed: bool,
    branch_changed: bool,
    dirty: bool,
    file_changes: nat,
    limit: nat,
)
    requires
        dirty <==> file_changes > 0,
    ensures
        changed_count(
            stale_reasons(head_changed, branch_changed, dirty).len(),
            file_changes,
        ) > 0 <==> head_changed || branch_changed || dirty,
        recommended_action(
            head_changed,
            branch_changed,
            dirty,
            file_changes,
            limit,
        ) == "none"@ <==> !(head_changed || branch_changed || dirty),
{
    reveal_strlit("none");
    reveal_strlit("reindex_full");
    reveal_strlit("reindex_partial");
    assert("none"@.len() == 4);
    assert("reindex_full"@.len() == 12);
    assert("reindex_partial"@.len() == 15);
}

// ---------------------------------------------------------------------------
// Searches
// ---------------------------------------------------------------------------

/// The results of a search: the first hits, at most `limit` of them.
pub open spec fn search_results(hits: Seq<JsonView>, limit: usize) -> JsonView {
    JsonView::Object(map!["results"@ => JsonView::Array(first_of(hits, limit as int))])
}

/// Whether a symbol matches a query: the query is empty, or stands in the symbol's name or
/// path, where case does not count.
pub open spec fn symbol_matches(symbol: SymbolView, query: Seq<char>) -> bool {
    query.len() == 0 || has_text(lowercase(symbol.name), query) || has_text(
        lowercase(symbol.file),
        query,
    )
}

/// Whether a query is empty or stands in one of two texts.
pub fn query_stands_in(query: &str, name: &str, file: &str) -> (answer: bool)
    ensures
        answer == (query@.len() == 0 || has_text(name@, query@) || has_text(file@, query@)),
{
    query.is_empty() || contains(name, query) || contains(file, query)
}

/// A symbol that was found.
pub open spec fn symbol_hit(project: Seq<char>, symbol: SymbolView) -> JsonView {
    JsonView::Object(
        map![
            "project"@ => JsonView::Text(project),
            "name"@ => JsonView::Text(symbol.name),
            "label"@ => JsonView::Text(symbol.label),
            "file"@ => JsonView::Text(symbol.file),
            "line"@ => JsonView::Integer(symbol.line),
            "start_line"@ => JsonView::Integer(symbol.line),
        ],
    )
}

/// The symbols that match a query, in their order.
pub open spec fn symbol_hits(project: Seq<char>, symbols: Seq<SymbolView>, query: Seq<char>) -> Seq<
    JsonView,
>
    decreases symbols.len(),
{
    if symbols.len() == 0 {
        Seq::empty()
    } else {
        let rest = symbol_hits(project, symbols.skip(1), query);
        if symbol_matches(symbols[0], query) {
            seq![symbol_hit(project, symbols[0])] + rest
        } else {
            rest
        }
    }
}

/// The symbols of indexes that match a query, in their order.
pub open spec fn graph_hits(indexes: Seq<IndexView>, query: Seq<char>) -> Seq<JsonView>
    decreases indexes.len(),
{
    if indexes.len() == 0 {
        Seq::empty()
    } else {
        symbol_hits(indexes[0].project, indexes[0].symbols, query) + graph_hits(
            indexes.skip(1),
            query,
        )
    }
}

/// A line that was found, where lines are counted from one.
pub open spec fn line_hit(
    project: Seq<char>,
    file: Seq<char>,
    number: int,
    line: Seq<char>,
) -> JsonView {
    JsonView::Object(
        map![
            "project"@ => JsonView::Text(project),
            "file"@ => JsonView::Text(file),
            "line"@ => JsonView::Integer(number),
            "start_line"@ => JsonView::Integer(number),
            "snippet"@ => JsonView::Text(line),
        ],
    )
}

/// The lines of a file from number `from` on that hold a pattern, where case does not count.
pub open spec fn line_hits(
    project: Seq<char>,
    file: Seq<char>,
    lines: Seq<Seq<char>>,
    from: int,
    pattern: Seq<char>,
) -> Seq<JsonView>
    decreases lines.len(),
{
    if lines.len() == 0 {
        Seq::empty()
    } else {
        let rest = line_hits(project, file, lines.skip(1), from + 1, pattern);
        if has_text(lowercase(lines[0]), pattern) {
            seq![line_hit(project, file, from, lines[0])] + rest
        } else {
            rest
        }
    }
}

/// The lines of files that hold a pattern, in their order.
pub open spec fn file_hits(project: Seq<char>, files: Seq<FileView>, pattern: Seq<char>) -> Seq<
    JsonView,
>
    decreases files.len(),
{
    if files.len() == 0 {
        Seq::empty()
    } else {
        line_hits(project, files[0].path, lines_of(files[0].text), 1, pattern) + file_hits(
            project,
            files.skip(1),
            pattern,
        )
    }
}

/// The lines of indexes that hold a pattern, in their order.
pub open spec fn code_hits(indexes: Seq<IndexView>, pattern: Seq<char>) -> Seq<JsonView>
    decreases indexes.len(),
{
    if indexes.len() == 0 {
        Seq::empty()
    } else {
        file_hits(indexes[0].project, indexes[0].files, pattern) + code_hits(
            indexes.skip(1),
            pattern,
        )
    }
}

/// Appends the symbols that match up to `cap` results; the answer is whether `cap` was reached.
fn collect_symbols(
    index: &ClabIndex,
    query: &str,
    cap: usize,
    results: &mut Vec<JsonValue>,
) -> (full: bool)
    requires
        old(results)@.len() < cap,
    ensures
        views(final(results)@) == first_of(
            views(old(results)@) + symbol_hits(index@.project, index@.symbols, query@),
            cap as int,
        ),
        full == (final(results)@.len() >= cap),
        final(results)@.len() <= cap,
        !full ==> views(final(results)@) == views(old(results)@) + symbol_hits(
            index@.project,
            index@.symbols,
            query@,
        ),
{
    let ghost start = views(results@);
    let ghost held = index@.symbols;
    let ghost project = index@.project;
    let ghost all = symbol_hits(project, held, query@);
    let mut i: usize = 0;
    assert(held.skip(0) =~= held);
    assert(start + all =~= views(results@) + symbol_hits(project, held.skip(0), query@));
    while i < index.symbols.len()
        invariant
            i <= index.symbols@.len(),
            held == index@.symbols,
            project == index@.project,
            results@.len() < cap,
            start == views(old(results)@),
            all == symbol_hits(project, held, query@),
            start + all == views(results@) + symbol_hits(project, held.skip(i as int), query@),
        decreases index.symbols.len() - i,
    {
        let symbol = &index.symbols[i];
        let ghost done = views(results@);
        assert(held.skip(i as int)[0] == symbol@);
        assert(held.skip(i as int).skip(1) =~= held.skip(i + 1));
        let ghost rest = symbol_hits(project, held.skip(i + 1), query@);
        let name = symbol.name.as_str().to_lowercase();
        let file = symbol.file.as_str().to_lowercase();
        if query_stands_in(query, name.as_str(), file.as_str()) {
            let hit = JsonObject::new().put("project", JsonValue::text(index.project.as_str())).put(
                "name",
                JsonValue::text(symbol.name.as_str()),
            ).put("label", JsonValue::text(symbol.label.as_str())).put(
                "file",
                JsonValue::text(symbol.file.as_str()),
            ).put("line", JsonValue::Uint(symbol.line as u64)).put(
                "start_line",
                JsonValue::Uint(symbol.line as u64),
            ).value();
            assert(hit@ == symbol_hit(project, symbol@));
            results.push(hit);
            assert(views(results@) =~= done.push(hit@));
            assert(done + (seq![hit@] + rest) =~= views(results@) + rest);
            if results.len() >= cap {
                proof {
                    lemma_first_of_prefix(views(results@), rest);
                }
                return true;
            }
        }
        i = i + 1;
    }
    assert(held.skip(i as int) =~= Seq::empty());
    assert(views(results@) + Seq::<JsonView>::empty() =~= views(results@));
    assert(views(results@).len() == results@.len());
    false
}

/// Appends the lines of a file that match up to `cap` results; the answer is whether `cap` was
/// reached.
fn collect_lines(
    project: &str,
    file: &FileEntry,
    pattern: &str,
    cap: usize,
    results: &mut Vec<JsonValue>,
) -> (full: bool)
    requires
        old(results)@.len() < cap,
    ensures
        views(final(results)@) == first_of(
            views(old(results)@) + line_hits(
                project@,
                file@.path,
                lines_of(file@.text),
                1,
                pattern@,
            ),
            cap as int,
        ),
        full == (final(results)@.len() >= cap),
        final(results)@.len() <= cap,
        !full ==> views(final(results)@) == views(old(results)@) + line_hits(
            project@,
            file@.path,
            lines_of(file@.text),
            1,
            pattern@,
        ),
{
    let ghost start = views(results@);
    let split = lines(file.text.as_str());
    let ghost held = lines_of(file@.text);
    let ghost path = file@.path;
    let ghost all = line_hits(project@, path, held, 1, pattern@);
    let mut i: usize = 0;
    assert(held.skip(0) =~= held);
    assert(start + all =~= views(results@) + line_hits(project@, path, held.skip(0), 1, pattern@));
    while i < split.len()
        invariant
            i <= split@.len(),
            held == texts(split@),
            path == file@.path,
            results@.len() < cap,
            held == lines_of(file@.text),
            start == views(old(results)@),
            all == line_hits(project@, path, held, 1, pattern@),
            start + all == views(results@) + line_hits(
                project@,
                path,
                held.skip(i as int),
                i + 1,
                pattern@,
            ),
        decreases split.len() - i,
    {
        let line = &split[i];
        let ghost done = views(results@);
        assert(held.skip(i as int)[0] == line@);
        assert(held.skip(i as int).skip(1) =~= held.skip(i + 1));
        let ghost rest = line_hits(project@, path, held.skip(i + 1), i + 2, pattern@);
        if contains(line.as_str().to_lowercase().as_str(), pattern) {
            let number: u64 = i as u64 + 1;
            let hit = JsonObject::new().put("project", JsonValue::text(project)).put(
                "file",
                JsonValue::text(file.path.as_str()),
            ).put("line", JsonValue::Uint(number)).put(
                "start_line",
                JsonValue::Uint(number),
            ).put("snippet", JsonValue::text(line.as_str())).value();
            assert(hit@ == line_hit(project@, path, i + 1, line@));
            results.push(hit);
            assert(views(results@) =~= done.push(hit@));
            assert(done + (seq![hit@] + rest) =~= views(results@) + rest);
            if results.len() >= cap {
                proof {
                    lemma_first_of_prefix(views(results@), rest);
                }
                return true;
            }
        }
        i = i + 1;
    }
    assert(held.skip(i as int) =~= Seq::empty());
    assert(views(results@) + Seq::<JsonView>::empty() =~= views(results@));
    assert(views(results@).len() == results@.len());
    false
}

/// More hits than `cap` leave the first of them as they are.
proof fn lemma_first_of_more(hits: Seq<JsonView>, rest: Seq<JsonView>, cap: int)
    requires
        hits.len() >= cap >= 0,
    ensures
        first_of(hits + rest, cap) == first_of(hits, cap),
{
    assert(first_of(hits + rest, cap) =~= first_of(hits, cap));
}

/// Appends the lines of an index that match up to `cap` results; the answer is whether `cap`
/// was reached.
fn collect_files(
    index: &ClabIndex,
    pattern: &str,
    cap: usize,
    results: &mut Vec<JsonValue>,
) -> (full: bool)
    requires
        old(results)@.len() < cap,
    ensures
        views(final(results)@) == first_of(
            views(old(results)@) + file_hits(index@.project, index@.files, pattern@),
            cap as int,
        ),
        full == (final(results)@.len() >= cap),
        final(results)@.len() <= cap,
        !full ==> views(final(results)@) == views(old(results)@) + file_hits(
            index@.project,
            index@.files,
            pattern@,
        ),
{
    let ghost start = views(results@);
    let ghost held = index@.files;
    let ghost project = index@.project;
    let ghost all = file_hits(project, held, pattern@);
    let mut i: usize = 0;
    assert(held.skip(0) =~= held);
    while i < index.files.len()
        invariant
            i <= index.files@.len(),
            held == index@.files,
            project == index@.project,
            results@.len() < cap,
            start == views(old(results)@),
            all == file_hits(project, held, pattern@),
            start + all == views(results@) + file_hits(project, held.skip(i as int), pattern@),
        decreases index.files.len() - i,
    {
        let file = &index.files[i];
        let ghost done = views(results@);
        assert(held.skip(i as int)[0] == file@);
        assert(held.skip(i as int).skip(1) =~= held.skip(i + 1));
        let ghost here = line_hits(project, file@.path, lines_of(file@.text), 1, pattern@);
        let ghost rest = file_hits(project, held.skip(i + 1), pattern@);
        let full = collect_lines(index.project.as_str(), file, pattern, cap, results);
        assert(done + (here + rest) =~= (done + here) + rest);
        if full {
            proof {
                assert(views(results@).len() == results@.len());
                lemma_first_of_more(done + here, rest, cap as int);
            }
            return true;
        }
        i = i + 1;
    }
    assert(held.skip(i as int) =~= Seq::empty());
    assert(views(results@) + Seq::<JsonView>::empty() =~= views(results@));
    assert(views(results@).len() == results@.len());
    false
}

fn results_value(results: Vec<JsonValue>) -> (value: JsonValue)
    ensures
        value@ == JsonView::Object(map!["results"@ => JsonView::Array(views(results@))]),
{
    broadcast use lemma_array_view;

    JsonObject::new().put("results", JsonValue::Array(results)).value()
}

impl ClabStore {
    /// The symbols of indexes that match a query.
    pub fn search_graph(&self, request: &SearchRequest, indexes: &Vec<ClabIndex>) -> (answer:
        JsonValue)
        ensures
            answer@ == search_results(
                graph_hits(index_views(indexes@), request@.pattern),
                request@.limit,
            ),
    {
        let cap: usize = request.limit;
        let query = request.pattern.as_str();
        let ghost held = index_views(indexes@);
        let ghost all = graph_hits(held, query@);
        let mut results: Vec<JsonValue> = Vec::new();
        if cap == 0 {
            assert(views(results@) =~= first_of(all, 0));
            return results_value(results);
        }
        let mut i: usize = 0;
        assert(held.skip(0) =~= held);
        assert(views(results@) + all =~= all);
        while i < indexes.len()
            invariant
                i <= indexes@.len(),
                held == index_views(indexes@),
                query@ == request@.pattern,
                cap == request@.limit,
                all == graph_hits(held, query@),
                results@.len() < cap,
                all == views(results@) + graph_hits(held.skip(i as int), query@),
            decreases indexes.len() - i,
        {
            let index = &indexes[i];
            let ghost done = views(results@);
            assert(held.skip(i as int)[0] == index@);
            assert(held.skip(i as int).skip(1) =~= held.skip(i + 1));
            let ghost here = symbol_hits(index@.project, index@.symbols, query@);
            let ghost rest = graph_hits(held.skip(i + 1), query@);
            let full = collect_symbols(index, query, cap, &mut results);
            assert(done + (here + rest) =~= (done + here) + rest);
            if full {
                proof {
                    assert(views(results@).len() == results@.len());
                    lemma_first_of_more(done + here, rest, cap as int);
                }
                return results_value(results);
            }
            i = i + 1;
        }
        assert(held.skip(i as int) =~= Seq::empty());
        assert(views(results@) + Seq::<JsonView>::empty() =~= views(results@));
        assert(views(results@).len() == results@.len());
        results_value(results)
    }

    /// The lines of indexes that hold a pattern.
    pub fn search_code(&self, request: &SearchRequest, indexes: &Vec<ClabIndex>) -> (answer:
        JsonValue)
        ensures
            answer@ == search_results(
                code_hits(index_views(indexes@), request@.pattern),
                request@.limit,
            ),
    {
        let cap: usize = request.limit;
        let pattern = request.pattern.as_str();
        let ghost held = index_views(indexes@);
        let ghost all = code_hits(held, pattern@);
        let mut results: Vec<JsonValue> = Vec::new();
        if cap == 0 {
            assert(views(results@) =~= first_of(all, 0));
            return results_value(results);
        }
        let mut i: usize = 0;
        assert(held.skip(0) =~= held);
        assert(views(results@) + all =~= all);
        while i < indexes.len()
            invariant
                i <= indexes@.len(),
                held == index_views(indexes@),
                pattern@ == request@.pattern,
                cap == request@.limit,
                all == code_hits(held, pattern@),
                results@.len() < cap,
                all == views(results@) + code_hits(held.skip(i as int), pattern@),
            decreases indexes.len() - i,
        {
            let index = &indexes[i];
            let ghost done = views(results@);
            assert(held.skip(i as int)[0] == index@);
            assert(held.skip(i as int).skip(1) =~= held.skip(i + 1));
            let ghost here = file_hits(index@.project, index@.files, pattern@);
            let ghost rest = code_hits(held.skip(i + 1), pattern@);
            let full = collect_files(index, pattern, cap, &mut results);
            assert(done + (here + rest) =~= (done + here) + rest);
            if full {
                proof {
                    assert(views(results@).len() == results@.len());
                    lemma_first_of_more(done + here, rest, cap as int);
                }
                return results_value(results);
            }
            i = i + 1;
        }
        assert(held.skip(i as int) =~= Seq::empty());
        assert(views(results@) + Seq::<JsonView>::empty() =~= views(results@));
        assert(views(results@).len() == results@.len());
        results_value(results)
    }
}

/// A search gives no more results than its limit, gives as many as there are where the limit
/// allows them all, and with a higher limit gives the same results first.
pub proof fn search_is_bounded(hits: Seq<JsonView>, limit: usize, higher: usize)
    requires
        limit <= higher,
    ensures
        search_results(hits, limit)->Object_0["results"@]->Array_0.len() <= limit,
        hits.len() <= limit ==> search_results(hits, limit)->Object_0["results"@]->Array_0 == hits,
        hits.len() > limit ==> search_results(hits, limit)->Object_0["results"@]->Array_0.len()
            == limit,
        search_results(hits, limit)->Object_0["results"@]->Array_0.is_prefix_of(
            search_results(hits, higher)->Object_0["results"@]->Array_0,
        ),
{
}

/// Whether a hit is of symbol `j` of a project, and that matches a query.
pub open spec fn is_symbol_hit(
    hit: JsonView,
    project: Seq<char>,
    symbols: Seq<SymbolView>,
    query: Seq<char>,
    j: int,
) -> bool {
    0 <= j < symbols.len() && symbol_matches(symbols[j], query) && hit == symbol_hit(
        project,
        symbols[j],
    )
}

proof fn lemma_symbol_hit_matches(
    project: Seq<char>,
    symbols: Seq<SymbolView>,
    query: Seq<char>,
    k: int,
) -> (j: int)
    requires
        0 <= k < symbol_hits(project, symbols, query).len(),
    ensures
        is_symbol_hit(symbol_hits(project, symbols, query)[k], project, symbols, query, j),
    decreases symbols.len(),
{
    let rest = symbols.skip(1);
    if symbol_matches(symbols[0], query) {
        if k == 0 {
            0
        } else {
            lemma_symbol_hit_matches(project, rest, query, k - 1) + 1
        }
    } else {
        lemma_symbol_hit_matches(project, rest, query, k) + 1
    }
}

proof fn lemma_matching_symbol_is_hit(
    project: Seq<char>,
    symbols: Seq<SymbolView>,
    query: Seq<char>,
    j: int,
) -> (k: int)
    requires
        0 <= j < symbols.len(),
        symbol_matches(symbols[j], query),
    ensures
        0 <= k < symbol_hits(project, symbols, query).len(),
        symbol_hits(project, symbols, query)[k] == symbol_hit(project, symbols[j]),
    decreases symbols.len(),
{
    if j == 0 {
        0
    } else {
        let rest = symbols.skip(1);
        let k = lemma_matching_symbol_is_hit(project, rest, query, j - 1);
        if symbol_matches(symbols[0], query) {
            k + 1
        } else {
            k
        }
    }
}

/// A symbol that is found matches: hit `k` is of a matching symbol `j` of an index `i`.
pub proof fn a_found_symbol_matches(indexes: Seq<IndexView>, query: Seq<char>, k: int) -> (place: (
    int,
    int,
))
    requires
        0 <= k < graph_hits(indexes, query).len(),
    ensures
        0 <= place.0 < indexes.len(),
        is_symbol_hit(
            graph_hits(indexes, query)[k],
            indexes[place.0].project,
            indexes[place.0].symbols,
            query,
            place.1,
        ),
    decreases indexes.len(),
{
    let here = symbol_hits(indexes[0].project, indexes[0].symbols, query);
    if k < here.len() {
        (
            0,
            lemma_symbol_hit_matches(indexes[0].project, indexes[0].symbols, query, k),
        )
    } else {
        let (i, j) = a_found_symbol_matches(indexes.skip(1), query, k - here.len());
        (i + 1, j)
    }
}

/// A symbol that matches is found, at the place among the hits that is given back.
pub proof fn a_matching_symbol_is_found(
    indexes: Seq<IndexView>,
    query: Seq<char>,
    i: int,
    j: int,
) -> (k: int)
    requires
        0 <= i < indexes.len(),
        0 <= j < indexes[i].symbols.len(),
        symbol_matches(indexes[i].symbols[j], query),
    ensures
        0 <= k < graph_hits(indexes, query).len(),
        graph_hits(indexes, query)[k] == symbol_hit(indexes[i].project, indexes[i].symbols[j]),
    decreases indexes.len(),
{
    let here = symbol_hits(indexes[0].project, indexes[0].symbols, query);
    if i == 0 {
        lemma_matching_symbol_is_hit(indexes[0].project, indexes[0].symbols, query, j)
    } else {
        let k = a_matching_symbol_is_found(indexes.skip(1), query, i - 1, j);
        k + here.len()
    }
}

/// Whether a hit is of line `j`, where the first has number `from`, and that holds a pattern.
pub open spec fn is_line_hit(
    hit: JsonView,
    project: Seq<char>,
    file: Seq<char>,
    lines: Seq<Seq<char>>,
    from: int,
    pattern: Seq<char>,
    j: int,
) -> bool {
    0 <= j < lines.len() && has_text(lowercase(lines[j]), pattern) && hit == line_hit(
        project,
        file,
        from + j,
        lines[j],
    )
}

proof fn lemma_line_hit_matches(
    project: Seq<char>,
    file: Seq<char>,
    lines: Seq<Seq<char>>,
    from: int,
    pattern: Seq<char>,
    k: int,
) -> (j: int)
    requires
        0 <= k < line_hits(project, file, lines, from, pattern).len(),
    ensures
        is_line_hit(
            line_hits(project, file, lines, from, pattern)[k],
            project,
            file,
            lines,
            from,
            pattern,
            j,
        ),
    decreases lines.len(),
{
    let rest = lines.skip(1);
    if has_text(lowercase(lines[0]), pattern) {
        if k == 0 {
            0
        } else {
            lemma_line_hit_matches(project, file, rest, from + 1, pattern, k - 1) + 1
        }
    } else {
        lemma_line_hit_matches(project, file, rest, from + 1, pattern, k) + 1
    }
}

proof fn lemma_matching_line_is_hit(
    project: Seq<char>,
    file: Seq<char>,
    lines: Seq<Seq<char>>,
    from: int,
    pattern: Seq<char>,
    j: int,
) -> (k: int)
    requires
        0 <= j < lines.len(),
        has_text(lowercase(lines[j]), pattern),
    ensures
        0 <= k < line_hits(project, file, lines, from, pattern).len(),
        line_hits(project, file, lines, from, pattern)[k] == line_hit(
            project,
            file,
            from + j,
            lines[j],
        ),
    decreases lines.len(),
{
    if j == 0 {
        0
    } else {
        let k = lemma_matching_line_is_hit(
            project,
            file,
            lines.skip(1),
            from + 1,
            pattern,
            j - 1,
        );
        if has_text(lowercase(lines[0]), pattern) {
            k + 1
        } else {
            k
        }
    }
}

proof fn lemma_file_hit_matches(
    project: Seq<char>,
    files: Seq<FileView>,
    pattern: Seq<char>,
    k: int,
) -> (place: (int, int))
    requires
        0 <= k < file_hits(project, files, pattern).len(),
    ensures
        0 <= place.0 < files.len(),
        is_line_hit(
            file_hits(project, files, pattern)[k],
            project,
            files[place.0].path,
            lines_of(files[place.0].text),
            1,
            pattern,
            place.1,
        ),
    decreases files.len(),
{
    let lines = lines_of(files[0].text);
    let here = line_hits(project, files[0].path, lines, 1, pattern);
    if k < here.len() {
        (0, lemma_line_hit_matches(project, files[0].path, lines, 1, pattern, k))
    } else {
        let (f, j) = lemma_file_hit_matches(project, files.skip(1), pattern, k - here.len());
        (f + 1, j)
    }
}

proof fn lemma_matching_line_in_files(
    project: Seq<char>,
    files: Seq<FileView>,
    pattern: Seq<char>,
    f: int,
    j: int,
) -> (k: int)
    requires
        0 <= f < files.len(),
        0 <= j < lines_of(files[f].text).len(),
        has_text(lowercase(lines_of(files[f].text)[j]), pattern),
    ensures
        0 <= k < file_hits(project, files, pattern).len(),
        file_hits(project, files, pattern)[k] == line_hit(
            project,
            files[f].path,
            1 + j,
            lines_of(files[f].text)[j],
        ),
    decreases files.len(),
{
    let lines = lines_of(files[0].text);
    let here = line_hits(project, files[0].path, lines, 1, pattern);
    if f == 0 {
        lemma_matching_line_is_hit(project, files[0].path, lines, 1, pattern, j)
    } else {
        let k = lemma_matching_line_in_files(project, files.skip(1), pattern, f - 1, j);
        k + here.len()
    }
}

/// A line that is found holds the pattern: hit `k` is of line `j` of a file `f` of an index
/// `i`, with its number.
pub proof fn a_found_line_matches(indexes: Seq<IndexView>, pattern: Seq<char>, k: int) -> (place: (
    int,
    int,
    int,
))
    requires
        0 <= k < code_hits(indexes, pattern).len(),
    ensures
        0 <= place.0 < indexes.len(),
        0 <= place.1 < indexes[place.0].files.len(),
        is_line_hit(
            code_hits(indexes, pattern)[k],
            indexes[place.0].project,
            indexes[place.0].files[place.1].path,
            lines_of(indexes[place.0].files[place.1].text),
            1,
            pattern,
            place.2,
        ),
    decreases indexes.len(),
{
    let here = file_hits(indexes[0].project, indexes[0].files, pattern);
    if k < here.len() {
        let (f, j) = lemma_file_hit_matches(indexes[0].project, indexes[0].files, pattern, k);
        (0, f, j)
    } else {
        let (i, f, j) = a_found_line_matches(indexes.skip(1), pattern, k - here.len());
        (i + 1, f, j)
    }
}

/// A line that holds the pattern is found, at the place among the hits that is given back.
pub proof fn a_matching_line_is_found(
    indexes: Seq<IndexView>,
    pattern: Seq<char>,
    i: int,
    f: int,
    j: int,
) -> (k: int)
    requires
        0 <= i < indexes.len(),
        0 <= f < indexes[i].files.len(),
        0 <= j < lines_of(indexes[i].files[f].text).len(),
        has_text(lowercase(lines_of(indexes[i].files[f].text)[j]), pattern),
    ensures
        0 <= k < code_hits(indexes, pattern).len(),
        code_hits(indexes, pattern)[k] == line_hit(
            indexes[i].project,
            indexes[i].files[f].path,
            1 + j,
            lines_of(indexes[i].files[f].text)[j],
        ),
    decreases indexes.len(),
{
    let here = file_hits(indexes[0].project, indexes[0].files, pattern);
    if i == 0 {
        lemma_matching_line_in_files(indexes[0].project, indexes[0].files, pattern, f, j)
    } else {
        let k = a_matching_line_is_found(indexes.skip(1), pattern, i - 1, f, j);
        k + here.len()
    }
}

/// A symbol is found by its own name, in whatever case, at the place among the hits that is
/// given back.
pub proof fn a_symbol_is_found_by_its_name(indexes: Seq<IndexView>, i: int, j: int) -> (k: int)
    requires
        0 <= i < indexes.len(),
        0 <= j < indexes[i].symbols.len(),
    ensures
        0 <= k < graph_hits(indexes, lowercase(indexes[i].symbols[j].name)).len(),
        graph_hits(indexes, lowercase(indexes[i].symbols[j].name))[k] == symbol_hit(
            indexes[i].project,
            indexes[i].symbols[j],
        ),
{
    let name = lowercase(indexes[i].symbols[j].name);
    assert(name.subrange(0, name.len() as int) =~= name);
    assert(stands_at(name, name, 0));
    a_matching_symbol_is_found(indexes, name, i, j)
}

// ---------------------------------------------------------------------------
// Snippets and architecture
// ---------------------------------------------------------------------------

/// The first file at a path.
pub open spec fn file_at(files: Seq<FileView>, path: Seq<char>) -> Option<FileView>
    decreases files.len(),
{
    if files.len() == 0 {
        None
    } else if files[0].path == path {
        Some(files[0])
    } else {
        file_at(files.skip(1), path)
    }
}

/// Whether a symbol is meant by a qualified name: the name ends with the symbol's.
pub open spec fn is_named(symbol: SymbolView, name: Seq<char>) -> bool {
    symbol.name == name || finishes_with(name, symbol.name)
}

/// The snippet around a symbol.
pub open spec fn snippet_json(project: Seq<char>, file: FileView, line: int) -> JsonView {
    JsonView::Object(
        map![
            "project"@ => JsonView::Text(project),
            "file"@ => JsonView::Text(file.path),
            "start_line"@ => JsonView::Integer(line),
            "snippet"@ => JsonView::Text(
                window_of(file.text, line as nat, DEFAULT_SNIPPET_RADIUS as nat),
            ),
        ],
    )
}

/// The snippet around the first symbol that is meant by a name and whose file is there.
pub open spec fn snippet_in(
    project: Seq<char>,
    symbols: Seq<SymbolView>,
    files: Seq<FileView>,
    name: Seq<char>,
) -> Option<JsonView>
    decreases symbols.len(),
{
    if symbols.len() == 0 {
        None
    } else if is_named(symbols[0], name) && file_at(files, symbols[0].file) is Some {
        Some(
            snippet_json(project, file_at(files, symbols[0].file).unwrap(), symbols[0].line),
        )
    } else {
        snippet_in(project, symbols.skip(1), files, name)
    }
}

/// The first snippet in indexes.
pub open spec fn first_snippet(indexes: Seq<IndexView>, name: Seq<char>) -> Option<JsonView>
    decreases indexes.len(),
{
    if indexes.len() == 0 {
        None
    } else {
        match snippet_in(indexes[0].project, indexes[0].symbols, indexes[0].files, name) {
            Some(snippet) => Some(snippet),
            None => first_snippet(indexes.skip(1), name),
        }
    }
}

pub(crate) fn find_file(files: &Vec<FileEntry>, path: &str) -> (place: Option<usize>)
    ensures
        match place {
            Some(i) => i < files@.len() && file_at(file_views(files@), path@) == Some(
                files@[i as int]@,
            ),
            None => file_at(file_views(files@), path@) is None,
        },
{
    let ghost held = file_views(files@);
    let mut i: usize = 0;
    assert(held.skip(0) =~= held);
    while i < files.len()
        invariant
            i <= files@.len(),
            held == file_views(files@),
            file_at(held.skip(i as int), path@) == file_at(held, path@),
        decreases files.len() - i,
    {
        assert(held.skip(i as int)[0] == files@[i as int]@);
        if same_text(files[i].path.as_str(), path) {
            return Some(i);
        }
        assert(held.skip(i as int).skip(1) =~= held.skip(i + 1));
        i = i + 1;
    }
    None
}

fn find_snippet(index: &ClabIndex, name: &str) -> (snippet: Option<JsonValue>)
    ensures
        match snippet {
            Some(s) => snippet_in(index@.project, index@.symbols, index@.files, name@) == Some(s@),
            None => snippet_in(index@.project, index@.symbols, index@.files, name@) is None,
        },
{
    let ghost held = index@.symbols;
    let mut i: usize = 0;
    assert(held.skip(0) =~= held);
    while i < index.symbols.len()
        invariant
            i <= index.symbols@.len(),
            held == index@.symbols,
            snippet_in(index@.project, held.skip(i as int), index@.files, name@) == snippet_in(
                index@.project,
                held,
                index@.files,
                name@,
            ),
        decreases index.symbols.len() - i,
    {
        let symbol = &index.symbols[i];
        assert(held.skip(i as int)[0] == symbol@);
        if same_text(symbol.name.as_str(), name) || ends_with(name, symbol.name.as_str()) {
            if let Some(place) = find_file(&index.files, symbol.file.as_str()) {
                let file = &index.files[place];
                return Some(
                    JsonObject::new().put(
                        "project",
                        JsonValue::text(index.project.as_str()),
                    ).put("file", JsonValue::text(file.path.as_str())).put(
                        "start_line",
                        JsonValue::Uint(symbol.line as u64),
                    ).put(
                        "snippet",
                        JsonValue::Text(
                            window(file.text.as_str(), symbol.line, DEFAULT_SNIPPET_RADIUS),
                        ),
                    ).value(),
                );
            }
        }
        assert(held.skip(i as int).skip(1) =~= held.skip(i + 1));
        i = i + 1;
    }
    None
}

/// The arguments of an architecture map.
#[derive(Debug, Clone, PartialEq, Eq)]
pub struct ArchitectureArgs {
    pub project: Option<String>,
    pub max_components: Option<usize>,
    pub max_hotspots: Option<usize>,
    pub include_summary: Option<bool>,
}

/// How many components an architecture map lists.
pub open spec fn components_limit(input: ArchitectureArgs) -> int {
    match input.max_components {
        Some(n) => n as int,
        None => DEFAULT_ARCHITECTURE_COMPONENTS as int,
    }
}

/// How many hot spots an architecture map lists.
pub open spec fn hotspots_limit(input: ArchitectureArgs) -> int {
    match input.max_hotspots {
        Some(n) => n as int,
        None => DEFAULT_ARCHITECTURE_HOTSPOTS as int,
    }
}

/// Whether an architecture map holds a summary.
pub open spec fn wants_summary(input: ArchitectureArgs) -> bool {
    match input.include_summary {
        Some(b) => b,
        None => true,
    }
}

/// The architecture maps of indexes: the map itself where there is one index.
pub open spec fn architecture_answer(indexes: Seq<IndexView>, input: ArchitectureArgs) -> JsonView {
    let maps = indexes.map_values(
        |i: IndexView|
            architecture_of(
                i,
                components_limit(input),
                hotspots_limit(input),
                wants_summary(input),
            ),
    );
    if maps.len() == 1 {
        maps[0]
    } else {
        JsonView::Object(map!["projects"@ => JsonView::Array(maps)])
    }
}

impl ClabStore {
    /// The snippet around the first symbol that is meant by a name.
    pub fn get_code_snippet(&self, request: &SnippetRequest, indexes: &Vec<ClabIndex>) -> (answer:
        Result<JsonValue, ToolError>)
        ensures
            match answer {
                Ok(snippet) => first_snippet(index_views(indexes@), request@.name) == Some(
                    snippet@,
                ),
                Err(e) => first_snippet(index_views(indexes@), request@.name) is None && e@
                    == ToolErrorView::SymbolNotFound,
            },
    {
        let ghost held = index_views(indexes@);
        let mut i: usize = 0;
        assert(held.skip(0) =~= held);
        while i < indexes.len()
            invariant
                i <= indexes@.len(),
                held == index_views(indexes@),
                first_snippet(held.skip(i as int), request@.name) == first_snippet(
                    held,
                    request@.name,
                ),
            decreases indexes.len() - i,
        {
            assert(held.skip(i as int)[0] == indexes@[i as int]@);
            if let Some(snippet) = find_snippet(&indexes[i], request.name.as_str()) {
                return Ok(snippet);
            }
            assert(held.skip(i as int).skip(1) =~= held.skip(i + 1));
            i = i + 1;
        }
        Err(ToolError::SymbolNotFound)
    }

    /// The architecture maps of indexes.
    pub fn get_architecture(&self, input: &ArchitectureArgs, indexes: &Vec<ClabIndex>) -> (answer:
        JsonValue)
        ensures
            answer@ == architecture_answer(index_views(indexes@), *input),
    {
        broadcast use lemma_array_view;

        let components: usize = match input.max_components {
            Some(n) => n,
            None => DEFAULT_ARCHITECTURE_COMPONENTS,
        };
        let hotspots: usize = match input.max_hotspots {
            Some(n) => n,
            None => DEFAULT_ARCHITECTURE_HOTSPOTS,
        };
        let summarised: bool = match input.include_summary {
            Some(b) => b,
            None => true,
        };
        let ghost wanted = index_views(indexes@).map_values(
            |i: IndexView|
                architecture_of(
                    i,
                    components_limit(*input),
                    hotspots_limit(*input),
                    wants_summary(*input),
                ),
        );
        let mut maps: Vec<JsonValue> = Vec::new();
        let mut i: usize = 0;
        while i < indexes.len()
            invariant
                i <= indexes@.len(),
                maps@.len() == i,
                components == components_limit(*input),
                hotspots == hotspots_limit(*input),
                summarised == wants_summary(*input),
                forall|k: int|
                    0 <= k < i ==> (#[trigger] maps@[k])@ == architecture_of(
                        indexes@[k]@,
                        components_limit(*input),
                        hotspots_limit(*input),
                        wants_summary(*input),
                    ),
            decreases indexes.len() - i,
        {
            maps.push(architecture_map(&indexes[i], components, hotspots, summarised));
            i = i + 1;
        }
        assert(views(maps@) =~= wanted);
        if maps.len() == 1 {
            assert(views(maps@)[0] == maps@[0]@);
            maps[0].clone()
        } else {
            JsonObject::new().put("projects", JsonValue::Array(maps)).value()
        }
    }
}

proof fn lemma_snippet_in(
    project: Seq<char>,
    symbols: Seq<SymbolView>,
    files: Seq<FileView>,
    name: Seq<char>,
    j: int,
)
    requires
        0 <= j < symbols.len(),
        is_named(symbols[j], name),
        file_at(files, symbols[j].file) is Some,
    ensures
        snippet_in(project, symbols, files, name) is Some,
    decreases symbols.len(),
{
    if j > 0 {
        lemma_snippet_in(project, symbols.skip(1), files, name, j - 1);
    }
}

/// A symbol whose file is in its index has a snippet, under its own name and under any name
/// that ends with it.
pub proof fn a_symbol_has_a_snippet(indexes: Seq<IndexView>, i: int, j: int, name: Seq<char>)
    requires
        0 <= i < indexes.len(),
        0 <= j < indexes[i].symbols.len(),
        is_named(indexes[i].symbols[j], name),
        file_at(indexes[i].files, indexes[i].symbols[j].file) is Some,
    ensures
        first_snippet(indexes, name) is Some,
    decreases indexes.len(),
{
    if i == 0 {
        lemma_snippet_in(indexes[0].project, indexes[0].symbols, indexes[0].files, name, j);
    } else {
        a_symbol_has_a_snippet(indexes.skip(1), i - 1, j, name);
    }
}

proof fn lemma_file_at(files: Seq<FileView>, f: int)
    requires
        0 <= f < files.len(),
    ensures
        file_at(files, files[f].path) is Some,
    decreases files.len(),
{
    if f > 0 {
        lemma_file_at(files.skip(1), f - 1);
    }
}

proof fn lemma_symbol_file(files: Seq<FileView>, j: int) -> (f: int)
    requires
        0 <= j < all_symbols(files).len(),
    ensures
        0 <= f < files.len(),
        all_symbols(files)[j].file == files[f].path,
    decreases files.len(),
{
    let fewer = files.drop_last();
    let earlier = all_symbols(fewer);
    if j < earlier.len() {
        lemma_symbol_file(fewer, j)
    } else {
        let lines = lines_of(files.last().text);
        symbols_follow_lines(files.last().path, lines);
        assert(all_symbols(files)[j] == symbols_in(files.last().path, lines)[j - earlier.len()]);
        files.len() - 1
    }
}

/// Every symbol of a project that was just indexed has a snippet under its name.
pub proof fn indexed_symbols_have_snippets(
    root: Seq<char>,
    files: Seq<FileView>,
    git: GitView,
    now: int,
    j: int,
)
    requires
        0 <= j < index_of(root, files, git, now).symbols.len(),
    ensures
        first_snippet(
            seq![index_of(root, files, git, now)],
            index_of(root, files, git, now).symbols[j].name,
        ) is Some,
{
    let index = index_of(root, files, git, now);
    let f = lemma_symbol_file(files, j);
    lemma_file_at(files, f);
    a_symbol_has_a_snippet(seq![index], 0, j, index.symbols[j].name);
}

} // verus!
