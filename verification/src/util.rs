//! Tool arguments, index summaries and text windows.

use vstd::prelude::*;
use vstd::string::StringExecFns;

use crate::json::{optional_text_view, JsonObject, JsonValue, JsonView};
use crate::text::{decimal, decimal_text, join, joined, lines, lines_of, optional_text, texts};
use crate::types::{file_views, ClabIndex, FileEntry, FileView, GitProjectState, GitView, IndexView};

verus! {

// ---------------------------------------------------------------------------
// Why a tool refuses
// ---------------------------------------------------------------------------

/// Why a tool call is refused.
#[derive(Debug, Clone, PartialEq, Eq)]
pub enum ToolError {
    /// An argument of that name is required.
    Required(String),
    /// There is no tool of that name.
    Unsupported(String),
    /// No indexed symbol has the name that was asked for.
    SymbolNotFound,
}

/// What a refusal says.
pub enum ToolErrorView {
    Required(Seq<char>),
    Unsupported(Seq<char>),
    SymbolNotFound,
}

impl View for ToolError {
    type V = ToolErrorView;

    open spec fn view(&self) -> ToolErrorView {
        match self {
            ToolError::Required(key) => ToolErrorView::Required(key@),
            ToolError::Unsupported(tool) => ToolErrorView::Unsupported(tool@),
            ToolError::SymbolNotFound => ToolErrorView::SymbolNotFound,
        }
    }
}

/// A refusal in words.
pub open spec fn refusal(error: ToolErrorView) -> Seq<char> {
    match error {
        ToolErrorView::Required(key) => key + " is required"@,
        ToolErrorView::Unsupported(tool) => "unsupported tool: "@ + tool,
        ToolErrorView::SymbolNotFound => "symbol not found"@,
    }
}

impl ToolError {
    /// The refusal in words.
    pub fn message(&self) -> (text: String)
        ensures
            text@ == refusal(self@),
    {
        match self {
            ToolError::Required(key) => {
                let mut text = key.clone();
                text.append(" is required");
                text
            },
            ToolError::Unsupported(tool) => {
                let mut text = "unsupported tool: ".to_owned();
                text.append(tool.as_str());
                text
            },
            ToolError::SymbolNotFound => "symbol not found".to_owned(),
        }
    }
}

// ---------------------------------------------------------------------------
// Arguments
// ---------------------------------------------------------------------------

/// The text argument of that name.
pub fn opt_str(args: &JsonValue, key: &str) -> (text: Option<String>)
    ensures
        optional_text(text) == args@.text_at(key@),
{
    match args.get(key) {
        Some(value) => match value.as_str() {
            Some(text) => Some(text.to_owned()),
            None => None,
        },
        None => None,
    }
}

/// The text argument of that name, or the empty text where there is none.
pub fn str_or_empty(args: &JsonValue, key: &str) -> (text: String)
    ensures
        text@ == crate::json::or_empty(args@.text_at(key@)),
{
    match opt_str(args, key) {
        Some(text) => text,
        None => String::new(),
    }
}

/// The text argument of that name, which must be given.
pub fn required_str(args: &JsonValue, key: &str) -> (text: Result<String, ToolError>)
    ensures
        match text {
            Ok(t) => args@.text_at(key@) == Some(t@),
            Err(e) => args@.text_at(key@) is None && e@ == ToolErrorView::Required(key@),
        },
{
    match opt_str(args, key) {
        Some(text) => Ok(text),
        None => Err(ToolError::Required(key.to_owned())),
    }
}

/// The unsigned integer argument of that name, as a size.
pub open spec fn size_at(args: JsonView, key: Seq<char>) -> Option<usize> {
    match args.uint_at(key) {
        Some(n) => Some((n as u64) as usize),
        None => None,
    }
}

/// The size argument of that name, or else a default.
pub open spec fn size_or(args: JsonView, key: Seq<char>, default: usize) -> usize {
    match size_at(args, key) {
        Some(n) => n,
        None => default,
    }
}

/// The unsigned integer argument of that name, as a size.
pub fn opt_usize(args: &JsonValue, key: &str) -> (number: Option<usize>)
    ensures
        number == size_at(args@, key@),
{
    match args.get(key) {
        Some(value) => match value.as_u64() {
            Some(n) => Some(n as usize),
            None => None,
        },
        None => None,
    }
}

/// The truth argument of that name.
pub fn opt_bool(args: &JsonValue, key: &str) -> (answer: Option<bool>)
    ensures
        answer == args@.bool_at(key@),
{
    match args.get(key) {
        Some(value) => value.as_bool(),
        None => None,
    }
}

/// Texts as a JSON array.
pub fn text_array(items: &Vec<String>) -> (value: JsonValue)
    ensures
        value@ == text_array_view(texts(items@)),
{
    broadcast use crate::json::lemma_array_view;

    let mut array: Vec<JsonValue> = Vec::new();
    let mut i: usize = 0;
    while i < items.len()
        invariant
            i <= items@.len(),
            array@.len() == i,
            forall|k: int|
                0 <= k < i ==> (#[trigger] array@[k])@ == JsonView::Text(items@[k]@),
        decreases items.len() - i,
    {
        array.push(JsonValue::Text(items[i].clone()));
        i = i + 1;
    }
    assert(crate::json::views(array@) =~= texts(items@).map_values(
        |t: Seq<char>| JsonView::Text(t),
    ));
    JsonValue::Array(array)
}

/// Texts as a JSON array.
pub open spec fn text_array_view(items: Seq<Seq<char>>) -> JsonView {
    JsonView::Array(items.map_values(|t: Seq<char>| JsonView::Text(t)))
}

// ---------------------------------------------------------------------------
// Summaries
// ---------------------------------------------------------------------------

/// The sizes of files added up.
pub open spec fn total_size(files: Seq<FileView>) -> int
    decreases files.len(),
{
    if files.len() == 0 {
        0
    } else {
        total_size(files.drop_last()) + files.last().bytes
    }
}

proof fn lemma_total_size_monotone(files: Seq<FileView>, n: int)
    requires
        0 <= n <= files.len(),
        forall|i: int| 0 <= i < files.len() ==> (#[trigger] files[i]).bytes >= 0,
    ensures
        total_size(files.take(n)) <= total_size(files),
    decreases files.len(),
{
    if n < files.len() {
        lemma_total_size_monotone(files.drop_last(), n);
        assert(files.drop_last().take(n) =~= files.take(n));
    } else {
        assert(files.take(n) =~= files);
    }
}

/// The sizes of files added up, where 64 bits hold the sum.
pub fn total_bytes(files: &Vec<FileEntry>) -> (total: Option<u64>)
    ensures
        match total {
            Some(n) => n == total_size(file_views(files@)),
            None => total_size(file_views(files@)) > u64::MAX,
        },
{
    let ghost held = file_views(files@);
    let mut total: u64 = 0;
    let mut i: usize = 0;
    while i < files.len()
        invariant
            i <= files@.len(),
            held == file_views(files@),
            total == total_size(held.take(i as int)),
        decreases files.len() - i,
    {
        assert(held.take(i + 1).drop_last() =~= held.take(i as int));
        assert(held[i as int].bytes == files@[i as int].bytes);
        if files[i].bytes > u64::MAX - total {
            proof {
                lemma_total_size_monotone(held, i + 1);
            }
            return None;
        }
        total = total + files[i].bytes;
        i = i + 1;
    }
    assert(held.take(i as int) =~= held);
    Some(total)
}

/// A git state as a JSON value.
pub open spec fn git_json(git: GitView) -> JsonView {
    JsonView::Object(
        map![
            "is_git"@ => JsonView::Bool(git.is_git),
            "root_exists"@ => JsonView::Bool(git.root_exists),
            "branch"@ => optional_text_view(git.branch),
            "head_sha"@ => optional_text_view(git.head_sha),
        ],
    )
}

/// A git state as a JSON value.
pub fn git_value(git: &GitProjectState) -> (value: JsonValue)
    ensures
        value@ == git_json(git@),
{
    JsonObject::new().put("is_git", JsonValue::Bool(git.is_git)).put(
        "root_exists",
        JsonValue::Bool(git.root_exists),
    ).put("branch", JsonValue::optional_text(&git.branch)).put(
        "head_sha",
        JsonValue::optional_text(&git.head_sha),
    ).value()
}

/// The summary of an index: its project, its size and its git state.
pub open spec fn index_summary(index: IndexView, status: Seq<char>) -> JsonView {
    JsonView::Object(
        map![
            "project"@ => JsonView::Text(index.project),
            "root_path"@ => JsonView::Text(index.root_path),
            "status"@ => JsonView::Text(status),
            "files"@ => JsonView::Integer(index.files.len() as int),
            "symbols"@ => JsonView::Integer(index.symbols.len() as int),
            "bytes"@ => JsonView::Integer(total_size(index.files)),
            "git"@ => git_json(index.git),
        ],
    )
}

/// Whether 64 bits hold the sizes of an index's files added up.
pub open spec fn size_fits(index: IndexView) -> bool {
    total_size(index.files) <= u64::MAX
}

/// The summary of an index.
pub fn summary(index: &ClabIndex, status: &str) -> (value: JsonValue)
    requires
        size_fits(index@),
    ensures
        value@ == index_summary(index@, status@),
{
    let bytes: u64 = match total_bytes(&index.files) {
        Some(n) => n,
        None => 0,
    };
    JsonObject::new().put("project", JsonValue::text(index.project.as_str())).put(
        "root_path",
        JsonValue::text(index.root_path.as_str()),
    ).put("status", JsonValue::text(status)).put(
        "files",
        JsonValue::Uint(index.files.len() as u64),
    ).put("symbols", JsonValue::Uint(index.symbols.len() as u64)).put(
        "bytes",
        JsonValue::Uint(bytes),
    ).put("git", git_value(&index.git)).value()
}

// ---------------------------------------------------------------------------
// Windows
// ---------------------------------------------------------------------------

/// The first line of a window, counted from zero.
pub open spec fn window_start(line: nat, radius: nat) -> int {
    if line > radius {
        line - radius - 1
    } else {
        0
    }
}

/// The line after the last one of a window, counted from zero.
pub open spec fn window_end(count: nat, line: nat, radius: nat) -> int {
    if line + radius <= count {
        (line + radius) as int
    } else {
        count as int
    }
}

/// A line with its number in front, where lines are counted from one.
pub open spec fn numbered(number: nat, line: Seq<char>) -> Seq<char> {
    decimal_text(number) + ":"@ + line
}

/// The lines within `radius` of a line, each with its number.
pub open spec fn window_lines(lines: Seq<Seq<char>>, line: nat, radius: nat) -> Seq<Seq<char>> {
    let start = window_start(line, radius);
    let end = window_end(lines.len(), line, radius);
    if start < end {
        Seq::new(
            (end - start) as nat,
            |i: int| numbered((start + i + 1) as nat, lines[start + i]),
        )
    } else {
        Seq::empty()
    }
}

/// The lines of a text within `radius` of a line, each with its number.
pub open spec fn window_of(text: Seq<char>, line: nat, radius: nat) -> Seq<char> {
    joined(window_lines(lines_of(text), line, radius), "\n"@)
}

/// The lines of a text within `radius` of a line, each with its number.
pub fn window(text: &str, line: usize, radius: usize) -> (shown: String)
    ensures
        shown@ == window_of(text@, line as nat, radius as nat),
{
    let split = lines(text);
    let ghost all = lines_of(text@);
    let start: usize = if line > radius {
        line - radius - 1
    } else {
        0
    };
    assert(texts(split@).len() == split@.len());
    let end: usize = if split.len() >= radius && line <= split.len() - radius {
        line + radius
    } else {
        split.len()
    };
    let ghost wanted = window_lines(all, line as nat, radius as nat);
    let mut shown: Vec<String> = Vec::new();
    let mut i: usize = start;
    while i < end
        invariant
            start <= i,
            end <= split@.len(),
            all == texts(split@),
            start == window_start(line as nat, radius as nat),
            end == window_end(all.len(), line as nat, radius as nat),
            wanted == window_lines(all, line as nat, radius as nat),
            shown@.len() == i - start,
            i > start ==> i <= end,
            forall|k: int| 0 <= k < shown@.len() ==> (#[trigger] shown@[k])@ == wanted[k],
        decreases end - i,
    {
        let mut row = decimal(i as u64 + 1);
        row.append(":");
        row.append(split[i].as_str());
        assert(all[i as int] == split@[i as int]@);
        assert(row@ == wanted[i - start]);
        shown.push(row);
        i = i + 1;
    }
    assert(texts(shown@) =~= wanted);
    join(&shown, "\n")
}

/// A window holds no more lines than twice its radius and one.
pub proof fn window_is_bounded(lines: Seq<Seq<char>>, line: nat, radius: nat)
    ensures
        window_lines(lines, line, radius).len() <= 2 * radius + 1,
        window_lines(lines, line, radius).len() <= lines.len(),
{
}

/// A window shows the line that it is about.
pub proof fn window_shows_its_line(lines: Seq<Seq<char>>, line: nat, radius: nat)
    requires
        1 <= line <= lines.len(),
    ensures
        window_lines(lines, line, radius).contains(numbered(line, lines[line - 1])),
{
    let start = window_start(line, radius);
    let shown = window_lines(lines, line, radius);
    assert(shown[line - 1 - start] == numbered(line, lines[line - 1]));
}

} // verus!
