//! What git reports of a project's working tree.

use vstd::prelude::*;
use vstd::string::StringExecFns;
use vstd::utf8::{decode_utf8, valid_utf8};

use crate::order::{sort_distinct, sorted_set, sorted_set_exists, text_less};
use crate::seqs::first_of;
use crate::text::{
    begins_with, byte_length, char_bytes, contains_char, count_char_bytes, decimal,
    decimal_text, join, joined, lines, lines_of, optional_text, slice_text, strip_prefix, texts,
    to_chars, trim, trim_start, trimmed, trimmed_start, under_four_bytes,
};
use crate::types::{GitProjectState, GitView};

verus! {

// ---------------------------------------------------------------------------
// Running git
// ---------------------------------------------------------------------------

/// What a run of git left behind.
#[derive(Debug, Clone)]
pub struct GitRun {
    pub success: bool,
    pub stdout: Vec<u8>,
}

/// The text that bytes stand for when what is not UTF-8 is replaced.
pub uninterp spec fn lossy_text(bytes: Seq<u8>) -> Seq<char>;

/// `String::from_utf8_lossy`: the text depends on the bytes alone, and bytes that are UTF-8
/// stand for the text that they encode.
#[verifier::external_body]
fn from_utf8_lossy(bytes: &[u8]) -> (text: String)
    ensures
        text@ == lossy_text(bytes@),
        valid_utf8(bytes@) ==> text@ == decode_utf8(bytes@),
{
    String::from_utf8_lossy(bytes).into_owned()
}

/// What a run of git printed, without white space around it: nothing where the run did not
/// start, failed or printed nothing.
pub open spec fn printed(run: Option<GitRun>) -> Option<Seq<char>> {
    match run {
        Some(r) => if r.success && trimmed(lossy_text(r.stdout@)).len() > 0 {
            Some(trimmed(lossy_text(r.stdout@)))
        } else {
            None
        },
        None => None,
    }
}

/// What a run of git printed.
pub fn git_out(run: &Option<GitRun>) -> (output: Option<String>)
    ensures
        optional_text(output) == printed(*run),
{
    match run {
        Some(r) => {
            if !r.success {
                return None;
            }
            let output = trim(from_utf8_lossy(r.stdout.as_slice()).as_str());
            if output.as_str().is_empty() {
                None
            } else {
                Some(output)
            }
        },
        None => None,
    }
}

/// The git state of a project, from what stands at its root and what git printed of its branch
/// and its head.
pub fn git_state(
    is_git: bool,
    root_exists: bool,
    branch: &Option<GitRun>,
    head: &Option<GitRun>,
) -> (state: GitProjectState)
    ensures
        state@ == (GitView {
            is_git,
            root_exists,
            branch: printed(*branch),
            head_sha: printed(*head),
        }),
{
    GitProjectState { is_git, root_exists, branch: git_out(branch), head_sha: git_out(head) }
}

// ---------------------------------------------------------------------------
// Status lines
// ---------------------------------------------------------------------------

/// A path that the working tree changes, and how.
#[derive(Debug, Clone, PartialEq, Eq)]
pub struct GitStatusEntry {
    pub kind: String,
    pub path: String,
}

/// What a status entry holds.
pub struct StatusEntryView {
    pub kind: Seq<char>,
    pub path: Seq<char>,
}

impl View for GitStatusEntry {
    type V = StatusEntryView;

    open spec fn view(&self) -> StatusEntryView {
        StatusEntryView { kind: self.kind@, path: self.path@ }
    }
}

/// What the status entries in a sequence hold.
pub open spec fn entry_views(entries: Seq<GitStatusEntry>) -> Seq<StatusEntryView> {
    entries.map_values(|e: GitStatusEntry| e@)
}

/// How many characters the first two bytes of a text make, where they are whole characters.
pub open spec fn two_byte_chars(text: Seq<char>) -> Option<int> {
    if text.len() > 0 && char_bytes(text[0]) == 2 {
        Some(1)
    } else if text.len() > 1 && char_bytes(text[0]) == 1 && char_bytes(text[1]) == 1 {
        Some(2)
    } else {
        None
    }
}

/// How a tracked path changed, by its status letters.
pub open spec fn kind_of(status: Seq<char>) -> Seq<char> {
    if status.contains('D') {
        "deleted"@
    } else if status.contains('R') {
        "renamed"@
    } else if status.contains('M') {
        "modified"@
    } else if status.contains('A') {
        "added"@
    } else {
        "changed"@
    }
}

/// The entry on a status line: two bytes of status letters, then the path.
pub open spec fn entry_on(line: Seq<char>) -> Option<StatusEntryView> {
    if byte_length(line) < 4 {
        None
    } else if begins_with(line, "?? "@) {
        Some(StatusEntryView { kind: "untracked"@, path: trimmed(line.skip("?? "@.len() as int)) })
    } else {
        match two_byte_chars(line) {
            Some(n) => {
                let path = trimmed_start(line.skip(n));
                if path.len() == 0 {
                    None
                } else {
                    Some(StatusEntryView { kind: kind_of(trimmed(line.take(n))), path })
                }
            },
            None => None,
        }
    }
}

/// The entries on status lines, in their order.
pub open spec fn entries_on(lines: Seq<Seq<char>>) -> Seq<StatusEntryView>
    decreases lines.len(),
{
    if lines.len() == 0 {
        Seq::empty()
    } else {
        match entry_on(lines.last()) {
            Some(entry) => entries_on(lines.drop_last()).push(entry),
            None => entries_on(lines.drop_last()),
        }
    }
}

fn status_kind(status: &str) -> (kind: String)
    ensures
        kind@ == kind_of(status@),
{
    if contains_char(status, 'D') {
        "deleted".to_owned()
    } else if contains_char(status, 'R') {
        "renamed".to_owned()
    } else if contains_char(status, 'M') {
        "modified".to_owned()
    } else if contains_char(status, 'A') {
        "added".to_owned()
    } else {
        "changed".to_owned()
    }
}

/// The entry on a status line.
pub fn parse_status_line(line: &str) -> (entry: Option<GitStatusEntry>)
    ensures
        match entry {
            Some(e) => entry_on(line@) == Some(e@),
            None => entry_on(line@) is None,
        },
{
    if under_four_bytes(line) {
        return None;
    }
    if let Some(path) = strip_prefix(line, "?? ") {
        return Some(
            GitStatusEntry { kind: "untracked".to_owned(), path: trim(path.as_str()) },
        );
    }
    let chars = to_chars(line);
    let cut: usize = if chars.len() > 0 && count_char_bytes(chars[0]) == 2 {
        1
    } else if chars.len() > 1 && count_char_bytes(chars[0]) == 1 && count_char_bytes(chars[1])
        == 1 {
        2
    } else {
        return None;
    };
    assert(chars@.subrange(0, cut as int) =~= line@.take(cut as int));
    assert(chars@.subrange(cut as int, chars@.len() as int) =~= line@.skip(cut as int));
    let status = trim(slice_text(&chars, 0, cut).as_str());
    let path = trim_start(slice_text(&chars, cut, chars.len()).as_str());
    if path.as_str().is_empty() {
        return None;
    }
    Some(GitStatusEntry { kind: status_kind(status.as_str()), path })
}

/// The entries that git's short status lists.
pub fn parse_git_status_entries(output: &str) -> (entries: Vec<GitStatusEntry>)
    ensures
        entry_views(entries@) == entries_on(lines_of(output@)),
{
    let split = lines(output);
    let ghost all = lines_of(output@);
    let mut entries: Vec<GitStatusEntry> = Vec::new();
    let mut i: usize = 0;
    assert(entry_views(entries@) =~= entries_on(all.take(0)));
    while i < split.len()
        invariant
            i <= split@.len(),
            all == texts(split@),
            entry_views(entries@) == entries_on(all.take(i as int)),
        decreases split.len() - i,
    {
        let ghost done = entries@;
        assert(all[i as int] == split@[i as int]@);
        assert(all.take(i + 1).drop_last() =~= all.take(i as int));
        assert(all.take(i + 1).last() == all[i as int]);
        if let Some(entry) = parse_status_line(split[i].as_str()) {
            entries.push(entry);
            assert(entry_views(entries@) =~= entry_views(done).push(entry@));
        }
        i = i + 1;
    }
    assert(all.take(i as int) =~= all);
    entries
}

/// The entries of what git printed, none where it printed nothing.
pub open spec fn entries_printed(run: Option<GitRun>) -> Seq<StatusEntryView> {
    match printed(run) {
        Some(output) => entries_on(lines_of(output)),
        None => Seq::empty(),
    }
}

/// The entries of what git printed as its short status.
pub fn git_status_entries(run: &Option<GitRun>) -> (entries: Vec<GitStatusEntry>)
    ensures
        entry_views(entries@) == entries_printed(*run),
{
    match git_out(run) {
        Some(output) => parse_git_status_entries(output.as_str()),
        None => {
            let entries: Vec<GitStatusEntry> = Vec::new();
            assert(entry_views(entries@) =~= Seq::empty());
            entries
        },
    }
}

/// Every entry on a status line has a path, unless an untracked one is all white space, and
/// one of six kinds.
pub proof fn entries_are_classified(line: Seq<char>)
    ensures
        entry_on(line) matches Some(entry) ==> {
            let kind = entry.kind;
            &&& kind == "untracked"@ || entry.path.len() > 0
            &&& kind == "untracked"@ || kind == "deleted"@ || kind == "renamed"@ || kind
                == "modified"@ || kind == "added"@ || kind == "changed"@
        },
{
}

// ---------------------------------------------------------------------------
// Reports
// ---------------------------------------------------------------------------

/// The paths that a report lists: in order, each once, at most `limit`, or none at all.
pub open spec fn listed_paths(
    paths: Seq<Seq<char>>,
    include_files: bool,
    limit: int,
) -> Seq<Seq<char>> {
    if include_files {
        first_of(sorted_set(paths), limit)
    } else {
        Seq::empty()
    }
}

/// The paths that a report lists.
pub fn maybe_limit_paths(paths: Vec<String>, include_files: bool, limit: usize) -> (listed: Vec<
    String,
>)
    ensures
        texts(listed@) == listed_paths(texts(paths@), include_files, limit as int),
{
    if !include_files {
        let listed: Vec<String> = Vec::new();
        assert(texts(listed@) =~= Seq::empty());
        return listed;
    }
    let mut listed = sort_distinct(&paths);
    let ghost sorted = listed@;
    assert(texts(sorted).len() == sorted.len());
    listed.truncate(limit);
    assert(texts(listed@) =~= first_of(texts(sorted), limit as int));
    listed
}

/// A report lists no more paths than its limit, each one of the paths that it is about, in
/// order and once; and where the limit allows it lists them all.
pub proof fn listed_paths_are_ordered(paths: Seq<Seq<char>>, limit: nat)
    ensures
        listed_paths(paths, true, limit as int).len() <= limit,
        forall|i: int, j: int|
            0 <= i < j < listed_paths(paths, true, limit as int).len() ==> text_less(
                #[trigger] listed_paths(paths, true, limit as int)[i],
                #[trigger] listed_paths(paths, true, limit as int)[j],
            ),
        forall|i: int|
            0 <= i < listed_paths(paths, true, limit as int).len() ==> paths.contains(
                #[trigger] listed_paths(paths, true, limit as int)[i],
            ),
        sorted_set(paths).len() <= limit ==> forall|k: int|
            0 <= k < paths.len() ==> listed_paths(paths, true, limit as int).contains(
                #[trigger] paths[k],
            ),
{
    sorted_set_exists(paths);
    let sorted = sorted_set(paths);
    assert forall|i: int| 0 <= i < sorted.len() implies paths.contains(#[trigger] sorted[i]) by {
        assert(sorted.contains(sorted[i]));
    }
    assert forall|k: int| 0 <= k < paths.len() implies sorted.contains(#[trigger] paths[k]) by {
        assert(paths.contains(paths[k]));
    }
}

/// What changed, in words: the reasons joined, with the number of files where there are any.
pub open spec fn change_summary(
    head_changed: bool,
    branch_changed: bool,
    dirty: bool,
    file_changes: nat,
) -> Seq<char> {
    let head = if head_changed {
        seq!["Git HEAD changed"@]
    } else {
        Seq::empty()
    };
    let branch = if branch_changed {
        seq!["branch changed"@]
    } else {
        Seq::empty()
    };
    let tree = if !dirty {
        Seq::empty()
    } else if file_changes > 0 {
        seq!["working tree is dirty"@]
    } else {
        seq!["working tree changed"@]
    };
    let reasons = joined(head + branch + tree, " and "@);
    if file_changes > 0 {
        reasons + " ("@ + decimal_text(file_changes) + " file changes)."@
    } else {
        reasons + "."@
    }
}

/// What changed, in words.
pub fn summarize_change_state(
    head_changed: bool,
    branch_changed: bool,
    dirty: bool,
    file_change_total: usize,
) -> (summary: String)
    ensures
        summary@ == change_summary(
            head_changed,
            branch_changed,
            dirty,
            file_change_total as nat,
        ),
{
    let mut parts: Vec<String> = Vec::new();
    let ghost head = if head_changed {
        seq!["Git HEAD changed"@]
    } else {
        Seq::empty()
    };
    let ghost branch = if branch_changed {
        seq!["branch changed"@]
    } else {
        Seq::empty()
    };
    if head_changed {
        parts.push("Git HEAD changed".to_owned());
    }
    assert(texts(parts@) =~= head);
    if branch_changed {
        parts.push("branch changed".to_owned());
    }
    assert(texts(parts@) =~= head + branch);
    if dirty {
        if file_change_total > 0 {
            parts.push("working tree is dirty".to_owned());
            assert(texts(parts@) =~= head + branch + seq!["working tree is dirty"@]);
        } else {
            parts.push("working tree changed".to_owned());
            assert(texts(parts@) =~= head + branch + seq!["working tree changed"@]);
        }
    } else {
        assert(texts(parts@) =~= head + branch + Seq::<Seq<char>>::empty());
    }
    let mut summary = join(&parts, " and ");
    if file_change_total > 0 {
        summary.append(" (");
        summary.append(decimal(file_change_total as u64).as_str());
        summary.append(" file changes).");
    } else {
        summary.append(".");
    }
    summary
}

} // verus!
