//! What a change report says of an index, of git and of the working tree.

use vstd::prelude::*;
use vstd::set_lib::lemma_len_subset;

use crate::daemon::has_changes;
use crate::git::{
    change_summary, entries_on, entries_printed, entry_on, listed_paths, listed_paths_are_ordered,
    lossy_text, printed, GitRun, StatusEntryView,
};
use crate::json::JsonView;
use crate::laws::names::report_names;
use crate::laws::texts::{is_blank, leading_blanks_go, trimming_drops_blanks};
use crate::order::{
    sorted_set, sorted_set_exists, text_less, text_less_irreflexive, text_less_transitive,
};
use crate::seqs::{lemma_filter_has, lemma_filter_keeps};
use crate::store::{
    change_report, is_changed, is_deleted, is_untracked, paths_where, stale_reasons,
    DEFAULT_CHANGE_FILE_LIMIT,
};
use crate::text::{begins_with, byte_length, decimal_text, joined, lines_of, trimmed, white_space};
use crate::types::{GitView, IndexView};
use crate::util::text_array_view;

verus! {

// ---------------------------------------------------------------------------
// Reports
// ---------------------------------------------------------------------------

/// A text as a field, null where there is none.
pub open spec fn text_or_null(text: Option<Seq<char>>) -> JsonView {
    match text {
        Some(t) => JsonView::Text(t),
        None => JsonView::Null,
    }
}

/// A report gives the head and the branch that were indexed and those that are there now, says
/// of each whether the two differ, and whether the working tree has changes.
pub proof fn a_report_compares_heads_and_branches(
    index: IndexView,
    current: GitView,
    entries: Seq<StatusEntryView>,
    include_files: bool,
    limit: nat,
)
    ensures
        ({
            let report = change_report(index, current, entries, include_files, limit);
            &&& report.text_at("project"@) == Some(index.project)
            &&& report.text_at("root_path"@) == Some(index.root_path)
            &&& report.get("indexed_head_sha"@) == Some(text_or_null(index.git.head_sha))
            &&& report.get("current_head_sha"@) == Some(text_or_null(current.head_sha))
            &&& report.bool_at("head_changed"@) == Some(
                report.get("indexed_head_sha"@) != report.get("current_head_sha"@),
            )
            &&& report.get("branch"@) matches Some(branch) && {
                &&& branch.get("indexed"@) == Some(text_or_null(index.git.branch))
                &&& branch.get("current"@) == Some(text_or_null(current.branch))
                &&& branch.bool_at("changed"@) == Some(
                    branch.get("indexed"@) != branch.get("current"@),
                )
                &&& report.bool_at("branch_changed"@) == branch.bool_at("changed"@)
            }
            &&& report.bool_at("dirty"@) == Some(entries.len() > 0)
        }),
{
    report_names();
    let report = change_report(index, current, entries, include_files, limit);
    assert(report.text_at("project"@) == Some(index.project));
    assert(report.text_at("root_path"@) == Some(index.root_path));
    assert(report.get("indexed_head_sha"@) == Some(text_or_null(index.git.head_sha)));
    assert(report.get("current_head_sha"@) == Some(text_or_null(current.head_sha)));
    assert(report.bool_at("head_changed"@) == Some(current.head_sha != index.git.head_sha));
    let branch = report.get("branch"@)->Some_0;
    assert(branch.get("indexed"@) == Some(text_or_null(index.git.branch)));
    assert(branch.get("current"@) == Some(text_or_null(current.branch)));
    assert(branch.bool_at("changed"@) == Some(current.branch != index.git.branch));
    assert(report.bool_at("branch_changed"@) == branch.bool_at("changed"@));
    assert(report.bool_at("dirty"@) == Some(entries.len() > 0));
}

/// An index is stale exactly where its head is another, its branch is another, or the working
/// tree has changes; the reasons are named, counted and answered with an action.
pub proof fn a_report_says_when_an_index_is_stale(
    index: IndexView,
    current: GitView,
    entries: Seq<StatusEntryView>,
    include_files: bool,
    limit: nat,
)
    ensures
        ({
            let report = change_report(index, current, entries, include_files, limit);
            let head = index.git.head_sha != current.head_sha;
            let branch = index.git.branch != current.branch;
            let files = entries.len() as int;
            let stale = head || branch || files > 0;
            &&& report.bool_at("stale"@) == Some(stale)
            &&& report.items_at("stale_reason"@) matches Some(reasons) && {
                &&& reasons.contains(JsonView::Text("head_changed"@)) <==> head
                &&& reasons.contains(JsonView::Text("branch_changed"@)) <==> branch
                &&& reasons.contains(JsonView::Text("working_tree_dirty"@)) <==> files > 0
                &&& reasons.len() == (if head { 1int } else { 0 }) + (if branch { 1int } else { 0 })
                    + (if files > 0 { 1int } else { 0 })
                &&& reasons.len() > 0 && head ==> reasons[0] == JsonView::Text("head_changed"@)
                &&& reasons.len() > 0 && files > 0 ==> reasons.last() == JsonView::Text(
                    "working_tree_dirty"@,
                )
                &&& report.get("changed_count"@) == Some(
                    JsonView::Integer(
                        if reasons.len() > files {
                            reasons.len() as int
                        } else {
                            files
                        },
                    ),
                )
            }
            &&& !stale ==> report.text_at("recommended_action"@) == Some("none"@)
            &&& head || branch || files > limit ==> report.text_at("recommended_action"@) == Some(
                "reindex_full"@,
            )
            &&& stale && !head && !branch && files <= limit ==> report.text_at(
                "recommended_action"@,
            ) == Some("reindex_partial"@)
            &&& !stale ==> report.text_at("summary"@) == Some("Index is current."@)
            &&& stale ==> report.text_at("summary"@) == Some(
                change_summary(head, branch, files > 0, entries.len()),
            )
        }),
{
    report_names();
    let head = index.git.head_sha != current.head_sha;
    let branch = index.git.branch != current.branch;
    let reasons = stale_reasons(head, branch, entries.len() > 0);
    let shown = text_array_view(reasons)->Array_0;
    assert(shown.len() == reasons.len());
    assert forall|k: int| 0 <= k < shown.len() implies #[trigger] shown[k] == JsonView::Text(
        reasons[k],
    ) by {}
    if head {
        assert(shown[0] == JsonView::Text("head_changed"@));
    }
    if branch {
        assert(shown[if head { 1 } else { 0 }] == JsonView::Text("branch_changed"@));
    }
    if entries.len() > 0 {
        assert(shown.last() == JsonView::Text("working_tree_dirty"@));
    }
}

/// A project is indexed again by the daemon exactly where its report calls it stale, as far as
/// the count of changes fits 64 bits.
pub proof fn the_daemon_sees_what_is_stale(
    index: IndexView,
    current: GitView,
    entries: Seq<StatusEntryView>,
    include_files: bool,
    limit: nat,
)
    requires
        entries.len() <= u64::MAX,
    ensures
        has_changes(change_report(index, current, entries, include_files, limit)) <==> (
        index.git.head_sha != current.head_sha || index.git.branch != current.branch
            || entries.len() > 0),
{
    report_names();
    a_report_says_when_an_index_is_stale(index, current, entries, include_files, limit);
}

/// What a change report counts is what its field holds, where that is more than nothing.
pub proof fn counted_changes_are_seen(report: JsonView, count: int)
    ensures
        report.get("changed_count"@) == Some(JsonView::Integer(count)) && 0 < count <= u64::MAX
            ==> has_changes(report),
        report.get("changed_count"@) == Some(JsonView::Integer(count)) && count <= 0
            ==> !has_changes(report),
        report.get("changed_count"@) is None ==> !has_changes(report),
{
}

// ---------------------------------------------------------------------------
// The files of a report
// ---------------------------------------------------------------------------

/// The list in which a report has the path of an entry.
pub open spec fn list_for(kind: Seq<char>) -> Seq<char> {
    if kind == "untracked"@ {
        "untracked_files"@
    } else if kind == "deleted"@ {
        "deleted_files"@
    } else {
        "changed_files"@
    }
}

proof fn lemma_listed(
    entries: Seq<StatusEntryView>,
    keep: spec_fn(StatusEntryView) -> bool,
    limit: nat,
    k: int,
)
    requires
        0 <= k < entries.len(),
        keep(entries[k]),
        entries.len() <= limit,
    ensures
        text_array_view(listed_paths(paths_where(entries, keep), true, limit as int))->Array_0
            .contains(JsonView::Text(entries[k].path)),
{
    let kept = entries.filter(keep);
    let paths = paths_where(entries, keep);
    lemma_filter_keeps(entries, keep);
    lemma_filter_has(entries, keep, k);
    let j = kept.index_of(entries[k]);
    assert(paths[j] == entries[k].path);
    sorted_set_exists(paths);
    lemma_sorted_is_short(paths);
    listed_paths_are_ordered(paths, limit);
    let listed = listed_paths(paths, true, limit as int);
    assert(listed.contains(paths[j]));
    let i = listed.index_of(paths[j]);
    assert(text_array_view(listed)->Array_0[i] == JsonView::Text(entries[k].path));
}

proof fn lemma_sorted_is_short(paths: Seq<Seq<char>>)
    ensures
        sorted_set(paths).len() <= paths.len(),
{
    sorted_set_exists(paths);
    let sorted = sorted_set(paths);
    assert(sorted.no_duplicates()) by {
        assert forall|i: int, j: int|
            0 <= i < sorted.len() && 0 <= j < sorted.len() && i != j implies sorted[i] != sorted[j] by {
            text_less_irreflexive(sorted[i]);
            text_less_irreflexive(sorted[j]);
        }
    }
    sorted.unique_seq_to_set();
    assert(sorted.to_set().subset_of(paths.to_set())) by {
        assert forall|p: Seq<char>| sorted.to_set().contains(p) implies paths.to_set().contains(
            p,
        ) by {
            assert(sorted.contains(p));
            assert(paths.contains(p));
        }
    }
    lemma_len_subset(sorted.to_set(), paths.to_set());
    paths.lemma_cardinality_of_set();
}

proof fn lemma_only_listed(
    entries: Seq<StatusEntryView>,
    keep: spec_fn(StatusEntryView) -> bool,
    limit: nat,
    i: int,
) -> (k: int)
    requires
        0 <= i < listed_paths(paths_where(entries, keep), true, limit as int).len(),
    ensures
        0 <= k < entries.len(),
        keep(entries[k]),
        listed_paths(paths_where(entries, keep), true, limit as int)[i] == entries[k].path,
{
    let kept = entries.filter(keep);
    let paths = paths_where(entries, keep);
    lemma_filter_keeps(entries, keep);
    listed_paths_are_ordered(paths, limit);
    let path = listed_paths(paths, true, limit as int)[i];
    assert(paths.contains(path));
    let j = paths.index_of(path);
    assert(kept[j].path == path);
    assert(entries.contains(kept[j]));
    entries.index_of(kept[j])
}

/// A report lists the path of every entry in the list for its kind, as far as the limit
/// reaches, unless it is asked for no lists.
pub proof fn a_report_lists_every_path(
    index: IndexView,
    current: GitView,
    entries: Seq<StatusEntryView>,
    limit: nat,
    k: int,
)
    requires
        0 <= k < entries.len(),
        entries.len() <= limit,
    ensures
        change_report(index, current, entries, true, limit).items_at(
            list_for(entries[k].kind),
        ) matches Some(listed) && listed.contains(JsonView::Text(entries[k].path)),
{
    report_names();
    if entries[k].kind == "untracked"@ {
        lemma_listed(entries, |e: StatusEntryView| is_untracked(e), limit, k);
    } else if entries[k].kind == "deleted"@ {
        lemma_listed(entries, |e: StatusEntryView| is_deleted(e), limit, k);
    } else {
        lemma_listed(entries, |e: StatusEntryView| is_changed(e), limit, k);
    }
}

/// A report lists no other paths: each is that of an entry of the kind of its list. No list is
/// longer than the limit, and all are empty where none is asked for.
pub proof fn a_report_lists_no_other_paths(
    index: IndexView,
    current: GitView,
    entries: Seq<StatusEntryView>,
    limit: nat,
    list: Seq<char>,
    i: int,
) -> (k: int)
    requires
        list == "changed_files"@ || list == "untracked_files"@ || list == "deleted_files"@,
        change_report(index, current, entries, true, limit).items_at(list) matches Some(listed) && 0
            <= i < listed.len(),
    ensures
        ({
            let report = change_report(index, current, entries, true, limit);
            let short = change_report(index, current, entries, false, limit);
            &&& report.items_at(list) matches Some(listed) && listed.len() <= limit && 0 <= k
                < entries.len() && list_for(entries[k].kind) == list && listed[i]
                == JsonView::Text(entries[k].path)
            &&& short.items_at(list) matches Some(listed) && listed.len() == 0
        }),
{
    report_names();
    let keep = if list == "untracked_files"@ {
        |e: StatusEntryView| is_untracked(e)
    } else if list == "deleted_files"@ {
        |e: StatusEntryView| is_deleted(e)
    } else {
        |e: StatusEntryView| is_changed(e)
    };
    listed_paths_are_ordered(paths_where(entries, keep), limit);
    lemma_only_listed(entries, keep, limit, i)
}

/// Where a list is cut, what comes first in the order of paths is kept: no path is listed before
/// which one that belongs to the list is left out.
pub proof fn the_first_paths_are_listed(
    index: IndexView,
    current: GitView,
    entries: Seq<StatusEntryView>,
    limit: nat,
    i: int,
    k: int,
    path: Seq<char>,
)
    requires
        0 <= k < entries.len(),
        change_report(index, current, entries, true, limit).items_at(
            list_for(entries[k].kind),
        ) matches Some(listed) && 0 <= i < listed.len() && listed[i] == JsonView::Text(path),
        text_less(entries[k].path, path),
    ensures
        change_report(index, current, entries, true, limit).items_at(
            list_for(entries[k].kind),
        ) matches Some(listed) && listed.contains(JsonView::Text(entries[k].path)),
{
    report_names();
    if entries[k].kind == "untracked"@ {
        lemma_earlier_is_listed(entries, |e: StatusEntryView| is_untracked(e), limit, i, k);
    } else if entries[k].kind == "deleted"@ {
        lemma_earlier_is_listed(entries, |e: StatusEntryView| is_deleted(e), limit, i, k);
    } else {
        lemma_earlier_is_listed(entries, |e: StatusEntryView| is_changed(e), limit, i, k);
    }
}

proof fn lemma_earlier_is_listed(
    entries: Seq<StatusEntryView>,
    keep: spec_fn(StatusEntryView) -> bool,
    limit: nat,
    i: int,
    k: int,
)
    requires
        0 <= k < entries.len(),
        keep(entries[k]),
        0 <= i < listed_paths(paths_where(entries, keep), true, limit as int).len(),
        text_less(
            entries[k].path,
            listed_paths(paths_where(entries, keep), true, limit as int)[i],
        ),
    ensures
        text_array_view(listed_paths(paths_where(entries, keep), true, limit as int))->Array_0
            .contains(JsonView::Text(entries[k].path)),
{
    let kept = entries.filter(keep);
    let paths = paths_where(entries, keep);
    let sorted = sorted_set(paths);
    let listed = listed_paths(paths, true, limit as int);
    lemma_filter_keeps(entries, keep);
    lemma_filter_has(entries, keep, k);
    let j = kept.index_of(entries[k]);
    assert(paths[j] == entries[k].path);
    sorted_set_exists(paths);
    assert(paths.contains(paths[j]));
    assert(sorted.contains(paths[j]));
    let p = sorted.index_of(paths[j]);
    assert(listed[i] == sorted[i]);
    assert(p < i) by {
        if p > i {
            text_less_transitive(sorted[i], sorted[p], sorted[i]);
        }
        text_less_irreflexive(sorted[i]);
    }
    assert(text_array_view(listed)->Array_0[p] == JsonView::Text(entries[k].path));
}

/// Where a request does not say, a report lists up to fifty files.
pub proof fn fifty_files_are_listed()
    ensures
        DEFAULT_CHANGE_FILE_LIMIT == 50,
{
}

// ---------------------------------------------------------------------------
// What git prints
// ---------------------------------------------------------------------------

/// What a run printed counts where it succeeded, without the white space around it.
pub proof fn output_counts_where_a_run_succeeds(
    run: GitRun,
    front: Seq<char>,
    text: Seq<char>,
    back: Seq<char>,
)
    requires
        lossy_text(run.stdout@) == front + text + back,
        is_blank(front),
        is_blank(back),
        text.len() > 0 ==> !white_space(text[0]) && !white_space(text.last()),
    ensures
        run.success && text.len() > 0 ==> printed(Some(run)) == Some(text),
        !run.success || text.len() == 0 ==> printed(Some(run)) is None,
        printed(None) is None,
{
    trimming_drops_blanks(front, text, back);
}

/// A line with two question marks and a space is of a path that git does not track.
pub proof fn question_marks_mean_untracked(path: Seq<char>)
    requires
        path.len() > 0,
        !white_space(path[0]),
        !white_space(path.last()),
    ensures
        entry_on(seq!['?', '?', ' '] + path) == Some(
            StatusEntryView { kind: "untracked"@, path },
        ),
{
    reveal_strlit("?? ");
    let line = seq!['?', '?', ' '] + path;
    assert("?? "@ =~= seq!['?', '?', ' ']);
    assert(line.subrange(0, 3) =~= "?? "@);
    assert(line.skip(3) =~= path);
    assert(Seq::<char>::empty() + path + Seq::<char>::empty() =~= path);
    trimming_drops_blanks(Seq::empty(), path, Seq::empty());
    lemma_line_is_long(line);
}

proof fn lemma_line_is_long(line: Seq<char>)
    requires
        line.len() >= 4,
    ensures
        byte_length(line) >= 4,
{
    reveal_with_fuel(byte_length, 5);
}

proof fn lemma_letters(x: char, y: char, c: char)
    requires
        !white_space(c),
    ensures
        trimmed(seq![x, y]).contains(c) <==> x == c || y == c,
{
    let none = Seq::<char>::empty();
    let pair = seq![x, y];
    if white_space(x) && white_space(y) {
        assert(pair + none + none =~= pair);
        trimming_drops_blanks(pair, none, none);
    } else if white_space(x) {
        assert(seq![x] + seq![y] + none =~= pair);
        trimming_drops_blanks(seq![x], seq![y], none);
        assert(seq![y][0] == y);
    } else if white_space(y) {
        assert(none + seq![x] + seq![y] =~= pair);
        trimming_drops_blanks(none, seq![x], seq![y]);
        assert(seq![x][0] == x);
    } else {
        assert(none + pair + none =~= pair);
        trimming_drops_blanks(none, pair, none);
        assert(pair[0] == x && pair[1] == y);
    }
}

/// A line with two status letters, white space and a path is of that path; how it changed is
/// told by the letters, where a deletion counts before a new name, that before a change, and
/// that before an addition.
pub proof fn status_letters_tell_the_kind(x: char, y: char, gap: Seq<char>, path: Seq<char>)
    requires
        x <= '\u{7f}',
        y <= '\u{7f}',
        !(x == '?' && y == '?'),
        is_blank(gap),
        path.len() > 0,
        !white_space(path[0]),
        gap.len() + path.len() >= 2,
    ensures
        entry_on(seq![x, y] + gap + path) matches Some(entry) && {
            &&& entry.path == path
            &&& entry.kind == (if x == 'D' || y == 'D' {
                "deleted"@
            } else if x == 'R' || y == 'R' {
                "renamed"@
            } else if x == 'M' || y == 'M' {
                "modified"@
            } else if x == 'A' || y == 'A' {
                "added"@
            } else {
                "changed"@
            })
        },
{
    reveal_strlit("?? ");
    let line = seq![x, y] + gap + path;
    assert(line[0] == x && line[1] == y);
    if begins_with(line, "?? "@) {
        assert(line.subrange(0, 3)[0] == '?');
        assert(line.subrange(0, 3)[1] == '?');
    }
    lemma_line_is_long(line);
    assert(line.skip(2) =~= gap + path);
    assert(line.take(2) =~= seq![x, y]);
    leading_blanks_go(gap, path);
    lemma_letters(x, y, 'D');
    lemma_letters(x, y, 'R');
    lemma_letters(x, y, 'M');
    lemma_letters(x, y, 'A');
}

/// A line of fewer than four bytes, or with no path after its letters, is of nothing.
pub proof fn short_lines_are_of_nothing(line: Seq<char>, x: char, y: char, gap: Seq<char>)
    requires
        x <= '\u{7f}',
        y <= '\u{7f}',
        !(x == '?' && y == '?'),
        is_blank(gap),
    ensures
        byte_length(line) < 4 ==> entry_on(line) is None,
        entry_on(seq![x, y] + gap) is None,
{
    reveal_strlit("?? ");
    let bare = seq![x, y] + gap;
    assert(bare[0] == x && bare[1] == y);
    if begins_with(bare, "?? "@) {
        assert(bare.subrange(0, 3)[0] == '?');
        assert(bare.subrange(0, 3)[1] == '?');
    }
    assert(bare.skip(2) =~= gap + Seq::<char>::empty());
    leading_blanks_go(gap, Seq::empty());
}

/// The changes that git prints are those on the lines of what counts of its output, and none
/// where nothing counts.
pub proof fn printed_lines_are_entries(run: Option<GitRun>)
    ensures
        printed(run) matches Some(output) ==> entries_printed(run) == entries_on(lines_of(output)),
        printed(run) is None ==> entries_printed(run).len() == 0,
{
}

/// The entries of lines are those of the lines one by one, in their order.
pub proof fn every_line_has_its_entry(lines: Seq<Seq<char>>, line: Seq<char>)
    ensures
        entries_on(Seq::empty()).len() == 0,
        entries_on(lines.push(line)) == match entry_on(line) {
            Some(entry) => entries_on(lines).push(entry),
            None => entries_on(lines),
        },
{
    assert(lines.push(line).drop_last() =~= lines);
}

// ---------------------------------------------------------------------------
// Words
// ---------------------------------------------------------------------------

/// What changed is said in words: the head, the branch and the working tree, as far as they
/// did, and how many files.
pub proof fn changes_are_said_in_words(files: nat)
    requires
        files > 0,
    ensures
        change_summary(true, false, false, 0) == "Git HEAD changed."@,
        change_summary(false, true, false, 0) == "branch changed."@,
        change_summary(true, true, false, 0) == "Git HEAD changed and branch changed."@,
        change_summary(false, false, true, files) == "working tree is dirty ("@ + decimal_text(files)
            + " file changes)."@,
        change_summary(true, false, true, files) == "Git HEAD changed and working tree is dirty ("@
            + decimal_text(files) + " file changes)."@,
        change_summary(false, true, true, files) == "branch changed and working tree is dirty ("@
            + decimal_text(files) + " file changes)."@,
        change_summary(true, true, true, files)
            == "Git HEAD changed and branch changed and working tree is dirty ("@ + decimal_text(
            files,
        ) + " file changes)."@,
{
    reveal_strlit("Git HEAD changed");
    reveal_strlit("branch changed");
    reveal_strlit("working tree is dirty");
    reveal_strlit(" and ");
    reveal_strlit(" (");
    reveal_strlit(" file changes).");
    reveal_strlit(".");
    reveal_strlit("Git HEAD changed.");
    reveal_strlit("branch changed.");
    reveal_strlit("Git HEAD changed and branch changed.");
    reveal_strlit("working tree is dirty (");
    reveal_strlit("Git HEAD changed and working tree is dirty (");
    reveal_strlit("branch changed and working tree is dirty (");
    reveal_strlit("Git HEAD changed and branch changed and working tree is dirty (");
    let none = Seq::<Seq<char>>::empty();
    let (h, b, t) = ("Git HEAD changed"@, "branch changed"@, "working tree is dirty"@);
    let and = " and "@;
    reveal_with_fuel(joined, 4);
    let digits = decimal_text(files);
    assert(seq![h] + none + none =~= seq![h]);
    assert(none + seq![b] + none =~= seq![b]);
    assert(seq![h] + seq![b] + none =~= seq![h, b]);
    assert(none + none + seq![t] =~= seq![t]);
    assert(seq![h] + none + seq![t] =~= seq![h, t]);
    assert(none + seq![b] + seq![t] =~= seq![b, t]);
    assert(seq![h] + seq![b] + seq![t] =~= seq![h, b, t]);
    assert(seq![h, b].drop_last() =~= seq![h]);
    assert(seq![h, t].drop_last() =~= seq![h]);
    assert(seq![b, t].drop_last() =~= seq![b]);
    assert(seq![h, b, t].drop_last() =~= seq![h, b]);
    assert(change_summary(true, false, false, 0) =~= "Git HEAD changed."@);
    assert(change_summary(false, true, false, 0) =~= "branch changed."@);
    assert(change_summary(true, true, false, 0) =~= "Git HEAD changed and branch changed."@);
    assert(change_summary(false, false, true, files) =~= "working tree is dirty ("@ + digits
        + " file changes)."@);
    assert(change_summary(true, false, true, files)
        =~= "Git HEAD changed and working tree is dirty ("@ + digits + " file changes)."@);
    assert(change_summary(false, true, true, files) =~= "branch changed and working tree is dirty ("@
        + digits + " file changes)."@);
    assert(change_summary(true, true, true, files)
        =~= "Git HEAD changed and branch changed and working tree is dirty ("@ + digits
        + " file changes)."@);
}

} // verus!
