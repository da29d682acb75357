//! The search of a plan: what its searches find, cleaned, merged and bounded.

use vstd::prelude::*;
use vstd::string::StringExecFns;

use crate::json::{lemma_array_view, views, JsonObject, JsonValue, JsonView};
use crate::order::arranging_keeps_items;
use crate::ranking::{
    context_penalty, file_of, helper_like, in_test_context, is_helper_like_result,
    is_source_like_result, is_test_context_line, is_test_like_result, key_of, line_of, penalty_of,
    rank_keys, rank_search_results, ranked, result_file, result_key, result_line, source_like,
    test_like,
};
use crate::seqs::{lemma_filter_has, lemma_filter_keeps, lemma_filter_step};
use crate::steps::{
    confidences_are_within_one, plan_search_steps, step_views, steps_for, within_one,
    PlanSearchKind, PlanSearchStep, StepView,
};
use crate::store::{
    code_hits, file_at, file_hits, find_file, graph_hits, line_hit, line_hits, search_results,
    symbol_hit, symbol_hits, ClabStore, SearchRequest, SearchView,
};
use crate::terms::terms_in;
use crate::text::{lines_of, lowercase, same_text, trimmed};
use crate::types::{file_views, index_views, ClabIndex, FileEntry, FileView, IndexView, SymbolView};
use crate::wire::{hundredths, hundredths_view};

verus! {

// ---------------------------------------------------------------------------
// Context
// ---------------------------------------------------------------------------

/// What a result in the body of a test is worth less.
pub const TEST_PENALTY: i32 = 80;

/// What a result is worth less for where it stands, by the files as they are now: a result in
/// a test loses `TEST_PENALTY`.
pub open spec fn penalty_for(files: Seq<FileView>, result: JsonView) -> int {
    match file_at(files, file_of(result)) {
        Some(file) => if file_of(result).len() > 0 && line_of(result, 0) != 0 && in_test_context(
            lines_of(file.text),
            line_of(result, 0),
        ) {
            TEST_PENALTY as int
        } else {
            0
        },
        None => 0,
    }
}

/// What a result is worth less for where it stands, by the files as they are now.
pub fn contextual_result_penalty(files: &Vec<FileEntry>, result: &JsonValue) -> (penalty: i32)
    ensures
        penalty == penalty_for(file_views(files@), result@),
{
    let relative = result_file(result);
    let line = result_line(result, 0);
    if relative.is_empty() || line == 0 {
        return 0;
    }
    match find_file(files, relative) {
        Some(place) => if is_test_context_line(files[place].text.as_str(), line) {
            TEST_PENALTY
        } else {
            0
        },
        None => 0,
    }
}

/// A result with the penalty for where it stands, where there is one.
pub open spec fn with_penalty(files: Seq<FileView>, result: JsonView) -> JsonView {
    if penalty_for(files, result) > 0 {
        result.with("context_penalty"@, JsonView::Integer(penalty_for(files, result)))
    } else {
        result
    }
}

/// Results with the penalties for where they stand.
pub open spec fn with_penalties(files: Seq<FileView>, results: Seq<JsonView>) -> Seq<JsonView> {
    results.map_values(|r: JsonView| with_penalty(files, r))
}

fn mark_penalties(files: &Vec<FileEntry>, results: &Vec<JsonValue>) -> (marked: Vec<JsonValue>)
    ensures
        views(marked@) == with_penalties(file_views(files@), views(results@)),
{
    let mut marked: Vec<JsonValue> = Vec::new();
    let mut i: usize = 0;
    while i < results.len()
        invariant
            i <= results@.len(),
            marked@.len() == i,
            forall|k: int|
                0 <= k < i ==> (#[trigger] marked@[k])@ == with_penalty(
                    file_views(files@),
                    results@[k]@,
                ),
        decreases results.len() - i,
    {
        let result = results[i].clone();
        let penalty = contextual_result_penalty(files, &result);
        if penalty > 0 {
            marked.push(result.with("context_penalty", JsonValue::Uint(penalty as u64)));
        } else {
            marked.push(result);
        }
        i = i + 1;
    }
    assert(views(marked@) =~= with_penalties(file_views(files@), views(results@)));
    marked
}

// ---------------------------------------------------------------------------
// Preferences
// ---------------------------------------------------------------------------

/// What results are preferred for: that they are in source files, carry no penalty, are of no
/// test, or are not of code that prepares searches.
#[derive(Clone, Copy, Debug, PartialEq, Eq, Structural)]
pub enum Preference {
    Sources,
    Clean,
    NoTests,
    NoHelpers,
}

/// Whether a result is preferred.
pub open spec fn preferred(result: JsonView, preference: Preference) -> bool {
    match preference {
        Preference::Sources => source_like(result),
        Preference::Clean => penalty_of(result) == 0,
        Preference::NoTests => !test_like(result),
        Preference::NoHelpers => !helper_like(result),
    }
}

fn is_preferred(result: &JsonValue, preference: Preference) -> (answer: bool)
    ensures
        answer == preferred(result@, preference),
{
    match preference {
        Preference::Sources => is_source_like_result(result),
        Preference::Clean => context_penalty(result) == 0,
        Preference::NoTests => !is_test_like_result(result),
        Preference::NoHelpers => !is_helper_like_result(result),
    }
}

/// The results that are preferred or, where none is, all of them.
pub open spec fn preferring(results: Seq<JsonView>, preference: Preference) -> Seq<JsonView> {
    let fitting = results.filter(|r: JsonView| preferred(r, preference));
    if fitting.len() > 0 {
        fitting
    } else {
        results
    }
}

/// The results that are preferred or, where none is, all of them.
pub fn prefer(results: Vec<JsonValue>, preference: Preference) -> (kept: Vec<JsonValue>)
    ensures
        views(kept@) == preferring(views(results@), preference),
{
    let ghost keep = |r: JsonView| preferred(r, preference);
    let ghost all = views(results@);
    let mut kept: Vec<JsonValue> = Vec::new();
    let mut i: usize = 0;
    proof {
        reveal(Seq::filter);
        assert(views(kept@) =~= all.take(0).filter(keep));
    }
    while i < results.len()
        invariant
            i <= results@.len(),
            all == views(results@),
            keep == (|r: JsonView| preferred(r, preference)),
            views(kept@) == all.take(i as int).filter(keep),
        decreases results.len() - i,
    {
        let ghost done = kept@;
        assert(all[i as int] == results@[i as int]@);
        proof {
            lemma_filter_step(all, keep, i as int);
        }
        if is_preferred(&results[i], preference) {
            kept.push(results[i].clone());
            assert(views(kept@) =~= views(done).push(all[i as int]));
        }
        i = i + 1;
    }
    assert(all.take(i as int) =~= all);
    assert(views(kept@).len() == kept@.len());
    if kept.len() > 0 {
        kept
    } else {
        results
    }
}

/// The results without a penalty, of no test and of no helper, as far as there are such.
pub open spec fn plain_code(results: Seq<JsonView>) -> Seq<JsonView> {
    preferring(
        preferring(preferring(results, Preference::Clean), Preference::NoTests),
        Preference::NoHelpers,
    )
}

fn keep_plain_code(results: Vec<JsonValue>) -> (kept: Vec<JsonValue>)
    ensures
        views(kept@) == plain_code(views(results@)),
{
    let untouched = prefer(results, Preference::Clean);
    let outside_tests = prefer(untouched, Preference::NoTests);
    prefer(outside_tests, Preference::NoHelpers)
}

/// Whether results of tests and helpers are left out where there are others.
pub open spec fn wants_plain_code(profile: Seq<char>) -> bool {
    profile == "trace_impact"@ || profile == "bug_investigation"@
}

fn is_plain_code_wanted(profile: &str) -> (answer: bool)
    ensures
        answer == wants_plain_code(profile@),
{
    same_text(profile, "trace_impact") || same_text(profile, "bug_investigation")
}

/// The results of one search that are worth keeping.
pub open spec fn narrowed(profile: Seq<char>, results: Seq<JsonView>) -> Seq<JsonView> {
    if wants_plain_code(profile) {
        plain_code(preferring(results, Preference::Sources))
    } else {
        results
    }
}

// ---------------------------------------------------------------------------
// Normalisation
// ---------------------------------------------------------------------------

/// The results in the answer to a search.
pub open spec fn results_in(search: JsonView) -> Seq<JsonView> {
    match search.items_at("results"@) {
        Some(items) => items,
        None => Seq::empty(),
    }
}

/// The results in the answer to a search.
pub fn plan_search_results(search: &JsonValue) -> (results: Vec<JsonValue>)
    ensures
        views(results@) == results_in(search@),
{
    if let Some(found) = search.get("results") {
        if let Some(items) = found.as_array() {
            let mut results: Vec<JsonValue> = Vec::new();
            let mut i: usize = 0;
            while i < items.len()
                invariant
                    i <= items@.len(),
                    results@.len() == i,
                    forall|k: int| 0 <= k < i ==> (#[trigger] results@[k])@ == items@[k]@,
                decreases items.len() - i,
            {
                results.push(items[i].clone());
                i = i + 1;
            }
            assert(views(results@) =~= views(items@));
            return results;
        }
    }
    let none: Vec<JsonValue> = Vec::new();
    assert(views(none@) =~= Seq::empty());
    none
}

/// A result with a field, unless it has that already.
pub open spec fn with_missing(result: JsonView, key: Seq<char>, value: JsonView) -> JsonView {
    if result.get(key) is None {
        result.with(key, value)
    } else {
        result
    }
}

/// How a symbol is shown: its label, or `symbol`, and its name.
pub open spec fn symbol_line(result: JsonView, name: Seq<char>) -> Seq<char> {
    let label = match result.text_at("label"@) {
        Some(label) => label,
        None => "symbol"@,
    };
    label + " "@ + name
}

/// A result with the reason and the confidence of its search, and with a snippet for a symbol
/// that has none.
pub open spec fn completed(step: StepView, result: JsonView) -> JsonView {
    let reasoned = with_missing(result, "reason"@, JsonView::Text(step.reason));
    let rated = with_missing(reasoned, "confidence"@, hundredths_view(step.confidence as nat));
    match rated.text_at("name"@) {
        Some(name) => with_missing(rated, "snippet"@, JsonView::Text(symbol_line(rated, name))),
        None => rated,
    }
}

fn complete(step: &PlanSearchStep, result: JsonValue) -> (full: JsonValue)
    requires
        result@.settable(),
    ensures
        full@ == completed(step@, result@),
{
    let reasoned = if result.get("reason").is_none() {
        result.with("reason", JsonValue::text(step.reason))
    } else {
        result
    };
    let rated = if reasoned.get("confidence").is_none() {
        reasoned.with("confidence", hundredths(step.confidence))
    } else {
        reasoned
    };
    if rated.get("snippet").is_some() {
        return rated;
    }
    let mut line: Option<String> = None;
    if let Some(found) = rated.get("name") {
        if let Some(name) = found.as_str() {
            let mut text = match rated.get("label") {
                Some(v) => match v.as_str() {
                    Some(label) => label.to_owned(),
                    None => "symbol".to_owned(),
                },
                None => "symbol".to_owned(),
            };
            text.append(" ");
            text.append(name);
            line = Some(text);
        }
    }
    match line {
        Some(text) => rated.with("snippet", JsonValue::Text(text)),
        None => rated,
    }
}

/// The results of one search that are worth keeping, the best first, before they are
/// completed.
pub open spec fn kept_results(
    files: Seq<FileView>,
    profile: Seq<char>,
    step: StepView,
    search: JsonView,
) -> Seq<JsonView> {
    narrowed(profile, ranked(profile, step, with_penalties(files, results_in(search))))
}

/// The results of one search that are worth keeping, the best first.
pub open spec fn normalized(
    files: Seq<FileView>,
    profile: Seq<char>,
    step: StepView,
    search: JsonView,
) -> Seq<JsonView> {
    kept_results(files, profile, step, search).map_values(|r: JsonView| completed(step, r))
}

/// Whether every one of some values can have a field set.
pub open spec fn all_settable(values: Seq<JsonView>) -> bool {
    forall|k: int| 0 <= k < values.len() ==> (#[trigger] values[k]).settable()
}

/// The results of one search that are worth keeping, the best first, by the files as they are
/// now.
pub fn normalize_search_results(
    files: &Vec<FileEntry>,
    profile: &str,
    step: &PlanSearchStep,
    search: &JsonValue,
) -> (results: Vec<JsonValue>)
    requires
        all_settable(kept_results(file_views(files@), profile@, step@, search@)),
    ensures
        views(results@) == normalized(file_views(files@), profile@, step@, search@),
{
    let mut marked = mark_penalties(files, &plan_search_results(search));
    rank_search_results(profile, step, &mut marked);
    let kept = if is_plain_code_wanted(profile) {
        keep_plain_code(prefer(marked, Preference::Sources))
    } else {
        marked
    };
    let ghost held = kept_results(file_views(files@), profile@, step@, search@);
    let mut results: Vec<JsonValue> = Vec::new();
    let mut i: usize = 0;
    while i < kept.len()
        invariant
            i <= kept@.len(),
            held == views(kept@),
            all_settable(held),
                results@.len() == i,
            forall|k: int| 0 <= k < i ==> (#[trigger] results@[k])@ == completed(step@, held[k]),
        decreases kept.len() - i,
    {
        assert(held[i as int] == kept@[i as int]@);
        results.push(complete(step, kept[i].clone()));
        i = i + 1;
    }
    assert(views(results@) =~= normalized(file_views(files@), profile@, step@, search@));
    results
}

// ---------------------------------------------------------------------------
// One search
// ---------------------------------------------------------------------------

/// How many hits a search of a plan asks for, so that enough are left when it is narrowed.
pub open spec fn fetch_limit(kind: PlanSearchKind, limit: usize) -> usize {
    let wanted = match kind {
        PlanSearchKind::Code => limit * 8,
        PlanSearchKind::Graph => limit * 4,
    };
    if wanted < 8 {
        8
    } else if wanted <= usize::MAX {
        wanted as usize
    } else {
        usize::MAX
    }
}

fn hits_to_fetch(kind: PlanSearchKind, limit: usize) -> (wanted: usize)
    ensures
        wanted == fetch_limit(kind, limit),
{
    let factor: usize = match kind {
        PlanSearchKind::Code => 8,
        PlanSearchKind::Graph => 4,
    };
    if limit > usize::MAX / factor {
        return usize::MAX;
    }
    let wanted: usize = limit * factor;
    if wanted < 8 {
        8
    } else {
        wanted
    }
}

/// What is asked of the store for a search of a plan: the term in the plan's project, and
/// several times as many hits as are wanted.
pub open spec fn step_search(project: Seq<char>, step: StepView, limit: usize) -> SearchView {
    SearchView {
        pattern: lowercase(step.term),
        limit: fetch_limit(step.kind, limit),
        project: Some(project),
    }
}

/// What is asked of the store for a search of a plan.
pub fn step_request(project: &str, step: &PlanSearchStep, limit: usize) -> (request: SearchRequest)
    ensures
        request@ == step_search(project@, step@, limit),
{
    SearchRequest {
        pattern: step.term.as_str().to_lowercase(),
        limit: hits_to_fetch(step.kind, limit),
        project: Some(project.to_owned()),
    }
}

/// What a search of a plan finds in indexes.
pub open spec fn step_answer(indexes: Seq<IndexView>, step: StepView, limit: usize) -> JsonView {
    let pattern = lowercase(step.term);
    let hits = match step.kind {
        PlanSearchKind::Code => code_hits(indexes, pattern),
        PlanSearchKind::Graph => graph_hits(indexes, pattern),
    };
    search_results(hits, fetch_limit(step.kind, limit))
}

/// The results of one search of a plan.
pub open spec fn found_by(
    indexes: Seq<IndexView>,
    files: Seq<FileView>,
    profile: Seq<char>,
    step: StepView,
    limit: usize,
) -> Seq<JsonView> {
    normalized(files, profile, step, step_answer(indexes, step, limit))
}

/// Whether a value is an object that has neither a reason nor a confidence.
spec fn is_plain(value: JsonView) -> bool {
    value is Object && value.get("reason"@) is None && value.get("confidence"@) is None
}

/// Whether every value is an object that has neither a reason nor a confidence.
spec fn all_plain(values: Seq<JsonView>) -> bool {
    forall|k: int| 0 <= k < values.len() ==> is_plain(#[trigger] values[k])
}

/// A hit has no field of the name of one that a search adds.
proof fn lemma_field_names()
    ensures
        "reason"@ != "confidence"@,
        "project"@ != "reason"@,
        "project"@ != "confidence"@,
        "name"@ != "reason"@,
        "name"@ != "confidence"@,
        "label"@ != "reason"@,
        "label"@ != "confidence"@,
        "file"@ != "reason"@,
        "file"@ != "confidence"@,
        "line"@ != "reason"@,
        "line"@ != "confidence"@,
        "start_line"@ != "reason"@,
        "start_line"@ != "confidence"@,
        "snippet"@ != "reason"@,
        "snippet"@ != "confidence"@,
        "context_penalty"@ != "reason"@,
        "context_penalty"@ != "confidence"@,
{
    reveal_strlit("reason");
    reveal_strlit("confidence");
    reveal_strlit("project");
    reveal_strlit("name");
    reveal_strlit("label");
    reveal_strlit("file");
    reveal_strlit("line");
    reveal_strlit("start_line");
    reveal_strlit("snippet");
    reveal_strlit("context_penalty");
    assert("reason"@.len() == 6);
    assert("confidence"@.len() == 10);
    assert("project"@.len() == 7);
    assert("name"@.len() == 4);
    assert("label"@.len() == 5);
    assert("file"@.len() == 4);
    assert("line"@.len() == 4);
    assert("start_line"@.len() == 10);
    assert("snippet"@.len() == 7);
    assert("context_penalty"@.len() == 15);
    assert("start_line"@[0] != "confidence"@[0]);
}

proof fn lemma_hits_are_plain(
    project: Seq<char>,
    symbol: SymbolView,
    file: Seq<char>,
    number: int,
    line: Seq<char>,
)
    ensures
        is_plain(symbol_hit(project, symbol)),
        is_plain(line_hit(project, file, number, line)),
{
    lemma_field_names();
}

proof fn lemma_symbol_hits_are_plain(
    project: Seq<char>,
    symbols: Seq<SymbolView>,
    query: Seq<char>,
)
    ensures
        all_plain(symbol_hits(project, symbols, query)),
    decreases symbols.len(),
{
    if symbols.len() > 0 {
        lemma_symbol_hits_are_plain(project, symbols.skip(1), query);
        lemma_hits_are_plain(project, symbols[0], Seq::empty(), 0, Seq::empty());
    }
}

proof fn lemma_graph_hits_are_plain(indexes: Seq<IndexView>, query: Seq<char>)
    ensures
        all_plain(graph_hits(indexes, query)),
    decreases indexes.len(),
{
    if indexes.len() > 0 {
        lemma_symbol_hits_are_plain(indexes[0].project, indexes[0].symbols, query);
        lemma_graph_hits_are_plain(indexes.skip(1), query);
    }
}

proof fn lemma_line_hits_are_plain(
    project: Seq<char>,
    file: Seq<char>,
    lines: Seq<Seq<char>>,
    from: int,
    pattern: Seq<char>,
)
    ensures
        all_plain(line_hits(project, file, lines, from, pattern)),
    decreases lines.len(),
{
    if lines.len() > 0 {
        lemma_line_hits_are_plain(project, file, lines.skip(1), from + 1, pattern);
        lemma_hits_are_plain(project, arbitrary(), file, from, lines[0]);
    }
}

proof fn lemma_file_hits_are_plain(
    project: Seq<char>,
    files: Seq<FileView>,
    pattern: Seq<char>,
)
    ensures
        all_plain(file_hits(project, files, pattern)),
    decreases files.len(),
{
    if files.len() > 0 {
        lemma_line_hits_are_plain(
            project,
            files[0].path,
            lines_of(files[0].text),
            1,
            pattern,
        );
        lemma_file_hits_are_plain(project, files.skip(1), pattern);
    }
}

proof fn lemma_code_hits_are_plain(indexes: Seq<IndexView>, pattern: Seq<char>)
    ensures
        all_plain(code_hits(indexes, pattern)),
    decreases indexes.len(),
{
    if indexes.len() > 0 {
        lemma_file_hits_are_plain(indexes[0].project, indexes[0].files, pattern);
        lemma_code_hits_are_plain(indexes.skip(1), pattern);
    }
}

/// Whether every one of some values is of a kind.
spec fn all_of(values: Seq<JsonView>, kind: spec_fn(JsonView) -> bool) -> bool {
    forall|k: int| 0 <= k < values.len() ==> kind(#[trigger] values[k])
}

proof fn lemma_preferring_keeps_kind(
    results: Seq<JsonView>,
    preference: Preference,
    kind: spec_fn(JsonView) -> bool,
)
    requires
        all_of(results, kind),
    ensures
        all_of(preferring(results, preference), kind),
{
    a_preference_leaves_something(results, preference);
    let kept = preferring(results, preference);
    assert forall|k: int| 0 <= k < kept.len() implies kind(#[trigger] kept[k]) by {
        assert(results.contains(kept[k]));
    }
}

proof fn lemma_plain_code_keeps_kind(results: Seq<JsonView>, kind: spec_fn(JsonView) -> bool)
    requires
        all_of(results, kind),
    ensures
        all_of(preferring(results, Preference::Clean), kind),
        all_of(plain_code(results), kind),
{
    lemma_preferring_keeps_kind(results, Preference::Clean, kind);
    let untouched = preferring(results, Preference::Clean);
    lemma_preferring_keeps_kind(untouched, Preference::NoTests, kind);
    let outside_tests = preferring(untouched, Preference::NoTests);
    lemma_preferring_keeps_kind(outside_tests, Preference::NoHelpers, kind);
}

/// What holds of every result with its penalty holds of those that are kept.
proof fn lemma_kept_are_of_kind(
    files: Seq<FileView>,
    profile: Seq<char>,
    step: StepView,
    search: JsonView,
    kind: spec_fn(JsonView) -> bool,
)
    requires
        all_of(with_penalties(files, results_in(search)), kind),
    ensures
        all_of(kept_results(files, profile, step, search), kind),
{
    let marked = with_penalties(files, results_in(search));
    arranging_keeps_items(marked, rank_keys(profile, step, marked));
    let sorted = ranked(profile, step, marked);
    assert forall|k: int| 0 <= k < sorted.len() implies kind(#[trigger] sorted[k]) by {
        assert(marked.contains(sorted[k]));
    }
    lemma_preferring_keeps_kind(sorted, Preference::Sources, kind);
    lemma_plain_code_keeps_kind(preferring(sorted, Preference::Sources), kind);
}

/// Where a field can be set on every result of a search, one can be set on those that are kept.
pub proof fn settable_results_stay_settable(
    files: Seq<FileView>,
    profile: Seq<char>,
    step: StepView,
    search: JsonView,
)
    requires
        all_settable(results_in(search)),
    ensures
        all_settable(kept_results(files, profile, step, search)),
{
    let kind = |r: JsonView| r.settable();
    let marked = with_penalties(files, results_in(search));
    assert(all_of(marked, kind));
    lemma_kept_are_of_kind(files, profile, step, search, kind);
}

proof fn lemma_kept_are_plain(
    files: Seq<FileView>,
    profile: Seq<char>,
    step: StepView,
    search: JsonView,
)
    requires
        all_plain(results_in(search)),
    ensures
        all_plain(kept_results(files, profile, step, search)),
        all_settable(kept_results(files, profile, step, search)),
{
    let kind = |r: JsonView| is_plain(r);
    let marked = with_penalties(files, results_in(search));
    lemma_field_names();
    assert(all_of(marked, kind));
    lemma_kept_are_of_kind(files, profile, step, search, kind);
}

/// The results of one search of a plan, by the indexes that it reads and the files as they are
/// now.
pub fn search_step_results(
    store: &ClabStore,
    indexes: &Vec<ClabIndex>,
    files: &Vec<FileEntry>,
    project: &str,
    profile: &str,
    step: &PlanSearchStep,
    limit: usize,
) -> (results: Vec<JsonValue>)
    ensures
        views(results@) == found_by(
            index_views(indexes@),
            file_views(files@),
            profile@,
            step@,
            limit,
        ),
{
    let request = step_request(project, step, limit);
    let search = match step.kind {
        PlanSearchKind::Code => store.search_code(&request, indexes),
        PlanSearchKind::Graph => store.search_graph(&request, indexes),
    };
    proof {
        lemma_code_hits_are_plain(index_views(indexes@), request@.pattern);
        lemma_graph_hits_are_plain(index_views(indexes@), request@.pattern);
        lemma_kept_are_plain(file_views(files@), profile@, step@, search@);
    }
    normalize_search_results(files, profile, step, &search)
}

// ---------------------------------------------------------------------------
// Merging
// ---------------------------------------------------------------------------

/// Whether one of the results has a key.
pub open spec fn has_key(results: Seq<JsonView>, key: Seq<char>) -> bool {
    exists|k: int| 0 <= k < results.len() && key_of(#[trigger] results[k]) == key
}

/// The results with those that come in and have a new key, until there are `limit`.
pub open spec fn merged(results: Seq<JsonView>, incoming: Seq<JsonView>, limit: int) -> Seq<
    JsonView,
>
    decreases incoming.len(),
{
    if incoming.len() == 0 {
        results
    } else if has_key(results, key_of(incoming[0])) {
        merged(results, incoming.skip(1), limit)
    } else if results.len() + 1 >= limit {
        results.push(incoming[0])
    } else {
        merged(results.push(incoming[0]), incoming.skip(1), limit)
    }
}

fn find_key(results: &Vec<JsonValue>, key: &String) -> (found: bool)
    ensures
        found == has_key(views(results@), key@),
{
    let ghost held = views(results@);
    let mut i: usize = 0;
    while i < results.len()
        invariant
            i <= results@.len(),
            held == views(results@),
            forall|k: int| 0 <= k < i ==> key_of(#[trigger] held[k]) != key@,
        decreases results.len() - i,
    {
        assert(held[i as int] == results@[i as int]@);
        if result_key(&results[i]) == *key {
            return true;
        }
        i = i + 1;
    }
    false
}

/// Appends the results that come in and have a new key, until there are `limit`.
pub fn merge_plan_results(results: &mut Vec<JsonValue>, incoming: Vec<JsonValue>, limit: usize)
    ensures
        views(final(results)@) == merged(views(old(results)@), views(incoming@), limit as int),
{
    let ghost held = views(incoming@);
    let ghost start = views(results@);
    let mut i: usize = 0;
    assert(held.skip(0) =~= held);
    while i < incoming.len()
        invariant
            i <= incoming@.len(),
            held == views(incoming@),
            start == views(old(results)@),
            merged(views(results@), held.skip(i as int), limit as int) == merged(
                start,
                held,
                limit as int,
            ),
        decreases incoming.len() - i,
    {
        let result = &incoming[i];
        let ghost rest = held.skip(i as int);
        let ghost done = views(results@);
        assert(rest[0] == result@);
        assert(rest.skip(1) =~= held.skip(i + 1));
        let key = result_key(result);
        if !find_key(results, &key) {
            results.push(result.clone());
            assert(views(results@) =~= done.push(rest[0]));
            if results.len() >= limit {
                return;
            }
        }
        i = i + 1;
    }
}

/// The merged results that are worth keeping.
pub open spec fn finalized(profile: Seq<char>, results: Seq<JsonView>) -> Seq<JsonView> {
    if wants_plain_code(profile) {
        plain_code(results)
    } else {
        preferring(results, Preference::Clean)
    }
}

/// Keeps of the merged results those that are worth it.
pub fn finalize_plan_results(profile: &str, results: Vec<JsonValue>) -> (kept: Vec<JsonValue>)
    ensures
        views(kept@) == finalized(profile@, views(results@)),
{
    if is_plain_code_wanted(profile) {
        keep_plain_code(results)
    } else {
        prefer(results, Preference::Clean)
    }
}

// ---------------------------------------------------------------------------
// The whole search
// ---------------------------------------------------------------------------

/// Whether what a search found settles what is wanted: symbols where a definition is wanted,
/// lines where a bug is investigated.
pub open spec fn settles(profile: Seq<char>, kind: PlanSearchKind, found: bool) -> bool {
    found && ((profile == "find_definition"@ && kind == PlanSearchKind::Graph) || (profile
        == "bug_investigation"@ && kind == PlanSearchKind::Code))
}

/// What the searches of a plan gather, one after the other, until there are `limit` results or
/// one search settles what is wanted.
pub open spec fn gathered(
    indexes: Seq<IndexView>,
    files: Seq<FileView>,
    profile: Seq<char>,
    limit: usize,
    results: Seq<JsonView>,
    steps: Seq<StepView>,
) -> Seq<JsonView>
    decreases steps.len(),
{
    if steps.len() == 0 {
        results
    } else {
        let incoming = found_by(indexes, files, profile, steps[0], limit);
        let next = merged(results, incoming, limit as int);
        if next.len() >= limit || settles(profile, steps[0].kind, incoming.len() > 0) {
            next
        } else {
            gathered(indexes, files, profile, limit, next, steps.skip(1))
        }
    }
}

/// How many results a plan gathers: what it may show, and at least one.
pub open spec fn gather_limit(max_points: usize) -> usize {
    if max_points == 0 {
        1
    } else {
        max_points
    }
}

/// The results of the search of a plan.
pub open spec fn plan_matches(
    indexes: Seq<IndexView>,
    files: Seq<FileView>,
    profile: Seq<char>,
    query: Seq<char>,
    max_points: usize,
) -> Seq<JsonView> {
    finalized(
        profile,
        gathered(
            indexes,
            files,
            profile,
            gather_limit(max_points),
            Seq::empty(),
            steps_for(profile, query),
        ),
    )
}

/// The search of a plan, by the indexes that it reads and the files as they are now.
pub fn search_plan_matches(
    store: &ClabStore,
    indexes: &Vec<ClabIndex>,
    files: &Vec<FileEntry>,
    project: &str,
    profile: &str,
    query: &str,
    max_points: usize,
) -> (search: JsonValue)
    ensures
        search@ == JsonView::Object(
            map![
                "results"@ => JsonView::Array(
                    plan_matches(
                        index_views(indexes@),
                        file_views(files@),
                        profile@,
                        query@,
                        max_points,
                    ),
                ),
            ],
        ),
{
    broadcast use lemma_array_view;

    let limit: usize = if max_points == 0 {
        1
    } else {
        max_points
    };
    let steps = plan_search_steps(profile, query);
    let ghost held = step_views(steps@);
    let ghost read = index_views(indexes@);
    let ghost disk = file_views(files@);
    proof {
        confidences_are_within_one(profile@, trimmed(query@), terms_in(query@));
    }
    let mut results: Vec<JsonValue> = Vec::new();
    let mut i: usize = 0;
    let mut done = false;
    assert(held.skip(0) =~= held);
    assert(views(results@) =~= Seq::empty());
    let ghost all = gathered(read, disk, profile@, limit, Seq::empty(), held);
    while i < steps.len() && !done
        invariant
            i <= steps@.len(),
            held == step_views(steps@),
            within_one(held),
            read == index_views(indexes@),
            disk == file_views(files@),
            done ==> views(results@) == all,
            !done ==> gathered(
                read,
                disk,
                profile@,
                limit,
                views(results@),
                held.skip(i as int),
            ) == all,
        decreases steps.len() - i,
    {
        let step = &steps[i];
        let ghost rest = held.skip(i as int);
        assert(held[i as int] == step@);
        assert(rest[0] == step@);
        assert(rest.skip(1) =~= held.skip(i + 1));
        let incoming = search_step_results(store, indexes, files, project, profile, step, limit);
        let ghost found = views(incoming@);
        assert(found.len() == incoming@.len());
        let settled = incoming.len() > 0 && ((same_text(profile, "find_definition") && step.kind
            == PlanSearchKind::Graph) || (same_text(profile, "bug_investigation") && step.kind
            == PlanSearchKind::Code));
        merge_plan_results(&mut results, incoming, limit);
        assert(views(results@).len() == results@.len());
        if results.len() >= limit || settled {
            done = true;
        }
        i = i + 1;
    }
    let kept = finalize_plan_results(profile, results);
    JsonObject::new().put("results", JsonValue::Array(kept)).value()
}

// ---------------------------------------------------------------------------
// What holds of the search
// ---------------------------------------------------------------------------

/// Whether no two results have one key.
pub open spec fn distinct_keys(results: Seq<JsonView>) -> bool {
    forall|i: int, j: int|
        0 <= i < j < results.len() ==> key_of(#[trigger] results[i]) != key_of(
            #[trigger] results[j],
        )
}

/// Merging keeps the results that are there, adds none with a key that is there, and stops at
/// the limit.
pub proof fn merging_keeps_keys_distinct(
    results: Seq<JsonView>,
    incoming: Seq<JsonView>,
    limit: int,
)
    requires
        distinct_keys(results),
        results.len() < limit,
    ensures
        distinct_keys(merged(results, incoming, limit)),
        results.is_prefix_of(merged(results, incoming, limit)),
        merged(results, incoming, limit).len() <= limit,
    decreases incoming.len(),
{
    if incoming.len() > 0 {
        let next = results.push(incoming[0]);
        if has_key(results, key_of(incoming[0])) {
            merging_keeps_keys_distinct(results, incoming.skip(1), limit);
        } else {
            assert forall|i: int, j: int| 0 <= i < j < next.len() implies key_of(
                #[trigger] next[i],
            ) != key_of(#[trigger] next[j]) by {
                if j == results.len() {
                    assert(next[i] == results[i]);
                }
            }
            if results.len() + 1 < limit {
                merging_keeps_keys_distinct(next, incoming.skip(1), limit);
            }
        }
    }
}

proof fn lemma_gathered(
    indexes: Seq<IndexView>,
    files: Seq<FileView>,
    profile: Seq<char>,
    limit: usize,
    results: Seq<JsonView>,
    steps: Seq<StepView>,
)
    requires
        distinct_keys(results),
        results.len() < limit,
    ensures
        distinct_keys(gathered(indexes, files, profile, limit, results, steps)),
        gathered(indexes, files, profile, limit, results, steps).len() <= limit,
    decreases steps.len(),
{
    if steps.len() > 0 {
        let incoming = found_by(indexes, files, profile, steps[0], limit);
        merging_keeps_keys_distinct(results, incoming, limit as int);
        let next = merged(results, incoming, limit as int);
        if next.len() < limit {
            lemma_gathered(indexes, files, profile, limit, next, steps.skip(1));
        }
    }
}

proof fn lemma_filter_keeps_distinct(results: Seq<JsonView>, keep: spec_fn(JsonView) -> bool)
    requires
        distinct_keys(results),
    ensures
        distinct_keys(results.filter(keep)),
    decreases results.len(),
{
    reveal(Seq::filter);
    if results.len() > 0 {
        let earlier = results.drop_last();
        assert forall|i: int, j: int| 0 <= i < j < earlier.len() implies key_of(
            #[trigger] earlier[i],
        ) != key_of(#[trigger] earlier[j]) by {
            assert(earlier[i] == results[i] && earlier[j] == results[j]);
        }
        lemma_filter_keeps_distinct(earlier, keep);
        lemma_filter_keeps(earlier, keep);
        let kept = results.filter(keep);
        assert forall|i: int, j: int| 0 <= i < j < kept.len() implies key_of(#[trigger] kept[i])
            != key_of(#[trigger] kept[j]) by {
            if j == earlier.filter(keep).len() {
                assert(earlier.contains(earlier.filter(keep)[i]));
                let n = choose|n: int|
                    0 <= n < earlier.len() && earlier[n] == earlier.filter(keep)[i];
                assert(results[n] == kept[i]);
                assert(results[results.len() - 1] == kept[j]);
            } else {
                assert(earlier.filter(keep)[i] == kept[i]);
                assert(earlier.filter(keep)[j] == kept[j]);
            }
        }
    }
}

/// A preference never leaves nothing where there was something, adds nothing, keeps every
/// result that is preferred, and keeps keys distinct.
pub proof fn a_preference_leaves_something(results: Seq<JsonView>, preference: Preference)
    ensures
        results.len() > 0 ==> preferring(results, preference).len() > 0,
        preferring(results, preference).len() <= results.len(),
        forall|k: int|
            0 <= k < preferring(results, preference).len() ==> results.contains(
                #[trigger] preferring(results, preference)[k],
            ),
        forall|k: int|
            0 <= k < results.len() && preferred(#[trigger] results[k], preference) ==> preferring(
                results,
                preference,
            ).contains(results[k]),
        distinct_keys(results) ==> distinct_keys(preferring(results, preference)),
{
    let keep = |r: JsonView| preferred(r, preference);
    lemma_filter_keeps(results, keep);
    if distinct_keys(results) {
        lemma_filter_keeps_distinct(results, keep);
    }
    assert forall|k: int|
        0 <= k < results.len() && preferred(#[trigger] results[k], preference) implies preferring(
        results,
        preference,
    ).contains(results[k]) by {
        lemma_filter_has(results, keep, k);
    }
    if results.filter(keep).len() == 0 {
        assert forall|k: int| 0 <= k < results.len() implies results.contains(
            #[trigger] preferring(results, preference)[k],
        ) by {
            assert(results[k] == preferring(results, preference)[k]);
        }
    }
}

/// The search of a plan gives no two results of one file, line and name, and no more than the
/// plan may show, or one where it may show none.
pub proof fn plan_matches_are_distinct(
    indexes: Seq<IndexView>,
    files: Seq<FileView>,
    profile: Seq<char>,
    query: Seq<char>,
    max_points: usize,
)
    ensures
        distinct_keys(plan_matches(indexes, files, profile, query, max_points)),
        plan_matches(indexes, files, profile, query, max_points).len() <= gather_limit(
            max_points,
        ),
{
    let limit = gather_limit(max_points);
    let steps = steps_for(profile, query);
    lemma_gathered(indexes, files, profile, limit, Seq::empty(), steps);
    let all = gathered(indexes, files, profile, limit, Seq::empty(), steps);
    a_preference_leaves_something(all, Preference::Clean);
    let untouched = preferring(all, Preference::Clean);
    a_preference_leaves_something(untouched, Preference::NoTests);
    let outside_tests = preferring(untouched, Preference::NoTests);
    a_preference_leaves_something(outside_tests, Preference::NoHelpers);
}

/// Whether a result carries a reason and a confidence of one or less.
pub open spec fn is_rated(result: JsonView) -> bool {
    &&& result.text_at("reason"@) is Some
    &&& exists|n: nat|
        n <= 100 && result.get("confidence"@) == Some(#[trigger] hundredths_view(n))
}

/// Whether every result carries a reason and a confidence of one or less.
pub open spec fn all_rated(results: Seq<JsonView>) -> bool {
    forall|k: int| 0 <= k < results.len() ==> is_rated(#[trigger] results[k])
}

proof fn lemma_completed_is_rated(step: StepView, result: JsonView)
    requires
        is_plain(result),
        step.confidence <= 100,
    ensures
        is_rated(completed(step, result)),
{
    lemma_field_names();
    let reasoned = with_missing(result, "reason"@, JsonView::Text(step.reason));
    let rated = with_missing(reasoned, "confidence"@, hundredths_view(step.confidence as nat));
    assert(rated.get("confidence"@) == Some(hundredths_view(step.confidence as nat)));
    assert(rated.get("reason"@) == Some(JsonView::Text(step.reason)));
    let full = completed(step, result);
    assert(full.get("confidence"@) == rated.get("confidence"@));
    assert(full.get("reason"@) == rated.get("reason"@));
}

proof fn lemma_found_are_rated(
    indexes: Seq<IndexView>,
    files: Seq<FileView>,
    profile: Seq<char>,
    step: StepView,
    limit: usize,
)
    requires
        step.confidence <= 100,
    ensures
        all_rated(found_by(indexes, files, profile, step, limit)),
{
    let search = step_answer(indexes, step, limit);
    lemma_code_hits_are_plain(indexes, lowercase(step.term));
    lemma_graph_hits_are_plain(indexes, lowercase(step.term));
    lemma_kept_are_plain(files, profile, step, search);
    let kept = kept_results(files, profile, step, search);
    let found = found_by(indexes, files, profile, step, limit);
    assert forall|k: int| 0 <= k < found.len() implies is_rated(#[trigger] found[k]) by {
        lemma_completed_is_rated(step, kept[k]);
    }
}

proof fn lemma_merged_are_rated(results: Seq<JsonView>, incoming: Seq<JsonView>, limit: int)
    requires
        all_rated(results),
        all_rated(incoming),
    ensures
        all_rated(merged(results, incoming, limit)),
    decreases incoming.len(),
{
    if incoming.len() > 0 {
        let rest = incoming.skip(1);
        assert forall|k: int| 0 <= k < rest.len() implies is_rated(#[trigger] rest[k]) by {
            assert(rest[k] == incoming[k + 1]);
        }
        lemma_merged_are_rated(results, rest, limit);
        lemma_merged_are_rated(results.push(incoming[0]), rest, limit);
    }
}

proof fn lemma_gathered_are_rated(
    indexes: Seq<IndexView>,
    files: Seq<FileView>,
    profile: Seq<char>,
    limit: usize,
    results: Seq<JsonView>,
    steps: Seq<StepView>,
)
    requires
        all_rated(results),
        within_one(steps),
    ensures
        all_rated(gathered(indexes, files, profile, limit, results, steps)),
    decreases steps.len(),
{
    if steps.len() > 0 {
        let incoming = found_by(indexes, files, profile, steps[0], limit);
        lemma_found_are_rated(indexes, files, profile, steps[0], limit);
        lemma_merged_are_rated(results, incoming, limit as int);
        let rest = steps.skip(1);
        assert forall|k: int| 0 <= k < rest.len() implies (#[trigger] rest[k]).confidence
            <= 100 by {
            assert(rest[k] == steps[k + 1]);
        }
        lemma_gathered_are_rated(
            indexes,
            files,
            profile,
            limit,
            merged(results, incoming, limit as int),
            rest,
        );
    }
}

/// Every result of the search of a plan carries a reason and a confidence of one or less.
pub proof fn plan_matches_are_rated(
    indexes: Seq<IndexView>,
    files: Seq<FileView>,
    profile: Seq<char>,
    query: Seq<char>,
    max_points: usize,
)
    ensures
        all_rated(plan_matches(indexes, files, profile, query, max_points)),
{
    let limit = gather_limit(max_points);
    let steps = steps_for(profile, query);
    confidences_are_within_one(profile, trimmed(query), terms_in(query));
    lemma_gathered_are_rated(indexes, files, profile, limit, Seq::empty(), steps);
    let all = gathered(indexes, files, profile, limit, Seq::empty(), steps);
    let kind = |r: JsonView| is_rated(r);
    assert(all_of(all, kind));
    lemma_plain_code_keeps_kind(all, kind);
    assert(all_of(plan_matches(indexes, files, profile, query, max_points), kind));
}

} // verus!
