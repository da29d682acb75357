//! How results are told apart, classed, scored, ranked, kept, completed and merged.

use vstd::prelude::*;

use crate::json::{or_empty, JsonView};
use crate::laws::names::{profile_names, result_names};
use crate::order::{
    arranged, arrangement, arrangement_exists, before, is_arrangement, text_less, text_less_total,
    KeyView,
};
use crate::ranking::{
    file_of, fixture_like, has_signature, helper_like, in_test_context, is_callsite, is_definition,
    key_of, line_of, opens_test, penalty_of, rank_key, rank_keys, ranked, score_of, score_with,
    signatures, source_like, test_like, texts_of, ResultTextsView, TEST_LOOKBACK,
};
use crate::search::{
    a_preference_leaves_something, completed, fetch_limit, finalized, found_by, gather_limit,
    gathered, has_key, kept_results, merged, narrowed, penalty_for, plan_matches,
    plan_matches_are_distinct, preferred, preferring, results_in, settles, step_answer, step_search,
    with_penalties, with_penalty, Preference,
};
use crate::seqs::{lemma_filter_has, lemma_filter_keeps};
use crate::steps::{steps_for, PlanSearchKind, StepView};
use crate::store::{code_hits, file_at, graph_hits};
use crate::text::{begins_with, decimal_text, finishes_with, has_text, lines_of, lowercase, trimmed};
use crate::types::{FileView, IndexView};
use crate::wire::hundredths_view;

verus! {

// ---------------------------------------------------------------------------
// Fields
// ---------------------------------------------------------------------------

/// A result is in the file of its field `file` or else of `path`, on the line of `start_line` or
/// else of `line`, and carries the penalty of `context_penalty`.
pub proof fn a_result_is_read_by_its_fields(result: JsonView, default: u64)
    ensures
        result.text_at("file"@) matches Some(file) ==> file_of(result) == file,
        result.get("file"@) is None ==> file_of(result) == or_empty(result.text_at("path"@)),
        result.uint_at("start_line"@) matches Some(line) ==> line_of(result, default) == line,
        result.get("start_line"@) is None ==> (result.uint_at("line"@) matches Some(line)
            ==> line_of(result, default) == line),
        result.get("start_line"@) is None && result.get("line"@) is None ==> line_of(result, default)
            == default,
        result.int_at("context_penalty"@) matches Some(n) ==> penalty_of(result) == n,
        result.get("context_penalty"@) is None ==> penalty_of(result) == 0,
        key_of(result) == file_of(result) + ":"@ + decimal_text(line_of(result, 0) as nat) + ":"@
            + or_empty(result.text_at("name"@)),
{
}

/// A file that is no text counts as none, and a line that is no number as the one that is given
/// for it.
pub proof fn fields_of_another_kind_do_not_count(result: JsonView, default: u64)
    ensures
        result.get("file"@) is Some && result.text_at("file"@) is None ==> file_of(result).len() == 0,
        result.get("start_line"@) is Some && result.uint_at("start_line"@) is None ==> line_of(
            result,
            default,
        ) == default,
        result.get("start_line"@) is None && result.uint_at("line"@) is None ==> line_of(
            result,
            default,
        ) == default,
        result.int_at("context_penalty"@) is None ==> penalty_of(result) == 0,
{
}

// ---------------------------------------------------------------------------
// Classes
// ---------------------------------------------------------------------------

/// A result is in a source file by its path, of a test by its path or its snippet, and of code
/// that prepares searches by its snippet; case does not count.
pub proof fn results_are_classed_by_path_and_snippet(result: JsonView)
    ensures
        ({
            let path = lowercase(file_of(result));
            let snippet = lowercase(or_empty(result.text_at("snippet"@)));
            &&& source_like(result) <==> begins_with(path, "src/"@) || begins_with(path, "crates/"@)
                || has_text(path, "/src/"@) || finishes_with(path, ".rs"@)
            &&& test_like(result) <==> has_text(path, "test"@) || has_text(snippet, "#[test]"@)
                || has_text(snippet, "fn test"@) || has_text(snippet, "assert!("@) || has_text(
                snippet,
                "assert_eq!("@,
            ) || has_text(snippet, "assert_ne!("@)
            &&& has_text(snippet, "json!({"@) || has_text(snippet, "\"query\":"@) || has_text(
                snippet,
                "\"profile\":"@,
            ) || has_text(snippet, "\"snippet\":"@) || has_text(snippet, "plan_search_steps("@)
                || has_text(snippet, "build_profile_plan("@) || has_text(
                snippet,
                "recommend_follow_up_calls("@,
            ) ==> helper_like(result) && fixture_like(snippet)
            &&& has_text(snippet, "locate `"@) || has_text(snippet, "\\\"query\\\":"@) || has_text(
                snippet,
                "\\\"profile\\\":"@,
            ) || has_text(snippet, "\\\"snippet\\\":"@) || has_text(snippet, ".to_string(),"@)
                || has_text(snippet, "term: \""@) ==> helper_like(result)
            &&& begins_with(trimmed(snippet), "\""@) && finishes_with(trimmed(snippet), "\","@)
                ==> helper_like(result)
            &&& helper_like(result) ==> has_text(snippet, "json!({"@) || has_text(
                snippet,
                "\"query\":"@,
            ) || has_text(snippet, "\"profile\":"@) || has_text(snippet, "\"snippet\":"@)
                || has_text(snippet, "plan_search_steps("@) || has_text(
                snippet,
                "build_profile_plan("@,
            ) || has_text(snippet, "recommend_follow_up_calls("@) || has_text(snippet, "locate `"@)
                || has_text(snippet, "\\\"query\\\":"@) || has_text(snippet, "\\\"profile\\\":"@)
                || has_text(snippet, "\\\"snippet\\\":"@) || has_text(snippet, ".to_string(),"@)
                || has_text(snippet, "term: \""@) || (begins_with(trimmed(snippet), "\""@)
                && finishes_with(trimmed(snippet), "\","@))
            &&& fixture_like(snippet) ==> has_text(snippet, "json!({"@) || has_text(
                snippet,
                "\"query\":"@,
            ) || has_text(snippet, "\"profile\":"@) || has_text(snippet, "\"snippet\":"@)
                || has_text(snippet, "plan_search_steps("@) || has_text(
                snippet,
                "build_profile_plan("@,
            ) || has_text(snippet, "recommend_follow_up_calls("@)
        }),
{
}

/// A text defines a term exactly where a keyword and the term stand in it, and a result defines
/// one where its text does or its name is the term.
pub proof fn definitions_are_told_by_keywords(term: Seq<char>, parts: ResultTextsView)
    ensures
        is_definition(term, parts) <==> parts.name == term || has_text(
            parts.declared,
            "fn "@ + term,
        ) || has_text(parts.declared, "pub fn "@ + term) || has_text(parts.declared, "def "@ + term)
            || has_text(parts.declared, "class "@ + term) || has_text(
            parts.declared,
            "struct "@ + term,
        ) || has_text(parts.declared, "pub struct "@ + term),
        is_callsite(term, parts) <==> has_text(parts.snippet, term + "("@) && !is_definition(
            term,
            parts,
        ),
{
    let known = signatures(term);
    assert(known[0] == "fn "@ + term);
    assert(known[1] == "pub fn "@ + term);
    assert(known[2] == "def "@ + term);
    assert(known[3] == "class "@ + term);
    assert(known[4] == "struct "@ + term);
    assert(known[5] == "pub struct "@ + term);
    if has_signature(parts.declared, term) {
        let k = choose|k: int|
            0 <= k < signatures(term).len() && has_text(
                parts.declared,
                #[trigger] signatures(term)[k],
            );
        assert(0 <= k < 6);
    }
}

// ---------------------------------------------------------------------------
// Scores
// ---------------------------------------------------------------------------

/// What a mark counts.
pub open spec fn marks(condition: bool, points: int) -> int {
    if condition {
        points
    } else {
        0
    }
}

/// Whether a snippet is, but for white space, the term in double or single quotes, with a comma
/// or without.
pub open spec fn is_quoted_term(snippet: Seq<char>, term: Seq<char>) -> bool {
    let bare = trimmed(snippet);
    ||| bare == seq!['"'] + term + seq!['"']
    ||| bare == seq!['"'] + term + seq!['"', ',']
    ||| bare == seq!['\''] + term + seq!['\'']
    ||| bare == seq!['\''] + term + seq!['\'', ',']
}

/// The score of a result: the term counts 20, source code 10, test data for this tool 60 less,
/// the bare term in quotes 40 less, and the penalty is taken off; a definition and a call count
/// 100 and 15 where a definition is wanted, -10 and 90 where the reach of a change is, and else
/// 20 and 50.
pub proof fn scores_are_sums(profile: Seq<char>, term: Seq<char>, parts: ResultTextsView)
    ensures
        ({
            let base = marks(has_text(parts.snippet, term), 20) + marks(
                begins_with(parts.path, "src/"@) || has_text(parts.path, "/src/"@),
                10,
            ) - marks(fixture_like(parts.snippet), 60) - marks(
                is_quoted_term(parts.snippet, term),
                40,
            ) - parts.penalty;
            let definition = is_definition(term, parts);
            let call = is_callsite(term, parts);
            &&& profile == "find_definition"@ ==> score_with(profile, term, parts) == base + marks(
                definition,
                100,
            ) + marks(call, 15)
            &&& profile == "trace_impact"@ ==> score_with(profile, term, parts) == base - marks(
                definition,
                10,
            ) + marks(call, 90)
            &&& profile != "find_definition"@ && profile != "trace_impact"@ ==> score_with(
                profile,
                term,
                parts,
            ) == base + marks(definition, 20) + marks(call, 50)
        }),
{
    profile_names();
    reveal_strlit("\"");
    reveal_strlit("\",");
    reveal_strlit("'");
    reveal_strlit("',");
    assert("\""@ =~= seq!['"']);
    assert("\","@ =~= seq!['"', ',']);
    assert("'"@ =~= seq!['\'']);
    assert("',"@ =~= seq!['\'', ',']);
}

/// A result is scored by its snippet, its path, its name and its penalty, for the term of the
/// search, all in lowercase.
pub proof fn results_are_scored_by_their_texts(
    profile: Seq<char>,
    step: StepView,
    result: JsonView,
)
    ensures
        score_of(profile, step, result) == score_with(
            profile,
            lowercase(step.term),
            texts_of(result),
        ),
        texts_of(result).snippet == lowercase(or_empty(result.text_at("snippet"@))),
        texts_of(result).declared == lowercase(texts_of(result).snippet),
        texts_of(result).path == lowercase(file_of(result)),
        texts_of(result).name == lowercase(or_empty(result.text_at("name"@))),
        i32::MIN <= penalty_of(result) <= i32::MAX ==> texts_of(result).penalty == penalty_of(
            result,
        ),
{
}

// ---------------------------------------------------------------------------
// Order
// ---------------------------------------------------------------------------

/// Arranged items are the items, each once: those of a higher score first, among those of one
/// score the one whose text comes first, and else as they stood. The places that they had are
/// given back.
pub proof fn items_are_arranged_by_score_and_text<T>(items: Seq<T>, keys: Seq<KeyView>) -> (places:
    Seq<int>)
    requires
        items.len() == keys.len(),
    ensures
        places.len() == items.len(),
        arranged(items, keys).len() == items.len(),
        forall|i: int|
            0 <= i < items.len() ==> 0 <= #[trigger] places[i] < items.len() && arranged(
                items,
                keys,
            )[i] == items[places[i]],
        forall|k: int| 0 <= k < items.len() ==> #[trigger] places.contains(k),
        forall|i: int, j: int|
            0 <= i < j < items.len() ==> {
                let (a, b) = (keys[#[trigger] places[i]], keys[#[trigger] places[j]]);
                ||| a.score > b.score
                ||| a.score == b.score && text_less(a.text, b.text)
                ||| a.score == b.score && a.text == b.text && places[i] < places[j]
            },
{
    arrangement_exists(keys);
    let places = arrangement(keys);
    assert(is_arrangement(keys, places));
    assert forall|i: int, j: int| 0 <= i < j < items.len() implies {
        let (a, b) = (keys[#[trigger] places[i]], keys[#[trigger] places[j]]);
        ||| a.score > b.score
        ||| a.score == b.score && text_less(a.text, b.text)
        ||| a.score == b.score && a.text == b.text && places[i] < places[j]
    } by {
        assert(before(keys, places[i], places[j]));
        text_less_total(keys[places[i]].text, keys[places[j]].text);
    }
    places
}

/// Results are ranked by their scores and then by what tells them apart.
pub proof fn results_are_ranked_by_score_and_key(
    profile: Seq<char>,
    step: StepView,
    results: Seq<JsonView>,
)
    ensures
        ranked(profile, step, results).len() == results.len(),
        forall|i: int, j: int|
            0 <= i < j < results.len() ==> {
                let a = #[trigger] ranked(profile, step, results)[i];
                let b = #[trigger] ranked(profile, step, results)[j];
                ||| score_of(profile, step, a) > score_of(profile, step, b)
                ||| score_of(profile, step, a) == score_of(profile, step, b) && (text_less(
                    key_of(a),
                    key_of(b),
                ) || key_of(a) == key_of(b))
            },
{
    let keys = rank_keys(profile, step, results);
    let places = items_are_arranged_by_score_and_text(results, keys);
    assert forall|i: int, j: int| 0 <= i < j < results.len() implies {
        let a = #[trigger] ranked(profile, step, results)[i];
        let b = #[trigger] ranked(profile, step, results)[j];
        ||| score_of(profile, step, a) > score_of(profile, step, b)
        ||| score_of(profile, step, a) == score_of(profile, step, b) && (text_less(
            key_of(a),
            key_of(b),
        ) || key_of(a) == key_of(b))
    } by {
        assert(0 <= places[i] < results.len() && 0 <= places[j] < results.len());
        assert(keys[places[i]] == rank_key(profile, step, results[places[i]]));
        assert(keys[places[j]] == rank_key(profile, step, results[places[j]]));
    }
}

// ---------------------------------------------------------------------------
// Tests
// ---------------------------------------------------------------------------

/// A line opens a test where, but for white space, it begins with a test attribute, a module of
/// tests or a function whose name says so.
pub proof fn tests_are_opened_by_attributes_and_names(line: Seq<char>)
    ensures
        opens_test(line) <==> begins_with(trimmed(line), "#[test]"@) || begins_with(
            trimmed(line),
            "#[cfg(test)]"@,
        ) || begins_with(trimmed(line), "mod tests"@) || begins_with(trimmed(line), "fn test_"@),
        TEST_LOOKBACK == 32,
{
}

/// A line belongs to a test exactly where one of the thirty-two lines before it opens one.
pub proof fn a_line_belongs_to_the_test_before_it(lines: Seq<Seq<char>>, line: int)
    requires
        1 <= line <= lines.len(),
    ensures
        in_test_context(lines, line) <==> exists|k: int|
            1 <= k < line && line - k <= 32 && opens_test(#[trigger] lines[k - 1]),
{
    if in_test_context(lines, line) {
        let k = choose|k: int|
            0 <= k < line - 1 && line - 1 - TEST_LOOKBACK <= k && opens_test(#[trigger] lines[k]);
        assert(opens_test(lines[(k + 1) - 1]));
    }
    if exists|k: int| 1 <= k < line && line - k <= 32 && opens_test(#[trigger] lines[k - 1]) {
        let k = choose|k: int|
            1 <= k < line && line - k <= 32 && opens_test(#[trigger] lines[k - 1]);
        assert(opens_test(lines[k - 1]));
    }
}

/// The first line belongs to no test, and a line past the end counts as the one after the end.
pub proof fn lines_past_the_end_count_as_the_next(lines: Seq<Seq<char>>, line: int)
    requires
        line > lines.len(),
    ensures
        !in_test_context(lines, 1),
        in_test_context(lines, line) <==> exists|k: int|
            0 <= k < lines.len() && lines.len() - k <= 32 && opens_test(#[trigger] lines[k]),
{
}

/// A result on a line of a test is worth eighty less, which is noted on it, and any other stays
/// as it is.
pub proof fn results_in_tests_are_worth_less(
    files: Seq<FileView>,
    result: JsonView,
    file: FileView,
    key: Seq<char>,
)
    requires
        result is Object,
        file_at(files, file_of(result)) == Some(file),
        file_of(result).len() > 0,
        line_of(result, 0) > 0,
        key != "context_penalty"@,
    ensures
        in_test_context(lines_of(file.text), line_of(result, 0)) ==> penalty_for(files, result) == 80
            && with_penalty(files, result).get("context_penalty"@) == Some(JsonView::Integer(80))
            && with_penalty(files, result).get(key) == result.get(key),
        !in_test_context(lines_of(file.text), line_of(result, 0)) ==> penalty_for(files, result)
            == 0 && with_penalty(files, result) == result,
{
}

/// A result that is in no file that is there, or on no line, is worth no less.
pub proof fn results_without_a_place_keep_their_worth(files: Seq<FileView>, result: JsonView)
    requires
        file_at(files, file_of(result)) is None || file_of(result).len() == 0 || line_of(result, 0)
            == 0,
    ensures
        penalty_for(files, result) == 0,
        with_penalty(files, result) == result,
{
}

// ---------------------------------------------------------------------------
// Preferences
// ---------------------------------------------------------------------------

/// Results are preferred in source files, without a penalty, outside tests, and outside code
/// that prepares searches; where any is preferred only those are kept, in their order, and else
/// all.
pub proof fn only_preferred_results_are_kept(results: Seq<JsonView>, preference: Preference)
    ensures
        (exists|k: int| 0 <= k < results.len() && preferred(#[trigger] results[k], preference))
            ==> preferring(results, preference) == results.filter(
            |r: JsonView| preferred(r, preference),
        ),
        (forall|k: int| 0 <= k < results.len() ==> !preferred(#[trigger] results[k], preference))
            ==> preferring(results, preference) == results,
        forall|r: JsonView| preferred(r, Preference::Sources) <==> #[trigger] source_like(r),
        forall|r: JsonView| preferred(r, Preference::Clean) <==> #[trigger] penalty_of(r) == 0,
        forall|r: JsonView| preferred(r, Preference::NoTests) <==> !#[trigger] test_like(r),
        forall|r: JsonView| preferred(r, Preference::NoHelpers) <==> !#[trigger] helper_like(r),
{
    let keep = |r: JsonView| preferred(r, preference);
    if exists|k: int| 0 <= k < results.len() && preferred(#[trigger] results[k], preference) {
        let k = choose|k: int|
            0 <= k < results.len() && preferred(#[trigger] results[k], preference);
        lemma_filter_has(results, keep, k);
    }
    lemma_filter_keeps(results, keep);
    if results.filter(keep).len() > 0 {
        let x = results.filter(keep)[0];
        assert(keep(x) && results.contains(x));
        let k = results.index_of(x);
        assert(preferred(results[k], preference));
    }
}

/// Where the reach of a change or a bug is looked for, results in source files, then those
/// without a penalty, outside tests and outside code that prepares searches are preferred; where
/// anything else is, one search keeps all its results, and a plan those without a penalty.
pub proof fn preferences_go_by_what_is_wanted(profile: Seq<char>, results: Seq<JsonView>)
    ensures
        ({
            let plain = |r: Seq<JsonView>|
                preferring(
                    preferring(preferring(r, Preference::Clean), Preference::NoTests),
                    Preference::NoHelpers,
                );
            if profile == "trace_impact"@ || profile == "bug_investigation"@ {
                &&& narrowed(profile, results) == plain(preferring(results, Preference::Sources))
                &&& finalized(profile, results) == plain(results)
            } else {
                &&& narrowed(profile, results) == results
                &&& finalized(profile, results) == preferring(results, Preference::Clean)
            }
        }),
{
}

// ---------------------------------------------------------------------------
// Completion
// ---------------------------------------------------------------------------

/// A completed result has the reason and the confidence of its search, and for a symbol its
/// label and its name as a snippet, each only where it had none; nothing else changes.
pub proof fn completing_adds_what_is_missing(step: StepView, result: JsonView, key: Seq<char>)
    requires
        result is Object,
    ensures
        ({
            let full = completed(step, result);
            &&& full is Object
            &&& result.get("reason"@) is None ==> full.text_at("reason"@) == Some(step.reason)
            &&& result.get("reason"@) is Some ==> full.get("reason"@) == result.get("reason"@)
            &&& result.get("confidence"@) is None ==> full.get("confidence"@) == Some(
                hundredths_view(step.confidence as nat),
            )
            &&& result.get("confidence"@) is Some ==> full.get("confidence"@) == result.get(
                "confidence"@,
            )
            &&& result.get("snippet"@) is Some ==> full.get("snippet"@) == result.get("snippet"@)
            &&& result.get("snippet"@) is None ==> (result.text_at("name"@) matches Some(name)
                ==> full.text_at("snippet"@) == Some(
                match result.text_at("label"@) {
                    Some(label) => label + " "@ + name,
                    None => "symbol "@ + name,
                },
            ))
            &&& result.get("snippet"@) is None && result.text_at("name"@) is None ==> full.get(
                "snippet"@,
            ) is None
            &&& key != "reason"@ && key != "confidence"@ && key != "snippet"@ ==> full.get(key)
                == result.get(key)
        }),
{
    result_names();
    reveal_strlit("symbol");
    reveal_strlit(" ");
    reveal_strlit("symbol ");
    if let Some(name) = result.text_at("name"@) {
        assert("symbol"@ + " "@ + name =~= "symbol "@ + name);
    }
}

// ---------------------------------------------------------------------------
// One search
// ---------------------------------------------------------------------------

/// A search of a plan looks for its term in lowercase in the project of the plan, and asks for
/// eight times as many lines as are wanted or four times as many symbols, and eight at least.
pub proof fn a_search_asks_for_more_than_it_shows(
    project: Seq<char>,
    step: StepView,
    limit: usize,
)
    ensures
        step_search(project, step, limit).pattern == lowercase(step.term),
        step_search(project, step, limit).project == Some(project),
        step_search(project, step, limit).limit >= 8,
        step.kind == PlanSearchKind::Code && 1 <= limit && limit * 8 <= usize::MAX ==> step_search(
            project,
            step,
            limit,
        ).limit == 8 * limit,
        step.kind == PlanSearchKind::Graph && 2 <= limit && limit * 4 <= usize::MAX ==> step_search(
            project,
            step,
            limit,
        ).limit == 4 * limit,
        step_search(project, step, limit).limit == fetch_limit(step.kind, limit),
{
}

/// A search of a plan finds the lines or the symbols that hold its term in lowercase.
pub proof fn a_search_finds_what_the_store_finds(
    indexes: Seq<IndexView>,
    step: StepView,
    limit: usize,
)
    ensures
        ({
            let hits = match step.kind {
                PlanSearchKind::Code => code_hits(indexes, lowercase(step.term)),
                PlanSearchKind::Graph => graph_hits(indexes, lowercase(step.term)),
            };
            let found = results_in(step_answer(indexes, step, limit));
            &&& hits.len() <= fetch_limit(step.kind, limit) ==> found == hits
            &&& hits.len() > fetch_limit(step.kind, limit) ==> found == hits.take(
                fetch_limit(step.kind, limit) as int,
            )
        }),
{
}

proof fn lemma_kept_are_there(
    files: Seq<FileView>,
    profile: Seq<char>,
    step: StepView,
    search: JsonView,
)
    ensures
        ({
            let marked = with_penalties(files, results_in(search));
            let kept = kept_results(files, profile, step, search);
            &&& kept.len() <= marked.len()
            &&& marked.len() > 0 ==> kept.len() > 0
            &&& forall|k: int| 0 <= k < kept.len() ==> marked.contains(#[trigger] kept[k])
        }),
{
    let marked = with_penalties(files, results_in(search));
    let sorted = ranked(profile, step, marked);
    let places = items_are_arranged_by_score_and_text(marked, rank_keys(profile, step, marked));
    assert forall|k: int| 0 <= k < sorted.len() implies marked.contains(#[trigger] sorted[k]) by {
        assert(0 <= places[k] < marked.len());
    }
    a_preference_leaves_something(sorted, Preference::Sources);
    let a = preferring(sorted, Preference::Sources);
    a_preference_leaves_something(a, Preference::Clean);
    let b = preferring(a, Preference::Clean);
    a_preference_leaves_something(b, Preference::NoTests);
    let c = preferring(b, Preference::NoTests);
    a_preference_leaves_something(c, Preference::NoHelpers);
    let kept = kept_results(files, profile, step, search);
    assert forall|k: int| 0 <= k < kept.len() implies marked.contains(#[trigger] kept[k]) by {
        if kept == sorted {
            assert(marked.contains(sorted[k]));
        } else {
            let d = preferring(c, Preference::NoHelpers);
            assert(kept == d);
            assert(c.contains(d[k]));
            let i = c.index_of(d[k]);
            assert(b.contains(c[i]));
            let j = b.index_of(c[i]);
            assert(a.contains(b[j]));
            let m = a.index_of(b[j]);
            assert(sorted.contains(a[m]));
            let n = sorted.index_of(a[m]);
            assert(marked.contains(sorted[n]));
        }
    }
}

/// A search of a plan that the store answers with something gives something, and every result
/// is one of the answers, with its penalty noted and completed; the place of the answer is given
/// back.
pub proof fn a_search_gives_what_was_found(
    indexes: Seq<IndexView>,
    files: Seq<FileView>,
    profile: Seq<char>,
    step: StepView,
    limit: usize,
    k: int,
) -> (i: int)
    ensures
        ({
            let answers = results_in(step_answer(indexes, step, limit));
            let found = found_by(indexes, files, profile, step, limit);
            &&& answers.len() > 0 <==> found.len() > 0
            &&& found.len() <= answers.len()
            &&& 0 <= k < found.len() ==> 0 <= i < answers.len() && found[k] == completed(
                step,
                with_penalty(files, answers[i]),
            )
        }),
{
    let search = step_answer(indexes, step, limit);
    let answers = results_in(search);
    let marked = with_penalties(files, answers);
    let kept = kept_results(files, profile, step, search);
    lemma_kept_are_there(files, profile, step, search);
    if 0 <= k < kept.len() {
        assert(marked.contains(kept[k]));
        let i = marked.index_of(kept[k]);
        assert(marked[i] == with_penalty(files, answers[i]));
        i
    } else {
        0
    }
}

// ---------------------------------------------------------------------------
// Merging
// ---------------------------------------------------------------------------

/// What comes in is merged one by one: a result whose file, line and name are there already is
/// left out, any other is put at the end, and nothing more comes in once the limit is reached.
pub proof fn results_are_merged_one_by_one(
    results: Seq<JsonView>,
    incoming: Seq<JsonView>,
    next: JsonView,
    limit: int,
)
    requires
        results.len() < limit,
    ensures
        merged(results, Seq::empty(), limit) == results,
        ({
            let done = merged(results, incoming, limit);
            let more = merged(results, incoming.push(next), limit);
            &&& done.len() >= limit ==> more == done
            &&& done.len() < limit && has_key(done, key_of(next)) ==> more == done
            &&& done.len() < limit && !has_key(done, key_of(next)) ==> more == done.push(next)
        }),
    decreases incoming.len(),
{
    let more = incoming.push(next);
    assert(more[0] == if incoming.len() > 0 { incoming[0] } else { next });
    reveal_with_fuel(merged, 2);
    if incoming.len() > 0 {
        assert(more.skip(1) =~= incoming.skip(1).push(next));
        if has_key(results, key_of(incoming[0])) {
            results_are_merged_one_by_one(results, incoming.skip(1), next, limit);
        } else if results.len() + 1 < limit {
            results_are_merged_one_by_one(
                results.push(incoming[0]),
                incoming.skip(1),
                next,
                limit,
            );
        }
    } else {
        assert(more.skip(1) =~= Seq::empty());
    }
}

/// Results have a key exactly where one of them has.
pub proof fn keys_are_those_of_results(results: Seq<JsonView>, k: int)
    requires
        0 <= k < results.len(),
    ensures
        has_key(results, key_of(results[k])),
        !has_key(Seq::empty(), key_of(results[k])),
{
}

// ---------------------------------------------------------------------------
// All searches
// ---------------------------------------------------------------------------

/// A symbol settles what is wanted where a definition is, and a line where a bug is
/// investigated; nothing else settles it.
pub proof fn symbols_settle_definitions_and_lines_settle_bugs(
    profile: Seq<char>,
    kind: PlanSearchKind,
)
    ensures
        !settles(profile, kind, false),
        settles("find_definition"@, PlanSearchKind::Graph, true),
        settles("bug_investigation"@, PlanSearchKind::Code, true),
        !settles("find_definition"@, PlanSearchKind::Code, true),
        !settles("bug_investigation"@, PlanSearchKind::Graph, true),
        profile != "find_definition"@ && profile != "bug_investigation"@ ==> !settles(
            profile,
            kind,
            true,
        ),
{
    profile_names();
}

/// Searches are made one after the other, and none after one that fills the limit or settles
/// what is wanted.
pub proof fn searches_stop_when_settled(
    indexes: Seq<IndexView>,
    files: Seq<FileView>,
    profile: Seq<char>,
    limit: usize,
    results: Seq<JsonView>,
    step: StepView,
    steps: Seq<StepView>,
)
    ensures
        ({
            let found = found_by(indexes, files, profile, step, limit);
            let next = merged(results, found, limit as int);
            let all = gathered(indexes, files, profile, limit, results, seq![step] + steps);
            &&& gathered(indexes, files, profile, limit, results, Seq::empty()) == results
            &&& next.len() >= limit ==> all == next
            &&& settles(profile, step.kind, found.len() > 0) ==> all == next
            &&& next.len() < limit && !settles(profile, step.kind, found.len() > 0) ==> all
                == gathered(indexes, files, profile, limit, next, steps)
        }),
{
    let more = seq![step] + steps;
    assert(more[0] == step);
    assert(more.skip(1) =~= steps);
}

proof fn lemma_merged_has_all(results: Seq<JsonView>, incoming: Seq<JsonView>, limit: int, k: int) -> (
    place: int)
    ensures
        merged(results, incoming, limit).len() >= results.len(),
        incoming.len() > 0 ==> merged(results, incoming, limit).len() > 0,
        0 <= k < merged(results, incoming, limit).len() ==> (0 <= place < results.len() && merged(
            results,
            incoming,
            limit,
        )[k] == results[place]) || (0 <= place - results.len() < incoming.len() && merged(
            results,
            incoming,
            limit,
        )[k] == incoming[place - results.len()]),
    decreases incoming.len(),
{
    if incoming.len() == 0 {
        k
    } else if has_key(results, key_of(incoming[0])) {
        let p = lemma_merged_has_all(results, incoming.skip(1), limit, k);
        if p >= results.len() {
            p + 1
        } else {
            p
        }
    } else if results.len() + 1 >= limit {
        k
    } else {
        let next = results.push(incoming[0]);
        let p = lemma_merged_has_all(next, incoming.skip(1), limit, k);
        p
    }
}

proof fn lemma_gathered_from(
    indexes: Seq<IndexView>,
    files: Seq<FileView>,
    profile: Seq<char>,
    limit: usize,
    results: Seq<JsonView>,
    steps: Seq<StepView>,
    k: int,
) -> (place: (int, int))
    ensures
        ({
            let all = gathered(indexes, files, profile, limit, results, steps);
            &&& all.len() >= results.len()
            &&& 0 <= k < all.len() ==> {
                ||| 0 <= place.1 < results.len() && all[k] == results[place.1]
                ||| 0 <= place.0 < steps.len() && 0 <= place.1 < found_by(
                    indexes,
                    files,
                    profile,
                    steps[place.0],
                    limit,
                ).len() && all[k] == found_by(
                    indexes,
                    files,
                    profile,
                    steps[place.0],
                    limit,
                )[place.1]
            }
        }),
    decreases steps.len(),
{
    if steps.len() == 0 {
        (0, k)
    } else {
        let incoming = found_by(indexes, files, profile, steps[0], limit);
        let next = merged(results, incoming, limit as int);
        if next.len() >= limit || settles(profile, steps[0].kind, incoming.len() > 0) {
            let p = lemma_merged_has_all(results, incoming, limit as int, k);
            if p < results.len() {
                (0, p)
            } else {
                (0, p - results.len())
            }
        } else {
            let (s, p) = lemma_gathered_from(
                indexes,
                files,
                profile,
                limit,
                next,
                steps.skip(1),
                k,
            );
            let q = lemma_merged_has_all(results, incoming, limit as int, p);
            let all = gathered(indexes, files, profile, limit, results, steps);
            if 0 <= k < all.len() && 0 <= p < next.len() && all[k] == next[p] {
                if q < results.len() {
                    (0, q)
                } else {
                    (0, q - results.len())
                }
            } else {
                (s + 1, p)
            }
        }
    }
}

proof fn lemma_gathered_has_some(
    indexes: Seq<IndexView>,
    files: Seq<FileView>,
    profile: Seq<char>,
    limit: usize,
    results: Seq<JsonView>,
    steps: Seq<StepView>,
    s: int,
)
    requires
        limit > 0,
        0 <= s < steps.len(),
        found_by(indexes, files, profile, steps[s], limit).len() > 0,
    ensures
        gathered(indexes, files, profile, limit, results, steps).len() > 0,
    decreases steps.len(),
{
    let incoming = found_by(indexes, files, profile, steps[0], limit);
    let next = merged(results, incoming, limit as int);
    let p = lemma_merged_has_all(results, incoming, limit as int, 0);
    if next.len() >= limit || settles(profile, steps[0].kind, incoming.len() > 0) {
        if incoming.len() == 0 {
            assert(next.len() >= limit);
        }
    } else {
        let place = lemma_gathered_from(indexes, files, profile, limit, next, steps.skip(1), 0);
        if s > 0 {
            lemma_gathered_has_some(
                indexes,
                files,
                profile,
                limit,
                next,
                steps.skip(1),
                s - 1,
            );
        }
    }
}

proof fn lemma_finalized(profile: Seq<char>, results: Seq<JsonView>, k: int) -> (place: int)
    ensures
        results.len() > 0 <==> finalized(profile, results).len() > 0,
        0 <= k < finalized(profile, results).len() ==> 0 <= place < results.len() && finalized(
            profile,
            results,
        )[k] == results[place],
{
    a_preference_leaves_something(results, Preference::Clean);
    let a = preferring(results, Preference::Clean);
    a_preference_leaves_something(a, Preference::NoTests);
    let b = preferring(a, Preference::NoTests);
    a_preference_leaves_something(b, Preference::NoHelpers);
    let all = finalized(profile, results);
    if 0 <= k < all.len() {
        if all == a {
            assert(results.contains(a[k]));
            results.index_of(a[k])
        } else {
            let c = preferring(b, Preference::NoHelpers);
            assert(all == c);
            assert(b.contains(c[k]));
            let i = b.index_of(c[k]);
            assert(a.contains(b[i]));
            let j = a.index_of(b[i]);
            assert(results.contains(a[j]));
            results.index_of(a[j])
        }
    } else {
        0
    }
}

/// What one search keeps is what was found, with penalties noted, ranked, narrowed by what is
/// wanted and completed, in this order.
pub proof fn found_results_are_ranked_then_narrowed(
    indexes: Seq<IndexView>,
    files: Seq<FileView>,
    profile: Seq<char>,
    step: StepView,
    limit: usize,
)
    ensures
        ({
            let answers = results_in(step_answer(indexes, step, limit));
            let marked = Seq::new(answers.len(), |i: int| with_penalty(files, answers[i]));
            let kept = narrowed(profile, ranked(profile, step, marked));
            let found = found_by(indexes, files, profile, step, limit);
            &&& found.len() == kept.len()
            &&& forall|i: int| 0 <= i < kept.len() ==> #[trigger] found[i] == completed(step, kept[i])
        }),
{
    let answers = results_in(step_answer(indexes, step, limit));
    let marked = Seq::new(answers.len(), |i: int| with_penalty(files, answers[i]));
    assert(with_penalties(files, answers) =~= marked);
}

/// The results of a plan are what all its searches gather, from nothing on and as far as it may
/// show, at least one, and of that what is worth keeping.
pub proof fn a_plan_keeps_what_its_searches_gather(
    indexes: Seq<IndexView>,
    files: Seq<FileView>,
    profile: Seq<char>,
    query: Seq<char>,
    max_points: usize,
)
    ensures
        plan_matches(indexes, files, profile, query, max_points) == finalized(
            profile,
            gathered(
                indexes,
                files,
                profile,
                if max_points == 0 { 1 } else { max_points },
                Seq::empty(),
                steps_for(profile, query),
            ),
        ),
        plan_matches(indexes, files, profile, query, max_points).len() <= if max_points == 0 {
            1
        } else {
            max_points
        },
{
    plan_matches_are_distinct(indexes, files, profile, query, max_points);
}

/// Every result of a plan is one that one of its searches found: which of them, and its place
/// among what that found.
pub proof fn a_plan_shows_what_its_searches_found(
    indexes: Seq<IndexView>,
    files: Seq<FileView>,
    profile: Seq<char>,
    query: Seq<char>,
    max_points: usize,
    k: int,
) -> (place: (int, int))
    requires
        0 <= k < plan_matches(indexes, files, profile, query, max_points).len(),
    ensures
        ({
            let steps = steps_for(profile, query);
            let limit = if max_points == 0 { 1 } else { max_points };
            let found = found_by(indexes, files, profile, steps[place.0], limit);
            &&& 0 <= place.0 < steps.len()
            &&& 0 <= place.1 < found.len()
            &&& plan_matches(indexes, files, profile, query, max_points)[k] == found[place.1]
        }),
{
    let steps = steps_for(profile, query);
    let limit = gather_limit(max_points);
    let all = gathered(indexes, files, profile, limit, Seq::empty(), steps);
    let p = lemma_finalized(profile, all, k);
    lemma_gathered_from(indexes, files, profile, limit, Seq::empty(), steps, p)
}

/// A plan shows something exactly where one of its searches finds something.
pub proof fn a_plan_shows_something_that_is_found(
    indexes: Seq<IndexView>,
    files: Seq<FileView>,
    profile: Seq<char>,
    query: Seq<char>,
    max_points: usize,
    s: int,
)
    requires
        0 <= s < steps_for(profile, query).len(),
        ({
            let step = steps_for(profile, query)[s];
            match step.kind {
                PlanSearchKind::Code => code_hits(indexes, lowercase(step.term)).len() > 0,
                PlanSearchKind::Graph => graph_hits(indexes, lowercase(step.term)).len() > 0,
            }
        }),
    ensures
        plan_matches(indexes, files, profile, query, max_points).len() > 0,
{
    let steps = steps_for(profile, query);
    let limit = gather_limit(max_points);
    let i = a_search_gives_what_was_found(indexes, files, profile, steps[s], limit, 0);
    a_search_finds_what_the_store_finds(indexes, steps[s], limit);
    assert(fetch_limit(steps[s].kind, limit) >= 8);
    lemma_gathered_has_some(indexes, files, profile, limit, Seq::empty(), steps, s);
    let all = gathered(indexes, files, profile, limit, Seq::empty(), steps);
    let p = lemma_finalized(profile, all, 0);
}

} // verus!
