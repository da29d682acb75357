//! What a plan shows, says and keeps, and how its points are asked for.

use vstd::prelude::*;

use crate::json::{or_empty, JsonView};
use crate::laws::names::{plan_names, profile_names, result_names, scope_names};
use crate::laws::queries::{chosen_terms, chosen_terms_are_all_searched_for, is_code};
use crate::laws::results::{
    a_plan_shows_something_that_is_found, a_plan_shows_what_its_searches_found,
    a_search_finds_what_the_store_finds, a_search_gives_what_was_found,
    completing_adds_what_is_missing,
};
use crate::paths::joined_path;
use crate::plan::{
    budget_of, budgeted, call_arguments, constraints_of, expand_reply, first_point_text, first_term,
    fresh, hinted_symbol, is_requested, looks, named_root, no_points_reply, plan_name, plan_of, points_in,
    points_of, points_reply, profile_of, recommended, requested_ids, requested_points, root_or,
    scope_root, search_for, symbol_among, symbol_for, texts_among, with_project, without_scope,
    DEFAULT_PRIMARY_POINTS, DEFAULT_RESPONSE_CHARS, TermLook,
};
use crate::ranking::{file_of, line_of};
use crate::search::{gather_limit, plan_matches, results_in, step_answer, with_penalty};
use crate::seqs::{lemma_filter_keeps, lemma_same_filter};
use crate::steps::{steps_for, PlanSearchKind, StepView};
use crate::store::{a_matching_symbol_is_found, code_hits, graph_hits, symbol_matches};
use crate::terms::terms_in;
use crate::text::{begins_with, byte_length, decimal_text, has_text, hex_text, lowercase};
use crate::types::{FileView, IndexView};
use crate::util::text_array_view;
use crate::wire::{hundredths_view, json_text};

verus! {

// ---------------------------------------------------------------------------
// What is found
// ---------------------------------------------------------------------------

/// A symbol in whose name one of the chosen terms of a query stands is looked up: the plan for
/// its definition, or for what a change of it reaches, is not empty.
pub proof fn a_symbol_asked_for_is_looked_up(
    indexes: Seq<IndexView>,
    files: Seq<FileView>,
    profile: Seq<char>,
    query: Seq<char>,
    max_points: usize,
    i: int,
    j: int,
    t: int,
)
    requires
        profile == "find_definition"@ || profile == "trace_impact"@,
        0 <= i < indexes.len(),
        0 <= j < indexes[i].symbols.len(),
        0 <= t < chosen_terms(terms_in(query)).len(),
        has_text(
            lowercase(indexes[i].symbols[j].name),
            lowercase(chosen_terms(terms_in(query))[t]),
        ),
    ensures
        plan_matches(indexes, files, profile, query, max_points).len() > 0,
{
    let term = chosen_terms(terms_in(query))[t];
    let steps = steps_for(profile, query);
    chosen_terms_are_all_searched_for(profile, query, t);
    let s = choose|s: int|
        0 <= s < steps.len() && #[trigger] steps[s].kind == PlanSearchKind::Graph && steps[s].term
            == term;
    assert(symbol_matches(indexes[i].symbols[j], lowercase(term)));
    let k = a_matching_symbol_is_found(indexes, lowercase(term), i, j);
    a_plan_shows_something_that_is_found(indexes, files, profile, query, max_points, s);
}

/// What the store finds for a search of a plan.
pub open spec fn step_hits(indexes: Seq<IndexView>, step: StepView) -> Seq<JsonView> {
    match step.kind {
        PlanSearchKind::Code => code_hits(indexes, lowercase(step.term)),
        PlanSearchKind::Graph => graph_hits(indexes, lowercase(step.term)),
    }
}

/// Whether all hits of a search of a plan are on one line of one file.
pub open spec fn hits_only(
    indexes: Seq<IndexView>,
    step: StepView,
    file: Seq<char>,
    line: int,
) -> bool {
    forall|k: int|
        0 <= k < step_hits(indexes, step).len() ==> {
            let hit = #[trigger] step_hits(indexes, step)[k];
            hit.text_at("file"@) == Some(file) && hit.get("start_line"@) == Some(
                JsonView::Integer(line),
            )
        }
}

/// Where all that is found is on one line of one file, every result of the plan is there too.
pub proof fn the_only_place_found_is_shown(
    indexes: Seq<IndexView>,
    files: Seq<FileView>,
    profile: Seq<char>,
    query: Seq<char>,
    max_points: usize,
    file: Seq<char>,
    line: int,
    k: int,
)
    requires
        forall|s: int|
            0 <= s < steps_for(profile, query).len() ==> hits_only(
                indexes,
                #[trigger] steps_for(profile, query)[s],
                file,
                line,
            ),
        0 <= k < plan_matches(indexes, files, profile, query, max_points).len(),
    ensures
        plan_matches(indexes, files, profile, query, max_points)[k].text_at("file"@) == Some(file),
        plan_matches(indexes, files, profile, query, max_points)[k].get("start_line"@) == Some(
            JsonView::Integer(line),
        ),
{
    result_names();
    let steps = steps_for(profile, query);
    let limit = gather_limit(max_points);
    let (s, p) = a_plan_shows_what_its_searches_found(
        indexes,
        files,
        profile,
        query,
        max_points,
        k,
    );
    let step = steps[s];
    assert(hits_only(indexes, step, file, line));
    let a = a_search_gives_what_was_found(indexes, files, profile, step, limit, p);
    a_search_finds_what_the_store_finds(indexes, step, limit);
    let answers = results_in(step_answer(indexes, step, limit));
    let answer = answers[a];
    assert(0 <= a < step_hits(indexes, step).len());
    assert(answer == step_hits(indexes, step)[a]);
    assert(answer.text_at("file"@) == Some(file));
    let marked = with_penalty(files, answer);
    assert(marked.get("file"@) == answer.get("file"@));
    assert(marked.get("start_line"@) == answer.get("start_line"@));
    completing_adds_what_is_missing(step, marked, "file"@);
    completing_adds_what_is_missing(step, marked, "start_line"@);
}

// ---------------------------------------------------------------------------
// Points
// ---------------------------------------------------------------------------

/// A plan has a point for each of the first results, which says where the result is and why it
/// is there.
pub proof fn points_say_where_results_are(
    root: Seq<char>,
    results: Seq<JsonView>,
    max_points: nat,
    i: int,
)
    requires
        0 <= i < results.len(),
        i < max_points,
    ensures
        ({
            let points = points_of(root, results, max_points as int);
            let point = points[i];
            let file = file_of(results[i]);
            let line = line_of(results[i], 1);
            &&& points.len() == if results.len() <= max_points { results.len() } else { max_points }
            &&& point.text_at("point_id"@) == Some(
                "pt_"@ + decimal_text(i as nat) + "_"@ + decimal_text(line as nat),
            )
            &&& point.text_at("path"@) == Some(file)
            &&& point.text_at("relative_path"@) == Some(file)
            &&& point.text_at("absolute_path"@) == Some(joined_path(root, file))
            &&& point.get("start_line"@) == Some(JsonView::Integer(line))
            &&& point.get("end_line"@) == Some(JsonView::Integer(line))
            &&& point.get("line_count"@) == Some(JsonView::Integer(1))
            &&& point.text_at("snippet"@) == Some(or_empty(results[i].text_at("snippet"@)))
            &&& results[i].get("reason"@) is Some ==> point.get("reason"@) == results[i].get(
                "reason"@,
            )
            &&& results[i].get("reason"@) is None ==> point.text_at("reason"@) == Some(
                "clab lexical match"@,
            )
            &&& results[i].get("confidence"@) is Some ==> point.get("confidence"@)
                == results[i].get("confidence"@)
            &&& results[i].get("confidence"@) is None ==> point.get("confidence"@) == Some(
                hundredths_view(50),
            )
            &&& point.text_at("cluster_id"@) == Some("cluster_primary"@)
        }),
{
    plan_names();
}

/// Without results, or where none may be shown, a plan has no points.
pub proof fn no_results_give_no_points(root: Seq<char>, results: Seq<JsonView>, max_points: nat)
    requires
        results.len() == 0 || max_points == 0,
    ensures
        points_of(root, results, max_points as int).len() == 0,
{
}

// ---------------------------------------------------------------------------
// Plans
// ---------------------------------------------------------------------------

/// How many points a request asks for, and how many characters: three and sixteen thousand where
/// its budget does not say.
pub proof fn budgets_have_defaults(body: JsonView)
    ensures
        DEFAULT_PRIMARY_POINTS == 3,
        DEFAULT_RESPONSE_CHARS == 16_000,
        body.get("budget"@) matches Some(budget) ==> budget_of(body) == budget,
        body.get("budget"@) is None ==> budget_of(body) == JsonView::Object(Map::empty()),
        body.get("constraints"@) matches Some(held) ==> constraints_of(body) == held,
        body.get("constraints"@) is None ==> constraints_of(body) == JsonView::Object(Map::empty()),
        body.text_at("profile"@) matches Some(profile) ==> profile_of(body) == profile,
        body.text_at("profile"@) is None ==> profile_of(body) == "find_definition"@,
{
}

/// A plan carries its name, what was wanted, its points, what to do next, what it used of its
/// budget, where it looked, and the constraints and the budget of its request.
pub proof fn a_plan_says_what_it_is(
    body: JsonView,
    root: Seq<char>,
    search: JsonView,
    plan_id: Seq<char>,
    max_points: usize,
    max_chars: usize,
)
    requires
        budget_of(body).get("max_primary_points"@) == Some(JsonView::Integer(max_points as int))
            || (budget_of(body).uint_at("max_primary_points"@) is None && max_points == 3),
        budget_of(body).get("max_total_response_chars"@) == Some(
            JsonView::Integer(max_chars as int),
        ) || (budget_of(body).uint_at("max_total_response_chars"@) is None && max_chars == 16_000),
    ensures
        ({
            let plan = plan_of(body, root, search, plan_id);
            let points = points_of(root, results_in(search), max_points as int);
            let query = or_empty(body.text_at("query"@));
            &&& plan.bool_at("ok"@) == Some(true)
            &&& plan.text_at("plan_id"@) == Some(plan_id)
            &&& plan.text_at("profile"@) == Some(profile_of(body))
            &&& plan.items_at("primary"@) == Some(points)
            &&& plan.items_at("deferred_clusters"@) matches Some(none) && none.len() == 0
            &&& plan.get("next"@) == Some(
                text_array_view(recommended(profile_of(body), plan_id, query, points)),
            )
            &&& plan.get("constraints"@) == Some(constraints_of(body))
            &&& plan.get("budget"@) == Some(budget_of(body))
            &&& plan.get("search_scope"@) matches Some(scope) && scope.get("effective_roots"@)
                == Some(text_array_view(seq![root]))
            &&& plan.get("budget_used"@) matches Some(used) && {
                &&& used.get("primary_points"@) == Some(JsonView::Integer(points.len() as int))
                &&& used.get("primary_lines"@) == Some(JsonView::Integer(points.len() as int))
                &&& used.get("primary_files"@) == Some(JsonView::Integer(1))
                &&& used.get("response_chars"@) == Some(
                    JsonView::Integer(budgeted(json_text(search), max_chars)),
                )
            }
        }),
{
    plan_names();
    assert(max_points as u64 as usize == max_points);
    assert(max_chars as u64 as usize == max_chars);
}

/// The search of a plan is for what its request wants: its profile, its query and as many
/// results as its budget says.
pub proof fn a_plan_searches_for_its_query(
    indexes: Seq<IndexView>,
    files: Seq<FileView>,
    body: JsonView,
    max_points: usize,
)
    requires
        budget_of(body).get("max_primary_points"@) == Some(JsonView::Integer(max_points as int))
            || (budget_of(body).uint_at("max_primary_points"@) is None && max_points == 3),
    ensures
        results_in(search_for(indexes, files, body)) == plan_matches(
            indexes,
            files,
            profile_of(body),
            or_empty(body.text_at("query"@)),
            max_points,
        ),
{
    assert(max_points as u64 as usize == max_points);
}

/// What a plan takes of its budget is its search in bytes and 512 more, but never more than the
/// budget.
pub proof fn budgets_are_kept(text: Seq<char>, max_chars: usize)
    ensures
        budgeted(text, max_chars) <= max_chars,
        byte_length(text) + 512 <= max_chars ==> budgeted(text, max_chars) == byte_length(text) + 512,
        byte_length(text) + 512 >= max_chars ==> budgeted(text, max_chars) == max_chars,
{
}

/// The root of a request is the first of the roots that it names, or the path that it names, or
/// the one that is set, or the current directory.
pub proof fn the_named_root_counts_first(body: JsonView, set: Option<Seq<char>>)
    ensures
        ({
            let roots = body.items_at("roots"@);
            let named = roots is Some && roots->Some_0.len() > 0 && roots->Some_0[0] is Text;
            &&& named ==> named_root(body) == Some(roots->Some_0[0]->Text_0)
            &&& !named ==> named_root(body) == body.text_at("path"@)
        }),
        named_root(body) matches Some(root) ==> root_or(named_root(body), set) == root,
        named_root(body) is None ==> (set matches Some(root) ==> root_or(named_root(body), set)
            == root),
        root_or(None, None) == "."@,
        body.get("scope"@) matches Some(scope) ==> scope_root(body) == named_root(scope),
        body.get("scope"@) is None ==> scope_root(body) is None,
{
}

/// A plan is named by the time, the process and a running number, in hexadecimal.
pub proof fn plans_are_named_in_hexadecimal(nanos: nat, process: nat, number: nat)
    ensures
        plan_name(nanos, process, number) == "cp_"@ + hex_text(nanos) + "_"@ + hex_text(process)
            + "_"@ + hex_text(number),
{
}

// ---------------------------------------------------------------------------
// What to do next
// ---------------------------------------------------------------------------

/// The first text in a field of points, or another one.
pub open spec fn text_of_first(points: Seq<JsonView>, key: Seq<char>, other: Seq<char>) -> Seq<char> {
    if points.len() > 0 && points[0].text_at(key) is Some {
        points[0].text_at(key)->Some_0
    } else {
        other
    }
}

/// What follows a plan is three calls: one that reads its first point, and two about the symbol
/// that it points to, by what is wanted.
pub proof fn the_first_point_is_read_next(
    profile: Seq<char>,
    plan_id: Seq<char>,
    query: Seq<char>,
    points: Seq<JsonView>,
)
    ensures
        ({
            let calls = recommended(profile, plan_id, query, points);
            let symbol = symbol_for(hinted_symbol(points), terms_in(query));
            let id = text_of_first(points, "point_id"@, "pt_0_1"@);
            let path = text_of_first(points, "path"@, "path/to/file"@);
            let read = "clab_read_points(plan_id=\""@ + plan_id + "\", point_ids=[\""@ + id
                + "\"])"@;
            &&& calls.len() == 3
            &&& begins_with(calls[0], read)
            &&& profile == "find_definition"@ ==> {
                &&& begins_with(calls[1], "clab_snippet(qualified_name=\""@ + symbol + "\")"@)
                &&& begins_with(
                    calls[2],
                    "clab_trace(function_name=\""@ + symbol
                        + "\", direction=\"inbound\", depth=1)"@,
                )
            }
            &&& profile == "trace_impact"@ ==> {
                &&& begins_with(
                    calls[1],
                    "clab_trace(function_name=\""@ + symbol + "\", direction=\"both\", depth=2)"@,
                )
                &&& begins_with(
                    calls[2],
                    "clab_search_code(pattern=\""@ + symbol + "\", file_pattern=\""@ + path
                        + "\", context=6)"@,
                )
            }
            &&& profile != "find_definition"@ && profile != "trace_impact"@ ==> {
                &&& begins_with(
                    calls[1],
                    "clab_search_code(pattern=\""@ + symbol + "\", context=6)"@,
                )
                &&& begins_with(
                    calls[2],
                    "clab_trace(function_name=\""@ + symbol + "\", direction=\"both\", depth=1)"@,
                )
            }
        }),
{
    profile_names();
    let calls = recommended(profile, plan_id, query, points);
    let symbol = symbol_for(hinted_symbol(points), terms_in(query));
    let id = text_of_first(points, "point_id"@, "pt_0_1"@);
    let path = text_of_first(points, "path"@, "path/to/file"@);
    assert(first_point_text(points, "point_id"@, "pt_0_1"@) == id);
    assert(first_point_text(points, "path"@, "path/to/file"@) == path);
    let read = "clab_read_points(plan_id=\""@ + plan_id + "\", point_ids=[\""@ + id + "\"])"@;
    lemma_call_begins(read, calls[0]);
    if profile == "find_definition"@ {
        reveal_strlit("\") to recover the owning declaration and nearby context.");
        reveal_strlit("\")");
        reveal_strlit(
            "\", direction=\"inbound\", depth=1) to find immediate callers after the definition is confirmed.",
        );
        reveal_strlit("\", direction=\"inbound\", depth=1)");
        lemma_call_begins("clab_snippet(qualified_name=\""@ + symbol + "\")"@, calls[1]);
        lemma_call_begins(
            "clab_trace(function_name=\""@ + symbol + "\", direction=\"inbound\", depth=1)"@,
            calls[2],
        );
    } else if profile == "trace_impact"@ {
        reveal_strlit(
            "\", direction=\"both\", depth=2) to map callers, callees, and likely verification scope.",
        );
        reveal_strlit("\", direction=\"both\", depth=2)");
        reveal_strlit(
            "\", context=6) to inspect the local callsite and surrounding state changes.",
        );
        reveal_strlit("\", context=6)");
        lemma_call_begins(
            "clab_trace(function_name=\""@ + symbol + "\", direction=\"both\", depth=2)"@,
            calls[1],
        );
        lemma_call_begins(
            "clab_search_code(pattern=\""@ + symbol + "\", file_pattern=\""@ + path
                + "\", context=6)"@,
            calls[2],
        );
    } else {
        reveal_strlit("\", context=6) to gather adjacent lexical evidence before widening scope.");
        reveal_strlit("\", context=6)");
        reveal_strlit(
            "\", direction=\"both\", depth=1) if the first point suggests a behavior or ownership question.",
        );
        reveal_strlit("\", direction=\"both\", depth=1)");
        lemma_call_begins("clab_search_code(pattern=\""@ + symbol + "\", context=6)"@, calls[1]);
        lemma_call_begins(
            "clab_trace(function_name=\""@ + symbol + "\", direction=\"both\", depth=1)"@,
            calls[2],
        );
    }
}

proof fn lemma_call_begins(begin: Seq<char>, call: Seq<char>)
    requires
        begin.len() <= call.len(),
        forall|i: int| 0 <= i < begin.len() ==> #[trigger] begin[i] == call[i],
    ensures
        begins_with(call, begin),
{
    assert(call.subrange(0, begin.len() as int) =~= begin);
}

proof fn lemma_first_term(terms: Seq<Seq<char>>, look: TermLook) -> (k: int)
    ensures
        match first_term(terms, look) {
            Some(term) => 0 <= k < terms.len() && terms[k] == term && looks(term, look) && forall|
                j: int,
            | 0 <= j < k ==> !looks(#[trigger] terms[j], look),
            None => forall|j: int| 0 <= j < terms.len() ==> !looks(#[trigger] terms[j], look),
        },
    decreases terms.len(),
{
    if terms.len() == 0 || looks(terms[0], look) {
        0
    } else {
        let rest = terms.skip(1);
        let k = lemma_first_term(rest, look);
        assert forall|j: int| 0 < j < terms.len() && !looks(rest[j - 1], look) implies !looks(
            #[trigger] terms[j],
            look,
        ) by {
            assert(rest[j - 1] == terms[j]);
        }
        k + 1
    }
}

/// The symbol that follow-up calls are about is the one hinted at, or else the first term of the
/// query that looks like code, or else its first term of four bytes or more, or else a
/// placeholder.
pub proof fn the_hinted_symbol_counts_first(
    hint: Seq<char>,
    terms: Seq<Seq<char>>,
    k: int,
)
    requires
        0 <= k < terms.len(),
    ensures
        symbol_for(Some(hint), terms) == hint,
        symbol_for(None, Seq::empty()) == "target_symbol"@,
        is_code(terms[k]) && (forall|j: int| 0 <= j < k ==> !is_code(#[trigger] terms[j]))
            ==> symbol_for(None, terms) == terms[k],
        (forall|j: int| 0 <= j < terms.len() ==> !is_code(#[trigger] terms[j])) && byte_length(
            terms[k],
        ) >= 4 && (forall|j: int| 0 <= j < k ==> byte_length(#[trigger] terms[j]) < 4)
            ==> symbol_for(None, terms) == terms[k],
{
    let a = lemma_first_term(terms, TermLook::Code);
    let b = lemma_first_term(terms, TermLook::Long);
    assert forall|j: int| 0 <= j < terms.len() implies looks(#[trigger] terms[j], TermLook::Code)
        == is_code(terms[j]) by {}
    assert forall|j: int| 0 <= j < terms.len() implies looks(#[trigger] terms[j], TermLook::Long)
        == (byte_length(terms[j]) >= 4) by {}
    if is_code(terms[k]) {
        assert(looks(terms[k], TermLook::Code));
    }
    if byte_length(terms[k]) >= 4 {
        assert(looks(terms[k], TermLook::Long));
    }
}

/// Whether a term holds the engine's name and is no path.
pub open spec fn names_engine(term: Seq<char>) -> bool {
    has_text(term, "clab"@) && !term.contains('/') && !term.contains('.')
}

/// Whether a term looks like code and is no path.
pub open spec fn names_code(term: Seq<char>) -> bool {
    is_code(term) && !term.contains('/') && !term.contains('.')
}

/// The symbol that a point points to is the first term of its snippet that names the engine and
/// is no path, or else the first that looks like code and is no path, or else the first term of
/// its path that names the engine.
pub proof fn points_point_to_symbols(snippet: Seq<Seq<char>>, path: Seq<Seq<char>>, k: int)
    ensures
        0 <= k < snippet.len() && names_engine(snippet[k]) && (forall|j: int|
            0 <= j < k ==> !names_engine(#[trigger] snippet[j])) ==> symbol_among(snippet, path)
            == Some(snippet[k]),
        (forall|j: int| 0 <= j < snippet.len() ==> !names_engine(#[trigger] snippet[j])) && 0 <= k
            < snippet.len() && names_code(snippet[k]) && (forall|j: int|
            0 <= j < k ==> !names_code(#[trigger] snippet[j])) ==> symbol_among(snippet, path)
            == Some(snippet[k]),
        (forall|j: int|
            0 <= j < snippet.len() ==> !names_engine(#[trigger] snippet[j]) && !names_code(
                snippet[j],
            )) && 0 <= k < path.len() && names_engine(path[k]) && (forall|j: int|
            0 <= j < k ==> !names_engine(#[trigger] path[j])) ==> symbol_among(snippet, path)
            == Some(path[k]),
        (forall|j: int|
            0 <= j < snippet.len() ==> !names_engine(#[trigger] snippet[j]) && !names_code(
                snippet[j],
            )) && (forall|j: int| 0 <= j < path.len() ==> !names_engine(#[trigger] path[j]))
            ==> symbol_among(snippet, path) is None,
{
    let a = lemma_first_term(snippet, TermLook::EngineName);
    let b = lemma_first_term(snippet, TermLook::CodeName);
    let c = lemma_first_term(path, TermLook::EngineName);
    assert forall|j: int| 0 <= j < snippet.len() implies looks(
        #[trigger] snippet[j],
        TermLook::EngineName,
    ) == names_engine(snippet[j]) && looks(snippet[j], TermLook::CodeName) == names_code(
        snippet[j],
    ) by {}
    assert forall|j: int| 0 <= j < path.len() implies looks(
        #[trigger] path[j],
        TermLook::EngineName,
    ) == names_engine(path[j]) by {}
    if 0 <= k < snippet.len() {
        assert(looks(snippet[k], TermLook::EngineName) == names_engine(snippet[k]));
    }
    if 0 <= k < path.len() {
        assert(looks(path[k], TermLook::EngineName) == names_engine(path[k]));
    }
}

/// The points of a plan are asked one after the other for the symbol that they point to, by the
/// terms of their snippet and of their path.
pub proof fn the_first_point_with_a_symbol_counts(point: JsonView, points: Seq<JsonView>)
    ensures
        ({
            let snippet = terms_in(or_empty(point.text_at("snippet"@)));
            let path = match point.text_at("path"@) {
                Some(text) => terms_in(text),
                None => Seq::empty(),
            };
            let own = symbol_among(snippet, path);
            &&& own is Some ==> hinted_symbol(seq![point] + points) == own
            &&& own is None ==> hinted_symbol(seq![point] + points) == hinted_symbol(points)
            &&& hinted_symbol(Seq::empty()) is None
        }),
{
    let all = seq![point] + points;
    assert(all[0] == point);
    assert(all.skip(1) =~= points);
}

// ---------------------------------------------------------------------------
// Points that are asked for
// ---------------------------------------------------------------------------

proof fn lemma_texts_among(values: Seq<JsonView>, text: Seq<char>)
    ensures
        texts_among(values).contains(text) <==> values.contains(JsonView::Text(text)),
    decreases values.len(),
{
    if values.len() > 0 {
        let front = values.drop_last();
        lemma_texts_among(front, text);
        let earlier = texts_among(front);
        let all = texts_among(values);
        if values.contains(JsonView::Text(text)) {
            let i = values.index_of(JsonView::Text(text));
            if i < front.len() {
                assert(front[i] == JsonView::Text(text));
                let j = earlier.index_of(text);
                assert(all[j] == text);
            } else {
                assert(all[earlier.len() as int] == text);
            }
        }
        if all.contains(text) {
            let j = all.index_of(text);
            if j < earlier.len() {
                assert(earlier[j] == text);
                let i = front.index_of(JsonView::Text(text));
                assert(values[i] == JsonView::Text(text));
            } else {
                assert(values[values.len() - 1] == JsonView::Text(text));
            }
        }
    }
}

/// A request asks for the points whose names stand among its `point_ids`; it gets these points
/// of the plan, in the order of the plan, and all of them where it names none.
pub proof fn the_points_named_are_given(
    plan: JsonView,
    body: JsonView,
    points: Seq<JsonView>,
    ids: Seq<JsonView>,
    id: Seq<char>,
)
    requires
        plan.items_at("primary"@) == Some(points),
        body.items_at("point_ids"@) == Some(ids),
    ensures
        requested_ids(body).contains(id) <==> ids.contains(JsonView::Text(id)),
        (forall|k: int| 0 <= k < ids.len() ==> (#[trigger] ids[k]) !is Text) ==> requested_points(
            plan,
            body,
        ) == points,
        ids.contains(JsonView::Text(id)) ==> requested_points(plan, body) == points.filter(
            |p: JsonView|
                p.text_at("point_id"@) matches Some(own) && requested_ids(body).contains(own),
        ),
{
    lemma_texts_among(ids, id);
    let asked = requested_ids(body);
    if forall|k: int| 0 <= k < ids.len() ==> (#[trigger] ids[k]) !is Text {
        if asked.len() > 0 {
            lemma_texts_among(ids, asked[0]);
            assert(asked.contains(asked[0]));
        }
    }
    if ids.contains(JsonView::Text(id)) {
        let keep = |p: JsonView| is_requested(p, asked);
        let other = |p: JsonView|
            p.text_at("point_id"@) matches Some(own) && requested_ids(body).contains(own);
        lemma_same_filter(points, keep, other);
    }
}

/// A request that names no points gets all of them, and a plan without points gives none.
pub proof fn all_points_are_given_where_none_is_named(plan: JsonView, body: JsonView)
    ensures
        body.items_at("point_ids"@) is None ==> (plan.items_at("primary"@) matches Some(points)
            ==> requested_points(plan, body) == points),
        plan.items_at("primary"@) is None ==> requested_points(plan, body).len() == 0,
{
    lemma_filter_keeps(
        points_in(plan),
        |p: JsonView| is_requested(p, requested_ids(body)),
    );
}

/// Replies carry the points that were asked for with the name of their plan, or why there are
/// none; points that were looked at again are marked as fresh and else stay.
pub proof fn replies_carry_their_points(
    plan_id: Option<JsonView>,
    points: Seq<JsonView>,
    reason: Seq<char>,
    i: int,
    key: Seq<char>,
)
    ensures
        ({
            let reply = points_reply(plan_id, points);
            &&& reply.bool_at("ok"@) == Some(true)
            &&& reply.items_at("points"@) == Some(points)
            &&& plan_id matches Some(id) ==> reply.get("plan_id"@) == Some(id)
            &&& plan_id is None ==> reply.get("plan_id"@) == Some(JsonView::Null)
            &&& no_points_reply(reason).bool_at("ok"@) == Some(false)
            &&& no_points_reply(reason).text_at("error"@) == Some(reason)
            &&& no_points_reply(reason).items_at("points"@) matches Some(none) && none.len() == 0
        }),
        fresh(points).len() == points.len(),
        0 <= i < points.len() ==> fresh(points)[i].bool_at("fresh"@) == Some(true),
        0 <= i < points.len() && points[i] is Object && key != "fresh"@ ==> fresh(points)[i].get(key)
            == points[i].get(key),
{
    plan_names();
}

/// A cluster that is to be expanded is named in the reply with its plan, and has no more points.
pub proof fn clusters_have_no_more_points(body: JsonView)
    ensures
        ({
            let reply = expand_reply(body);
            &&& reply.bool_at("ok"@) == Some(true)
            &&& body.get("plan_id"@) matches Some(id) ==> reply.get("plan_id"@) == Some(id)
            &&& body.get("cluster_id"@) matches Some(id) ==> reply.get("cluster_id"@) == Some(id)
                && reply.get("cluster"@) == Some(id)
            &&& body.get("cluster_id"@) is None ==> reply.get("cluster_id"@) == Some(JsonView::Null)
            &&& reply.items_at("points"@) matches Some(none) && none.len() == 0
            &&& reply.bool_at("truncated"@) == Some(false)
            &&& reply.get("budget_used"@) matches Some(used) && used.get("primary_points"@) == Some(
                JsonView::Integer(0),
            ) && used.get("primary_files"@) == Some(JsonView::Integer(0)) && used.get(
                "primary_lines"@,
            ) == Some(JsonView::Integer(0))
        }),
{
    plan_names();
}

// ---------------------------------------------------------------------------
// Arguments
// ---------------------------------------------------------------------------

/// The arguments of a tool are those of the request without where to look, for the project that
/// they name or else for the one that is given; nothing else changes.
pub proof fn arguments_are_for_a_project(body: JsonView, project: Seq<char>, key: Seq<char>)
    requires
        body is Object,
    ensures
        ({
            let args = with_project(without_scope(body), project);
            &&& body.text_at("project"@) is Some ==> args.get("project"@) == body.get("project"@)
            &&& body.text_at("project"@) is None ==> args.text_at("project"@) == Some(project)
            &&& args.get("path"@) is None
            &&& args.get("cwd"@) is None
            &&& args.get("scope"@) is None
            &&& args.get("roots"@) is None
            &&& args.get("max_parent_depth"@) is None
            &&& key != "project"@ && key != "path"@ && key != "cwd"@ && key != "scope"@ && key
                != "roots"@ && key != "max_parent_depth"@ ==> args.get(key) == body.get(key)
        }),
        body.get("arguments"@) matches Some(args) ==> call_arguments(body) == args,
        body.get("arguments"@) is None ==> call_arguments(body) == JsonView::Object(Map::empty()),
        body.text_at("project"@) is Some ==> with_project(body, project) == body,
        body.text_at("project"@) is None ==> with_project(body, project).text_at("project"@) == Some(
            project,
        ),
        key != "project"@ ==> with_project(body, project).get(key) == body.get(key),
{
    scope_names();
}

} // verus!
