//! Plans: the points that a search leads to, what to do next, and how plans are kept.

use vstd::prelude::*;
use vstd::string::StringExecFns;

use crate::json::{
    lemma_array_view, optional_view, or_empty, views, JsonObject, JsonValue, JsonView,
};
use crate::paths::{clab_home, file_in, file_path, home_directory, join_path, joined_path};
use crate::ranking::{file_of, line_of, result_file, result_line, result_text};
use crate::scanner::{project_name, project_name_of};
use crate::search::{
    all_rated, all_settable, is_rated, plan_matches, plan_matches_are_rated, plan_search_results,
    results_in, search_plan_matches,
};
use crate::seqs::{first_of, lemma_filter_has, lemma_filter_keeps, lemma_filter_step};
use crate::store::ClabStore;
use crate::terms::{codeish, is_codeish_term, query_terms, terms_in};
use crate::text::{
    byte_count, byte_length, contains, contains_char, decimal, decimal_text, digits_are_unique,
    has_text, hex, hex_text, hex_text_is_plain, optional_str, optional_text, same_text, texts,
    under_four_bytes,
};
use crate::types::{file_views, index_views, ClabIndex, FileEntry, FileView, IndexView};
use crate::util::{opt_usize, size_or, text_array, text_array_view};
use crate::wire::{
    begins_plainly, encode_pretty, hundredths, hundredths_are_short, hundredths_text,
    hundredths_view, json_text, lemma_alike_is_same, lemma_readable, number_of, parse, parsed_json,
    pretty_json, readable, reads_as, reads_like, reads_not, render, Digits,
};

verus! {

// ---------------------------------------------------------------------------
// Points
// ---------------------------------------------------------------------------

/// The field of a value, or another value where it has none.
pub open spec fn field_or(value: JsonView, key: Seq<char>, other: JsonView) -> JsonView {
    match value.get(key) {
        Some(v) => v,
        None => other,
    }
}

/// The name of a point: its place among the points, and its line.
pub open spec fn point_name(place: nat, line: nat) -> Seq<char> {
    "pt_"@ + decimal_text(place) + "_"@ + decimal_text(line)
}

fn name_point(place: usize, line: u64) -> (name: String)
    ensures
        name@ == point_name(place as nat, line as nat),
{
    let mut name = "pt_".to_owned();
    name.append(decimal(place as u64).as_str());
    name.append("_");
    name.append(decimal(line).as_str());
    name
}

/// The point that a result becomes at a place among the points.
pub open spec fn point_of(root: Seq<char>, result: JsonView, place: nat) -> JsonView {
    let file = file_of(result);
    let line = line_of(result, 1);
    JsonView::Object(
        map![
            "point_id"@ => JsonView::Text(point_name(place, line as nat)),
            "path"@ => JsonView::Text(file),
            "relative_path"@ => JsonView::Text(file),
            "absolute_path"@ => JsonView::Text(joined_path(root, file)),
            "start_line"@ => JsonView::Integer(line),
            "end_line"@ => JsonView::Integer(line),
            "line_count"@ => JsonView::Integer(1),
            "snippet"@ => JsonView::Text(or_empty(result.text_at("snippet"@))),
            "reason"@ => field_or(result, "reason"@, JsonView::Text("clab lexical match"@)),
            "confidence"@ => field_or(result, "confidence"@, hundredths_view(50)),
            "cluster_id"@ => JsonView::Text("cluster_primary"@),
        ],
    )
}

fn make_point(root: &str, result: &JsonValue, place: usize) -> (point: JsonValue)
    ensures
        point@ == point_of(root@, result@, place as nat),
{
    let file = result_file(result);
    let line = result_line(result, 1);
    let reason = match result.get("reason") {
        Some(v) => v.clone(),
        None => JsonValue::text("clab lexical match"),
    };
    let confidence = match result.get("confidence") {
        Some(v) => v.clone(),
        None => hundredths(50),
    };
    JsonObject::new().put("point_id", JsonValue::Text(name_point(place, line))).put(
        "path",
        JsonValue::text(file),
    ).put("relative_path", JsonValue::text(file)).put(
        "absolute_path",
        JsonValue::Text(join_path(root, file)),
    ).put("start_line", JsonValue::Uint(line)).put("end_line", JsonValue::Uint(line)).put(
        "line_count",
        JsonValue::Uint(1),
    ).put("snippet", JsonValue::text(result_text(result, "snippet"))).put("reason", reason).put(
        "confidence",
        confidence,
    ).put("cluster_id", JsonValue::text("cluster_primary")).value()
}

/// The points that results become, at most `max_points` of them.
pub open spec fn points_of(root: Seq<char>, results: Seq<JsonView>, max_points: int) -> Seq<
    JsonView,
> {
    Seq::new(
        first_of(results, max_points).len(),
        |i: int| point_of(root, results[i], i as nat),
    )
}

/// The points that results become, at most `max_points` of them.
pub fn build_plan_points(root: &str, results: &Vec<JsonValue>, max_points: usize) -> (points: Vec<
    JsonValue,
>)
    ensures
        views(points@) == points_of(root@, views(results@), max_points as int),
{
    let ghost held = views(results@);
    let mut points: Vec<JsonValue> = Vec::new();
    let mut i: usize = 0;
    while i < results.len() && i < max_points
        invariant
            i <= results@.len(),
            i <= max_points,
            held == views(results@),
            points@.len() == i,
            forall|k: int|
                0 <= k < i ==> (#[trigger] points@[k])@ == point_of(root@, held[k], k as nat),
        decreases results.len() - i,
    {
        assert(held[i as int] == results@[i as int]@);
        points.push(make_point(root, &results[i], i));
        i = i + 1;
    }
    assert(views(points@) =~= points_of(root@, held, max_points as int));
    points
}

/// How many of the results in the answer to a search become points.
pub open spec fn shown_count(search: JsonView, max_points: usize) -> int {
    if results_in(search).len() <= max_points {
        results_in(search).len() as int
    } else {
        max_points as int
    }
}

/// How many of the results in the answer to a search become points.
pub fn points_len(search: &JsonValue, max_points: usize) -> (count: usize)
    ensures
        count == shown_count(search@, max_points),
{
    match search.get("results") {
        Some(v) => match v.as_array() {
            Some(items) => {
                assert(views(items@).len() == items@.len());
                if items.len() <= max_points {
                    items.len()
                } else {
                    max_points
                }
            },
            None => 0,
        },
        None => 0,
    }
}

/// A plan shows no more points than its budget says, and no more than there are results.
pub proof fn points_are_bounded(root: Seq<char>, results: Seq<JsonView>, max_points: usize)
    ensures
        points_of(root, results, max_points as int).len() <= max_points,
        points_of(root, results, max_points as int).len() <= results.len(),
{
}

// ---------------------------------------------------------------------------
// What to do next
// ---------------------------------------------------------------------------

/// What a term is looked for as: a name of the engine itself or a name in code, neither of them
/// a path, anything that looks like code, or a text of at least four bytes.
#[derive(Clone, Copy, Debug, PartialEq, Eq, Structural)]
pub enum TermLook {
    EngineName,
    CodeName,
    Code,
    Long,
}

/// Whether a term looks like what is looked for.
pub open spec fn looks(term: Seq<char>, look: TermLook) -> bool {
    match look {
        TermLook::EngineName => has_text(term, "clab"@) && !term.contains('/') && !term.contains(
            '.',
        ),
        TermLook::CodeName => codeish(term) && !term.contains('/') && !term.contains('.'),
        TermLook::Code => codeish(term),
        TermLook::Long => byte_length(term) >= 4,
    }
}

fn does_look(term: &str, look: TermLook) -> (answer: bool)
    ensures
        answer == looks(term@, look),
{
    match look {
        TermLook::EngineName => contains(term, "clab") && !contains_char(term, '/')
            && !contains_char(term, '.'),
        TermLook::CodeName => is_codeish_term(term) && !contains_char(term, '/')
            && !contains_char(term, '.'),
        TermLook::Code => is_codeish_term(term),
        TermLook::Long => !under_four_bytes(term),
    }
}

/// The first term that looks like what is looked for.
pub open spec fn first_term(terms: Seq<Seq<char>>, look: TermLook) -> Option<Seq<char>>
    decreases terms.len(),
{
    if terms.len() == 0 {
        None
    } else if looks(terms[0], look) {
        Some(terms[0])
    } else {
        first_term(terms.skip(1), look)
    }
}

fn find_term(terms: &Vec<String>, look: TermLook) -> (term: Option<String>)
    ensures
        optional_text(term) == first_term(texts(terms@), look),
{
    let ghost held = texts(terms@);
    let mut i: usize = 0;
    assert(held.skip(0) =~= held);
    while i < terms.len()
        invariant
            i <= terms@.len(),
            held == texts(terms@),
            first_term(held.skip(i as int), look) == first_term(held, look),
        decreases terms.len() - i,
    {
        assert(held.skip(i as int)[0] == terms@[i as int]@);
        if does_look(terms[i].as_str(), look) {
            return Some(terms[i].clone());
        }
        assert(held.skip(i as int).skip(1) =~= held.skip(i + 1));
        i = i + 1;
    }
    None
}

/// The symbol that the terms of a snippet and those of its path point to: a name of the engine
/// or else a name in code in the snippet, or else a name of the engine in the path.
pub open spec fn symbol_among(snippet: Seq<Seq<char>>, path: Seq<Seq<char>>) -> Option<Seq<char>> {
    match first_term(snippet, TermLook::EngineName) {
        Some(term) => Some(term),
        None => match first_term(snippet, TermLook::CodeName) {
            Some(term) => Some(term),
            None => first_term(path, TermLook::EngineName),
        },
    }
}

/// The symbol that the terms of a snippet and those of its path point to.
pub fn symbol_in_terms(snippet: &Vec<String>, path: &Vec<String>) -> (symbol: Option<String>)
    ensures
        optional_text(symbol) == symbol_among(texts(snippet@), texts(path@)),
{
    match find_term(snippet, TermLook::EngineName) {
        Some(term) => Some(term),
        None => match find_term(snippet, TermLook::CodeName) {
            Some(term) => Some(term),
            None => find_term(path, TermLook::EngineName),
        },
    }
}

/// The terms in an optional text.
pub open spec fn terms_at(text: Option<Seq<char>>) -> Seq<Seq<char>> {
    match text {
        Some(t) => terms_in(t),
        None => Seq::empty(),
    }
}

/// The symbol that a point points to.
pub open spec fn symbol_of_point(point: JsonView) -> Option<Seq<char>> {
    symbol_among(
        terms_in(or_empty(point.text_at("snippet"@))),
        terms_at(point.text_at("path"@)),
    )
}

/// The symbol that the first point with one points to.
pub open spec fn hinted_symbol(points: Seq<JsonView>) -> Option<Seq<char>>
    decreases points.len(),
{
    if points.len() == 0 {
        None
    } else {
        match symbol_of_point(points[0]) {
            Some(symbol) => Some(symbol),
            None => hinted_symbol(points.skip(1)),
        }
    }
}

/// The symbol that the first point with one points to.
pub fn primary_symbol_hint(points: &Vec<JsonValue>) -> (symbol: Option<String>)
    ensures
        optional_text(symbol) == hinted_symbol(views(points@)),
{
    let ghost held = views(points@);
    let mut i: usize = 0;
    assert(held.skip(0) =~= held);
    while i < points.len()
        invariant
            i <= points@.len(),
            held == views(points@),
            hinted_symbol(held.skip(i as int)) == hinted_symbol(held),
        decreases points.len() - i,
    {
        assert(held.skip(i as int)[0] == points@[i as int]@);
        let point = &points[i];
        let snippet = query_terms(result_text(point, "snippet"));
        let path = match point.get("path") {
            Some(v) => match v.as_str() {
                Some(text) => query_terms(text),
                None => Vec::new(),
            },
            None => Vec::new(),
        };
        assert(texts(path@) =~= terms_at(point@.text_at("path"@)));
        let symbol = symbol_in_terms(&snippet, &path);
        if symbol.is_some() {
            return symbol;
        }
        assert(held.skip(i as int).skip(1) =~= held.skip(i + 1));
        i = i + 1;
    }
    None
}

/// The symbol that follow-up calls are about: the one hinted at, or the first term of the query
/// that looks like code, or its first term of four bytes or more.
pub open spec fn symbol_for(hint: Option<Seq<char>>, terms: Seq<Seq<char>>) -> Seq<char> {
    match hint {
        Some(symbol) => symbol,
        None => match first_term(terms, TermLook::Code) {
            Some(term) => term,
            None => match first_term(terms, TermLook::Long) {
                Some(term) => term,
                None => "target_symbol"@,
            },
        },
    }
}

/// The symbol that follow-up calls are about.
pub fn follow_up_symbol(hint: Option<String>, terms: &Vec<String>) -> (symbol: String)
    ensures
        symbol@ == symbol_for(optional_text(hint), texts(terms@)),
{
    match hint {
        Some(symbol) => symbol,
        None => match find_term(terms, TermLook::Code) {
            Some(term) => term,
            None => match find_term(terms, TermLook::Long) {
                Some(term) => term,
                None => "target_symbol".to_owned(),
            },
        },
    }
}

/// A call that reads a point first, for a purpose.
pub open spec fn read_call(plan_id: Seq<char>, point_id: Seq<char>, purpose: Seq<char>) -> Seq<
    char,
> {
    "clab_read_points(plan_id=\""@ + plan_id + "\", point_ids=[\""@ + point_id + "\"])"@ + purpose
}

fn read_call_text(plan_id: &str, point_id: &str, purpose: &str) -> (text: String)
    ensures
        text@ == read_call(plan_id@, point_id@, purpose@),
{
    let mut text = "clab_read_points(plan_id=\"".to_owned();
    text.append(plan_id);
    text.append("\", point_ids=[\"");
    text.append(point_id);
    text.append("\"])");
    text.append(purpose);
    text
}

/// A call about a symbol: what stands before it and what follows.
pub open spec fn symbol_call(before: Seq<char>, symbol: Seq<char>, after: Seq<char>) -> Seq<char> {
    before + symbol + after
}

fn symbol_call_text(before: &str, symbol: &str, after: &str) -> (text: String)
    ensures
        text@ == symbol_call(before@, symbol@, after@),
{
    let mut text = before.to_owned();
    text.append(symbol);
    text.append(after);
    text
}

/// The calls that follow a plan, by what is wanted.
pub open spec fn follow_ups(
    profile: Seq<char>,
    plan_id: Seq<char>,
    symbol: Seq<char>,
    point_id: Seq<char>,
    path: Seq<char>,
) -> Seq<Seq<char>> {
    if profile == "find_definition"@ {
        seq![
            read_call(
                plan_id,
                point_id,
                " to inspect the strongest definition candidate first."@,
            ),
            symbol_call(
                "clab_snippet(qualified_name=\""@,
                symbol,
                "\") to recover the owning declaration and nearby context."@,
            ),
            symbol_call(
                "clab_trace(function_name=\""@,
                symbol,
                "\", direction=\"inbound\", depth=1) to find immediate callers after the definition is confirmed."@,
            ),
        ]
    } else if profile == "trace_impact"@ {
        seq![
            read_call(
                plan_id,
                point_id,
                " to inspect the highest-signal impact seed first."@,
            ),
            symbol_call(
                "clab_trace(function_name=\""@,
                symbol,
                "\", direction=\"both\", depth=2) to map callers, callees, and likely verification scope."@,
            ),
            symbol_call(
                "clab_search_code(pattern=\""@,
                symbol,
                "\", file_pattern=\""@,
            ) + path
                + "\", context=6) to inspect the local callsite and surrounding state changes."@,
        ]
    } else {
        seq![
            read_call(plan_id, point_id, " to inspect the most relevant bug surface first."@),
            symbol_call(
                "clab_search_code(pattern=\""@,
                symbol,
                "\", context=6) to gather adjacent lexical evidence before widening scope."@,
            ),
            symbol_call(
                "clab_trace(function_name=\""@,
                symbol,
                "\", direction=\"both\", depth=1) if the first point suggests a behavior or ownership question."@,
            ),
        ]
    }
}

/// The calls that follow a plan, by what is wanted.
pub fn follow_up_calls(
    profile: &str,
    plan_id: &str,
    symbol: &str,
    point_id: &str,
    path: &str,
) -> (calls: Vec<String>)
    ensures
        texts(calls@) == follow_ups(profile@, plan_id@, symbol@, point_id@, path@),
{
    let mut calls: Vec<String> = Vec::new();
    if same_text(profile, "find_definition") {
        calls.push(
            read_call_text(
                plan_id,
                point_id,
                " to inspect the strongest definition candidate first.",
            ),
        );
        calls.push(
            symbol_call_text(
                "clab_snippet(qualified_name=\"",
                symbol,
                "\") to recover the owning declaration and nearby context.",
            ),
        );
        calls.push(
            symbol_call_text(
                "clab_trace(function_name=\"",
                symbol,
                "\", direction=\"inbound\", depth=1) to find immediate callers after the definition is confirmed.",
            ),
        );
    } else if same_text(profile, "trace_impact") {
        calls.push(
            read_call_text(
                plan_id,
                point_id,
                " to inspect the highest-signal impact seed first.",
            ),
        );
        calls.push(
            symbol_call_text(
                "clab_trace(function_name=\"",
                symbol,
                "\", direction=\"both\", depth=2) to map callers, callees, and likely verification scope.",
            ),
        );
        let mut local = symbol_call_text(
            "clab_search_code(pattern=\"",
            symbol,
            "\", file_pattern=\"",
        );
        local.append(path);
        local.append(
            "\", context=6) to inspect the local callsite and surrounding state changes.",
        );
        calls.push(local);
    } else {
        calls.push(
            read_call_text(
                plan_id,
                point_id,
                " to inspect the most relevant bug surface first.",
            ),
        );
        calls.push(
            symbol_call_text(
                "clab_search_code(pattern=\"",
                symbol,
                "\", context=6) to gather adjacent lexical evidence before widening scope.",
            ),
        );
        calls.push(
            symbol_call_text(
                "clab_trace(function_name=\"",
                symbol,
                "\", direction=\"both\", depth=1) if the first point suggests a behavior or ownership question.",
            ),
        );
    }
    assert(texts(calls@) =~= follow_ups(profile@, plan_id@, symbol@, point_id@, path@));
    calls
}

/// The text in a field of the first point, or another text where there is none.
pub open spec fn first_point_text(points: Seq<JsonView>, key: Seq<char>, other: Seq<char>) -> Seq<
    char,
> {
    if points.len() == 0 {
        other
    } else {
        match points[0].text_at(key) {
            Some(text) => text,
            None => other,
        }
    }
}

fn first_point_field<'a>(points: &'a Vec<JsonValue>, key: &str, other: &'a str) -> (text: &'a str)
    ensures
        text@ == first_point_text(views(points@), key@, other@),
{
    assert(views(points@).len() == points@.len());
    if points.len() == 0 {
        return other;
    }
    assert(views(points@)[0] == points@[0]@);
    match points[0].get(key) {
        Some(v) => match v.as_str() {
            Some(text) => text,
            None => other,
        },
        None => other,
    }
}

/// The calls that follow a plan.
pub open spec fn recommended(
    profile: Seq<char>,
    plan_id: Seq<char>,
    query: Seq<char>,
    points: Seq<JsonView>,
) -> Seq<Seq<char>> {
    follow_ups(
        profile,
        plan_id,
        symbol_for(hinted_symbol(points), terms_in(query)),
        first_point_text(points, "point_id"@, "pt_0_1"@),
        first_point_text(points, "path"@, "path/to/file"@),
    )
}

/// The calls that follow a plan.
pub fn recommend_follow_up_calls(
    profile: &str,
    plan_id: &str,
    query: &str,
    points: &Vec<JsonValue>,
) -> (calls: Vec<String>)
    ensures
        texts(calls@) == recommended(profile@, plan_id@, query@, views(points@)),
{
    let terms = query_terms(query);
    let symbol = follow_up_symbol(primary_symbol_hint(points), &terms);
    follow_up_calls(
        profile,
        plan_id,
        symbol.as_str(),
        first_point_field(points, "point_id", "pt_0_1"),
        first_point_field(points, "path", "path/to/file"),
    )
}

// ---------------------------------------------------------------------------
// Requests
// ---------------------------------------------------------------------------

/// How many points a plan shows where its budget does not say.
pub const DEFAULT_PRIMARY_POINTS: usize = 3;

/// How many characters a reply may have where the budget does not say.
pub const DEFAULT_RESPONSE_CHARS: usize = 16_000;

/// What is wanted of a plan: a definition, where the request does not say.
pub open spec fn profile_of(body: JsonView) -> Seq<char> {
    match body.text_at("profile"@) {
        Some(profile) => profile,
        None => "find_definition"@,
    }
}

/// What is wanted of a plan.
pub fn profile_name(body: &JsonValue) -> (profile: &str)
    ensures
        profile@ == profile_of(body@),
{
    match body.get("profile") {
        Some(v) => match v.as_str() {
            Some(profile) => profile,
            None => "find_definition",
        },
        None => "find_definition",
    }
}

/// The budget of a request, empty where it has none.
pub open spec fn budget_of(body: JsonView) -> JsonView {
    field_or(body, "budget"@, JsonView::Object(Map::empty()))
}

/// The budget of a request, with how many points and how many characters it allows.
pub fn profile_budget(body: &JsonValue) -> (budget: (JsonValue, usize, usize))
    ensures
        budget.0@ == budget_of(body@),
        budget.1 == size_or(budget_of(body@), "max_primary_points"@, DEFAULT_PRIMARY_POINTS),
        budget.2 == size_or(
            budget_of(body@),
            "max_total_response_chars"@,
            DEFAULT_RESPONSE_CHARS,
        ),
{
    let budget = match body.get("budget") {
        Some(v) => v.clone(),
        None => JsonObject::new().value(),
    };
    let points: usize = match opt_usize(&budget, "max_primary_points") {
        Some(n) => n,
        None => DEFAULT_PRIMARY_POINTS,
    };
    let chars: usize = match opt_usize(&budget, "max_total_response_chars") {
        Some(n) => n,
        None => DEFAULT_RESPONSE_CHARS,
    };
    (budget, points, chars)
}

/// The root that a value names: the first of its roots or, where that is no text, its path.
pub open spec fn named_root(value: JsonView) -> Option<Seq<char>> {
    let first = match value.items_at("roots"@) {
        Some(roots) => if roots.len() > 0 {
            roots[0].as_text()
        } else {
            None
        },
        None => None,
    };
    match first {
        Some(root) => Some(root),
        None => value.text_at("path"@),
    }
}

fn read_named_root(value: &JsonValue) -> (root: Option<String>)
    ensures
        optional_text(root) == named_root(value@),
{
    if let Some(found) = value.get("roots") {
        if let Some(roots) = found.as_array() {
            assert(views(roots@).len() == roots@.len());
            if roots.len() > 0 {
                assert(views(roots@)[0] == roots@[0]@);
                if let Some(root) = roots[0].as_str() {
                    return Some(root.to_owned());
                }
            }
        }
    }
    match value.get("path") {
        Some(v) => match v.as_str() {
            Some(path) => Some(path.to_owned()),
            None => None,
        },
        None => None,
    }
}

/// The root in the scope of a plan request.
pub open spec fn scope_root(body: JsonView) -> Option<Seq<char>> {
    match body.get("scope"@) {
        Some(scope) => named_root(scope),
        None => None,
    }
}

/// The root in the scope of a plan request.
pub fn profile_root(body: &JsonValue) -> (root: Option<String>)
    ensures
        optional_text(root) == scope_root(body@),
{
    match body.get("scope") {
        Some(scope) => read_named_root(scope),
        None => None,
    }
}

/// The project path that the environment sets, the more specific setting first.
pub fn env_project_path(codebase: Option<&str>, project: Option<&str>) -> (path: Option<String>)
    ensures
        optional_text(path) == match codebase {
            Some(p) => Some(p@),
            None => optional_str(project),
        },
{
    match codebase {
        Some(p) => Some(p.to_owned()),
        None => match project {
            Some(p) => Some(p.to_owned()),
            None => None,
        },
    }
}

/// The root that is worked in: the one that is named, or the one that the environment sets, or
/// the current directory.
pub open spec fn root_or(named: Option<Seq<char>>, set: Option<Seq<char>>) -> Seq<char> {
    match named {
        Some(root) => root,
        None => match set {
            Some(root) => root,
            None => "."@,
        },
    }
}

/// The root of a plan request.
pub fn plan_root(body: &JsonValue, set: Option<&str>) -> (root: String)
    ensures
        root@ == root_or(scope_root(body@), optional_str(set)),
{
    match profile_root(body) {
        Some(root) => root,
        None => match set {
            Some(root) => root.to_owned(),
            None => ".".to_owned(),
        },
    }
}

// ---------------------------------------------------------------------------
// Plans
// ---------------------------------------------------------------------------

/// How many characters a text takes of a budget: its bytes and a margin for the rest, as far as
/// the budget goes.
pub open spec fn budgeted(text: Seq<char>, max_chars: usize) -> int {
    if byte_length(text) + 512 <= max_chars {
        byte_length(text) as int + 512
    } else {
        max_chars as int
    }
}

/// How many characters a text takes of a budget.
pub fn budgeted_chars(text: &str, max_chars: usize) -> (count: usize)
    ensures
        count == budgeted(text@, max_chars),
{
    let size: usize = byte_count(text);
    if max_chars < 512 || size > max_chars - 512 {
        max_chars
    } else {
        size + 512
    }
}

/// The constraints of a request, none where it names none.
pub open spec fn constraints_of(body: JsonView) -> JsonView {
    field_or(body, "constraints"@, JsonView::Object(Map::empty()))
}

/// The plan for a request, from the answer to its search.
pub open spec fn plan_of(
    body: JsonView,
    root: Seq<char>,
    search: JsonView,
    plan_id: Seq<char>,
) -> JsonView {
    let profile = profile_of(body);
    let max_points = size_or(
        budget_of(body),
        "max_primary_points"@,
        DEFAULT_PRIMARY_POINTS,
    );
    let max_chars = size_or(
        budget_of(body),
        "max_total_response_chars"@,
        DEFAULT_RESPONSE_CHARS,
    );
    let points = points_of(root, results_in(search), max_points as int);
    JsonView::Object(
        map![
            "ok"@ => JsonView::Bool(true),
            "plan_id"@ => JsonView::Text(plan_id),
            "profile"@ => JsonView::Text(profile),
            "primary"@ => JsonView::Array(points),
            "deferred_clusters"@ => JsonView::Array(Seq::empty()),
            "next"@ => text_array_view(
                recommended(profile, plan_id, or_empty(body.text_at("query"@)), points),
            ),
            "budget_used"@ => JsonView::Object(
                map![
                    "primary_points"@ => JsonView::Integer(shown_count(search, max_points)),
                    "primary_files"@ => JsonView::Integer(1),
                    "primary_lines"@ => JsonView::Integer(shown_count(search, max_points)),
                    "response_chars"@ => JsonView::Integer(
                        budgeted(json_text(search), max_chars),
                    ),
                ],
            ),
            "search_scope"@ => JsonView::Object(
                map!["effective_roots"@ => text_array_view(seq![root])],
            ),
            "constraints"@ => constraints_of(body),
            "budget"@ => budget_of(body),
        ],
    )
}

/// The plan for a request, from the answer to its search.
pub fn plan_from_search(body: &JsonValue, root: &str, search: &JsonValue, plan_id: &str) -> (plan:
    JsonValue)
    ensures
        plan@ == plan_of(body@, root@, search@, plan_id@),
{
    broadcast use lemma_array_view;

    let profile = profile_name(body);
    let (budget, max_points, max_chars) = profile_budget(body);
    let points = build_plan_points(root, &plan_search_results(search), max_points);
    let next = recommend_follow_up_calls(profile, plan_id, result_text(body, "query"), &points);
    let count: usize = points_len(search, max_points);
    let used = JsonObject::new().put("primary_points", JsonValue::Uint(count as u64)).put(
        "primary_files",
        JsonValue::Uint(1),
    ).put("primary_lines", JsonValue::Uint(count as u64)).put(
        "response_chars",
        JsonValue::Uint(budgeted_chars(render(search).as_str(), max_chars) as u64),
    ).value();
    let mut roots: Vec<String> = Vec::new();
    roots.push(root.to_owned());
    assert(texts(roots@) =~= seq![root@]);
    let scope = JsonObject::new().put("effective_roots", text_array(&roots)).value();
    let constraints = match body.get("constraints") {
        Some(v) => v.clone(),
        None => JsonObject::new().value(),
    };
    let none: Vec<JsonValue> = Vec::new();
    assert(views(none@) =~= Seq::empty());
    JsonObject::new().put("ok", JsonValue::Bool(true)).put(
        "plan_id",
        JsonValue::text(plan_id),
    ).put("profile", JsonValue::text(profile)).put("primary", JsonValue::Array(points)).put(
        "deferred_clusters",
        JsonValue::Array(none),
    ).put("next", text_array(&next)).put("budget_used", used).put("search_scope", scope).put(
        "constraints",
        constraints,
    ).put("budget", budget).value()
}

/// The search that a plan request asks for.
pub open spec fn search_for(
    indexes: Seq<IndexView>,
    files: Seq<FileView>,
    body: JsonView,
) -> JsonView {
    JsonView::Object(
        map![
            "results"@ => JsonView::Array(
                plan_matches(
                    indexes,
                    files,
                    profile_of(body),
                    or_empty(body.text_at("query"@)),
                    size_or(
                        budget_of(body),
                        "max_primary_points"@,
                        DEFAULT_PRIMARY_POINTS,
                    ),
                ),
            ),
        ],
    )
}

/// The plan for a request in a project, by its indexes and its files as they are now.
pub fn build_profile_plan(
    store: &ClabStore,
    indexes: &Vec<ClabIndex>,
    files: &Vec<FileEntry>,
    body: &JsonValue,
    root: &str,
    plan_id: &str,
) -> (plan: JsonValue)
    ensures
        plan@ == plan_of(
            body@,
            root@,
            search_for(index_views(indexes@), file_views(files@), body@),
            plan_id@,
        ),
{
    let project = project_name(root);
    let (_, max_points, _) = profile_budget(body);
    let search = search_plan_matches(
        store,
        indexes,
        files,
        project.as_str(),
        profile_name(body),
        result_text(body, "query"),
        max_points,
    );
    plan_from_search(body, root, &search, plan_id)
}

/// The name of a plan, from the time, the process and a running number, each in hexadecimal.
pub open spec fn plan_name(nanos: nat, process: nat, number: nat) -> Seq<char> {
    "cp_"@ + hex_text(nanos) + "_"@ + hex_text(process) + "_"@ + hex_text(number)
}

/// The name of a plan, from the time, the process and a running number.
pub fn unique_plan_id(nanos: u128, process: u32, number: u64) -> (name: String)
    ensures
        name@ == plan_name(nanos as nat, process as nat, number as nat),
{
    let mut name = "cp_".to_owned();
    name.append(hex(nanos).as_str());
    name.append("_");
    name.append(hex(process as u128).as_str());
    name.append("_");
    name.append(hex(number as u128).as_str());
    name
}

/// Texts with a separator between them that stands in none of the first ones.
proof fn lemma_separated(a: Seq<char>, x: Seq<char>, b: Seq<char>, y: Seq<char>)
    requires
        !a.contains('_'),
        !b.contains('_'),
        a + "_"@ + x == b + "_"@ + y,
    ensures
        a == b,
        x == y,
{
    reveal_strlit("_");
    let whole = a + "_"@ + x;
    assert(whole[a.len() as int] == '_');
    assert(whole[b.len() as int] == '_') by {
        assert((b + "_"@ + y)[b.len() as int] == '_');
    }
    if a.len() < b.len() {
        assert(b[a.len() as int] == (b + "_"@ + y)[a.len() as int]);
        assert(b.contains('_'));
    }
    if b.len() < a.len() {
        assert(a[b.len() as int] == whole[b.len() as int]);
        assert(a.contains('_'));
    }
    assert(a =~= whole.take(a.len() as int));
    assert(b =~= (b + "_"@ + y).take(a.len() as int));
    assert(x =~= whole.skip(a.len() as int + 1));
    assert(y =~= (b + "_"@ + y).skip(a.len() as int + 1));
}

/// Plans of different times, processes or running numbers have different names.
pub proof fn plan_names_are_unique(
    nanos: nat,
    process: nat,
    number: nat,
    other_nanos: nat,
    other_process: nat,
    other_number: nat,
)
    requires
        plan_name(nanos, process, number) == plan_name(other_nanos, other_process, other_number),
    ensures
        nanos == other_nanos,
        process == other_process,
        number == other_number,
{
    let (a, b, c) = (hex_text(nanos), hex_text(process), hex_text(number));
    let (x, y, z) = (hex_text(other_nanos), hex_text(other_process), hex_text(other_number));
    hex_text_is_plain(nanos);
    hex_text_is_plain(process);
    hex_text_is_plain(other_nanos);
    hex_text_is_plain(other_process);
    let front = "cp_"@.len() as int;
    assert(plan_name(nanos, process, number).skip(front) =~= a + "_"@ + (b + "_"@ + c));
    assert(plan_name(other_nanos, other_process, other_number).skip(front) =~= x + "_"@ + (y + "_"@
        + z));
    lemma_separated(a, b + "_"@ + c, x, y + "_"@ + z);
    lemma_separated(b, c, y, z);
    digits_are_unique(nanos, other_nanos, 16);
    digits_are_unique(process, other_process, 16);
    digits_are_unique(number, other_number, 16);
}

// ---------------------------------------------------------------------------
// Plans on disk
// ---------------------------------------------------------------------------

/// Where plans are kept.
pub fn plan_dir(set: Option<&str>, home: Option<&str>) -> (directory: String)
    ensures
        directory@ == joined_path(
            home_directory(optional_str(set), optional_str(home)),
            "plans"@,
        ),
{
    join_path(clab_home(set, home).as_str(), "plans")
}

/// The file of the plan that a request names, in the directory of plans.
pub fn plan_path(directory: &str, body: &JsonValue) -> (path: String)
    ensures
        path@ == file_in(directory@, or_empty(body@.text_at("plan_id"@)), ".json"@),
{
    file_path(directory, result_text(body, "plan_id"), ".json")
}

/// What is written where to keep a plan.
pub struct PlanFile {
    pub path: String,
    pub bytes: Vec<u8>,
}

/// What is written where to keep a plan: the plan as indented JSON, which reads back as the
/// plan but perhaps for its long numbers, in the file that a request for the plan names.
pub fn write_plan(directory: &str, plan: &JsonValue) -> (file: PlanFile)
    ensures
        file.path@ == file_in(directory@, or_empty(plan@.text_at("plan_id"@)), ".json"@),
        file.bytes@ == pretty_json(plan@),
        readable(plan@, 127, Digits::Any) ==> reads_like(file.bytes@, plan@),
        readable(plan@, 127, Digits::Few) ==> reads_as(file.bytes@, plan@),
{
    PlanFile { path: plan_path(directory, plan), bytes: encode_pretty(plan) }
}

/// The texts among values, in their order.
pub open spec fn texts_among(values: Seq<JsonView>) -> Seq<Seq<char>>
    decreases values.len(),
{
    if values.len() == 0 {
        Seq::empty()
    } else {
        match values.last().as_text() {
            Some(text) => texts_among(values.drop_last()).push(text),
            None => texts_among(values.drop_last()),
        }
    }
}

/// The points that a request asks for, empty where it asks for none.
pub open spec fn requested_ids(body: JsonView) -> Seq<Seq<char>> {
    match body.items_at("point_ids"@) {
        Some(items) => texts_among(items),
        None => Seq::empty(),
    }
}

fn read_requested_ids(body: &JsonValue) -> (ids: Vec<String>)
    ensures
        texts(ids@) == requested_ids(body@),
{
    let mut ids: Vec<String> = Vec::new();
    assert(texts(ids@) =~= Seq::empty());
    if let Some(found) = body.get("point_ids") {
        if let Some(items) = found.as_array() {
            let ghost held = views(items@);
            let mut i: usize = 0;
            assert(held.take(0) =~= Seq::empty());
            while i < items.len()
                invariant
                    i <= items@.len(),
                    held == views(items@),
                    texts(ids@) == texts_among(held.take(i as int)),
                decreases items.len() - i,
            {
                let ghost done = ids@;
                assert(held.take(i + 1).drop_last() =~= held.take(i as int));
                assert(held.take(i + 1).last() == items@[i as int]@);
                if let Some(id) = items[i].as_str() {
                    ids.push(id.to_owned());
                    assert(texts(ids@) =~= texts(done).push(id@));
                }
                i = i + 1;
            }
            assert(held.take(i as int) =~= held);
        }
    }
    ids
}

/// Whether a point is one of those that are asked for.
pub open spec fn is_requested(point: JsonView, ids: Seq<Seq<char>>) -> bool {
    match point.text_at("point_id"@) {
        Some(id) => ids.contains(id),
        None => false,
    }
}

fn is_point_requested(point: &JsonValue, ids: &Vec<String>) -> (answer: bool)
    ensures
        answer == is_requested(point@, texts(ids@)),
{
    if let Some(found) = point.get("point_id") {
        if let Some(id) = found.as_str() {
            let mut i: usize = 0;
            while i < ids.len()
                invariant
                    i <= ids@.len(),
                    point@.text_at("point_id"@) == Some(id@),
                    forall|k: int| 0 <= k < i ==> (#[trigger] ids@[k])@ != id@,
                decreases ids.len() - i,
            {
                if same_text(ids[i].as_str(), id) {
                    assert(texts(ids@)[i as int] == id@);
                    return true;
                }
                i = i + 1;
            }
            assert forall|k: int| 0 <= k < texts(ids@).len() implies texts(ids@)[k] != id@ by {
                assert(texts(ids@)[k] == ids@[k]@);
            }
        }
    }
    false
}

/// The points of a plan.
pub open spec fn points_in(plan: JsonView) -> Seq<JsonView> {
    match plan.items_at("primary"@) {
        Some(points) => points,
        None => Seq::empty(),
    }
}

/// The points of a plan that a request asks for: all, where it names none.
pub open spec fn requested_points(plan: JsonView, body: JsonView) -> Seq<JsonView> {
    let ids = requested_ids(body);
    if ids.len() == 0 {
        points_in(plan)
    } else {
        points_in(plan).filter(|p: JsonView| is_requested(p, ids))
    }
}

/// The points of a plan that a request asks for: all, where it names none.
pub fn select_points(plan: &JsonValue, body: &JsonValue) -> (points: Vec<JsonValue>)
    ensures
        views(points@) == requested_points(plan@, body@),
{
    let ids = read_requested_ids(body);
    assert(texts(ids@).len() == ids@.len());
    let mut points: Vec<JsonValue> = Vec::new();
    assert(views(points@) =~= Seq::empty());
    let ghost keep = |p: JsonView| is_requested(p, texts(ids@));
    if let Some(found) = plan.get("primary") {
        if let Some(items) = found.as_array() {
            let ghost held = views(items@);
            let mut i: usize = 0;
            proof {
                reveal(Seq::filter);
                assert(views(points@) =~= held.take(0).filter(keep));
                assert(held.take(0) =~= Seq::empty());
            }
            while i < items.len()
                invariant
                    i <= items@.len(),
                    held == views(items@),
                    keep == (|p: JsonView| is_requested(p, texts(ids@))),
                    ids@.len() > 0 ==> views(points@) == held.take(i as int).filter(keep),
                    ids@.len() == 0 ==> views(points@) == held.take(i as int),
                decreases items.len() - i,
            {
                let ghost done = points@;
                assert(held[i as int] == items@[i as int]@);
                assert(held.take(i + 1) =~= held.take(i as int).push(held[i as int]));
                proof {
                    lemma_filter_step(held, keep, i as int);
                }
                if ids.len() == 0 || is_point_requested(&items[i], &ids) {
                    points.push(items[i].clone());
                    assert(views(points@) =~= views(done).push(held[i as int]));
                }
                i = i + 1;
            }
            assert(held.take(i as int) =~= held);
            return points;
        }
    }
    proof {
        reveal(Seq::filter);
        assert(Seq::<JsonView>::empty().filter(keep) =~= Seq::empty());
    }
    points
}

/// The points of a plan on disk that a request asks for, or why the file holds no plan.
pub fn read_plan_points(bytes: &[u8], body: &JsonValue) -> (points: Result<Vec<JsonValue>, String>)
    ensures
        match points {
            Ok(p) => parsed_json(bytes@) matches Ok(plan) && views(p@) == requested_points(
                plan,
                body@,
            ),
            Err(e) => reads_not(bytes@, e@),
        },
{
    match parse(bytes) {
        Ok(plan) => Ok(select_points(&plan, body)),
        Err(e) => Err(e),
    }
}

/// What was written of a plan gives its points back, where they hold no long numbers: all of
/// them where a request names none, and else those that it names, in their order. Long numbers
/// elsewhere in the plan do not count, unless one is so long that nothing is read.
pub proof fn a_written_plan_gives_its_points_back(bytes: Seq<u8>, plan: JsonView, body: JsonView)
    requires
        reads_like(bytes, plan),
        plan.get("primary"@) matches Some(points) ==> readable(points, 126, Digits::Few),
    ensures
        match parsed_json(bytes) {
            Ok(read) => requested_points(read, body) == requested_points(plan, body),
            Err(_) => !readable(plan, 127, Digits::Many),
        },
        requested_ids(body).len() == 0 ==> requested_points(plan, body) == points_in(plan),
        forall|k: int|
            0 <= k < requested_points(plan, body).len() ==> points_in(plan).contains(
                #[trigger] requested_points(plan, body)[k],
            ),
        forall|k: int|
            0 <= k < points_in(plan).len() && is_requested(
                #[trigger] points_in(plan)[k],
                requested_ids(body),
            ) ==> requested_points(plan, body).contains(points_in(plan)[k]),
{
    if parsed_json(bytes) is Ok {
        let read = parsed_json(bytes)->Ok_0;
        if plan is Object && plan->Object_0.contains_key("primary"@) {
            lemma_alike_is_same(
                plan->Object_0["primary"@],
                read->Object_0["primary"@],
                126,
            );
        }
        assert(read.get("primary"@) == plan.get("primary"@));
    }
    let ids = requested_ids(body);
    let keep = |p: JsonView| is_requested(p, ids);
    assert forall|k: int| 0 <= k < points_in(plan).len() && is_requested(
        #[trigger] points_in(plan)[k],
        ids,
    ) implies requested_points(plan, body).contains(points_in(plan)[k]) by {
        lemma_filter_has(points_in(plan), keep, k);
        assert(points_in(plan).contains(points_in(plan)[k]));
    }
    lemma_filter_keeps(points_in(plan), |p: JsonView| is_requested(p, ids));
    if ids.len() == 0 {
        assert forall|k: int| 0 <= k < points_in(plan).len() implies points_in(plan).contains(
            #[trigger] requested_points(plan, body)[k],
        ) by {
            assert(points_in(plan)[k] == requested_points(plan, body)[k]);
        }
    }
}

proof fn lemma_mark_is_longest()
    ensures
        "$serde_json::private::RawValue"@.len() == 30,
{
    reveal_strlit("$serde_json::private::RawValue");
}

proof fn lemma_point_is_readable(root: Seq<char>, result: JsonView, place: nat)
    requires
        is_rated(result),
    ensures
        readable(point_of(root, result, place), 125, Digits::Few),
{
    reveal_with_fuel(readable, 2);
    let n = choose|n: nat|
        n <= 100 && result.get("confidence"@) == Some(#[trigger] hundredths_view(n));
    assert(hundredths_view(n) == JsonView::Float(number_of(hundredths_text(n))));
    hundredths_are_short(n);
    let fields = point_of(root, result, place)->Object_0;
    assert(begins_plainly(fields)) by {
        lemma_mark_is_longest();
        reveal_strlit("point_id");
        reveal_strlit("path");
        reveal_strlit("relative_path");
        reveal_strlit("absolute_path");
        reveal_strlit("start_line");
        reveal_strlit("end_line");
        reveal_strlit("line_count");
        reveal_strlit("snippet");
        reveal_strlit("reason");
        reveal_strlit("confidence");
        reveal_strlit("cluster_id");
    }
    assert forall|k: Seq<char>| fields.contains_key(k) implies readable(
        #[trigger] fields[k],
        124,
        Digits::Few,
    ) by {}
}

proof fn lemma_texts_are_readable(items: Seq<Seq<char>>, depth: nat, digits: Digits)
    requires
        depth > 1,
    ensures
        readable(text_array_view(items), depth, digits),
{
    reveal_with_fuel(readable, 2);
}

proof fn lemma_points_are_readable(root: Seq<char>, results: Seq<JsonView>, max_points: nat)
    requires
        all_rated(results),
    ensures
        readable(JsonView::Array(points_of(root, results, max_points as int)), 126, Digits::Few),
{
    let points = points_of(root, results, max_points as int);
    assert forall|i: int| 0 <= i < points.len() implies readable(
        #[trigger] points[i],
        125,
        Digits::Few,
    ) by {
        lemma_point_is_readable(root, results[i], i as nat);
    }
}

proof fn lemma_plan_is_readable(
    body: JsonView,
    root: Seq<char>,
    results: Seq<JsonView>,
    plan_id: Seq<char>,
    digits: Digits,
)
    requires
        all_rated(results),
        readable(budget_of(body), 126, digits),
        readable(constraints_of(body), 126, digits),
    ensures
        ({
            let search = JsonView::Object(map!["results"@ => JsonView::Array(results)]);
            let plan = plan_of(body, root, search, plan_id);
            &&& readable(plan, 127, digits)
            &&& plan.get("primary"@) matches Some(points) && readable(points, 126, Digits::Few)
        }),
{
    let search = JsonView::Object(map!["results"@ => JsonView::Array(results)]);
    assert(results_in(search) == results);
    let max_points = size_or(
        budget_of(body),
        "max_primary_points"@,
        DEFAULT_PRIMARY_POINTS,
    );
    let points = points_of(root, results, max_points as int);
    lemma_points_are_readable(root, results, max_points as nat);
    lemma_readable(JsonView::Array(points), 126, digits);
    let plan = plan_of(body, root, search, plan_id);
    let fields = plan->Object_0;
    lemma_texts_are_readable(
        recommended(
            profile_of(body),
            plan_id,
            or_empty(body.text_at("query"@)),
            points,
        ),
        126,
        digits,
    );
    lemma_texts_are_readable(seq![root], 125, digits);
    lemma_mark_is_longest();
    assert(readable(fields["search_scope"@], 126, digits)) by {
        reveal_strlit("effective_roots");
    }
    assert(readable(fields["budget_used"@], 126, digits)) by {
        reveal_with_fuel(readable, 2);
        reveal_strlit("primary_points");
        reveal_strlit("primary_files");
        reveal_strlit("primary_lines");
        reveal_strlit("response_chars");
    }
    reveal_strlit("ok");
    reveal_strlit("plan_id");
    reveal_strlit("profile");
    reveal_strlit("primary");
    reveal_strlit("deferred_clusters");
    reveal_strlit("next");
    reveal_strlit("budget_used");
    reveal_strlit("search_scope");
    reveal_strlit("constraints");
    reveal_strlit("budget");
    assert(begins_plainly(fields));
    assert(fields["primary"@] == JsonView::Array(points)) by {
        assert("primary"@[1] == 'r' && "primary"@[2] == 'i' && "profile"@[2] == 'o');
    }
    assert(readable(fields["deferred_clusters"@], 126, digits));
    assert forall|k: Seq<char>| fields.contains_key(k) implies readable(
        #[trigger] fields[k],
        126,
        digits,
    ) by {}
}

/// A plan reads back as far as the budget and the constraints of its request do.
pub proof fn built_plans_read_back(
    indexes: Seq<IndexView>,
    files: Seq<FileView>,
    body: JsonView,
    root: Seq<char>,
    plan_id: Seq<char>,
    digits: Digits,
)
    requires
        readable(budget_of(body), 126, digits),
        readable(constraints_of(body), 126, digits),
    ensures
        ({
            let plan = plan_of(body, root, search_for(indexes, files, body), plan_id);
            &&& readable(plan, 127, digits)
            &&& plan.get("primary"@) matches Some(points) && readable(points, 126, Digits::Few)
        }),
{
    let profile = profile_of(body);
    let query = or_empty(body.text_at("query"@));
    let max_points = size_or(
        budget_of(body),
        "max_primary_points"@,
        DEFAULT_PRIMARY_POINTS,
    );
    plan_matches_are_rated(indexes, files, profile, query, max_points);
    lemma_plan_is_readable(
        body,
        root,
        plan_matches(indexes, files, profile, query, max_points),
        plan_id,
        digits,
    );
}

/// What was written of a plan gives back all points of the plan, or those that are asked for,
/// whatever numbers the budget and the constraints of its request hold; nothing is read only
/// where one of these is so long that it cannot be.
pub proof fn built_plans_give_their_points_back(
    indexes: Seq<IndexView>,
    files: Seq<FileView>,
    body: JsonView,
    root: Seq<char>,
    plan_id: Seq<char>,
    bytes: Seq<u8>,
    request: JsonView,
)
    requires
        readable(budget_of(body), 126, Digits::Any),
        readable(constraints_of(body), 126, Digits::Any),
        reads_like(bytes, plan_of(body, root, search_for(indexes, files, body), plan_id)),
    ensures
        ({
            let plan = plan_of(body, root, search_for(indexes, files, body), plan_id);
            match parsed_json(bytes) {
                Ok(read) => requested_points(read, request) == requested_points(plan, request),
                Err(_) => !readable(budget_of(body), 126, Digits::Many) || !readable(
                    constraints_of(body),
                    126,
                    Digits::Many,
                ),
            }
        }),
{
    let plan = plan_of(body, root, search_for(indexes, files, body), plan_id);
    built_plans_read_back(indexes, files, body, root, plan_id, Digits::Any);
    a_written_plan_gives_its_points_back(bytes, plan, request);
    if readable(budget_of(body), 126, Digits::Many) && readable(
        constraints_of(body),
        126,
        Digits::Many,
    ) {
        built_plans_read_back(indexes, files, body, root, plan_id, Digits::Many);
    }
}

// ---------------------------------------------------------------------------
// Replies
// ---------------------------------------------------------------------------

/// The reply to a request for points.
pub open spec fn points_reply(plan_id: Option<JsonView>, points: Seq<JsonView>) -> JsonView {
    JsonView::Object(
        map![
            "ok"@ => JsonView::Bool(true),
            "plan_id"@ => match plan_id {
                Some(id) => id,
                None => JsonView::Null,
            },
            "points"@ => JsonView::Array(points),
        ],
    )
}

/// The reply to a request for points that cannot be read.
pub open spec fn no_points_reply(reason: Seq<char>) -> JsonView {
    JsonView::Object(
        map![
            "ok"@ => JsonView::Bool(false),
            "error"@ => JsonView::Text(reason),
            "points"@ => JsonView::Array(Seq::empty()),
        ],
    )
}

fn copy_or_null(value: Option<&JsonValue>) -> (copy: JsonValue)
    ensures
        copy@ == match optional_view(value) {
            Some(v) => v,
            None => JsonView::Null,
        },
{
    match value {
        Some(v) => v.clone(),
        None => JsonValue::Null,
    }
}

fn reply_with(body: &JsonValue, points: Vec<JsonValue>) -> (reply: JsonValue)
    ensures
        reply@ == points_reply(body@.get("plan_id"@), views(points@)),
{
    broadcast use lemma_array_view;

    JsonObject::new().put("ok", JsonValue::Bool(true)).put(
        "plan_id",
        copy_or_null(body.get("plan_id")),
    ).put("points", JsonValue::Array(points)).value()
}

fn reply_without(reason: &str) -> (reply: JsonValue)
    ensures
        reply@ == no_points_reply(reason@),
{
    broadcast use lemma_array_view;

    let none: Vec<JsonValue> = Vec::new();
    assert(views(none@) =~= Seq::empty());
    JsonObject::new().put("ok", JsonValue::Bool(false)).put(
        "error",
        JsonValue::text(reason),
    ).put("points", JsonValue::Array(none)).value()
}

/// The reply to a request for points, from what reading them gave.
pub fn profile_read(body: &JsonValue, points: Result<Vec<JsonValue>, String>) -> (reply: JsonValue)
    ensures
        reply@ == match points {
            Ok(p) => points_reply(body@.get("plan_id"@), views(p@)),
            Err(e) => no_points_reply(e@),
        },
{
    match points {
        Ok(p) => reply_with(body, p),
        Err(e) => reply_without(e.as_str()),
    }
}

/// Points marked as fresh.
pub open spec fn fresh(points: Seq<JsonView>) -> Seq<JsonView> {
    points.map_values(|p: JsonView| p.with("fresh"@, JsonView::Bool(true)))
}

/// The reply to a request to validate points, from what reading them gave: the points, marked
/// as fresh.
pub fn profile_validate(body: &JsonValue, points: Result<Vec<JsonValue>, String>) -> (reply:
    JsonValue)
    requires
        points matches Ok(p) ==> all_settable(views(p@)),
    ensures
        reply@ == match points {
            Ok(p) => points_reply(body@.get("plan_id"@), fresh(views(p@))),
            Err(e) => no_points_reply(e@),
        },
{
    match points {
        Ok(held) => {
            let ghost all = views(held@);
            let mut marked: Vec<JsonValue> = Vec::new();
            let mut i: usize = 0;
            while i < held.len()
                invariant
                    i <= held@.len(),
                    all == views(held@),
                    all_settable(all),
                    marked@.len() == i,
                    forall|k: int|
                        0 <= k < i ==> (#[trigger] marked@[k])@ == all[k].with(
                            "fresh"@,
                            JsonView::Bool(true),
                        ),
                decreases held.len() - i,
            {
                assert(all[i as int] == held@[i as int]@);
                marked.push(held[i].clone().with("fresh", JsonValue::Bool(true)));
                i = i + 1;
            }
            assert(views(marked@) =~= fresh(all));
            reply_with(body, marked)
        },
        Err(e) => reply_without(e.as_str()),
    }
}

/// The reply to a request to expand a cluster: it has no further points.
pub open spec fn expand_reply(body: JsonView) -> JsonView {
    let cluster = field_or(body, "cluster_id"@, JsonView::Null);
    JsonView::Object(
        map![
            "ok"@ => JsonView::Bool(true),
            "plan_id"@ => field_or(body, "plan_id"@, JsonView::Null),
            "cluster_id"@ => cluster,
            "cluster"@ => cluster,
            "points"@ => JsonView::Array(Seq::empty()),
            "budget_used"@ => JsonView::Object(
                map![
                    "primary_points"@ => JsonView::Integer(0),
                    "primary_files"@ => JsonView::Integer(0),
                    "primary_lines"@ => JsonView::Integer(0),
                ],
            ),
            "truncated"@ => JsonView::Bool(false),
        ],
    )
}

/// The reply to a request to expand a cluster.
pub fn profile_expand(body: &JsonValue) -> (reply: JsonValue)
    ensures
        reply@ == expand_reply(body@),
{
    broadcast use lemma_array_view;

    let none: Vec<JsonValue> = Vec::new();
    assert(views(none@) =~= Seq::empty());
    let used = JsonObject::new().put("primary_points", JsonValue::Uint(0)).put(
        "primary_files",
        JsonValue::Uint(0),
    ).put("primary_lines", JsonValue::Uint(0)).value();
    JsonObject::new().put("ok", JsonValue::Bool(true)).put(
        "plan_id",
        copy_or_null(body.get("plan_id")),
    ).put("cluster_id", copy_or_null(body.get("cluster_id"))).put(
        "cluster",
        copy_or_null(body.get("cluster_id")),
    ).put("points", JsonValue::Array(none)).put("budget_used", used).put(
        "truncated",
        JsonValue::Bool(false),
    ).value()
}

// ---------------------------------------------------------------------------
// Scoped calls
// ---------------------------------------------------------------------------

/// The root that the scope of a tool request names.
pub fn scope_request_root(body: &JsonValue, set: Option<&str>) -> (root: String)
    ensures
        root@ == root_or(named_root(body@), optional_str(set)),
{
    match read_named_root(body) {
        Some(root) => root,
        None => match set {
            Some(root) => root.to_owned(),
            None => ".".to_owned(),
        },
    }
}

/// The project of a tool request: the name that its root gives.
pub fn project_for_scope(body: &JsonValue, set: Option<&str>) -> (project: String)
    ensures
        project@ == project_name_of(root_or(named_root(body@), optional_str(set))),
{
    project_name(scope_request_root(body, set).as_str())
}

/// A request without the fields that only say where to look.
pub open spec fn without_scope(body: JsonView) -> JsonView {
    body.without("path"@).without("cwd"@).without("scope"@).without("roots"@).without(
        "max_parent_depth"@,
    )
}

/// Arguments with a project, unless they name one.
pub open spec fn with_project(args: JsonView, project: Seq<char>) -> JsonView {
    if args.text_at("project"@) is None {
        args.with("project"@, JsonView::Text(project))
    } else {
        args
    }
}

fn set_project(args: JsonValue, project: &str) -> (scoped: JsonValue)
    requires
        args@.settable(),
    ensures
        scoped@ == with_project(args@, project@),
{
    if names_project(&args) {
        args
    } else {
        args.with("project", JsonValue::text(project))
    }
}

/// Whether arguments name a project.
pub fn names_project(args: &JsonValue) -> (answer: bool)
    ensures
        answer == (args@.text_at("project"@) is Some),
{
    match args.get("project") {
        Some(v) => v.as_str().is_some(),
        None => false,
    }
}

/// The arguments of a tool from a request: without what only says where to look, and with a
/// project.
pub fn scoped_tool_args(body: &JsonValue, project: &str) -> (args: JsonValue)
    requires
        body@.settable(),
    ensures
        args@ == with_project(without_scope(body@), project@),
{
    let args = body.clone().without("path").without("cwd").without("scope").without(
        "roots",
    ).without("max_parent_depth");
    set_project(args, project)
}

/// The arguments of a search for symbols from a request.
pub fn graph_search_args(body: &JsonValue, project: &str) -> (args: JsonValue)
    requires
        body@.settable(),
    ensures
        args@ == with_project(without_scope(body@), project@).with(
            "query"@,
            field_or(body@, "query"@, JsonView::Text(Seq::empty())),
        ),
{
    scoped_tool_args(body, project).with("query", text_field(body, "query"))
}

/// The arguments of a search for lines from a request.
pub fn code_search_args(body: &JsonValue, project: &str) -> (args: JsonValue)
    requires
        body@.settable(),
    ensures
        args@ == with_project(without_scope(body@), project@).with(
            "pattern"@,
            field_or(body@, "pattern"@, JsonView::Text(Seq::empty())),
        ),
{
    scoped_tool_args(body, project).with("pattern", text_field(body, "pattern"))
}

fn text_field(body: &JsonValue, key: &str) -> (value: JsonValue)
    ensures
        value@ == field_or(body@, key@, JsonView::Text(Seq::empty())),
{
    proof {
        reveal_strlit("");
        assert(""@ =~= Seq::empty());
    }
    match body.get(key) {
        Some(v) => v.clone(),
        None => JsonValue::text(""),
    }
}

/// The arguments of a request that names its tool itself.
pub open spec fn call_arguments(body: JsonView) -> JsonView {
    field_or(body, "arguments"@, JsonView::Object(Map::empty()))
}

/// Whether a request that names its tool itself names a project too.
pub fn call_names_project(body: &JsonValue) -> (answer: bool)
    ensures
        answer == (call_arguments(body@).text_at("project"@) is Some),
{
    match body.get("arguments") {
        Some(args) => names_project(args),
        None => false,
    }
}

/// The tool and the arguments of a request that names its tool itself.
pub fn codebase_call(body: &JsonValue, project: &str) -> (call: (String, JsonValue))
    requires
        call_arguments(body@).settable(),
    ensures
        call.0@ == or_empty(body@.text_at("tool"@)),
        call.1@ == with_project(call_arguments(body@), project@),
{
    let tool = result_text(body, "tool").to_owned();
    let args = match body.get("arguments") {
        Some(v) => v.clone(),
        None => JsonObject::new().value(),
    };
    (tool, set_project(args, project))
}

} // verus!
