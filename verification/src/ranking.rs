//! How well a search result serves what is wanted of it, and the order that follows.

use vstd::prelude::*;
use vstd::string::StringExecFns;

use crate::json::{or_empty, views, JsonValue, JsonView};
use crate::order::{
    arrange_values, arranged, arrangement, arrangement_exists, arranging_keeps_items, before,
    key_views, lemma_precedes_asymmetric, precedes, KeyView, SortKey,
};
use crate::steps::{PlanSearchStep, StepView};
use crate::text::{
    begins_with, contains, decimal, decimal_text, ends_with, finishes_with, has_text, lines,
    lines_of, lowercase, same_text, starts_with, texts, trim, trimmed,
};

verus! {

// ---------------------------------------------------------------------------
// What a result holds
// ---------------------------------------------------------------------------

/// The file that a result is in, or the empty text.
pub open spec fn file_of(result: JsonView) -> Seq<char> {
    match result.get_either("file"@, "path"@) {
        Some(v) => or_empty(v.as_text()),
        None => Seq::empty(),
    }
}

/// The file that a result is in, or the empty text.
pub fn result_file(result: &JsonValue) -> (file: &str)
    ensures
        file@ == file_of(result@),
{
    proof {
        reveal_strlit("");
    }
    match result.get_either("file", "path") {
        Some(v) => match v.as_str() {
            Some(t) => t,
            None => "",
        },
        None => "",
    }
}

/// The line that a result is on, or a number given for where there is none.
pub open spec fn line_of(result: JsonView, default: u64) -> int {
    match result.get_either("start_line"@, "line"@) {
        Some(v) => match v.as_uint() {
            Some(n) => n,
            None => default as int,
        },
        None => default as int,
    }
}

/// The line that a result is on, or a number given for where there is none.
pub fn result_line(result: &JsonValue, default: u64) -> (line: u64)
    ensures
        line == line_of(result@, default),
{
    match result.get_either("start_line", "line") {
        Some(v) => match v.as_u64() {
            Some(n) => n,
            None => default,
        },
        None => default,
    }
}

/// The text in a field of a result, or the empty text.
pub fn result_text<'a>(result: &'a JsonValue, key: &str) -> (text: &'a str)
    ensures
        text@ == or_empty(result@.text_at(key@)),
{
    proof {
        reveal_strlit("");
    }
    match result.get(key) {
        Some(v) => match v.as_str() {
            Some(t) => t,
            None => "",
        },
        None => "",
    }
}

/// What tells results apart: file, line and name.
pub open spec fn key_of(result: JsonView) -> Seq<char> {
    file_of(result) + ":"@ + decimal_text(line_of(result, 0) as nat) + ":"@ + or_empty(
        result.text_at("name"@),
    )
}

/// What tells results apart: file, line and name.
pub fn result_key(result: &JsonValue) -> (key: String)
    ensures
        key@ == key_of(result@),
{
    let mut key = result_file(result).to_owned();
    key.append(":");
    key.append(decimal(result_line(result, 0)).as_str());
    key.append(":");
    key.append(result_text(result, "name"));
    key
}

// ---------------------------------------------------------------------------
// Scores
// ---------------------------------------------------------------------------

/// How the definition of a term can begin.
pub open spec fn signatures(term: Seq<char>) -> Seq<Seq<char>> {
    seq![
        "fn "@ + term,
        "pub fn "@ + term,
        "def "@ + term,
        "class "@ + term,
        "struct "@ + term,
        "pub struct "@ + term,
    ]
}

fn prefixed(prefix: &str, term: &str) -> (text: String)
    ensures
        text@ == prefix@ + term@,
{
    let mut text = prefix.to_owned();
    text.append(term);
    text
}

/// How the definition of a term can begin.
pub fn definition_signatures(term: &str) -> (candidates: [String; 6])
    ensures
        texts(candidates@) == signatures(term@),
{
    let candidates = [
        prefixed("fn ", term),
        prefixed("pub fn ", term),
        prefixed("def ", term),
        prefixed("class ", term),
        prefixed("struct ", term),
        prefixed("pub struct ", term),
    ];
    assert(texts(candidates@) =~= signatures(term@));
    candidates
}

/// Whether a text holds the beginning of a definition of a term.
pub open spec fn has_signature(text: Seq<char>, term: Seq<char>) -> bool {
    exists|k: int|
        0 <= k < signatures(term).len() && has_text(text, #[trigger] signatures(term)[k])
}

/// Whether a text holds the beginning of a definition of a term.
pub fn defines(text: &str, term: &str) -> (answer: bool)
    ensures
        answer == has_signature(text@, term@),
{
    let candidates = definition_signatures(term);
    let mut i: usize = 0;
    while i < 6
        invariant
            i <= 6,
            candidates@.len() == 6,
            texts(candidates@) == signatures(term@),
            forall|k: int| 0 <= k < i ==> !has_text(text@, #[trigger] signatures(term@)[k]),
        decreases 6 - i,
    {
        assert(texts(candidates@)[i as int] == candidates@[i as int]@);
        if contains(text, candidates[i].as_str()) {
            return true;
        }
        i = i + 1;
    }
    false
}

/// Whether a snippet in lowercase holds the beginning of a definition of a term.
pub fn is_definition_snippet(snippet: &str, term: &str) -> (answer: bool)
    ensures
        answer == has_signature(lowercase(snippet@), term@),
{
    let lower = snippet.to_lowercase();
    defines(lower.as_str(), term)
}

/// The parts of a result that its score goes by, in lowercase. Definitions are looked for in
/// `declared`.
pub struct ResultTexts {
    pub snippet: String,
    pub declared: String,
    pub path: String,
    pub name: String,
    pub penalty: i32,
}

/// What the parts of a result are that its score goes by.
#[verifier::ext_equal]
pub struct ResultTextsView {
    pub snippet: Seq<char>,
    pub declared: Seq<char>,
    pub path: Seq<char>,
    pub name: Seq<char>,
    pub penalty: i32,
}

impl View for ResultTexts {
    type V = ResultTextsView;

    open spec fn view(&self) -> ResultTextsView {
        ResultTextsView {
            snippet: self.snippet@,
            declared: self.declared@,
            path: self.path@,
            name: self.name@,
            penalty: self.penalty,
        }
    }
}

/// The penalty that a result carries, none where it carries no integer.
pub open spec fn penalty_of(result: JsonView) -> int {
    match result.int_at("context_penalty"@) {
        Some(n) => n,
        None => 0,
    }
}

/// The penalty that a result carries, none where it carries no integer.
pub fn context_penalty(result: &JsonValue) -> (penalty: i64)
    ensures
        penalty == penalty_of(result@),
{
    match result.get("context_penalty") {
        Some(v) => match v.as_i64() {
            Some(n) => n,
            None => 0,
        },
        None => 0,
    }
}

/// The parts of a result that its score goes by. Of the penalty the lowest 32 bits count.
pub open spec fn texts_of(result: JsonView) -> ResultTextsView {
    let snippet = lowercase(or_empty(result.text_at("snippet"@)));
    ResultTextsView {
        snippet,
        declared: lowercase(snippet),
        path: lowercase(file_of(result)),
        name: lowercase(or_empty(result.text_at("name"@))),
        penalty: penalty_of(result) as i32,
    }
}

/// The parts of a result that its score goes by. Of the penalty the lowest 32 bits count.
pub fn result_texts(result: &JsonValue) -> (parts: ResultTexts)
    ensures
        parts@ == texts_of(result@),
{
    let snippet = result_text(result, "snippet").to_lowercase();
    let declared = snippet.as_str().to_lowercase();
    let penalty: i64 = context_penalty(result);
    ResultTexts {
        snippet,
        declared,
        path: result_file(result).to_lowercase(),
        name: result_text(result, "name").to_lowercase(),
        penalty: #[verifier::truncate]
        (penalty as i32),
    }
}

/// Whether a snippet reads like test data for this tool itself.
pub open spec fn fixture_like(snippet: Seq<char>) -> bool {
    has_text(snippet, "\"snippet\":"@) || has_text(snippet, "json!({"@) || has_text(
        snippet,
        "\"query\":"@,
    ) || has_text(snippet, "\"profile\":"@) || has_text(snippet, "plan_search_steps("@) || has_text(
        snippet,
        "build_profile_plan("@,
    ) || has_text(snippet, "recommend_follow_up_calls("@)
}

fn is_fixture_like(snippet: &str) -> (answer: bool)
    ensures
        answer == fixture_like(snippet@),
{
    contains(snippet, "\"snippet\":") || contains(snippet, "json!({") || contains(
        snippet,
        "\"query\":",
    ) || contains(snippet, "\"profile\":") || contains(snippet, "plan_search_steps(") || contains(
        snippet,
        "build_profile_plan(",
    ) || contains(snippet, "recommend_follow_up_calls(")
}

/// Whether a snippet is nothing but the term in quotes.
pub open spec fn bare_quoted(snippet: Seq<char>, term: Seq<char>) -> bool {
    let bare = trimmed(snippet);
    bare == "\""@ + term + "\","@ || bare == "\""@ + term + "\""@ || bare == "'"@ + term + "',"@
        || bare == "'"@ + term + "'"@
}

fn enclosed(open: &str, term: &str, close: &str) -> (text: String)
    ensures
        text@ == open@ + term@ + close@,
{
    let mut text = open.to_owned();
    text.append(term);
    text.append(close);
    text
}

fn is_bare_quoted(snippet: &str, term: &str) -> (answer: bool)
    ensures
        answer == bare_quoted(snippet@, term@),
{
    let bare = trim(snippet);
    bare == enclosed("\"", term, "\",") || bare == enclosed("\"", term, "\"") || bare == enclosed(
        "'",
        term,
        "',",
    ) || bare == enclosed("'", term, "'")
}

/// Whether a result is the definition of a term.
pub open spec fn is_definition(term: Seq<char>, parts: ResultTextsView) -> bool {
    has_signature(parts.declared, term) || parts.name == term
}

/// Whether a result is a call of a term.
pub open spec fn is_callsite(term: Seq<char>, parts: ResultTextsView) -> bool {
    has_text(parts.snippet, term + "("@) && !is_definition(term, parts)
}

/// What a condition adds to a score.
pub open spec fn points_if(condition: bool, points: int) -> int {
    if condition {
        points
    } else {
        0
    }
}

/// What counts whatever is wanted: the term itself, source code, and what speaks against it.
pub open spec fn base_score(term: Seq<char>, parts: ResultTextsView) -> int {
    points_if(has_text(parts.snippet, term), 20) + points_if(
        has_text(parts.path, "/src/"@) || begins_with(parts.path, "src/"@),
        10,
    ) + points_if(fixture_like(parts.snippet), -60) + points_if(
        bare_quoted(parts.snippet, term),
        -40,
    ) - parts.penalty
}

/// What counts for what is wanted: definitions, calls, or both.
pub open spec fn wanted_score(profile: Seq<char>, definition: bool, callsite: bool) -> int {
    if profile == "find_definition"@ {
        points_if(definition, 100) + points_if(callsite, 15)
    } else if profile == "trace_impact"@ {
        points_if(callsite, 90) + points_if(definition, -10)
    } else {
        points_if(callsite, 50) + points_if(definition, 20)
    }
}

/// How well a result serves what is wanted of a term in lowercase.
pub open spec fn score_with(profile: Seq<char>, term: Seq<char>, parts: ResultTextsView) -> int {
    base_score(term, parts) + wanted_score(
        profile,
        is_definition(term, parts),
        is_callsite(term, parts),
    )
}

/// How well a result serves what is wanted of a term in lowercase.
pub fn score_texts(profile: &str, term: &str, parts: &ResultTexts) -> (score: i64)
    ensures
        score == score_with(profile@, term@, parts@),
        -0x1_0000_0000 <= score <= 0x1_0000_0000,
{
    let definition = defines(parts.declared.as_str(), term) || same_text(
        parts.name.as_str(),
        term,
    );
    let mut call = term.to_owned();
    call.append("(");
    let callsite = contains(parts.snippet.as_str(), call.as_str()) && !definition;
    let mut score: i64 = 0;
    if contains(parts.snippet.as_str(), term) {
        score = score + 20;
    }
    if contains(parts.path.as_str(), "/src/") || starts_with(parts.path.as_str(), "src/") {
        score = score + 10;
    }
    if is_fixture_like(parts.snippet.as_str()) {
        score = score - 60;
    }
    if is_bare_quoted(parts.snippet.as_str(), term) {
        score = score - 40;
    }
    score = score - parts.penalty as i64;
    if same_text(profile, "find_definition") {
        if definition {
            score = score + 100;
        }
        if callsite {
            score = score + 15;
        }
    } else if same_text(profile, "trace_impact") {
        if callsite {
            score = score + 90;
        }
        if definition {
            score = score - 10;
        }
    } else {
        if callsite {
            score = score + 50;
        }
        if definition {
            score = score + 20;
        }
    }
    score
}

/// How well a result serves what is wanted of a search.
pub open spec fn score_of(profile: Seq<char>, step: StepView, result: JsonView) -> int {
    score_with(profile, lowercase(step.term), texts_of(result))
}

/// How well a result serves what is wanted of a search.
pub fn profile_result_score(profile: &str, step: &PlanSearchStep, result: &JsonValue) -> (score:
    i64)
    ensures
        score == score_of(profile@, step@, result@),
        -0x1_0000_0000 <= score <= 0x1_0000_0000,
{
    let term = step.term.as_str().to_lowercase();
    score_texts(profile, term.as_str(), &result_texts(result))
}

/// Where a definition is wanted, one that nothing speaks against outscores what is none.
pub proof fn definitions_outscore_the_rest(
    term: Seq<char>,
    definition: ResultTextsView,
    other: ResultTextsView,
)
    requires
        is_definition(term, definition),
        !fixture_like(definition.snippet),
        !bare_quoted(definition.snippet, term),
        definition.penalty <= 0,
        !is_definition(term, other),
        other.penalty >= 0,
    ensures
        score_with("find_definition"@, term, definition) > score_with(
            "find_definition"@,
            term,
            other,
        ),
{
}

/// Where the reach of a change is wanted, a call that nothing speaks against outscores what is
/// none.
pub proof fn calls_outscore_the_rest(
    term: Seq<char>,
    call: ResultTextsView,
    other: ResultTextsView,
)
    requires
        is_callsite(term, call),
        !fixture_like(call.snippet),
        !bare_quoted(call.snippet, term),
        call.penalty <= 0,
        !is_callsite(term, other),
        other.penalty >= 0,
    ensures
        score_with("trace_impact"@, term, call) > score_with("trace_impact"@, term, other),
{
    reveal_strlit("find_definition");
    reveal_strlit("trace_impact");
    assert("find_definition"@.len() != "trace_impact"@.len());
}

/// By what a result is ranked: its score, then what tells it apart.
pub open spec fn rank_key(profile: Seq<char>, step: StepView, result: JsonView) -> KeyView {
    KeyView { score: score_of(profile, step, result), text: key_of(result) }
}

/// By what results are ranked.
pub open spec fn rank_keys(
    profile: Seq<char>,
    step: StepView,
    results: Seq<JsonView>,
) -> Seq<KeyView> {
    results.map_values(|r: JsonView| rank_key(profile, step, r))
}

/// The results with the best first. Results of one score go by what tells them apart, and
/// those that nothing tells apart stay as they were.
pub open spec fn ranked(
    profile: Seq<char>,
    step: StepView,
    results: Seq<JsonView>,
) -> Seq<JsonView> {
    arranged(results, rank_keys(profile, step, results))
}

/// Puts the best results first.
pub fn rank_search_results(profile: &str, step: &PlanSearchStep, results: &mut Vec<JsonValue>)
    ensures
        views(final(results)@) == ranked(profile@, step@, views(old(results)@)),
        final(results)@.len() == old(results)@.len(),
{
    let ghost held = views(results@);
    let mut keys: Vec<SortKey> = Vec::new();
    let mut i: usize = 0;
    while i < results.len()
        invariant
            i <= results@.len(),
            results@ == old(results)@,
            held == views(results@),
            keys@.len() == i,
            forall|k: int|
                0 <= k < i ==> (#[trigger] keys@[k])@ == (KeyView {
                    score: score_of(profile@, step@, results@[k]@),
                    text: key_of(results@[k]@),
                }),
        decreases results.len() - i,
    {
        let result = &results[i];
        let score: i64 = profile_result_score(profile, step, result);
        keys.push(SortKey { score: score as i128, text: result_key(result) });
        i = i + 1;
    }
    assert(key_views(keys@) =~= rank_keys(profile@, step@, held));
    let sorted = arrange_values(results, &keys);
    *results = sorted;
}

/// Ranking keeps the results, and a better one comes first: one that comes later has no higher
/// score, and with the same score its key does not come before.
pub proof fn better_results_come_first(
    profile: Seq<char>,
    step: StepView,
    results: Seq<JsonView>,
)
    ensures
        ranked(profile, step, results).len() == results.len(),
        forall|i: int|
            0 <= i < results.len() ==> results.contains(
                #[trigger] ranked(profile, step, results)[i],
            ),
        forall|i: int|
            0 <= i < results.len() ==> ranked(profile, step, results).contains(
                #[trigger] results[i],
            ),
        forall|i: int, j: int|
            0 <= i < j < results.len() ==> !precedes(
                rank_key(profile, step, #[trigger] ranked(profile, step, results)[j]),
                rank_key(profile, step, #[trigger] ranked(profile, step, results)[i]),
            ),
{
    let keys = rank_keys(profile, step, results);
    arranging_keeps_items(results, keys);
    arrangement_exists(keys);
    let order = arrangement(keys);
    let sorted = ranked(profile, step, results);
    assert forall|i: int, j: int| 0 <= i < j < results.len() implies !precedes(
        rank_key(profile, step, #[trigger] sorted[j]),
        rank_key(profile, step, #[trigger] sorted[i]),
    ) by {
        let (a, b) = (keys[order[i]], keys[order[j]]);
        assert(before(keys, order[i], order[j]));
        assert(sorted[i] == results[order[i]] && sorted[j] == results[order[j]]);
        if precedes(a, b) {
            lemma_precedes_asymmetric(a, b);
        }
    }
}

// ---------------------------------------------------------------------------
// Tests, helpers and sources
// ---------------------------------------------------------------------------

/// Whether a path or a snippet in lowercase is of a test.
pub open spec fn test_texts(path: Seq<char>, snippet: Seq<char>) -> bool {
    has_text(path, "test"@) || has_text(snippet, "fn test"@) || has_text(snippet, "#[test]"@)
        || has_text(snippet, "assert!("@) || has_text(snippet, "assert_eq!("@) || has_text(
        snippet,
        "assert_ne!("@,
    )
}

/// Whether a path or a snippet in lowercase is of a test.
pub fn is_test_text(path: &str, snippet: &str) -> (answer: bool)
    ensures
        answer == test_texts(path@, snippet@),
{
    contains(path, "test") || contains(snippet, "fn test") || contains(snippet, "#[test]")
        || contains(snippet, "assert!(") || contains(snippet, "assert_eq!(") || contains(
        snippet,
        "assert_ne!(",
    )
}

/// Whether a result is of a test.
pub open spec fn test_like(result: JsonView) -> bool {
    test_texts(lowercase(file_of(result)), lowercase(or_empty(result.text_at("snippet"@))))
}

/// Whether a result is of a test.
pub fn is_test_like_result(result: &JsonValue) -> (answer: bool)
    ensures
        answer == test_like(result@),
{
    let path = result_file(result).to_lowercase();
    let snippet = result_text(result, "snippet").to_lowercase();
    is_test_text(path.as_str(), snippet.as_str())
}

/// Whether a snippet in lowercase is of code that prepares or describes searches.
pub open spec fn helper_text(snippet: Seq<char>) -> bool {
    has_text(snippet, "locate `"@) || has_text(snippet, "\"query\":"@) || has_text(
        snippet,
        "\\\"query\\\":"@,
    ) || has_text(snippet, "\"profile\":"@) || has_text(snippet, "\\\"profile\\\":"@) || has_text(
        snippet,
        "\"snippet\":"@,
    ) || has_text(snippet, "\\\"snippet\\\":"@) || has_text(snippet, "json!({"@) || has_text(
        snippet,
        "plan_search_steps("@,
    ) || has_text(snippet, "build_profile_plan("@) || has_text(
        snippet,
        "recommend_follow_up_calls("@,
    ) || has_text(snippet, ".to_string(),"@) || has_text(snippet, "term: \""@) || (begins_with(
        trimmed(snippet),
        "\""@,
    ) && finishes_with(trimmed(snippet), "\","@))
}

/// Whether a snippet in lowercase is of code that prepares or describes searches.
pub fn is_helper_text(snippet: &str) -> (answer: bool)
    ensures
        answer == helper_text(snippet@),
{
    let bare = trim(snippet);
    contains(snippet, "locate `") || contains(snippet, "\"query\":") || contains(
        snippet,
        "\\\"query\\\":",
    ) || contains(snippet, "\"profile\":") || contains(snippet, "\\\"profile\\\":") || contains(
        snippet,
        "\"snippet\":",
    ) || contains(snippet, "\\\"snippet\\\":") || contains(snippet, "json!({") || contains(
        snippet,
        "plan_search_steps(",
    ) || contains(snippet, "build_profile_plan(") || contains(
        snippet,
        "recommend_follow_up_calls(",
    ) || contains(snippet, ".to_string(),") || contains(snippet, "term: \"") || (starts_with(
        bare.as_str(),
        "\"",
    ) && ends_with(bare.as_str(), "\","))
}

/// Whether a result is of code that prepares or describes searches.
pub open spec fn helper_like(result: JsonView) -> bool {
    helper_text(lowercase(or_empty(result.text_at("snippet"@))))
}

/// Whether a result is of code that prepares or describes searches.
pub fn is_helper_like_result(result: &JsonValue) -> (answer: bool)
    ensures
        answer == helper_like(result@),
{
    let snippet = result_text(result, "snippet").to_lowercase();
    is_helper_text(snippet.as_str())
}

/// Whether a path in lowercase is of a source file.
pub open spec fn source_path(path: Seq<char>) -> bool {
    begins_with(path, "src/"@) || has_text(path, "/src/"@) || begins_with(path, "crates/"@)
        || finishes_with(path, ".rs"@)
}

/// Whether a path in lowercase is of a source file.
pub fn is_source_path(path: &str) -> (answer: bool)
    ensures
        answer == source_path(path@),
{
    starts_with(path, "src/") || contains(path, "/src/") || starts_with(path, "crates/")
        || ends_with(path, ".rs")
}

/// Whether a result is in a source file.
pub open spec fn source_like(result: JsonView) -> bool {
    source_path(lowercase(file_of(result)))
}

/// Whether a result is in a source file.
pub fn is_source_like_result(result: &JsonValue) -> (answer: bool)
    ensures
        answer == source_like(result@),
{
    let path = result_file(result).to_lowercase();
    is_source_path(path.as_str())
}

/// How many lines before a line are read for what it belongs to.
pub const TEST_LOOKBACK: usize = 32;

/// Whether a line opens a test or a module of tests.
pub open spec fn opens_test(line: Seq<char>) -> bool {
    begins_with(trimmed(line), "#[test]"@) || begins_with(trimmed(line), "#[cfg(test)]"@)
        || begins_with(trimmed(line), "mod tests"@) || begins_with(trimmed(line), "fn test_"@)
}

fn is_test_opening(line: &str) -> (answer: bool)
    ensures
        answer == opens_test(line@),
{
    let bare = trim(line);
    starts_with(bare.as_str(), "#[test]") || starts_with(bare.as_str(), "#[cfg(test)]")
        || starts_with(bare.as_str(), "mod tests") || starts_with(bare.as_str(), "fn test_")
}

/// Whether one of the lines before a line, counted from one, opens a test. The nearest lines
/// count, as far back as `TEST_LOOKBACK`; a line past the end counts as the one after the end.
pub open spec fn in_test_context(lines: Seq<Seq<char>>, line: int) -> bool {
    let end = if line - 1 <= lines.len() {
        line - 1
    } else {
        lines.len() as int
    };
    line > 1 && exists|k: int|
        0 <= k < end && end - TEST_LOOKBACK <= k && opens_test(#[trigger] lines[k])
}

/// Whether a line, counted from one, belongs to a test.
pub fn is_test_context_line(text: &str, line: u64) -> (answer: bool)
    ensures
        answer == in_test_context(lines_of(text@), line as int),
{
    if line <= 1 {
        return false;
    }
    let held = lines(text);
    let ghost all = lines_of(text@);
    assert(all.len() == held@.len());
    let end: usize = if line - 1 <= held.len() as u64 {
        (line - 1) as usize
    } else {
        held.len()
    };
    let mut i: usize = if end >= TEST_LOOKBACK {
        end - TEST_LOOKBACK
    } else {
        0
    };
    let ghost start = i;
    while i < end
        invariant
            start <= i <= end <= held@.len(),
            all == texts(held@),
            forall|k: int| start <= k < i ==> !opens_test(#[trigger] all[k]),
            start == if end >= TEST_LOOKBACK { end - TEST_LOOKBACK } else { 0 },
            end == if line - 1 <= all.len() { line - 1 } else { all.len() as int },
            line > 1,
            all == lines_of(text@),
        decreases end - i,
    {
        assert(all[i as int] == held@[i as int]@);
        if is_test_opening(held[i].as_str()) {
            return true;
        }
        i = i + 1;
    }
    false
}

/// A line that a test attribute stands before, no further back than the lookback, belongs to a
/// test; the first line never does.
pub proof fn lines_after_a_test_opening(lines: Seq<Seq<char>>, at: int, line: int)
    requires
        0 <= at < lines.len(),
        opens_test(lines[at]),
    ensures
        at + 2 <= line <= at + 1 + TEST_LOOKBACK && line <= lines.len() + 1 ==> in_test_context(
            lines,
            line,
        ),
        !in_test_context(lines, 1),
{
}

} // verus!
