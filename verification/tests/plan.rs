use clab::json::{JsonObject, JsonValue};
use clab::plan::{
    budgeted_chars, build_plan_points, build_profile_plan, call_names_project, code_search_args,
    codebase_call, env_project_path, follow_up_calls, follow_up_symbol, graph_search_args,
    names_project, plan_dir, plan_from_search, plan_path, plan_root, points_len,
    primary_symbol_hint, profile_budget, profile_expand, profile_name, profile_read, profile_root,
    profile_validate, project_for_scope, read_plan_points, recommend_follow_up_calls,
    scope_request_root, scoped_tool_args, select_points, symbol_in_terms, unique_plan_id,
    write_plan,
};
use clab::ranking::{
    context_penalty, defines, is_definition_snippet, is_helper_like_result, is_source_like_result,
    is_test_context_line, is_test_like_result, profile_result_score, rank_search_results,
    result_key, score_texts, ResultTexts,
};
use clab::scanner::scan_file;
use clab::search::{
    contextual_result_penalty, finalize_plan_results, merge_plan_results,
    normalize_search_results, plan_search_results, prefer, search_plan_matches,
    search_step_results, step_request, Preference,
};
use clab::steps::{plan_search_steps, push_search_step, steps_for_terms, PlanSearchKind, PlanSearchStep};
use clab::store::{ClabStore, SearchRequest};
use clab::terms::{
    admit_term, is_codeish_term, is_symbol_like_term, marked_words, push_term, query_terms,
};
use clab::types::{ClabIndex, FileEntry, GitProjectState};
use clab::wire::{encode_pretty, from_serde, hundredths, parse, render, to_serde};
use serde_json::Value;

const ROOT: &str = "/tmp/clab-plan-repo";

fn json(text: &str) -> JsonValue {
    from_serde(serde_json::from_str(text).unwrap())
}

fn plain(value: &JsonValue) -> Value {
    to_serde(value)
}

fn parsed(text: &str) -> Value {
    serde_json::from_str(text).unwrap()
}

fn indexed(files: &[(&str, &str)]) -> (ClabStore, ClabIndex, Vec<FileEntry>) {
    let store = ClabStore::with_root("/tmp/clab-plan-repo/.clab-store");
    let entries: Vec<FileEntry> = files
        .iter()
        .map(|(path, text)| scan_file(path, text.len() as u64, text.to_string()))
        .collect();
    let git = GitProjectState { is_git: false, root_exists: true, branch: None, head_sha: None };
    let (index, _) = store.index_repository(ROOT, entries.clone(), git, 0);
    (store, index, entries)
}

fn request(profile: &str, query: &str, points: usize, chars: usize) -> JsonValue {
    json(&format!(
        r#"{{"profile": "{profile}", "query": "{query}", "scope": {{"roots": ["{ROOT}"]}},
            "budget": {{"max_primary_points": {points}, "max_total_response_chars": {chars}}}}}"#
    ))
}

fn plan_for(files: &[(&str, &str)], body: &JsonValue) -> Value {
    let (store, index, entries) = indexed(files);
    plain(&build_profile_plan(&store, &vec![index], &entries, body, ROOT, "cp_test"))
}

fn impact_step() -> PlanSearchStep {
    PlanSearchStep {
        kind: PlanSearchKind::Code,
        term: "target_symbol".to_string(),
        reason: "impact callsite match",
        confidence: 90,
    }
}

fn rank(results: &[&str]) -> Vec<Value> {
    let mut values: Vec<JsonValue> = results.iter().map(|r| json(r)).collect();
    rank_search_results("trace_impact", &impact_step(), &mut values);
    values.iter().map(plain).collect()
}

const CALLER_AND_TARGET: &str =
    "pub fn caller() { target_symbol(); }\npub fn target_symbol() {}\n";
const APPLY_AND_TARGET: &str = "pub fn apply() { target_symbol(); }\npub fn target_symbol() {}\n";
const LONG_QUERY: &str = "locate target_symbol entrypoint and identify main files involved";

#[test]
fn plan_search_steps_vary_by_profile() {
    let definition = plan_search_steps("find_definition", "Locate `target_symbol` handler");
    let impact = plan_search_steps("trace_impact", "Locate `target_symbol` handler");
    let bug = plan_search_steps("bug_investigation", "Locate `target_symbol` handler");
    assert_eq!(definition[0].kind, PlanSearchKind::Graph);
    assert_eq!(definition[0].reason, "profile symbol match");
    assert_eq!(impact[0].kind, PlanSearchKind::Code);
    assert_eq!(impact[0].reason, "impact callsite match");
    assert_eq!(bug[0].kind, PlanSearchKind::Code);
    assert_eq!(bug[0].term, "Locate `target_symbol` handler");
}

#[test]
fn plan_search_steps_prefer_symbol_like_terms_over_path_like_terms() {
    let steps = plan_search_steps(
        "trace_impact",
        "target_symbol .ai-bridge/current-plan.md .ai-bridge/amaze-plan.md",
    );
    assert!(steps.iter().any(|step| step.term == "target_symbol"));
    assert!(steps.iter().all(|step| !step.term.contains("current-plan.md")));
    assert!(steps.iter().all(|step| !step.term.contains("amaze-plan.md")));
}

#[test]
fn build_plan_points_preserves_search_fields() {
    let results = vec![json(
        r#"{"file": "src/main.rs", "start_line": 7, "snippet": "fn main() {}",
            "reason": "profile symbol match", "confidence": 0.95}"#,
    )];
    let points: Vec<Value> =
        build_plan_points("/tmp/workspace", &results, 3).iter().map(plain).collect();
    assert_eq!(points.len(), 1);
    assert_eq!(points[0]["point_id"], "pt_0_7");
    assert_eq!(points[0]["path"], "src/main.rs");
    assert_eq!(points[0]["relative_path"], "src/main.rs");
    assert_eq!(points[0]["absolute_path"], "/tmp/workspace/src/main.rs");
    assert_eq!(points[0]["start_line"], 7);
    assert_eq!(points[0]["end_line"], 7);
    assert_eq!(points[0]["snippet"], "fn main() {}");
    assert_eq!(points[0]["reason"], "profile symbol match");
    assert_eq!(points[0]["confidence"], 0.95);
}

#[test]
fn build_profile_plan_uses_profile_specific_matching() {
    let files = [("src/lib.rs", CALLER_AND_TARGET)];
    let definition = plan_for(&files, &request("find_definition", "target_symbol", 2, 4000));
    let impact = plan_for(&files, &request("trace_impact", "target_symbol", 2, 4000));
    let definition_primary = definition["primary"].as_array().unwrap();
    let impact_primary = impact["primary"].as_array().unwrap();
    assert_eq!(definition["profile"], "find_definition");
    assert_eq!(impact["profile"], "trace_impact");
    assert_eq!(definition_primary[0]["start_line"], 2);
    assert_eq!(definition_primary[0]["reason"], "profile symbol match");
    assert_eq!(impact_primary[0]["start_line"], 1);
    assert_eq!(impact_primary[0]["reason"], "impact callsite match");
}

#[test]
fn find_definition_ignores_generic_terms_when_symbol_matches_exist() {
    let text = "pub fn caller() { target_symbol(); }\npub fn target_symbol() {}\npub fn main_files() {}\n";
    let plan =
        plan_for(&[("src/lib.rs", text)], &request("find_definition", LONG_QUERY, 3, 4000));
    let primary = plan["primary"].as_array().unwrap();
    assert_eq!(primary[0]["start_line"], 2);
    assert!(primary
        .iter()
        .all(|point| point["snippet"].as_str().unwrap_or("").contains("target_symbol")));
}

#[test]
fn bug_investigation_prefers_src_results_over_test_files() {
    let noise = "fn test_one() { target_symbol(); }\nfn test_two() { target_symbol(); }\n";
    let plan = plan_for(
        &[("src/lib.rs", APPLY_AND_TARGET), ("tests/noise.rs", noise)],
        &request("bug_investigation", LONG_QUERY, 3, 4000),
    );
    let primary = plan["primary"].as_array().unwrap();
    assert_eq!(primary[0]["path"], "src/lib.rs");
    assert!(primary.iter().all(|point| point["path"] != "tests/noise.rs"));
}

#[test]
fn bug_investigation_stops_after_strong_lexical_hits() {
    let text = "pub fn apply() { target_symbol(); }\npub fn target_symbol() {}\nfn helper() { target_symbol(); }\n";
    let plan =
        plan_for(&[("src/lib.rs", text)], &request("bug_investigation", LONG_QUERY, 6, 4000));
    let primary = plan["primary"].as_array().unwrap();
    assert!(primary.iter().all(|point| point["path"] == "src/lib.rs"));
    assert!(primary.len() <= 3);
}

#[test]
fn bug_investigation_does_not_expand_to_secondary_symbols_after_hits() {
    let plan = plan_for(
        &[
            ("src/lib.rs", APPLY_AND_TARGET),
            ("src/secondary.rs", "pub fn main_files() {}\npub fn handler() {}\n"),
        ],
        &request(
            "bug_investigation",
            "locate target_symbol entrypoint and identify main files involved handler",
            6,
            4000,
        ),
    );
    let primary = plan["primary"].as_array().unwrap();
    assert!(primary.iter().all(|point| point["path"] == "src/lib.rs"));
}

#[test]
fn test_context_detection_reaches_longer_test_bodies() {
    let text = "#[test]\nfn test_route() {\n    let a = 1;\n    let b = 2;\n    let c = 3;\n    let d = 4;\n    let e = 5;\n    let f = 6;\n    let g = 7;\n    let h = 8;\n    let i = 9;\n    let j = 10;\n    let k = 11;\n    let l = 12;\n    target_symbol();\n}\n";
    assert!(is_test_context_line(text, 15));
}

#[test]
fn trace_impact_prefers_src_callsites_over_test_noise() {
    let noise = "fn test_one() { target_symbol(); }\nfn test_two() { target_symbol(); }\nfn test_three() { target_symbol(); }\n";
    let plan = plan_for(
        &[("src/lib.rs", APPLY_AND_TARGET), ("tests/noise.rs", noise)],
        &request("trace_impact", LONG_QUERY, 3, 4000),
    );
    let primary = plan["primary"].as_array().unwrap();
    assert_eq!(primary[0]["path"], "src/lib.rs");
    assert_eq!(primary[0]["start_line"], 1);
    assert!(primary.iter().all(|point| point["path"] != "tests/noise.rs"));
}

#[test]
fn trace_impact_ranking_penalizes_test_like_snippets() {
    let results = rank(&[
        r#"{"file": "tests/noise.rs", "start_line": 10, "snippet": "fn test_route() { target_symbol(); assert!(true); }"}"#,
        r#"{"file": "crates/clab-daemon/src/lib.rs", "start_line": 20, "snippet": "pub fn apply() { target_symbol(); }"}"#,
    ]);
    assert_eq!(results[0]["start_line"], 20);
}

#[test]
fn trace_impact_prefers_dispatch_over_quoted_symbol_list_entries() {
    let results = rank(&[
        r#"{"file": "crates/clab-daemon/src/lib.rs", "start_line": 10, "snippet": "    \"target_symbol\","}"#,
        r#"{"file": "crates/clab-daemon/src/lib.rs", "start_line": 20, "snippet": "\"target_symbol\" => target_symbol(store, args),"}"#,
    ]);
    assert_eq!(results[0]["start_line"], 20);
}

#[test]
fn trace_impact_prefers_dispatch_over_term_assignment_lines() {
    let results = rank(&[
        r#"{"file": "crates/clab-daemon/src/lib.rs", "start_line": 10, "snippet": "term: \"target_symbol\".to_string(),"}"#,
        r#"{"file": "crates/clab-daemon/src/lib.rs", "start_line": 20, "snippet": "\"target_symbol\" => target_symbol(store, args),"}"#,
    ]);
    assert_eq!(results[0]["start_line"], 20);
}

#[test]
fn trace_impact_ranking_penalizes_embedded_fixture_snippets() {
    let results = rank(&[
        r#"{"file": "crates/clab-daemon/src/lib.rs", "start_line": 10, "snippet": "\"snippet\": \"pub fn caller() { target_symbol(); }\""}"#,
        r#"{"file": "crates/clab-daemon/src/lib.rs", "start_line": 20, "snippet": "pub fn caller() { target_symbol(); }"}"#,
    ]);
    assert_eq!(results[0]["start_line"], 20);
}

#[test]
fn trace_impact_prefers_dispatch_callsites_over_helper_mentions() {
    let results = rank(&[
        r#"{"file": "crates/clab-daemon/src/lib.rs", "start_line": 10, "snippet": "let definition = plan_search_steps(\"find_definition\", \"Locate `target_symbol` handler\");"}"#,
        r#"{"file": "crates/clab-daemon/src/lib.rs", "start_line": 20, "snippet": "\"target_symbol\" => target_symbol(store, args),"}"#,
    ]);
    assert_eq!(results[0]["start_line"], 20);
}

#[test]
fn trace_impact_prefers_source_dispatch_over_wrapper_docs() {
    let results = rank(&[
        r#"{"file": "scripts/adapter.mjs", "start_line": 31, "snippet": "target_symbol tool. The adapter is plan-only and does not edit source files."}"#,
        r#"{"file": "crates/clab-daemon/src/lib.rs", "start_line": 307, "snippet": "\"target_symbol\" => target_symbol(store, args),"}"#,
    ]);
    assert_eq!(results[0]["file"], "crates/clab-daemon/src/lib.rs");
}

#[test]
fn trace_impact_prefers_source_results_over_wrapper_files_in_plans() {
    let helper = "target_symbol tool. The adapter is plan-only and does not edit source files.\nconst call = target_symbol;\n";
    let plan = plan_for(
        &[("scripts/helper.mjs", helper), ("src/lib.rs", APPLY_AND_TARGET)],
        &request("trace_impact", LONG_QUERY, 4, 4000),
    );
    let primary = plan["primary"].as_array().unwrap();
    assert!(primary.iter().all(|point| point["path"] != "scripts/helper.mjs"));
}

#[test]
fn trace_impact_excludes_helper_string_mentions_when_callsites_exist() {
    let text = "pub fn apply() { target_symbol(); }\npub fn target_symbol() {}\nlet helper = \"Locate `target_symbol` handler\";\nlet fixture = \"\\\"snippet\\\": \\\"pub fn caller() { target_symbol(); }\\\"\";\n";
    let plan = plan_for(&[("src/lib.rs", text)], &request("trace_impact", LONG_QUERY, 4, 4000));
    let primary = plan["primary"].as_array().unwrap();
    assert!(primary.iter().all(|point| {
        let snippet = point["snippet"].as_str().unwrap_or("");
        !snippet.contains("Locate `target_symbol` handler") && !snippet.contains("\\\"snippet\\\":")
    }));
}

#[test]
fn trace_impact_prefers_operational_callsites_over_query_setup_lines() {
    let results = rank(&[
        r#"{"file": "crates/clab-daemon/src/lib.rs", "start_line": 10, "snippet": "\"query\": \"target_symbol\","}"#,
        r#"{"file": "crates/clab-daemon/src/lib.rs", "start_line": 20, "snippet": "\"target_symbol\" => target_symbol(store, args),"}"#,
    ]);
    assert_eq!(results[0]["start_line"], 20);
}

#[test]
fn test_context_detection_flags_lines_after_test_attribute() {
    let text = "#[test]\nfn test_route() {\n    target_symbol();\n}\n";
    assert!(is_test_context_line(text, 3));
    assert!(!is_test_context_line(text, 1));
}

#[test]
fn follow_up_calls_prefer_symbol_over_path_hint() {
    let next = recommend_follow_up_calls(
        "trace_impact",
        "cp_test",
        "exercise target_symbol bridge",
        &vec![json(
            r#"{"point_id": "pt_0_1", "path": "crates/clab-daemon/src/lib.rs",
                "snippet": "pub fn target_symbol() {}"}"#,
        )],
    );
    assert!(next.iter().any(|item| item.contains("function_name=\"target_symbol\"")));
    assert!(next.iter().all(|item| !item.contains("function_name=\"clab-daemon\"")
        && !item.contains("function_name=\"crates/clab-daemon/src/lib.rs\"")));
}

#[test]
fn primary_symbol_hint_prefers_embedded_symbol_over_path_token() {
    let symbol = primary_symbol_hint(&vec![json(
        r#"{"path": "crates/clab-daemon/src/lib.rs",
            "snippet": "json!({\"file\": \"crates/clab-daemon/src/lib.rs\", \"snippet\": \"pub fn apply() { target_symbol(); }\"})"}"#,
    )]);
    assert_eq!(symbol.as_deref(), Some("target_symbol"));
}

#[test]
fn follow_up_calls_fallback_to_query_before_path_hint() {
    let next = recommend_follow_up_calls(
        "trace_impact",
        "cp_test",
        "exercise target_symbol bridge",
        &vec![json(
            r#"{"point_id": "pt_0_1", "path": "crates/clab-daemon/src/lib.rs",
                "snippet": "pub fn route() {}"}"#,
        )],
    );
    assert!(next.iter().any(|item| item.contains("function_name=\"target_symbol\"")));
    assert!(next.iter().all(|item| !item.contains("function_name=\"clab-daemon\"")
        && !item.contains("function_name=\"crates/clab-daemon/src/lib.rs\"")));
}

#[test]
fn build_profile_plan_generates_unique_plan_ids() {
    let (store, index, files) = indexed(&[("src/lib.rs", "pub fn target_symbol() {}\n")]);
    let body = request("find_definition", "target_symbol", 1, 2000);
    let indexes = vec![index];
    let nanos: u128 = 1_700_000_000_000_000_000;
    let first_id = unique_plan_id(nanos, 4242, 0);
    let second_id = unique_plan_id(nanos, 4242, 1);
    let first = plain(&build_profile_plan(&store, &indexes, &files, &body, ROOT, &first_id));
    let second = plain(&build_profile_plan(&store, &indexes, &files, &body, ROOT, &second_id));
    assert_ne!(first["plan_id"], second["plan_id"]);
}

#[test]
fn build_profile_plan_emits_profile_follow_up_calls() {
    let files = [("src/lib.rs", CALLER_AND_TARGET)];
    let definition = plan_for(&files, &request("find_definition", "target_symbol", 2, 4000));
    let impact = plan_for(&files, &request("trace_impact", "target_symbol", 2, 4000));
    let definition_next = definition["next"].as_array().unwrap();
    let impact_next = impact["next"].as_array().unwrap();
    assert!(!definition_next.is_empty());
    assert!(!impact_next.is_empty());
    assert!(definition_next
        .iter()
        .any(|item| item.as_str().is_some_and(|text| text.contains("clab_snippet"))));
    assert!(impact_next
        .iter()
        .any(|item| item.as_str().is_some_and(|text| text.contains("clab_trace"))));
}

#[test]
fn plan_ids_are_hexadecimal_and_distinct() {
    assert_eq!(unique_plan_id(255, 16, 0), "cp_ff_10_0");
    assert_eq!(unique_plan_id(u128::MAX, 1, 10), format!("cp_{:x}_1_a", u128::MAX));
    assert_ne!(unique_plan_id(1, 11, 1), unique_plan_id(11, 1, 1));
}

#[test]
fn query_terms_are_lowercase_distinct_and_long_enough() {
    assert_eq!(
        query_terms("Find FOO_bar, foo_BAR in src/lib.rs: the end!"),
        vec!["find".to_string(), "foo_bar".to_string(), "src/lib.rs".to_string()]
    );
    assert!(query_terms("a bc def !!!").is_empty());
    assert_eq!(query_terms("été"), vec!["été".to_string()]);
    let mut terms = Vec::new();
    push_term(&mut terms, "  (Word)  ");
    push_term(&mut terms, "word");
    push_term(&mut terms, "wor");
    assert_eq!(terms, vec!["word".to_string()]);
    admit_term(&mut terms, "more".to_string());
    admit_term(&mut terms, "more".to_string());
    assert_eq!(terms.len(), 2);
}

#[test]
fn terms_of_ascii_queries_do_not_depend_on_case() {
    let query = "Trace-Path: fix FOO_bar.rs (foo_bar.rs) in a/B/c1 and END";
    let terms = query_terms(query);
    assert_eq!(terms, vec!["trace-path", "foo_bar.rs", "a/b/c1"]);
    assert_eq!(query_terms(&query.to_uppercase()), terms);
    assert_eq!(query_terms(&query.to_lowercase()), terms);
    assert_eq!(query_terms(&terms.join(" ")), terms);
}

#[test]
fn blank_queries_are_not_searched_for() {
    for blank in ["", " ", "\t\n", "\u{2003}\u{a0}"] {
        assert!(query_terms(blank).is_empty());
        for profile in ["find_definition", "trace_impact", "bug_investigation"] {
            assert!(plan_search_steps(profile, blank).is_empty());
        }
    }
    assert_eq!(plan_search_steps("trace_impact", " ? ").len(), 1);
}

#[test]
fn marked_words_are_the_longest_runs() {
    let chars: Vec<char> = "ab c de".chars().collect();
    let marks: Vec<bool> = chars.iter().map(|c| *c != ' ').collect();
    assert_eq!(
        marked_words(&chars, &marks),
        vec!["ab".to_string(), "c".to_string(), "de".to_string()]
    );
}

#[test]
fn terms_are_told_apart_by_their_look() {
    assert!(is_codeish_term("a-b") && is_codeish_term("a/b") && is_codeish_term("a.b"));
    assert!(!is_codeish_term("word"));
    assert!(is_symbol_like_term("target_symbol"));
    assert!(!is_symbol_like_term("src/target_symbol"));
    assert!(!is_symbol_like_term("target-symbol"));
}

#[test]
fn searches_of_a_plan_are_distinct() {
    for profile in ["find_definition", "trace_impact", "bug_investigation", "other"] {
        let steps = plan_search_steps(profile, "target_symbol handler target_symbol");
        assert!(!steps.is_empty());
        for (i, a) in steps.iter().enumerate() {
            assert!(!a.term.is_empty() && a.confidence <= 100);
            assert!(steps[i + 1..].iter().all(|b| b.kind != a.kind || b.term != a.term));
        }
    }
    assert!(plan_search_steps("find_definition", "   ").is_empty());
}

#[test]
fn searches_carry_their_confidence() {
    let terms = vec!["handler".to_string(), "target_symbol".to_string()];
    let bug = steps_for_terms("bug_investigation", "q", &terms);
    let shown: Vec<(PlanSearchKind, &str, u32)> =
        bug.iter().map(|s| (s.kind, s.term.as_str(), s.confidence)).collect();
    assert_eq!(
        shown,
        vec![
            (PlanSearchKind::Code, "q", 70),
            (PlanSearchKind::Code, "target_symbol", 82),
            (PlanSearchKind::Code, "handler", 68),
            (PlanSearchKind::Graph, "target_symbol", 66),
            (PlanSearchKind::Graph, "handler", 58),
        ]
    );
    let definition = steps_for_terms("find_definition", "q", &terms);
    assert_eq!(definition.len(), 2);
    assert_eq!(definition[0].confidence, 95);
    assert_eq!(definition[1].confidence, 72);
    let impact = steps_for_terms("trace_impact", "q", &vec!["handler".to_string()]);
    assert_eq!(impact[0].confidence, 70);
    assert_eq!(impact[1].confidence, 64);
    let fallback = steps_for_terms("trace_impact", "q", &vec![]);
    assert_eq!(fallback.len(), 1);
    assert_eq!(fallback[0].reason, "fallback lexical match");
    assert_eq!(fallback[0].confidence, 50);
}

#[test]
fn a_search_is_not_made_twice() {
    let mut steps = Vec::new();
    push_search_step(&mut steps, PlanSearchKind::Code, "x", "first", 10);
    push_search_step(&mut steps, PlanSearchKind::Code, "x", "second", 20);
    push_search_step(&mut steps, PlanSearchKind::Code, "", "empty", 20);
    push_search_step(&mut steps, PlanSearchKind::Graph, "x", "third", 30);
    assert_eq!(steps.len(), 2);
    assert_eq!(steps[0].reason, "first");
}

fn texts(snippet: &str, path: &str, name: &str, penalty: i32) -> ResultTexts {
    ResultTexts {
        snippet: snippet.to_string(),
        declared: snippet.to_string(),
        path: path.to_string(),
        name: name.to_string(),
        penalty,
    }
}

#[test]
fn scores_add_up() {
    let definition = texts("pub fn target() {}", "src/lib.rs", "", 0);
    assert_eq!(score_texts("find_definition", "target", &definition), 130);
    assert_eq!(score_texts("trace_impact", "target", &definition), 20);
    assert_eq!(score_texts("anything", "target", &definition), 50);
    let call = texts("  target(1);", "lib/x.rs", "", 5);
    assert_eq!(score_texts("find_definition", "target", &call), 30);
    assert_eq!(score_texts("trace_impact", "target", &call), 105);
    assert_eq!(score_texts("anything", "target", &call), 65);
    let quoted = texts(" 'target', ", "a/src/b", "", 0);
    assert_eq!(score_texts("trace_impact", "target", &quoted), -10);
    let fixture = texts("\"query\": 1", "x", "target", 0);
    assert_eq!(score_texts("find_definition", "target", &fixture), 40);
    assert!(defines("class Target", "Target"));
    assert!(!defines("klass Target", "Target"));
    assert!(is_definition_snippet("PUB STRUCT target", "target"));
}

#[test]
fn penalties_are_read_as_integers() {
    let step = impact_step();
    let bare = profile_result_score("trace_impact", &step, &json(r#"{"context_penalty": 80}"#));
    assert_eq!(bare, -80);
    let wrapped = json(r#"{"context_penalty": 4294967297}"#);
    assert_eq!(profile_result_score("trace_impact", &step, &wrapped), -1);
    assert_eq!(context_penalty(&wrapped), 4294967297);
    let lowest = json(r#"{"context_penalty": -2147483648}"#);
    assert_eq!(profile_result_score("trace_impact", &step, &lowest), 2147483648);
    assert_eq!(context_penalty(&json(r#"{"context_penalty": "80"}"#)), 0);
}

#[test]
fn results_of_one_score_go_by_their_keys() {
    let results = rank(&[
        r#"{"path": "b.rs", "line": 2, "snippet": "x"}"#,
        r#"{"file": "a.rs", "line": 10, "snippet": "x"}"#,
        r#"{"file": "a.rs", "line": 9, "snippet": "x"}"#,
    ]);
    assert_eq!(results[0]["line"], 10);
    assert_eq!(results[1]["line"], 9);
    assert_eq!(results[2]["path"], "b.rs");
    assert_eq!(result_key(&json(r#"{"path": "p", "line": 3, "name": "n"}"#)), "p:3:n");
    assert_eq!(result_key(&json("{}")), ":0:");
}

#[test]
fn results_are_classed_without_regard_to_case() {
    assert!(is_test_like_result(&json(r#"{"file": "Tests/a.rs"}"#)));
    assert!(is_test_like_result(&json(r#"{"file": "a.rs", "snippet": "ASSERT_EQ!(1, 1)"}"#)));
    assert!(!is_test_like_result(&json(r#"{"file": "a.rs", "snippet": "x"}"#)));
    assert!(is_helper_like_result(&json(r#"{"snippet": " \"a list entry\", "}"#)));
    assert!(!is_helper_like_result(&json(r#"{"snippet": "plain"}"#)));
    assert!(is_source_like_result(&json(r#"{"path": "SRC/a.c"}"#)));
    assert!(is_source_like_result(&json(r#"{"path": "x/A.RS"}"#)));
    assert!(!is_source_like_result(&json(r#"{"path": "docs/a.md"}"#)));
}

#[test]
fn lines_in_tests_are_penalized() {
    let text = "#[cfg(test)]\nmod tests {\n    fn check() { target_symbol(); }\n}\n";
    let files = vec![scan_file("src/lib.rs", 10, text.to_string())];
    let inside = json(r#"{"file": "src/lib.rs", "start_line": 3}"#);
    assert_eq!(contextual_result_penalty(&files, &inside), 80);
    assert_eq!(contextual_result_penalty(&files, &json(r#"{"file": "src/lib.rs", "line": 1}"#)), 0);
    assert_eq!(contextual_result_penalty(&files, &json(r#"{"file": "src/lib.rs"}"#)), 0);
    assert_eq!(contextual_result_penalty(&files, &json(r#"{"file": "gone", "line": 3}"#)), 0);
    let mut far = "#[test]\n".to_string();
    far.push_str(&"x\n".repeat(40));
    assert!(is_test_context_line(&far, 33));
    assert!(!is_test_context_line(&far, 34));
    assert!(!is_test_context_line("#[test]\n", 0));
    assert!(is_test_context_line("#[test]\n", 500));
}

#[test]
fn normalized_results_are_completed() {
    let step = impact_step();
    let search = json(
        r#"{"results": [{"file": "src/a.rs", "name": "target_symbol", "label": "fn", "line": 4},
            {"file": "src/b.rs", "name": "other", "line": 1, "reason": "kept"}]}"#,
    );
    let results: Vec<Value> =
        normalize_search_results(&vec![], "find_definition", &step, &search).iter().map(plain).collect();
    assert_eq!(results.len(), 2);
    assert_eq!(results[0]["snippet"], "fn target_symbol");
    assert_eq!(results[0]["confidence"], 0.9);
    assert_eq!(results[0]["reason"], "impact callsite match");
    assert_eq!(results[1]["snippet"], "symbol other");
    assert_eq!(results[1]["reason"], "kept");
    assert!(plan_search_results(&json(r#"{"results": 3}"#)).is_empty());
}

#[test]
fn normalized_results_leave_tests_out_where_there_are_others() {
    let text = "#[test]\nfn test_it() {\n    target_symbol();\n}\nfn run() { target_symbol(); }\n";
    let files = vec![scan_file("src/lib.rs", 10, text.to_string())];
    let far = text.replace("fn run", &format!("{}fn run", "\n".repeat(40)));
    let moved = vec![scan_file("src/lib.rs", 10, far)];
    let search = json(
        r#"{"results": [{"file": "src/lib.rs", "line": 3, "snippet": "    target_symbol();"},
            {"file": "src/lib.rs", "line": 45, "snippet": "fn run() { target_symbol(); }"}]}"#,
    );
    let kept: Vec<Value> =
        normalize_search_results(&moved, "trace_impact", &impact_step(), &search).iter().map(plain).collect();
    assert_eq!(kept.len(), 1);
    assert_eq!(kept[0]["line"], 45);
    let only = json(r#"{"results": [{"file": "src/lib.rs", "line": 3, "snippet": "    target_symbol();"}]}"#);
    let kept: Vec<Value> =
        normalize_search_results(&files, "trace_impact", &impact_step(), &only).iter().map(plain).collect();
    assert_eq!(kept.len(), 1);
    assert_eq!(kept[0]["context_penalty"], 80);
}

#[test]
fn merging_stops_at_the_limit_and_keeps_keys_distinct() {
    let mut results = vec![json(r#"{"file": "a", "line": 1}"#)];
    let incoming = vec![
        json(r#"{"path": "a", "start_line": 1}"#),
        json(r#"{"file": "b", "line": 1}"#),
        json(r#"{"file": "c", "line": 1}"#),
    ];
    merge_plan_results(&mut results, incoming, 2);
    let files: Vec<Value> = results.iter().map(|r| plain(r)["file"].clone()).collect();
    assert_eq!(files, vec![Value::from("a"), Value::from("b")]);
}

#[test]
fn finalized_results_prefer_clean_ones() {
    let all = vec![
        json(r#"{"file": "a", "context_penalty": 80}"#),
        json(r#"{"file": "tests/b"}"#),
        json(r#"{"file": "c"}"#),
    ];
    let copies = || all.iter().map(Clone::clone).collect::<Vec<JsonValue>>();
    assert_eq!(finalize_plan_results("find_definition", copies()).len(), 2);
    assert_eq!(finalize_plan_results("trace_impact", copies()).len(), 1);
    assert_eq!(finalize_plan_results("bug_investigation", vec![]).len(), 0);
    let only = vec![json(r#"{"file": "a", "context_penalty": 80}"#)];
    assert_eq!(finalize_plan_results("trace_impact", only).len(), 1);
}

#[test]
fn preferences_choose_among_results() {
    let all = vec![
        json(r#"{"file": "notes.md", "context_penalty": 80}"#),
        json(r#"{"file": "src/a.rs"}"#),
    ];
    let copies = || all.iter().map(Clone::clone).collect::<Vec<JsonValue>>();
    for preference in [Preference::Sources, Preference::Clean] {
        let kept = prefer(copies(), preference);
        assert_eq!(kept.len(), 1);
        assert_eq!(plain(&kept[0])["file"], "src/a.rs");
    }
    let tests = vec![json(r#"{"file": "tests/a.rs"}"#), json(r#"{"file": "src/a.rs"}"#)];
    assert_eq!(plain(&prefer(tests, Preference::NoTests)[0])["file"], "src/a.rs");
    let only = vec![json(r#"{"file": "tests/a.rs"}"#)];
    assert_eq!(prefer(only, Preference::NoTests).len(), 1);
    let plain_ones = prefer(copies(), Preference::NoHelpers);
    assert_eq!(plain_ones.len(), 2);
}

#[test]
fn a_search_of_a_plan_asks_for_its_term_in_its_project() {
    let step = PlanSearchStep {
        kind: PlanSearchKind::Code,
        term: "Target".to_string(),
        reason: "r",
        confidence: 80,
    };
    assert_eq!(
        step_request("demo", &step, 3),
        SearchRequest {
            pattern: "target".to_string(),
            limit: 24,
            project: Some("demo".to_string()),
        }
    );
}

#[test]
fn one_search_fetches_more_than_it_shows() {
    let text: String = (0..20).map(|n| format!("fn target_{n}() {{}}\n")).collect();
    let (store, index, files) = indexed(&[("src/lib.rs", &text)]);
    let step = PlanSearchStep {
        kind: PlanSearchKind::Graph,
        term: "TARGET".to_string(),
        reason: "r",
        confidence: 80,
    };
    let indexes = vec![index];
    let found = search_step_results(&store, &indexes, &files, "p", "find_definition", &step, 1);
    assert_eq!(found.len(), 8);
    let found = search_step_results(&store, &indexes, &files, "p", "find_definition", &step, 3);
    assert_eq!(found.len(), 12);
    let none = search_step_results(&store, &vec![], &files, "p", "find_definition", &step, 3);
    assert!(none.is_empty());
}

#[test]
fn plan_searches_are_bounded_and_rated() {
    let text: String = (0..20).map(|n| format!("fn target_{n}() {{}}\n")).collect();
    let (store, index, files) = indexed(&[("src/lib.rs", &text)]);
    let indexes = vec![index];
    for profile in ["find_definition", "trace_impact", "bug_investigation"] {
        for max in [0usize, 1, 5] {
            let search =
                search_plan_matches(&store, &indexes, &files, "p", profile, "target_1 target_2", max);
            let rows = plain(&search)["results"].as_array().unwrap().clone();
            assert!(rows.len() <= max.max(1));
            assert!(rows.iter().all(|r| r["reason"].is_string()));
            assert!(rows.iter().all(|r| r["confidence"].as_f64().unwrap() <= 1.0));
        }
    }
}

#[test]
fn points_have_defaults_and_a_limit() {
    let results = vec![json("{}"), json(r#"{"path": "/abs.rs", "line": 3}"#), json("{}")];
    let points: Vec<Value> = build_plan_points("/w", &results, 2).iter().map(plain).collect();
    assert_eq!(points.len(), 2);
    assert_eq!(
        points[0],
        parsed(
            r#"{"point_id": "pt_0_1", "path": "", "relative_path": "", "absolute_path": "/w/",
                "start_line": 1, "end_line": 1, "line_count": 1, "snippet": "",
                "reason": "clab lexical match", "confidence": 0.5,
                "cluster_id": "cluster_primary"}"#
        )
    );
    assert_eq!(points[1]["point_id"], "pt_1_3");
    assert_eq!(points[1]["absolute_path"], "/abs.rs");
    assert_eq!(points_len(&json(r#"{"results": [1, 2, 3]}"#), 2), 2);
    assert_eq!(points_len(&json(r#"{"results": [1, 2, 3]}"#), 5), 3);
    assert_eq!(points_len(&json("{}"), 5), 0);
}

#[test]
fn symbols_are_chosen_from_terms() {
    let words = |list: &[&str]| list.iter().map(|w| w.to_string()).collect::<Vec<String>>();
    assert_eq!(
        symbol_in_terms(&words(&["a_b", "clab-core"]), &words(&["clab"])),
        Some("clab-core".to_string())
    );
    assert_eq!(
        symbol_in_terms(&words(&["a/b", "c_d"]), &words(&["clab"])),
        Some("c_d".to_string())
    );
    assert_eq!(symbol_in_terms(&words(&["word"]), &words(&["clab"])), Some("clab".to_string()));
    assert_eq!(symbol_in_terms(&words(&["word"]), &words(&["clab/x"])), None);
    assert_eq!(follow_up_symbol(Some("s".to_string()), &words(&["a_b"])), "s");
    assert_eq!(follow_up_symbol(None, &words(&["word", "a_b"])), "a_b");
    assert_eq!(follow_up_symbol(None, &words(&["abc", "word"])), "word");
    assert_eq!(follow_up_symbol(None, &words(&[])), "target_symbol");
}

#[test]
fn follow_up_calls_are_spelled_out() {
    assert_eq!(
        follow_up_calls("find_definition", "cp_1", "sym", "pt_0_2", "a.rs"),
        vec![
            "clab_read_points(plan_id=\"cp_1\", point_ids=[\"pt_0_2\"]) to inspect the strongest definition candidate first.".to_string(),
            "clab_snippet(qualified_name=\"sym\") to recover the owning declaration and nearby context.".to_string(),
            "clab_trace(function_name=\"sym\", direction=\"inbound\", depth=1) to find immediate callers after the definition is confirmed.".to_string(),
        ]
    );
    assert_eq!(
        follow_up_calls("trace_impact", "cp_1", "sym", "pt_0_2", "a.rs")[2],
        "clab_search_code(pattern=\"sym\", file_pattern=\"a.rs\", context=6) to inspect the local callsite and surrounding state changes."
    );
    assert_eq!(
        follow_up_calls("other", "cp_1", "sym", "pt_0_2", "a.rs")[1],
        "clab_search_code(pattern=\"sym\", context=6) to gather adjacent lexical evidence before widening scope."
    );
    let none = recommend_follow_up_calls("other", "cp_1", "", &vec![]);
    assert!(none[0].contains("pt_0_1") && none[1].contains("target_symbol"));
}

#[test]
fn requests_have_defaults() {
    assert_eq!(profile_name(&json("{}")), "find_definition");
    assert_eq!(profile_name(&json(r#"{"profile": "trace_impact"}"#)), "trace_impact");
    let (budget, points, chars) = profile_budget(&json("{}"));
    assert_eq!(plain(&budget), parsed("{}"));
    assert_eq!((points, chars), (3, 16_000));
    let (_, points, chars) =
        profile_budget(&json(r#"{"budget": {"max_primary_points": 9, "max_total_response_chars": 1}}"#));
    assert_eq!((points, chars), (9, 1));
    assert_eq!(profile_root(&json("{}")), None);
    assert_eq!(
        profile_root(&json(r#"{"scope": {"roots": [7], "path": "/p"}}"#)),
        Some("/p".to_string())
    );
    assert_eq!(
        profile_root(&json(r#"{"scope": {"roots": ["/r", "/s"], "path": "/p"}}"#)),
        Some("/r".to_string())
    );
    assert_eq!(env_project_path(Some("/a"), Some("/b")), Some("/a".to_string()));
    assert_eq!(env_project_path(None, Some("/b")), Some("/b".to_string()));
    assert_eq!(env_project_path(None, None), None);
    assert_eq!(plan_root(&json("{}"), Some("/env")), "/env");
    assert_eq!(plan_root(&json("{}"), None), ".");
}

#[test]
fn plans_account_for_their_budget() {
    assert_eq!(budgeted_chars("abc", 1000), 515);
    assert_eq!(budgeted_chars("abc", 514), 514);
    assert_eq!(budgeted_chars("abc", 0), 0);
    assert_eq!(budgeted_chars("é", 1000), 514);
    let search = json(r#"{"results": [{"file": "a.rs", "line": 2}]}"#);
    let body = json(r#"{"query": "word", "constraints": {"k": [1]}}"#);
    let plan = plain(&plan_from_search(&body, "/w", &search, "cp_7"));
    assert_eq!(plan["ok"], true);
    assert_eq!(plan["plan_id"], "cp_7");
    assert_eq!(plan["profile"], "find_definition");
    assert_eq!(plan["constraints"], parsed(r#"{"k": [1]}"#));
    assert_eq!(plan["budget"], parsed("{}"));
    assert_eq!(plan["deferred_clusters"], parsed("[]"));
    assert_eq!(plan["search_scope"], parsed(r#"{"effective_roots": ["/w"]}"#));
    let size = plain(&search).to_string().len() + 512;
    assert_eq!(
        plan["budget_used"],
        parsed(&format!(
            r#"{{"primary_points": 1, "primary_files": 1, "primary_lines": 1, "response_chars": {size}}}"#
        ))
    );
    assert_eq!(plan["next"].as_array().unwrap().len(), 3);
}

#[test]
fn written_plans_give_their_points_back() {
    let (store, index, files) = indexed(&[("src/lib.rs", CALLER_AND_TARGET)]);
    let body = request("trace_impact", "target_symbol", 5, 4000);
    let plan = build_profile_plan(&store, &vec![index], &files, &body, ROOT, "cp_9");
    let directory = plan_dir(Some("/data"), None);
    assert_eq!(directory, "/data/plans");
    let file = write_plan(&directory, &plan);
    assert_eq!(file.path, "/data/plans/cp_9.json");
    let all = read_plan_points(&file.bytes, &json(r#"{"plan_id": "cp_9"}"#)).unwrap();
    assert_eq!(plan_path(&directory, &json(r#"{"plan_id": "cp_9"}"#)), file.path);
    let shown: Vec<Value> = all.iter().map(plain).collect();
    assert_eq!(Value::Array(shown.clone()), plain(&plan)["primary"]);
    assert!(shown.len() >= 2);
    let id = shown[1]["point_id"].as_str().unwrap();
    let one = read_plan_points(&file.bytes, &json(&format!(r#"{{"point_ids": [3, "{id}"]}}"#))).unwrap();
    assert_eq!(one.len(), 1);
    assert_eq!(plain(&one[0])["point_id"], id);
    let none = select_points(&plan, &json(r#"{"point_ids": ["pt_9_9"]}"#));
    assert!(none.is_empty());
    assert_eq!(select_points(&plan, &json(r#"{"point_ids": []}"#)).len(), shown.len());
}

#[test]
fn broken_plans_are_answered_with_the_reason() {
    let body = json(r#"{"plan_id": "cp_1"}"#);
    let reason = match read_plan_points(b"{not json", &body) {
        Ok(_) => panic!("read"),
        Err(e) => e,
    };
    let expected = serde_json::from_str::<Value>("{not json").unwrap_err().to_string();
    assert_eq!(reason, expected);
    let reply = plain(&profile_read(&body, Err(reason.clone())));
    assert_eq!(reply["ok"], false);
    assert_eq!(reply["error"], reason.as_str());
    assert_eq!(reply["points"], parsed("[]"));
    assert_eq!(plain(&profile_validate(&body, Err("gone".to_string())))["error"], "gone");
}

#[test]
fn points_are_answered() {
    let body = json(r#"{"plan_id": "cp_1", "cluster_id": "c"}"#);
    let points = || vec![json(r#"{"point_id": "a"}"#)];
    let reply = plain(&profile_read(&body, Ok(points())));
    assert_eq!(reply, parsed(r#"{"ok": true, "plan_id": "cp_1", "points": [{"point_id": "a"}]}"#));
    let reply = plain(&profile_validate(&json("{}"), Ok(points())));
    assert_eq!(
        reply,
        parsed(r#"{"ok": true, "plan_id": null, "points": [{"point_id": "a", "fresh": true}]}"#)
    );
    assert_eq!(
        plain(&profile_expand(&body)),
        parsed(
            r#"{"ok": true, "plan_id": "cp_1", "cluster_id": "c", "cluster": "c", "points": [],
                "budget_used": {"primary_points": 0, "primary_files": 0, "primary_lines": 0},
                "truncated": false}"#
        )
    );
}

#[test]
fn scoped_arguments_name_a_project() {
    let body = json(r#"{"path": "/srv/app", "cwd": "/", "scope": 1, "roots": [], "max_parent_depth": 2, "limit": 3}"#);
    assert_eq!(plain(&scoped_tool_args(&body, "p")), parsed(r#"{"limit": 3, "project": "p"}"#));
    assert_eq!(
        plain(&scoped_tool_args(&json(r#"{"project": "q"}"#), "p")),
        parsed(r#"{"project": "q"}"#)
    );
    assert_eq!(
        plain(&graph_search_args(&body, "p")),
        parsed(r#"{"limit": 3, "project": "p", "query": ""}"#)
    );
    assert_eq!(
        plain(&code_search_args(&json(r#"{"pattern": 7}"#), "p")),
        parsed(r#"{"project": "p", "pattern": 7}"#)
    );
    assert_eq!(scope_request_root(&body, Some("/env")), "/srv/app");
    assert_eq!(scope_request_root(&json("{}"), Some("/env")), "/env");
    assert_eq!(project_for_scope(&body, None), "srv-app");
    assert!(names_project(&json(r#"{"project": "q"}"#)));
    assert!(!names_project(&json(r#"{"project": 1}"#)));
}

#[test]
fn calls_that_name_their_tool_get_a_project() {
    let body = json(r#"{"tool": "search_code", "arguments": {"pattern": "x"}}"#);
    let (tool, args) = codebase_call(&body, "p");
    assert_eq!(tool, "search_code");
    assert_eq!(plain(&args), parsed(r#"{"pattern": "x", "project": "p"}"#));
    assert!(!call_names_project(&body));
    let (tool, args) = codebase_call(&json("{}"), "p");
    assert_eq!(tool, "");
    assert_eq!(plain(&args), parsed(r#"{"project": "p"}"#));
    assert!(call_names_project(&json(r#"{"arguments": {"project": "q"}}"#)));
}

#[test]
fn json_goes_out_and_comes_back() {
    let text = r#"{"a":[1,-2,0.5,null,true],"b":{"c":"x\n"}}"#;
    let value = parse(text.as_bytes()).unwrap();
    assert_eq!(render(&value), text);
    assert_eq!(plain(&value), parsed(text));
    assert_eq!(render(&value.clone()), text);
    assert_eq!(render(&json(r#"{"b": 1, "a": 2.50}"#)), r#"{"a":2.5,"b":1}"#);
    assert!(parse(b"[1,").is_err());
}

#[test]
fn few_digits_and_many_layers_read_back() {
    for text in [
        "0.5", "-0.0", "0.00000000000001", "-123456789012.345", "99999999999999.9", "0.30", "2.675",
        "12345.6789", "-7.0", "10000000000000.0",
    ] {
        let value = json(text);
        let read = parse(&encode_pretty(&value)).unwrap();
        assert_eq!(plain(&read), plain(&value));
        assert!(plain(&read).is_f64());
    }
    let nest = |layers: usize| {
        let mut value = JsonValue::Array(vec![]);
        for _ in 1..layers {
            value = JsonValue::Array(vec![value]);
        }
        value
    };
    let deep = nest(127);
    assert_eq!(plain(&parse(&encode_pretty(&deep)).unwrap()), plain(&deep));
    assert!(parse(&encode_pretty(&nest(128))).is_err());
    let marked = json(r##"{"#": 0, "$serde_json::private::RawValue": "1"}"##);
    assert_eq!(plain(&parse(&encode_pretty(&marked)).unwrap()), plain(&marked));
}

#[test]
fn long_numbers_stay_numbers_and_leave_the_rest_alone() {
    let (store, index, files) = indexed(&[("src/lib.rs", CALLER_AND_TARGET)]);
    let long = json(
        r#"{"profile": "trace_impact", "query": "target_symbol",
            "constraints": {"x": 0.12345678901234567, "y": [3.0e-320, 8.41234567890123e199], "z": 7}}"#,
    );
    let plan = build_profile_plan(&store, &vec![index], &files, &long, ROOT, "cp_1");
    let bytes = write_plan("/data/plans", &plan).bytes;
    let read = plain(&parse(&bytes).unwrap());
    assert!(read["constraints"]["x"].is_f64());
    assert!(read["constraints"]["y"][0].is_f64() && read["constraints"]["y"][1].is_f64());
    assert_eq!(read["constraints"]["z"], plain(&plan)["constraints"]["z"]);
    assert_eq!(read["primary"], plain(&plan)["primary"]);
    let points = read_plan_points(&bytes, &json("{}")).unwrap();
    assert!(!points.is_empty());
    assert_eq!(points.len(), select_points(&plan, &json("{}")).len());
    for (point, kept) in points.iter().zip(select_points(&plan, &json("{}")).iter()) {
        assert_eq!(plain(point), plain(kept));
    }
}

#[test]
fn fields_of_one_name_are_replaced() {
    let object = JsonObject::new().put("a", JsonValue::Uint(1)).put("b", JsonValue::Uint(2));
    let object = object.put("a", JsonValue::Uint(3));
    assert_eq!(object.fields.len(), 2);
    assert_eq!(render(&object.value()), r#"{"a":3,"b":2}"#);
    let twice = JsonObject {
        fields: vec![
            ("a".to_string(), JsonValue::Uint(1)),
            ("b".to_string(), JsonValue::Null),
            ("a".to_string(), JsonValue::Uint(2)),
        ],
    };
    assert_eq!(twice.get("a").and_then(|v| v.as_u64()), Some(2));
    assert_eq!(render(&twice.put("c", JsonValue::Int(-1)).value()), r#"{"a":2,"b":null,"c":-1}"#);
}

#[test]
fn plain_values_are_written_as_json_has_them() {
    let text = "say \"hi\" \\ \u{8}\t\n\u{c}\r\u{1}\u{1f}\u{7f}/é";
    let written = render(&JsonValue::text(text));
    assert_eq!(
        written,
        "\"say \\\"hi\\\" \\\\ \\b\\t\\n\\f\\r\\u0001\\u001f\u{7f}/é\""
    );
    assert_eq!(render(&JsonValue::Null), "null");
    assert_eq!(render(&JsonValue::Bool(true)), "true");
    assert_eq!(render(&JsonValue::Bool(false)), "false");
    assert_eq!(render(&JsonValue::Int(i64::MIN)), "-9223372036854775808");
    assert_eq!(render(&JsonValue::Uint(u64::MAX)), "18446744073709551615");
}

#[test]
fn hundredths_are_written_with_two_decimals() {
    assert_eq!(render(&hundredths(95)), "0.95");
    assert_eq!(render(&hundredths(100)), "1.0");
    assert_eq!(render(&hundredths(12345)), "123.45");
    assert_eq!(render(&hundredths(u32::MAX)), "42949672.95");
}
