use clab::architecture::{
    architecture_components, architecture_confidence, architecture_entrypoints,
    architecture_hotspots, architecture_important_files, architecture_map, architecture_summary,
    component_identity, component_role_hint,
};
use clab::git::{
    git_out, git_state, git_status_entries, maybe_limit_paths, parse_git_status_entries,
    parse_status_line, summarize_change_state, GitRun, GitStatusEntry,
};
use clab::json::JsonValue;
use clab::paths::is_extension;
use clab::scanner::{
    extract_symbols, project_name, scan_file, scan_step, EntryKind, ScanStep, MAX_FILE_BYTES,
};
use clab::store::{
    ArchitectureArgs, ClabStore, DetectChangesArgs, IndexReads, SearchRequest, SnippetRequest,
    ToolCall,
};
use clab::types::{ClabIndex, FileEntry, GitProjectState, SymbolEntry};
use clab::util::{required_str, total_bytes, window, ToolError};
use clab::wire::{from_serde, to_serde};
use serde_json::Value;

fn json(text: &str) -> JsonValue {
    from_serde(serde_json::from_str(text).unwrap())
}

fn plain(value: &JsonValue) -> Value {
    to_serde(value)
}

fn parsed(text: &str) -> Value {
    serde_json::from_str(text).unwrap()
}

fn no_git() -> GitProjectState {
    GitProjectState { is_git: false, root_exists: true, branch: None, head_sha: None }
}

fn demo_store() -> ClabStore {
    ClabStore::with_root("/tmp/clab-home")
}

fn run(success: bool, stdout: &str) -> Option<GitRun> {
    Some(GitRun { success, stdout: stdout.as_bytes().to_vec() })
}

fn indexed_project() -> ClabIndex {
    let mut files = Vec::new();
    let mut symbols = Vec::new();
    for index in 0..12 {
        let file = format!("src/module_{index}.rs");
        files.push(FileEntry {
            path: file.clone(),
            bytes: 16,
            lines: 1,
            text: format!("fn target_{index}() {{ target_call(); }}"),
        });
        symbols.push(SymbolEntry {
            name: format!("target_{index}"),
            label: "fn".to_string(),
            file,
            line: 1,
        });
    }
    ClabIndex {
        project: "demo".to_string(),
        root_path: "/tmp/clab-home".to_string(),
        status: "indexed".to_string(),
        files,
        symbols,
        indexed_at: 0,
        git: no_git(),
    }
}

fn search(store: &ClabStore, tool: &str, args: &str) -> SearchRequest {
    match store.dispatch(tool, &json(args)) {
        Ok(ToolCall::SearchGraph(request)) => request,
        Ok(ToolCall::SearchCode(request)) => request,
        other => panic!("no search: {other:?}"),
    }
}

fn clab_index() -> ClabIndex {
    ClabIndex {
        project: "Users-steve-clab".to_string(),
        root_path: "/tmp/clab".to_string(),
        status: "indexed".to_string(),
        indexed_at: 1,
        git: GitProjectState {
            is_git: true,
            root_exists: true,
            branch: Some("main".to_string()),
            head_sha: Some("abc".to_string()),
        },
        files: vec![
            FileEntry {
                path: "crates/clab-core/src/lib.rs".to_string(),
                bytes: 10,
                lines: 3,
                text: "pub fn alpha() {}\npub fn beta() {}\n".to_string(),
            },
            FileEntry {
                path: "crates/clab-daemon/src/lib.rs".to_string(),
                bytes: 10,
                lines: 3,
                text: "pub fn serve() {}\npub fn route() {}\n".to_string(),
            },
        ],
        symbols: vec![
            SymbolEntry {
                name: "alpha".to_string(),
                label: "Function".to_string(),
                file: "crates/clab-core/src/lib.rs".to_string(),
                line: 1,
            },
            SymbolEntry {
                name: "beta".to_string(),
                label: "Function".to_string(),
                file: "crates/clab-core/src/lib.rs".to_string(),
                line: 2,
            },
            SymbolEntry {
                name: "serve".to_string(),
                label: "Function".to_string(),
                file: "crates/clab-daemon/src/lib.rs".to_string(),
                line: 1,
            },
            SymbolEntry {
                name: "route".to_string(),
                label: "Function".to_string(),
                file: "crates/clab-daemon/src/lib.rs".to_string(),
                line: 2,
            },
        ],
    }
}

#[test]
fn architecture_map_reports_components_and_hotspots() {
    let map = plain(&architecture_map(&clab_index(), 10, 10, true));
    assert_eq!(map.get("project").and_then(Value::as_str), Some("Users-steve-clab"));
    assert_eq!(map.get("components").and_then(Value::as_array).map(Vec::len), Some(2));
    assert!(map
        .get("summary")
        .and_then(Value::as_str)
        .is_some_and(|s| s.contains("crates/clab-core")));
    assert!(map
        .get("hotspots")
        .and_then(Value::as_array)
        .is_some_and(|rows| !rows.is_empty()));
}

#[test]
fn parse_git_status_entries_classifies_paths() {
    let rows = parse_git_status_entries(" M src/lib.rs\nD  old.rs\n?? new.rs\nA  added.rs\n");
    assert_eq!(
        rows,
        vec![
            GitStatusEntry { kind: "modified".to_string(), path: "src/lib.rs".to_string() },
            GitStatusEntry { kind: "deleted".to_string(), path: "old.rs".to_string() },
            GitStatusEntry { kind: "untracked".to_string(), path: "new.rs".to_string() },
            GitStatusEntry { kind: "added".to_string(), path: "added.rs".to_string() },
        ]
    );
}

#[test]
fn stable_project_name() {
    let path = "/tmp/example repo";
    assert_eq!(project_name(path), project_name(path));
    assert_eq!(project_name(path), "tmp-example-repo");
}

#[test]
fn default_searches_return_eight_results() {
    let store = demo_store();
    let indexes = vec![indexed_project()];
    let graph = store.search_graph(
        &search(&store, "search_graph", r#"{"query": "target"}"#),
        &indexes,
    );
    let code = store.search_code(
        &search(&store, "search_code", r#"{"pattern": "target_call"}"#),
        &indexes,
    );
    assert_eq!(plain(&graph)["results"].as_array().unwrap().len(), 8);
    assert_eq!(plain(&code)["results"].as_array().unwrap().len(), 8);
}

#[test]
fn default_architecture_is_compact() {
    let store = demo_store();
    let args = ArchitectureArgs {
        project: Some("demo".to_string()),
        max_components: None,
        max_hotspots: None,
        include_summary: None,
    };
    let architecture = plain(&store.get_architecture(&args, &vec![indexed_project()]));
    assert!(architecture["components"].as_array().unwrap().len() <= 8);
    assert!(architecture["hotspots"].as_array().unwrap().len() <= 5);
}

#[test]
fn index_repository_defaults_to_current_directory() {
    let store = demo_store();
    let call = store.dispatch("index_repository", &json("{}")).unwrap();
    assert_eq!(call, ToolCall::IndexRepository(".".to_string()));

    let file = scan_file("src/lib.rs", 25, "pub fn default_root() {}\n".to_string());
    let canonical = "/tmp/default-index-root-repo";
    let (_, summary) = store.index_repository(canonical, vec![file], no_git(), 0);
    assert_eq!(plain(&summary)["root_path"], canonical);
    assert_eq!(plain(&summary)["symbols"], 1);
}

#[test]
fn default_symbol_snippet_uses_compact_window() {
    let store = demo_store();
    let text = (1..=20).map(|line| format!("line {line}")).collect::<Vec<_>>().join("\n");
    let index = ClabIndex {
        project: "demo".to_string(),
        root_path: "/tmp/clab-home".to_string(),
        status: "indexed".to_string(),
        files: vec![FileEntry {
            path: "src/lib.rs".to_string(),
            bytes: text.len() as u64,
            lines: 20,
            text,
        }],
        symbols: vec![SymbolEntry {
            name: "target".to_string(),
            label: "fn".to_string(),
            file: "src/lib.rs".to_string(),
            line: 10,
        }],
        indexed_at: 0,
        git: no_git(),
    };
    let request = match store.dispatch(
        "get_code_snippet",
        &json(r#"{"project": "demo", "name": "target"}"#),
    ) {
        Ok(ToolCall::GetCodeSnippet(request)) => request,
        other => panic!("no snippet: {other:?}"),
    };
    let snippet = plain(&store.get_code_snippet(&request, &vec![index]).unwrap());
    assert_eq!(snippet["snippet"].as_str().unwrap().lines().count(), 13);
}

#[test]
fn tool_calls_are_read_from_their_arguments() {
    let store = demo_store();
    assert_eq!(store.root, "/tmp/clab-home/indexes");
    assert_eq!(
        store.dispatch("index_repository", &json(r#"{"repo_path": "/srv/app"}"#)),
        Ok(ToolCall::IndexRepository("/srv/app".to_string()))
    );
    assert_eq!(store.dispatch("list_projects", &json("null")), Ok(ToolCall::ListProjects));
    assert_eq!(
        store.dispatch("search_graph", &json(r#"{"query": "TaRget", "limit": 3}"#)),
        Ok(ToolCall::SearchGraph(SearchRequest {
            pattern: "target".to_string(),
            limit: 3,
            project: None,
        }))
    );
    assert_eq!(
        store.dispatch(
            "get_code_snippet",
            &json(r#"{"qualified_name": "a::b", "name": "c", "project": "p"}"#)
        ),
        Ok(ToolCall::GetCodeSnippet(SnippetRequest {
            name: "a::b".to_string(),
            project: Some("p".to_string()),
        }))
    );
    assert_eq!(store.dispatch("detect_changes", &json("{}")), Ok(ToolCall::DetectChanges));
    assert_eq!(store.dispatch("get_architecture", &json("{}")), Ok(ToolCall::GetArchitecture));
}

#[test]
fn refused_calls_say_why() {
    let store = demo_store();
    let unknown = store.dispatch("frobnicate", &json("{}")).unwrap_err();
    assert_eq!(unknown, ToolError::Unsupported("frobnicate".to_string()));
    assert_eq!(unknown.message(), "unsupported tool: frobnicate");
    for tool in ["index_status", "delete_project"] {
        let missing = store.dispatch(tool, &json(r#"{"project": 7}"#)).unwrap_err();
        assert_eq!(missing, ToolError::Required("project".to_string()));
        assert_eq!(missing.message(), "project is required");
    }
    let missing = store.dispatch("search_code", &json("{}")).unwrap_err();
    assert_eq!(missing.message(), "pattern is required");
    assert_eq!(
        required_str(&json(r#"{"a": "b"}"#), "a"),
        Ok("b".to_string())
    );
    let request = SnippetRequest { name: "nowhere".to_string(), project: None };
    let refused = match store.get_code_snippet(&request, &vec![indexed_project()]) {
        Ok(_) => panic!("found"),
        Err(e) => e,
    };
    assert_eq!(refused, ToolError::SymbolNotFound);
    assert_eq!(refused.message(), "symbol not found");
}

#[test]
fn stores_and_indexes_have_their_places() {
    assert_eq!(ClabStore::from_env(Some("/data"), Some("/home/u")).root, "/data/indexes");
    assert_eq!(ClabStore::from_env(None, Some("/home/u")).root, "/home/u/.clab/indexes");
    assert_eq!(ClabStore::from_env(None, None).root, ".clab/indexes");
    let store = demo_store();
    assert_eq!(store.index_path("demo"), "/tmp/clab-home/indexes/demo.json");
    assert_eq!(
        store.filtered(Some("demo")),
        IndexReads::One("/tmp/clab-home/indexes/demo.json".to_string())
    );
    assert_eq!(store.filtered(None), IndexReads::All("/tmp/clab-home/indexes".to_string()));
    assert_eq!(
        store.plan_reads("/srv/app one"),
        IndexReads::One("/tmp/clab-home/indexes/srv-app-one.json".to_string())
    );
}

#[test]
fn extensions_follow_the_last_point() {
    assert!(is_extension("a.b.json", "json"));
    assert!(is_extension("..json", "json"));
    assert!(!is_extension(".json", "json"));
    assert!(!is_extension("a.json", "JSON"));
    assert!(!is_extension("a.tar.gz", "tar.gz"));
    assert!(is_extension("a.", ""));
}

#[test]
fn a_deletion_removes_one_index_and_no_other() {
    let store = demo_store();
    let mut kept = vec![store.index_path("demo"), store.index_path("other")];
    let mut answers = Vec::new();
    for _ in 0..2 {
        let existed = kept.contains(&store.index_path("demo"));
        let deletion = store.delete_project("demo", existed);
        if let Some(path) = deletion.remove {
            kept.retain(|file| *file != path);
        }
        answers.push(plain(&deletion.answer)["deleted"].clone());
    }
    assert_eq!(answers, vec![Value::Bool(true), Value::Bool(false)]);
    assert_eq!(kept, vec![store.index_path("other")]);
    assert!(store.dispatch("delete_project", &json(r#"{"project": 7}"#)).is_err());
}

#[test]
fn searches_find_what_matches_and_no_more() {
    let store = demo_store();
    let indexes = vec![indexed_project()];
    let graph = plain(&store.search_graph(
        &search(&store, "search_graph", r#"{"query": "TARGET_1", "limit": 50}"#),
        &indexes,
    ));
    let names: Vec<&str> =
        graph["results"].as_array().unwrap().iter().map(|r| r["name"].as_str().unwrap()).collect();
    assert_eq!(names, vec!["target_1", "target_10", "target_11"]);
    assert_eq!(
        graph["results"][0],
        parsed(
            r#"{"project": "demo", "name": "target_1", "label": "fn",
                "file": "src/module_1.rs", "line": 1, "start_line": 1}"#
        )
    );
    let none = store.search_graph(
        &search(&store, "search_graph", r#"{"query": "absent"}"#),
        &indexes,
    );
    assert_eq!(plain(&none), parsed(r#"{"results": []}"#));
    let all = store.search_graph(
        &search(&store, "search_graph", r#"{"limit": 50}"#),
        &indexes,
    );
    assert_eq!(plain(&all)["results"].as_array().unwrap().len(), 12);
}

#[test]
fn a_search_with_a_limit_of_none_gives_no_result() {
    let store = demo_store();
    let indexes = vec![indexed_project()];
    let code = plain(&store.search_code(
        &search(&store, "search_code", r#"{"pattern": "target_call", "limit": 0}"#),
        &indexes,
    ));
    assert_eq!(code, parsed(r#"{"results": []}"#));
    let graph = plain(&store.search_graph(
        &search(&store, "search_graph", r#"{"query": "target_1", "limit": 0}"#),
        &indexes,
    ));
    assert_eq!(graph, parsed(r#"{"results": []}"#));
}

#[test]
fn a_higher_limit_gives_the_same_results_first() {
    let store = demo_store();
    let indexes = vec![indexed_project()];
    let few = plain(&store.search_code(
        &search(&store, "search_code", r#"{"pattern": "target", "limit": 3}"#),
        &indexes,
    ));
    let more = plain(&store.search_code(
        &search(&store, "search_code", r#"{"pattern": "target", "limit": 6}"#),
        &indexes,
    ));
    let few = few["results"].as_array().unwrap();
    let more = more["results"].as_array().unwrap();
    assert_eq!(few.len(), 3);
    assert_eq!(more.len(), 6);
    assert_eq!(&more[..3], &few[..]);
}

#[test]
fn lines_are_found_with_their_numbers() {
    let store = demo_store();
    let file = scan_file("a.txt", 30, "one\r\nTwo needle\nthree\nNEEDLE four".to_string());
    let (index, _) = store.index_repository("/srv/app", vec![file], no_git(), 5);
    let code = plain(&store.search_code(
        &search(&store, "search_code", r#"{"pattern": "Needle"}"#),
        &vec![index],
    ));
    let rows = code["results"].as_array().unwrap();
    assert_eq!(rows.len(), 2);
    assert_eq!(rows[0]["line"], 2);
    assert_eq!(rows[0]["snippet"], "Two needle");
    assert_eq!(rows[1]["start_line"], 4);
    assert_eq!(rows[1]["project"], "srv-app");
}

#[test]
fn snippets_skip_symbols_without_a_file() {
    let store = demo_store();
    let mut index = indexed_project();
    index.symbols.insert(
        0,
        SymbolEntry {
            name: "target_3".to_string(),
            label: "fn".to_string(),
            file: "src/gone.rs".to_string(),
            line: 1,
        },
    );
    let request = SnippetRequest { name: "crate::target_3".to_string(), project: None };
    let snippet = plain(&store.get_code_snippet(&request, &vec![index]).unwrap());
    assert_eq!(
        snippet,
        parsed(
            r#"{"project": "demo", "file": "src/module_3.rs", "start_line": 1,
                "snippet": "1:fn target_3() { target_call(); }"}"#
        )
    );
}

#[test]
fn windows_stay_around_their_line() {
    assert_eq!(window("a\nb\nc\nd\ne", 3, 1), "2:b\n3:c\n4:d");
    assert_eq!(window("a\nb", 1, 6), "1:a\n2:b");
    assert_eq!(window("", 1, 6), "");
}

#[test]
fn change_reports_count_every_entry_once() {
    let store = demo_store();
    let index = clab_index();
    let current = git_state(true, true, &run(true, "main\n"), &run(true, "abc\n"));
    let args = DetectChangesArgs {
        project: "Users-steve-clab".to_string(),
        include_files: None,
        limit: None,
    };
    let status = run(true, " M src/lib.rs\nD  old.rs\n?? new.rs\nA  added.rs\n");
    let report = plain(&store.detect_changes(&args, &index, &current, &status));
    assert_eq!(report["changed_files"], parsed(r#"["added.rs", "src/lib.rs"]"#));
    assert_eq!(report["untracked_files"], parsed(r#"["new.rs"]"#));
    assert_eq!(report["deleted_files"], parsed(r#"["old.rs"]"#));
    assert_eq!(report["changed_count"], 4);
    assert_eq!(report["dirty"], true);
    assert_eq!(report["stale"], true);
    assert_eq!(report["stale_reason"], parsed(r#"["working_tree_dirty"]"#));
    assert_eq!(report["recommended_action"], "reindex_partial");
    assert_eq!(report["summary"], "working tree is dirty (4 file changes).");
    assert_eq!(report["branch"], parsed(r#"{"indexed": "main", "current": "main", "changed": false}"#));
}

#[test]
fn a_current_index_needs_nothing() {
    let store = demo_store();
    let index = clab_index();
    let current = git_state(true, true, &run(true, "main\n"), &run(true, "abc\n"));
    let args = DetectChangesArgs {
        project: "Users-steve-clab".to_string(),
        include_files: Some(true),
        limit: Some(1),
    };
    let report = plain(&store.detect_changes(&args, &index, &current, &run(true, "")));
    assert_eq!(report["stale"], false);
    assert_eq!(report["changed_count"], 0);
    assert_eq!(report["recommended_action"], "none");
    assert_eq!(report["summary"], "Index is current.");
}

#[test]
fn a_moved_head_asks_for_a_full_index() {
    let store = demo_store();
    let index = clab_index();
    let current = git_state(true, true, &run(true, "topic\n"), &run(true, "def\n"));
    let args = DetectChangesArgs {
        project: "Users-steve-clab".to_string(),
        include_files: Some(false),
        limit: Some(1),
    };
    let report = plain(&store.detect_changes(&args, &index, &current, &run(true, "?? x.rs\n")));
    assert_eq!(report["head_changed"], true);
    assert_eq!(report["branch_changed"], true);
    assert_eq!(report["current_head_sha"], "def");
    assert_eq!(report["indexed_head_sha"], "abc");
    assert_eq!(report["untracked_files"], parsed("[]"));
    assert_eq!(report["changed_count"], 3);
    assert_eq!(report["recommended_action"], "reindex_full");
    assert_eq!(
        report["summary"],
        "Git HEAD changed and branch changed and working tree is dirty (1 file changes)."
    );
}

#[test]
fn more_changes_than_the_limit_ask_for_a_full_index() {
    let store = demo_store();
    let index = clab_index();
    let current = git_state(true, true, &run(true, "main"), &run(true, "abc"));
    let args = DetectChangesArgs {
        project: "Users-steve-clab".to_string(),
        include_files: None,
        limit: Some(1),
    };
    let report =
        plain(&store.detect_changes(&args, &index, &current, &run(true, "?? b.rs\n?? a.rs\n")));
    assert_eq!(report["recommended_action"], "reindex_full");
    assert_eq!(report["untracked_files"].as_array().unwrap().len(), 1);
    assert_eq!(report["changed_count"], 2);
}

#[test]
fn git_runs_that_fail_say_nothing() {
    assert_eq!(git_out(&run(true, "  main \n")), Some("main".to_string()));
    assert_eq!(git_out(&run(false, "main\n")), None);
    assert_eq!(git_out(&run(true, " \n")), None);
    assert_eq!(git_out(&None), None);
    let lossy = Some(GitRun { success: true, stdout: vec![b'a', 0xff, b'b'] });
    assert_eq!(git_out(&lossy), Some("a\u{fffd}b".to_string()));
    assert_eq!(git_status_entries(&run(false, "?? a\n")), vec![]);
    assert_eq!(git_status_entries(&None), vec![]);
}

#[test]
fn status_lines_too_short_are_no_entries() {
    assert!(parse_status_line("?? ").is_none());
    assert!(parse_status_line("").is_none());
    let renamed = parse_status_line("R  old.rs -> new.rs").unwrap();
    assert_eq!(renamed.kind, "renamed");
    let entry = parse_status_line("?? x").unwrap();
    assert_eq!(entry.path, "x");
}

#[test]
fn listed_paths_are_limited() {
    let paths = vec!["b".to_string(), "a".to_string(), "c".to_string()];
    assert_eq!(
        maybe_limit_paths(vec!["b".into(), "a".into(), "c".into(), "a".into()], true, 2),
        vec!["a".to_string(), "b".to_string()]
    );
    assert!(maybe_limit_paths(paths.clone(), false, 5).is_empty());
    assert_eq!(maybe_limit_paths(paths.clone(), true, 2).len(), 2);
    assert_eq!(maybe_limit_paths(paths, true, 5).len(), 3);
}

#[test]
fn change_states_are_summarized() {
    assert_eq!(summarize_change_state(true, false, false, 0), "Git HEAD changed.");
    assert_eq!(summarize_change_state(false, true, true, 0), "branch changed and working tree changed.");
}

#[test]
fn indexes_are_summarized() {
    let store = demo_store();
    let index = indexed_project();
    let ready = plain(&store.index_status(&index));
    assert_eq!(ready["project"], "demo");
    assert_eq!(ready["status"], "ready");
    assert_eq!(ready["symbols"], 12);
    let listed = plain(&store.list_projects(&vec![index.clone(), clab_index()]));
    assert_eq!(listed["projects"].as_array().unwrap().len(), 2);
    assert_eq!(listed["projects"][0]["status"], "indexed");
    assert_eq!(listed["projects"][1]["project"], "Users-steve-clab");
    let there = store.delete_project("demo", true);
    assert_eq!(there.remove, Some("/tmp/clab-home/indexes/demo.json".to_string()));
    assert_eq!(plain(&there.answer), parsed(r#"{"ok": true, "deleted": true}"#));
    let gone = store.delete_project("demo", false);
    assert_eq!(gone.remove, None);
    assert_eq!(plain(&gone.answer), parsed(r#"{"ok": true, "deleted": false}"#));
    assert_eq!(total_bytes(&index.files), Some(12 * 16));
    let mut huge = index.files;
    huge[0].bytes = u64::MAX;
    assert_eq!(total_bytes(&huge), None);
}

#[test]
fn scanned_files_give_their_symbols_in_order() {
    let file = scan_file(
        "src/lib.rs",
        40,
        "pub fn first() {}\n\nstruct Second;\n    fn third(x: u8) {}\n".to_string(),
    );
    assert_eq!(file.lines, 4);
    let symbols = extract_symbols(&file);
    let found: Vec<(String, usize)> = symbols.into_iter().map(|s| (s.name, s.line)).collect();
    assert_eq!(
        found,
        vec![("first".to_string(), 1), ("Second".to_string(), 3), ("third".to_string(), 4)]
    );
}

#[test]
fn scans_skip_what_is_not_source() {
    assert_eq!(scan_step(EntryKind::Directory, ".git", 0), ScanStep::Skip);
    assert_eq!(scan_step(EntryKind::Directory, "target", 0), ScanStep::Skip);
    assert_eq!(scan_step(EntryKind::Directory, "src", 0), ScanStep::Descend);
    assert_eq!(scan_step(EntryKind::File, "lib.rs", MAX_FILE_BYTES + 1), ScanStep::Skip);
}

#[test]
fn components_have_names_and_roles() {
    assert_eq!(
        component_identity("crates/clab-core/src/lib.rs").0,
        "crates/clab-core".to_string()
    );
    assert_eq!(component_role_hint("crates/clab-daemon"), "HTTP and MCP surface");
    assert_eq!(component_role_hint("crates/clab-core"), "indexing and knowledge storage");
}

#[test]
fn architecture_parts_agree_with_the_map() {
    let index = clab_index();
    let components = architecture_components(&index, 10);
    let map = plain(&architecture_map(&index, 10, 10, true));
    let listed: Vec<Value> = components.iter().map(plain).collect();
    assert_eq!(map["components"], Value::Array(listed));
    assert_eq!(map["summary"], architecture_summary(&index, &components));
    let hotspots: Vec<Value> = architecture_hotspots(&index, 10).iter().map(plain).collect();
    assert_eq!(map["hotspots"], Value::Array(hotspots));
    let entrypoints: Vec<Value> = architecture_entrypoints(&index).iter().map(plain).collect();
    assert_eq!(map["entrypoints"], Value::Array(entrypoints));
    assert_eq!(architecture_important_files(&index).len(), 2);
    assert_eq!(map["derived_from"], parsed(r#"{"indexed_files": 2, "indexed_symbols": 4}"#));
    let bare = plain(&architecture_map(&index, 1, 1, false));
    assert_eq!(bare["summary"], "");
    assert_eq!(bare["components"].as_array().unwrap().len(), 1);
    assert_eq!(bare["hotspots"].as_array().unwrap().len(), 1);
}

#[test]
fn architecture_confidence_grows_with_symbols() {
    let mut index = clab_index();
    let few = architecture_confidence(&index);
    let map = plain(&architecture_map(&index, 8, 5, true));
    assert_eq!(map["confidence"].as_f64(), Some(few as f64 / 100.0));
    index.symbols.clear();
    assert_eq!(architecture_confidence(&index), 35);
    index.files.clear();
    assert_eq!(architecture_confidence(&index), 10);
}

#[test]
fn several_projects_are_mapped_together() {
    let store = demo_store();
    let args = ArchitectureArgs {
        project: None,
        max_components: Some(1),
        max_hotspots: Some(1),
        include_summary: Some(false),
    };
    let maps = plain(&store.get_architecture(&args, &vec![clab_index(), indexed_project()]));
    assert_eq!(maps["projects"].as_array().unwrap().len(), 2);
    assert_eq!(plain(&store.get_architecture(&args, &vec![])), parsed(r#"{"projects": []}"#));
}

#[test]
fn busier_files_come_first() {
    let mut index = clab_index();
    index.symbols.push(SymbolEntry {
        name: "more".to_string(),
        label: "Function".to_string(),
        file: "crates/clab-daemon/src/lib.rs".to_string(),
        line: 3,
    });
    let hotspots: Vec<Value> = architecture_hotspots(&index, 5).iter().map(plain).collect();
    assert_eq!(
        hotspots[0],
        parsed(
            r#"{"file": "crates/clab-daemon/src/lib.rs", "reason": "high symbol density",
                "symbols": 3}"#
        )
    );
    assert_eq!(hotspots[1]["symbols"], 2);
    let components: Vec<Value> = architecture_components(&index, 5).iter().map(plain).collect();
    assert_eq!(
        components[0],
        parsed(
            r#"{"name": "crates/clab-daemon", "kind": "crate", "files": 1, "symbols": 3,
                "role": "HTTP and MCP surface"}"#
        )
    );
}

#[test]
fn indexed_symbols_are_found_and_shown() {
    let store = demo_store();
    let file = scan_file("src/lib.rs", 40, "// x\npub struct Wide;\ndef narrow():\n".to_string());
    let (index, _) = store.index_repository("/srv/app", vec![file], no_git(), 5);
    assert_eq!(index.indexed_at, 5);
    let names: Vec<String> = index.symbols.iter().map(|s| s.name.clone()).collect();
    assert_eq!(names, vec!["Wide".to_string(), "narrow".to_string()]);
    let indexes = vec![index];
    for name in names {
        let request = SearchRequest { pattern: name.to_lowercase(), limit: 8, project: None };
        let found = plain(&store.search_graph(&request, &indexes));
        assert_eq!(found["results"][0]["name"], name.as_str());
        let request = SnippetRequest { name, project: None };
        let snippet = plain(&store.get_code_snippet(&request, &indexes).unwrap());
        assert_eq!(snippet["snippet"], "1:// x\n2:pub struct Wide;\n3:def narrow():");
    }
}
