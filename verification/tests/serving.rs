use clab::daemon::{
    healthz, needs_refresh, profiles, refresh_targets, tracked_projects, AutoIndexConfig,
    AutoIndexDaemon, Refresh, RefreshAction, RefreshEvent,
};
use clab::json::JsonValue;
use clab::mcp::{
    dispatch_mcp_tool, dispatch_or_error, mcp, mcp_reply, tool_description, tool_input_schema,
    tool_names, tool_result, wrap_answer, McpStep, McpTool,
};
use clab::skills::{
    compact_skill, read_skill, select_skills, skill_delete, skill_get, skill_name, skill_path,
    skill_search, skill_upsert, skills_dir, truncate_chars,
};
use clab::store::{ClabStore, ToolCall};
use clab::text::{is_white_space, lines, trim};
use clab::util::ToolError;
use clab::wire::{from_serde, to_serde};
use serde_json::Value;

fn json(text: &str) -> JsonValue {
    from_serde(serde_json::from_str(text).unwrap())
}

fn plain(value: &JsonValue) -> Value {
    to_serde(value)
}

fn parsed(text: &str) -> Value {
    serde_json::from_str(text).unwrap()
}

fn store() -> ClabStore {
    ClabStore::with_root("/tmp/clab-home")
}

#[test]
fn default_status_is_disabled_until_served() {
    let daemon = AutoIndexDaemon::new(AutoIndexConfig::default());
    let status = daemon.status();
    assert!(status.enabled);
    assert!(!status.running);
    assert_eq!(status.tracked_projects, 0);
}

#[test]
fn mcp_tool_schemas_expose_required_arguments() {
    let search_code = plain(&tool_input_schema("search_code"));
    assert_eq!(search_code["properties"]["pattern"]["type"], "string");
    assert!(search_code["properties"]["limit"]["description"]
        .as_str()
        .unwrap()
        .contains("Defaults to 8"));
    assert_eq!(search_code["required"], parsed(r#"["pattern"]"#));

    let index_repository = plain(&tool_input_schema("index_repository"));
    assert_eq!(index_repository["properties"]["repo_path"]["type"], "string");
    assert_eq!(index_repository["required"], parsed("[]"));

    let index_status = plain(&tool_input_schema("index_status"));
    assert_eq!(index_status["properties"]["project"]["type"], "string");
    assert_eq!(index_status["required"], parsed(r#"["project"]"#));

    let detect_changes = plain(&tool_input_schema("detect_changes"));
    assert!(detect_changes["properties"]["limit"]["description"]
        .as_str()
        .unwrap()
        .contains("Defaults to 50"));

    let skill_get = plain(&tool_input_schema("skill_get"));
    assert_eq!(skill_get["properties"]["summary_only"]["type"], "boolean");
    assert_eq!(skill_get["properties"]["max_chars"]["type"], "integer");
    assert_eq!(skill_get["required"], parsed(r#"["name"]"#));
}

#[test]
fn compact_skill_can_omit_or_truncate_body() {
    let skill = json(
        r#"{"name": "demo", "summary": "Demo skill", "tags": [], "version": 1, "body": "abcdef"}"#,
    );
    let summary = plain(&compact_skill(skill.clone(), true, None));
    assert!(summary.get("body").is_none());
    assert_eq!(summary["summary"], "Demo skill");

    let truncated = plain(&compact_skill(skill, false, Some(3)));
    assert_eq!(truncated["body"], "abc");
    assert_eq!(truncated["truncated"], true);
}

#[test]
fn skill_search_defaults_to_five_results() {
    let mut skills = Vec::new();
    for index in 0..7 {
        let name = skill_name(&format!("skill-{index}.md")).unwrap();
        let text = format!("---\nsummary: Test skill {index}\nversion: 1\n---\n\nbody\n");
        skills.push(read_skill(&name, &text));
    }
    let results = plain(&skill_search(&json("{}"), &skills));
    assert_eq!(results.as_array().unwrap().len(), 5);
}

#[test]
fn skills_are_read_from_their_files() {
    assert_eq!(skill_name("a.b.md"), Some("a.b".to_string()));
    assert_eq!(skill_name(".md"), None);
    assert_eq!(skill_name("a.txt"), None);
    assert_eq!(skill_name("md"), None);
    assert_eq!(
        plain(&read_skill("a", "summary:  One \r\nsummary: Two\n")),
        parsed(
            r#"{"name": "a", "summary": "One", "tags": [], "version": 1,
                "body": "summary:  One \r\nsummary: Two\n"}"#
        )
    );
    assert_eq!(plain(&read_skill("a", " summary: x\n"))["summary"], "");
    assert_eq!(skills_dir(Some("/s"), Some("/h")), "/s");
    assert_eq!(skills_dir(None, Some("/h")), "/h/.clab/skills");
    assert_eq!(skills_dir(None, None), ".clab/skills");
    assert_eq!(skill_path("/s", "a"), "/s/a.md");
}

#[test]
fn skills_are_found_by_what_they_say() {
    let skills = vec![
        read_skill("alpha", "summary: First\nuse the Hammer"),
        read_skill("beta", "summary: Second\n"),
    ];
    let found = plain(&skill_search(&json(r#"{"query": "HAMMER"}"#), &skills));
    assert_eq!(
        found,
        parsed(
            r#"[{"name": "alpha", "summary": "First", "tags": [], "version": 1, "score": 3,
                "source": "skill"}]"#
        )
    );
    let all = plain(&skill_search(&json(r#"{"limit": 1}"#), &skills));
    assert_eq!(all.as_array().unwrap().len(), 1);
    assert_eq!(all[0]["score"], 1);
    let words = vec!["one two".to_string(), "two three".to_string()];
    assert_eq!(select_skills(&skills, &words, "two", 9).len(), 2);
    assert_eq!(select_skills(&skills, &words, "three", 9).len(), 1);
}

#[test]
fn stored_skills_are_found_by_their_words() {
    let args = json(
        r#"{"name": "deploy", "summary": "Ship it", "body": "First line.\nThen run Make-Release now."}"#,
    );
    let write = skill_upsert("/skills", &args);
    let skills =
        vec![read_skill("other", "nothing here"), read_skill("deploy", &write.text)];
    for query in ["make-RELEASE now", "first line.", "ship IT", "Deploy"] {
        let found = plain(&skill_search(&json(&format!(r#"{{"query": "{query}"}}"#)), &skills));
        assert_eq!(found.as_array().unwrap().len(), 1);
        assert_eq!(found[0]["name"], "deploy");
    }
    let broken = plain(&skill_search(&json(r#"{"query": "line.\nThen"}"#), &skills));
    assert_eq!(broken, parsed("[]"));
}

#[test]
fn shortened_skills_hold_one_body() {
    let skill = read_skill("s", "a long body");
    let shown = compact_skill(skill, false, Some(4));
    let text = tool_result(Ok(shown));
    let shown = plain(&text)["content"][0]["text"].as_str().unwrap().to_string();
    assert_eq!(shown.matches("body").count(), 1);
    assert_eq!(parsed(&shown)["body"], "a lo");
}

#[test]
fn skills_are_got_by_name() {
    let skills = vec![read_skill("alpha", "summary: A\n"), read_skill("alpha", "summary: B\n")];
    assert_eq!(plain(&skill_get(&json(r#"{"name": "alpha"}"#), &skills))["summary"], "A");
    let short = plain(&skill_get(
        &json(r#"{"name": "alpha", "max_chars": 100}"#),
        &skills,
    ));
    assert_eq!(short["truncated"], false);
    assert_eq!(short["body"], "summary: A\n");
    assert_eq!(
        plain(&skill_get(&json(r#"{"name": "beta"}"#), &skills)),
        parsed(r#"{"error": "Skill not found: beta"}"#)
    );
    assert_eq!(truncate_chars("héllo", 2), "hé");
    assert_eq!(truncate_chars("h", 2), "h");
    assert_eq!(plain(&compact_skill(json("3"), true, Some(1))), 3);
}

#[test]
fn stored_skills_keep_name_and_summary() {
    let args = json(r#"{"name": "alpha", "description": "  Does things\r", "body": "Body"}"#);
    let write = skill_upsert("/s", &args);
    assert_eq!(write.path, "/s/alpha.md");
    assert_eq!(write.text, "---\nsummary:   Does things\r\nversion: 1\n---\n\nBody\n");
    assert_eq!(
        plain(&write.reply),
        parsed(r#"{"name": "alpha", "version": 1, "created": true}"#)
    );
    let skill = plain(&read_skill(&skill_name("alpha.md").unwrap(), &write.text));
    assert_eq!(skill["name"], "alpha");
    assert_eq!(skill["summary"], "Does things");
    assert_eq!(
        plain(&skill_delete(&args, true)),
        parsed(r#"{"name": "alpha", "deleted": true}"#)
    );
    assert_eq!(plain(&skill_delete(&json("{}"), false))["deleted"], false);
}

#[test]
fn offered_tools_are_supported() {
    let names = tool_names();
    assert_eq!(names.len(), 12);
    for name in names {
        match dispatch_mcp_tool(&store(), &name, &json("{}")) {
            Err(ToolError::Unsupported(_)) => panic!("unsupported: {name}"),
            _ => {}
        }
        let schema = plain(&tool_input_schema(&name));
        for required in schema["required"].as_array().unwrap() {
            assert!(schema["properties"].get(required.as_str().unwrap()).is_some());
        }
        assert_ne!(tool_description(&name), "Clab tool");
    }
    assert_eq!(tool_description("other"), "Clab tool");
    assert_eq!(tool_description("delete_project"), "Delete a project index.");
    assert_eq!(
        dispatch_mcp_tool(&store(), "skill_get", &json("{}")),
        Ok(McpTool::SkillGet)
    );
    assert_eq!(
        dispatch_mcp_tool(&store(), "list_projects", &json("{}")),
        Ok(McpTool::Store(ToolCall::ListProjects))
    );
    assert_eq!(
        dispatch_mcp_tool(&store(), "nothing", &json("{}")),
        Err(ToolError::Unsupported("nothing".to_string()))
    );
}

fn result_of(body: &str) -> Value {
    match mcp(&json(body)) {
        McpStep::Result(value) => plain(&value),
        McpStep::Call(_, _) => panic!("a call"),
    }
}

#[test]
fn requests_are_answered_by_method() {
    assert_eq!(result_of(r#"{"method": "ping"}"#), parsed("{}"));
    assert_eq!(result_of("{}"), parsed("{}"));
    assert_eq!(
        result_of(r#"{"method": "initialize"}"#),
        parsed(
            r#"{"protocolVersion": "2025-06-18", "capabilities": {"tools": {"listChanged": false}},
                "serverInfo": {"name": "clab", "version": "0.1.0"}}"#
        )
    );
    let list = result_of(r#"{"method": "tools/list"}"#);
    assert_eq!(list["tools"].as_array().unwrap().len(), 12);
    assert_eq!(list["tools"][0]["name"], "index_repository");
    assert_eq!(list["tools"][6]["inputSchema"], plain(&tool_input_schema("search_code")));
    let call = r#"{"method": "tools/call", "params": {"name": "ping_me", "arguments": {"a": 1}}}"#;
    match mcp(&json(call)) {
        McpStep::Call(name, args) => {
            assert_eq!(name, "ping_me");
            assert_eq!(plain(&args), parsed(r#"{"a": 1}"#));
        }
        McpStep::Result(_) => panic!("no call"),
    }
    match mcp(&json(r#"{"method": "tools/call"}"#)) {
        McpStep::Call(name, args) => {
            assert_eq!(name, "");
            assert_eq!(plain(&args), parsed("{}"));
        }
        McpStep::Result(_) => panic!("no call"),
    }
}

#[test]
fn replies_carry_the_id() {
    let reply = plain(&mcp_reply(&json(r#"{"id": 7}"#), json(r#"{"x": 1}"#)));
    assert_eq!(reply, parsed(r#"{"jsonrpc": "2.0", "id": 7, "result": {"x": 1}}"#));
    let reply = plain(&mcp_reply(&json("{}"), json("{}")));
    assert_eq!(reply["id"], Value::Null);
}

#[test]
fn tool_results_are_text() {
    let good = plain(&tool_result(Ok(json(r#"{"b": [1, 2]}"#))));
    assert_eq!(good, parsed(r#"{"content": [{"type": "text", "text": "{\"b\":[1,2]}"}]}"#));
    let bad = plain(&tool_result(Err("no".to_string())));
    assert_eq!(bad["isError"], true);
    assert_eq!(bad["content"][0]["text"], "{\"error\":\"no\"}");
    assert_eq!(plain(&dispatch_or_error(Err("no".to_string()))), parsed(r#"{"error": "no"}"#));
    assert_eq!(plain(&dispatch_or_error(Ok(json("3")))), 3);
    assert_eq!(plain(&wrap_answer("t".to_string(), false))["content"][0]["text"], "t");
}

#[test]
fn the_daemon_reports_what_it_does() {
    let mut daemon = AutoIndexDaemon::new(AutoIndexConfig::default());
    assert_eq!(daemon.config.poll_interval_seconds, 2);
    assert_eq!(daemon.config.debounce_seconds, 3);
    assert_eq!(daemon.config.cooldown_seconds, 10);
    assert_eq!(daemon.config.mode, "fast");
    daemon.start();
    daemon.note_refresh(Err("broken".to_string()));
    let listing = json(r#"{"projects": [1, 2]}"#);
    let status = daemon.status_live(Some(&listing));
    assert!(status.running);
    assert_eq!(status.tracked_projects, 2);
    assert_eq!(status.last_error, Some("broken".to_string()));
    assert!(status.indexing_projects.is_empty());
    daemon.note_refresh(Ok(()));
    assert_eq!(daemon.status_live(None).last_error, None);
    assert_eq!(tracked_projects(Some(&json("{}"))), 0);
    assert_eq!(plain(&healthz()), parsed(r#"{"status": "ok"}"#));
    assert_eq!(
        plain(&profiles()),
        parsed(r#"{"profiles": ["bug_investigation", "find_definition", "trace_impact"]}"#)
    );
}

fn begun(daemon: &AutoIndexDaemon) -> (Refresh, RefreshAction) {
    daemon.begin_refresh(&json(
        r#"{"projects": [{"project": "a", "root_path": "/a"}, {"root_path": "/x"},
            {"project": "b"}, {"project": "c", "root_path": "/c"}]}"#,
    ))
}

fn report(count: u64) -> RefreshEvent {
    RefreshEvent::Compared(Ok(json(&format!(r#"{{"changed_count": {count}}}"#))))
}

#[test]
fn a_pass_goes_through_the_projects() {
    let mut daemon = AutoIndexDaemon::new(AutoIndexConfig::default());
    let (mut pass, first) = begun(&daemon);
    assert_eq!(first, RefreshAction::Compare("a".to_string()));
    assert_eq!(daemon.refresh_once(&mut pass, report(2)), RefreshAction::Wait(3));
    assert_eq!(daemon.queued, 1);
    assert_eq!(
        daemon.refresh_once(&mut pass, RefreshEvent::Waited),
        RefreshAction::Look("/a".to_string())
    );
    assert_eq!(
        daemon.refresh_once(&mut pass, RefreshEvent::Looked(true)),
        RefreshAction::Reindex("/a".to_string(), "fast".to_string())
    );
    assert_eq!(
        daemon.refresh_once(&mut pass, RefreshEvent::Reindexed(Ok(()))),
        RefreshAction::Compare("b".to_string())
    );
    assert_eq!(daemon.queued, 0);
    assert_eq!(daemon.refresh_once(&mut pass, report(1)), RefreshAction::Wait(3));
    assert_eq!(
        daemon.refresh_once(&mut pass, RefreshEvent::Waited),
        RefreshAction::Compare("c".to_string())
    );
    assert_eq!(daemon.refresh_once(&mut pass, report(0)), RefreshAction::Finish);
    assert_eq!(daemon.queued, 0);
}

#[test]
fn a_pass_indexes_the_roots_that_are_due() {
    let listing = json(
        r#"{"projects": [{"project": "a", "root_path": "/a"}, {"project": "b", "root_path": "/b"},
            {"project": "c"}, {"project": "d", "root_path": "/d"},
            {"project": "e", "root_path": "/e"}]}"#,
    );
    let changes = [("a", 1), ("b", 0), ("c", 4), ("d", 2), ("e", 1)];
    let mut daemon = AutoIndexDaemon::new(AutoIndexConfig::default());
    let (mut pass, mut action) = daemon.begin_refresh(&listing);
    let mut indexed = Vec::new();
    let mut events = 0;
    while action != RefreshAction::Finish {
        let event = match &action {
            RefreshAction::Compare(name) => {
                report(changes.iter().find(|(n, _)| n == name).unwrap().1)
            }
            RefreshAction::Wait(_) => RefreshEvent::Waited,
            RefreshAction::Look(root) => RefreshEvent::Looked(root != "/d"),
            RefreshAction::Reindex(root, _) => {
                indexed.push(root.clone());
                RefreshEvent::Reindexed(Ok(()))
            }
            other => panic!("unexpected {other:?}"),
        };
        events += 1;
        action = daemon.refresh_once(&mut pass, event);
    }
    assert_eq!(indexed, vec!["/a".to_string(), "/e".to_string()]);
    assert_eq!(daemon.queued, 0);
    assert!(events <= 4 * 5);
}

#[test]
fn a_pass_stops_at_an_error() {
    let mut daemon = AutoIndexDaemon::new(AutoIndexConfig::default());
    let (mut pass, _) = begun(&daemon);
    assert_eq!(
        daemon.refresh_once(&mut pass, RefreshEvent::Compared(Err("gone".to_string()))),
        RefreshAction::Fail("gone".to_string())
    );
    assert_eq!(daemon.queued, 0);
    let (mut pass, _) = begun(&daemon);
    daemon.refresh_once(&mut pass, report(1));
    daemon.refresh_once(&mut pass, RefreshEvent::Waited);
    daemon.refresh_once(&mut pass, RefreshEvent::Looked(true));
    assert_eq!(
        daemon.refresh_once(&mut pass, RefreshEvent::Reindexed(Err("io".to_string()))),
        RefreshAction::Fail("io".to_string())
    );
    assert_eq!(daemon.queued, 1);
}

#[test]
fn a_missing_root_is_passed_over() {
    let mut daemon = AutoIndexDaemon::new(AutoIndexConfig::default());
    let (mut pass, _) = begun(&daemon);
    daemon.refresh_once(&mut pass, report(1));
    daemon.refresh_once(&mut pass, RefreshEvent::Waited);
    assert_eq!(
        daemon.refresh_once(&mut pass, RefreshEvent::Looked(false)),
        RefreshAction::Compare("b".to_string())
    );
    assert_eq!(daemon.queued, 0);
    let (_, nothing) = daemon.begin_refresh(&json("{}"));
    assert_eq!(nothing, RefreshAction::Finish);
    assert!(refresh_targets(&json(r#"{"projects": 1}"#)).is_empty());
    assert!(!needs_refresh(&json("{}")));
    assert!(!needs_refresh(&json(r#"{"changed_count": -1}"#)));
    assert!(needs_refresh(&json(r#"{"changed_count": 1}"#)));
}

#[test]
fn white_space_is_that_of_unicode() {
    for n in 0..=0x10ffffu32 {
        if let Some(c) = char::from_u32(n) {
            assert_eq!(is_white_space(c), c.is_whitespace());
        }
    }
}

#[test]
fn lines_and_trimming_agree_with_strings() {
    for text in ["", "a", "a\n", "a\r\nb", "\n\n", "a\rb\r", " x \u{a0}", "\r\n\r"] {
        let split: Vec<String> = text.lines().map(|l| l.to_string()).collect();
        assert_eq!(lines(text), split);
        assert_eq!(trim(text), text.trim());
    }
}
