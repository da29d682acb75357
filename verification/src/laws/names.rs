//! The names of fields, tools and arguments, told apart by their lengths and characters.

use vstd::prelude::*;

verus! {

pub(crate) proof fn report_names()
    ensures
        "project"@.len() == 7,
        "root_path"@.len() == 9,
        "indexed_head_sha"@.len() == 16,
        "current_head_sha"@.len() == 16,
        "branch"@.len() == 6,
        "dirty"@.len() == 5,
        "head_changed"@.len() == 12,
        "branch_changed"@.len() == 14,
        "stale"@.len() == 5,
        "stale_reason"@.len() == 12,
        "changed_files"@.len() == 13,
        "untracked_files"@.len() == 15,
        "deleted_files"@.len() == 13,
        "changed_count"@.len() == 13,
        "recommended_action"@.len() == 18,
        "summary"@.len() == 7,
        "indexed"@.len() == 7,
        "current"@.len() == 7,
        "changed"@.len() == 7,
        "working_tree_dirty"@.len() == 18,
        "none"@.len() == 4,
        "reindex_full"@.len() == 12,
        "reindex_partial"@.len() == 15,
        "Index is current."@.len() == 17,
        "untracked"@.len() == 9,
        "deleted"@.len() == 7,
        "renamed"@.len() == 7,
        "modified"@.len() == 8,
        "added"@.len() == 5,
        "project"@ != "summary"@,
        "project"@ != "indexed"@,
        "project"@ != "current"@,
        "project"@ != "changed"@,
        "project"@ != "deleted"@,
        "project"@ != "renamed"@,
        "root_path"@ != "untracked"@,
        "indexed_head_sha"@ != "current_head_sha"@,
        "dirty"@ != "stale"@,
        "dirty"@ != "added"@,
        "head_changed"@ != "stale_reason"@,
        "head_changed"@ != "reindex_full"@,
        "stale"@ != "added"@,
        "stale_reason"@ != "reindex_full"@,
        "changed_files"@ != "deleted_files"@,
        "changed_files"@ != "changed_count"@,
        "untracked_files"@ != "reindex_partial"@,
        "deleted_files"@ != "changed_count"@,
        "recommended_action"@ != "working_tree_dirty"@,
        "summary"@ != "indexed"@,
        "summary"@ != "current"@,
        "summary"@ != "changed"@,
        "summary"@ != "deleted"@,
        "summary"@ != "renamed"@,
        "indexed"@ != "current"@,
        "indexed"@ != "changed"@,
        "indexed"@ != "deleted"@,
        "indexed"@ != "renamed"@,
        "current"@ != "changed"@,
        "current"@ != "deleted"@,
        "current"@ != "renamed"@,
        "changed"@ != "deleted"@,
        "changed"@ != "renamed"@,
        "deleted"@ != "renamed"@,
{
    reveal_strlit("project");
    reveal_strlit("root_path");
    reveal_strlit("indexed_head_sha");
    reveal_strlit("current_head_sha");
    reveal_strlit("branch");
    reveal_strlit("dirty");
    reveal_strlit("head_changed");
    reveal_strlit("branch_changed");
    reveal_strlit("stale");
    reveal_strlit("stale_reason");
    reveal_strlit("changed_files");
    reveal_strlit("untracked_files");
    reveal_strlit("deleted_files");
    reveal_strlit("changed_count");
    reveal_strlit("recommended_action");
    reveal_strlit("summary");
    reveal_strlit("indexed");
    reveal_strlit("current");
    reveal_strlit("changed");
    reveal_strlit("working_tree_dirty");
    reveal_strlit("none");
    reveal_strlit("reindex_full");
    reveal_strlit("reindex_partial");
    reveal_strlit("Index is current.");
    reveal_strlit("untracked");
    reveal_strlit("deleted");
    reveal_strlit("renamed");
    reveal_strlit("modified");
    reveal_strlit("added");
    assert("project"@[0] != "summary"@[0]);
    assert("project"@[0] != "indexed"@[0]);
    assert("project"@[0] != "current"@[0]);
    assert("project"@[0] != "changed"@[0]);
    assert("project"@[0] != "deleted"@[0]);
    assert("project"@[0] != "renamed"@[0]);
    assert("root_path"@[0] != "untracked"@[0]);
    assert("indexed_head_sha"@[0] != "current_head_sha"@[0]);
    assert("dirty"@[0] != "stale"@[0]);
    assert("dirty"@[0] != "added"@[0]);
    assert("head_changed"@[0] != "stale_reason"@[0]);
    assert("head_changed"@[0] != "reindex_full"@[0]);
    assert("stale"@[0] != "added"@[0]);
    assert("stale_reason"@[0] != "reindex_full"@[0]);
    assert("changed_files"@[0] != "deleted_files"@[0]);
    assert("changed_files"@[8] != "changed_count"@[8]);
    assert("untracked_files"@[0] != "reindex_partial"@[0]);
    assert("deleted_files"@[0] != "changed_count"@[0]);
    assert("recommended_action"@[0] != "working_tree_dirty"@[0]);
    assert("summary"@[0] != "indexed"@[0]);
    assert("summary"@[0] != "current"@[0]);
    assert("summary"@[0] != "changed"@[0]);
    assert("summary"@[0] != "deleted"@[0]);
    assert("summary"@[0] != "renamed"@[0]);
    assert("indexed"@[0] != "current"@[0]);
    assert("indexed"@[0] != "changed"@[0]);
    assert("indexed"@[0] != "deleted"@[0]);
    assert("indexed"@[0] != "renamed"@[0]);
    assert("current"@[1] != "changed"@[1]);
    assert("current"@[0] != "deleted"@[0]);
    assert("current"@[0] != "renamed"@[0]);
    assert("changed"@[0] != "deleted"@[0]);
    assert("changed"@[0] != "renamed"@[0]);
    assert("deleted"@[0] != "renamed"@[0]);
}

pub(crate) proof fn hit_names()
    ensures
        "project"@.len() == 7,
        "name"@.len() == 4,
        "label"@.len() == 5,
        "file"@.len() == 4,
        "line"@.len() == 4,
        "start_line"@.len() == 10,
        "snippet"@.len() == 7,
        "results"@.len() == 7,
        "project"@ != "snippet"@,
        "project"@ != "results"@,
        "name"@ != "file"@,
        "name"@ != "line"@,
        "file"@ != "line"@,
        "snippet"@ != "results"@,
{
    reveal_strlit("project");
    reveal_strlit("name");
    reveal_strlit("label");
    reveal_strlit("file");
    reveal_strlit("line");
    reveal_strlit("start_line");
    reveal_strlit("snippet");
    reveal_strlit("results");
    assert("project"@[0] != "snippet"@[0]);
    assert("project"@[0] != "results"@[0]);
    assert("name"@[0] != "file"@[0]);
    assert("name"@[0] != "line"@[0]);
    assert("file"@[0] != "line"@[0]);
    assert("snippet"@[0] != "results"@[0]);
}

pub(crate) proof fn plan_names()
    ensures
        "ok"@.len() == 2,
        "plan_id"@.len() == 7,
        "profile"@.len() == 7,
        "primary"@.len() == 7,
        "deferred_clusters"@.len() == 17,
        "next"@.len() == 4,
        "budget_used"@.len() == 11,
        "search_scope"@.len() == 12,
        "constraints"@.len() == 11,
        "budget"@.len() == 6,
        "primary_points"@.len() == 14,
        "primary_files"@.len() == 13,
        "primary_lines"@.len() == 13,
        "response_chars"@.len() == 14,
        "effective_roots"@.len() == 15,
        "point_id"@.len() == 8,
        "path"@.len() == 4,
        "relative_path"@.len() == 13,
        "absolute_path"@.len() == 13,
        "start_line"@.len() == 10,
        "end_line"@.len() == 8,
        "line_count"@.len() == 10,
        "snippet"@.len() == 7,
        "reason"@.len() == 6,
        "confidence"@.len() == 10,
        "cluster_id"@.len() == 10,
        "error"@.len() == 5,
        "points"@.len() == 6,
        "cluster"@.len() == 7,
        "truncated"@.len() == 9,
        "fresh"@.len() == 5,
        "results"@.len() == 7,
        "plan_id"@ != "profile"@,
        "plan_id"@ != "primary"@,
        "plan_id"@ != "snippet"@,
        "plan_id"@ != "cluster"@,
        "plan_id"@ != "results"@,
        "profile"@ != "primary"@,
        "profile"@ != "snippet"@,
        "profile"@ != "cluster"@,
        "profile"@ != "results"@,
        "primary"@ != "snippet"@,
        "primary"@ != "cluster"@,
        "primary"@ != "results"@,
        "next"@ != "path"@,
        "budget_used"@ != "constraints"@,
        "budget"@ != "reason"@,
        "budget"@ != "points"@,
        "primary_points"@ != "response_chars"@,
        "primary_files"@ != "primary_lines"@,
        "primary_files"@ != "relative_path"@,
        "primary_files"@ != "absolute_path"@,
        "primary_lines"@ != "relative_path"@,
        "primary_lines"@ != "absolute_path"@,
        "point_id"@ != "end_line"@,
        "relative_path"@ != "absolute_path"@,
        "start_line"@ != "line_count"@,
        "start_line"@ != "confidence"@,
        "start_line"@ != "cluster_id"@,
        "line_count"@ != "confidence"@,
        "line_count"@ != "cluster_id"@,
        "snippet"@ != "cluster"@,
        "snippet"@ != "results"@,
        "reason"@ != "points"@,
        "confidence"@ != "cluster_id"@,
        "error"@ != "fresh"@,
        "cluster"@ != "results"@,
{
    reveal_strlit("ok");
    reveal_strlit("plan_id");
    reveal_strlit("profile");
    reveal_strlit("primary");
    reveal_strlit("deferred_clusters");
    reveal_strlit("next");
    reveal_strlit("budget_used");
    reveal_strlit("search_scope");
    reveal_strlit("constraints");
    reveal_strlit("budget");
    reveal_strlit("primary_points");
    reveal_strlit("primary_files");
    reveal_strlit("primary_lines");
    reveal_strlit("response_chars");
    reveal_strlit("effective_roots");
    reveal_strlit("point_id");
    reveal_strlit("path");
    reveal_strlit("relative_path");
    reveal_strlit("absolute_path");
    reveal_strlit("start_line");
    reveal_strlit("end_line");
    reveal_strlit("line_count");
    reveal_strlit("snippet");
    reveal_strlit("reason");
    reveal_strlit("confidence");
    reveal_strlit("cluster_id");
    reveal_strlit("error");
    reveal_strlit("points");
    reveal_strlit("cluster");
    reveal_strlit("truncated");
    reveal_strlit("fresh");
    reveal_strlit("results");
    assert("plan_id"@[1] != "profile"@[1]);
    assert("plan_id"@[1] != "primary"@[1]);
    assert("plan_id"@[0] != "snippet"@[0]);
    assert("plan_id"@[0] != "cluster"@[0]);
    assert("plan_id"@[0] != "results"@[0]);
    assert("profile"@[2] != "primary"@[2]);
    assert("profile"@[0] != "snippet"@[0]);
    assert("profile"@[0] != "cluster"@[0]);
    assert("profile"@[0] != "results"@[0]);
    assert("primary"@[0] != "snippet"@[0]);
    assert("primary"@[0] != "cluster"@[0]);
    assert("primary"@[0] != "results"@[0]);
    assert("next"@[0] != "path"@[0]);
    assert("budget_used"@[0] != "constraints"@[0]);
    assert("budget"@[0] != "reason"@[0]);
    assert("budget"@[0] != "points"@[0]);
    assert("primary_points"@[0] != "response_chars"@[0]);
    assert("primary_files"@[8] != "primary_lines"@[8]);
    assert("primary_files"@[0] != "relative_path"@[0]);
    assert("primary_files"@[0] != "absolute_path"@[0]);
    assert("primary_lines"@[0] != "relative_path"@[0]);
    assert("primary_lines"@[0] != "absolute_path"@[0]);
    assert("point_id"@[0] != "end_line"@[0]);
    assert("relative_path"@[0] != "absolute_path"@[0]);
    assert("start_line"@[0] != "line_count"@[0]);
    assert("start_line"@[0] != "confidence"@[0]);
    assert("start_line"@[0] != "cluster_id"@[0]);
    assert("line_count"@[0] != "confidence"@[0]);
    assert("line_count"@[0] != "cluster_id"@[0]);
    assert("snippet"@[0] != "cluster"@[0]);
    assert("snippet"@[0] != "results"@[0]);
    assert("reason"@[0] != "points"@[0]);
    assert("confidence"@[1] != "cluster_id"@[1]);
    assert("error"@[0] != "fresh"@[0]);
    assert("cluster"@[0] != "results"@[0]);
}

pub(crate) proof fn scope_names()
    ensures
        "path"@.len() == 4,
        "cwd"@.len() == 3,
        "scope"@.len() == 5,
        "roots"@.len() == 5,
        "max_parent_depth"@.len() == 16,
        "project"@.len() == 7,
        "query"@.len() == 5,
        "pattern"@.len() == 7,
        "arguments"@.len() == 9,
        "tool"@.len() == 4,
        "limit"@.len() == 5,
        "path"@ != "tool"@,
        "scope"@ != "roots"@,
        "scope"@ != "query"@,
        "scope"@ != "limit"@,
        "roots"@ != "query"@,
        "roots"@ != "limit"@,
        "project"@ != "pattern"@,
        "query"@ != "limit"@,
{
    reveal_strlit("path");
    reveal_strlit("cwd");
    reveal_strlit("scope");
    reveal_strlit("roots");
    reveal_strlit("max_parent_depth");
    reveal_strlit("project");
    reveal_strlit("query");
    reveal_strlit("pattern");
    reveal_strlit("arguments");
    reveal_strlit("tool");
    reveal_strlit("limit");
    assert("path"@[0] != "tool"@[0]);
    assert("scope"@[0] != "roots"@[0]);
    assert("scope"@[0] != "query"@[0]);
    assert("scope"@[0] != "limit"@[0]);
    assert("roots"@[0] != "query"@[0]);
    assert("roots"@[0] != "limit"@[0]);
    assert("project"@[1] != "pattern"@[1]);
    assert("query"@[0] != "limit"@[0]);
}

pub(crate) proof fn tool_names()
    ensures
        "index_repository"@.len() == 16,
        "index_status"@.len() == 12,
        "list_projects"@.len() == 13,
        "delete_project"@.len() == 14,
        "detect_changes"@.len() == 14,
        "search_graph"@.len() == 12,
        "search_code"@.len() == 11,
        "get_code_snippet"@.len() == 16,
        "get_architecture"@.len() == 16,
        "skill_search"@.len() == 12,
        "skill_get"@.len() == 9,
        "put_skill"@.len() == 9,
        "delete_skill"@.len() == 12,
        "index_repository"@ != "get_code_snippet"@,
        "index_repository"@ != "get_architecture"@,
        "index_status"@ != "search_graph"@,
        "index_status"@ != "skill_search"@,
        "index_status"@ != "delete_skill"@,
        "delete_project"@ != "detect_changes"@,
        "search_graph"@ != "skill_search"@,
        "search_graph"@ != "delete_skill"@,
        "get_code_snippet"@ != "get_architecture"@,
        "skill_search"@ != "delete_skill"@,
        "skill_get"@ != "put_skill"@,
{
    reveal_strlit("index_repository");
    reveal_strlit("index_status");
    reveal_strlit("list_projects");
    reveal_strlit("delete_project");
    reveal_strlit("detect_changes");
    reveal_strlit("search_graph");
    reveal_strlit("search_code");
    reveal_strlit("get_code_snippet");
    reveal_strlit("get_architecture");
    reveal_strlit("skill_search");
    reveal_strlit("skill_get");
    reveal_strlit("put_skill");
    reveal_strlit("delete_skill");
    assert("index_repository"@[0] != "get_code_snippet"@[0]);
    assert("index_repository"@[0] != "get_architecture"@[0]);
    assert("index_status"@[0] != "search_graph"@[0]);
    assert("index_status"@[0] != "skill_search"@[0]);
    assert("index_status"@[0] != "delete_skill"@[0]);
    assert("delete_project"@[2] != "detect_changes"@[2]);
    assert("search_graph"@[1] != "skill_search"@[1]);
    assert("search_graph"@[0] != "delete_skill"@[0]);
    assert("get_code_snippet"@[4] != "get_architecture"@[4]);
    assert("skill_search"@[0] != "delete_skill"@[0]);
    assert("skill_get"@[0] != "put_skill"@[0]);
}

pub(crate) proof fn argument_names()
    ensures
        "repo_path"@.len() == 9,
        "mode"@.len() == 4,
        "project"@.len() == 7,
        "query"@.len() == 5,
        "limit"@.len() == 5,
        "qualified_name"@.len() == 14,
        "name"@.len() == 4,
        "max_components"@.len() == 14,
        "max_hotspots"@.len() == 12,
        "include_summary"@.len() == 15,
        "pattern"@.len() == 7,
        "include_files"@.len() == 13,
        "summary_only"@.len() == 12,
        "max_chars"@.len() == 9,
        "summary"@.len() == 7,
        "description"@.len() == 11,
        "body"@.len() == 4,
        "type"@.len() == 4,
        "properties"@.len() == 10,
        "required"@.len() == 8,
        "additionalProperties"@.len() == 20,
        "minimum"@.len() == 7,
        "inputSchema"@.len() == 11,
        "repo_path"@ != "max_chars"@,
        "mode"@ != "name"@,
        "mode"@ != "body"@,
        "mode"@ != "type"@,
        "project"@ != "pattern"@,
        "project"@ != "summary"@,
        "project"@ != "minimum"@,
        "query"@ != "limit"@,
        "qualified_name"@ != "max_components"@,
        "name"@ != "body"@,
        "name"@ != "type"@,
        "max_hotspots"@ != "summary_only"@,
        "pattern"@ != "summary"@,
        "pattern"@ != "minimum"@,
        "summary"@ != "minimum"@,
        "description"@ != "inputSchema"@,
        "body"@ != "type"@,
{
    reveal_strlit("repo_path");
    reveal_strlit("mode");
    reveal_strlit("project");
    reveal_strlit("query");
    reveal_strlit("limit");
    reveal_strlit("qualified_name");
    reveal_strlit("name");
    reveal_strlit("max_components");
    reveal_strlit("max_hotspots");
    reveal_strlit("include_summary");
    reveal_strlit("pattern");
    reveal_strlit("include_files");
    reveal_strlit("summary_only");
    reveal_strlit("max_chars");
    reveal_strlit("summary");
    reveal_strlit("description");
    reveal_strlit("body");
    reveal_strlit("type");
    reveal_strlit("properties");
    reveal_strlit("required");
    reveal_strlit("additionalProperties");
    reveal_strlit("minimum");
    reveal_strlit("inputSchema");
    assert("repo_path"@[0] != "max_chars"@[0]);
    assert("mode"@[0] != "name"@[0]);
    assert("mode"@[0] != "body"@[0]);
    assert("mode"@[0] != "type"@[0]);
    assert("project"@[1] != "pattern"@[1]);
    assert("project"@[0] != "summary"@[0]);
    assert("project"@[0] != "minimum"@[0]);
    assert("query"@[0] != "limit"@[0]);
    assert("qualified_name"@[0] != "max_components"@[0]);
    assert("name"@[0] != "body"@[0]);
    assert("name"@[0] != "type"@[0]);
    assert("max_hotspots"@[0] != "summary_only"@[0]);
    assert("pattern"@[0] != "summary"@[0]);
    assert("pattern"@[0] != "minimum"@[0]);
    assert("summary"@[0] != "minimum"@[0]);
    assert("description"@[0] != "inputSchema"@[0]);
    assert("body"@[0] != "type"@[0]);
}

pub(crate) proof fn skill_names()
    ensures
        "name"@.len() == 4,
        "summary"@.len() == 7,
        "tags"@.len() == 4,
        "version"@.len() == 7,
        "body"@.len() == 4,
        "score"@.len() == 5,
        "source"@.len() == 6,
        "truncated"@.len() == 9,
        "error"@.len() == 5,
        "created"@.len() == 7,
        "deleted"@.len() == 7,
        "skill"@.len() == 5,
        "name"@ != "tags"@,
        "name"@ != "body"@,
        "summary"@ != "version"@,
        "summary"@ != "created"@,
        "summary"@ != "deleted"@,
        "tags"@ != "body"@,
        "version"@ != "created"@,
        "version"@ != "deleted"@,
        "score"@ != "error"@,
        "score"@ != "skill"@,
        "error"@ != "skill"@,
        "created"@ != "deleted"@,
{
    reveal_strlit("name");
    reveal_strlit("summary");
    reveal_strlit("tags");
    reveal_strlit("version");
    reveal_strlit("body");
    reveal_strlit("score");
    reveal_strlit("source");
    reveal_strlit("truncated");
    reveal_strlit("error");
    reveal_strlit("created");
    reveal_strlit("deleted");
    reveal_strlit("skill");
    assert("name"@[0] != "tags"@[0]);
    assert("name"@[0] != "body"@[0]);
    assert("summary"@[0] != "version"@[0]);
    assert("summary"@[0] != "created"@[0]);
    assert("summary"@[0] != "deleted"@[0]);
    assert("tags"@[0] != "body"@[0]);
    assert("version"@[0] != "created"@[0]);
    assert("version"@[0] != "deleted"@[0]);
    assert("score"@[0] != "error"@[0]);
    assert("score"@[1] != "skill"@[1]);
    assert("error"@[0] != "skill"@[0]);
    assert("created"@[0] != "deleted"@[0]);
}

pub(crate) proof fn map_names()
    ensures
        "project"@.len() == 7,
        "root_path"@.len() == 9,
        "summary"@.len() == 7,
        "components"@.len() == 10,
        "entrypoints"@.len() == 11,
        "hotspots"@.len() == 8,
        "important_files"@.len() == 15,
        "confidence"@.len() == 10,
        "derived_from"@.len() == 12,
        "indexed_files"@.len() == 13,
        "indexed_symbols"@.len() == 15,
        "name"@.len() == 4,
        "kind"@.len() == 4,
        "files"@.len() == 5,
        "symbols"@.len() == 7,
        "role"@.len() == 4,
        "file"@.len() == 4,
        "reason"@.len() == 6,
        "symbol"@.len() == 6,
        "projects"@.len() == 8,
        "project"@ != "summary"@,
        "project"@ != "symbols"@,
        "summary"@ != "symbols"@,
        "components"@ != "confidence"@,
        "hotspots"@ != "projects"@,
        "important_files"@ != "indexed_symbols"@,
        "name"@ != "kind"@,
        "name"@ != "role"@,
        "name"@ != "file"@,
        "kind"@ != "role"@,
        "kind"@ != "file"@,
        "role"@ != "file"@,
        "reason"@ != "symbol"@,
{
    reveal_strlit("project");
    reveal_strlit("root_path");
    reveal_strlit("summary");
    reveal_strlit("components");
    reveal_strlit("entrypoints");
    reveal_strlit("hotspots");
    reveal_strlit("important_files");
    reveal_strlit("confidence");
    reveal_strlit("derived_from");
    reveal_strlit("indexed_files");
    reveal_strlit("indexed_symbols");
    reveal_strlit("name");
    reveal_strlit("kind");
    reveal_strlit("files");
    reveal_strlit("symbols");
    reveal_strlit("role");
    reveal_strlit("file");
    reveal_strlit("reason");
    reveal_strlit("symbol");
    reveal_strlit("projects");
    assert("project"@[0] != "summary"@[0]);
    assert("project"@[0] != "symbols"@[0]);
    assert("summary"@[1] != "symbols"@[1]);
    assert("components"@[2] != "confidence"@[2]);
    assert("hotspots"@[0] != "projects"@[0]);
    assert("important_files"@[1] != "indexed_symbols"@[1]);
    assert("name"@[0] != "kind"@[0]);
    assert("name"@[0] != "role"@[0]);
    assert("name"@[0] != "file"@[0]);
    assert("kind"@[0] != "role"@[0]);
    assert("kind"@[0] != "file"@[0]);
    assert("role"@[0] != "file"@[0]);
    assert("reason"@[0] != "symbol"@[0]);
}

pub(crate) proof fn message_names()
    ensures
        "jsonrpc"@.len() == 7,
        "id"@.len() == 2,
        "result"@.len() == 6,
        "content"@.len() == 7,
        "isError"@.len() == 7,
        "type"@.len() == 4,
        "text"@.len() == 4,
        "error"@.len() == 5,
        "tools"@.len() == 5,
        "protocolVersion"@.len() == 15,
        "capabilities"@.len() == 12,
        "serverInfo"@.len() == 10,
        "name"@.len() == 4,
        "version"@.len() == 7,
        "initialize"@.len() == 10,
        "tools/list"@.len() == 10,
        "tools/call"@.len() == 10,
        "params"@.len() == 6,
        "arguments"@.len() == 9,
        "description"@.len() == 11,
        "inputSchema"@.len() == 11,
        "listChanged"@.len() == 11,
        "method"@.len() == 6,
        "jsonrpc"@ != "content"@,
        "jsonrpc"@ != "isError"@,
        "jsonrpc"@ != "version"@,
        "result"@ != "params"@,
        "result"@ != "method"@,
        "content"@ != "isError"@,
        "content"@ != "version"@,
        "isError"@ != "version"@,
        "type"@ != "text"@,
        "type"@ != "name"@,
        "text"@ != "name"@,
        "error"@ != "tools"@,
        "serverInfo"@ != "initialize"@,
        "serverInfo"@ != "tools/list"@,
        "serverInfo"@ != "tools/call"@,
        "initialize"@ != "tools/list"@,
        "initialize"@ != "tools/call"@,
        "tools/list"@ != "tools/call"@,
        "params"@ != "method"@,
        "description"@ != "inputSchema"@,
        "description"@ != "listChanged"@,
        "inputSchema"@ != "listChanged"@,
{
    reveal_strlit("jsonrpc");
    reveal_strlit("id");
    reveal_strlit("result");
    reveal_strlit("content");
    reveal_strlit("isError");
    reveal_strlit("type");
    reveal_strlit("text");
    reveal_strlit("error");
    reveal_strlit("tools");
    reveal_strlit("protocolVersion");
    reveal_strlit("capabilities");
    reveal_strlit("serverInfo");
    reveal_strlit("name");
    reveal_strlit("version");
    reveal_strlit("initialize");
    reveal_strlit("tools/list");
    reveal_strlit("tools/call");
    reveal_strlit("params");
    reveal_strlit("arguments");
    reveal_strlit("description");
    reveal_strlit("inputSchema");
    reveal_strlit("listChanged");
    reveal_strlit("method");
    assert("jsonrpc"@[0] != "content"@[0]);
    assert("jsonrpc"@[0] != "isError"@[0]);
    assert("jsonrpc"@[0] != "version"@[0]);
    assert("result"@[0] != "params"@[0]);
    assert("result"@[0] != "method"@[0]);
    assert("content"@[0] != "isError"@[0]);
    assert("content"@[0] != "version"@[0]);
    assert("isError"@[0] != "version"@[0]);
    assert("type"@[1] != "text"@[1]);
    assert("type"@[0] != "name"@[0]);
    assert("text"@[0] != "name"@[0]);
    assert("error"@[0] != "tools"@[0]);
    assert("serverInfo"@[0] != "initialize"@[0]);
    assert("serverInfo"@[0] != "tools/list"@[0]);
    assert("serverInfo"@[0] != "tools/call"@[0]);
    assert("initialize"@[0] != "tools/list"@[0]);
    assert("initialize"@[0] != "tools/call"@[0]);
    assert("tools/list"@[6] != "tools/call"@[6]);
    assert("params"@[0] != "method"@[0]);
    assert("description"@[0] != "inputSchema"@[0]);
    assert("description"@[0] != "listChanged"@[0]);
    assert("inputSchema"@[0] != "listChanged"@[0]);
}

pub(crate) proof fn result_names()
    ensures
        "project"@.len() == 7,
        "name"@.len() == 4,
        "label"@.len() == 5,
        "file"@.len() == 4,
        "path"@.len() == 4,
        "line"@.len() == 4,
        "start_line"@.len() == 10,
        "snippet"@.len() == 7,
        "results"@.len() == 7,
        "reason"@.len() == 6,
        "confidence"@.len() == 10,
        "context_penalty"@.len() == 15,
        "project"@ != "snippet"@,
        "project"@ != "results"@,
        "name"@ != "file"@,
        "name"@ != "path"@,
        "name"@ != "line"@,
        "file"@ != "path"@,
        "file"@ != "line"@,
        "path"@ != "line"@,
        "start_line"@ != "confidence"@,
        "snippet"@ != "results"@,
{
    reveal_strlit("project");
    reveal_strlit("name");
    reveal_strlit("label");
    reveal_strlit("file");
    reveal_strlit("path");
    reveal_strlit("line");
    reveal_strlit("start_line");
    reveal_strlit("snippet");
    reveal_strlit("results");
    reveal_strlit("reason");
    reveal_strlit("confidence");
    reveal_strlit("context_penalty");
    assert("project"@[0] != "snippet"@[0]);
    assert("project"@[0] != "results"@[0]);
    assert("name"@[0] != "file"@[0]);
    assert("name"@[0] != "path"@[0]);
    assert("name"@[0] != "line"@[0]);
    assert("file"@[0] != "path"@[0]);
    assert("file"@[0] != "line"@[0]);
    assert("path"@[0] != "line"@[0]);
    assert("start_line"@[0] != "confidence"@[0]);
    assert("snippet"@[0] != "results"@[0]);
}

pub(crate) proof fn profile_names()
    ensures
        "find_definition"@.len() == 15,
        "trace_impact"@.len() == 12,
        "bug_investigation"@.len() == 17,
{
    reveal_strlit("find_definition");
    reveal_strlit("trace_impact");
    reveal_strlit("bug_investigation");
}

} // verus!
