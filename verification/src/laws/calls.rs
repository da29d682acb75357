//! What the functions of the engine give back, on every call.

use vstd::prelude::*;

use crate::architecture::{architecture_map, architecture_of};
use crate::daemon::{
    after_event, has_changes, healthz, needs_refresh, profiles, refresh_targets, target_views,
    targets_in, tracked_projects, ActionView, AutoIndexConfig, AutoIndexDaemon, DaemonView, Refresh,
    RefreshAction, RefreshEvent, RefreshTarget,
};
use crate::git::{entries_printed, git_state, printed, GitRun};
use crate::json::{or_empty, views, JsonValue, JsonView};
use crate::laws::names::skill_names;
use crate::mcp::{
    answer_or_error, call_result, dispatch_mcp_tool, mcp, mcp_reply, reply_of, schema_of, step_of,
    tool_input_schema, tool_names as offered_names, tool_of, tool_result, tools, McpStep, McpTool,
    McpToolView,
};
use crate::paths::{clab_home, file_in, home_directory, joined_path};
use crate::plan::{
    build_plan_points, build_profile_plan, plan_from_search, plan_name, unique_plan_id, call_arguments, code_search_args, codebase_call,
    env_project_path, expand_reply, fresh, graph_search_args, named_root, names_project,
    no_points_reply, plan_dir, plan_of, plan_path, plan_root, points_of, points_reply,
    profile_expand, profile_read, profile_root, profile_validate, project_for_scope,
    read_plan_points, recommend_follow_up_calls, recommended, requested_points, root_or,
    scope_request_root, scope_root, scoped_tool_args, search_for, select_points, with_project,
    without_scope, write_plan, PlanFile,
};
use crate::ranking::{
    profile_result_score, rank_search_results, ranked, score_of,
};
use crate::scanner::{
    extract_symbols, project_name, project_name_of, scan_file, scan_step, scan_step_of, symbols_in,
    with_slashes, EntryKind, ScanStep,
};
use crate::search::{
    contextual_result_penalty, finalize_plan_results, finalized, found_by, merge_plan_results,
    penalty_for, merged, plan_matches, search_plan_matches, search_step_results,
    step_request, step_search,
};
use crate::skills::{
    haystacks_of, read_skill, skill_answer, skill_delete, skill_file, skill_get, skill_hits,
    skill_json, skill_path, skill_search, skill_upsert, skills_dir,
    skills_directory, SkillWrite,
};
use crate::seqs::first_of;
use crate::steps::{plan_search_steps, step_views, steps_for, PlanSearchStep};
use crate::store::{
    architecture_answer, call_of, change_report, code_hits, deletion_of, first_snippet, graph_hits,
    index_file, index_of, search_results, summaries, ArchitectureArgs, CallView, ClabStore,
    DetectChangesArgs, IndexReads, ProjectDeletion, ReadsView, SearchRequest, SnippetRequest,
    ToolCall,
};
use crate::terms::{query_terms, terms_in};
use crate::text::{lines_of, lowercase, optional_str, optional_text, texts};
use crate::types::{
    file_views, index_views, symbol_views, AutoIndexStatus, ClabIndex, FileEntry, GitProjectState,
    SymbolEntry,
};
use crate::util::{index_summary, ToolError, ToolErrorView};
use crate::wire::{json_text, parsed_json, pretty_json, readable, reads_like, Digits};

verus! {

// ---------------------------------------------------------------------------
// The store
// ---------------------------------------------------------------------------

/// A store is the directory `indexes` of the engine's; one project is read from its index file,
/// all of them from the directory, and a plan from the index of its root.
pub proof fn a_store_reads_the_project_named(
    store: &ClabStore,
    project: &str,
    root: &str,
    one: IndexReads,
    all: IndexReads,
    planned: IndexReads,
    path: String,
    home: &str,
    made: ClabStore,
)
    requires
        call_ensures(ClabStore::filtered, (store, Some(project)), one),
        call_ensures(ClabStore::filtered, (store, None::<&str>), all),
        call_ensures(ClabStore::plan_reads, (store, root), planned),
        call_ensures(ClabStore::index_path, (store, project), path),
        call_ensures(ClabStore::with_root, (home,), made),
    ensures
        one@ == ReadsView::One(index_file(store.root@, project@)),
        all@ == ReadsView::All(store.root@),
        planned@ == ReadsView::One(index_file(store.root@, project_name_of(root@))),
        path@ == index_file(store.root@, project@),
        made.root@ == joined_path(home@, "indexes"@),
{
}

/// A call comes of the name and the arguments of a tool, and an error of nothing else.
pub proof fn a_tool_makes_its_call(
    store: &ClabStore,
    tool: &str,
    args: &JsonValue,
    call: Result<ToolCall, ToolError>,
)
    requires
        call_ensures(ClabStore::dispatch, (store, tool, args), call),
    ensures
        call matches Ok(made) ==> call_of(tool@, args@) == Ok::<CallView, ToolErrorView>(made@),
        call matches Err(e) ==> call_of(tool@, args@) == Err::<CallView, ToolErrorView>(e@),
{
}

/// A search gives the hits for its pattern in the indexes that were read, as many as its limit
/// allows.
pub proof fn a_search_answers_with_its_hits(
    store: &ClabStore,
    request: &SearchRequest,
    indexes: &Vec<ClabIndex>,
    symbols: JsonValue,
    lines: JsonValue,
)
    requires
        call_ensures(ClabStore::search_graph, (store, request, indexes), symbols),
        call_ensures(ClabStore::search_code, (store, request, indexes), lines),
    ensures
        symbols@ == search_results(
            graph_hits(index_views(indexes@), request.pattern@),
            request.limit,
        ),
        lines@ == search_results(code_hits(index_views(indexes@), request.pattern@), request.limit),
{
}

/// A snippet is the first for its name in the indexes that were read, or there is no such symbol.
pub proof fn a_snippet_answers_for_its_name(
    store: &ClabStore,
    request: &SnippetRequest,
    indexes: &Vec<ClabIndex>,
    answer: Result<JsonValue, ToolError>,
)
    requires
        call_ensures(ClabStore::get_code_snippet, (store, request, indexes), answer),
    ensures
        answer matches Ok(snippet) ==> first_snippet(index_views(indexes@), request.name@) == Some(
            snippet@,
        ),
        answer matches Err(e) ==> first_snippet(index_views(indexes@), request.name@) is None && e@
            == ToolErrorView::SymbolNotFound,
{
}

/// A report compares an index with the git state and the changes that git prints now; it lists
/// files, up to fifty, where the arguments do not say.
pub proof fn a_report_answers_for_its_index(
    store: &ClabStore,
    input: &DetectChangesArgs,
    index: &ClabIndex,
    current: &GitProjectState,
    status: &Option<GitRun>,
    report: JsonValue,
)
    requires
        call_ensures(ClabStore::detect_changes, (store, input, index, current, status), report),
    ensures
        ({
            let lists = input.include_files != Some(false);
            let limit: nat = match input.limit {
                Some(n) => n as nat,
                None => 50,
            };
            report@ == change_report(index@, current@, entries_printed(*status), lists, limit)
        }),
{
}

/// An index is made of the files, the git state and the time that are given, and is answered with
/// its summary.
pub proof fn indexing_answers_with_a_summary(
    store: &ClabStore,
    root: &str,
    files: Vec<FileEntry>,
    git: GitProjectState,
    now: u64,
    indexed: (ClabIndex, JsonValue),
)
    requires
        call_ensures(ClabStore::index_repository, (store, root, files, git, now), indexed),
    ensures
        indexed.0@ == index_of(root@, file_views(files@), git@, now as int),
        indexed.1@ == index_summary(indexed.0@, "indexed"@),
{
}

/// An index that is there is ready, and a listing has every one of them.
pub proof fn indexes_are_summed_up(
    store: &ClabStore,
    index: &ClabIndex,
    indexes: &Vec<ClabIndex>,
    status: JsonValue,
    listing: JsonValue,
)
    requires
        call_ensures(ClabStore::index_status, (store, index), status),
        call_ensures(ClabStore::list_projects, (store, indexes), listing),
    ensures
        status@ == index_summary(index@, "ready"@),
        listing@.items_at("projects"@) == Some(summaries(index_views(indexes@))),
{
}

/// A deletion and a map are those of what was asked for.
pub proof fn deletions_and_maps_are_as_asked_for(
    store: &ClabStore,
    project: &str,
    existed: bool,
    deletion: ProjectDeletion,
    input: &ArchitectureArgs,
    indexes: &Vec<ClabIndex>,
    map: JsonValue,
)
    requires
        call_ensures(ClabStore::delete_project, (store, project, existed), deletion),
        call_ensures(ClabStore::get_architecture, (store, input, indexes), map),
    ensures
        deletion@ == deletion_of(store.root@, project@, existed),
        map@ == architecture_answer(index_views(indexes@), *input),
{
}

// ---------------------------------------------------------------------------
// Scanning and git
// ---------------------------------------------------------------------------

/// A file that was read is entered with its path, its size, the number of its lines and its text,
/// and its symbols are those of its lines.
pub proof fn a_file_is_entered_as_it_is(
    relative: &str,
    bytes: u64,
    text: String,
    entry: FileEntry,
    file: &FileEntry,
    symbols: Vec<SymbolEntry>,
)
    requires
        call_ensures(scan_file, (relative, bytes, text), entry),
        call_ensures(extract_symbols, (file,), symbols),
    ensures
        entry.path@ == with_slashes(relative@),
        entry.bytes == bytes,
        entry.lines == lines_of(text@).len(),
        entry.text@ == text@,
        symbol_views(symbols@) == symbols_in(file.path@, lines_of(file.text@)),
{
    assert(entry@.path == entry.path@);
    assert(entry@.text == entry.text@);
    assert(entry@.bytes == entry.bytes as int);
    assert(entry@.lines == entry.lines as int);
}

/// A project is named by its path, and an entry is scanned by its kind, its name and its size.
pub proof fn names_and_entries_are_judged(
    path: &str,
    name: String,
    kind: EntryKind,
    entry: &str,
    bytes: u64,
    step: ScanStep,
)
    requires
        call_ensures(project_name, (path,), name),
        call_ensures(scan_step, (kind, entry, bytes), step),
    ensures
        name@ == project_name_of(path@),
        step == scan_step_of(kind, entry@, bytes as int),
{
}

/// A git state says what stands at the root and what git printed of its branch and its head.
pub proof fn a_git_state_is_what_git_printed(
    is_git: bool,
    root_exists: bool,
    branch: &Option<GitRun>,
    head: &Option<GitRun>,
    state: GitProjectState,
)
    requires
        call_ensures(git_state, (is_git, root_exists, branch, head), state),
    ensures
        state.is_git == is_git,
        state.root_exists == root_exists,
        optional_text(state.branch) == printed(*branch),
        optional_text(state.head_sha) == printed(*head),
{
    assert(state@.branch == optional_text(state.branch));
    assert(state@.head_sha == optional_text(state.head_sha));
}

// ---------------------------------------------------------------------------
// Plans
// ---------------------------------------------------------------------------

/// The terms of a query, the searches for it and what they find are those of the query.
pub proof fn a_query_is_searched_for(
    store: &ClabStore,
    indexes: &Vec<ClabIndex>,
    files: &Vec<FileEntry>,
    project: &str,
    profile: &str,
    query: &str,
    max_points: usize,
    terms: Vec<String>,
    steps: Vec<PlanSearchStep>,
    search: JsonValue,
)
    requires
        call_ensures(query_terms, (query,), terms),
        call_ensures(plan_search_steps, (profile, query), steps),
        call_ensures(
            search_plan_matches,
            (store, indexes, files, project, profile, query, max_points),
            search,
        ),
    ensures
        texts(terms@) == terms_in(query@),
        step_views(steps@) == steps_for(profile@, query@),
        search@.items_at("results"@) == Some(
            plan_matches(
                index_views(indexes@),
                file_views(files@),
                profile@,
                query@,
                max_points,
            ),
        ),
{
}

/// One search of a plan asks for its term in the project of the plan, and gives what it finds.
pub proof fn one_search_gives_what_it_finds(
    store: &ClabStore,
    indexes: &Vec<ClabIndex>,
    files: &Vec<FileEntry>,
    project: &str,
    profile: &str,
    step: &PlanSearchStep,
    limit: usize,
    request: SearchRequest,
    results: Vec<JsonValue>,
)
    requires
        call_ensures(step_request, (project, step, limit), request),
        call_ensures(
            search_step_results,
            (store, indexes, files, project, profile, step, limit),
            results,
        ),
    ensures
        request@ == step_search(project@, step@, limit),
        views(results@) == found_by(
            index_views(indexes@),
            file_views(files@),
            profile@,
            step@,
            limit,
        ),
{
}

/// A plan is that of its request, by what was found for it, and its points and what follows are
/// those of the results.
pub proof fn a_plan_answers_its_request(
    store: &ClabStore,
    indexes: &Vec<ClabIndex>,
    files: &Vec<FileEntry>,
    body: &JsonValue,
    root: &str,
    plan_id: &str,
    plan: JsonValue,
    results: &Vec<JsonValue>,
    max_points: usize,
    points: Vec<JsonValue>,
    profile: &str,
    query: &str,
    calls: Vec<String>,
)
    requires
        call_ensures(build_profile_plan, (store, indexes, files, body, root, plan_id), plan),
        call_ensures(build_plan_points, (root, results, max_points), points),
        call_ensures(recommend_follow_up_calls, (profile, plan_id, query, results), calls),
    ensures
        plan@ == plan_of(
            body@,
            root@,
            search_for(index_views(indexes@), file_views(files@), body@),
            plan_id@,
        ),
        views(points@) == points_of(root@, views(results@), max_points as int),
        texts(calls@) == recommended(profile@, plan_id@, query@, views(results@)),
{
}

/// A plan is kept in the directory `plans` of the engine's, in a file of its name, as JSON; what
/// is read of it are the points that a request asks for.
pub proof fn a_plan_is_kept_under_its_name(
    set: Option<&str>,
    home: Option<&str>,
    kept: String,
    directory: &str,
    plan: &JsonValue,
    file: PlanFile,
    body: &JsonValue,
    path: String,
    points: Vec<JsonValue>,
    bytes: &[u8],
    read: Result<Vec<JsonValue>, String>,
)
    requires
        call_ensures(plan_dir, (set, home), kept),
        call_ensures(write_plan, (directory, plan), file),
        call_ensures(plan_path, (directory, body), path),
        call_ensures(select_points, (plan, body), points),
        call_ensures(read_plan_points, (bytes, body), read),
    ensures
        kept@ == joined_path(home_directory(optional_str(set), optional_str(home)), "plans"@),
        plan@.text_at("plan_id"@) matches Some(name) ==> file.path@ == file_in(
            directory@,
            name,
            ".json"@,
        ),
        file.bytes@ == pretty_json(plan@),
        readable(plan@, 127, Digits::Any) ==> reads_like(file.bytes@, plan@),
        body@.text_at("plan_id"@) matches Some(name) ==> path@ == file_in(
            directory@,
            name,
            ".json"@,
        ),
        views(points@) == requested_points(plan@, body@),
        read matches Ok(found) ==> (parsed_json(bytes@) matches Ok(held) && views(found@)
            == requested_points(held, body@)),
        read matches Err(reason) ==> parsed_json(bytes@) == Err::<JsonView, Seq<char>>(reason@),
{
}

/// Replies to requests for points carry the points that were read, marked as fresh where that was
/// asked for, or why there are none.
pub proof fn points_are_answered(
    body: &JsonValue,
    points: Vec<JsonValue>,
    reason: String,
    shown: JsonValue,
    failed: JsonValue,
    checked: JsonValue,
    unchecked: JsonValue,
    expanded: JsonValue,
)
    requires
        call_ensures(profile_read, (body, Ok::<Vec<JsonValue>, String>(points)), shown),
        call_ensures(profile_read, (body, Err::<Vec<JsonValue>, String>(reason)), failed),
        call_ensures(profile_validate, (body, Ok::<Vec<JsonValue>, String>(points)), checked),
        call_ensures(profile_validate, (body, Err::<Vec<JsonValue>, String>(reason)), unchecked),
        call_ensures(profile_expand, (body,), expanded),
    ensures
        shown@ == points_reply(body@.get("plan_id"@), views(points@)),
        failed@ == no_points_reply(reason@),
        checked@ == points_reply(body@.get("plan_id"@), fresh(views(points@))),
        unchecked@ == no_points_reply(reason@),
        expanded@ == expand_reply(body@),
{
}

/// The root of a plan is the one in its scope or else the one that is set; that of a request is
/// the one that it names or else the one that is set, and its project is named after it.
pub proof fn roots_are_chosen(
    body: &JsonValue,
    set: Option<&str>,
    codebase: &str,
    project: Option<&str>,
    planned: String,
    scoped: Option<String>,
    asked: String,
    named: String,
    first: Option<String>,
    second: Option<String>,
)
    requires
        call_ensures(plan_root, (body, set), planned),
        call_ensures(profile_root, (body,), scoped),
        call_ensures(scope_request_root, (body, set), asked),
        call_ensures(project_for_scope, (body, set), named),
        call_ensures(env_project_path, (Some(codebase), project), first),
        call_ensures(env_project_path, (None::<&str>, project), second),
    ensures
        planned@ == root_or(scope_root(body@), optional_str(set)),
        optional_text(scoped) == scope_root(body@),
        asked@ == root_or(named_root(body@), optional_str(set)),
        named@ == project_name_of(root_or(named_root(body@), optional_str(set))),
        optional_text(first) == Some(codebase@),
        optional_text(second) == optional_str(project),
{
}

/// The arguments for a tool are those of the request for a project; a search has its query or its
/// pattern, empty where there is none, and a call that names its tool has that tool and its own
/// arguments.
pub proof fn arguments_are_those_of_the_request(
    body: &JsonValue,
    project: &str,
    scoped: JsonValue,
    symbols: JsonValue,
    lines: JsonValue,
    call: (String, JsonValue),
    named: bool,
)
    requires
        call_ensures(scoped_tool_args, (body, project), scoped),
        call_ensures(graph_search_args, (body, project), symbols),
        call_ensures(code_search_args, (body, project), lines),
        call_ensures(codebase_call, (body, project), call),
        call_ensures(names_project, (body,), named),
    ensures
        ({
            let args = with_project(without_scope(body@), project@);
            let empty = JsonView::Text(Seq::empty());
            &&& scoped@ == args
            &&& symbols@ == args.with(
                "query"@,
                match body@.get("query"@) {
                    Some(query) => query,
                    None => empty,
                },
            )
            &&& lines@ == args.with(
                "pattern"@,
                match body@.get("pattern"@) {
                    Some(pattern) => pattern,
                    None => empty,
                },
            )
            &&& body@.text_at("tool"@) matches Some(tool) ==> call.0@ == tool
            &&& call.1@ == with_project(call_arguments(body@), project@)
            &&& named <==> body@.text_at("project"@) is Some
        }),
{
}

// ---------------------------------------------------------------------------
// Skills
// ---------------------------------------------------------------------------

/// Skills are searched in lowercase, up to five of them where a request does not say, and got by
/// their name, whole where it does not say.
pub proof fn skills_are_found_and_got(
    args: &JsonValue,
    skills: &Vec<JsonValue>,
    found: JsonValue,
    got: JsonValue,
    limit: usize,
)
    requires
        call_ensures(skill_search, (args, skills), found),
        call_ensures(skill_get, (args, skills), got),
    ensures
        ({
            let query = or_empty(args@.text_at("query"@));
            let hits = skill_hits(views(skills@), haystacks_of(views(skills@)), lowercase(query));
            &&& args@.get("limit"@) == Some(JsonView::Integer(limit as int)) ==> found@
                == JsonView::Array(first_of(hits, limit as int))
            &&& args@.uint_at("limit"@) is None ==> found@ == JsonView::Array(first_of(hits, 5))
            &&& args@.uint_at("max_chars"@) is None ==> got@ == skill_answer(
                views(skills@),
                or_empty(args@.text_at("name"@)),
                args@.bool_at("summary_only"@) == Some(true),
                None,
            )
            &&& args@.get("max_chars"@) == Some(JsonView::Integer(limit as int)) ==> got@
                == skill_answer(
                views(skills@),
                or_empty(args@.text_at("name"@)),
                args@.bool_at("summary_only"@) == Some(true),
                Some(limit),
            )
        }),
{
    assert(limit as u64 as usize == limit);
}

/// A skill is stored in a file of its name, with its summary, or else its description, and its
/// body; it is read from there, and deleting it says whether it was there.
pub proof fn a_skill_is_stored_under_its_name(
    directory: &str,
    args: &JsonValue,
    write: SkillWrite,
    name: &str,
    path: String,
    existed: bool,
    gone: JsonValue,
    text: &str,
    skill: JsonValue,
)
    requires
        call_ensures(skill_upsert, (directory, args), write),
        call_ensures(skill_path, (directory, name), path),
        call_ensures(skill_delete, (args, existed), gone),
        call_ensures(read_skill, (name, text), skill),
    ensures
        ({
            let own = or_empty(args@.text_at("name"@));
            let body = or_empty(args@.text_at("body"@));
            &&& write.path@ == file_in(directory@, own, ".md"@)
            &&& args@.text_at("summary"@) matches Some(summary) ==> write.text@ == skill_file(
                summary,
                body,
            )
            &&& args@.get("summary"@) is None ==> (args@.text_at("description"@) matches Some(
                summary,
            ) ==> write.text@ == skill_file(summary, body))
            &&& args@.get("summary"@) is None && args@.get("description"@) is None ==> write.text@
                == skill_file(Seq::empty(), body)
            &&& write.reply@.text_at("name"@) == Some(own)
            &&& write.reply@.get("version"@) == Some(JsonView::Integer(1))
            &&& write.reply@.bool_at("created"@) == Some(true)
            &&& path@ == file_in(directory@, name@, ".md"@)
            &&& gone@.text_at("name"@) == Some(own)
            &&& gone@.bool_at("deleted"@) == Some(existed)
            &&& skill@ == skill_json(name@, text@)
        }),
{
    skill_names();
}

// ---------------------------------------------------------------------------
// Requests
// ---------------------------------------------------------------------------

/// A request is answered by its method, a tool by its name and its arguments, and the outcome of
/// a tool is its answer as a text, marked where it failed.
pub proof fn requests_are_answered(
    store: &ClabStore,
    body: &JsonValue,
    step: McpStep,
    name: &str,
    args: &JsonValue,
    tool: Result<McpTool, ToolError>,
    schema: JsonValue,
    answer: JsonValue,
    reason: String,
    good: JsonValue,
    bad: JsonValue,
    result: JsonValue,
    reply: JsonValue,
    offered: Vec<String>,
)
    requires
        call_ensures(mcp, (body,), step),
        call_ensures(dispatch_mcp_tool, (store, name, args), tool),
        call_ensures(tool_input_schema, (name,), schema),
        call_ensures(tool_result, (Ok::<JsonValue, String>(answer),), good),
        call_ensures(tool_result, (Err::<JsonValue, String>(reason),), bad),
        call_ensures(mcp_reply, (body, result), reply),
        call_ensures(offered_names, (), offered),
    ensures
        step@ == step_of(body@),
        tool matches Ok(made) ==> tool_of(name@, args@) == Ok::<McpToolView, ToolErrorView>(made@),
        tool matches Err(e) ==> tool_of(name@, args@) == Err::<McpToolView, ToolErrorView>(e@),
        schema@ == schema_of(name@),
        good@ == call_result(json_text(answer@), false),
        bad@ == call_result(json_text(answer_or_error(Err(reason@))), true),
        reply@ == reply_of(body@, result@),
        texts(offered@) == tools(),
{
}

// ---------------------------------------------------------------------------
// The daemon
// ---------------------------------------------------------------------------

/// A daemon is made with its settings and does not run; it goes through the projects of a listing
/// from the first on, and refreshes one whose report counts changes.
pub proof fn a_daemon_begins_with_the_first_project(
    config: AutoIndexConfig,
    made: AutoIndexDaemon,
    daemon: &AutoIndexDaemon,
    listing: &JsonValue,
    begun: (Refresh, RefreshAction),
    targets: Vec<RefreshTarget>,
    report: &JsonValue,
    needed: bool,
)
    requires
        call_ensures(AutoIndexDaemon::new, (config,), made),
        call_ensures(AutoIndexDaemon::begin_refresh, (daemon, listing), begun),
        call_ensures(refresh_targets, (listing,), targets),
        call_ensures(needs_refresh, (report,), needed),
    ensures
        made@.config == config@,
        !made.running,
        made.queued == 0,
        made.last_error is None,
        ({
            let all = match listing@.items_at("projects"@) {
                Some(projects) => targets_in(projects),
                None => Seq::empty(),
            };
            &&& target_views(targets@) == all
            &&& begun.0@.targets == all
            &&& begun.0.next == 0
            &&& all.len() == 0 ==> begun.1@ == ActionView::Finish
            &&& all.len() > 0 ==> begun.1@ == ActionView::Compare(all[0].name)
        }),
        needed <==> has_changes(report@),
{
    assert(made@.running == made.running);
    assert(made@.queued == made.queued);
    assert(made@.last_error == optional_text(made.last_error));
    assert(begun.0@.next == begun.0.next as int);
}

/// A status says whether the daemon is enabled and runs, how many projects there are and wait,
/// and what went wrong last.
pub proof fn a_status_says_how_the_daemon_does(
    daemon: &AutoIndexDaemon,
    listing: &JsonValue,
    live: AutoIndexStatus,
    blind: AutoIndexStatus,
    plain: AutoIndexStatus,
    alive: JsonValue,
    wanted: JsonValue,
)
    requires
        call_ensures(AutoIndexDaemon::status_live, (daemon, Some(listing)), live),
        call_ensures(AutoIndexDaemon::status_live, (daemon, None::<&JsonValue>), blind),
        call_ensures(AutoIndexDaemon::status, (daemon,), plain),
        call_ensures(healthz, (), alive),
        call_ensures(profiles, (), wanted),
    ensures
        ({
            let count = match listing@.items_at("projects"@) {
                Some(projects) => projects.len(),
                None => 0,
            };
            &&& live.enabled == daemon.config.enabled && live.running == daemon.running
            &&& live.tracked_projects == count && live.queued_projects == daemon.queued
            &&& optional_text(live.last_error) == optional_text(daemon.last_error)
            &&& live.indexing_projects@.len() == 0
            &&& blind.tracked_projects == 0 && blind.queued_projects == daemon.queued
            &&& optional_text(blind.last_error) == optional_text(daemon.last_error)
            &&& plain.enabled == daemon.config.enabled && plain.running == daemon.running
            &&& plain.tracked_projects == 0 && plain.queued_projects == daemon.queued
            &&& plain.last_error is None
        }),
        alive@.text_at("status"@) == Some("ok"@),
        wanted@.items_at("profiles"@) matches Some(names) && names.len() == 3 && names[0]
            == JsonView::Text("bug_investigation"@) && names[1] == JsonView::Text(
            "find_definition"@,
        ) && names[2] == JsonView::Text("trace_impact"@),
{
    assert(live@.last_error == optional_text(live.last_error));
    assert(blind@.last_error == optional_text(blind.last_error));
    assert(plain@.last_error == optional_text(plain.last_error));
    assert(daemon@.last_error == optional_text(daemon.last_error));
    assert(live@.tracked_projects == live.tracked_projects as int);
    assert(blind@.tracked_projects == blind.tracked_projects as int);
    assert(plain@.tracked_projects == plain.tracked_projects as int);
    assert(live@.queued_projects == live.queued_projects as int);
    assert(blind@.queued_projects == blind.queued_projects as int);
    assert(plain@.queued_projects == plain.queued_projects as int);
    assert(live@.indexing_projects == texts(live.indexing_projects@));
    assert(texts(live.indexing_projects@).len() == live.indexing_projects@.len());
    assert(live@.enabled == live.enabled && live@.running == live.running);
    assert(plain@.enabled == plain.enabled && plain@.running == plain.running);
}

/// A daemon that is started runs, and what went wrong in a pass is kept until one goes well;
/// nothing else of it changes.
pub proof fn a_daemon_is_started_and_told(
    started: &mut AutoIndexDaemon,
    told: &mut AutoIndexDaemon,
    relieved: &mut AutoIndexDaemon,
    reason: String,
)
    requires
        call_ensures(AutoIndexDaemon::start, (started,), ()),
        call_ensures(AutoIndexDaemon::note_refresh, (told, Err::<(), String>(reason)), ()),
        call_ensures(AutoIndexDaemon::note_refresh, (relieved, Ok::<(), String>(())), ()),
    ensures
        final(started)@ == (DaemonView { running: true, ..old(started)@ }),
        final(told)@ == (DaemonView { last_error: Some(reason@), ..old(told)@ }),
        final(relieved)@ == (DaemonView { last_error: None, ..old(relieved)@ }),
{
}

/// A pass goes on after an event as the settings of the daemon say, and changes of the daemon no
/// more than how many projects wait.
pub proof fn a_pass_goes_on_by_the_settings(
    daemon: &mut AutoIndexDaemon,
    refresh: &mut Refresh,
    event: RefreshEvent,
    action: RefreshAction,
)
    requires
        call_ensures(AutoIndexDaemon::refresh_once, (daemon, refresh, event), action),
    ensures
        ({
            let (place, queued, next) = after_event(
                old(refresh)@,
                old(daemon).queued,
                event@,
                old(daemon)@.config,
            );
            &&& final(refresh)@ == place
            &&& action@ == next
            &&& final(daemon)@ == (DaemonView { queued, ..old(daemon)@ })
        }),
{
    assert(final(daemon)@.queued == final(daemon).queued);
}

/// Results are merged and ranked in place.
pub proof fn results_are_merged_and_ranked(
    results: &mut Vec<JsonValue>,
    incoming: Vec<JsonValue>,
    limit: usize,
    profile: &str,
    step: &PlanSearchStep,
    found: &mut Vec<JsonValue>,
)
    requires
        call_ensures(merge_plan_results, (results, incoming, limit), ()),
        call_ensures(rank_search_results, (profile, step, found), ()),
    ensures
        views(final(results)@) == merged(views(old(results)@), views(incoming@), limit as int),
        views(final(found)@) == ranked(profile@, step@, views(old(found)@)),
{
}

/// Directories are chosen by what is set and where the home directory is, and plans are named by
/// the time, the process and a running number.
pub proof fn places_and_names_are_chosen(
    set: Option<&str>,
    home: Option<&str>,
    store: ClabStore,
    engine: String,
    skills: String,
    nanos: u128,
    process: u32,
    number: u64,
    name: String,
)
    requires
        call_ensures(ClabStore::from_env, (set, home), store),
        call_ensures(clab_home, (set, home), engine),
        call_ensures(skills_dir, (set, home), skills),
        call_ensures(unique_plan_id, (nanos, process, number), name),
    ensures
        store.root@ == joined_path(
            home_directory(optional_str(set), optional_str(home)),
            "indexes"@,
        ),
        engine@ == home_directory(optional_str(set), optional_str(home)),
        skills@ == skills_directory(optional_str(set), optional_str(home)),
        name@ == plan_name(nanos as nat, process as nat, number as nat),
{
}

/// Results are scored, penalised and kept, and maps and plans are made, of what is given.
pub proof fn results_are_judged(
    profile: &str,
    step: &PlanSearchStep,
    result: &JsonValue,
    score: i64,
    files: &Vec<FileEntry>,
    penalty: i32,
    results: Vec<JsonValue>,
    kept: Vec<JsonValue>,
    index: &ClabIndex,
    components: usize,
    hotspots: usize,
    summary: bool,
    map: JsonValue,
    body: &JsonValue,
    root: &str,
    search: &JsonValue,
    plan_id: &str,
    plan: JsonValue,
)
    requires
        call_ensures(profile_result_score, (profile, step, result), score),
        call_ensures(contextual_result_penalty, (files, result), penalty),
        call_ensures(finalize_plan_results, (profile, results), kept),
        call_ensures(architecture_map, (index, components, hotspots, summary), map),
        call_ensures(plan_from_search, (body, root, search, plan_id), plan),
    ensures
        score == score_of(profile@, step@, result@),
        penalty == penalty_for(file_views(files@), result@),
        views(kept@) == finalized(profile@, views(results@)),
        map@ == architecture_of(index@, components as int, hotspots as int, summary),
        plan@ == plan_of(body@, root@, search@, plan_id@),
{
}

} // verus!
