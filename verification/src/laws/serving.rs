//! How skills are read and shown, how requests are answered, and what the daemon does next.

use vstd::prelude::*;

use crate::architecture::{component_kind, identity_of};
use crate::daemon::{
    after_event, has_changes, listed_projects, targets_in, ActionView, ConfigView, EventView,
    RefreshView, TargetView,
};
use crate::json::JsonView;
use crate::laws::names::{argument_names, message_names, skill_names, tool_names};
use crate::mcp::{
    answer_or_error, call_result, description_of, properties_of, reply_of, required_of, schema_of,
    server_info, step_of, tool_list, tool_of, tools, McpStepView, McpToolView,
};
use crate::paths::has_extension;
use crate::paths::joined_path;
use crate::seqs::first_of;
use crate::skills::{
    compacted, haystacks_of, skill_answer, skill_file, skill_hit, skill_hits, skill_json,
    skill_named, skill_text_of, skills_directory, summary_on, DEFAULT_SKILL_SEARCH_LIMIT,
};
use crate::store::{call_of, deletion_of, index_file};
use crate::text::{begins_with, finishes_with, has_text, lines_of, lowercase, stands_at, trimmed};
use crate::types::FileView;
use crate::util::{refusal, text_array_view, ToolErrorView};
use crate::wire::json_text;

verus! {

// ---------------------------------------------------------------------------
// Files
// ---------------------------------------------------------------------------

/// The index of a project is a file of its name with the extension `json`, and the answer to a
/// deletion is always one that went well.
pub proof fn indexes_are_files_of_their_projects(
    root: Seq<char>,
    project: Seq<char>,
    existed: bool,
)
    requires
        root.len() > 0,
        root.last() != '/',
        project.len() > 0,
        project[0] != '/',
    ensures
        index_file(root, project) == root + seq!['/'] + project + ".json"@,
        deletion_of(root, project, existed).answer.bool_at("ok"@) == Some(true),
        deletion_of(root, project, existed).answer.bool_at("deleted"@) == Some(existed),
        existed ==> deletion_of(root, project, existed).remove == Some(index_file(root, project)),
        !existed ==> deletion_of(root, project, existed).remove is None,
{
    reveal_strlit("ok");
    reveal_strlit("deleted");
    assert("ok"@.len() == 2 && "deleted"@.len() == 7);
    assert((project + ".json"@)[0] == project[0]);
    assert(root.push('/') + (project + ".json"@) =~= root + seq!['/'] + project + ".json"@);
}

/// The kind of a component is that of its first file.
pub proof fn the_first_file_tells_the_kind(file: FileView, files: Seq<FileView>, name: Seq<char>)
    ensures
        identity_of(file.path).0 == name ==> component_kind(seq![file] + files, name)
            == identity_of(file.path).1,
        identity_of(file.path).0 != name ==> component_kind(seq![file] + files, name)
            == component_kind(files, name),
{
    let all = seq![file] + files;
    assert(all[0] == file);
    assert(all.skip(1) =~= files);
}

/// Refusals are said in words.
pub proof fn refusals_say_what_is_wrong(text: Seq<char>)
    ensures
        refusal(ToolErrorView::Required(text)) == text + " is required"@,
        refusal(ToolErrorView::Unsupported(text)) == "unsupported tool: "@ + text,
        refusal(ToolErrorView::SymbolNotFound) == "symbol not found"@,
{
}

// ---------------------------------------------------------------------------
// Skills
// ---------------------------------------------------------------------------

/// A file is of a skill exactly where it is a name that is not empty and the extension `md`.
pub proof fn skills_are_markdown_files(file: Seq<char>)
    ensures
        skill_named(file) matches Some(name) ==> name.len() > 0 && file == name + ".md"@,
        skill_named(file) is None ==> file.len() <= 3 || file.skip(file.len() - 3) != ".md"@,
{
    reveal_strlit("md");
    reveal_strlit(".md");
    assert(seq!['.'] + "md"@ =~= ".md"@);
    if file.len() >= 3 {
        let cut = file.len() - 3;
        assert(file.subrange(cut, file.len() as int) =~= file.skip(cut));
        assert(file =~= file.take(cut) + file.skip(cut));
    }
    assert(!"md"@.contains('.')) by {
        assert("md"@ =~= seq!['m', 'd']);
    }
}

/// Skills are kept in the directory that is set, or else in `.clab/skills` in the home directory.
pub proof fn skills_are_kept_in_their_directory(
    set: Seq<char>,
    home: Option<Seq<char>>,
    user: Seq<char>,
)
    requires
        user.len() > 0,
        user.last() != '/',
    ensures
        skills_directory(Some(set), home) == set,
        skills_directory(None, Some(user)) == user + "/.clab/skills"@,
        skills_directory(None, None) == ".clab/skills"@,
{
    reveal_strlit(".clab/skills");
    reveal_strlit("/.clab/skills");
    assert(joined_path(user, ".clab/skills"@) =~= user + "/.clab/skills"@);
}

/// The summary of a skill is what follows `summary:` on the first line that begins so, without
/// the white space around it.
pub proof fn the_first_summary_line_counts(
    line: Seq<char>,
    rest: Seq<char>,
    lines: Seq<Seq<char>>,
)
    ensures
        line == "summary:"@ + rest ==> summary_on(seq![line] + lines) == trimmed(rest),
        !begins_with(line, "summary:"@) ==> summary_on(seq![line] + lines) == summary_on(lines),
        summary_on(Seq::empty()).len() == 0,
{
    let all = seq![line] + lines;
    assert(all[0] == line);
    assert(all.skip(1) =~= lines);
    if line == "summary:"@ + rest {
        let n = "summary:"@.len() as int;
        assert(line.subrange(0, n) =~= "summary:"@);
        assert(line.skip(n) =~= rest);
    }
}

/// A skill that is read has its name, its summary, its whole text as its body, no tags and the
/// first version.
pub proof fn a_skill_is_its_file(name: Seq<char>, text: Seq<char>)
    ensures
        skill_json(name, text).text_at("name"@) == Some(name),
        skill_json(name, text).text_at("summary"@) == Some(summary_on(lines_of(text))),
        skill_json(name, text).text_at("body"@) == Some(text),
        skill_json(name, text).items_at("tags"@) matches Some(tags) && tags.len() == 0,
        skill_json(name, text).get("version"@) == Some(JsonView::Integer(1)),
{
    skill_names();
}

/// A stored skill begins with its summary and ends with its body.
pub proof fn a_stored_skill_holds_summary_and_body(summary: Seq<char>, body: Seq<char>)
    ensures
        begins_with(skill_file(summary, body), "---\nsummary: "@ + summary + "\n"@),
        finishes_with(skill_file(summary, body), "\n---\n\n"@ + body + "\n"@),
        has_text(skill_file(summary, body), "\nversion: 1\n"@),
{
    reveal_strlit("---\nsummary: ");
    reveal_strlit("\nversion: 1\n---\n\n");
    reveal_strlit("\nversion: 1\n");
    reveal_strlit("\n---\n\n");
    reveal_strlit("\n");
    let file = skill_file(summary, body);
    let begin = "---\nsummary: "@ + summary + "\n"@;
    let end = "\n---\n\n"@ + body + "\n"@;
    assert(file.subrange(0, begin.len() as int) =~= begin);
    assert(file.subrange(file.len() - end.len(), file.len() as int) =~= end);
    let at = "---\nsummary: "@.len() as int + summary.len();
    assert(file.subrange(at, at + 12) =~= "\nversion: 1\n"@);
    assert(stands_at(file, "\nversion: 1\n"@, at));
}

/// Skills are searched one by one: one in whose text the query stands is shown by its name, its
/// summary, its tags and its version, and any other is left out; an empty query finds every one.
pub proof fn skills_are_searched_one_by_one(
    skill: JsonView,
    skills: Seq<JsonView>,
    text: Seq<char>,
    texts: Seq<Seq<char>>,
    query: Seq<char>,
)
    ensures
        ({
            let all = skill_hits(seq![skill] + skills, seq![text] + texts, query);
            let rest = skill_hits(skills, texts, query);
            let found = query.len() == 0 || has_text(text, query);
            &&& skill_hits(Seq::empty(), Seq::empty(), query).len() == 0
            &&& !found ==> all == rest
            &&& found ==> all.len() == rest.len() + 1 && all.skip(1) == rest && {
                &&& skill.get("name"@) is Some ==> all[0].get("name"@) == skill.get("name"@)
                &&& skill.get("summary"@) is Some ==> all[0].get("summary"@) == skill.get(
                    "summary"@,
                )
                &&& skill.get("tags"@) is Some ==> all[0].get("tags"@) == skill.get("tags"@)
                &&& skill.get("version"@) is Some ==> all[0].get("version"@) == skill.get(
                    "version"@,
                )
                &&& all[0].get("score"@) == Some(
                    JsonView::Integer(
                        if query.len() == 0 {
                            1
                        } else {
                            3
                        },
                    ),
                )
                &&& all[0].text_at("source"@) == Some("skill"@)
                &&& all[0].get("body"@) is None
            }
        }),
        DEFAULT_SKILL_SEARCH_LIMIT == 5,
{
    skill_names();
    let more = seq![skill] + skills;
    let words = seq![text] + texts;
    assert(more[0] == skill && words[0] == text);
    assert(more.skip(1) =~= skills);
    assert(words.skip(1) =~= texts);
    let rest = skill_hits(skills, texts, query);
    assert((seq![skill_hit(skill, query)] + rest).skip(1) =~= rest);
}

/// What is searched of a skill is its name, its summary and its body as JSON, with spaces
/// between.
pub proof fn skills_are_searched_by_name_summary_and_body(
    skill: JsonView,
    name: JsonView,
    summary: JsonView,
    body: JsonView,
)
    requires
        skill.get("name"@) == Some(name),
        skill.get("summary"@) == Some(summary),
        skill.get("body"@) == Some(body),
    ensures
        skill_text_of(skill) == json_text(name) + seq![' '] + json_text(summary) + seq![' ']
            + json_text(body),
{
    reveal_strlit(" ");
    assert(" "@ =~= seq![' ']);
}

/// What is searched of skills is their texts in lowercase, one for each.
pub proof fn skills_are_searched_in_lowercase(skills: Seq<JsonView>, k: int)
    requires
        0 <= k < skills.len(),
    ensures
        haystacks_of(skills).len() == skills.len(),
        haystacks_of(skills)[k] == lowercase(skill_text_of(skills[k])),
{
}

/// A skill is shown without its body where only the summary is wanted, with the first characters
/// of its body where a number of them is, and else as it is.
pub proof fn skills_are_shown_as_wanted(
    skill: JsonView,
    body: Seq<char>,
    max_chars: usize,
    key: Seq<char>,
)
    requires
        skill is Object,
        skill.text_at("body"@) == Some(body),
    ensures
        compacted(skill, true, Some(max_chars)).get("body"@) is None,
        compacted(skill, true, None).get("body"@) is None,
        key != "body"@ ==> compacted(skill, true, Some(max_chars)).get(key) == skill.get(key),
        compacted(skill, false, None) == skill,
        body.len() <= max_chars ==> compacted(skill, false, Some(max_chars)).text_at("body"@)
            == Some(body) && compacted(skill, false, Some(max_chars)).bool_at("truncated"@) == Some(
            false,
        ),
        body.len() > max_chars ==> compacted(skill, false, Some(max_chars)).text_at("body"@) == Some(
            body.take(max_chars as int),
        ) && compacted(skill, false, Some(max_chars)).bool_at("truncated"@) == Some(true),
        key != "body"@ && key != "truncated"@ ==> compacted(skill, false, Some(max_chars)).get(key)
            == skill.get(key),
{
    skill_names();
}

/// What has no body to shorten is shown as it is.
pub proof fn skills_without_a_body_stay(skill: JsonView, max_chars: usize)
    requires
        skill.text_at("body"@) is None,
    ensures
        compacted(skill, false, Some(max_chars)) == skill,
        compacted(skill, false, None) == skill,
        skill !is Object ==> compacted(skill, true, Some(max_chars)) == skill,
{
}

/// The first skill of a name is the one that is shown, and a name that no skill has is an error.
pub proof fn the_first_skill_of_a_name_is_shown(
    skill: JsonView,
    skills: Seq<JsonView>,
    name: Seq<char>,
    summary_only: bool,
    max_chars: Option<usize>,
)
    ensures
        skill.text_at("name"@) == Some(name) ==> skill_answer(
            seq![skill] + skills,
            name,
            summary_only,
            max_chars,
        ) == compacted(skill, summary_only, max_chars),
        skill.text_at("name"@) != Some(name) ==> skill_answer(
            seq![skill] + skills,
            name,
            summary_only,
            max_chars,
        ) == skill_answer(skills, name, summary_only, max_chars),
        skill_answer(Seq::empty(), name, summary_only, max_chars).text_at("error"@) == Some(
            "Skill not found: "@ + name,
        ),
{
    let all = seq![skill] + skills;
    assert(all[0] == skill);
    assert(all.skip(1) =~= skills);
}

// ---------------------------------------------------------------------------
// Requests
// ---------------------------------------------------------------------------

/// A request is answered by its method: what the server is, which tools there are, or what a
/// tool that is called by its name with its arguments answers; anything else with nothing.
pub proof fn requests_are_answered_by_their_method(body: JsonView)
    ensures
        ({
            let nothing = JsonView::Object(Map::<Seq<char>, JsonView>::empty());
            &&& body.text_at("method"@) == Some("initialize"@) ==> step_of(body)
                == McpStepView::Result(server_info())
            &&& body.text_at("method"@) == Some("tools/list"@) ==> step_of(body)
                == McpStepView::Result(tool_list())
            &&& body.text_at("method"@) == Some("tools/call"@) ==> (body.get(
                "params"@,
            ) matches Some(params) ==> (step_of(body) matches McpStepView::Call(name, args) && {
                &&& params.text_at("name"@) matches Some(given) ==> name == given
                &&& params.text_at("name"@) is None ==> name.len() == 0
                &&& params.get("arguments"@) matches Some(given) ==> args == given
                &&& params.get("arguments"@) is None ==> args == nothing
            }))
            &&& body.text_at("method"@) == Some("tools/call"@) && body.get("params"@) is None ==> (
            step_of(body) matches McpStepView::Call(name, args) && name.len() == 0 && args
                == nothing)
            &&& body.text_at("method"@) != Some("initialize"@) && body.text_at("method"@) != Some(
                "tools/list"@,
            ) && body.text_at("method"@) != Some("tools/call"@) ==> step_of(body)
                == McpStepView::Result(nothing)
        }),
{
    message_names();
}

/// The server says which protocol it speaks, that its tools do not change, and who it is.
pub proof fn the_server_says_who_it_is()
    ensures
        server_info().text_at("protocolVersion"@) == Some("2025-06-18"@),
        server_info().get("serverInfo"@) matches Some(info) && info.text_at("name"@) == Some(
            "clab"@,
        ) && info.text_at("version"@) == Some("0.1.0"@),
        server_info().get("capabilities"@) matches Some(held) && held.get(
            "tools"@,
        ) matches Some(listed) && listed.bool_at("listChanged"@) == Some(false),
{
    message_names();
}

/// A reply carries the id and the result; the result of a tool is its answer as a text, and is
/// marked where it is an error.
pub proof fn replies_carry_the_answer(
    body: JsonView,
    result: JsonView,
    text: Seq<char>,
    reason: Seq<char>,
    answer: JsonView,
)
    ensures
        reply_of(body, result).text_at("jsonrpc"@) == Some("2.0"@),
        reply_of(body, result).get("result"@) == Some(result),
        body.get("id"@) is Some ==> reply_of(body, result).get("id"@) == body.get("id"@),
        body.get("id"@) is None ==> reply_of(body, result).get("id"@) == Some(JsonView::Null),
        call_result(text, true).bool_at("isError"@) == Some(true),
        call_result(text, false).get("isError"@) is None,
        call_result(text, true).get("content"@) == call_result(text, false).get("content"@),
        call_result(text, false).items_at("content"@) matches Some(items) && items.len() == 1
            && items[0].text_at("type"@) == Some("text"@) && items[0].text_at("text"@) == Some(text),
        answer_or_error(Ok(answer)) == answer,
        answer_or_error(Err(reason)).text_at("error"@) == Some(reason),
{
    message_names();
}

// ---------------------------------------------------------------------------
// Tools
// ---------------------------------------------------------------------------

/// Twelve tools are offered, each by its name, with what it does and what it takes.
pub proof fn tools_are_listed_by_name(k: int)
    requires
        0 <= k < 12,
    ensures
        tools().len() == 12,
        tools()[0] == "index_repository"@,
        tools()[1] == "list_projects"@,
        tools()[2] == "index_status"@,
        tools()[3] == "detect_changes"@,
        tools()[4] == "get_architecture"@,
        tools()[5] == "search_graph"@,
        tools()[6] == "search_code"@,
        tools()[7] == "get_code_snippet"@,
        tools()[8] == "skill_search"@,
        tools()[9] == "skill_get"@,
        tools()[10] == "put_skill"@,
        tools()[11] == "delete_skill"@,
        tool_list().items_at("tools"@) matches Some(entries) && {
            &&& entries.len() == 12
            &&& entries[k].text_at("name"@) == Some(tools()[k])
            &&& entries[k].text_at("description"@) == Some(description_of(tools()[k]))
            &&& entries[k].get("inputSchema"@) == Some(schema_of(tools()[k]))
        },
{
    message_names();
}

/// A call of a tool on skills needs no more than its name, and any other is one of the store.
pub proof fn tools_are_called_by_name(name: Seq<char>, args: JsonView)
    ensures
        tool_of("skill_search"@, args) == Ok::<McpToolView, ToolErrorView>(McpToolView::SkillSearch),
        tool_of("skill_get"@, args) == Ok::<McpToolView, ToolErrorView>(McpToolView::SkillGet),
        tool_of("put_skill"@, args) == Ok::<McpToolView, ToolErrorView>(McpToolView::PutSkill),
        tool_of("delete_skill"@, args) == Ok::<McpToolView, ToolErrorView>(
            McpToolView::DeleteSkill,
        ),
        name != "skill_search"@ && name != "skill_get"@ && name != "put_skill"@ && name
            != "delete_skill"@ ==> match call_of(name, args) {
            Ok(call) => tool_of(name, args) == Ok::<McpToolView, ToolErrorView>(
                McpToolView::Store(call),
            ),
            Err(e) => tool_of(name, args) == Err::<McpToolView, ToolErrorView>(e),
        },
{
    tool_names();
}

/// A schema is of an object with the arguments of its tool and no others, and says which of them
/// must be given.
pub proof fn schemas_describe_objects(name: Seq<char>)
    ensures
        schema_of(name).text_at("type"@) == Some("object"@),
        schema_of(name).bool_at("additionalProperties"@) == Some(false),
        schema_of(name).get("properties"@) == Some(JsonView::Object(properties_of(name))),
        schema_of(name).get("required"@) == Some(text_array_view(required_of(name))),
{
    argument_names();
}

/// What must be given to a tool: a pattern to search code, a project to look at one, and a name
/// to get, put or delete a skill.
pub proof fn tools_say_what_must_be_given(name: Seq<char>)
    ensures
        required_of("search_code"@) == seq!["pattern"@],
        required_of("delete_project"@) == seq!["project"@],
        required_of("index_status"@) == seq!["project"@],
        required_of("detect_changes"@) == seq!["project"@],
        required_of("skill_get"@) == seq!["name"@],
        required_of("put_skill"@) == seq!["name"@],
        required_of("delete_skill"@) == seq!["name"@],
        name != "search_code"@ && name != "delete_project"@ && name != "index_status"@ && name
            != "detect_changes"@ && name != "skill_get"@ && name != "put_skill"@ && name
            != "delete_skill"@ ==> required_of(name).len() == 0,
{
    tool_names();
}

/// Whether a schema is of a text, a number from zero on, or a truth value.
pub open spec fn is_of_type(schema: JsonView, kind: Seq<char>) -> bool {
    &&& schema.text_at("type"@) == Some(kind)
    &&& schema.text_at("description"@) is Some
    &&& kind == "integer"@ ==> schema.get("minimum"@) == Some(JsonView::Integer(0))
}

/// Whether an argument is described as one of a type.
pub open spec fn takes(tool: Seq<char>, argument: Seq<char>, kind: Seq<char>) -> bool {
    properties_of(tool).contains_key(argument) && is_of_type(properties_of(tool)[argument], kind)
}

proof fn lemma_type_names()
    ensures
        "string"@.len() == 6,
        "integer"@.len() == 7,
        "boolean"@.len() == 7,
        "integer"@ != "boolean"@,
{
    reveal_strlit("string");
    reveal_strlit("integer");
    reveal_strlit("boolean");
    assert("integer"@[0] != "boolean"@[0]);
}

/// Which arguments the tools of the store take, and of what type.
pub proof fn tools_of_the_store_take_arguments()
    ensures
        takes("index_repository"@, "repo_path"@, "string"@),
        takes("index_repository"@, "mode"@, "string"@),
        takes("search_graph"@, "project"@, "string"@),
        takes("search_graph"@, "query"@, "string"@),
        takes("search_graph"@, "limit"@, "integer"@),
        takes("search_code"@, "project"@, "string"@),
        takes("search_code"@, "pattern"@, "string"@),
        takes("search_code"@, "limit"@, "integer"@),
        takes("get_code_snippet"@, "project"@, "string"@),
        takes("get_code_snippet"@, "qualified_name"@, "string"@),
        takes("get_code_snippet"@, "name"@, "string"@),
        takes("get_architecture"@, "project"@, "string"@),
        takes("get_architecture"@, "max_components"@, "integer"@),
        takes("get_architecture"@, "max_hotspots"@, "integer"@),
        takes("get_architecture"@, "include_summary"@, "boolean"@),
        takes("delete_project"@, "project"@, "string"@),
        takes("index_status"@, "project"@, "string"@),
        takes("detect_changes"@, "project"@, "string"@),
        takes("detect_changes"@, "include_files"@, "boolean"@),
        takes("detect_changes"@, "limit"@, "integer"@),
{
    tool_names();
    argument_names();
    lemma_type_names();
}

/// Which arguments the tools on skills take, and of what type.
pub proof fn tools_on_skills_take_arguments()
    ensures
        takes("skill_search"@, "query"@, "string"@),
        takes("skill_search"@, "limit"@, "integer"@),
        takes("skill_get"@, "name"@, "string"@),
        takes("skill_get"@, "summary_only"@, "boolean"@),
        takes("skill_get"@, "max_chars"@, "integer"@),
        takes("put_skill"@, "name"@, "string"@),
        takes("put_skill"@, "summary"@, "string"@),
        takes("put_skill"@, "description"@, "string"@),
        takes("put_skill"@, "body"@, "string"@),
        takes("delete_skill"@, "name"@, "string"@),
{
    tool_names();
    argument_names();
    lemma_type_names();
}

/// No tool takes any other argument, and a tool that is not known takes none.
pub proof fn tools_take_no_other_arguments(tool: Seq<char>, key: Seq<char>)
    requires
        properties_of(tool).contains_key(key),
    ensures
        tool == "index_repository"@ ==> key == "repo_path"@ || key == "mode"@,
        tool == "search_graph"@ ==> key == "project"@ || key == "query"@ || key == "limit"@,
        tool == "get_code_snippet"@ ==> key == "project"@ || key == "qualified_name"@ || key == "name"@,
        tool == "get_architecture"@ ==> key == "project"@ || key == "max_components"@ || key == "max_hotspots"@ || key == "include_summary"@,
        tool == "search_code"@ ==> key == "project"@ || key == "pattern"@ || key == "limit"@,
        tool == "delete_project"@ ==> key == "project"@,
        tool == "index_status"@ ==> key == "project"@,
        tool == "detect_changes"@ ==> key == "project"@ || key == "include_files"@ || key == "limit"@,
        tool == "skill_search"@ ==> key == "query"@ || key == "limit"@,
        tool == "skill_get"@ ==> key == "name"@ || key == "summary_only"@ || key == "max_chars"@,
        tool == "put_skill"@ ==> key == "name"@ || key == "summary"@ || key == "description"@ || key == "body"@,
        tool == "delete_skill"@ ==> key == "name"@,
        tool == "index_repository"@
            || tool == "search_graph"@
            || tool == "get_code_snippet"@
            || tool == "get_architecture"@
            || tool == "search_code"@
            || tool == "delete_project"@
            || tool == "index_status"@
            || tool == "detect_changes"@
            || tool == "skill_search"@
            || tool == "skill_get"@
            || tool == "put_skill"@
            || tool == "delete_skill"@,
{
    tool_names();
}

/// What every tool does is said in words.
pub proof fn tools_are_described()
    ensures
        description_of("index_repository"@)
            == "Index the current/default repository, or an explicit repository path."@,
        description_of("search_graph"@)
            == "Search indexed symbols by name or file path."@,
        description_of("get_code_snippet"@)
            == "Return a focused snippet for an indexed symbol."@,
        description_of("get_architecture"@)
            == "Return a compact architecture summary for one or more indexed projects."@,
        description_of("search_code"@)
            == "Search indexed file contents for a text pattern."@,
        description_of("list_projects"@)
            == "List indexed projects."@,
        description_of("delete_project"@)
            == "Delete a project index."@,
        description_of("index_status"@)
            == "Return status for one indexed project."@,
        description_of("detect_changes"@)
            == "Compare a project index with current git state."@,
        description_of("skill_search"@)
            == "Search stored skills."@,
        description_of("skill_get"@)
            == "Get one stored skill, optionally without the full body."@,
        description_of("put_skill"@)
            == "Create or replace a stored skill file."@,
        description_of("delete_skill"@)
            == "Delete a stored skill file."@,
{
    tool_names();
}

/// Whether an argument is described by a text.
pub open spec fn is_described(tool: Seq<char>, argument: Seq<char>, text: Seq<char>) -> bool {
    properties_of(tool).contains_key(argument) && properties_of(tool)[argument].text_at(
        "description"@,
    ) == Some(text)
}

/// What every argument is for is said in words, with what counts where it is not given.
pub proof fn arguments_are_described()
    ensures
        is_described(
            "index_repository"@,
            "repo_path"@,
            "Optional repository path to index; defaults to the current directory."@,
        ),
        is_described(
            "index_repository"@,
            "mode"@,
            "Indexing mode hint, such as fast."@,
        ),
        is_described(
            "search_graph"@,
            "project"@,
            "Optional project id to limit search."@,
        ),
        is_described(
            "search_graph"@,
            "query"@,
            "Symbol or file query. Empty returns first matches."@,
        ),
        is_described(
            "search_graph"@,
            "limit"@,
            "Maximum results to return. Defaults to 8."@,
        ),
        is_described(
            "get_code_snippet"@,
            "project"@,
            "Optional project id to limit lookup."@,
        ),
        is_described(
            "get_code_snippet"@,
            "qualified_name"@,
            "Symbol qualified name."@,
        ),
        is_described(
            "get_code_snippet"@,
            "name"@,
            "Symbol name fallback."@,
        ),
        is_described(
            "get_architecture"@,
            "project"@,
            "Optional project id to return one project only."@,
        ),
        is_described(
            "get_architecture"@,
            "max_components"@,
            "Maximum components per project. Defaults to 8."@,
        ),
        is_described(
            "get_architecture"@,
            "max_hotspots"@,
            "Maximum hotspots per project. Defaults to 5."@,
        ),
        is_described(
            "get_architecture"@,
            "include_summary"@,
            "Include human-readable summary text."@,
        ),
        is_described(
            "search_code"@,
            "project"@,
            "Optional project id to limit search."@,
        ),
        is_described(
            "search_code"@,
            "pattern"@,
            "Case-insensitive text pattern."@,
        ),
        is_described(
            "search_code"@,
            "limit"@,
            "Maximum results to return. Defaults to 8."@,
        ),
        is_described(
            "delete_project"@,
            "project"@,
            "Project id."@,
        ),
        is_described(
            "index_status"@,
            "project"@,
            "Project id."@,
        ),
        is_described(
            "detect_changes"@,
            "project"@,
            "Project id."@,
        ),
        is_described(
            "detect_changes"@,
            "include_files"@,
            "Include changed file lists."@,
        ),
        is_described(
            "detect_changes"@,
            "limit"@,
            "Maximum file paths to include. Defaults to 50."@,
        ),
        is_described(
            "skill_search"@,
            "query"@,
            "Skill search query. Empty returns top entries."@,
        ),
        is_described(
            "skill_search"@,
            "limit"@,
            "Maximum results to return. Defaults to 5."@,
        ),
        is_described(
            "skill_get"@,
            "name"@,
            "Skill name."@,
        ),
        is_described(
            "skill_get"@,
            "summary_only"@,
            "Return metadata without body."@,
        ),
        is_described(
            "skill_get"@,
            "max_chars"@,
            "Maximum body characters to return."@,
        ),
        is_described(
            "put_skill"@,
            "name"@,
            "Skill name."@,
        ),
        is_described(
            "put_skill"@,
            "summary"@,
            "Short skill summary."@,
        ),
        is_described(
            "put_skill"@,
            "description"@,
            "Alias for summary."@,
        ),
        is_described(
            "put_skill"@,
            "body"@,
            "Skill body markdown."@,
        ),
        is_described(
            "delete_skill"@,
            "name"@,
            "Skill name."@,
        ),
{
    tool_names();
    argument_names();
}

// ---------------------------------------------------------------------------
// The daemon
// ---------------------------------------------------------------------------

/// The projects of a listing are looked at one by one: one with a name is a target, with its
/// root where that is known, and any other is none.
pub proof fn projects_with_a_name_are_targets(projects: Seq<JsonView>, project: JsonView)
    ensures
        ({
            let earlier = targets_in(projects);
            let all = targets_in(projects.push(project));
            &&& targets_in(Seq::empty()).len() == 0
            &&& project.text_at("project"@) is None ==> all == earlier
            &&& project.text_at("project"@) matches Some(name) ==> all == earlier.push(
                TargetView { name, root: project.text_at("root_path"@) },
            )
        }),
{
    assert(projects.push(project).drop_last() =~= projects);
}

/// The projects of a listing are the items of its field `projects`.
pub proof fn a_listing_names_its_projects(listing: JsonView)
    ensures
        listing.items_at("projects"@) matches Some(projects) ==> listed_projects(listing)
            == projects,
        listing.items_at("projects"@) is None ==> listed_projects(listing).len() == 0,
{
}

/// A project with changes waits as long as the daemon is set to; then its root is looked for and,
/// where it is there, indexed in the mode that is set. Without changes, without a root or with
/// the root gone the next project is compared, and after the last nothing is left.
pub proof fn the_daemon_waits_looks_and_indexes(
    place: RefreshView,
    queued: usize,
    config: ConfigView,
    report: JsonView,
    root: Seq<char>,
    reason: Seq<char>,
)
    requires
        0 <= place.next < place.targets.len(),
        0 < queued < usize::MAX,
    ensures
        ({
            let changed = after_event(place, queued, EventView::Compared(Ok(report)), config);
            let waited = after_event(place, queued, EventView::Waited, config);
            let there = after_event(place, queued, EventView::Looked(true), config);
            let gone = after_event(place, queued, EventView::Looked(false), config);
            let indexed = after_event(place, queued, EventView::Reindexed(Ok(())), config);
            let failed = after_event(place, queued, EventView::Reindexed(Err(reason)), config);
            let broken = after_event(place, queued, EventView::Compared(Err(reason)), config);
            let target = place.targets[place.next];
            let next = if place.next + 1 < place.targets.len() {
                ActionView::Compare(place.targets[place.next + 1].name)
            } else {
                ActionView::Finish
            };
            &&& has_changes(report) ==> changed.2 == ActionView::Wait(config.debounce_seconds)
                && changed.1 == queued + 1 && changed.0 == place
            &&& !has_changes(report) ==> changed.2 == next && changed.1 == queued && changed.0.next
                == place.next + 1
            &&& target.root matches Some(root) ==> waited.2 == ActionView::Look(root) && there.2
                == ActionView::Reindex(root, config.mode) && waited.1 == queued && there.1 == queued
            &&& target.root is None ==> waited.2 == next && waited.1 == queued - 1
            &&& gone.2 == next && gone.1 == queued - 1 && gone.0.next == place.next + 1
            &&& indexed.2 == next && indexed.1 == queued - 1 && indexed.0.next == place.next + 1
            &&& failed.2 == ActionView::Fail(reason) && failed.1 == queued
            &&& broken.2 == ActionView::Fail(reason) && broken.1 == queued
        }),
{
}

} // verus!
