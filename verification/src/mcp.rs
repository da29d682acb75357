//! The tools as a protocol server offers them: names, descriptions, argument schemas, and the
//! replies to requests.

use vstd::prelude::*;

use crate::json::{
    lemma_array_view, or_empty, views, JsonObject, JsonValue, JsonView,
};
use crate::plan::field_or;
use crate::ranking::result_text;
use crate::store::{call_of, CallView, ClabStore, ToolCall};
use crate::text::{same_text, texts};
use crate::util::{text_array, text_array_view, ToolError, ToolErrorView};
use crate::wire::{json_text, render};

verus! {

// ---------------------------------------------------------------------------
// Names and descriptions
// ---------------------------------------------------------------------------

/// The tools that are offered.
pub open spec fn tools() -> Seq<Seq<char>> {
    seq![
        "index_repository"@,
        "list_projects"@,
        "index_status"@,
        "detect_changes"@,
        "get_architecture"@,
        "search_graph"@,
        "search_code"@,
        "get_code_snippet"@,
        "skill_search"@,
        "skill_get"@,
        "put_skill"@,
        "delete_skill"@,
    ]
}

/// The tools that are offered.
pub fn tool_names() -> (names: Vec<String>)
    ensures
        texts(names@) == tools(),
{
    let mut names: Vec<String> = Vec::new();
    names.push("index_repository".to_owned());
    names.push("list_projects".to_owned());
    names.push("index_status".to_owned());
    names.push("detect_changes".to_owned());
    names.push("get_architecture".to_owned());
    names.push("search_graph".to_owned());
    names.push("search_code".to_owned());
    names.push("get_code_snippet".to_owned());
    names.push("skill_search".to_owned());
    names.push("skill_get".to_owned());
    names.push("put_skill".to_owned());
    names.push("delete_skill".to_owned());
    assert(texts(names@) =~= tools());
    names
}

/// What a tool does, in words.
pub open spec fn description_of(name: Seq<char>) -> Seq<char> {
    if name == "index_repository"@ {
        "Index the current/default repository, or an explicit repository path."@
    } else if name == "search_graph"@ {
        "Search indexed symbols by name or file path."@
    } else if name == "get_code_snippet"@ {
        "Return a focused snippet for an indexed symbol."@
    } else if name == "get_architecture"@ {
        "Return a compact architecture summary for one or more indexed projects."@
    } else if name == "search_code"@ {
        "Search indexed file contents for a text pattern."@
    } else if name == "list_projects"@ {
        "List indexed projects."@
    } else if name == "delete_project"@ {
        "Delete a project index."@
    } else if name == "index_status"@ {
        "Return status for one indexed project."@
    } else if name == "detect_changes"@ {
        "Compare a project index with current git state."@
    } else if name == "skill_search"@ {
        "Search stored skills."@
    } else if name == "skill_get"@ {
        "Get one stored skill, optionally without the full body."@
    } else if name == "put_skill"@ {
        "Create or replace a stored skill file."@
    } else if name == "delete_skill"@ {
        "Delete a stored skill file."@
    } else {
        "Clab tool"@
    }
}

/// What a tool does, in words.
pub fn tool_description(name: &str) -> (description: String)
    ensures
        description@ == description_of(name@),
{
    let words = if same_text(name, "index_repository") {
        "Index the current/default repository, or an explicit repository path."
    } else if same_text(name, "search_graph") {
        "Search indexed symbols by name or file path."
    } else if same_text(name, "get_code_snippet") {
        "Return a focused snippet for an indexed symbol."
    } else if same_text(name, "get_architecture") {
        "Return a compact architecture summary for one or more indexed projects."
    } else if same_text(name, "search_code") {
        "Search indexed file contents for a text pattern."
    } else if same_text(name, "list_projects") {
        "List indexed projects."
    } else if same_text(name, "delete_project") {
        "Delete a project index."
    } else if same_text(name, "index_status") {
        "Return status for one indexed project."
    } else if same_text(name, "detect_changes") {
        "Compare a project index with current git state."
    } else if same_text(name, "skill_search") {
        "Search stored skills."
    } else if same_text(name, "skill_get") {
        "Get one stored skill, optionally without the full body."
    } else if same_text(name, "put_skill") {
        "Create or replace a stored skill file."
    } else if same_text(name, "delete_skill") {
        "Delete a stored skill file."
    } else {
        "Clab tool"
    };
    words.to_owned()
}

// ---------------------------------------------------------------------------
// Schemas
// ---------------------------------------------------------------------------

/// The schema of a text argument.
pub open spec fn string_property(description: Seq<char>) -> JsonView {
    JsonView::Object(
        map![
            "type"@ => JsonView::Text("string"@),
            "description"@ => JsonView::Text(description),
        ],
    )
}

/// The schema of a text argument.
pub fn string_prop(description: &str) -> (property: JsonValue)
    ensures
        property@ == string_property(description@),
{
    JsonObject::new().put("type", JsonValue::text("string")).put(
        "description",
        JsonValue::text(description),
    ).value()
}

/// The schema of an argument that is an integer from zero on.
pub open spec fn int_property(description: Seq<char>) -> JsonView {
    JsonView::Object(
        map![
            "type"@ => JsonView::Text("integer"@),
            "minimum"@ => JsonView::Integer(0),
            "description"@ => JsonView::Text(description),
        ],
    )
}

/// The schema of an argument that is an integer from zero on.
pub fn int_prop(description: &str) -> (property: JsonValue)
    ensures
        property@ == int_property(description@),
{
    JsonObject::new().put("type", JsonValue::text("integer")).put(
        "minimum",
        JsonValue::Uint(0),
    ).put("description", JsonValue::text(description)).value()
}

/// The schema of an argument that is true or false.
pub open spec fn bool_property(description: Seq<char>) -> JsonView {
    JsonView::Object(
        map![
            "type"@ => JsonView::Text("boolean"@),
            "description"@ => JsonView::Text(description),
        ],
    )
}

/// The schema of an argument that is true or false.
pub fn bool_prop(description: &str) -> (property: JsonValue)
    ensures
        property@ == bool_property(description@),
{
    JsonObject::new().put("type", JsonValue::text("boolean")).put(
        "description",
        JsonValue::text(description),
    ).value()
}

/// The arguments of a tool, each with its schema.
pub open spec fn properties_of(name: Seq<char>) -> Map<Seq<char>, JsonView> {
    if name == "index_repository"@ {
        map![
            "repo_path"@ => string_property("Optional repository path to index; defaults to the current directory."@),
            "mode"@ => string_property("Indexing mode hint, such as fast."@),
        ]
    } else if name == "search_graph"@ {
        map![
            "project"@ => string_property("Optional project id to limit search."@),
            "query"@ => string_property("Symbol or file query. Empty returns first matches."@),
            "limit"@ => int_property("Maximum results to return. Defaults to 8."@),
        ]
    } else if name == "get_code_snippet"@ {
        map![
            "project"@ => string_property("Optional project id to limit lookup."@),
            "qualified_name"@ => string_property("Symbol qualified name."@),
            "name"@ => string_property("Symbol name fallback."@),
        ]
    } else if name == "get_architecture"@ {
        map![
            "project"@ => string_property("Optional project id to return one project only."@),
            "max_components"@ => int_property("Maximum components per project. Defaults to 8."@),
            "max_hotspots"@ => int_property("Maximum hotspots per project. Defaults to 5."@),
            "include_summary"@ => bool_property("Include human-readable summary text."@),
        ]
    } else if name == "search_code"@ {
        map![
            "project"@ => string_property("Optional project id to limit search."@),
            "pattern"@ => string_property("Case-insensitive text pattern."@),
            "limit"@ => int_property("Maximum results to return. Defaults to 8."@),
        ]
    } else if name == "delete_project"@ || name == "index_status"@ {
        map![
            "project"@ => string_property("Project id."@),
        ]
    } else if name == "detect_changes"@ {
        map![
            "project"@ => string_property("Project id."@),
            "include_files"@ => bool_property("Include changed file lists."@),
            "limit"@ => int_property("Maximum file paths to include. Defaults to 50."@),
        ]
    } else if name == "skill_search"@ {
        map![
            "query"@ => string_property("Skill search query. Empty returns top entries."@),
            "limit"@ => int_property("Maximum results to return. Defaults to 5."@),
        ]
    } else if name == "skill_get"@ {
        map![
            "name"@ => string_property("Skill name."@),
            "summary_only"@ => bool_property("Return metadata without body."@),
            "max_chars"@ => int_property("Maximum body characters to return."@),
        ]
    } else if name == "put_skill"@ {
        map![
            "name"@ => string_property("Skill name."@),
            "summary"@ => string_property("Short skill summary."@),
            "description"@ => string_property("Alias for summary."@),
            "body"@ => string_property("Skill body markdown."@),
        ]
    } else if name == "delete_skill"@ {
        map![
            "name"@ => string_property("Skill name."@),
        ]
    } else {
        Map::empty()
    }
}

/// The arguments that a tool must be given.
pub open spec fn required_of(name: Seq<char>) -> Seq<Seq<char>> {
    if name == "search_code"@ {
        seq!["pattern"@]
    } else if name == "delete_project"@ || name == "index_status"@ || name == "detect_changes"@ {
        seq!["project"@]
    } else if name == "skill_get"@ || name == "put_skill"@ || name == "delete_skill"@ {
        seq!["name"@]
    } else {
        Seq::empty()
    }
}

/// The schema of the arguments of a tool.
pub open spec fn schema_of(name: Seq<char>) -> JsonView {
    JsonView::Object(
        map![
            "type"@ => JsonView::Text("object"@),
            "properties"@ => JsonView::Object(properties_of(name)),
            "required"@ => text_array_view(required_of(name)),
            "additionalProperties"@ => JsonView::Bool(false),
        ],
    )
}

fn tool_properties(name: &str) -> (properties: JsonObject)
    ensures
        properties@ == properties_of(name@),
{
    if same_text(name, "index_repository") {
        JsonObject::new().put(
            "repo_path",
            string_prop("Optional repository path to index; defaults to the current directory."),
        ).put(
            "mode",
            string_prop("Indexing mode hint, such as fast."),
        )
    } else if same_text(name, "search_graph") {
        JsonObject::new().put(
            "project",
            string_prop("Optional project id to limit search."),
        ).put(
            "query",
            string_prop("Symbol or file query. Empty returns first matches."),
        ).put(
            "limit",
            int_prop("Maximum results to return. Defaults to 8."),
        )
    } else if same_text(name, "get_code_snippet") {
        JsonObject::new().put(
            "project",
            string_prop("Optional project id to limit lookup."),
        ).put(
            "qualified_name",
            string_prop("Symbol qualified name."),
        ).put(
            "name",
            string_prop("Symbol name fallback."),
        )
    } else if same_text(name, "get_architecture") {
        JsonObject::new().put(
            "project",
            string_prop("Optional project id to return one project only."),
        ).put(
            "max_components",
            int_prop("Maximum components per project. Defaults to 8."),
        ).put(
            "max_hotspots",
            int_prop("Maximum hotspots per project. Defaults to 5."),
        ).put(
            "include_summary",
            bool_prop("Include human-readable summary text."),
        )
    } else if same_text(name, "search_code") {
        JsonObject::new().put(
            "project",
            string_prop("Optional project id to limit search."),
        ).put(
            "pattern",
            string_prop("Case-insensitive text pattern."),
        ).put(
            "limit",
            int_prop("Maximum results to return. Defaults to 8."),
        )
    } else if same_text(name, "delete_project") || same_text(name, "index_status") {
        JsonObject::new().put(
            "project",
            string_prop("Project id."),
        )
    } else if same_text(name, "detect_changes") {
        JsonObject::new().put(
            "project",
            string_prop("Project id."),
        ).put(
            "include_files",
            bool_prop("Include changed file lists."),
        ).put(
            "limit",
            int_prop("Maximum file paths to include. Defaults to 50."),
        )
    } else if same_text(name, "skill_search") {
        JsonObject::new().put(
            "query",
            string_prop("Skill search query. Empty returns top entries."),
        ).put(
            "limit",
            int_prop("Maximum results to return. Defaults to 5."),
        )
    } else if same_text(name, "skill_get") {
        JsonObject::new().put(
            "name",
            string_prop("Skill name."),
        ).put(
            "summary_only",
            bool_prop("Return metadata without body."),
        ).put(
            "max_chars",
            int_prop("Maximum body characters to return."),
        )
    } else if same_text(name, "put_skill") {
        JsonObject::new().put(
            "name",
            string_prop("Skill name."),
        ).put(
            "summary",
            string_prop("Short skill summary."),
        ).put(
            "description",
            string_prop("Alias for summary."),
        ).put(
            "body",
            string_prop("Skill body markdown."),
        )
    } else if same_text(name, "delete_skill") {
        JsonObject::new().put(
            "name",
            string_prop("Skill name."),
        )
    } else {
        JsonObject::new()
    }
}

fn tool_required(name: &str) -> (required: Vec<String>)
    ensures
        texts(required@) == required_of(name@),
{
    let mut required: Vec<String> = Vec::new();
    if same_text(name, "search_code") {
        required.push("pattern".to_owned());
    } else if same_text(name, "delete_project") || same_text(name, "index_status") || same_text(name, "detect_changes") {
        required.push("project".to_owned());
    } else if same_text(name, "skill_get") || same_text(name, "put_skill") || same_text(name, "delete_skill") {
        required.push("name".to_owned());
    }
    assert(texts(required@) =~= required_of(name@));
    required
}

/// The schema of the arguments of a tool.
pub fn tool_input_schema(name: &str) -> (schema: JsonValue)
    ensures
        schema@ == schema_of(name@),
{
    JsonObject::new().put("type", JsonValue::text("object")).put(
        "properties",
        tool_properties(name).value(),
    ).put("required", text_array(&tool_required(name))).put(
        "additionalProperties",
        JsonValue::Bool(false),
    ).value()
}

/// Every argument that a tool must be given is one that its schema describes.
pub proof fn required_arguments_are_described(name: Seq<char>)
    ensures
        forall|k: int|
            0 <= k < required_of(name).len() ==> properties_of(name).contains_key(
                #[trigger] required_of(name)[k],
            ),
{
    reveal_strlit("delete_project");
    reveal_strlit("delete_skill");
    reveal_strlit("detect_changes");
    reveal_strlit("get_architecture");
    reveal_strlit("get_code_snippet");
    reveal_strlit("index_repository");
    reveal_strlit("index_status");
    reveal_strlit("put_skill");
    reveal_strlit("search_code");
    reveal_strlit("search_graph");
    reveal_strlit("skill_get");
    reveal_strlit("skill_search");
    assert("delete_project"@.len() == 14);
    assert("delete_skill"@.len() == 12);
    assert("detect_changes"@.len() == 14);
    assert("get_architecture"@.len() == 16);
    assert("get_code_snippet"@.len() == 16);
    assert("index_repository"@.len() == 16);
    assert("index_status"@.len() == 12);
    assert("put_skill"@.len() == 9);
    assert("search_code"@.len() == 11);
    assert("search_graph"@.len() == 12);
    assert("skill_get"@.len() == 9);
    assert("skill_search"@.len() == 12);
    assert("delete_project"@[2] != "detect_changes"@[2]);
    assert("index_status"@[0] != "search_graph"@[0]);
    assert("skill_get"@[0] != "put_skill"@[0]);
    assert("delete_skill"@[0] != "search_graph"@[0]);
    assert("delete_skill"@[0] != "index_status"@[0]);
    assert("delete_skill"@[0] != "skill_search"@[0]);
}

// ---------------------------------------------------------------------------
// Calls
// ---------------------------------------------------------------------------

/// A call of a tool: one on skills, or one on the store.
#[derive(Debug, Clone, PartialEq, Eq)]
pub enum McpTool {
    SkillSearch,
    SkillGet,
    PutSkill,
    DeleteSkill,
    Store(ToolCall),
}

/// What a call of a tool is.
pub enum McpToolView {
    SkillSearch,
    SkillGet,
    PutSkill,
    DeleteSkill,
    Store(CallView),
}

impl View for McpTool {
    type V = McpToolView;

    open spec fn view(&self) -> McpToolView {
        match self {
            McpTool::SkillSearch => McpToolView::SkillSearch,
            McpTool::SkillGet => McpToolView::SkillGet,
            McpTool::PutSkill => McpToolView::PutSkill,
            McpTool::DeleteSkill => McpToolView::DeleteSkill,
            McpTool::Store(call) => McpToolView::Store(call@),
        }
    }
}

/// The call that a tool name and its arguments make, or why they make none.
pub open spec fn tool_of(name: Seq<char>, args: JsonView) -> Result<McpToolView, ToolErrorView> {
    if name == "skill_search"@ {
        Ok(McpToolView::SkillSearch)
    } else if name == "skill_get"@ {
        Ok(McpToolView::SkillGet)
    } else if name == "put_skill"@ {
        Ok(McpToolView::PutSkill)
    } else if name == "delete_skill"@ {
        Ok(McpToolView::DeleteSkill)
    } else {
        match call_of(name, args) {
            Ok(call) => Ok(McpToolView::Store(call)),
            Err(e) => Err(e),
        }
    }
}

/// The call that a tool name and its arguments make, or why they make none.
pub fn dispatch_mcp_tool(store: &ClabStore, name: &str, args: &JsonValue) -> (tool: Result<
    McpTool,
    ToolError,
>)
    ensures
        match tool {
            Ok(t) => tool_of(name@, args@) == Ok::<McpToolView, ToolErrorView>(t@),
            Err(e) => tool_of(name@, args@) == Err::<McpToolView, ToolErrorView>(e@),
        },
{
    if same_text(name, "skill_search") {
        Ok(McpTool::SkillSearch)
    } else if same_text(name, "skill_get") {
        Ok(McpTool::SkillGet)
    } else if same_text(name, "put_skill") {
        Ok(McpTool::PutSkill)
    } else if same_text(name, "delete_skill") {
        Ok(McpTool::DeleteSkill)
    } else {
        match store.dispatch(name, args) {
            Ok(call) => Ok(McpTool::Store(call)),
            Err(e) => Err(e),
        }
    }
}

/// Every tool that is offered is supported, whatever its arguments are.
pub proof fn offered_tools_are_supported(k: int, args: JsonView)
    requires
        0 <= k < tools().len(),
    ensures
        tool_of(tools()[k], args) matches Err(e) ==> e !is Unsupported,
{
}

/// What a tool call answers, or why it failed, in words.
pub open spec fn answer_or_error(outcome: Result<JsonView, Seq<char>>) -> JsonView {
    match outcome {
        Ok(value) => value,
        Err(e) => JsonView::Object(map!["error"@ => JsonView::Text(e)]),
    }
}

/// What the outcome of a tool call is.
pub open spec fn outcome_view(outcome: Result<JsonValue, String>) -> Result<JsonView, Seq<char>> {
    match outcome {
        Ok(value) => Ok(value@),
        Err(e) => Err(e@),
    }
}

/// What a tool call answers, or why it failed, in words.
pub fn dispatch_or_error(outcome: Result<JsonValue, String>) -> (answer: JsonValue)
    ensures
        answer@ == answer_or_error(outcome_view(outcome)),
{
    match outcome {
        Ok(value) => value,
        Err(e) => JsonObject::new().put("error", JsonValue::Text(e)).value(),
    }
}

// ---------------------------------------------------------------------------
// Requests
// ---------------------------------------------------------------------------

/// What a request comes to: a result at once, or a tool to call first.
pub enum McpStep {
    Result(JsonValue),
    Call(String, JsonValue),
}

/// What a request comes to.
pub enum McpStepView {
    Result(JsonView),
    Call(Seq<char>, JsonView),
}

impl View for McpStep {
    type V = McpStepView;

    open spec fn view(&self) -> McpStepView {
        match self {
            McpStep::Result(value) => McpStepView::Result(value@),
            McpStep::Call(name, args) => McpStepView::Call(name@, args@),
        }
    }
}

/// What the server says of itself.
pub open spec fn server_info() -> JsonView {
    JsonView::Object(
        map![
            "protocolVersion"@ => JsonView::Text("2025-06-18"@),
            "capabilities"@ => JsonView::Object(
                map!["tools"@ => JsonView::Object(map!["listChanged"@ => JsonView::Bool(false)])],
            ),
            "serverInfo"@ => JsonView::Object(
                map![
                    "name"@ => JsonView::Text("clab"@),
                    "version"@ => JsonView::Text("0.1.0"@),
                ],
            ),
        ],
    )
}

fn describe_server() -> (info: JsonValue)
    ensures
        info@ == server_info(),
{
    let tools = JsonObject::new().put("listChanged", JsonValue::Bool(false)).value();
    let capabilities = JsonObject::new().put("tools", tools).value();
    let server = JsonObject::new().put("name", JsonValue::text("clab")).put(
        "version",
        JsonValue::text("0.1.0"),
    ).value();
    JsonObject::new().put("protocolVersion", JsonValue::text("2025-06-18")).put(
        "capabilities",
        capabilities,
    ).put("serverInfo", server).value()
}

/// A tool as it is listed.
pub open spec fn tool_entry(name: Seq<char>) -> JsonView {
    JsonView::Object(
        map![
            "name"@ => JsonView::Text(name),
            "description"@ => JsonView::Text(description_of(name)),
            "inputSchema"@ => schema_of(name),
        ],
    )
}

/// The list of the tools that are offered.
pub open spec fn tool_list() -> JsonView {
    JsonView::Object(
        map!["tools"@ => JsonView::Array(tools().map_values(|n: Seq<char>| tool_entry(n)))],
    )
}

fn list_tools() -> (list: JsonValue)
    ensures
        list@ == tool_list(),
{
    broadcast use lemma_array_view;

    let names = tool_names();
    let ghost held = texts(names@);
    let mut entries: Vec<JsonValue> = Vec::new();
    let mut i: usize = 0;
    while i < names.len()
        invariant
            i <= names@.len(),
            held == texts(names@),
            entries@.len() == i,
            forall|k: int| 0 <= k < i ==> (#[trigger] entries@[k])@ == tool_entry(held[k]),
        decreases names.len() - i,
    {
        let name = names[i].as_str();
        assert(held[i as int] == name@);
        let entry = JsonObject::new().put("name", JsonValue::text(name)).put(
            "description",
            JsonValue::Text(tool_description(name)),
        ).put("inputSchema", tool_input_schema(name)).value();
        assert(entry@ == tool_entry(name@));
        entries.push(entry);
        i = i + 1;
    }
    assert(views(entries@) =~= tools().map_values(|n: Seq<char>| tool_entry(n)));
    JsonObject::new().put("tools", JsonValue::Array(entries)).value()
}

/// What a request comes to, by its method.
pub open spec fn step_of(body: JsonView) -> McpStepView {
    let method = or_empty(body.text_at("method"@));
    let nothing = JsonView::Object(Map::empty());
    if method == "initialize"@ {
        McpStepView::Result(server_info())
    } else if method == "tools/list"@ {
        McpStepView::Result(tool_list())
    } else if method == "tools/call"@ {
        let params = field_or(body, "params"@, nothing);
        McpStepView::Call(
            or_empty(params.text_at("name"@)),
            field_or(params, "arguments"@, nothing),
        )
    } else {
        McpStepView::Result(nothing)
    }
}

fn field_or_object(value: &JsonValue, key: &str) -> (field: JsonValue)
    ensures
        field@ == field_or(value@, key@, JsonView::Object(Map::empty())),
{
    match value.get(key) {
        Some(v) => v.clone(),
        None => JsonObject::new().value(),
    }
}

/// What a request comes to, by its method. A ping, like a method that is not known, gets an
/// empty result.
pub fn mcp(body: &JsonValue) -> (step: McpStep)
    ensures
        step@ == step_of(body@),
{
    let method = result_text(body, "method");
    if same_text(method, "initialize") {
        McpStep::Result(describe_server())
    } else if same_text(method, "tools/list") {
        McpStep::Result(list_tools())
    } else if same_text(method, "tools/call") {
        let params = field_or_object(body, "params");
        let name = result_text(&params, "name").to_owned();
        let args = field_or_object(&params, "arguments");
        McpStep::Call(name, args)
    } else {
        McpStep::Result(JsonObject::new().value())
    }
}

/// A text as the content of a tool result.
pub open spec fn text_content(text: Seq<char>) -> JsonView {
    JsonView::Array(
        seq![
            JsonView::Object(
                map![
                    "type"@ => JsonView::Text("text"@),
                    "text"@ => JsonView::Text(text),
                ],
            ),
        ],
    )
}

fn make_content(text: String) -> (content: JsonValue)
    ensures
        content@ == text_content(text@),
{
    broadcast use lemma_array_view;

    let mut items: Vec<JsonValue> = Vec::new();
    items.push(
        JsonObject::new().put("type", JsonValue::text("text")).put(
            "text",
            JsonValue::Text(text),
        ).value(),
    );
    assert(views(items@) =~= text_content(text@)->Array_0);
    JsonValue::Array(items)
}

/// The result of a tool call whose answer is written as `text`.
pub open spec fn call_result(text: Seq<char>, failed: bool) -> JsonView {
    if failed {
        JsonView::Object(
            map![
                "content"@ => text_content(text),
                "isError"@ => JsonView::Bool(true),
            ],
        )
    } else {
        JsonView::Object(map!["content"@ => text_content(text)])
    }
}

/// The result of a tool call whose answer is written as `text`.
pub fn wrap_answer(text: String, failed: bool) -> (result: JsonValue)
    ensures
        result@ == call_result(text@, failed),
{
    let content = JsonObject::new().put("content", make_content(text));
    if failed {
        content.put("isError", JsonValue::Bool(true)).value()
    } else {
        content.value()
    }
}

/// The result of a tool call: its answer as JSON text, or its error, marked as one.
pub fn tool_result(outcome: Result<JsonValue, String>) -> (result: JsonValue)
    ensures
        result@ == call_result(
            json_text(answer_or_error(outcome_view(outcome))),
            outcome is Err,
        ),
{
    let failed = outcome.is_err();
    wrap_answer(render(&dispatch_or_error(outcome)), failed)
}

/// The reply to a request with a result.
pub open spec fn reply_of(body: JsonView, result: JsonView) -> JsonView {
    JsonView::Object(
        map![
            "jsonrpc"@ => JsonView::Text("2.0"@),
            "id"@ => field_or(body, "id"@, JsonView::Null),
            "result"@ => result,
        ],
    )
}

/// The reply to a request with a result.
pub fn mcp_reply(body: &JsonValue, result: JsonValue) -> (reply: JsonValue)
    ensures
        reply@ == reply_of(body@, result@),
{
    let id = match body.get("id") {
        Some(v) => v.clone(),
        None => JsonValue::Null,
    };
    JsonObject::new().put("jsonrpc", JsonValue::text("2.0")).put("id", id).put(
        "result",
        result,
    ).value()
}

/// A reply carries the id of its request, or null where that has none, and the result.
pub proof fn replies_carry_the_id(body: JsonView, result: JsonView)
    ensures
        reply_of(body, result).get("id"@) == Some(field_or(body, "id"@, JsonView::Null)),
        reply_of(body, result).get("result"@) == Some(result),
        reply_of(body, result).text_at("jsonrpc"@) == Some("2.0"@),
{
    reveal_strlit("id");
    reveal_strlit("result");
    reveal_strlit("jsonrpc");
    assert("id"@.len() == 2);
    assert("result"@.len() == 6);
    assert("jsonrpc"@.len() == 7);
}

} // verus!
