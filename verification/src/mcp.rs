//! The server for coding agents: requests in JSON-RPC, one to a line, what each of
//! them asks for, and the replies.

use vstd::prelude::*;
use vstd::string::*;

use crate::checkpoint::{resolve_id, CheckpointInfo};
use crate::checkpoint::{at_most, resolved};
use crate::diff::{status_name, FileDiff};
use crate::diff::status_word;
use crate::json::{
    append_item, compact, json_int, json_str, new_array1, new_object1, new_object2, new_object3,
    parse, put, Json,
};
use crate::json::{
    array_view, bool_of, compact_text, field, number_of_int, number_u64, object1, object2, object3,
    object_view, parsed_text, str_field, u64_of, JsonView,
};
use crate::restore::RestoreReport;
use crate::text::{
    decimal_text, ends_with_char, first_bytes, is_blank, padded_left, padded_right, same_text,
    trim_end,
};
use crate::text::{
    all_space, law_trim, law_trim_end_takes_space, law_trim_leaves_text, lemma_shows_next,
    lemma_shows_nothing, lemma_shows_still, shows,
};
use crate::text::{
    cuts_at, decimal, leading_text, opt_str, opt_text, pad_left, pad_right, trim_end_of, trim_of,
};
use crate::web::{format_ts, local_url, port_for};
use crate::web::{age_of, port_of, url_of};

verus! {

/// The version of the protocol that the server speaks.
pub const PROTOCOL_VERSION: &'static str = "2024-11-05";

/// The name under which the server presents itself.
pub const SERVER_NAME: &'static str = "gloss";

/// The version of the tool.
pub const SERVER_VERSION: &'static str = "0.1.0";

/// What an agent is told of `checkpoint`.
pub const SNAP_ABOUT: &'static str =
    "Take a gloss checkpoint of the current workspace. Use this BEFORE any risky multi-file edit, refactor, or unfamiliar task. The user can later browse all snapshots in the review UI and roll back if anything goes wrong. Returns the checkpoint id and a count of files captured. Cheap and non-destructive — does not touch the user's real .git.";

/// What an agent is told of `list_checkpoints`.
pub const LIST_ABOUT: &'static str =
    "List recent gloss checkpoints for the current workspace, newest first. Each entry has id, label, age, files_changed, insertions, deletions.";

/// What an agent is told of `diff`.
pub const DIFF_ABOUT: &'static str =
    "Show the diff captured by a checkpoint (id may be a unique prefix). Omit `id` to see the most recent checkpoint — useful for 'show the user what I just changed'. Patches are truncated at 64KiB per file. Prefer this over running `git diff` when the user asks 'what did you change'.";

/// What an agent is told of `restore`.
pub const RESTORE_ABOUT: &'static str =
    "Restore the workspace to a checkpoint. DESTRUCTIVE: overwrites unsaved changes in the working tree (a stash ref is captured first as a safety net, but the working tree DOES change). MUST be confirmed by the human user — do NOT call this without an explicit user instruction. The `confirm` parameter is a guard: it must be true AND the human must have asked for restore in this turn.";

/// What an agent is told of `start_review`, up to what the agent is called.
pub const REVIEW_ABOUT: &'static str =
    "Start a browser-based review UI for the current workspace and return its URL. Use this when the user says 'open the review', 'show me the diffs in browser', '启动 review', or similar. Each `label` gets its own deterministic port so multiple ";

/// What an agent is told of `start_review`, after what the agent is called.
pub const REVIEW_ABOUT_END: &'static str =
    " sessions can run side by side without colliding. Idempotent — calling twice with the same label returns the same URL.";

/// What an agent is told of the label of a snapshot.
pub const SNAP_LABEL_ABOUT: &'static str =
    "Short human-readable description of what is about to happen, e.g. 'before refactoring auth middleware'.";

/// What an agent is told of the id to show.
pub const DIFF_ID_ABOUT: &'static str =
    "Checkpoint id or unique prefix. Omit for the latest checkpoint.";

/// What an agent is told of the id to restore.
pub const RESTORE_ID_ABOUT: &'static str =
    "Checkpoint id or unique prefix.";

/// What an agent is told of the guard of a restore.
pub const CONFIRM_ABOUT: &'static str =
    "Must be true. The human user must have explicitly asked to restore in this turn.";

/// What an agent is told of the label of a review.
pub const REVIEW_LABEL_ABOUT: &'static str =
    "Session label. Becomes the browser tab title and badge. Pick something descriptive of the current task.";

// ---- tools ----

/// A parameter of a tool, with its type and what is said of it.
pub open spec fn parameter(kind: Seq<char>, about: Seq<char>) -> JsonView {
    object2("type"@, JsonView::Str(kind), "description"@, JsonView::Str(about))
}

fn new_parameter(kind: &str, about: &str) -> (r: Json)
    ensures
        r@ == parameter(kind@, about@),
{
    new_object2("type", json_str(kind), "description", json_str(about))
}

/// The number of checkpoints to list: from 1 to 200, and 20 where it is left out.
pub open spec fn limit_parameter() -> JsonView {
    JsonView::Object(
        Map::empty().insert("type"@, JsonView::Str("integer"@)).insert(
            "minimum"@,
            JsonView::Number(number_of_int(1)),
        ).insert("maximum"@, JsonView::Number(number_of_int(200))).insert(
            "default"@,
            JsonView::Number(number_of_int(20)),
        ),
    )
}

fn new_limit_parameter() -> (r: Json)
    ensures
        r@ == limit_parameter(),
{
    let mut fields: Vec<(String, Json)> = Vec::new();
    put(&mut fields, "type", json_str("integer"));
    put(&mut fields, "minimum", json_int(1));
    put(&mut fields, "maximum", json_int(200));
    put(&mut fields, "default", json_int(20));
    Json::Object(fields)
}

/// A tool as it is announced.
pub open spec fn tool_entry(name: Seq<char>, about: Seq<char>, schema: JsonView) -> JsonView {
    object3(
        "name"@,
        JsonView::Str(name),
        "description"@,
        JsonView::Str(about),
        "inputSchema"@,
        schema,
    )
}

fn new_tool_entry(name: &str, about: &str, schema: Json) -> (r: Json)
    ensures
        r@ == tool_entry(name@, about@, schema@),
{
    new_object3("name", json_str(name), "description", json_str(about), "inputSchema", schema)
}

/// The schema of parameters that may all be left out.
pub open spec fn optional_schema(properties: JsonView) -> JsonView {
    object2("type"@, JsonView::Str("object"@), "properties"@, properties)
}

fn new_optional_schema(properties: Json) -> (r: Json)
    ensures
        r@ == optional_schema(properties@),
{
    new_object2("type", json_str("object"), "properties", properties)
}

/// The schema of the parameters of `restore`, neither of which may be left out.
pub open spec fn restore_schema() -> JsonView {
    object3(
        "type"@,
        JsonView::Str("object"@),
        "properties"@,
        object2(
            "id"@,
            parameter("string"@, RESTORE_ID_ABOUT@),
            "confirm"@,
            parameter("boolean"@, CONFIRM_ABOUT@),
        ),
        "required"@,
        JsonView::Array(seq![JsonView::Str("id"@), JsonView::Str("confirm"@)]),
    )
}

fn new_restore_schema() -> (r: Json)
    ensures
        r@ == restore_schema(),
{
    let mut required: Vec<Json> = Vec::new();
    append_item(&mut required, json_str("id"));
    append_item(&mut required, json_str("confirm"));
    assert(array_view(required@) =~= seq![JsonView::Str("id"@), JsonView::Str("confirm"@)]);
    new_object3(
        "type",
        json_str("object"),
        "properties",
        new_object2(
            "id",
            new_parameter("string", RESTORE_ID_ABOUT),
            "confirm",
            new_parameter("boolean", CONFIRM_ABOUT),
        ),
        "required",
        Json::Array(required),
    )
}

/// The tools as they are announced; `agent` is what the coding agent is called.
pub open spec fn manifest(agent: Seq<char>) -> Seq<JsonView> {
    seq![
        tool_entry(
            "checkpoint"@,
            SNAP_ABOUT@,
            optional_schema(object1("label"@, parameter("string"@, SNAP_LABEL_ABOUT@))),
        ),
        tool_entry(
            "list_checkpoints"@,
            LIST_ABOUT@,
            optional_schema(object1("limit"@, limit_parameter())),
        ),
        tool_entry(
            "diff"@,
            DIFF_ABOUT@,
            optional_schema(object1("id"@, parameter("string"@, DIFF_ID_ABOUT@))),
        ),
        tool_entry("restore"@, RESTORE_ABOUT@, restore_schema()),
        tool_entry(
            "start_review"@,
            REVIEW_ABOUT@ + agent + REVIEW_ABOUT_END@,
            optional_schema(object1("label"@, parameter("string"@, REVIEW_LABEL_ABOUT@))),
        ),
    ]
}

/// The tools as they are announced; `agent` is what the coding agent is called.
pub fn tools_manifest(agent: &str) -> (r: Vec<Json>)
    ensures
        array_view(r@) == manifest(agent@),
{
    let mut tools: Vec<Json> = Vec::new();
    let snap_schema = new_optional_schema(
        new_object1("label", new_parameter("string", SNAP_LABEL_ABOUT)),
    );
    append_item(&mut tools, new_tool_entry("checkpoint", SNAP_ABOUT, snap_schema));
    let list_schema = new_optional_schema(new_object1("limit", new_limit_parameter()));
    append_item(&mut tools, new_tool_entry("list_checkpoints", LIST_ABOUT, list_schema));
    let diff_schema = new_optional_schema(
        new_object1("id", new_parameter("string", DIFF_ID_ABOUT)),
    );
    append_item(&mut tools, new_tool_entry("diff", DIFF_ABOUT, diff_schema));
    append_item(&mut tools, new_tool_entry("restore", RESTORE_ABOUT, new_restore_schema()));
    let review_schema = new_optional_schema(
        new_object1("label", new_parameter("string", REVIEW_LABEL_ABOUT)),
    );
    let mut review_about = REVIEW_ABOUT.to_string();
    review_about.append(agent);
    review_about.append(REVIEW_ABOUT_END);
    append_item(&mut tools, new_tool_entry("start_review", review_about.as_str(), review_schema));
    assert(array_view(tools@) =~= manifest(agent@));
    tools
}

/// What a tool is asked to do.
pub enum ToolCall {
    Snap { label: Option<String> },
    List { limit: usize },
    /// Without an id, the latest checkpoint is meant.
    Diff { id: Option<String> },
    Restore { target: String },
    StartReview { label: Option<String> },
}

/// The content of a tool call.
pub enum ToolView {
    Snap { label: Option<Seq<char>> },
    List { limit: usize },
    Diff { id: Option<Seq<char>> },
    Restore { target: Seq<char> },
    StartReview { label: Option<Seq<char>> },
}

impl View for ToolCall {
    type V = ToolView;

    open spec fn view(&self) -> ToolView {
        match *self {
            ToolCall::Snap { label } => ToolView::Snap { label: opt_text(label) },
            ToolCall::List { limit } => ToolView::List { limit },
            ToolCall::Diff { id } => ToolView::Diff { id: opt_text(id) },
            ToolCall::Restore { target } => ToolView::Restore { target: target@ },
            ToolCall::StartReview { label } => ToolView::StartReview { label: opt_text(label) },
        }
    }
}

/// The code of a request for something that does not exist.
pub const NOT_FOUND: i32 = -32601;

/// The code of a request whose parameters are wrong.
pub const BAD_PARAMS: i32 = -32602;

/// The code of a request that could not be carried out.
pub const FAILED: i32 = -32000;

/// What a restore without confirmation is answered with.
pub const NOT_CONFIRMED: &'static str =
    "refusing to restore: `confirm` must be true and the human user must have explicitly asked";

/// The value of the parameter `confirm`.
pub open spec fn is_confirmed(args: JsonView) -> bool {
    match field(args, "confirm"@) {
        Some(v) => bool_of(v) == Some(true),
        None => false,
    }
}

/// How many checkpoints are to be listed.
pub open spec fn limit_of(args: JsonView) -> usize {
    match field(args, "limit"@) {
        Some(v) => match u64_of(v) {
            Some(n) => n as usize,
            None => 20,
        },
        None => 20,
    }
}

/// What a call of the tool `name` asks for, or why it is refused.
pub open spec fn tool_of(name: Seq<char>, args: JsonView) -> Result<ToolView, (i32, Seq<char>)> {
    if name == "checkpoint"@ {
        Ok(ToolView::Snap { label: str_field(args, "label"@) })
    } else if name == "list_checkpoints"@ {
        Ok(ToolView::List { limit: limit_of(args) })
    } else if name == "diff"@ {
        Ok(ToolView::Diff { id: str_field(args, "id"@) })
    } else if name == "restore"@ {
        if !is_confirmed(args) {
            Err((FAILED, NOT_CONFIRMED@))
        } else {
            match str_field(args, "id"@) {
                Some(target) => Ok(ToolView::Restore { target }),
                None => Err((BAD_PARAMS, "missing `id`"@)),
            }
        }
    } else if name == "start_review"@ {
        Ok(ToolView::StartReview { label: str_field(args, "label"@) })
    } else {
        Err((NOT_FOUND, "unknown tool: "@ + name))
    }
}

/// A copy of a text that may be missing.
fn owned(s: Option<&str>) -> (r: Option<String>)
    ensures
        opt_text(r) == opt_str(s),
{
    match s {
        Some(t) => Some(t.to_string()),
        None => None,
    }
}

/// What a call of the tool `name` asks for, or why it is refused.
pub fn call_tool(name: &str, args: &Json) -> (r: Result<ToolCall, (i32, String)>)
    ensures
        match r {
            Ok(call) => tool_of(name@, args@) == Ok::<ToolView, (i32, Seq<char>)>(call@),
            Err(e) => tool_of(name@, args@) == Err::<ToolView, (i32, Seq<char>)>((e.0, e.1@)),
        },
{
    if same_text(name, "checkpoint") {
        Ok(ToolCall::Snap { label: owned(args.get_str("label")) })
    } else if same_text(name, "list_checkpoints") {
        let limit: usize = match args.get("limit") {
            Some(v) => match v.as_u64() {
                Some(n) => n as usize,
                None => 20,
            },
            None => 20,
        };
        Ok(ToolCall::List { limit })
    } else if same_text(name, "diff") {
        Ok(ToolCall::Diff { id: owned(args.get_str("id")) })
    } else if same_text(name, "restore") {
        let confirmed = match args.get("confirm") {
            Some(v) => match v.as_bool() {
                Some(b) => b,
                None => false,
            },
            None => false,
        };
        if !confirmed {
            Err((FAILED, NOT_CONFIRMED.to_string()))
        } else {
            match args.get_str("id") {
                Some(id) => Ok(ToolCall::Restore { target: id.to_string() }),
                None => Err((BAD_PARAMS, "missing `id`".to_string())),
            }
        }
    } else if same_text(name, "start_review") {
        Ok(ToolCall::StartReview { label: owned(args.get_str("label")) })
    } else {
        let mut m = "unknown tool: ".to_string();
        m.append(name);
        Err((NOT_FOUND, m))
    }
}

// ---- requests ----

/// What a request comes to: a reply, or the call of a tool.
pub enum Action {
    Reply(Result<Json, (i32, String)>),
    Tool(ToolCall),
}

/// The content of a reply: the result, or a code and a message.
pub type ReplyView = Result<JsonView, (i32, Seq<char>)>;

/// The content of a reply.
pub open spec fn reply_view(r: Result<Json, (i32, String)>) -> ReplyView {
    match r {
        Ok(v) => Ok(v@),
        Err(e) => Err((e.0, e.1@)),
    }
}

/// The content of an action.
pub enum ActionView {
    Reply(ReplyView),
    Tool(ToolView),
}

impl View for Action {
    type V = ActionView;

    open spec fn view(&self) -> ActionView {
        match *self {
            Action::Reply(r) => ActionView::Reply(reply_view(r)),
            Action::Tool(t) => ActionView::Tool(t@),
        }
    }
}

/// How the server presents itself.
pub open spec fn server_card() -> JsonView {
    object3(
        "protocolVersion"@,
        JsonView::Str(PROTOCOL_VERSION@),
        "capabilities"@,
        object1("tools"@, JsonView::Object(Map::empty())),
        "serverInfo"@,
        object2("name"@, JsonView::Str(SERVER_NAME@), "version"@, JsonView::Str(SERVER_VERSION@)),
    )
}

/// The arguments in the parameters of a tool call; none where they are left out.
pub open spec fn arguments_of(params: JsonView) -> JsonView {
    match field(params, "arguments"@) {
        Some(a) => a,
        None => JsonView::Object(Map::empty()),
    }
}

/// What a tool call with the given parameters comes to.
pub open spec fn tool_action(params: JsonView) -> ActionView {
    match str_field(params, "name"@) {
        None => ActionView::Reply(Err((BAD_PARAMS, "missing tool name"@))),
        Some(name) => match tool_of(name, arguments_of(params)) {
            Ok(t) => ActionView::Tool(t),
            Err(e) => ActionView::Reply(Err(e)),
        },
    }
}

/// What a request for `method` comes to.
pub open spec fn action_of(method: Seq<char>, params: JsonView, agent: Seq<char>) -> ActionView {
    if method == "initialize"@ {
        ActionView::Reply(Ok(server_card()))
    } else if method == "tools/list"@ {
        ActionView::Reply(Ok(object1("tools"@, JsonView::Array(manifest(agent)))))
    } else if method == "tools/call"@ {
        tool_action(params)
    } else if method == "ping"@ {
        ActionView::Reply(Ok(JsonView::Object(Map::empty())))
    } else {
        ActionView::Reply(Err((NOT_FOUND, "method not found: "@ + method)))
    }
}

fn empty_object() -> (r: Json)
    ensures
        r@ == JsonView::Object(Map::empty()),
{
    assert(object_view(Seq::<(String, Json)>::empty()) =~= Map::empty());
    Json::Object(Vec::new())
}

/// What a request for `method` with the given parameters comes to; `agent` is what the
/// coding agent is called.
pub fn handle_method(method: &str, params: &Json, agent: &str) -> (r: Action)
    ensures
        r@ == action_of(method@, params@, agent@),
{
    if same_text(method, "initialize") {
        let info = new_object2(
            "name",
            json_str(SERVER_NAME),
            "version",
            json_str(SERVER_VERSION),
        );
        Action::Reply(
            Ok(
                new_object3(
                    "protocolVersion",
                    json_str(PROTOCOL_VERSION),
                    "capabilities",
                    new_object1("tools", empty_object()),
                    "serverInfo",
                    info,
                ),
            ),
        )
    } else if same_text(method, "tools/list") {
        Action::Reply(Ok(new_object1("tools", Json::Array(tools_manifest(agent)))))
    } else if same_text(method, "tools/call") {
        match params.get_str("name") {
            None => Action::Reply(Err((BAD_PARAMS, "missing tool name".to_string()))),
            Some(name) => {
                let none = empty_object();
                let args: &Json = match params.get("arguments") {
                    Some(a) => a,
                    None => &none,
                };
                match call_tool(name, args) {
                    Ok(t) => Action::Tool(t),
                    Err(e) => Action::Reply(Err(e)),
                }
            },
        }
    } else if same_text(method, "ping") {
        Action::Reply(Ok(empty_object()))
    } else {
        let mut m = "method not found: ".to_string();
        m.append(method);
        Action::Reply(Err((NOT_FOUND, m)))
    }
}

/// What a line that came in is.
pub enum Request {
    /// Nothing that is answered: a blank line, or a notification.
    Ignored,
    /// No JSON; this is to be said of it.
    Malformed(String),
    /// A request, with the id under which it is answered.
    Call { id: Json, action: Action },
}

/// The content of a line that came in.
pub enum RequestView {
    Ignored,
    Malformed(Seq<char>),
    Call { id: JsonView, action: ActionView },
}

impl View for Request {
    type V = RequestView;

    open spec fn view(&self) -> RequestView {
        match *self {
            Request::Ignored => RequestView::Ignored,
            Request::Malformed(m) => RequestView::Malformed(m@),
            Request::Call { id, action } => RequestView::Call { id: id@, action: action@ },
        }
    }
}

/// The parameters of a request; null where they are left out.
pub open spec fn params_of(request: JsonView) -> JsonView {
    match field(request, "params"@) {
        Some(p) => p,
        None => JsonView::Null,
    }
}

/// The method of a request; empty where it is left out or no string.
pub open spec fn method_of(request: JsonView) -> Seq<char> {
    match str_field(request, "method"@) {
        Some(m) => m,
        None => ""@,
    }
}

/// What a JSON value that came in is: a notification, which has no id, or a request.
pub open spec fn request_of(value: JsonView, agent: Seq<char>) -> RequestView {
    match field(value, "id"@) {
        None => RequestView::Ignored,
        Some(id) => RequestView::Call {
            id,
            action: action_of(method_of(value), params_of(value), agent),
        },
    }
}

/// What a JSON value that came in is.
pub fn read_request(value: Json, agent: &str) -> (r: Request)
    ensures
        r@ == request_of(value@, agent@),
{
    let null = Json::Null;
    let method: &str = match value.get_str("method") {
        Some(m) => m,
        None => "",
    };
    let params: &Json = match value.get("params") {
        Some(p) => p,
        None => &null,
    };
    let action = handle_method(method, params, agent);
    match value.take("id") {
        None => Request::Ignored,
        Some(id) => Request::Call { id, action },
    }
}

/// What a line that came in is.
pub open spec fn line_request(line: Seq<char>, agent: Seq<char>) -> RequestView {
    if trim_of(line).len() == 0 {
        RequestView::Ignored
    } else {
        match parsed_text(line) {
            Err(e) => RequestView::Malformed("[gloss mcp] bad json: "@ + e),
            Ok(v) => request_of(v, agent),
        }
    }
}

/// What a line that came in is.
pub fn read_line(line: &str, agent: &str) -> (r: Request)
    ensures
        r@ == line_request(line@, agent@),
{
    if is_blank(line) {
        Request::Ignored
    } else {
        match parse(line) {
            Err(e) => {
                let mut m = "[gloss mcp] bad json: ".to_string();
                m.append(e.as_str());
                Request::Malformed(m)
            },
            Ok(v) => read_request(v, agent),
        }
    }
}


// ---- replies of the tools ----

/// The result of a tool that answers with a text.
pub open spec fn text_reply(text: Seq<char>) -> JsonView {
    object1(
        "content"@,
        JsonView::Array(
            seq![object2("type"@, JsonView::Str("text"@), "text"@, JsonView::Str(text))],
        ),
    )
}

/// The result of a tool that answers with a text.
pub fn text_result(text: &str) -> (r: Json)
    ensures
        r@ == text_reply(text@),
{
    let item = new_object2("type", json_str("text"), "text", json_str(text));
    new_object1("content", new_array1(item))
}

/// What is said of a new checkpoint.
pub open spec fn snap_text(cp: CheckpointInfo) -> Seq<char> {
    "checkpoint "@ + cp.id@ + " captured\n  files: "@ + decimal(cp.files_changed as nat) + "  +"@
        + decimal(cp.insertions as nat) + " -"@ + decimal(cp.deletions as nat) + (match cp.label {
        Some(l) => "\n  label: "@ + l@,
        None => ""@,
    })
}

/// The reply to `checkpoint`, from the outcome of the snapshot.
pub fn snap_reply(outcome: &Result<CheckpointInfo, String>) -> (r: Result<Json, (i32, String)>)
    ensures
        reply_view(r) == (match *outcome {
            Ok(cp) => ReplyView::Ok(text_reply(snap_text(cp))),
            Err(e) => ReplyView::Err((FAILED, e@)),
        }),
{
    match outcome {
        Ok(cp) => {
            let label = match &cp.label {
                Some(l) => {
                    let mut t = "\n  label: ".to_string();
                    t.append(l.as_str());
                    t
                },
                None => "".to_string(),
            };
            let mut out = "checkpoint ".to_string();
            out.append(cp.id.as_str());
            out.append(" captured\n  files: ");
            out.append(decimal_text(cp.files_changed as u64).as_str());
            out.append("  +");
            out.append(decimal_text(cp.insertions as u64).as_str());
            out.append(" -");
            out.append(decimal_text(cp.deletions as u64).as_str());
            out.append(label.as_str());
            Ok(text_result(out.as_str()))
        },
        Err(e) => Err((FAILED, e.clone())),
    }
}

/// The line on a checkpoint: its id, its age, its counts and its label.
pub open spec fn list_row(cp: CheckpointInfo, now_secs: u64) -> Seq<char> {
    cp.id@ + "  "@ + age_of(cp.created_at_ms, now_secs) + "  "@ + pad_left(
        decimal(cp.files_changed as nat),
        ' ',
        3,
    ) + " files  +"@ + pad_right(decimal(cp.insertions as nat), ' ', 5) + " -"@ + pad_right(decimal(cp.deletions as nat), ' ', 5) + "  "@ + (match cp.label {
        Some(l) => l@,
        None => "(auto)"@,
    }) + "\n"@
}

/// The lines on checkpoints.
pub open spec fn list_rows(items: Seq<CheckpointInfo>, now_secs: u64) -> Seq<char>
    decreases items.len(),
{
    if items.len() == 0 {
        Seq::empty()
    } else {
        list_rows(items.drop_last(), now_secs) + list_row(items.last(), now_secs)
    }
}

/// The listing of the first checkpoints, without the white space at its end.
pub open spec fn list_text(
    items: Seq<CheckpointInfo>,
    limit: usize,
    now_secs: u64,
) -> Seq<char> {
    if items.len() == 0 {
        "(no checkpoints yet)"@
    } else {
        trim_end_of(list_rows(at_most(items, limit as int), now_secs))
    }
}

/// The reply to `list_checkpoints`, from the checkpoints of the workspace.
pub fn list_reply(items: &Vec<CheckpointInfo>, limit: usize, now_secs: u64) -> (r: Json)
    ensures
        r@ == text_reply(list_text(items@, limit, now_secs)),
{
    if items.len() == 0 {
        return text_result("(no checkpoints yet)");
    }
    let n: usize = if limit < items.len() {
        limit
    } else {
        items.len()
    };
    let mut out = String::new();
    let mut i: usize = 0;
    assert(list_rows(items@.take(0), now_secs) =~= out@);
    while i < n
        invariant
            i <= n <= items@.len(),
            out@ == list_rows(items@.take(i as int), now_secs),
        decreases n - i,
    {
        let cp = &items[i];
        let label = match &cp.label {
            Some(l) => l.as_str(),
            None => "(auto)",
        };
        assert(items@.take(i + 1).drop_last() == items@.take(i as int));
        let mut row = cp.id.clone();
        row.append("  ");
        row.append(format_ts(cp.created_at_ms, now_secs).as_str());
        row.append("  ");
        row.append(padded_left(decimal_text(cp.files_changed as u64).as_str(), ' ', 3).as_str());
        row.append(" files  +");
        row.append(padded_right(decimal_text(cp.insertions as u64).as_str(), ' ', 5).as_str());
        row.append(" -");
        row.append(padded_right(decimal_text(cp.deletions as u64).as_str(), ' ', 5).as_str());
        row.append("  ");
        row.append(label);
        row.append("\n");
        out.append(row.as_str());
        i += 1;
    }
    assert(items@.take(n as int) == at_most(items@, limit as int));
    text_result(trim_end(out.as_str()).as_str())
}

/// The checkpoint that a prefix stands for, or the reply that says why it stands for
/// none.
pub fn resolve_prefix(items: &Vec<CheckpointInfo>, prefix: &str) -> (r: Result<
    String,
    (i32, String),
>)
    ensures
        match r {
            Ok(id) => resolved(items@, prefix@) == Ok::<Seq<char>, Seq<char>>(id@),
            Err(e) => e.0 == FAILED && resolved(items@, prefix@) == Err::<Seq<char>, Seq<char>>(
                e.1@,
            ),
        },
{
    match resolve_id(items, prefix) {
        Ok(id) => Ok(id),
        Err(e) => Err((FAILED, e)),
    }
}

/// The checkpoint that `diff` is to show: the one asked for, or the latest.
pub open spec fn shown_target(items: Seq<CheckpointInfo>, id: Option<Seq<char>>) -> Result<
    Seq<char>,
    Seq<char>,
> {
    match id {
        Some(prefix) => resolved(items, prefix),
        None => if items.len() == 0 {
            Err("no checkpoints yet"@)
        } else {
            Ok(items[0].id@)
        },
    }
}

/// The checkpoint that `diff` is to show: the one asked for, or the latest.
pub fn diff_target(items: &Vec<CheckpointInfo>, id: Option<&str>) -> (r: Result<
    String,
    (i32, String),
>)
    ensures
        match r {
            Ok(t) => shown_target(items@, opt_str(id)) == Ok::<Seq<char>, Seq<char>>(t@),
            Err(e) => e.0 == FAILED && shown_target(items@, opt_str(id)) == Err::<
                Seq<char>,
                Seq<char>,
            >(e.1@),
        },
{
    match id {
        Some(prefix) => resolve_prefix(items, prefix),
        None => if items.len() == 0 {
            Err((FAILED, "no checkpoints yet".to_string()))
        } else {
            Ok(items[0].id.clone())
        },
    }
}

/// What is said of a changed file.
pub open spec fn file_text(fd: FileDiff) -> Seq<char> {
    "── "@ + fd.path@ + " ── ("@ + status_word(fd.status) + ", +"@ + decimal(
        fd.additions as nat,
    ) + " -"@ + decimal(fd.deletions as nat) + ")"@ + (if fd.truncated {
        " [TRUNCATED]"@
    } else {
        ""@
    }) + "\n"@ + (if fd.patch@.len() == 0 {
        "(binary or rename-only)\n\n"@
    } else {
        fd.patch@ + (if fd.patch@.last() == '\n' {
            ""@
        } else {
            "\n"@
        }) + "\n"@
    })
}

/// What is said of changed files.
pub open spec fn files_text(ds: Seq<FileDiff>) -> Seq<char>
    decreases ds.len(),
{
    if ds.len() == 0 {
        Seq::empty()
    } else {
        files_text(ds.drop_last()) + file_text(ds.last())
    }
}

/// What is said of the changes of a checkpoint.
pub open spec fn diff_text(target: Seq<char>, ds: Seq<FileDiff>) -> Seq<char> {
    if ds.len() == 0 {
        "checkpoint "@ + target + " has no changes"@
    } else {
        trim_end_of(
            "checkpoint "@ + target + " ("@ + decimal(ds.len()) + " files)\n\n"@ + files_text(ds),
        )
    }
}

fn file_paragraph(fd: &FileDiff) -> (r: String)
    ensures
        r@ == file_text(*fd),
{
    let body = if fd.patch.as_str().is_empty() {
        "(binary or rename-only)\n\n".to_string()
    } else {
        let mut b = fd.patch.clone();
        if ends_with_char(fd.patch.as_str(), '\n') {
            b.append("");
        } else {
            b.append("\n");
        }
        b.append("\n");
        b
    };
    let mut out = "── ".to_string();
    out.append(fd.path.as_str());
    out.append(" ── (");
    out.append(status_name(fd.status));
    out.append(", +");
    out.append(decimal_text(fd.additions as u64).as_str());
    out.append(" -");
    out.append(decimal_text(fd.deletions as u64).as_str());
    out.append(")");
    out.append(
        if fd.truncated {
            " [TRUNCATED]"
        } else {
            ""
        },
    );
    out.append("\n");
    out.append(body.as_str());
    out
}

/// The reply to `diff`, from the checkpoint that is shown and the outcome of the
/// comparison.
pub fn diff_reply(target: &str, outcome: &Result<Vec<FileDiff>, String>) -> (r: Result<
    Json,
    (i32, String),
>)
    ensures
        reply_view(r) == (match *outcome {
            Ok(ds) => ReplyView::Ok(text_reply(diff_text(target@, ds@))),
            Err(e) => ReplyView::Err((FAILED, e@)),
        }),
{
    match outcome {
        Err(e) => Err((FAILED, e.clone())),
        Ok(ds) => {
            let mut head = "checkpoint ".to_string();
            head.append(target);
            if ds.len() == 0 {
                head.append(" has no changes");
                return Ok(text_result(head.as_str()));
            }
            let mut files = String::new();
            let mut i: usize = 0;
            assert(files_text(ds@.take(0)) =~= files@);
            while i < ds.len()
                invariant
                    i <= ds@.len(),
                    files@ == files_text(ds@.take(i as int)),
                decreases ds@.len() - i,
            {
                assert(ds@.take(i + 1).drop_last() == ds@.take(i as int));
                files.append(file_paragraph(&ds[i]).as_str());
                i += 1;
            }
            assert(ds@.take(i as int) == ds@);
            head.append(" (");
            head.append(decimal_text(ds.len() as u64).as_str());
            head.append(" files)\n\n");
            head.append(files.as_str());
            Ok(text_result(trim_end(head.as_str()).as_str()))
        },
    }
}

/// What is said of a restore.
pub open spec fn restore_text(report: RestoreReport) -> Seq<char> {
    "restored "@ + decimal(report.restored_files@.len()) + " files, removed "@ + decimal(
        report.removed_files@.len(),
    ) + " files"@ + (match report.stash_commit {
        Some(s) => "\npre-restore working tree captured at stash commit "@ + leading_text(s@, 8),
        None => ""@,
    })
}

/// The reply to `restore`, from its outcome.
pub fn restore_reply(outcome: &Result<RestoreReport, String>) -> (r: Result<Json, (i32, String)>)
    requires
        outcome matches Ok(report) ==> (report.stash_commit matches Some(s) ==> cuts_at(s@, 8)),
    ensures
        reply_view(r) == (match *outcome {
            Ok(report) => ReplyView::Ok(text_reply(restore_text(report))),
            Err(e) => ReplyView::Err((FAILED, e@)),
        }),
{
    match outcome {
        Err(e) => Err((FAILED, e.clone())),
        Ok(report) => {
            let stash = match &report.stash_commit {
                Some(s) => {
                    let mut t = "\npre-restore working tree captured at stash commit ".to_string();
                    t.append(first_bytes(s.as_str(), 8));
                    t
                },
                None => "".to_string(),
            };
            let mut out = "restored ".to_string();
            out.append(decimal_text(report.restored_files.len() as u64).as_str());
            out.append(" files, removed ");
            out.append(decimal_text(report.removed_files.len() as u64).as_str());
            out.append(" files");
            out.append(stash.as_str());
            Ok(text_result(out.as_str()))
        },
    }
}

// ---- reviews ----

/// The reviews that the server has started, each with its label and its port.
pub struct RunningUis {
    entries: Vec<(Option<String>, u16)>,
}

/// The ports by label; a review without a label has its own.
pub open spec fn ports_of(entries: Seq<(Option<String>, u16)>) -> Map<Option<Seq<char>>, u16>
    decreases entries.len(),
{
    if entries.len() == 0 {
        Map::empty()
    } else {
        ports_of(entries.drop_last()).insert(opt_text(entries.last().0), entries.last().1)
    }
}

proof fn lemma_ports(entries: Seq<(Option<String>, u16)>, label: Option<Seq<char>>)
    ensures
        ports_of(entries).contains_key(label) == exists|i: int|
            0 <= i < entries.len() && opt_text(#[trigger] entries[i].0) == label,
    decreases entries.len(),
{
    if entries.len() > 0 {
        let front = entries.drop_last();
        lemma_ports(front, label);
        if exists|i: int| 0 <= i < front.len() && opt_text(#[trigger] front[i].0) == label {
            let i = choose|i: int| 0 <= i < front.len() && opt_text(#[trigger] front[i].0) == label;
            assert(opt_text(entries[i].0) == label);
        }
        if exists|i: int| 0 <= i < entries.len() && opt_text(#[trigger] entries[i].0) == label {
            let i = choose|i: int|
                0 <= i < entries.len() && opt_text(#[trigger] entries[i].0) == label;
            if i < front.len() {
                assert(opt_text(front[i].0) == label);
            }
        }
        if opt_text(entries.last().0) == label {
            assert(opt_text(entries[entries.len() - 1].0) == label);
        }
    }
}

/// The reviews that run after one was asked for: the one asked for is started unless
/// one runs under its label.
pub open spec fn after_review(
    running: Map<Option<Seq<char>>, u16>,
    workspace: Seq<char>,
    label: Option<Seq<char>>,
) -> Map<Option<Seq<char>>, u16> {
    if running.contains_key(label) {
        running
    } else {
        running.insert(label, port_of(workspace, label) as u16)
    }
}

/// Whether two labels that may be missing are the same.
fn same_label(a: &Option<String>, b: Option<&str>) -> (r: bool)
    ensures
        r == (opt_text(*a) == opt_str(b)),
{
    match (a, b) {
        (Some(x), Some(y)) => same_text(x.as_str(), y),
        (None, None) => true,
        _ => false,
    }
}

impl RunningUis {
    /// The ports by label.
    pub closed spec fn view(&self) -> Map<Option<Seq<char>>, u16> {
        ports_of(self.entries@)
    }

    /// No review runs.
    pub fn new() -> (r: Self)
        ensures
            r@ == Map::<Option<Seq<char>>, u16>::empty(),
    {
        RunningUis { entries: Vec::new() }
    }

    fn has_review(&self, label: Option<&str>) -> (r: bool)
        ensures
            r == self@.contains_key(opt_str(label)),
    {
        let ghost key = opt_str(label);
        proof {
            lemma_ports(self.entries@, key);
        }
        let mut i: usize = 0;
        while i < self.entries.len()
            invariant
                i <= self.entries@.len(),
                key == opt_str(label),
                self@.contains_key(key) == exists|k: int|
                    0 <= k < self.entries@.len() && opt_text(#[trigger] self.entries@[k].0) == key,
                forall|k: int| 0 <= k < i ==> opt_text(#[trigger] self.entries@[k].0) != key,
            decreases self.entries@.len() - i,
        {
            if same_label(&self.entries[i].0, label) {
                assert(opt_text(self.entries@[i as int].0) == key);
                return true;
            }
            i += 1;
        }
        false
    }

    /// Takes note that a review of the workspace is wanted. Gives the port for it, and
    /// whether a server is to be started there: not where a review runs under the
    /// label already.
    pub fn start_review(&mut self, workspace: &str, label: Option<&str>) -> (r: (u16, bool))
        ensures
            r.0 == port_of(workspace@, opt_str(label)),
            r.1 == !old(self)@.contains_key(opt_str(label)),
            final(self)@ == after_review(old(self)@, workspace@, opt_str(label)),
    {
        let port = port_for(workspace, label);
        if self.has_review(label) {
            return (port, false);
        }
        let ghost start = self.entries@;
        self.entries.push((owned(label), port));
        assert(self.entries@.drop_last() == start);
        (port, true)
    }
}

/// What is said of a review.
pub open spec fn review_text(label: Option<Seq<char>>, port: u16) -> Seq<char> {
    match label {
        Some(l) => "review UI for `"@ + l + "` is open at "@ + url_of(port),
        None => "review UI is open at "@ + url_of(port),
    }
}

/// The reply to `start_review`.
pub fn review_reply(label: Option<&str>, port: u16) -> (r: Json)
    ensures
        r@ == text_reply(review_text(opt_str(label), port)),
{
    let url = local_url(port);
    let mut out = match label {
        Some(l) => {
            let mut t = "review UI for `".to_string();
            t.append(l);
            t.append("` is open at ");
            t
        },
        None => "review UI is open at ".to_string(),
    };
    out.append(url.as_str());
    text_result(out.as_str())
}

// ---- responses ----

/// The response to the request with the given id.
pub open spec fn response_of(id: JsonView, reply: ReplyView) -> JsonView {
    match reply {
        Ok(v) => object3("jsonrpc"@, JsonView::Str("2.0"@), "id"@, id, "result"@, v),
        Err(e) => object3(
            "jsonrpc"@,
            JsonView::Str("2.0"@),
            "id"@,
            id,
            "error"@,
            object2(
                "code"@,
                JsonView::Number(number_of_int(e.0 as i64)),
                "message"@,
                JsonView::Str(e.1),
            ),
        ),
    }
}

/// The response to the request with the given id.
pub fn response(id: Json, reply: Result<Json, (i32, String)>) -> (r: Json)
    ensures
        r@ == response_of(id@, reply_view(reply)),
{
    match reply {
        Ok(v) => new_object3("jsonrpc", json_str("2.0"), "id", id, "result", v),
        Err((code, message)) => new_object3(
            "jsonrpc",
            json_str("2.0"),
            "id",
            id,
            "error",
            new_object2("code", json_int(code as i64), "message", json_str(message.as_str())),
        ),
    }
}

/// The line that answers the request with the given id, without its end; empty where
/// the response cannot be written.
pub fn response_line(id: Json, reply: Result<Json, (i32, String)>) -> (r: String)
    ensures
        r@ == (match compact_text(response_of(id@, reply_view(reply))) {
            Some(s) => s,
            None => Seq::<char>::empty(),
        }),
        !r@.contains('\n'),
{
    compact(response(id, reply))
}

// ---- laws ----

/// Nothing is restored that was not confirmed: a request comes to a restore only
/// where it calls the tool `restore` and its `confirm` is true.
pub proof fn law_restore_is_confirmed(
    request: JsonView,
    agent: Seq<char>,
    id: JsonView,
    target: Seq<char>,
)
    requires
        request_of(request, agent) == (RequestView::Call {
            id,
            action: ActionView::Tool(ToolView::Restore { target }),
        }),
    ensures
        method_of(request) == "tools/call"@,
        str_field(params_of(request), "name"@) == Some("restore"@),
        is_confirmed(arguments_of(params_of(request))),
        str_field(arguments_of(params_of(request)), "id"@) == Some(target),
{
}

/// A restore that was not confirmed is refused, whatever else it says.
pub proof fn law_unconfirmed_restore_is_refused(args: JsonView)
    requires
        !is_confirmed(args),
    ensures
        tool_of("restore"@, args) == Err::<ToolView, (i32, Seq<char>)>((FAILED, NOT_CONFIRMED@)),
{
    reveal_strlit("checkpoint");
    reveal_strlit("list_checkpoints");
    reveal_strlit("diff");
    reveal_strlit("restore");
    assert("restore"@.len() == 7);
}

/// A notification is not answered, and whatever has an id is, under that id.
pub proof fn law_answered_by_id(request: JsonView, agent: Seq<char>)
    ensures
        field(request, "id"@) is None ==> request_of(request, agent) is Ignored,
        field(request, "id"@) matches Some(id) ==> (request_of(request, agent) matches
            RequestView::Call { id: answered, action: _ } && answered == id),
{
}

/// A response names the version of JSON-RPC, and carries the id of its request and
/// either a result or an error.
pub proof fn law_response_carries_id(id: JsonView, reply: ReplyView)
    ensures
        field(response_of(id, reply), "jsonrpc"@) == Some(JsonView::Str("2.0"@)),
        field(response_of(id, reply), "id"@) == Some(id),
        field(response_of(id, reply), "result"@) == (match reply {
            Ok(v) => Some(v),
            Err(_) => None,
        }),
        field(response_of(id, reply), "error"@) is Some == reply is Err,
{
    reveal_strlit("jsonrpc");
    reveal_strlit("id");
    reveal_strlit("result");
    reveal_strlit("error");
    assert("jsonrpc"@.len() == 7 && "id"@.len() == 2 && "result"@.len() == 6 && "error"@.len() == 5);
}

/// Asking for a review again under the same label starts nothing and changes nothing;
/// under a label of its own, or without one where all others have one, a review is
/// started on the port of its own label and leaves the others alone.
pub proof fn law_review_starts_once(
    running: Map<Option<Seq<char>>, u16>,
    workspace: Seq<char>,
    label: Option<Seq<char>>,
)
    ensures
        after_review(running, workspace, label).contains_key(label),
        after_review(after_review(running, workspace, label), workspace, label) == after_review(
            running,
            workspace,
            label,
        ),
        !running.contains_key(label) ==> after_review(running, workspace, label)[label]
            == port_of(workspace, label),
        after_review(running, workspace, label).remove(label) == running.remove(label),
{
    assert(after_review(running, workspace, label).remove(label) =~= running.remove(label));
    assert(0 <= port_of(workspace, label) <= 7999);
}

/// Without an id, `diff` shows the checkpoint that `list_checkpoints` gives first.
pub proof fn law_diff_shows_latest(items: Seq<CheckpointInfo>)
    requires
        items.len() > 0,
    ensures
        shown_target(items, None) == Ok::<Seq<char>, Seq<char>>(items[0].id@),
{
}

/// A request calls the tool `name` with arguments: its method, and in its parameters the
/// name and the arguments.
pub open spec fn calls_tool(
    request: Map<Seq<char>, JsonView>,
    name: Seq<char>,
    args: Map<Seq<char>, JsonView>,
) -> bool {
    &&& request.contains_key("method"@)
    &&& request["method"@] == JsonView::Str("tools/call"@)
    &&& request.contains_key("params"@)
    &&& request["params"@] matches JsonView::Object(params) && {
        &&& params.contains_key("name"@)
        &&& params["name"@] == JsonView::Str(name)
        &&& params.contains_key("arguments"@)
        &&& params["arguments"@] == JsonView::Object(args)
    }
}

/// The texts by which methods and tools are known all differ.
proof fn lemma_names_differ()
    ensures
        "initialize"@ != "tools/list"@,
        "initialize"@ != "tools/call"@,
        "initialize"@ != "ping"@,
        "tools/list"@ != "tools/call"@,
        "tools/list"@ != "ping"@,
        "tools/call"@ != "ping"@,
        "checkpoint"@ != "list_checkpoints"@,
        "checkpoint"@ != "diff"@,
        "checkpoint"@ != "restore"@,
        "checkpoint"@ != "start_review"@,
        "list_checkpoints"@ != "diff"@,
        "list_checkpoints"@ != "restore"@,
        "list_checkpoints"@ != "start_review"@,
        "diff"@ != "restore"@,
        "diff"@ != "start_review"@,
        "restore"@ != "start_review"@,
{
    reveal_strlit("initialize");
    reveal_strlit("tools/list");
    reveal_strlit("tools/call");
    reveal_strlit("ping");
    reveal_strlit("checkpoint");
    reveal_strlit("list_checkpoints");
    reveal_strlit("diff");
    reveal_strlit("restore");
    reveal_strlit("start_review");
    assert("ping"@.len() == 4 && "initialize"@.len() == 10 && "tools/list"@.len() == 10
        && "tools/call"@.len() == 10);
    assert("checkpoint"@.len() == 10 && "list_checkpoints"@.len() == 16 && "diff"@.len() == 4
        && "restore"@.len() == 7 && "start_review"@.len() == 12);
    assert("initialize"@[0] == 'i' && "tools/list"@[0] == 't' && "tools/call"@[0] == 't');
    assert("tools/list"@[6] == 'l' && "tools/call"@[6] == 'c');
}

/// A request that calls `diff` comes to a diff of exactly the `id` that it gives, and to
/// one of the latest checkpoint only where it gives no text as `id`.
pub proof fn law_diff_takes_its_id(
    request: Map<Seq<char>, JsonView>,
    args: Map<Seq<char>, JsonView>,
    answer: JsonView,
    agent: Seq<char>,
)
    requires
        request.contains_key("id"@),
        request["id"@] == answer,
        calls_tool(request, "diff"@, args),
    ensures
        forall|target: Seq<char>|
            args.contains_key("id"@) && args["id"@] == JsonView::Str(target) ==> #[trigger]
            request_of(JsonView::Object(request), agent) == (RequestView::Call {
                id: answer,
                action: ActionView::Tool(ToolView::Diff { id: Some(target) }),
            }),
        !(args.contains_key("id"@) && args["id"@] is Str) ==> request_of(
            JsonView::Object(request),
            agent,
        ) == (RequestView::Call {
            id: answer,
            action: ActionView::Tool(ToolView::Diff { id: None }),
        }),
{
    lemma_names_differ();
}

/// A request that calls `checkpoint` comes to a snapshot with exactly the `label` that it
/// gives, and to one without a label only where it gives no text as `label`.
pub proof fn law_snapshot_takes_its_label(
    request: Map<Seq<char>, JsonView>,
    args: Map<Seq<char>, JsonView>,
    answer: JsonView,
    agent: Seq<char>,
)
    requires
        request.contains_key("id"@),
        request["id"@] == answer,
        calls_tool(request, "checkpoint"@, args),
    ensures
        forall|label: Seq<char>|
            args.contains_key("label"@) && args["label"@] == JsonView::Str(label) ==> #[trigger]
            request_of(JsonView::Object(request), agent) == (RequestView::Call {
                id: answer,
                action: ActionView::Tool(ToolView::Snap { label: Some(label) }),
            }),
        !(args.contains_key("label"@) && args["label"@] is Str) ==> request_of(
            JsonView::Object(request),
            agent,
        ) == (RequestView::Call {
            id: answer,
            action: ActionView::Tool(ToolView::Snap { label: None }),
        }),
{
    lemma_names_differ();
}

/// A request that calls `start_review` comes to a review under exactly the `label` that it
/// gives, and to one without a label only where it gives no text as `label`.
pub proof fn law_review_takes_its_label(
    request: Map<Seq<char>, JsonView>,
    args: Map<Seq<char>, JsonView>,
    answer: JsonView,
    agent: Seq<char>,
)
    requires
        request.contains_key("id"@),
        request["id"@] == answer,
        calls_tool(request, "start_review"@, args),
    ensures
        forall|label: Seq<char>|
            args.contains_key("label"@) && args["label"@] == JsonView::Str(label) ==> #[trigger]
            request_of(JsonView::Object(request), agent) == (RequestView::Call {
                id: answer,
                action: ActionView::Tool(ToolView::StartReview { label: Some(label) }),
            }),
        !(args.contains_key("label"@) && args["label"@] is Str) ==> request_of(
            JsonView::Object(request),
            agent,
        ) == (RequestView::Call {
            id: answer,
            action: ActionView::Tool(ToolView::StartReview { label: None }),
        }),
{
    lemma_names_differ();
}

/// A request that calls `list_checkpoints` comes to a listing of exactly as many as its
/// `limit` says, and of twenty only where that is no whole number from 0 on.
pub proof fn law_listing_takes_its_limit(
    request: Map<Seq<char>, JsonView>,
    args: Map<Seq<char>, JsonView>,
    answer: JsonView,
    agent: Seq<char>,
    limit: usize,
)
    requires
        request.contains_key("id"@),
        request["id"@] == answer,
        calls_tool(request, "list_checkpoints"@, args),
        if args.contains_key("limit"@) && args["limit"@] is Number && number_u64(
            args["limit"@]->Number_0,
        ) is Some {
            number_u64(args["limit"@]->Number_0).unwrap() == limit
        } else {
            limit == 20
        },
    ensures
        request_of(JsonView::Object(request), agent) == (RequestView::Call {
            id: answer,
            action: ActionView::Tool(ToolView::List { limit }),
        }),
{
    lemma_names_differ();
}

/// A request that calls `restore` comes to a restore of exactly the `id` that it gives
/// where its `confirm` is true. Where it is not it is refused, and so is a request that
/// gives no text as `id`.
pub proof fn law_restore_takes_its_id(
    request: Map<Seq<char>, JsonView>,
    args: Map<Seq<char>, JsonView>,
    answer: JsonView,
    agent: Seq<char>,
)
    requires
        request.contains_key("id"@),
        request["id"@] == answer,
        calls_tool(request, "restore"@, args),
    ensures
        ({
            let confirmed = args.contains_key("confirm"@) && args["confirm"@] == JsonView::Bool(
                true,
            );
            let named = args.contains_key("id"@) && args["id"@] is Str;
            request_of(JsonView::Object(request), agent) == (RequestView::Call {
                id: answer,
                action: if confirmed && named {
                    ActionView::Tool(ToolView::Restore { target: args["id"@]->Str_0 })
                } else if confirmed {
                    ActionView::Reply(Err((-32602i32, "missing `id`"@)))
                } else {
                    ActionView::Reply(
                        Err(
                            (
                                -32000i32,
                                "refusing to restore: `confirm` must be true and the human user must have explicitly asked"@,
                            ),
                        ),
                    )
                },
            })
        }),
{
    lemma_names_differ();
}

/// A tool that is not one of the five is not found.
pub proof fn law_unknown_tool_is_refused(
    request: Map<Seq<char>, JsonView>,
    args: Map<Seq<char>, JsonView>,
    answer: JsonView,
    agent: Seq<char>,
    name: Seq<char>,
)
    requires
        request.contains_key("id"@),
        request["id"@] == answer,
        calls_tool(request, name, args),
        !seq!["checkpoint"@, "list_checkpoints"@, "diff"@, "restore"@, "start_review"@].contains(
            name,
        ),
    ensures
        request_of(JsonView::Object(request), agent) == (RequestView::Call {
            id: answer,
            action: ActionView::Reply(Err((-32601i32, "unknown tool: "@ + name))),
        }),
{
    lemma_names_differ();
    let tools = seq!["checkpoint"@, "list_checkpoints"@, "diff"@, "restore"@, "start_review"@];
    assert(tools[0] == "checkpoint"@ && tools[1] == "list_checkpoints"@ && tools[2] == "diff"@
        && tools[3] == "restore"@ && tools[4] == "start_review"@);
    assert(tools.contains(tools[0]) && tools.contains(tools[1]) && tools.contains(tools[2])
        && tools.contains(tools[3]) && tools.contains(tools[4]));
}

/// A request that leaves out the arguments of a tool asks for the same as one that gives
/// none.
pub proof fn law_arguments_may_be_left_out(
    params: Map<Seq<char>, JsonView>,
    agent: Seq<char>,
)
    requires
        !params.contains_key("arguments"@),
    ensures
        action_of("tools/call"@, JsonView::Object(params), agent) == action_of(
            "tools/call"@,
            JsonView::Object(
                params.insert("arguments"@, JsonView::Object(Map::empty())),
            ),
            agent,
        ),
        !(params.contains_key("name"@) && params["name"@] is Str) ==> action_of(
            "tools/call"@,
            JsonView::Object(params),
            agent,
        ) == ActionView::Reply(Err((-32602i32, "missing tool name"@))),
{
    lemma_names_differ();
    reveal_strlit("name");
    reveal_strlit("arguments");
    assert("name"@.len() == 4 && "arguments"@.len() == 9);
    let more = params.insert("arguments"@, JsonView::Object(Map::empty()));
    assert(field(JsonView::Object(params), "name"@) == field(JsonView::Object(more), "name"@));
}

/// What the other methods come to: the server presents itself, lists its tools, and
/// answers a ping with an empty object. Any other method, or none, is not found: only
/// `tools/call` comes to the call of a tool.
pub proof fn law_other_methods(method: Seq<char>, params: JsonView, agent: Seq<char>)
    ensures
        method == "initialize"@ ==> (action_of(method, params, agent) matches ActionView::Reply(
            Ok(JsonView::Object(card)),
        ) && card.dom() == set!["protocolVersion"@, "capabilities"@, "serverInfo"@]
            && card["protocolVersion"@] == JsonView::Str("2024-11-05"@)),
        method == "tools/list"@ ==> (action_of(method, params, agent) matches ActionView::Reply(
            Ok(JsonView::Object(r)),
        ) && r.dom() == set!["tools"@] && r["tools"@] == JsonView::Array(manifest(agent))),
        method == "ping"@ ==> (action_of(method, params, agent) matches ActionView::Reply(
            Ok(JsonView::Object(r)),
        ) && r.dom() == Set::<Seq<char>>::empty()),
        action_of(method, params, agent) is Tool ==> method == "tools/call"@,
        !seq!["initialize"@, "tools/list"@, "tools/call"@, "ping"@].contains(method) ==> action_of(
            method,
            params,
            agent,
        ) == ActionView::Reply(Err((-32601i32, "method not found: "@ + method))),
{
    lemma_names_differ();
    reveal_strlit("protocolVersion");
    reveal_strlit("capabilities");
    reveal_strlit("serverInfo");
    assert("protocolVersion"@.len() == 15 && "capabilities"@.len() == 12 && "serverInfo"@.len()
        == 10);
    assert(server_card()->Object_0.dom() =~= set![
        "protocolVersion"@,
        "capabilities"@,
        "serverInfo"@,
    ]);
    assert(object1("tools"@, JsonView::Array(manifest(agent)))->Object_0.dom() =~= set!["tools"@]);
    assert(Map::<Seq<char>, JsonView>::empty().dom() =~= Set::empty());
    let methods = seq!["initialize"@, "tools/list"@, "tools/call"@, "ping"@];
    assert(methods[0] == "initialize"@ && methods[1] == "tools/list"@ && methods[2]
        == "tools/call"@ && methods[3] == "ping"@);
    assert(methods.contains(methods[0]) && methods.contains(methods[1]) && methods.contains(
        methods[2],
    ) && methods.contains(methods[3]));
}

/// The method and the parameters of a request are what it gives; a method that is no text
/// is as good as none.
pub proof fn law_request_gives_method(
    request: Map<Seq<char>, JsonView>,
    answer: JsonView,
    agent: Seq<char>,
)
    requires
        request.contains_key("id"@),
        request["id"@] == answer,
    ensures
        ({
            let method = if request.contains_key("method"@) && request["method"@] is Str {
                request["method"@]->Str_0
            } else {
                Seq::empty()
            };
            let params = if request.contains_key("params"@) {
                request["params"@]
            } else {
                JsonView::Null
            };
            request_of(JsonView::Object(request), agent) == (RequestView::Call {
                id: answer,
                action: action_of(method, params, agent),
            })
        }),
        !request.remove("id"@).contains_key("id"@) ==> request_of(
            JsonView::Object(request.remove("id"@)),
            agent,
        ) is Ignored,
{
    reveal_strlit("");
    assert(""@ =~= Seq::<char>::empty());
}

/// The five tools are announced, each once, and each takes what it is announced to take;
/// a restore alone has parameters that it cannot do without.
pub proof fn law_announced_tools(agent: Seq<char>)
    ensures
        manifest(agent).len() == 5,
        forall|i: int|
            0 <= i < 5 ==> field(#[trigger] manifest(agent)[i], "name"@) == Some(
                JsonView::Str(
                    seq!["checkpoint"@, "list_checkpoints"@, "diff"@, "restore"@, "start_review"@][i],
                ),
            ),
        announces(manifest(agent)[0], set!["label"@]),
        announces(manifest(agent)[1], set!["limit"@]),
        announces(manifest(agent)[2], set!["id"@]),
        announces(manifest(agent)[3], set!["id"@, "confirm"@]),
        announces(manifest(agent)[4], set!["label"@]),
        field(manifest(agent)[3]->Object_0["inputSchema"@], "required"@) == Some(
            JsonView::Array(seq![JsonView::Str("id"@), JsonView::Str("confirm"@)]),
        ),
{
    reveal_strlit("name");
    reveal_strlit("description");
    reveal_strlit("inputSchema");
    assert("name"@.len() == 4 && "description"@.len() == 11 && "inputSchema"@.len() == 11);
    assert("description"@[0] == 'd' && "inputSchema"@[0] == 'i');
    reveal_strlit("type");
    reveal_strlit("properties");
    reveal_strlit("required");
    assert("type"@.len() == 4 && "properties"@.len() == 10 && "required"@.len() == 8);
    reveal_strlit("id");
    reveal_strlit("confirm");
    assert("id"@.len() == 2 && "confirm"@.len() == 7);
    let m = manifest(agent);
    assert(properties_of(m[0]).dom() =~= set!["label"@]);
    assert(properties_of(m[1]).dom() =~= set!["limit"@]);
    assert(properties_of(m[2]).dom() =~= set!["id"@]);
    assert(properties_of(m[3]).dom() =~= set!["id"@, "confirm"@]);
    assert(properties_of(m[4]).dom() =~= set!["label"@]);
}

/// The parameters that an announced tool has.
pub open spec fn properties_of(tool: JsonView) -> Map<Seq<char>, JsonView> {
    tool->Object_0["inputSchema"@]->Object_0["properties"@]->Object_0
}

/// A tool is announced with these parameters.
pub open spec fn announces(tool: JsonView, names: Set<Seq<char>>) -> bool {
    &&& tool is Object
    &&& tool->Object_0.contains_key("inputSchema"@)
    &&& tool->Object_0["inputSchema"@] is Object
    &&& tool->Object_0["inputSchema"@]->Object_0.contains_key("properties"@)
    &&& tool->Object_0["inputSchema"@]->Object_0["properties"@] is Object
    &&& properties_of(tool).dom() == names
}

/// A text that a tool answers with stands in its reply as it is.
pub proof fn law_reply_holds_the_text(text: Seq<char>)
    ensures
        text_reply(text) matches JsonView::Object(r) && r.contains_key("content"@) && (
        r["content"@] matches JsonView::Array(items) && items.len() == 1 && (
        items[0] matches JsonView::Object(item) && item.contains_key("text"@) && item["text"@]
            == JsonView::Str(text) && item.contains_key("type"@) && item["type"@] == JsonView::Str(
            "text"@,
        ))),
{
    reveal_strlit("type");
    reveal_strlit("text");
    assert("type"@[1] == 'y' && "text"@[1] == 'e');
}

/// What is said of a new checkpoint holds its id, its counts and its label, in this
/// order.
pub proof fn law_snapshot_is_described(cp: CheckpointInfo)
    ensures
        ({
            let said = seq![
                "checkpoint "@,
                cp.id@,
                " captured\n  files: "@,
                decimal(cp.files_changed as nat),
                "  +"@,
                decimal(cp.insertions as nat),
                " -"@,
                decimal(cp.deletions as nat),
            ];
            &&& shows(snap_text(cp), said)
            &&& cp.label matches Some(l) ==> shows(
                snap_text(cp),
                said.push("\n  label: "@).push(l@),
            )
        }),
{
    let t_0 = Seq::<char>::empty();
    let p_0 = Seq::<Seq<char>>::empty();
    lemma_shows_nothing(t_0);
    lemma_shows_next(t_0, "checkpoint "@, p_0);
    let p_1 = p_0.push("checkpoint "@);
    assert(t_0 + "checkpoint "@ =~= "checkpoint "@);
    let t_1 = "checkpoint "@;
    lemma_shows_next(t_1, cp.id@, p_1);
    let p_2 = p_1.push(cp.id@);
    let t_2 = t_1 + cp.id@;
    lemma_shows_next(t_2, " captured\n  files: "@, p_2);
    let p_3 = p_2.push(" captured\n  files: "@);
    let t_3 = t_2 + " captured\n  files: "@;
    lemma_shows_next(t_3, decimal(cp.files_changed as nat), p_3);
    let p_4 = p_3.push(decimal(cp.files_changed as nat));
    let t_4 = t_3 + decimal(cp.files_changed as nat);
    lemma_shows_next(t_4, "  +"@, p_4);
    let p_5 = p_4.push("  +"@);
    let t_5 = t_4 + "  +"@;
    lemma_shows_next(t_5, decimal(cp.insertions as nat), p_5);
    let p_6 = p_5.push(decimal(cp.insertions as nat));
    let t_6 = t_5 + decimal(cp.insertions as nat);
    lemma_shows_next(t_6, " -"@, p_6);
    let p_7 = p_6.push(" -"@);
    let t_7 = t_6 + " -"@;
    lemma_shows_next(t_7, decimal(cp.deletions as nat), p_7);
    let p_8 = p_7.push(decimal(cp.deletions as nat));
    let t_8 = t_7 + decimal(cp.deletions as nat);
    assert(seq![
        "checkpoint "@,
        cp.id@,
        " captured\n  files: "@,
        decimal(cp.files_changed as nat),
        "  +"@,
        decimal(cp.insertions as nat),
        " -"@,
        decimal(cp.deletions as nat),
    ] =~= p_8);
    reveal_strlit("");
    match cp.label {
        Some(l) => {
            let end = "\n  label: "@ + l@;
            lemma_shows_next(t_8, "\n  label: "@, p_8);
            lemma_shows_next(t_8 + "\n  label: "@, l@, p_8.push("\n  label: "@));
            assert(t_8 + end =~= t_8 + "\n  label: "@ + l@);
            lemma_shows_still(t_8, end, p_8);
        },
        None => {
            lemma_shows_still(t_8, ""@, p_8);
        },
    }
}

/// The line on a checkpoint holds its id, its age, its counts and its label, in this order.
pub proof fn law_row_describes_checkpoint(cp: CheckpointInfo, now_secs: u64)
    ensures
        shows(
            list_row(cp, now_secs),
            seq![
                cp.id@,
                age_of(cp.created_at_ms, now_secs),
                pad_left(decimal(cp.files_changed as nat), ' ', 3),
                " files  +"@,
                pad_right(decimal(cp.insertions as nat), ' ', 5),
                " -"@,
                pad_right(decimal(cp.deletions as nat), ' ', 5),
                if cp.label is Some {
                    cp.label.unwrap()@
                } else {
                    "(auto)"@
                },
                "\n"@,
            ],
        ),
{
    let label = match cp.label {
        Some(l) => l@,
        None => "(auto)"@,
    };
    let t_0 = Seq::<char>::empty();
    let p_0 = Seq::<Seq<char>>::empty();
    lemma_shows_nothing(t_0);
    lemma_shows_next(t_0, cp.id@, p_0);
    let p_1 = p_0.push(cp.id@);
    assert(t_0 + cp.id@ =~= cp.id@);
    let t_1 = cp.id@;
    lemma_shows_still(t_1, "  "@, p_1);
    let p_2 = p_1;
    let t_2 = t_1 + "  "@;
    lemma_shows_next(t_2, age_of(cp.created_at_ms, now_secs), p_2);
    let p_3 = p_2.push(age_of(cp.created_at_ms, now_secs));
    let t_3 = t_2 + age_of(cp.created_at_ms, now_secs);
    lemma_shows_still(t_3, "  "@, p_3);
    let p_4 = p_3;
    let t_4 = t_3 + "  "@;
    lemma_shows_next(t_4, pad_left(decimal(cp.files_changed as nat), ' ', 3), p_4);
    let p_5 = p_4.push(pad_left(decimal(cp.files_changed as nat), ' ', 3));
    let t_5 = t_4 + pad_left(decimal(cp.files_changed as nat), ' ', 3);
    lemma_shows_next(t_5, " files  +"@, p_5);
    let p_6 = p_5.push(" files  +"@);
    let t_6 = t_5 + " files  +"@;
    lemma_shows_next(t_6, pad_right(decimal(cp.insertions as nat), ' ', 5), p_6);
    let p_7 = p_6.push(pad_right(decimal(cp.insertions as nat), ' ', 5));
    let t_7 = t_6 + pad_right(decimal(cp.insertions as nat), ' ', 5);
    lemma_shows_next(t_7, " -"@, p_7);
    let p_8 = p_7.push(" -"@);
    let t_8 = t_7 + " -"@;
    lemma_shows_next(t_8, pad_right(decimal(cp.deletions as nat), ' ', 5), p_8);
    let p_9 = p_8.push(pad_right(decimal(cp.deletions as nat), ' ', 5));
    let t_9 = t_8 + pad_right(decimal(cp.deletions as nat), ' ', 5);
    lemma_shows_still(t_9, "  "@, p_9);
    let p_10 = p_9;
    let t_10 = t_9 + "  "@;
    lemma_shows_next(t_10, label, p_10);
    let p_11 = p_10.push(label);
    let t_11 = t_10 + label;
    lemma_shows_next(t_11, "\n"@, p_11);
    let p_12 = p_11.push("\n"@);
    let t_12 = t_11 + "\n"@;
    assert(seq![
        cp.id@,
        age_of(cp.created_at_ms, now_secs),
        pad_left(decimal(cp.files_changed as nat), ' ', 3),
        " files  +"@,
        pad_right(decimal(cp.insertions as nat), ' ', 5),
        " -"@,
        pad_right(decimal(cp.deletions as nat), ' ', 5),
        if cp.label is Some {
            cp.label.unwrap()@
        } else {
            "(auto)"@
        },
        "\n"@,
    ] =~= p_12);
}

/// The listing has a line for each checkpoint, in their order, and nothing else: none
/// where there are none, and one more for one more.
pub proof fn law_listing_grows_by_rows(
    items: Seq<CheckpointInfo>,
    cp: CheckpointInfo,
    now_secs: u64,
)
    ensures
        list_rows(Seq::empty(), now_secs) == Seq::<char>::empty(),
        list_rows(items.push(cp), now_secs) == list_rows(items, now_secs) + list_row(cp, now_secs),
{
    assert(items.push(cp).drop_last() =~= items);
}

/// What is listed are the first checkpoints, as many as are asked for, without the white
/// space at the end.
pub proof fn law_listing_is_of_the_first(
    items: Seq<CheckpointInfo>,
    limit: usize,
    now_secs: u64,
)
    requires
        items.len() > 0,
    ensures
        limit <= items.len() ==> exists|space: Seq<char>|
            all_space(space) && list_rows(items.take(limit as int), now_secs) == #[trigger] (
            list_text(items, limit, now_secs) + space),
        limit >= items.len() ==> exists|space: Seq<char>|
            all_space(space) && list_rows(items, now_secs) == #[trigger] (list_text(
                items,
                limit,
                now_secs,
            ) + space),
        list_text(Seq::empty(), limit, now_secs) == "(no checkpoints yet)"@,
{
    let rows = list_rows(at_most(items, limit as int), now_secs);
    law_trim_end_takes_space(rows);
    let space = choose|space: Seq<char>|
        all_space(space) && rows == #[trigger] (trim_end_of(rows) + space);
    assert(rows == list_text(items, limit, now_secs) + space);
    if limit <= items.len() {
        assert(at_most(items, limit as int) =~= items.take(limit as int));
    }
    if limit >= items.len() {
        assert(at_most(items, limit as int) =~= items);
    }
}

/// `diff` shows the checkpoint that its id stands for, and otherwise the first of the
/// listing; without any checkpoint it is refused.
pub proof fn law_diff_shows_what_is_asked(items: Seq<CheckpointInfo>, prefix: Seq<char>)
    ensures
        shown_target(items, Some(prefix)) == resolved(items, prefix),
        items.len() > 0 ==> shown_target(items, None) == Ok::<Seq<char>, Seq<char>>(
            items[0].id@,
        ),
        items.len() == 0 ==> shown_target(items, None) == Err::<Seq<char>, Seq<char>>(
            "no checkpoints yet"@,
        ),
{
}

/// What is said of a changed file holds its path, what happened to it, its counts, whether
/// the patch was cut, and the patch, in this order.
pub proof fn law_file_is_described(fd: FileDiff)
    ensures
        ({
            let said = seq![
                fd.path@,
                " ── ("@,
                status_word(fd.status),
                ", +"@,
                decimal(fd.additions as nat),
                " -"@,
                decimal(fd.deletions as nat),
                ")"@,
            ];
            let cut = if fd.truncated {
                said.push(" [TRUNCATED]"@)
            } else {
                said
            };
            shows(
                file_text(fd),
                cut.push(
                    if fd.patch@.len() == 0 {
                        "(binary or rename-only)\n\n"@
                    } else {
                        fd.patch@
                    },
                ),
            )
        }),
{
    let t_0 = Seq::<char>::empty();
    let p_0 = Seq::<Seq<char>>::empty();
    lemma_shows_nothing(t_0);
    lemma_shows_still(t_0, "── "@, p_0);
    let p_1 = p_0;
    assert(t_0 + "── "@ =~= "── "@);
    let t_1 = "── "@;
    lemma_shows_next(t_1, fd.path@, p_1);
    let p_2 = p_1.push(fd.path@);
    let t_2 = t_1 + fd.path@;
    lemma_shows_next(t_2, " ── ("@, p_2);
    let p_3 = p_2.push(" ── ("@);
    let t_3 = t_2 + " ── ("@;
    lemma_shows_next(t_3, status_word(fd.status), p_3);
    let p_4 = p_3.push(status_word(fd.status));
    let t_4 = t_3 + status_word(fd.status);
    lemma_shows_next(t_4, ", +"@, p_4);
    let p_5 = p_4.push(", +"@);
    let t_5 = t_4 + ", +"@;
    lemma_shows_next(t_5, decimal(fd.additions as nat), p_5);
    let p_6 = p_5.push(decimal(fd.additions as nat));
    let t_6 = t_5 + decimal(fd.additions as nat);
    lemma_shows_next(t_6, " -"@, p_6);
    let p_7 = p_6.push(" -"@);
    let t_7 = t_6 + " -"@;
    lemma_shows_next(t_7, decimal(fd.deletions as nat), p_7);
    let p_8 = p_7.push(decimal(fd.deletions as nat));
    let t_8 = t_7 + decimal(fd.deletions as nat);
    lemma_shows_next(t_8, ")"@, p_8);
    let p_9 = p_8.push(")"@);
    let t_9 = t_8 + ")"@;
    assert(seq![
        fd.path@,
        " ── ("@,
        status_word(fd.status),
        ", +"@,
        decimal(fd.additions as nat),
        " -"@,
        decimal(fd.deletions as nat),
        ")"@,
    ] =~= p_9);
    let cut = if fd.truncated {
        " [TRUNCATED]"@
    } else {
        ""@
    };
    lemma_shows_next(t_9, cut, p_9);
    lemma_shows_still(t_9, cut, p_9);
    let t_10 = t_9 + cut;
    let p_10 = if fd.truncated {
        p_9.push(cut)
    } else {
        p_9
    };
    lemma_shows_still(t_10, "\n"@, p_10);
    let t_11 = t_10 + "\n"@;
    if fd.patch@.len() == 0 {
        lemma_shows_next(t_11, "(binary or rename-only)\n\n"@, p_10);
    } else {
        let end = if fd.patch@.last() == '\n' {
            ""@
        } else {
            "\n"@
        };
        lemma_shows_next(t_11, fd.patch@, p_10);
        let p_12 = p_10.push(fd.patch@);
        lemma_shows_still(t_11 + fd.patch@, end, p_12);
        lemma_shows_still(t_11 + fd.patch@ + end, "\n"@, p_12);
        assert(t_11 + (fd.patch@ + end + "\n"@) =~= t_11 + fd.patch@ + end + "\n"@);
    }
}

/// Every changed file is described, in order: nothing where there is none, and one more
/// description for one more.
pub proof fn law_every_file_is_described(ds: Seq<FileDiff>, fd: FileDiff)
    ensures
        files_text(Seq::empty()) == Seq::<char>::empty(),
        files_text(ds.push(fd)) == files_text(ds) + file_text(fd),
{
    assert(ds.push(fd).drop_last() =~= ds);
}

/// What is said of a checkpoint names it, counts its changed files, and describes each of
/// them, without the white space at the end.
pub proof fn law_changes_are_described(target: Seq<char>, ds: Seq<FileDiff>)
    ensures
        ds.len() == 0 ==> diff_text(target, ds) == "checkpoint "@ + target + " has no changes"@,
        ds.len() > 0 ==> exists|space: Seq<char>|
            all_space(space) && #[trigger] (diff_text(target, ds) + space) == "checkpoint "@
                + target + " ("@ + decimal(ds.len()) + " files)\n\n"@ + files_text(ds),
{
    if ds.len() > 0 {
        let whole = "checkpoint "@ + target + " ("@ + decimal(ds.len()) + " files)\n\n"@
            + files_text(ds);
        law_trim_end_takes_space(whole);
        let space = choose|space: Seq<char>|
            all_space(space) && whole == #[trigger] (trim_end_of(whole) + space);
        assert(diff_text(target, ds) + space == whole);
    }
}

/// What is said of a restore holds how many files were restored, how many were removed,
/// and the first bytes of the id of the stash, where there is one.
pub proof fn law_restore_is_described(report: RestoreReport)
    ensures
        ({
            let said = seq![
                "restored "@,
                decimal(report.restored_files@.len()),
                " files, removed "@,
                decimal(report.removed_files@.len()),
                " files"@,
            ];
            &&& shows(restore_text(report), said)
            &&& report.stash_commit matches Some(s) ==> shows(
                restore_text(report),
                said.push("\npre-restore working tree captured at stash commit "@).push(
                    leading_text(s@, 8),
                ),
            )
        }),
{
    let t_0 = Seq::<char>::empty();
    let p_0 = Seq::<Seq<char>>::empty();
    lemma_shows_nothing(t_0);
    lemma_shows_next(t_0, "restored "@, p_0);
    let p_1 = p_0.push("restored "@);
    assert(t_0 + "restored "@ =~= "restored "@);
    let t_1 = "restored "@;
    lemma_shows_next(t_1, decimal(report.restored_files@.len()), p_1);
    let p_2 = p_1.push(decimal(report.restored_files@.len()));
    let t_2 = t_1 + decimal(report.restored_files@.len());
    lemma_shows_next(t_2, " files, removed "@, p_2);
    let p_3 = p_2.push(" files, removed "@);
    let t_3 = t_2 + " files, removed "@;
    lemma_shows_next(t_3, decimal(report.removed_files@.len()), p_3);
    let p_4 = p_3.push(decimal(report.removed_files@.len()));
    let t_4 = t_3 + decimal(report.removed_files@.len());
    lemma_shows_next(t_4, " files"@, p_4);
    let p_5 = p_4.push(" files"@);
    let t_5 = t_4 + " files"@;
    assert(seq![
        "restored "@,
        decimal(report.restored_files@.len()),
        " files, removed "@,
        decimal(report.removed_files@.len()),
        " files"@,
    ] =~= p_5);
    match report.stash_commit {
        Some(s) => {
            let lit = "\npre-restore working tree captured at stash commit "@;
            let id = leading_text(s@, 8);
            lemma_shows_next(t_5, lit, p_5);
            lemma_shows_next(t_5 + lit, id, p_5.push(lit));
            lemma_shows_still(t_5, lit + id, p_5);
            assert(t_5 + (lit + id) =~= t_5 + lit + id);
        },
        None => {
            lemma_shows_still(t_5, ""@, p_5);
        },
    }
}

/// What is said of a review holds its label, where it has one, and its address.
pub proof fn law_review_is_described(label: Option<Seq<char>>, port: u16)
    ensures
        label is None ==> shows(
            review_text(label, port),
            seq!["review UI is open at "@, url_of(port)],
        ),
        label matches Some(l) ==> shows(
            review_text(label, port),
            seq!["review UI for `"@, l, "` is open at "@, url_of(port)],
        ),
{
    let e = Seq::<char>::empty();
    let none = Seq::<Seq<char>>::empty();
    lemma_shows_nothing(e);
    match label {
        Some(l) => {
            let t1 = "review UI for `"@;
            let p1 = none.push(t1);
            lemma_shows_next(e, t1, none);
            assert(e + t1 =~= t1);
            lemma_shows_next(t1, l, p1);
            lemma_shows_next(t1 + l, "` is open at "@, p1.push(l));
            lemma_shows_next(
                t1 + l + "` is open at "@,
                url_of(port),
                p1.push(l).push("` is open at "@),
            );
            assert(seq!["review UI for `"@, l, "` is open at "@, url_of(port)] =~= p1.push(l).push(
                "` is open at "@,
            ).push(url_of(port)));
        },
        None => {
            let t1 = "review UI is open at "@;
            lemma_shows_next(e, t1, none);
            assert(e + t1 =~= t1);
            lemma_shows_next(t1, url_of(port), none.push(t1));
            assert(seq![t1, url_of(port)] =~= none.push(t1).push(url_of(port)));
        },
    }
}

/// An error is answered with its code and its message.
pub proof fn law_error_is_told(id: JsonView, code: i32, message: Seq<char>)
    ensures
        field(response_of(id, Err((code, message))), "error"@) matches Some(JsonView::Object(e))
            && e.dom() == set!["code"@, "message"@] && e["code"@] == JsonView::Number(
            number_of_int(code as i64),
        ) && e["message"@] == JsonView::Str(message),
{
    reveal_strlit("jsonrpc");
    reveal_strlit("id");
    reveal_strlit("error");
    assert("jsonrpc"@.len() == 7 && "id"@.len() == 2 && "error"@.len() == 5);
    reveal_strlit("code");
    reveal_strlit("message");
    assert("code"@.len() == 4 && "message"@.len() == 7);
    let told = object2(
        "code"@,
        JsonView::Number(number_of_int(code as i64)),
        "message"@,
        JsonView::Str(message),
    );
    assert(told->Object_0.dom() =~= set!["code"@, "message"@]);
}

/// A blank line and a notification are not answered; a line that is no JSON is named with
/// what the parser says.
pub proof fn law_lines_that_come_in(line: Seq<char>, agent: Seq<char>)
    ensures
        all_space(line) ==> line_request(line, agent) is Ignored,
        !all_space(line) ==> (parsed_text(line) matches Err(e) ==> line_request(line, agent)
            == RequestView::Malformed("[gloss mcp] bad json: "@ + e)),
        !all_space(line) ==> (parsed_text(line) matches Ok(v) ==> line_request(line, agent)
            == request_of(v, agent)),
{
    if all_space(line) {
        law_trim(line, Seq::empty(), Seq::empty());
        assert(line + Seq::<char>::empty() + Seq::<char>::empty() =~= line);
    } else {
        law_trim_leaves_text(line);
    }
}

/// A call, an action and a request are what they hold.
pub proof fn law_calls_are_what_they_hold(
    label: Option<String>,
    limit: usize,
    target: String,
    call: ToolCall,
    reply: Result<Json, (i32, String)>,
    action: Action,
    id: Json,
)
    ensures
        (ToolCall::Snap { label })@ == (ToolView::Snap { label: opt_text(label) }),
        (ToolCall::List { limit })@ == (ToolView::List { limit }),
        (ToolCall::Diff { id: label })@ == (ToolView::Diff { id: opt_text(label) }),
        (ToolCall::Restore { target })@ == (ToolView::Restore { target: target@ }),
        (ToolCall::StartReview { label })@ == (ToolView::StartReview { label: opt_text(label) }),
        Action::Tool(call)@ == ActionView::Tool(call@),
        reply matches Ok(v) ==> Action::Reply(reply)@ == ActionView::Reply(Ok(v@)),
        reply matches Err(e) ==> Action::Reply(reply)@ == ActionView::Reply(Err((e.0, e.1@))),
        Request::Ignored@ is Ignored,
        Request::Malformed(target)@ == RequestView::Malformed(target@),
        (Request::Call { id, action })@ == (RequestView::Call { id: id@, action: action@ }),
{
}

/// How the server presents itself: by name and version, with tools and nothing else.
pub proof fn law_server_presents_itself()
    ensures
        field(server_card(), "serverInfo"@) matches Some(JsonView::Object(info)) && info.dom()
            == set!["name"@, "version"@] && info["name"@] == JsonView::Str("gloss"@)
            && info["version"@] == JsonView::Str("0.1.0"@),
        field(server_card(), "capabilities"@) matches Some(JsonView::Object(c)) && c.dom() == set![
            "tools"@,
        ] && c["tools"@] == JsonView::Object(Map::empty()),
{
    reveal_strlit("protocolVersion");
    reveal_strlit("capabilities");
    reveal_strlit("serverInfo");
    assert("protocolVersion"@.len() == 15 && "capabilities"@.len() == 12 && "serverInfo"@.len()
        == 10);
    reveal_strlit("name");
    reveal_strlit("version");
    assert("name"@.len() == 4 && "version"@.len() == 7);
    let info = field(server_card(), "serverInfo"@).unwrap()->Object_0;
    assert(info.dom() =~= set!["name"@, "version"@]);
    let c = field(server_card(), "capabilities"@).unwrap()->Object_0;
    assert(c.dom() =~= set!["tools"@]);
}

/// The reviews that run are those that were started, each on its port: a later one under a
/// label stands in the place of an earlier one.
pub proof fn law_reviews_that_run(entries: Seq<(Option<String>, u16)>, e: (Option<String>, u16))
    ensures
        ports_of(Seq::empty()) == Map::<Option<Seq<char>>, u16>::empty(),
        ports_of(entries.push(e)) == ports_of(entries).insert(opt_text(e.0), e.1),
{
    assert(entries.push(e).drop_last() =~= entries);
}

/// The parameter of an announced tool is announced with its type.
pub open spec fn takes_a(tool: JsonView, name: Seq<char>, kind: Seq<char>) -> bool {
    &&& properties_of(tool).contains_key(name)
    &&& field(properties_of(tool)[name], "type"@) == Some(JsonView::Str(kind))
}

/// What is announced of the tools besides their names: what each of them is for, and the
/// types of their parameters. The number of checkpoints to list goes from 1 to 200, and is
/// 20 where it is left out. No tool but `restore` has a parameter that it cannot do without.
pub proof fn law_announced_parameters(agent: Seq<char>)
    ensures
        ({
            let m = manifest(agent);
            let abouts = seq![
                SNAP_ABOUT@,
                LIST_ABOUT@,
                DIFF_ABOUT@,
                RESTORE_ABOUT@,
                REVIEW_ABOUT@ + agent + REVIEW_ABOUT_END@,
            ];
            let limit = properties_of(m[1])["limit"@];
            &&& forall|i: int|
                0 <= i < 5 ==> field(#[trigger] m[i], "description"@) == Some(
                    JsonView::Str(abouts[i]),
                )
            &&& takes_a(m[0], "label"@, "string"@)
            &&& takes_a(m[1], "limit"@, "integer"@)
            &&& takes_a(m[2], "id"@, "string"@)
            &&& takes_a(m[3], "id"@, "string"@)
            &&& takes_a(m[3], "confirm"@, "boolean"@)
            &&& takes_a(m[4], "label"@, "string"@)
            &&& field(limit, "minimum"@) == Some(JsonView::Number(number_of_int(1)))
            &&& field(limit, "maximum"@) == Some(JsonView::Number(number_of_int(200)))
            &&& field(limit, "default"@) == Some(JsonView::Number(number_of_int(20)))
            &&& forall|i: int|
                0 <= i < 5 && i != 3 ==> field(
                    (#[trigger] m[i])->Object_0["inputSchema"@],
                    "required"@,
                ) is None
        }),
{
    reveal_strlit("name");
    reveal_strlit("description");
    reveal_strlit("inputSchema");
    assert("name"@.len() == 4 && "description"@.len() == 11 && "inputSchema"@.len() == 11);
    assert("description"@[0] == 'd' && "inputSchema"@[0] == 'i');
    reveal_strlit("type");
    reveal_strlit("properties");
    reveal_strlit("required");
    assert("type"@.len() == 4 && "properties"@.len() == 10 && "required"@.len() == 8);
    reveal_strlit("id");
    reveal_strlit("confirm");
    assert("id"@.len() == 2 && "confirm"@.len() == 7);
    reveal_strlit("minimum");
    reveal_strlit("maximum");
    reveal_strlit("default");
    assert("minimum"@.len() == 7 && "maximum"@.len() == 7 && "default"@.len() == 7);
    assert("minimum"@[1] == 'i' && "maximum"@[1] == 'a' && "default"@[1] == 'e');
}

/// A reply and a response hold what they are said to hold, and nothing else.
pub proof fn law_nothing_else_is_answered(text: Seq<char>, id: JsonView, reply: ReplyView)
    ensures
        (text_reply(text)->Object_0).dom() == set!["content"@],
        ((text_reply(text)->Object_0)["content"@]->Array_0[0]->Object_0).dom() == set![
            "type"@,
            "text"@,
        ],
        reply is Ok ==> (response_of(id, reply)->Object_0).dom() == set![
            "jsonrpc"@,
            "id"@,
            "result"@,
        ],
        reply is Err ==> (response_of(id, reply)->Object_0).dom() == set![
            "jsonrpc"@,
            "id"@,
            "error"@,
        ],
{
    assert((text_reply(text)->Object_0).dom() =~= set!["content"@]);
    assert(((text_reply(text)->Object_0)["content"@]->Array_0[0]->Object_0).dom() =~= set![
        "type"@,
        "text"@,
    ]);
    if reply is Ok {
        assert((response_of(id, reply)->Object_0).dom() =~= set!["jsonrpc"@, "id"@, "result"@]);
    } else {
        assert((response_of(id, reply)->Object_0).dom() =~= set!["jsonrpc"@, "id"@, "error"@]);
    }
}

} // verus!
