//! The Model Context Protocol server's decisions (JSON-RPC 2.0 over
//! newline-delimited JSON): what each message is answered with, and which
//! calls need the runtime, with what they were asked for.
//!
//! A message without an `id` is a notification and is never answered.
//! Unrestricted execution is offered and accepted only where the server
//! was started with it enabled.

use vstd::prelude::*;
use crate::redact::{Json, JsonModel, model};
use crate::modes::ExecMode;
use crate::text::{chars_of, string_of, push_str, push_chars, chars_eq, int_dec, int_chars, parse_u64,
    parse_u64_spec};

verus! {

/// The name the server gives itself.
pub const SERVER_NAME: &'static str = "assay";

/// The protocol version answered where the client names none.
pub const DEFAULT_PROTOCOL_VERSION: &'static str = "2024-11-05";

/// How many modules `assay_context` returns where no limit is given.
pub const DEFAULT_CONTEXT_LIMIT: usize = 5;

/// How long a script may run, in seconds, where no timeout is given.
pub const DEFAULT_TOOL_TIMEOUT_SECS: u64 = 20;

/// JSON-RPC: the line is not JSON.
pub const PARSE_ERROR: i64 = -32700;

/// JSON-RPC: the message is not a request.
pub const INVALID_REQUEST: i64 = -32600;

/// JSON-RPC: no such method.
pub const METHOD_NOT_FOUND: i64 = -32601;

/// JSON-RPC: the parameters do not do.
pub const INVALID_PARAMS: i64 = -32602;

/// The fields of an object as plain values.
pub open spec fn fields_model(fs: Seq<(String, Json)>) -> Seq<(Seq<char>, JsonModel)> {
    Seq::new(fs.len(), |i: int| (fs[i].0@, model(fs[i].1)))
}

/// The items of an array as plain values.
pub open spec fn items_model(xs: Seq<Json>) -> Seq<JsonModel> {
    Seq::new(xs.len(), |i: int| model(xs[i]))
}

proof fn lemma_model_object(fs: Vec<(String, Json)>)
    ensures
        model(Json::Object(fs)) == JsonModel::Object(fields_model(fs@)),
{
    if let JsonModel::Object(m) = model(Json::Object(fs)) {
        assert(m =~= fields_model(fs@));
    }
}

proof fn lemma_model_array(xs: Vec<Json>)
    ensures
        model(Json::Array(xs)) == JsonModel::Array(items_model(xs@)),
{
    if let JsonModel::Array(m) = model(Json::Array(xs)) {
        assert(m =~= items_model(xs@));
    }
}

fn jstr(s: &str) -> (r: Json)
    ensures
        model(r) == JsonModel::Str(s@),
{
    Json::Str(string_of(&chars_of(s)))
}

fn jobj(fs: Vec<(String, Json)>) -> (r: Json)
    ensures
        model(r) == JsonModel::Object(fields_model(fs@)),
{
    proof {
        lemma_model_object(fs);
    }
    Json::Object(fs)
}

fn jarr(xs: Vec<Json>) -> (r: Json)
    ensures
        model(r) == JsonModel::Array(items_model(xs@)),
{
    proof {
        lemma_model_array(xs);
    }
    Json::Array(xs)
}

fn put(fs: &mut Vec<(String, Json)>, k: &str, v: Json)
    ensures
        fields_model(final(fs)@) == fields_model(old(fs)@).push((k@, model(v))),
{
    let ghost before = fs@;
    let ghost mv = model(v);
    fs.push((string_of(&chars_of(k)), v));
    assert(fields_model(fs@) =~= fields_model(before).push((k@, mv)));
}

fn put_item(xs: &mut Vec<Json>, v: Json)
    ensures
        items_model(final(xs)@) == items_model(old(xs)@).push(model(v)),
{
    let ghost before = xs@;
    let ghost mv = model(v);
    xs.push(v);
    assert(items_model(xs@) =~= items_model(before).push(mv));
}

fn no_fields() -> (r: Vec<(String, Json)>)
    ensures
        fields_model(r@) == Seq::<(Seq<char>, JsonModel)>::empty(),
{
    let r: Vec<(String, Json)> = Vec::new();
    assert(fields_model(r@) =~= Seq::<(Seq<char>, JsonModel)>::empty());
    r
}

fn no_items() -> (r: Vec<Json>)
    ensures
        items_model(r@) == Seq::<JsonModel>::empty(),
{
    let r: Vec<Json> = Vec::new();
    assert(items_model(r@) =~= Seq::<JsonModel>::empty());
    r
}

/// A copy of a document.
pub fn json_copy(j: &Json) -> (r: Json)
    ensures
        model(r) == model(*j),
    decreases j,
{
    let ghost jj = *j;
    match j {
        Json::Null => Json::Null,
        Json::Bool(b) => Json::Bool(*b),
        Json::Number(n) => Json::Number(string_of(&chars_of(n.as_str()))),
        Json::Str(s) => Json::Str(string_of(&chars_of(s.as_str()))),
        Json::Array(items) => {
            let mut out = no_items();
            let mut i: usize = 0;
            while i < items.len()
                invariant
                    i <= items@.len(),
                    items_model(out@) == items_model(items@.take(i as int)),
                    *j == Json::Array(*items),
                    jj == *j,
                decreases items@.len() - i,
            {
                proof {
                    assert(jj->Array_0 == *items);
                    assert(decreases_to!(jj => jj->Array_0));
                    assert(decreases_to!(*items => items@));
                    assert(decreases_to!(items@ => items@[i as int]));
                    assert(decreases_to!(jj => items@[i as int]));
                }
                let c = json_copy(&items[i]);
                put_item(&mut out, c);
                i += 1;
                assert(items_model(items@.take(i as int)) =~= items_model(items@.take(i - 1)).push(
                    model(items@[i - 1]),
                ));
            }
            assert(items@.take(i as int) =~= items@);
            proof {
                lemma_model_array(*items);
            }
            jarr(out)
        },
        Json::Object(fields) => {
            let mut out = no_fields();
            let mut i: usize = 0;
            while i < fields.len()
                invariant
                    i <= fields@.len(),
                    fields_model(out@) == fields_model(fields@.take(i as int)),
                    *j == Json::Object(*fields),
                    jj == *j,
                decreases fields@.len() - i,
            {
                proof {
                    assert(jj->Object_0 == *fields);
                    assert(decreases_to!(jj => jj->Object_0));
                    assert(decreases_to!(*fields => fields@));
                    assert(decreases_to!(fields@ => fields@[i as int]));
                    assert(decreases_to!(fields@[i as int] => fields@[i as int].1));
                    assert(decreases_to!(jj => fields@[i as int].1));
                }
                let c = json_copy(&fields[i].1);
                put(&mut out, fields[i].0.as_str(), c);
                i += 1;
                assert(fields_model(fields@.take(i as int)) =~= fields_model(fields@.take(i - 1)).push(
                    (fields@[i - 1].0@, model(fields@[i - 1].1)),
                ));
            }
            assert(fields@.take(i as int) =~= fields@);
            proof {
                lemma_model_object(*fields);
            }
            jobj(out)
        },
    }
}

/// The `mode` a run request carries.
pub enum ModeValue {
    /// No `mode`, or `null`.
    Absent,
    /// A string.
    Text(String),
    /// Any other JSON value.
    Other,
}

/// The `mode` of a run request as plain values.
pub enum ModeValueModel {
    Absent,
    Text(Seq<char>),
    Other,
}

impl View for ModeValue {
    type V = ModeValueModel;

    open spec fn view(&self) -> ModeValueModel {
        match self {
            ModeValue::Absent => ModeValueModel::Absent,
            ModeValue::Text(s) => ModeValueModel::Text(s@),
            ModeValue::Other => ModeValueModel::Other,
        }
    }
}

/// The modes a server accepts, as its refusals list them.
pub open spec fn accepted_modes(unrestricted_allowed: bool) -> Seq<char> {
    if unrestricted_allowed {
        "\"readonly\", \"approval\", or \"unrestricted\""@
    } else {
        "\"readonly\" or \"approval\""@
    }
}

/// The refusal of `unrestricted` on a server that does not allow it.
pub open spec fn msg_unrestricted_off() -> Seq<char> {
    "mode \"unrestricted\" is not enabled on this server (start it with ASSAY_MCP_UNRESTRICTED=1 to allow it)"@
}

/// The mode of a run request: read-only when absent; `readonly`,
/// `approval`, or `unrestricted` where the server allows it; else refused.
pub open spec fn mode_spec(value: ModeValueModel, unrestricted_allowed: bool) -> Result<ExecMode, Seq<char>> {
    match value {
        ModeValueModel::Absent => Ok(ExecMode::ReadOnly),
        ModeValueModel::Text(m) => if m == "readonly"@ {
            Ok(ExecMode::ReadOnly)
        } else if m == "approval"@ {
            Ok(ExecMode::Approval)
        } else if m == "unrestricted"@ {
            if unrestricted_allowed {
                Ok(ExecMode::Unrestricted)
            } else {
                Err(msg_unrestricted_off())
            }
        } else {
            Err(
                "mode must be "@ + accepted_modes(unrestricted_allowed) + "; \""@ + m
                    + "\" is not accepted"@,
            )
        },
        ModeValueModel::Other => Err("mode must be a string: "@ + accepted_modes(unrestricted_allowed)),
    }
}

fn accepted_text(unrestricted_allowed: bool) -> (r: Vec<char>)
    ensures
        r@ == accepted_modes(unrestricted_allowed),
{
    if unrestricted_allowed {
        chars_of("\"readonly\", \"approval\", or \"unrestricted\"")
    } else {
        chars_of("\"readonly\" or \"approval\"")
    }
}

/// Resolves the mode a run request asked for. `unrestricted_allowed` is
/// whether the server was started allowing unrestricted runs.
pub fn resolve_mode(value: &ModeValue, unrestricted_allowed: bool) -> (r: Result<ExecMode, String>)
    ensures
        match (r, mode_spec(value@, unrestricted_allowed)) {
            (Ok(a), Ok(b)) => a == b,
            (Err(a), Err(b)) => a@ == b,
            _ => false,
        },
{
    match value {
        ModeValue::Absent => Ok(ExecMode::ReadOnly),
        ModeValue::Text(m) => {
            let c = chars_of(m.as_str());
            if chars_eq(&c, &chars_of("readonly")) {
                Ok(ExecMode::ReadOnly)
            } else if chars_eq(&c, &chars_of("approval")) {
                Ok(ExecMode::Approval)
            } else if chars_eq(&c, &chars_of("unrestricted")) {
                if unrestricted_allowed {
                    Ok(ExecMode::Unrestricted)
                } else {
                    let e = chars_of(
                        "mode \"unrestricted\" is not enabled on this server (start it with ASSAY_MCP_UNRESTRICTED=1 to allow it)",
                    );
                    Err(string_of(&e))
                }
            } else {
                let mut e = chars_of("mode must be ");
                let a = accepted_text(unrestricted_allowed);
                push_chars(&mut e, &a);
                push_str(&mut e, "; \"");
                push_chars(&mut e, &c);
                push_str(&mut e, "\" is not accepted");
                Err(string_of(&e))
            }
        },
        ModeValue::Other => {
            let mut e = chars_of("mode must be a string: ");
            let a = accepted_text(unrestricted_allowed);
            push_chars(&mut e, &a);
            Err(string_of(&e))
        },
    }
}

} // verus!

verus! {

/// The member of an object under `key` (the first, where a key repeats),
/// from position `i` on.
pub open spec fn member_from(fs: Seq<(Seq<char>, JsonModel)>, key: Seq<char>, i: int) -> Option<JsonModel>
    decreases fs.len() - i,
{
    if i < 0 || i >= fs.len() {
        None
    } else if fs[i].0 == key {
        Some(fs[i].1)
    } else {
        member_from(fs, key, i + 1)
    }
}

/// The member of a document under `key`: `None` where it is not an object
/// or has no such member.
pub open spec fn member(m: JsonModel, key: Seq<char>) -> Option<JsonModel> {
    match m {
        JsonModel::Object(fs) => member_from(fs, key, 0),
        _ => None,
    }
}

/// The text of a value that is a string.
pub open spec fn as_text(m: Option<JsonModel>) -> Option<Seq<char>> {
    match m {
        Some(JsonModel::Str(s)) => Some(s),
        _ => None,
    }
}

/// The value of a number written as a whole number that fits a `u64`,
/// as `as_u64` reads it.
pub open spec fn as_u64_value(m: Option<JsonModel>) -> Option<u64> {
    match m {
        Some(JsonModel::Number(t)) => if t.len() > 0 && t[0] != '+' {
            parse_u64_spec(t)
        } else {
            None
        },
        _ => None,
    }
}

/// The strings among the items of an array, in order.
pub open spec fn string_items(xs: Seq<JsonModel>) -> Seq<Seq<char>>
    decreases xs.len(),
{
    if xs.len() == 0 {
        Seq::empty()
    } else {
        let rest = string_items(xs.drop_last());
        match xs.last() {
            JsonModel::Str(s) => rest.push(s),
            _ => rest,
        }
    }
}

/// The strings of a value that is an array; none otherwise.
pub open spec fn string_array(m: Option<JsonModel>) -> Seq<Seq<char>> {
    match m {
        Some(JsonModel::Array(xs)) => string_items(xs),
        _ => Seq::empty(),
    }
}

/// How a `mode` member is read: absent or `null`, a string, anything else.
pub open spec fn mode_value(m: Option<JsonModel>) -> ModeValueModel {
    match m {
        None => ModeValueModel::Absent,
        Some(JsonModel::Null) => ModeValueModel::Absent,
        Some(JsonModel::Str(s)) => ModeValueModel::Text(s),
        Some(_) => ModeValueModel::Other,
    }
}

/// An empty object.
pub open spec fn empty_object() -> JsonModel {
    JsonModel::Object(Seq::empty())
}

/// A JSON-RPC success: `{"jsonrpc": "2.0", "id": id, "result": result}`.
pub open spec fn success_spec(id: JsonModel, result: JsonModel) -> JsonModel {
    JsonModel::Object(
        Seq::empty().push(("jsonrpc"@, JsonModel::Str("2.0"@))).push(("id"@, id)).push(("result"@, result)),
    )
}

/// A JSON-RPC error: `{"jsonrpc": "2.0", "id": id, "error": {"code":
/// code, "message": message}}`.
pub open spec fn error_spec(id: JsonModel, code: int, message: Seq<char>) -> JsonModel {
    JsonModel::Object(
        Seq::empty().push(("jsonrpc"@, JsonModel::Str("2.0"@))).push(("id"@, id)).push(
            (
                "error"@,
                JsonModel::Object(
                    Seq::empty().push(("code"@, JsonModel::Number(int_dec(code)))).push(
                        ("message"@, JsonModel::Str(message)),
                    ),
                ),
            ),
        ),
    )
}

/// A tool's text answer: `{"content": [{"type": "text", "text": text}],
/// "isError": is_error}`.
pub open spec fn tool_text_spec(text: Seq<char>, is_error: bool) -> JsonModel {
    JsonModel::Object(
        Seq::empty().push(
            (
                "content"@,
                JsonModel::Array(
                    Seq::empty().push(
                        JsonModel::Object(
                            Seq::empty().push(("type"@, JsonModel::Str("text"@))).push(
                                ("text"@, JsonModel::Str(text)),
                            ),
                        ),
                    ),
                ),
            ),
        ).push(("isError"@, JsonModel::Bool(is_error))),
    )
}

/// The protocol version answered: the client's, where it names a
/// non-empty one.
pub open spec fn protocol_version(params: JsonModel) -> Seq<char> {
    match as_text(member(params, "protocolVersion"@)) {
        Some(v) => if v.len() > 0 {
            v
        } else {
            DEFAULT_PROTOCOL_VERSION@
        },
        None => DEFAULT_PROTOCOL_VERSION@,
    }
}

/// What `initialize` is answered with.
pub open spec fn initialize_spec(params: JsonModel, version: Seq<char>) -> JsonModel {
    JsonModel::Object(
        Seq::empty().push(("protocolVersion"@, JsonModel::Str(protocol_version(params)))).push(
            (
                "capabilities"@,
                JsonModel::Object(Seq::empty().push(("tools"@, empty_object()))),
            ),
        ).push(
            (
                "serverInfo"@,
                JsonModel::Object(
                    Seq::empty().push(("name"@, JsonModel::Str(SERVER_NAME@))).push(
                        ("version"@, JsonModel::Str(version)),
                    ),
                ),
            ),
        ),
    )
}

/// The modes `assay_run` offers: `unrestricted` only where allowed.
pub open spec fn offered_modes(allowed: bool) -> Seq<JsonModel> {
    if allowed {
        Seq::empty().push(JsonModel::Str("readonly"@)).push(JsonModel::Str("approval"@)).push(
            JsonModel::Str("unrestricted"@),
        )
    } else {
        Seq::empty().push(JsonModel::Str("readonly"@)).push(JsonModel::Str("approval"@))
    }
}

/// What `assay_run` says of itself.
pub open spec fn run_description(allowed: bool) -> Seq<char> {
    if allowed {
        RUN_DESCRIPTION_OPEN@
    } else {
        RUN_DESCRIPTION_GATED@
    }
}

/// What `assay_run` says of its `mode`.
pub open spec fn mode_description(allowed: bool) -> Seq<char> {
    if allowed {
        MODE_DESCRIPTION_OPEN@
    } else {
        MODE_DESCRIPTION_GATED@
    }
}

/// A property of a given type, with its description.
pub open spec fn typed_prop(ty: Seq<char>, desc: Seq<char>) -> JsonModel {
    JsonModel::Object(
        Seq::empty().push(("type"@, JsonModel::Str(ty))).push(("description"@, JsonModel::Str(desc))),
    )
}

/// The `assay_run` tool.
pub open spec fn run_tool_spec(allowed: bool) -> JsonModel {
    let mode = JsonModel::Object(
        Seq::empty().push(("type"@, JsonModel::Str("string"@))).push(
            ("enum"@, JsonModel::Array(offered_modes(allowed))),
        ).push(("default"@, JsonModel::Str("readonly"@))).push(
            ("description"@, JsonModel::Str(mode_description(allowed))),
        ),
    );
    let args = JsonModel::Object(
        Seq::empty().push(("type"@, JsonModel::Str("array"@))).push(
            ("items"@, JsonModel::Object(Seq::empty().push(("type"@, JsonModel::Str("string"@))))),
        ).push(("description"@, JsonModel::Str(ARGS_DESCRIPTION@))),
    );
    let props = JsonModel::Object(
        Seq::empty().push(("script"@, typed_prop("string"@, SCRIPT_DESCRIPTION@))).push(
            ("mode"@, mode),
        ).push(("timeout_secs"@, typed_prop("number"@, TIMEOUT_DESCRIPTION@))).push(("args"@, args)),
    );
    let schema = JsonModel::Object(
        Seq::empty().push(("type"@, JsonModel::Str("object"@))).push(("properties"@, props)).push(
            (
                "required"@,
                JsonModel::Array(
                    Seq::empty().push(JsonModel::Str("script"@)).push(JsonModel::Str("mode"@)),
                ),
            ),
        ),
    );
    JsonModel::Object(
        Seq::empty().push(("name"@, JsonModel::Str("assay_run"@))).push(
            ("description"@, JsonModel::Str(run_description(allowed))),
        ).push(("inputSchema"@, schema)),
    )
}

/// The `assay_context` tool.
pub open spec fn context_tool_spec() -> JsonModel {
    let props = JsonModel::Object(
        Seq::empty().push(("query"@, typed_prop("string"@, QUERY_DESCRIPTION@))).push(
            ("limit"@, typed_prop("number"@, LIMIT_DESCRIPTION@)),
        ),
    );
    let schema = JsonModel::Object(
        Seq::empty().push(("type"@, JsonModel::Str("object"@))).push(("properties"@, props)).push(
            ("required"@, JsonModel::Array(Seq::empty().push(JsonModel::Str("query"@)))),
        ),
    );
    JsonModel::Object(
        Seq::empty().push(("name"@, JsonModel::Str("assay_context"@))).push(
            ("description"@, JsonModel::Str(CONTEXT_DESCRIPTION@)),
        ).push(("inputSchema"@, schema)),
    )
}

/// What `tools/list` is answered with.
pub open spec fn tools_list_spec(allowed: bool) -> JsonModel {
    JsonModel::Object(
        Seq::empty().push(
            ("tools"@, JsonModel::Array(Seq::empty().push(run_tool_spec(allowed)).push(context_tool_spec()))),
        ),
    )
}

/// What `assay_run` says of itself where unrestricted runs are allowed.
pub const RUN_DESCRIPTION_OPEN: &'static str = "Run a Lua script through the assay runtime and return the tool-mode JSON envelope (status ok | needs_approval | error). Every embedded assay module is available via require(\"assay.<module>\") alongside the builtins (http, json, fs, crypto, ...). Execution is gated by mode: 'readonly' blocks mutating builtins, 'approval' suspends each mutating operation and returns a resume token, 'unrestricted' runs everything ungated. This server was started with unrestricted execution enabled; the caller is responsible for deciding who may request it.";

/// What `assay_run` says of itself where they are not.
pub const RUN_DESCRIPTION_GATED: &'static str = "Run a Lua script through the assay runtime and return the tool-mode JSON envelope (status ok | needs_approval | error). Every embedded assay module is available via require(\"assay.<module>\") alongside the builtins (http, json, fs, crypto, ...). Execution is always gated: 'readonly' blocks mutating builtins, 'approval' suspends each mutating operation and returns a resume token. Unrestricted execution is not exposed by this server.";

/// What `mode` says of itself where unrestricted runs are allowed.
pub const MODE_DESCRIPTION_OPEN: &'static str = "Execution gate. 'readonly' (default) blocks mutating builtins; 'approval' suspends each mutating operation for per-operation approval; 'unrestricted' runs everything with no gate.";

/// What `mode` says of itself where they are not.
pub const MODE_DESCRIPTION_GATED: &'static str = "Execution gate. 'readonly' (default) blocks mutating builtins; 'approval' suspends each mutating operation for per-operation approval. 'unrestricted' is not accepted.";

/// What `script` says of itself.
pub const SCRIPT_DESCRIPTION: &'static str = "Lua source to execute. Return a table or value to surface it as the tool output.";

/// What `timeout_secs` says of itself.
pub const TIMEOUT_DESCRIPTION: &'static str = "Maximum execution time in seconds (default 20).";

/// What `args` says of itself.
pub const ARGS_DESCRIPTION: &'static str = "Positional arguments exposed to the script as the 1-indexed `arg` global.";

/// What `assay_context` says of itself.
pub const CONTEXT_DESCRIPTION: &'static str = "Search assay's embedded modules and return prompt-ready Markdown docs (method signatures, env vars, builtins) for the matches. Call this before writing an assay_run script to discover the correct module APIs.";

/// What `query` says of itself.
pub const QUERY_DESCRIPTION: &'static str = "Module search query, e.g. 'grafana', 'kubernetes', 'oauth'.";

/// What `limit` says of itself.
pub const LIMIT_DESCRIPTION: &'static str = "Maximum number of modules to return (default 5).";

} // verus!

verus! {

/// What a message comes to, as plain values.
pub enum StepModel {
    /// A notification: nothing is sent back.
    Silent,
    /// This reply is sent back.
    Reply(JsonModel),
    /// A script is to be run; its outcome is the reply.
    Run { id: JsonModel, script: Seq<char>, mode: ExecMode, timeout_secs: u64, args: Seq<Seq<char>> },
    /// The module docs are to be searched; what is found is the reply.
    Context { id: JsonModel, query: Seq<char>, limit: usize },
}

/// The refusal of an `assay_run` call without a script.
pub open spec fn msg_needs_script() -> Seq<char> {
    "assay_run requires a 'script' string argument"@
}

/// The refusal of an `assay_context` call without a query.
pub open spec fn msg_needs_query() -> Seq<char> {
    "assay_context requires a 'query' string argument"@
}

/// What an `assay_run` call comes to: a run, or a tool error.
pub open spec fn run_step(id: JsonModel, arguments: JsonModel, allowed: bool) -> StepModel {
    match as_text(member(arguments, "script"@)) {
        None => StepModel::Reply(success_spec(id, tool_text_spec(msg_needs_script(), true))),
        Some(script) => match mode_spec(mode_value(member(arguments, "mode"@)), allowed) {
            Err(e) => StepModel::Reply(success_spec(id, tool_text_spec(e, true))),
            Ok(mode) => StepModel::Run {
                id,
                script,
                mode,
                timeout_secs: match as_u64_value(member(arguments, "timeout_secs"@)) {
                    Some(t) => t,
                    None => DEFAULT_TOOL_TIMEOUT_SECS,
                },
                args: string_array(member(arguments, "args"@)),
            },
        },
    }
}

/// The number of modules asked for: a positive whole number, else the
/// default.
pub open spec fn context_limit(m: Option<JsonModel>) -> usize {
    match as_u64_value(m) {
        Some(n) => if (n as usize) > 0 {
            n as usize
        } else {
            DEFAULT_CONTEXT_LIMIT
        },
        None => DEFAULT_CONTEXT_LIMIT,
    }
}

/// What an `assay_context` call comes to: a search, or a tool error.
pub open spec fn context_step(id: JsonModel, arguments: JsonModel) -> StepModel {
    match as_text(member(arguments, "query"@)) {
        None => StepModel::Reply(success_spec(id, tool_text_spec(msg_needs_query(), true))),
        Some(query) => StepModel::Context { id, query, limit: context_limit(member(arguments, "limit"@)) },
    }
}

/// What a `tools/call` comes to.
pub open spec fn call_step(id: JsonModel, params: JsonModel, allowed: bool) -> StepModel {
    let arguments = match member(params, "arguments"@) {
        Some(a) => a,
        None => empty_object(),
    };
    match as_text(member(params, "name"@)) {
        Some(n) => if n == "assay_run"@ {
            run_step(id, arguments, allowed)
        } else if n == "assay_context"@ {
            context_step(id, arguments)
        } else {
            StepModel::Reply(error_spec(id, INVALID_PARAMS as int, "unknown tool: "@ + n))
        },
        None => StepModel::Reply(error_spec(id, INVALID_PARAMS as int, "missing tool name"@)),
    }
}

/// What a message comes to: nothing for a notification (no `id`); an
/// error for one without a method or with an unknown one; the answer to
/// `initialize`, `ping` and `tools/list`; for `tools/call`, what the call
/// comes to.
pub open spec fn step_spec(req: JsonModel, allowed: bool, version: Seq<char>) -> StepModel {
    match member(req, "id"@) {
        None => StepModel::Silent,
        Some(id) => match as_text(member(req, "method"@)) {
            None => StepModel::Reply(error_spec(id, INVALID_REQUEST as int, "missing method"@)),
            Some(m) => {
                let params = match member(req, "params"@) {
                    Some(p) => p,
                    None => JsonModel::Null,
                };
                if m == "initialize"@ {
                    StepModel::Reply(success_spec(id, initialize_spec(params, version)))
                } else if m == "ping"@ {
                    StepModel::Reply(success_spec(id, empty_object()))
                } else if m == "tools/list"@ {
                    StepModel::Reply(success_spec(id, tools_list_spec(allowed)))
                } else if m == "tools/call"@ {
                    call_step(id, params, allowed)
                } else {
                    StepModel::Reply(error_spec(id, METHOD_NOT_FOUND as int, "method not found: "@ + m))
                }
            },
        },
    }
}

/// A script to run for an `assay_run` call.
pub struct RunCall {
    pub id: Json,
    pub script: String,
    pub mode: ExecMode,
    pub timeout_secs: u64,
    pub args: Vec<String>,
}

/// A search for an `assay_context` call.
pub struct ContextCall {
    pub id: Json,
    pub query: String,
    pub limit: usize,
}

/// What a message comes to.
pub enum McpStep {
    Silent,
    Reply(Json),
    Run(RunCall),
    Context(ContextCall),
}

/// A step as plain values.
pub open spec fn step_view(s: McpStep) -> StepModel {
    match s {
        McpStep::Silent => StepModel::Silent,
        McpStep::Reply(j) => StepModel::Reply(model(j)),
        McpStep::Run(c) => StepModel::Run {
            id: model(c.id),
            script: c.script@,
            mode: c.mode,
            timeout_secs: c.timeout_secs,
            args: crate::text::views(c.args@),
        },
        McpStep::Context(c) => StepModel::Context { id: model(c.id), query: c.query@, limit: c.limit },
    }
}

fn get_member<'a>(j: &'a Json, key: &str) -> (r: Option<&'a Json>)
    ensures
        match r {
            Some(v) => member(model(*j), key@) == Some(model(*v)),
            None => member(model(*j), key@) is None,
        },
{
    match j {
        Json::Object(fs) => {
            proof {
                lemma_model_object(*fs);
            }
            let ghost fm = fields_model(fs@);
            let k = chars_of(key);
            let mut i: usize = 0;
            while i < fs.len()
                invariant
                    i <= fs@.len(),
                    fm == fields_model(fs@),
                    k@ == key@,
                    model(*j) == JsonModel::Object(fm),
                    member_from(fm, key@, 0) == member_from(fm, key@, i as int),
                decreases fs@.len() - i,
            {
                if chars_eq(&chars_of(fs[i].0.as_str()), &k) {
                    assert(fm[i as int] == (fs@[i as int].0@, model(fs@[i as int].1)));
                    return Some(&fs[i].1);
                }
                i += 1;
            }
            None
        },
        _ => None,
    }
}

fn text_of(v: Option<&Json>) -> (r: Option<String>)
    ensures
        match v {
            Some(x) => match (r, as_text(Some(model(*x)))) {
                (Some(s), Some(t)) => s@ == t,
                (None, None) => true,
                _ => false,
            },
            None => r is None,
        },
{
    match v {
        Some(Json::Str(s)) => Some(string_of(&chars_of(s.as_str()))),
        _ => None,
    }
}

fn u64_of(v: Option<&Json>) -> (r: Option<u64>)
    ensures
        r == as_u64_value(
            match v {
                Some(x) => Some(model(*x)),
                None => None,
            },
        ),
{
    match v {
        Some(Json::Number(t)) => {
            let c = chars_of(t.as_str());
            if c.len() > 0 && c[0] != '+' {
                parse_u64(&c)
            } else {
                None
            }
        },
        _ => None,
    }
}

fn strings_of(v: Option<&Json>) -> (r: Vec<String>)
    ensures
        crate::text::views(r@) == string_array(
            match v {
                Some(x) => Some(model(*x)),
                None => None,
            },
        ),
{
    let mut out: Vec<String> = Vec::new();
    match v {
        Some(Json::Array(items)) => {
            proof {
                lemma_model_array(*items);
            }
            let ghost im = items_model(items@);
            let mut i: usize = 0;
            assert(im.take(0) =~= Seq::<JsonModel>::empty());
            while i < items.len()
                invariant
                    i <= items@.len(),
                    im == items_model(items@),
                    crate::text::views(out@) == string_items(im.take(i as int)),
                decreases items@.len() - i,
            {
                let ghost before = out@;
                assert(im.take(i + 1).drop_last() =~= im.take(i as int));
                assert(im.take(i + 1).last() == model(items@[i as int]));
                match &items[i] {
                    Json::Str(s) => {
                        out.push(string_of(&chars_of(s.as_str())));
                        assert(crate::text::views(out@) =~= crate::text::views(before).push(s@));
                    },
                    _ => {},
                }
                i += 1;
            }
            assert(im.take(i as int) =~= im);
            out
        },
        _ => {
            assert(crate::text::views(out@) =~= Seq::<Seq<char>>::empty());
            out
        },
    }
}

fn mode_of(v: Option<&Json>) -> (r: ModeValue)
    ensures
        r@ == mode_value(
            match v {
                Some(x) => Some(model(*x)),
                None => None,
            },
        ),
{
    match v {
        None => ModeValue::Absent,
        Some(Json::Null) => ModeValue::Absent,
        Some(Json::Str(s)) => ModeValue::Text(string_of(&chars_of(s.as_str()))),
        Some(_) => ModeValue::Other,
    }
}

/// A JSON-RPC success carrying `result` for request `id`.
pub fn success_response(id: Json, result: Json) -> (r: Json)
    ensures
        model(r) == success_spec(model(id), model(result)),
{
    let mut fs = no_fields();
    put(&mut fs, "jsonrpc", jstr("2.0"));
    put(&mut fs, "id", id);
    put(&mut fs, "result", result);
    jobj(fs)
}

/// A JSON-RPC error with `code` and `message` for request `id`.
pub fn error_response(id: Json, code: i64, message: &str) -> (r: Json)
    ensures
        model(r) == error_spec(model(id), code as int, message@),
{
    let mut e = no_fields();
    put(&mut e, "code", Json::Number(string_of(&int_chars(code))));
    put(&mut e, "message", jstr(message));
    let mut fs = no_fields();
    put(&mut fs, "jsonrpc", jstr("2.0"));
    put(&mut fs, "id", id);
    put(&mut fs, "error", jobj(e));
    jobj(fs)
}

/// A tool's text answer.
pub fn tool_text_content(text: &str, is_error: bool) -> (r: Json)
    ensures
        model(r) == tool_text_spec(text@, is_error),
{
    let mut item = no_fields();
    put(&mut item, "type", jstr("text"));
    put(&mut item, "text", jstr(text));
    let mut content = no_items();
    put_item(&mut content, jobj(item));
    let mut fs = no_fields();
    put(&mut fs, "content", jarr(content));
    put(&mut fs, "isError", Json::Bool(is_error));
    jobj(fs)
}

/// The answer to `initialize`.
pub fn initialize_result(params: &Json, version: &str) -> (r: Json)
    ensures
        model(r) == initialize_spec(model(*params), version@),
{
    let pv = match text_of(get_member(params, "protocolVersion")) {
        Some(v) => if chars_of(v.as_str()).len() > 0 {
            v
        } else {
            string_of(&chars_of(DEFAULT_PROTOCOL_VERSION))
        },
        None => string_of(&chars_of(DEFAULT_PROTOCOL_VERSION)),
    };
    let mut caps = no_fields();
    put(&mut caps, "tools", jobj(no_fields()));
    let mut info = no_fields();
    put(&mut info, "name", jstr(SERVER_NAME));
    put(&mut info, "version", jstr(version));
    let mut fs = no_fields();
    put(&mut fs, "protocolVersion", Json::Str(pv));
    put(&mut fs, "capabilities", jobj(caps));
    put(&mut fs, "serverInfo", jobj(info));
    jobj(fs)
}

fn typed_prop_json(ty: &str, desc: &str) -> (r: Json)
    ensures
        model(r) == typed_prop(ty@, desc@),
{
    let mut fs = no_fields();
    put(&mut fs, "type", jstr(ty));
    put(&mut fs, "description", jstr(desc));
    jobj(fs)
}

fn run_tool(allowed: bool) -> (r: Json)
    ensures
        model(r) == run_tool_spec(allowed),
{
    let mut modes = no_items();
    put_item(&mut modes, jstr("readonly"));
    put_item(&mut modes, jstr("approval"));
    if allowed {
        put_item(&mut modes, jstr("unrestricted"));
    }
    let mut mode = no_fields();
    put(&mut mode, "type", jstr("string"));
    put(&mut mode, "enum", jarr(modes));
    put(&mut mode, "default", jstr("readonly"));
    put(&mut mode, "description", jstr(if allowed { MODE_DESCRIPTION_OPEN } else { MODE_DESCRIPTION_GATED }));
    let mut items = no_fields();
    put(&mut items, "type", jstr("string"));
    let mut args = no_fields();
    put(&mut args, "type", jstr("array"));
    put(&mut args, "items", jobj(items));
    put(&mut args, "description", jstr(ARGS_DESCRIPTION));
    let mut props = no_fields();
    put(&mut props, "script", typed_prop_json("string", SCRIPT_DESCRIPTION));
    put(&mut props, "mode", jobj(mode));
    put(&mut props, "timeout_secs", typed_prop_json("number", TIMEOUT_DESCRIPTION));
    put(&mut props, "args", jobj(args));
    let mut required = no_items();
    put_item(&mut required, jstr("script"));
    put_item(&mut required, jstr("mode"));
    let mut schema = no_fields();
    put(&mut schema, "type", jstr("object"));
    put(&mut schema, "properties", jobj(props));
    put(&mut schema, "required", jarr(required));
    let mut fs = no_fields();
    put(&mut fs, "name", jstr("assay_run"));
    put(&mut fs, "description", jstr(if allowed { RUN_DESCRIPTION_OPEN } else { RUN_DESCRIPTION_GATED }));
    put(&mut fs, "inputSchema", jobj(schema));
    jobj(fs)
}

fn context_tool() -> (r: Json)
    ensures
        model(r) == context_tool_spec(),
{
    let mut props = no_fields();
    put(&mut props, "query", typed_prop_json("string", QUERY_DESCRIPTION));
    put(&mut props, "limit", typed_prop_json("number", LIMIT_DESCRIPTION));
    let mut required = no_items();
    put_item(&mut required, jstr("query"));
    let mut schema = no_fields();
    put(&mut schema, "type", jstr("object"));
    put(&mut schema, "properties", jobj(props));
    put(&mut schema, "required", jarr(required));
    let mut fs = no_fields();
    put(&mut fs, "name", jstr("assay_context"));
    put(&mut fs, "description", jstr(CONTEXT_DESCRIPTION));
    put(&mut fs, "inputSchema", jobj(schema));
    jobj(fs)
}

/// The answer to `tools/list`: `assay_run`, offering `unrestricted` only
/// where `allowed`, and `assay_context`.
pub fn tools_list_result(allowed: bool) -> (r: Json)
    ensures
        model(r) == tools_list_spec(allowed),
{
    let mut tools = no_items();
    put_item(&mut tools, run_tool(allowed));
    put_item(&mut tools, context_tool());
    let mut fs = no_fields();
    put(&mut fs, "tools", jarr(tools));
    jobj(fs)
}

} // verus!

verus! {

fn run_call(id: Json, arguments: &Json, allowed: bool) -> (r: McpStep)
    ensures
        step_view(r) == run_step(model(id), model(*arguments), allowed),
{
    let script = match text_of(get_member(arguments, "script")) {
        Some(s) => s,
        None => {
            return McpStep::Reply(
                success_response(id, tool_text_content("assay_run requires a 'script' string argument", true)),
            );
        },
    };
    let mode = match resolve_mode(&mode_of(get_member(arguments, "mode")), allowed) {
        Ok(m) => m,
        Err(e) => {
            return McpStep::Reply(success_response(id, tool_text_content(e.as_str(), true)));
        },
    };
    let timeout_secs = match u64_of(get_member(arguments, "timeout_secs")) {
        Some(t) => t,
        None => DEFAULT_TOOL_TIMEOUT_SECS,
    };
    let args = strings_of(get_member(arguments, "args"));
    McpStep::Run(RunCall { id, script, mode, timeout_secs, args })
}

fn context_call(id: Json, arguments: &Json) -> (r: McpStep)
    ensures
        step_view(r) == context_step(model(id), model(*arguments)),
{
    let query = match text_of(get_member(arguments, "query")) {
        Some(q) => q,
        None => {
            return McpStep::Reply(
                success_response(id, tool_text_content("assay_context requires a 'query' string argument", true)),
            );
        },
    };
    let limit = match u64_of(get_member(arguments, "limit")) {
        Some(n) => if (n as usize) > 0 {
            n as usize
        } else {
            DEFAULT_CONTEXT_LIMIT
        },
        None => DEFAULT_CONTEXT_LIMIT,
    };
    McpStep::Context(ContextCall { id, query, limit })
}

fn tools_call(id: Json, params: &Json, allowed: bool) -> (r: McpStep)
    ensures
        step_view(r) == call_step(model(id), model(*params), allowed),
{
    let empty = jobj(no_fields());
    let arguments: &Json = match get_member(params, "arguments") {
        Some(a) => a,
        None => &empty,
    };
    match text_of(get_member(params, "name")) {
        Some(n) => {
            let nc = chars_of(n.as_str());
            if chars_eq(&nc, &chars_of("assay_run")) {
                run_call(id, arguments, allowed)
            } else if chars_eq(&nc, &chars_of("assay_context")) {
                context_call(id, arguments)
            } else {
                let mut m = chars_of("unknown tool: ");
                push_chars(&mut m, &nc);
                let ms = string_of(&m);
                McpStep::Reply(error_response(id, INVALID_PARAMS, ms.as_str()))
            }
        },
        None => McpStep::Reply(error_response(id, INVALID_PARAMS, "missing tool name")),
    }
}

/// What a message is answered with, or what must happen first for it to
/// be: nothing for a notification, a reply, a run or a search.
/// `unrestricted_allowed` is whether the server was started allowing
/// unrestricted runs; `version` is the server's version.
pub fn handle_message(request: &Json, unrestricted_allowed: bool, version: &str) -> (r: McpStep)
    ensures
        step_view(r) == step_spec(model(*request), unrestricted_allowed, version@),
{
    let id = match get_member(request, "id") {
        Some(i) => json_copy(i),
        None => {
            return McpStep::Silent;
        },
    };
    let method = match text_of(get_member(request, "method")) {
        Some(m) => m,
        None => {
            return McpStep::Reply(error_response(id, INVALID_REQUEST, "missing method"));
        },
    };
    let null = Json::Null;
    let params: &Json = match get_member(request, "params") {
        Some(p) => p,
        None => &null,
    };
    let mc = chars_of(method.as_str());
    if chars_eq(&mc, &chars_of("initialize")) {
        McpStep::Reply(success_response(id, initialize_result(params, version)))
    } else if chars_eq(&mc, &chars_of("ping")) {
        McpStep::Reply(success_response(id, jobj(no_fields())))
    } else if chars_eq(&mc, &chars_of("tools/list")) {
        McpStep::Reply(success_response(id, tools_list_result(unrestricted_allowed)))
    } else if chars_eq(&mc, &chars_of("tools/call")) {
        tools_call(id, params, unrestricted_allowed)
    } else {
        let mut m = chars_of("method not found: ");
        push_chars(&mut m, &mc);
        let ms = string_of(&m);
        McpStep::Reply(error_response(id, METHOD_NOT_FOUND, ms.as_str()))
    }
}

/// Whether a run that ended with `status` went wrong: anything but `ok`
/// and `needs_approval`.
pub open spec fn run_failed(status: Seq<char>) -> bool {
    !(status == "ok"@ || status == "needs_approval"@)
}

/// The reply to an `assay_run` call once its script has run: the run's
/// envelope as text, marked an error unless the run ended `ok` or
/// `needs_approval`.
pub fn run_reply(id: Json, envelope: &str, status: &str) -> (r: Json)
    ensures
        model(r) == success_spec(model(id), tool_text_spec(envelope@, run_failed(status@))),
{
    let s = chars_of(status);
    let failed = !(chars_eq(&s, &chars_of("ok")) || chars_eq(&s, &chars_of("needs_approval")));
    success_response(id, tool_text_content(envelope, failed))
}

/// The reply to an `assay_context` call once the docs were searched: the
/// Markdown found, or the refusal as a tool error.
pub fn context_reply(id: Json, found: Result<String, String>) -> (r: Json)
    ensures
        match found {
            Ok(md) => model(r) == success_spec(model(id), tool_text_spec(md@, false)),
            Err(m) => model(r) == success_spec(model(id), tool_text_spec(m@, true)),
        },
{
    match found {
        Ok(md) => success_response(id, tool_text_content(md.as_str(), false)),
        Err(m) => success_response(id, tool_text_content(m.as_str(), true)),
    }
}

/// The reply to a line that is not JSON.
pub fn parse_error_response() -> (r: Json)
    ensures
        model(r) == error_spec(JsonModel::Null, PARSE_ERROR as int, "parse error"@),
{
    error_response(Json::Null, PARSE_ERROR, "parse error")
}

/// A notification (a message without an `id`) is never answered, and
/// every other message is, directly or once its run or search is done.
pub proof fn law_only_notifications_go_unanswered(req: JsonModel, allowed: bool, version: Seq<char>)
    ensures
        (step_spec(req, allowed, version) is Silent) <==> member(req, "id"@) is None,
{
}

proof fn lemma_reply_members(id: JsonModel, x: JsonModel, code: int, m: Seq<char>)
    ensures
        member(success_spec(id, x), "jsonrpc"@) == Some(JsonModel::Str("2.0"@)),
        member(success_spec(id, x), "id"@) == Some(id),
        member(error_spec(id, code, m), "jsonrpc"@) == Some(JsonModel::Str("2.0"@)),
        member(error_spec(id, code, m), "id"@) == Some(id),
{
    reveal_strlit("jsonrpc");
    reveal_strlit("id");
    assert("jsonrpc"@ != "id"@) by {
        assert("jsonrpc"@.len() != "id"@.len());
    }
    reveal_with_fuel(member_from, 3);
}

/// Every reply is JSON-RPC 2.0 and carries the `id` of the request it
/// answers; so does every run or search a request leads to.
pub proof fn law_replies_carry_the_request_id(req: JsonModel, allowed: bool, version: Seq<char>)
    ensures
        match step_spec(req, allowed, version) {
            StepModel::Silent => true,
            StepModel::Reply(j) => member(j, "jsonrpc"@) == Some(JsonModel::Str("2.0"@)) && member(j, "id"@)
                == member(req, "id"@),
            StepModel::Run { id, .. } => member(req, "id"@) == Some(id),
            StepModel::Context { id, .. } => member(req, "id"@) == Some(id),
        },
{
    match member(req, "id"@) {
        None => {},
        Some(id) => {
            lemma_reply_members(id, empty_object(), 0, Seq::empty());
            let params = match member(req, "params"@) {
                Some(p) => p,
                None => JsonModel::Null,
            };
            let arguments = match member(params, "arguments"@) {
                Some(a) => a,
                None => empty_object(),
            };
            lemma_reply_members(id, initialize_spec(params, version), INVALID_REQUEST as int, "missing method"@);
            lemma_reply_members(id, tools_list_spec(allowed), INVALID_PARAMS as int, "missing tool name"@);
            lemma_reply_members(id, tool_text_spec(msg_needs_script(), true), 0, Seq::empty());
            lemma_reply_members(id, tool_text_spec(msg_needs_query(), true), 0, Seq::empty());
            match as_text(member(params, "name"@)) {
                Some(n) => {
                    lemma_reply_members(id, empty_object(), INVALID_PARAMS as int, "unknown tool: "@ + n);
                },
                None => {},
            }
            match as_text(member(req, "method"@)) {
                Some(m) => {
                    lemma_reply_members(id, empty_object(), METHOD_NOT_FOUND as int, "method not found: "@ + m);
                },
                None => {},
            }
            match mode_spec(mode_value(member(arguments, "mode"@)), allowed) {
                Err(e) => {
                    lemma_reply_members(id, tool_text_spec(e, true), 0, Seq::empty());
                },
                Ok(_) => {},
            }
        },
    }
}

/// The modes `assay_run` offers are exactly the modes it accepts, so a
/// client only ever sees a mode it can ask for: `unrestricted` is offered
/// and accepted only where the server allows it.
pub proof fn law_offered_modes_are_accepted(allowed: bool, m: Seq<char>)
    ensures
        offered_modes(allowed).contains(JsonModel::Str(m)) <==> mode_spec(ModeValueModel::Text(m), allowed) is Ok,
{
    reveal_strlit("readonly");
    reveal_strlit("approval");
    reveal_strlit("unrestricted");
    let o = offered_modes(allowed);
    if mode_spec(ModeValueModel::Text(m), allowed) is Ok {
        if m == "readonly"@ {
            assert(o[0] == JsonModel::Str(m));
        } else if m == "approval"@ {
            assert(o[1] == JsonModel::Str(m));
        } else {
            assert(o[2] == JsonModel::Str(m));
        }
    }
    if o.contains(JsonModel::Str(m)) {
        let k = choose|k: int| 0 <= k < o.len() && o[k] == JsonModel::Str(m);
        assert(k == 0 || k == 1 || k == 2);
    }
}


/// A server that was not started allowing unrestricted runs never grants
/// one, whatever the request says; a request that names no mode runs
/// read-only.
pub proof fn law_unrestricted_needs_opt_in(value: ModeValueModel, allowed: bool)
    ensures
        !allowed ==> !(mode_spec(value, allowed) matches Ok(m) && m == ExecMode::Unrestricted),
        mode_spec(ModeValueModel::Absent, allowed) == Ok::<ExecMode, Seq<char>>(ExecMode::ReadOnly),
{
}

} // verus!
