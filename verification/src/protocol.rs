//! The JSON-RPC side of the server: which handler a request goes to, the
//! error codes and messages it answers with, and where the workspace is.
use vstd::prelude::*;

use crate::std_text::string_from_chars;
use crate::text::{chars_of, eq_str, owned, push_str, starts_with, starts_with_str};

verus! {

/// JSON-RPC error code of a failed tool call.
pub const INTERNAL_ERROR: i64 = -32603;

/// JSON-RPC error code of an unknown method or tool.
pub const METHOD_NOT_FOUND: i64 = -32601;

/// The protocol version answered when the client gives none.
pub const DEFAULT_PROTOCOL_VERSION: &'static str = "2026-09-11";

/// The tools the server offers.
#[derive(PartialEq, Eq, Structural, Debug, Clone, Copy)]
pub enum ToolName {
    SmartSearch,
    FindDependents,
    AnalyzeImpact,
    AnalyzeGrpc,
    SearchDocs,
}

/// What a request asks for.
#[derive(PartialEq, Eq, Structural, Debug, Clone, Copy)]
pub enum Route {
    /// `initialize`: the server's capabilities.
    Initialize,
    /// `notifications/initialized`: an empty answer.
    Initialized,
    /// `tools/list`: the five tool definitions.
    ListTools,
    /// `tools/call` of a known tool.
    CallTool(ToolName),
    /// `tools/call` of an unknown tool.
    UnknownTool,
    /// Any other method.
    UnknownMethod,
}

/// The tool with this name, if any.
pub open spec fn tool_of(name: Seq<char>) -> Option<ToolName> {
    if name == "smart_search"@ {
        Some(ToolName::SmartSearch)
    } else if name == "find_dependents"@ {
        Some(ToolName::FindDependents)
    } else if name == "analyze_impact"@ {
        Some(ToolName::AnalyzeImpact)
    } else if name == "analyze_grpc"@ {
        Some(ToolName::AnalyzeGrpc)
    } else if name == "search_docs"@ {
        Some(ToolName::SearchDocs)
    } else {
        None
    }
}

/// The route of a request with this method and (for `tools/call`) tool name.
pub open spec fn route_of(method: Seq<char>, tool: Seq<char>) -> Route {
    if method == "initialize"@ {
        Route::Initialize
    } else if method == "notifications/initialized"@ {
        Route::Initialized
    } else if method == "tools/list"@ {
        Route::ListTools
    } else if method == "tools/call"@ {
        match tool_of(tool) {
            Some(t) => Route::CallTool(t),
            None => Route::UnknownTool,
        }
    } else {
        Route::UnknownMethod
    }
}

/// The tool named `name`, if the server has one.
pub fn tool_named(name: &str) -> (r: Option<ToolName>)
    ensures
        r == tool_of(name@),
{
    let n = chars_of(name);
    if eq_str(&n, "smart_search") {
        Some(ToolName::SmartSearch)
    } else if eq_str(&n, "find_dependents") {
        Some(ToolName::FindDependents)
    } else if eq_str(&n, "analyze_impact") {
        Some(ToolName::AnalyzeImpact)
    } else if eq_str(&n, "analyze_grpc") {
        Some(ToolName::AnalyzeGrpc)
    } else if eq_str(&n, "search_docs") {
        Some(ToolName::SearchDocs)
    } else {
        None
    }
}

/// Where a request goes: by method, and for `tools/call` by tool name
/// (`tool` is the `name` parameter, empty when absent).
pub fn route_request(method: &str, tool: &str) -> (r: Route)
    ensures
        r == route_of(method@, tool@),
{
    let m = chars_of(method);
    if eq_str(&m, "initialize") {
        Route::Initialize
    } else if eq_str(&m, "notifications/initialized") {
        Route::Initialized
    } else if eq_str(&m, "tools/list") {
        Route::ListTools
    } else if eq_str(&m, "tools/call") {
        match tool_named(tool) {
            Some(t) => Route::CallTool(t),
            None => Route::UnknownTool,
        }
    } else {
        Route::UnknownMethod
    }
}

/// The message answered for an unknown tool.
pub fn unknown_tool_message(name: &str) -> (r: String)
    ensures
        r@ == "Outil inconnu: '"@ + name@ + "'"@,
{
    let mut v: Vec<char> = Vec::new();
    push_str(&mut v, "Outil inconnu: '");
    push_str(&mut v, name);
    push_str(&mut v, "'");
    string_from_chars(&v)
}

/// The message answered for an unknown method.
pub fn unknown_method_message() -> (r: String)
    ensures
        r@ == "Méthode non supportée"@,
{
    owned("Méthode non supportée")
}

/// The protocol version to answer: the client's, else the default.
pub fn protocol_version(requested: Option<&str>) -> (r: String)
    ensures
        r@ == match requested {
            Some(v) => v@,
            None => DEFAULT_PROTOCOL_VERSION@,
        },
{
    match requested {
        Some(v) => owned(v),
        None => owned(DEFAULT_PROTOCOL_VERSION),
    }
}

/// A line read on standard input is a notification that gets no answer:
/// it has no `id` and its method starts with `notifications/`.
pub fn is_silent_notification(has_id: bool, method: &str) -> (r: bool)
    ensures
        r == (!has_id && starts_with(method@, "notifications/"@)),
{
    let m = chars_of(method);
    !has_id && starts_with_str(&m, "notifications/")
}

/// The tools the server lists, in the order of `tools/list`.
pub open spec fn tool_list() -> Seq<Seq<char>> {
    seq!["smart_search"@, "find_dependents"@, "analyze_impact"@, "analyze_grpc"@, "search_docs"@]
}

/// The names of the tools, in the order of `tools/list`.
pub fn tool_names() -> (r: Vec<&'static str>)
    ensures
        r@.map_values(|s: &str| s@) == tool_list(),
{
    let r: Vec<&'static str> = vec!["smart_search", "find_dependents", "analyze_impact", "analyze_grpc", "search_docs"];
    assert(r@.map_values(|s: &str| s@) =~= tool_list());
    r
}

/// Every tool that `tools/list` names is one that `tools/call` reaches.
pub proof fn lemma_listed_tools_route()
    ensures
        forall|i: int| 0 <= i < tool_list().len() ==> tool_of(#[trigger] tool_list()[i]) is Some,
{
    reveal_strlit("smart_search");
    reveal_strlit("find_dependents");
    reveal_strlit("analyze_impact");
    reveal_strlit("analyze_grpc");
    reveal_strlit("search_docs");
}

/// The answer when a required argument is missing or not a string.
pub open spec fn missing_argument_text(key: Seq<char>) -> Seq<char> {
    "Le paramètre '"@ + key + "' est requis"@
}

/// A required string argument of a tool call: its text when the call gives
/// it (`arg`), else the error that names the missing parameter `key`.
pub fn required_argument(arg: Option<&str>, key: &str) -> (r: Result<String, String>)
    ensures
        match arg {
            Some(a) => r matches Ok(v) && v@ == a@,
            None => r matches Err(e) && e@ == missing_argument_text(key@),
        },
{
    match arg {
        Some(a) => Ok(owned(a)),
        None => {
            let mut v: Vec<char> = Vec::new();
            push_str(&mut v, "Le paramètre '");
            push_str(&mut v, key);
            push_str(&mut v, "' est requis");
            Err(string_from_chars(&v))
        },
    }
}

} // verus!
