//! Request routing: which handler a method name selects, which executor a
//! tool name selects, and the protocol-level error codes.

use vstd::prelude::*;
use crate::text::str_eq;
use vstd::string::StringExecFns;

verus! {

/// Protocol version answered when the client asks for none.
pub const PROTOCOL_VERSION: &'static str = "2024-11-05";

/// Server name reported to clients and used for the cache directory.
pub const SERVER_NAME: &'static str = "gdscript-formatter-mcp";

/// Error code for an unknown method.
pub const METHOD_NOT_FOUND: i64 = -32601;

/// Error code for unusable parameters.
pub const INVALID_PARAMS: i64 = -32602;

/// The handler a request goes to.
#[derive(PartialEq, Eq, Structural, Clone, Copy, Debug)]
pub enum Route {
    Initialize,
    Ping,
    ToolsList,
    ToolsCall,
    MethodNotFound,
}

/// The handler for a method name.
pub open spec fn route_of(method: Seq<char>) -> Route {
    if method == "initialize"@ {
        Route::Initialize
    } else if method == "ping"@ {
        Route::Ping
    } else if method == "tools/list"@ {
        Route::ToolsList
    } else if method == "tools/call"@ {
        Route::ToolsCall
    } else {
        Route::MethodNotFound
    }
}

/// Routes a request by its method name. A message without an identifier
/// or a method gets no answer at all.
pub fn route_request(has_id: bool, method: Option<&str>) -> (r: Option<Route>)
    ensures
        !has_id || method is None ==> r is None,
        (has_id && method is Some) ==> r == Some(route_of(method->0@)),
{
    if !has_id {
        return None;
    }
    match method {
        None => None,
        Some(m) => {
            let route = if str_eq(m, "initialize") {
                Route::Initialize
            } else if str_eq(m, "ping") {
                Route::Ping
            } else if str_eq(m, "tools/list") {
                Route::ToolsList
            } else if str_eq(m, "tools/call") {
                Route::ToolsCall
            } else {
                Route::MethodNotFound
            };
            Some(route)
        },
    }
}

/// The executor a tool call goes to.
#[derive(PartialEq, Eq, Structural, Clone, Copy, Debug)]
pub enum ToolKind {
    Format,
    Lint,
    Unknown,
}

/// The executor for a tool name.
pub fn route_tool(name: &str) -> (r: ToolKind)
    ensures
        r == (if name@ == "gdscript_format"@ {
            ToolKind::Format
        } else if name@ == "gdscript_lint"@ {
            ToolKind::Lint
        } else {
            ToolKind::Unknown
        }),
{
    if str_eq(name, "gdscript_format") {
        ToolKind::Format
    } else if str_eq(name, "gdscript_lint") {
        ToolKind::Lint
    } else {
        ToolKind::Unknown
    }
}

/// The protocol version to answer: the client's, verbatim, else the
/// server's own.
pub fn negotiated_protocol_version(requested: Option<&str>) -> (r: String)
    ensures
        r@ == match requested {
            Some(v) => v@,
            None => PROTOCOL_VERSION@,
        },
{
    match requested {
        Some(v) => String::from_str(v),
        None => String::from_str(PROTOCOL_VERSION),
    }
}

/// How the `arguments` of a tool call were given.
#[derive(PartialEq, Eq, Structural, Clone, Copy, Debug)]
pub enum ArgumentsShape {
    Absent,
    Object,
    NotObject,
}

/// Arguments must be an object or absent (then taken as empty).
pub fn check_arguments_shape(shape: ArgumentsShape) -> (r: Result<(), String>)
    ensures
        r is Err <==> shape == ArgumentsShape::NotObject,
        r matches Err(e) ==> e@ == "`arguments` must be a JSON object"@,
{
    match shape {
        ArgumentsShape::NotObject => Err(String::from_str("`arguments` must be a JSON object")),
        _ => Ok(()),
    }
}


/// Reads a non-negative integer argument as a count: absent stays absent, a
/// negative value is refused.
pub fn count_argument(key: &str, value: Option<i64>) -> (r: Result<Option<usize>, String>)
    ensures
        value is None ==> r == Ok::<Option<usize>, String>(None),
        (value is Some && value->0 < 0) ==> (r matches Err(e) && e@ == "`"@ + key@
            + "` must be >= 0"@),
        (value is Some && 0 <= value->0 <= usize::MAX) ==> (r matches Ok(Some(n)) && n as int
            == value->0),
        (value is Some && value->0 > usize::MAX) ==> (r matches Err(e) && e@ == "`"@ + key@
            + "` is too large"@),
{
    match value {
        None => Ok(None),
        Some(v) => if v < 0 {
            Err(String::from_str("`").concat(key).concat("` must be >= 0"))
        } else if v as u64 > usize::MAX as u64 {
            Err(String::from_str("`").concat(key).concat("` is too large"))
        } else {
            Ok(Some(v as usize))
        },
    }
}

} // verus!
