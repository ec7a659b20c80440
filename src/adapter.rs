//! The model adapter's status graph, and chat messages for its history.
use vstd::prelude::*;

verus! {

/// Status of the model adapter.
#[derive(PartialEq, Eq, Structural, Clone, Copy, Debug)]
pub enum Status {
    /// No request outstanding and nothing awaited.
    Idle,
    /// The model asked for tools; awaiting the operator's decisions.
    WaitForLuaResult,
    /// A request to the model is outstanding.
    Generating,
}

/// What happens to the adapter.
#[derive(PartialEq, Eq, Structural, Clone, Copy, Debug)]
pub enum StatusEvent {
    /// A user message or a batch of tool results was sent.
    Sent,
    /// The model call finished and requested at least one tool.
    RespondedWithTools,
    /// The model call finished without requesting a tool.
    RespondedWithoutTools,
    /// The outstanding call failed in transport.
    Failed,
    /// `cancel()` was called.
    Cancelled,
}

/// The edges of the status graph (a status may also stay as it is).
pub open spec fn allowed(a: Status, b: Status) -> bool {
    ||| a == b
    ||| (a == Status::Idle && b == Status::Generating)
    ||| (a == Status::Generating && b == Status::WaitForLuaResult)
    ||| (a == Status::Generating && b == Status::Idle)
    ||| (a == Status::WaitForLuaResult && b == Status::Generating)
    ||| b == Status::Idle
}

/// The status after an event. Responses and failures only count while a call is
/// outstanding: after a cancel they belong to an aborted call.
pub open spec fn next_status(s: Status, e: StatusEvent) -> Status {
    match e {
        StatusEvent::Sent => Status::Generating,
        StatusEvent::RespondedWithTools => if s == Status::Generating {
            Status::WaitForLuaResult
        } else {
            s
        },
        StatusEvent::RespondedWithoutTools | StatusEvent::Failed => if s == Status::Generating {
            Status::Idle
        } else {
            s
        },
        StatusEvent::Cancelled => Status::Idle,
    }
}

/// Applies an event to a status. A send is only made when no call is outstanding.
pub fn advance(s: Status, e: StatusEvent) -> (r: Status)
    requires
        e == StatusEvent::Sent ==> s != Status::Generating,
    ensures
        r == next_status(s, e),
        allowed(s, r),
{
    match e {
        StatusEvent::Sent => Status::Generating,
        StatusEvent::RespondedWithTools => if s == Status::Generating {
            Status::WaitForLuaResult
        } else {
            s
        },
        StatusEvent::RespondedWithoutTools | StatusEvent::Failed => if s == Status::Generating {
            Status::Idle
        } else {
            s
        },
        StatusEvent::Cancelled => Status::Idle,
    }
}

/// Every status change goes along an edge of the graph: sends leave `Idle` or
/// `WaitForLuaResult` for `Generating`, responses leave `Generating`, and a cancel
/// returns to `Idle`.
pub proof fn lemma_only_listed_transitions(s: Status, e: StatusEvent)
    requires
        e == StatusEvent::Sent ==> s != Status::Generating,
    ensures
        allowed(s, next_status(s, e)),
{
}

/// Cancelling twice leaves the adapter as cancelling once does.
pub proof fn lemma_cancel_idempotent(s: Status)
    ensures
        next_status(next_status(s, StatusEvent::Cancelled), StatusEvent::Cancelled) == next_status(
            s,
            StatusEvent::Cancelled,
        ),
{
}

/// One message of the conversation history.
pub struct ChatMessage {
    pub role: String,
    pub content: Option<String>,
    pub lua_code: Option<String>,
    pub lua_timeout_sec: Option<u64>,
    pub tool_call_id: Option<String>,
}

pub open spec fn opt_view(o: Option<String>) -> Option<Seq<char>> {
    match o {
        Some(s) => Some(s@),
        None => None,
    }
}

impl ChatMessage {
    pub fn system(content: &str) -> (r: ChatMessage)
        ensures
            r.role@ == "system"@,
            opt_view(r.content) == Some(content@),
            r.lua_code is None,
            r.lua_timeout_sec is None,
            r.tool_call_id is None,
    {
        ChatMessage {
            role: "system".to_owned(),
            content: Some(content.to_owned()),
            lua_code: None,
            lua_timeout_sec: None,
            tool_call_id: None,
        }
    }

    pub fn user(content: &str) -> (r: ChatMessage)
        ensures
            r.role@ == "user"@,
            opt_view(r.content) == Some(content@),
            r.lua_code is None,
            r.lua_timeout_sec is None,
            r.tool_call_id is None,
    {
        ChatMessage {
            role: "user".to_owned(),
            content: Some(content.to_owned()),
            lua_code: None,
            lua_timeout_sec: None,
            tool_call_id: None,
        }
    }

    pub fn assistant(content: Option<String>, lua_code: Option<String>, tool_call_id: Option<
        String,
    >) -> (r: ChatMessage)
        ensures
            r.role@ == "assistant"@,
            r.content == content,
            r.lua_code == lua_code,
            r.lua_timeout_sec is None,
            r.tool_call_id == tool_call_id,
    {
        ChatMessage {
            role: "assistant".to_owned(),
            content,
            lua_code,
            lua_timeout_sec: None,
            tool_call_id,
        }
    }

    pub fn tool(tool_call_id: &str, content: &str) -> (r: ChatMessage)
        ensures
            r.role@ == "tool"@,
            opt_view(r.content) == Some(content@),
            r.lua_code is None,
            r.lua_timeout_sec is None,
            opt_view(r.tool_call_id) == Some(tool_call_id@),
    {
        ChatMessage {
            role: "tool".to_owned(),
            content: Some(content.to_owned()),
            lua_code: None,
            lua_timeout_sec: None,
            tool_call_id: Some(tool_call_id.to_owned()),
        }
    }
}

} // verus!
