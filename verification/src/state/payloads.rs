//! Inputs for every state-mutating method. Optional almost everywhere,
//! because hook payloads vary widely by event kind.

use vstd::prelude::*;

verus! {

#[derive(Clone, Debug, Default)]
pub struct BufferDescription {
    pub session_id: Option<String>,
    pub subagent_type: Option<String>,
    pub description: Option<String>,
    pub tool_use_id: Option<String>,
}

#[derive(Clone, Debug, Default)]
pub struct StartAgent {
    pub agent_id: String,
    pub session_id: Option<String>,
    pub agent_type: Option<String>,
    pub cwd: Option<String>,
    pub user: Option<String>,
    pub host: Option<String>,
    pub permission_mode: Option<String>,
    pub description: Option<String>,
}

#[derive(Clone, Debug, Default)]
pub struct StopAgent {
    pub agent_id: Option<String>,
    pub session_id: Option<String>,
    pub agent_type: Option<String>,
    pub last_assistant_message: Option<String>,
}

#[derive(Clone, Debug, Default)]
pub struct ToolEvent {
    pub agent_id: Option<String>,
    pub session_id: Option<String>,
    pub tool_name: Option<String>,
    pub permission_mode: Option<String>,
}

#[derive(Clone, Debug, Default)]
pub struct VisitRoom {
    pub agent_id: Option<String>,
    pub session_id: Option<String>,
    pub room: Option<String>,
    pub ttl_ms: Option<u64>,
    pub permission_mode: Option<String>,
}

/// Shape of `PreToolUse` payloads. Only the `Agent` tool is acted on.
#[derive(Clone, Debug, Default)]
pub struct Pretool {
    pub session_id: Option<String>,
    pub tool_name: Option<String>,
    pub tool_use_id: Option<String>,
    pub tool_input: PretoolToolInput,
}

#[derive(Clone, Debug, Default)]
pub struct PretoolToolInput {
    pub subagent_type: Option<String>,
    pub description: Option<String>,
}

#[derive(Clone, Debug, Default)]
pub struct Lifecycle {
    pub kind: Option<String>,
    pub agent_id: Option<String>,
    pub session_id: Option<String>,
    pub permission_mode: Option<String>,
    pub text: Option<String>,
    pub message: Option<String>,
    pub path: Option<String>,
    pub ok: Option<bool>,
    pub tool_name: Option<String>,
}

} // verus!
