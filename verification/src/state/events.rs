//! Broadcast events. Each variant is one `{type: ...}` message of the wire
//! protocol; the server serialises them for SSE subscribers.

use vstd::prelude::*;

use super::agent::{opt_str, Agent, AgentV};

verus! {

#[derive(Clone, Debug)]
pub enum Event {
    Snapshot { agents: Vec<Agent> },
    Start { agent: Box<Agent> },
    Stop { agent_id: String },
    Visit { agent_id: String, room: Option<String>, until: Option<u64> },
    Tool { agent_id: String, tool_name: String, ts: u64 },
    Reclassify { agent_id: String, permission_mode: String },
    FileTouch { agent_id: String, path: String },
    Prompt { agent_id: String, text: String },
    Idle { agent_id: String, idle: bool },
    TurnEnd { agent_id: String },
    BashResult { agent_id: String, ok: bool },
    ToolError { agent_id: String, tool_name: String, message: String },
}

pub enum EventV {
    Snapshot { agents: Seq<AgentV> },
    Start { agent: AgentV },
    Stop { agent_id: Seq<char> },
    Visit { agent_id: Seq<char>, room: Option<Seq<char>>, until: Option<u64> },
    Tool { agent_id: Seq<char>, tool_name: Seq<char>, ts: u64 },
    Reclassify { agent_id: Seq<char>, permission_mode: Seq<char> },
    FileTouch { agent_id: Seq<char>, path: Seq<char> },
    Prompt { agent_id: Seq<char>, text: Seq<char> },
    Idle { agent_id: Seq<char>, idle: bool },
    TurnEnd { agent_id: Seq<char> },
    BashResult { agent_id: Seq<char>, ok: bool },
    ToolError { agent_id: Seq<char>, tool_name: Seq<char>, message: Seq<char> },
}

/// The views of a sequence of agents.
pub open spec fn agents_view(s: Seq<Agent>) -> Seq<AgentV> {
    s.map_values(|a: Agent| a@)
}

impl View for Event {
    type V = EventV;

    open spec fn view(&self) -> EventV {
        match self {
            Event::Snapshot { agents } => EventV::Snapshot { agents: agents_view(agents@) },
            Event::Start { agent } => EventV::Start { agent: agent@ },
            Event::Stop { agent_id } => EventV::Stop { agent_id: agent_id@ },
            Event::Visit { agent_id, room, until } => EventV::Visit {
                agent_id: agent_id@,
                room: opt_str(*room),
                until: *until,
            },
            Event::Tool { agent_id, tool_name, ts } => EventV::Tool {
                agent_id: agent_id@,
                tool_name: tool_name@,
                ts: *ts,
            },
            Event::Reclassify { agent_id, permission_mode } => EventV::Reclassify {
                agent_id: agent_id@,
                permission_mode: permission_mode@,
            },
            Event::FileTouch { agent_id, path } => EventV::FileTouch {
                agent_id: agent_id@,
                path: path@,
            },
            Event::Prompt { agent_id, text } => EventV::Prompt { agent_id: agent_id@, text: text@ },
            Event::Idle { agent_id, idle } => EventV::Idle { agent_id: agent_id@, idle: *idle },
            Event::TurnEnd { agent_id } => EventV::TurnEnd { agent_id: agent_id@ },
            Event::BashResult { agent_id, ok } => EventV::BashResult {
                agent_id: agent_id@,
                ok: *ok,
            },
            Event::ToolError { agent_id, tool_name, message } => EventV::ToolError {
                agent_id: agent_id@,
                tool_name: tool_name@,
                message: message@,
            },
        }
    }
}

} // verus!
