//! TTL-bounded buffer entries for Agent-tool descriptions, keyed by
//! `(session_id, agent_type)` in the state machine.

use vstd::prelude::*;

use super::agent::opt_str;

verus! {

#[derive(Clone, Debug)]
pub struct PendingDescription {
    pub description: String,
    pub tool_use_id: Option<String>,
    pub ts: u64,
}

pub struct PendingV {
    pub description: Seq<char>,
    pub tool_use_id: Option<Seq<char>>,
    pub ts: u64,
}

impl View for PendingDescription {
    type V = PendingV;

    open spec fn view(&self) -> PendingV {
        PendingV { description: self.description@, tool_use_id: opt_str(self.tool_use_id), ts: self.ts }
    }
}

} // verus!
