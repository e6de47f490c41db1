//! Agent records as the state machine stores them, with their spec views.

use vstd::prelude::*;

verus! {

/// Spec view of an optional string.
pub open spec fn opt_str(o: Option<String>) -> Option<Seq<char>> {
    match o {
        Some(s) => Some(s@),
        None => None,
    }
}

/// Clone an optional string, keeping its view.
pub fn clone_opt_str(o: &Option<String>) -> (r: Option<String>)
    ensures
        opt_str(r) == opt_str(*o),
{
    match o {
        Some(s) => Some(s.clone()),
        None => None,
    }
}

/// A temporary room visit: the sim walks to `room` until `until` (ms).
#[derive(Clone, Debug, Default)]
pub struct Visit {
    pub room: String,
    pub until: u64,
}

pub struct VisitV {
    pub room: Seq<char>,
    pub until: u64,
}

impl View for Visit {
    type V = VisitV;

    open spec fn view(&self) -> VisitV {
        VisitV { room: self.room@, until: self.until }
    }
}

/// The last tool error reported for an agent.
#[derive(Clone, Debug, Default)]
pub struct CurrentError {
    pub tool_name: String,
    pub message: String,
    pub ts: u64,
}

pub struct CurrentErrorV {
    pub tool_name: Seq<char>,
    pub message: Seq<char>,
    pub ts: u64,
}

impl View for CurrentError {
    type V = CurrentErrorV;

    open spec fn view(&self) -> CurrentErrorV {
        CurrentErrorV { tool_name: self.tool_name@, message: self.message@, ts: self.ts }
    }
}

pub open spec fn opt_visit(o: Option<Visit>) -> Option<VisitV> {
    match o {
        Some(v) => Some(v@),
        None => None,
    }
}

pub open spec fn opt_error(o: Option<CurrentError>) -> Option<CurrentErrorV> {
    match o {
        Some(e) => Some(e@),
        None => None,
    }
}

/// One active (or recently finished) sim.
#[derive(Clone, Debug, Default)]
pub struct Agent {
    pub agent_id: String,
    pub session_id: Option<String>,
    pub agent_type: String,
    pub description: String,
    pub user: String,
    pub host: String,
    pub cwd: String,
    pub permission_mode: String,
    pub started_at: u64,
    pub finished_at: Option<u64>,
    pub last_message: Option<String>,
    pub visit: Option<Visit>,
    pub session_prompt: Option<String>,
    pub idle: Option<bool>,
    pub current_error: Option<CurrentError>,
    pub session_label: Option<String>,
}

pub struct AgentV {
    pub agent_id: Seq<char>,
    pub session_id: Option<Seq<char>>,
    pub agent_type: Seq<char>,
    pub description: Seq<char>,
    pub user: Seq<char>,
    pub host: Seq<char>,
    pub cwd: Seq<char>,
    pub permission_mode: Seq<char>,
    pub started_at: u64,
    pub finished_at: Option<u64>,
    pub last_message: Option<Seq<char>>,
    pub visit: Option<VisitV>,
    pub session_prompt: Option<Seq<char>>,
    pub idle: Option<bool>,
    pub current_error: Option<CurrentErrorV>,
    pub session_label: Option<Seq<char>>,
}

impl View for Agent {
    type V = AgentV;

    open spec fn view(&self) -> AgentV {
        AgentV {
            agent_id: self.agent_id@,
            session_id: opt_str(self.session_id),
            agent_type: self.agent_type@,
            description: self.description@,
            user: self.user@,
            host: self.host@,
            cwd: self.cwd@,
            permission_mode: self.permission_mode@,
            started_at: self.started_at,
            finished_at: self.finished_at,
            last_message: opt_str(self.last_message),
            visit: opt_visit(self.visit),
            session_prompt: opt_str(self.session_prompt),
            idle: self.idle,
            current_error: opt_error(self.current_error),
            session_label: opt_str(self.session_label),
        }
    }
}

impl Visit {
    /// A copy with the same view.
    pub fn duplicate(&self) -> (r: Visit)
        ensures
            r@ == self@,
    {
        Visit { room: self.room.clone(), until: self.until }
    }
}

impl CurrentError {
    /// A copy with the same view.
    pub fn duplicate(&self) -> (r: CurrentError)
        ensures
            r@ == self@,
    {
        CurrentError {
            tool_name: self.tool_name.clone(),
            message: self.message.clone(),
            ts: self.ts,
        }
    }
}

impl Agent {
    /// A copy with the same view.
    pub fn duplicate(&self) -> (r: Agent)
        ensures
            r@ == self@,
    {
        let visit = match &self.visit {
            Some(v) => Some(v.duplicate()),
            None => None,
        };
        let current_error = match &self.current_error {
            Some(e) => Some(e.duplicate()),
            None => None,
        };
        Agent {
            agent_id: self.agent_id.clone(),
            session_id: clone_opt_str(&self.session_id),
            agent_type: self.agent_type.clone(),
            description: self.description.clone(),
            user: self.user.clone(),
            host: self.host.clone(),
            cwd: self.cwd.clone(),
            permission_mode: self.permission_mode.clone(),
            started_at: self.started_at,
            finished_at: self.finished_at,
            last_message: clone_opt_str(&self.last_message),
            visit,
            session_prompt: clone_opt_str(&self.session_prompt),
            idle: self.idle,
            current_error,
            session_label: clone_opt_str(&self.session_label),
        }
    }
}

} // verus!
