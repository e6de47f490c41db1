//! Mathematical model of the state machine: its abstract state and the
//! transition each operation performs on it.

use vstd::prelude::*;

use super::agent::{opt_str, AgentV, CurrentErrorV, VisitV};
use super::events::EventV;
use super::maps::PendingKeyV;
use super::payloads::{BufferDescription, Lifecycle, StartAgent, StopAgent, ToolEvent, VisitRoom};
use super::pending::PendingV;
use crate::config::Config;
use crate::text::{nonempty_or, or_empty, take_chars};

verus! {

/// Longest prompt text kept on a record and broadcast.
pub const PROMPT_PREVIEW_LEN: usize = 80;

/// Longest tool-error message kept on a record and broadcast.
pub const ERROR_PREVIEW_LEN: usize = 80;

/// Abstract state. Every map is the sequence of its entries in insertion
/// order; `outbox` holds the events emitted and not yet handed out.
pub struct StateV {
    pub agents: Seq<(Seq<char>, AgentV)>,
    pub pending: Seq<(PendingKeyV, PendingV)>,
    pub stops: Seq<(Seq<char>, u64)>,
    pub outbox: Seq<EventV>,
    pub config: Config,
    pub events_total: u64,
    pub labels: Seq<(Seq<char>, char)>,
    pub pool: Seq<char>,
}

// ------------------------------------------------------------ keyed sequences

/// No two entries share a key.
pub open spec fn keys_unique<K, V>(e: Seq<(K, V)>) -> bool {
    forall|i: int, j: int| 0 <= i < e.len() && 0 <= j < e.len() && i != j ==> e[i].0 != e[j].0
}

pub open spec fn has_key<K, V>(e: Seq<(K, V)>, k: K) -> bool {
    exists|i: int| 0 <= i < e.len() && e[i].0 == k
}

/// Position of the entry with key `k` (meaningful when `has_key`).
pub open spec fn key_pos<K, V>(e: Seq<(K, V)>, k: K) -> int {
    choose|i: int| 0 <= i < e.len() && e[i].0 == k
}

/// Insert-or-replace, as an insertion-ordered map does it.
pub open spec fn map_put<K, V>(e: Seq<(K, V)>, k: K, v: V) -> Seq<(K, V)> {
    if has_key(e, k) {
        e.update(key_pos(e, k), (k, v))
    } else {
        e.push((k, v))
    }
}

// ------------------------------------------------------------ words

pub open spec fn word_agent() -> Seq<char> {
    seq!['a', 'g', 'e', 'n', 't']
}

pub open spec fn word_unknown() -> Seq<char> {
    seq!['u', 'n', 'k', 'n', 'o', 'w', 'n']
}

pub open spec fn word_default() -> Seq<char> {
    seq!['d', 'e', 'f', 'a', 'u', 'l', 't']
}

/// Rooms a visit may name: `test`, `meeting`, `desk`.
pub open spec fn valid_room(r: Seq<char>) -> bool {
    r == "test"@ || r == "meeting"@ || r == "desk"@
}

// ------------------------------------------------------------ well-formedness

pub open spec fn wf(s: StateV) -> bool {
    &&& keys_unique(s.agents)
    &&& forall|i: int| 0 <= i < s.agents.len() ==> (#[trigger] s.agents[i]).0 == s.agents[i].1.agent_id
    &&& keys_unique(s.pending)
    &&& keys_unique(s.stops)
    &&& keys_unique(s.labels)
}

// ------------------------------------------------------------ emission

pub open spec fn sat_inc(n: u64) -> u64 {
    if n < u64::MAX {
        (n + 1) as u64
    } else {
        n
    }
}

pub open spec fn sat_sub(a: u64, b: u64) -> u64 {
    if a >= b {
        (a - b) as u64
    } else {
        0
    }
}

/// Broadcast one event: it joins the outbox and the lifetime count grows.
pub open spec fn emit(s: StateV, e: EventV) -> StateV {
    StateV { outbox: s.outbox.push(e), events_total: sat_inc(s.events_total), ..s }
}

pub open spec fn set_agent(s: StateV, i: int, a: AgentV) -> StateV {
    StateV { agents: s.agents.update(i, (s.agents[i].0, a)), ..s }
}

pub open spec fn unfinished(a: AgentV) -> bool {
    a.finished_at is None
}

// ------------------------------------------------------------ buffer_description

pub open spec fn buffered(s: StateV, p: BufferDescription, now: u64) -> StateV {
    if p.subagent_type is None {
        s
    } else {
        let k = (opt_str(p.session_id), opt_str(p.subagent_type));
        let v = PendingV {
            description: or_empty(opt_str(p.description)),
            tool_use_id: opt_str(p.tool_use_id),
            ts: now,
        };
        StateV { pending: map_put(s.pending, k, v), ..s }
    }
}

/// Take the pending description for `k` out of the buffer. An entry older
/// than the pending TTL is removed but yields nothing.
pub open spec fn consumed(s: StateV, k: PendingKeyV, now: u64) -> (StateV, Seq<char>) {
    if !has_key(s.pending, k) {
        (s, Seq::empty())
    } else {
        let i = key_pos(s.pending, k);
        let ent = s.pending[i].1;
        let s2 = StateV { pending: s.pending.remove(i), ..s };
        if sat_sub(now, ent.ts) > s.config.pending_ttl_ms {
            (s2, Seq::empty())
        } else {
            (s2, ent.description)
        }
    }
}

// ------------------------------------------------------------ start_agent

/// Description of a new record: the payload's, else the buffered one, else
/// the agent type, else `agent`.
pub open spec fn start_description(s: StateV, p: StartAgent, now: u64) -> (StateV, Seq<char>) {
    let d = opt_str(p.description);
    if d is Some && d->0.len() > 0 {
        (s, d->0)
    } else {
        let (s2, from_pending) = consumed(s, (opt_str(p.session_id), opt_str(p.agent_type)), now);
        if from_pending.len() > 0 {
            (s2, from_pending)
        } else {
            (s2, nonempty_or(opt_str(p.agent_type), word_agent()))
        }
    }
}

/// Label of a session: the one it already has, else the head of the free
/// pool (none when there is no session id or the pool is empty).
pub open spec fn assign_label(s: StateV, sid: Option<Seq<char>>) -> (StateV, Option<Seq<char>>) {
    match sid {
        None => (s, None),
        Some(x) => if has_key(s.labels, x) {
            (s, Some(seq![s.labels[key_pos(s.labels, x)].1]))
        } else if s.pool.len() == 0 {
            (s, None)
        } else {
            (
                StateV { labels: s.labels.push((x, s.pool[0])), pool: s.pool.drop_first(), ..s },
                Some(seq![s.pool[0]]),
            )
        },
    }
}

pub open spec fn new_record(p: StartAgent, description: Seq<char>, label: Option<Seq<char>>, now: u64) -> AgentV {
    AgentV {
        agent_id: p.agent_id@,
        session_id: opt_str(p.session_id),
        agent_type: nonempty_or(opt_str(p.agent_type), word_agent()),
        description,
        user: nonempty_or(opt_str(p.user), word_unknown()),
        host: or_empty(opt_str(p.host)),
        cwd: or_empty(opt_str(p.cwd)),
        permission_mode: nonempty_or(opt_str(p.permission_mode), word_default()),
        started_at: now,
        finished_at: None,
        last_message: None,
        visit: None,
        session_prompt: None,
        idle: None,
        current_error: None,
        session_label: label,
    }
}

pub open spec fn started(s: StateV, p: StartAgent, now: u64) -> (StateV, Option<AgentV>) {
    if p.agent_id@.len() == 0 {
        (s, None)
    } else if has_key(s.agents, p.agent_id@) {
        (s, Some(s.agents[key_pos(s.agents, p.agent_id@)].1))
    } else {
        let (s1, desc) = start_description(s, p, now);
        let (s2, label) = assign_label(s1, opt_str(p.session_id));
        let rec = new_record(p, desc, label, now);
        let s3 = StateV { agents: s2.agents.push((p.agent_id@, rec)), ..s2 };
        (emit(s3, EventV::Start { agent: rec }), Some(rec))
    }
}

// ------------------------------------------------------------ stop_agent

pub open spec fn fifo_match(a: AgentV, sid: Seq<char>, atype: Seq<char>) -> bool {
    unfinished(a) && a.session_id == Some(sid) && a.agent_type == atype
}

/// The oldest unfinished record of session `sid` with agent type `atype`.
pub open spec fn fifo_pos(e: Seq<(Seq<char>, AgentV)>, sid: Seq<char>, atype: Seq<char>) -> Option<int> {
    if exists|i: int| 0 <= i < e.len() && fifo_match(e[i].1, sid, atype) {
        Some(
            choose|i: int|
                0 <= i < e.len() && fifo_match(e[i].1, sid, atype) && forall|j: int|
                    0 <= j < i ==> !fifo_match(#[trigger] e[j].1, sid, atype),
        )
    } else {
        None
    }
}

/// Which record a stop retires: the one keyed by the payload's agent id,
/// else the oldest unfinished record of the same session and agent type.
pub open spec fn stop_target(e: Seq<(Seq<char>, AgentV)>, p: StopAgent) -> Option<int> {
    if p.agent_id is Some && has_key(e, p.agent_id->0@) {
        Some(key_pos(e, p.agent_id->0@))
    } else if p.session_id is Some && p.agent_type is Some {
        fifo_pos(e, p.session_id->0@, p.agent_type->0@)
    } else {
        None
    }
}

pub open spec fn stopped(s: StateV, p: StopAgent, now: u64) -> (StateV, Option<AgentV>) {
    match stop_target(s.agents, p) {
        None => (s, None),
        Some(i) => {
            let k = s.agents[i].0;
            let a = AgentV {
                finished_at: Some(now),
                last_message: opt_str(p.last_assistant_message),
                ..s.agents[i].1
            };
            let s1 = set_agent(s, i, a);
            let s2 = emit(s1, EventV::Stop { agent_id: k });
            let s3 = StateV { stops: map_put(s2.stops, k, (now + s.config.stop_grace_ms) as u64), ..s2 };
            (s3, Some(a))
        },
    }
}

// ------------------------------------------------------------ record lookup

pub open spec fn session_match(a: AgentV, sid: Seq<char>) -> bool {
    unfinished(a) && a.session_id == Some(sid)
}

/// The oldest unfinished record of session `sid`.
pub open spec fn session_pos(e: Seq<(Seq<char>, AgentV)>, sid: Seq<char>) -> Option<int> {
    if exists|i: int| 0 <= i < e.len() && session_match(e[i].1, sid) {
        Some(
            choose|i: int|
                0 <= i < e.len() && session_match(e[i].1, sid) && forall|j: int|
                    0 <= j < i ==> !session_match(#[trigger] e[j].1, sid),
        )
    } else {
        None
    }
}

/// The live record a hook refers to: by agent id (a finished record there
/// ends the search), else the session's own record (agent id equal to the
/// session id), else the oldest unfinished record of the session.
pub open spec fn find_record(e: Seq<(Seq<char>, AgentV)>, aid: Option<Seq<char>>, sid: Option<Seq<char>>) -> Option<int> {
    if aid is Some && has_key(e, aid->0) {
        if unfinished(e[key_pos(e, aid->0)].1) {
            Some(key_pos(e, aid->0))
        } else {
            None
        }
    } else {
        match sid {
            Some(x) => if has_key(e, x) && unfinished(e[key_pos(e, x)].1) {
                Some(key_pos(e, x))
            } else {
                session_pos(e, x)
            },
            None => None,
        }
    }
}

/// A non-empty incoming permission mode that differs from the record's is
/// stored and broadcast as a reclassification.
pub open spec fn checked_mode(s: StateV, i: int, incoming: Option<Seq<char>>) -> StateV {
    match incoming {
        Some(m) => if m.len() > 0 && s.agents[i].1.permission_mode != m {
            emit(
                set_agent(s, i, AgentV { permission_mode: m, ..s.agents[i].1 }),
                EventV::Reclassify { agent_id: s.agents[i].0, permission_mode: m },
            )
        } else {
            s
        },
        None => s,
    }
}

// ------------------------------------------------------------ tool_event

pub open spec fn tool_target(p: ToolEvent) -> Option<Seq<char>> {
    match p.agent_id {
        Some(a) => Some(a@),
        None => opt_str(p.session_id),
    }
}

pub open spec fn tooled(s: StateV, p: ToolEvent, now: u64) -> StateV {
    let id = tool_target(p);
    let tool = opt_str(p.tool_name);
    if id is Some && id->0.len() > 0 && tool is Some && tool->0.len() > 0 && has_key(s.agents, id->0) {
        let s1 = checked_mode(s, key_pos(s.agents, id->0), opt_str(p.permission_mode));
        emit(s1, EventV::Tool { agent_id: id->0, tool_name: tool->0, ts: now })
    } else {
        s
    }
}

// ------------------------------------------------------------ visit_room

/// Visit length: the payload's positive TTL or the default, clamped into
/// `[visit_min_ms, visit_max_ms]`.
pub open spec fn visit_ttl(t: Option<u64>, c: Config) -> u64 {
    let t0 = match t {
        Some(v) => if v > 0 {
            v
        } else {
            c.visit_default_ms
        },
        None => c.visit_default_ms,
    };
    let t1 = if t0 < c.visit_min_ms {
        c.visit_min_ms
    } else {
        t0
    };
    if t1 > c.visit_max_ms {
        c.visit_max_ms
    } else {
        t1
    }
}

pub open spec fn prior_until(a: AgentV) -> u64 {
    match a.visit {
        Some(v) => v.until,
        None => 0,
    }
}

pub open spec fn max_u64(a: u64, b: u64) -> u64 {
    if a >= b {
        a
    } else {
        b
    }
}

pub open spec fn visited(s: StateV, p: VisitRoom, now: u64) -> (StateV, bool) {
    let room = opt_str(p.room);
    if room is None || !valid_room(room->0) {
        (s, false)
    } else {
        let ttl = visit_ttl(p.ttl_ms, s.config);
        match find_record(s.agents, opt_str(p.agent_id), opt_str(p.session_id)) {
            None => (s, false),
            Some(i) => {
                let s1 = checked_mode(s, i, opt_str(p.permission_mode));
                let a = s1.agents[i].1;
                let until = max_u64(prior_until(a), (now + ttl) as u64);
                let s2 = set_agent(s1, i, AgentV { visit: Some(VisitV { room: room->0, until }), ..a });
                (
                    emit(
                        s2,
                        EventV::Visit { agent_id: s.agents[i].0, room: Some(room->0), until: Some(until) },
                    ),
                    true,
                )
            },
        }
    }
}

// ------------------------------------------------------------ handle_lifecycle

pub open spec fn prompted(s1: StateV, i: int, id: Seq<char>, p: Lifecycle) -> StateV {
    let a = s1.agents[i].1;
    let text = take_chars(or_empty(opt_str(p.text)), PROMPT_PREVIEW_LEN as nat);
    let was_idle = a.idle == Some(true);
    let s2 = set_agent(
        s1,
        i,
        AgentV {
            session_prompt: Some(text),
            idle: if was_idle {
                Some(false)
            } else {
                a.idle
            },
            ..a
        },
    );
    let s3 = if was_idle {
        emit(s2, EventV::Idle { agent_id: id, idle: false })
    } else {
        s2
    };
    emit(s3, EventV::Prompt { agent_id: id, text })
}

pub open spec fn idled(s1: StateV, i: int, id: Seq<char>) -> StateV {
    let a = s1.agents[i].1;
    if a.idle == Some(true) {
        s1
    } else {
        emit(set_agent(s1, i, AgentV { idle: Some(true), ..a }), EventV::Idle { agent_id: id, idle: true })
    }
}

pub open spec fn errored(s1: StateV, i: int, id: Seq<char>, p: Lifecycle, now: u64) -> StateV {
    let a = s1.agents[i].1;
    let message = take_chars(or_empty(opt_str(p.message)), ERROR_PREVIEW_LEN as nat);
    let tool_name = or_empty(opt_str(p.tool_name));
    let s2 = set_agent(s1, i, AgentV { current_error: Some(CurrentErrorV { tool_name, message, ts: now }), ..a });
    emit(s2, EventV::ToolError { agent_id: id, tool_name, message })
}

/// Effect of one lifecycle `kind` on record `i` (keyed `id`), after the
/// permission-mode check.
pub open spec fn lifecycle_kind(s1: StateV, i: int, id: Seq<char>, kind: Seq<char>, p: Lifecycle, now: u64) -> (StateV, bool) {
    if kind == "prompt"@ {
        (prompted(s1, i, id, p), true)
    } else if kind == "idle"@ {
        (idled(s1, i, id), true)
    } else if kind == "turn-end"@ {
        (emit(s1, EventV::TurnEnd { agent_id: id }), true)
    } else if kind == "file-touch"@ {
        match opt_str(p.path) {
            None => (s1, false),
            Some(path) => if path.len() == 0 {
                (s1, true)
            } else {
                (emit(s1, EventV::FileTouch { agent_id: id, path }), true)
            },
        }
    } else if kind == "bash-result"@ {
        let ok = match p.ok {
            Some(b) => b,
            None => false,
        };
        (emit(s1, EventV::BashResult { agent_id: id, ok }), true)
    } else if kind == "tool-error"@ {
        (errored(s1, i, id, p, now), true)
    } else {
        (s1, false)
    }
}

pub open spec fn lifecycled(s: StateV, p: Lifecycle, now: u64) -> (StateV, bool) {
    match opt_str(p.kind) {
        None => (s, false),
        Some(kind) => match find_record(s.agents, opt_str(p.agent_id), opt_str(p.session_id)) {
            None => (s, false),
            Some(i) => lifecycle_kind(
                checked_mode(s, i, opt_str(p.permission_mode)),
                i,
                s.agents[i].0,
                kind,
                p,
                now,
            ),
        },
    }
}

// ------------------------------------------------------------ tick

pub open spec fn visit_expired(a: AgentV, now: u64) -> bool {
    match a.visit {
        Some(v) => now > v.until,
        None => false,
    }
}

pub open spec fn clear_expired(e: (Seq<char>, AgentV), now: u64) -> (Seq<char>, AgentV) {
    if visit_expired(e.1, now) {
        (e.0, AgentV { visit: None, ..e.1 })
    } else {
        e
    }
}

/// The `visit` events with no room that the expiry of visits emits, in
/// record order.
pub open spec fn expiry_events(e: Seq<(Seq<char>, AgentV)>, now: u64) -> Seq<EventV>
    decreases e.len(),
{
    if e.len() == 0 {
        Seq::empty()
    } else {
        let rest = expiry_events(e.drop_last(), now);
        if visit_expired(e.last().1, now) {
            rest.push(EventV::Visit { agent_id: e.last().0, room: None, until: None })
        } else {
            rest
        }
    }
}

pub open spec fn emit_all(s: StateV, evs: Seq<EventV>) -> StateV
    decreases evs.len(),
{
    if evs.len() == 0 {
        s
    } else {
        emit(emit_all(s, evs.drop_last()), evs.last())
    }
}

/// Pending descriptions stamped at or after `cutoff`, in order.
pub open spec fn keep_fresh(e: Seq<(PendingKeyV, PendingV)>, cutoff: u64) -> Seq<(PendingKeyV, PendingV)>
    decreases e.len(),
{
    if e.len() == 0 {
        Seq::empty()
    } else {
        let rest = keep_fresh(e.drop_last(), cutoff);
        if e.last().1.ts >= cutoff {
            rest.push(e.last())
        } else {
            rest
        }
    }
}

/// Ids whose stop deadline has been reached by `now`, in order.
pub open spec fn due_ids(e: Seq<(Seq<char>, u64)>, now: u64) -> Seq<Seq<char>>
    decreases e.len(),
{
    if e.len() == 0 {
        Seq::empty()
    } else {
        let rest = due_ids(e.drop_last(), now);
        if now >= e.last().1 {
            rest.push(e.last().0)
        } else {
            rest
        }
    }
}

pub open spec fn session_in_use(e: Seq<(Seq<char>, AgentV)>, sid: Seq<char>) -> bool {
    exists|i: int| 0 <= i < e.len() && (#[trigger] e[i]).1.session_id == Some(sid)
}

/// Return a session's label to the tail of the pool once no record of the
/// session remains.
pub open spec fn released(s: StateV, sid: Seq<char>) -> StateV {
    if session_in_use(s.agents, sid) {
        s
    } else if has_key(s.labels, sid) {
        let j = key_pos(s.labels, sid);
        StateV { labels: s.labels.remove(j), pool: s.pool.push(s.labels[j].1), ..s }
    } else {
        s
    }
}

/// Finalise one stop: drop the deadline and the record, then release the
/// record's session label if it was the session's last record.
pub open spec fn finalized(s: StateV, id: Seq<char>) -> StateV {
    let s1 = if has_key(s.stops, id) {
        StateV { stops: s.stops.remove(key_pos(s.stops, id)), ..s }
    } else {
        s
    };
    if has_key(s1.agents, id) {
        let i = key_pos(s1.agents, id);
        let a = s1.agents[i].1;
        let s2 = StateV { agents: s1.agents.remove(i), ..s1 };
        match a.session_id {
            Some(sid) => released(s2, sid),
            None => s2,
        }
    } else {
        s1
    }
}

pub open spec fn finalize_all(s: StateV, ids: Seq<Seq<char>>) -> StateV
    decreases ids.len(),
{
    if ids.len() == 0 {
        s
    } else {
        finalized(finalize_all(s, ids.drop_last()), ids.last())
    }
}

/// One tick: expire visits (emitting `visit` with no room), sweep stale
/// pending descriptions, finalise stops whose grace has run out.
pub open spec fn ticked(s: StateV, now: u64) -> StateV {
    let s1 = StateV { agents: s.agents.map_values(|e: (Seq<char>, AgentV)| clear_expired(e, now)), ..s };
    let s2 = emit_all(s1, expiry_events(s.agents, now));
    let cutoff = sat_sub(now, s.config.pending_ttl_ms);
    let s3 = StateV { pending: keep_fresh(s2.pending, cutoff), ..s2 };
    finalize_all(s3, due_ids(s3.stops, now))
}

// ------------------------------------------------------------ queries

/// Records that have not been stopped, in insertion order.
pub open spec fn active(e: Seq<(Seq<char>, AgentV)>) -> Seq<AgentV>
    decreases e.len(),
{
    if e.len() == 0 {
        Seq::empty()
    } else {
        let rest = active(e.drop_last());
        if unfinished(e.last().1) {
            rest.push(e.last().1)
        } else {
            rest
        }
    }
}

pub open spec fn all_records(e: Seq<(Seq<char>, AgentV)>) -> Seq<AgentV> {
    e.map_values(|x: (Seq<char>, AgentV)| x.1)
}

} // verus!
