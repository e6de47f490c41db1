//! Properties of the state machine that span operations, proved over the
//! model that every operation's contract is stated in.

use vstd::prelude::*;

use super::agent::{opt_str, AgentV};
use super::events::EventV;
use super::model::{
    lifecycled, lifecycle_kind, tooled,
    assign_label, checked_mode, emit, find_record, has_key, idled, key_pos, keys_unique,
    session_match, session_pos, set_agent, start_description, started, stopped, unfinished,
    visit_ttl, visited, wf, StateV, prior_until, stop_target, fifo_pos, fifo_match,
};
use super::payloads::{Lifecycle, StartAgent, StopAgent, ToolEvent, VisitRoom};
use crate::config::Config;
use crate::text::{or_empty, take_chars};
use super::agent::CurrentErrorV;

verus! {

proof fn lemma_pos<K, V>(e: Seq<(K, V)>, i: int)
    requires
        keys_unique(e),
        0 <= i < e.len(),
    ensures
        has_key(e, e[i].0),
        key_pos(e, e[i].0) == i,
{
    assert(e[i].0 == e[i].0);
}

proof fn lemma_session_min(e: Seq<(Seq<char>, AgentV)>, x: Seq<char>, k: int)
    requires
        0 <= k < e.len(),
        session_match(e[k].1, x),
    ensures
        exists|i: int|
            0 <= i < e.len() && session_match(e[i].1, x) && forall|j: int|
                0 <= j < i ==> !session_match(#[trigger] e[j].1, x),
    decreases k,
{
    if exists|j: int| 0 <= j < k && session_match(e[j].1, x) {
        let j = choose|j: int| 0 <= j < k && session_match(e[j].1, x);
        lemma_session_min(e, x, j);
    } else {
        assert(forall|j: int| 0 <= j < k ==> !session_match(#[trigger] e[j].1, x));
    }
}

/// `session_pos` names a matching record when it names one at all.
pub proof fn lemma_session_pos_valid(e: Seq<(Seq<char>, AgentV)>, x: Seq<char>)
    ensures
        session_pos(e, x) matches Some(i) ==> 0 <= i < e.len() && session_match(e[i].1, x),
{
    if exists|i: int| 0 <= i < e.len() && session_match(e[i].1, x) {
        let k = choose|i: int| 0 <= i < e.len() && session_match(e[i].1, x);
        lemma_session_min(e, x, k);
    }
}

proof fn lemma_fifo_min(e: Seq<(Seq<char>, AgentV)>, x: Seq<char>, t: Seq<char>, k: int)
    requires
        0 <= k < e.len(),
        fifo_match(e[k].1, x, t),
    ensures
        exists|i: int|
            0 <= i < e.len() && fifo_match(e[i].1, x, t) && forall|j: int|
                0 <= j < i ==> !fifo_match(#[trigger] e[j].1, x, t),
    decreases k,
{
    if exists|j: int| 0 <= j < k && fifo_match(e[j].1, x, t) {
        let j = choose|j: int| 0 <= j < k && fifo_match(e[j].1, x, t);
        lemma_fifo_min(e, x, t, j);
    } else {
        assert(forall|j: int| 0 <= j < k ==> !fifo_match(#[trigger] e[j].1, x, t));
    }
}

/// `fifo_pos` names a matching record when it names one at all.
pub proof fn lemma_fifo_pos_valid(e: Seq<(Seq<char>, AgentV)>, x: Seq<char>, t: Seq<char>)
    ensures
        fifo_pos(e, x, t) matches Some(i) ==> 0 <= i < e.len() && fifo_match(e[i].1, x, t),
{
    if exists|i: int| 0 <= i < e.len() && fifo_match(e[i].1, x, t) {
        let k = choose|i: int| 0 <= i < e.len() && fifo_match(e[i].1, x, t);
        lemma_fifo_min(e, x, t, k);
    }
}

/// Starting an agent twice is the same as starting it once: the second
/// call returns the first record and changes nothing, not even the outbox.
pub proof fn law_start_idempotent(s: StateV, p: StartAgent, now1: u64, now2: u64)
    requires
        wf(s),
    ensures
        started(started(s, p, now1).0, p, now2).0 == started(s, p, now1).0,
        started(started(s, p, now1).0, p, now2).1 == started(s, p, now1).1,
{
    let (s1, r1) = started(s, p, now1);
    if p.agent_id@.len() == 0 {
    } else if has_key(s.agents, p.agent_id@) {
    } else {
        let (sa, desc) = start_description(s, p, now1);
        let (sb, label) = assign_label(sa, opt_str(p.session_id));
        assert(sb.agents == s.agents);
        let e = s1.agents;
        assert(e == s.agents.push((p.agent_id@, r1->0)));
        assert(keys_unique(e)) by {
            assert forall|a: int, b: int| 0 <= a < e.len() && 0 <= b < e.len() && a != b implies e[a].0 != e[b].0 by {
                if a < s.agents.len() && b < s.agents.len() {
                } else if a < s.agents.len() {
                    assert(e[a] == s.agents[a]);
                } else {
                    assert(e[b] == s.agents[b]);
                }
            }
        }
        lemma_pos(e, e.len() - 1);
    }
}

/// The record a hook resolves to is never a stopped one.
pub proof fn law_find_record_is_live(e: Seq<(Seq<char>, AgentV)>, aid: Option<Seq<char>>, sid: Option<Seq<char>>)
    ensures
        find_record(e, aid, sid) matches Some(i) ==> 0 <= i < e.len() && unfinished(e[i].1),
{
    if aid is Some && has_key(e, aid->0) {
    } else if let Some(x) = sid {
        lemma_session_pos_valid(e, x);
    }
}

/// Stopping retires a live or keyed record: the returned record is the
/// one now stored, stamped with the stop time.
pub proof fn law_stop_stamps_record(s: StateV, p: StopAgent, now: u64)
    requires
        wf(s),
    ensures
        stopped(s, p, now).1 matches Some(a) ==> a.finished_at == Some(now) && exists|i: int|
            0 <= i < stopped(s, p, now).0.agents.len() && stopped(s, p, now).0.agents[i].1 == a,
{
    if p.session_id is Some && p.agent_type is Some {
        lemma_fifo_pos_valid(s.agents, p.session_id->0@, p.agent_type->0@);
    }
    if let Some(i) = stop_target(s.agents, p) {
        assert(0 <= i < s.agents.len());
        let s2 = stopped(s, p, now).0;
        assert(s2.agents[i].1 == stopped(s, p, now).1->0);
    }
}

/// The visit length always lies between the configured minimum and
/// maximum when the minimum does not exceed the maximum.
pub proof fn law_visit_ttl_clamped(t: Option<u64>, c: Config)
    requires
        c.visit_min_ms <= c.visit_max_ms,
    ensures
        c.visit_min_ms <= visit_ttl(t, c) <= c.visit_max_ms,
{
}

/// A visit never shortens an earlier one: the new deadline is at least the
/// previous deadline and at least `now` plus the clamped TTL.
pub proof fn law_visit_extends(s: StateV, p: VisitRoom, now: u64)
    requires
        wf(s),
        now + s.config.visit_max_ms <= u64::MAX,
    ensures
        visited(s, p, now).1 ==> ({
            let i = find_record(s.agents, opt_str(p.agent_id), opt_str(p.session_id))->0;
            let v = visited(s, p, now).0.agents[i].1.visit->0;
            &&& v.until >= prior_until(s.agents[i].1)
            &&& v.until >= now + visit_ttl(p.ttl_ms, s.config)
        }),
{
    if visited(s, p, now).1 {
        let i = find_record(s.agents, opt_str(p.agent_id), opt_str(p.session_id))->0;
        law_find_record_is_live(s.agents, opt_str(p.agent_id), opt_str(p.session_id));
        let s1 = checked_mode(s, i, opt_str(p.permission_mode));
        assert(s1.agents[i].1.visit == s.agents[i].1.visit);
    }
}

/// Marking a record idle twice is the same as marking it once.
pub proof fn law_idle_idempotent(s: StateV, i: int, id: Seq<char>)
    requires
        0 <= i < s.agents.len(),
    ensures
        idled(idled(s, i, id), i, id) == idled(s, i, id),
{
}

/// A permission mode equal to the stored one changes nothing and emits
/// nothing.
pub proof fn law_same_mode_is_silent(s: StateV, i: int)
    requires
        0 <= i < s.agents.len(),
    ensures
        checked_mode(s, i, Some(s.agents[i].1.permission_mode)) == s,
{
}

/// Two records of one session started back to back carry the same label.
pub proof fn law_session_label_shared(s: StateV, p: StartAgent, q: StartAgent, now: u64)
    requires
        wf(s),
        p.session_id is Some,
        opt_str(q.session_id) == opt_str(p.session_id),
        p.agent_id@.len() > 0,
        q.agent_id@.len() > 0,
        p.agent_id@ != q.agent_id@,
        !has_key(s.agents, p.agent_id@),
        !has_key(s.agents, q.agent_id@),
    ensures
        started(s, p, now).1->0.session_label == started(started(s, p, now).0, q, now).1->0.session_label,
{
    let sid = opt_str(p.session_id)->0;
    let (sa, _) = start_description(s, p, now);
    assert(sa.labels == s.labels && sa.pool == s.pool);
    let (sb, l1) = assign_label(sa, Some(sid));
    let s1 = started(s, p, now).0;
    assert(s1.labels == sb.labels);
    let (sc, _) = start_description(s1, q, now);
    assert(sc.labels == s1.labels);
    assert(!has_key(s1.agents, q.agent_id@)) by {
        assert(s1.agents == s.agents.push((p.agent_id@, started(s, p, now).1->0)));
        if has_key(s1.agents, q.agent_id@) {
            let j = choose|j: int| 0 <= j < s1.agents.len() && s1.agents[j].0 == q.agent_id@;
            if j < s.agents.len() {
                assert(s1.agents[j] == s.agents[j]);
            }
        }
    }
    if has_key(sa.labels, sid) {
    } else if sa.pool.len() == 0 {
        assert(!has_key(sb.labels, sid));
    } else {
        let e = sb.labels;
        assert(e == sa.labels.push((sid, sa.pool[0])));
        assert(keys_unique(e)) by {
            assert forall|a: int, b: int| 0 <= a < e.len() && 0 <= b < e.len() && a != b implies e[a].0 != e[b].0 by {
                if a < sa.labels.len() && b < sa.labels.len() {
                } else if a < sa.labels.len() {
                    assert(e[a] == sa.labels[a]);
                } else {
                    assert(e[b] == sa.labels[b]);
                }
            }
        }
        lemma_pos(e, e.len() - 1);
    }
}

/// A bash-result hook on a live record succeeds and broadcasts, last, one
/// `BashResult` for that record whose `ok` is true exactly when the payload
/// says `ok: true`, and false when it says `false` or nothing. Without a permission mode to reconcile it is the only event.
pub proof fn law_bash_result_reports_outcome(s: StateV, p: Lifecycle, now: u64)
    requires
        wf(s),
        opt_str(p.kind) == Some("bash-result"@),
        find_record(s.agents, opt_str(p.agent_id), opt_str(p.session_id)) is Some,
    ensures
        ({
            let i = find_record(s.agents, opt_str(p.agent_id), opt_str(p.session_id))->0;
            let (s2, ok) = lifecycled(s, p, now);
            let ev = EventV::BashResult { agent_id: s.agents[i].1.agent_id, ok: p.ok == Some(true) };
            &&& ok
            &&& s2.outbox.len() > 0
            &&& s2.outbox.last() == ev
            &&& p.permission_mode is None ==> s2.outbox == s.outbox.push(ev)
            &&& p.agent_id is Some && has_key(s.agents, opt_str(p.agent_id)->0) ==> s.agents[i].1.agent_id == opt_str(p.agent_id)->0
        }),
{
    reveal_strlit("bash-result");
    reveal_strlit("prompt");
    reveal_strlit("idle");
    reveal_strlit("turn-end");
    reveal_strlit("file-touch");
    law_find_record_is_live(s.agents, opt_str(p.agent_id), opt_str(p.session_id));
    let i = find_record(s.agents, opt_str(p.agent_id), opt_str(p.session_id))->0;
    assert(s.agents[i].0 == s.agents[i].1.agent_id);
    let kind = opt_str(p.kind)->0;
    assert(kind.len() == 11 && "prompt"@.len() == 6 && "idle"@.len() == 4 && "turn-end"@.len() == 8
        && "file-touch"@.len() == 10);
    assert(kind != "prompt"@ && kind != "idle"@ && kind != "turn-end"@ && kind != "file-touch"@);
    let s1 = checked_mode(s, i, opt_str(p.permission_mode));
    let ev = EventV::BashResult { agent_id: s.agents[i].1.agent_id, ok: p.ok == Some(true) };
    assert(lifecycled(s, p, now) == lifecycle_kind(s1, i, s.agents[i].0, kind, p, now));
    assert(lifecycled(s, p, now) == (emit(s1, ev), true));
    if let Some(a) = p.agent_id {
        if has_key(s.agents, a@) {
            let k = key_pos(s.agents, a@);
            assert(s.agents[k].0 == a@);
        }
    }
}

/// A tool call of a known agent is broadcast, last, as a `Tool` event for
/// the agent it names and the tool it names, stamped `now`: the agent id
/// decides whatever session id comes with it, and the session id stands in
/// only when no agent id is given. Without a permission mode to reconcile
/// it is the only event.
pub proof fn law_tool_event_names_agent(s: StateV, p: ToolEvent, now: u64)
    requires
        wf(s),
        opt_str(p.tool_name) matches Some(t) && t.len() > 0,
        ({
            let id = if p.agent_id is Some {
                opt_str(p.agent_id)
            } else {
                opt_str(p.session_id)
            };
            id matches Some(x) && x.len() > 0 && has_key(s.agents, x)
        }),
    ensures
        ({
            let id = if p.agent_id is Some {
                opt_str(p.agent_id)->0
            } else {
                opt_str(p.session_id)->0
            };
            let ev = EventV::Tool { agent_id: id, tool_name: opt_str(p.tool_name)->0, ts: now };
            let s2 = tooled(s, p, now);
            &&& s2.outbox.len() > 0
            &&& s2.outbox.last() == ev
            &&& p.permission_mode is None ==> s2.outbox == s.outbox.push(ev)
        }),
{
}

/// What each lifecycle hook does to a live record when no permission mode
/// comes with it: `turn-end` broadcasts `TurnEnd`; `file-touch` broadcasts
/// the touched path, accepts an empty one silently and refuses a missing
/// one; `prompt` stores and broadcasts the first 80 characters of the text,
/// waking an idle record first; `idle` marks the record idle once;
/// `tool-error` stores and broadcasts the tool and the first 80 characters
/// of the message. Any other kind is refused and changes nothing, as is a
/// hook that names no kind or no live record.
pub proof fn law_lifecycle_hooks(s: StateV, p: Lifecycle, now: u64)
    requires
        wf(s),
        p.permission_mode is None,
    ensures
        ({
            let f = find_record(s.agents, opt_str(p.agent_id), opt_str(p.session_id));
            let (s2, ok) = lifecycled(s, p, now);
            let k = opt_str(p.kind);
            &&& (k is None || f is None) ==> !ok && s2 == s
            &&& (k is Some && f is Some) ==> {
                let i = f->0;
                let a = s.agents[i].1;
                let id = a.agent_id;
                let kind = k->0;
                &&& kind == "turn-end"@ ==> ok && s2 == emit(s, EventV::TurnEnd { agent_id: id })
                &&& kind == "file-touch"@ ==> match opt_str(p.path) {
                    None => !ok && s2 == s,
                    Some(path) => ok && s2 == if path.len() == 0 {
                        s
                    } else {
                        emit(s, EventV::FileTouch { agent_id: id, path })
                    },
                }
                &&& kind == "prompt"@ ==> {
                    let text = take_chars(or_empty(opt_str(p.text)), 80);
                    &&& ok
                    &&& s2.agents[i].1.session_prompt == Some(text)
                    &&& s2.agents[i].1.idle == (if a.idle == Some(true) { Some(false) } else { a.idle })
                    &&& s2.outbox == if a.idle == Some(true) {
                        s.outbox.push(EventV::Idle { agent_id: id, idle: false }).push(EventV::Prompt { agent_id: id, text })
                    } else {
                        s.outbox.push(EventV::Prompt { agent_id: id, text })
                    }
                }
                &&& kind == "idle"@ ==> ok && s2.agents[i].1.idle == Some(true) && s2.outbox == if a.idle == Some(true) {
                    s.outbox
                } else {
                    s.outbox.push(EventV::Idle { agent_id: id, idle: true })
                }
                &&& kind == "tool-error"@ ==> {
                    let message = take_chars(or_empty(opt_str(p.message)), 80);
                    let tool_name = or_empty(opt_str(p.tool_name));
                    &&& ok
                    &&& s2.agents[i].1.current_error == Some(CurrentErrorV { tool_name, message, ts: now })
                    &&& s2.outbox == s.outbox.push(EventV::ToolError { agent_id: id, tool_name, message })
                }
                &&& (kind != "turn-end"@ && kind != "file-touch"@ && kind != "prompt"@ && kind != "idle"@
                    && kind != "tool-error"@ && kind != "bash-result"@) ==> !ok && s2 == s
            }
        }),
{
    reveal_strlit("bash-result");
    reveal_strlit("prompt");
    reveal_strlit("idle");
    reveal_strlit("turn-end");
    reveal_strlit("file-touch");
    reveal_strlit("tool-error");
    law_find_record_is_live(s.agents, opt_str(p.agent_id), opt_str(p.session_id));
    let f = find_record(s.agents, opt_str(p.agent_id), opt_str(p.session_id));
    if let Some(i) = f {
        assert(s.agents[i].0 == s.agents[i].1.agent_id);
        assert(checked_mode(s, i, opt_str(p.permission_mode)) == s);
        if let Some(kind) = opt_str(p.kind) {
            assert("prompt"@.len() == 6 && "idle"@.len() == 4 && "turn-end"@.len() == 8
                && "file-touch"@.len() == 10 && "tool-error"@.len() == 10 && "bash-result"@.len() == 11);
            assert("file-touch"@[0] == 'f' && "tool-error"@[0] == 't');
        }
    }
}

} // verus!
