//! In-memory state machine for hook events.
//!
//! Time is injected: every method that needs "now" takes `now_ms`. Events
//! are collected in an outbox that the server drains after each call and
//! broadcasts to subscribers.

pub mod agent;
pub mod demo;
pub mod events;
pub mod history;
pub mod maps;
pub mod laws;
pub mod model;
pub mod payloads;
pub mod pending;

use vstd::prelude::*;
use vstd::string::StringExecFns;

use std::collections::VecDeque;

use indexmap::IndexMap;

pub use agent::{Agent, CurrentError, Visit};
pub use events::Event;
pub use payloads::{
    BufferDescription, Lifecycle, Pretool, PretoolToolInput, StartAgent, StopAgent, ToolEvent,
    VisitRoom,
};

pub use history::{history_cutoff, recorded, stale_front, trimmed, EVENT_HISTORY_CAP, EVENT_HISTORY_MS};

use crate::config::Config;
use crate::text::{str_eq, truncate_chars};
use agent::{clone_opt_str, opt_str, AgentV};
use events::{agents_view, EventV};
use maps::{
    agent_entries, agents_get, agents_index_of, agents_insert, agents_len, agents_new,
    agents_set, agents_shift_remove, pending_entries, pending_get, pending_index_of,
    pending_insert, pending_len, pending_new, pending_shift_remove, pkey, stop_entries,
    stops_get, stops_index_of, stops_insert, stops_len, stops_new, stops_shift_remove,
    PendingKey, PendingKeyV,
};
use model::{
    assign_label, buffered, checked_mode, consumed, emit, emit_all, fifo_match, fifo_pos,
    find_record, has_key, key_pos, keys_unique, lifecycled, map_put, released, session_in_use,
    session_match, session_pos, set_agent, started, stopped, tooled, visited, ticked, wf,
    StateV, active, all_records, prompted, idled, errored, lifecycle_kind, clear_expired, due_ids, expiry_events, finalize_all,
    finalized, keep_fresh, unfinished, visit_expired, word_agent, word_default, word_unknown,
    new_record, start_description, stop_target, tool_target, visit_ttl, prior_until, max_u64,
    sat_sub, valid_room, PROMPT_PREVIEW_LEN, ERROR_PREVIEW_LEN,
};
use pending::{PendingDescription, PendingV};

verus! {

/// Start of the one-minute window that ends at `now`.
pub open spec fn minute_cutoff(now: u64) -> u64 {
    if now >= 60_000 {
        (now - 60_000) as u64
    } else {
        0
    }
}

/// Session labels, handed out in this order. `I` and `O` are left out so
/// `1`/`I` and `0`/`O` cannot be confused on a low-resolution screen.
pub open spec fn label_pool() -> Seq<char> {
    seq![
        '1', '2', '3', '4', '5', '6', '7', '8', '9', 'A', 'B', 'C', 'D', 'E', 'F', 'G', 'H', 'J', 'K',
        'L', 'M', 'N', 'P', 'Q', 'R', 'S', 'T', 'U', 'V', 'W', 'X', 'Y', 'Z',
    ]
}

pub struct State {
    active_agents: IndexMap<String, Agent>,
    pending_descriptions: IndexMap<PendingKey, PendingDescription>,
    pending_stops: IndexMap<String, u64>,
    outbox: Vec<Event>,
    config: Config,
    events_total: u64,
    recent_event_ts: VecDeque<u64>,
    session_labels: Vec<(String, char)>,
    label_free_pool: VecDeque<char>,
}

pub open spec fn events_view(s: Seq<Event>) -> Seq<EventV> {
    s.map_values(|e: Event| e@)
}

pub open spec fn labels_view(s: Seq<(String, char)>) -> Seq<(Seq<char>, char)> {
    s.map_values(|p: (String, char)| (p.0@, p.1))
}

/// `Some(a)`'s view, for optional records.
pub open spec fn opt_agent(o: Option<Agent>) -> Option<AgentV> {
    match o {
        Some(a) => Some(a@),
        None => None,
    }
}

impl View for State {
    type V = StateV;

    closed spec fn view(&self) -> StateV {
        StateV {
            agents: agent_entries(self.active_agents),
            pending: pending_entries(self.pending_descriptions),
            stops: stop_entries(self.pending_stops),
            outbox: events_view(self.outbox@),
            config: self.config,
            events_total: self.events_total,
            labels: labels_view(self.session_labels@),
            pool: self.label_free_pool@,
        }
    }
}

// ------------------------------------------------------------ lemmas

proof fn lemma_key_pos<K, V>(e: Seq<(K, V)>, i: int)
    requires
        keys_unique(e),
        0 <= i < e.len(),
    ensures
        has_key(e, e[i].0),
        key_pos(e, e[i].0) == i,
{
    assert(e[i].0 == e[i].0);
}

proof fn lemma_unique_remove<K, V>(e: Seq<(K, V)>, i: int)
    requires
        keys_unique(e),
        0 <= i < e.len(),
    ensures
        keys_unique(e.remove(i)),
{
    e.remove_ensures(i);
    let r = e.remove(i);
    assert forall|a: int, b: int| 0 <= a < r.len() && 0 <= b < r.len() && a != b implies r[a].0 != r[b].0 by {
        let a2 = if a < i { a } else { a + 1 };
        let b2 = if b < i { b } else { b + 1 };
        assert(r[a] == e[a2]);
        assert(r[b] == e[b2]);
    }
}

proof fn lemma_unique_update<K, V>(e: Seq<(K, V)>, i: int, v: V)
    requires
        keys_unique(e),
        0 <= i < e.len(),
    ensures
        keys_unique(e.update(i, (e[i].0, v))),
{
    let r = e.update(i, (e[i].0, v));
    assert forall|a: int, b: int| 0 <= a < r.len() && 0 <= b < r.len() && a != b implies r[a].0 != r[b].0 by {
        assert(r[a].0 == e[a].0);
        assert(r[b].0 == e[b].0);
    }
}

proof fn lemma_unique_push<K, V>(e: Seq<(K, V)>, k: K, v: V)
    requires
        keys_unique(e),
        !has_key(e, k),
    ensures
        keys_unique(e.push((k, v))),
{
    let r = e.push((k, v));
    assert forall|a: int, b: int| 0 <= a < r.len() && 0 <= b < r.len() && a != b implies r[a].0 != r[b].0 by {
        if a < e.len() && b < e.len() {
            assert(r[a] == e[a]);
            assert(r[b] == e[b]);
        } else if a < e.len() {
            assert(r[a] == e[a]);
        } else {
            assert(r[b] == e[b]);
        }
    }
}

proof fn lemma_map_put<K, V>(e: Seq<(K, V)>, e2: Seq<(K, V)>, k: K, v: V)
    requires
        keys_unique(e),
        has_key(e, k) ==> exists|i: int| 0 <= i < e.len() && e[i].0 == k && e2 == e.update(i, (k, v)),
        !has_key(e, k) ==> e2 == e.push((k, v)),
    ensures
        e2 == map_put(e, k, v),
        keys_unique(e2),
{
    if has_key(e, k) {
        let i = choose|i: int| 0 <= i < e.len() && e[i].0 == k && e2 == e.update(i, (k, v));
        lemma_key_pos(e, i);
        lemma_unique_update(e, i, v);
    } else {
        lemma_unique_push(e, k, v);
    }
}

proof fn lemma_emit_all_fields(s: StateV, evs: Seq<EventV>)
    ensures
        emit_all(s, evs) == (StateV {
            outbox: emit_all(s, evs).outbox,
            events_total: emit_all(s, evs).events_total,
            ..s
        }),
    decreases evs.len(),
{
    if evs.len() > 0 {
        lemma_emit_all_fields(s, evs.drop_last());
    }
}

/// Emitting the same events from two states that differ only away from
/// the outbox and the count gives the same outbox and count.
proof fn lemma_emit_all_same(s: StateV, t: StateV, evs: Seq<EventV>)
    requires
        s.outbox == t.outbox,
        s.events_total == t.events_total,
    ensures
        emit_all(s, evs).outbox == emit_all(t, evs).outbox,
        emit_all(s, evs).events_total == emit_all(t, evs).events_total,
    decreases evs.len(),
{
    if evs.len() > 0 {
        lemma_emit_all_same(s, t, evs.drop_last());
    }
}

// ------------------------------------------------------------ helpers

/// `ToString::to_string` on a `char`: the one-character string.
#[verifier::external_body]
fn char_string(c: char) -> (r: String)
    ensures
        r@ == seq![c],
{
    c.to_string()
}

fn word_agent_string() -> (r: String)
    ensures
        r@ == word_agent(),
{
    let r = String::from_str("agent");
    proof {
        reveal_strlit("agent");
        assert(r@ =~= word_agent());
    }
    r
}

fn word_unknown_string() -> (r: String)
    ensures
        r@ == word_unknown(),
{
    let r = String::from_str("unknown");
    proof {
        reveal_strlit("unknown");
        assert(r@ =~= word_unknown());
    }
    r
}

fn word_default_string() -> (r: String)
    ensures
        r@ == word_default(),
{
    let r = String::from_str("default");
    proof {
        reveal_strlit("default");
        assert(r@ =~= word_default());
    }
    r
}

/// How long a visit lasts (see `visit_ttl`): the requested TTL, or the
/// default when none or zero is asked, clamped into the configured range.
pub fn visit_ttl_ms(ttl_ms: Option<u64>, c: &Config) -> (r: u64)
    ensures
        r == visit_ttl(ttl_ms, *c),
{
    let t0 = match ttl_ms {
        Some(v) if v > 0 => v,
        _ => c.visit_default_ms,
    };
    let t1 = if t0 < c.visit_min_ms { c.visit_min_ms } else { t0 };
    if t1 > c.visit_max_ms { c.visit_max_ms } else { t1 }
}

/// Whether an optional string holds exactly `s`.
fn opt_is(o: &Option<String>, s: &str) -> (r: bool)
    ensures
        r == (opt_str(*o) == Some(s@)),
{
    match o {
        Some(x) => str_eq(x.as_str(), s),
        None => false,
    }
}

broadcast use history::lemma_recorded_compose;

impl State {
    /// From `s0` to `s1` at `now_ms`, the outbox only grew, and the rate
    /// history recorded one timestamp `now_ms` for each event that entered
    /// it.
    pub open spec fn logged(s0: State, s1: State, now_ms: u64) -> bool {
        &&& s0@.outbox.len() <= s1@.outbox.len()
        &&& s1.recent() == recorded(s0.recent(), now_ms, (s1@.outbox.len() - s0@.outbox.len()) as nat)
    }
}

impl State {
    /// The invariant every operation keeps: keys of each map are unique and
    /// every record is stored under its own agent id.
    pub closed spec fn inv(&self) -> bool {
        wf(self@)
    }

    /// Event timestamps kept for the rate readout, oldest first.
    pub closed spec fn recent(&self) -> Seq<u64> {
        self.recent_event_ts@
    }

    /// A fresh state with no records, an empty outbox and the full label pool.
    pub fn new(config: Config) -> (r: State)
        ensures
            r.inv(),
            r@ == (StateV {
                agents: Seq::empty(),
                pending: Seq::empty(),
                stops: Seq::empty(),
                outbox: Seq::empty(),
                config,
                events_total: 0,
                labels: Seq::empty(),
                pool: label_pool(),
            }),
    {
        let chars: [char; 33] = [
            '1', '2', '3', '4', '5', '6', '7', '8', '9', 'A', 'B', 'C', 'D', 'E', 'F', 'G', 'H', 'J',
            'K', 'L', 'M', 'N', 'P', 'Q', 'R', 'S', 'T', 'U', 'V', 'W', 'X', 'Y', 'Z',
        ];
        let mut pool: VecDeque<char> = VecDeque::new();
        let mut i: usize = 0;
        while i < 33
            invariant
                i <= 33,
                chars@.len() == 33,
                pool@ == chars@.take(i as int),
            decreases 33 - i,
        {
            pool.push_back(chars[i]);
            proof {
                assert(chars@.take(i as int + 1) =~= chars@.take(i as int).push(chars@[i as int]));
            }
            i = i + 1;
        }
        proof {
            assert(chars@.take(33) =~= chars@);
            assert(chars@ =~= label_pool());
        }
        let s = State {
            active_agents: agents_new(),
            pending_descriptions: pending_new(),
            pending_stops: stops_new(),
            outbox: Vec::new(),
            config,
            events_total: 0,
            recent_event_ts: VecDeque::new(),
            session_labels: Vec::new(),
            label_free_pool: pool,
        };
        proof {
            assert(events_view(s.outbox@) =~= Seq::<EventV>::empty());
            assert(labels_view(s.session_labels@) =~= Seq::<(Seq<char>, char)>::empty());
        }
        s
    }

    /// The live configuration.
    pub fn config(&self) -> (r: Config)
        ensures
            r == self@.config,
    {
        self.config
    }

    /// Replace the live configuration; nothing else changes.
    pub fn set_config(&mut self, config: Config)
        requires
            old(self).inv(),
        ensures
            final(self).recent() == old(self).recent(),
            final(self)@.outbox.len() == old(self)@.outbox.len(),
            final(self).inv(),
            final(self)@ == (StateV { config, ..old(self)@ }),
    {
        self.config = config;
    }

    /// Hand out the events emitted since the last call, oldest first.
    pub fn take_events(&mut self) -> (r: Vec<Event>)
        requires
            old(self).inv(),
        ensures
            final(self).inv(),
            events_view(r@) == old(self)@.outbox,
            final(self)@ == (StateV { outbox: Seq::empty(), ..old(self)@ }),
            final(self).recent() == old(self).recent(),
    {
        let mut out: Vec<Event> = Vec::new();
        std::mem::swap(&mut out, &mut self.outbox);
        proof {
            assert(events_view(self.outbox@) =~= Seq::<EventV>::empty());
        }
        out
    }

    /// Total count of events emitted since this state was created
    /// (saturating).
    pub fn events_total(&self) -> (r: u64)
        ensures
            r == self@.events_total,
    {
        self.events_total
    }

    /// Drops the kept event timestamps older than the history window, from
    /// the oldest end, then the oldest ones beyond the cap (see `trimmed`).
    fn trim_event_history(&mut self, now_ms: u64)
        ensures
            final(self)@ == old(self)@,
            final(self).inv() == old(self).inv(),
            final(self).recent() == trimmed(old(self).recent(), now_ms),
    {
        let ghost ts0 = self.recent_event_ts@;
        let cutoff = if now_ms >= EVENT_HISTORY_MS { now_ms - EVENT_HISTORY_MS } else { 0 };
        assert(cutoff == history_cutoff(now_ms));
        let ghost mut k: nat = 0;
        loop
            invariant
                self@ == old(self)@,
                self.inv() == old(self).inv(),
                ts0 == old(self).recent(),
                k <= ts0.len(),
                self.recent_event_ts@ == ts0.skip(k as int),
                stale_front(ts0, cutoff as int) == k + stale_front(ts0.skip(k as int), cutoff as int),
            ensures
                self@ == old(self)@,
                self.inv() == old(self).inv(),
                self.recent_event_ts@ == ts0.skip(stale_front(ts0, cutoff as int) as int),
            decreases self.recent_event_ts@.len(),
        {
            if self.recent_event_ts.len() == 0 {
                break;
            }
            if self.recent_event_ts[0] < cutoff {
                proof {
                    assert(ts0.skip(k as int).drop_first() =~= ts0.skip((k + 1) as int));
                }
                self.recent_event_ts.pop_front();
                proof {
                    k = k + 1;
                }
            } else {
                break;
            }
        }
        let ghost t = self.recent_event_ts@;
        let ghost mut j: int = 0;
        while self.recent_event_ts.len() > EVENT_HISTORY_CAP
            invariant
                self@ == old(self)@,
                self.inv() == old(self).inv(),
                0 <= j <= t.len(),
                t.len() > EVENT_HISTORY_CAP ==> j <= t.len() - EVENT_HISTORY_CAP,
                t.len() <= EVENT_HISTORY_CAP ==> j == 0,
                self.recent_event_ts@ == t.skip(j),
            decreases self.recent_event_ts@.len(),
        {
            self.recent_event_ts.pop_front();
            proof {
                assert(t.skip(j).subrange(1, t.skip(j).len() as int) =~= t.skip(j + 1));
                j = j + 1;
            }
        }
    }

    /// Record an emitted event at `now_ms`: outbox, lifetime count, and the
    /// rate history, which gains `now_ms` and is then trimmed (see `trimmed`).
    fn emit(&mut self, e: Event, now_ms: u64)
        requires
            old(self).inv(),
        ensures
            final(self).inv(),
            final(self)@ == emit(old(self)@, e@),
            final(self).recent() == trimmed(old(self).recent().push(now_ms), now_ms),
            State::logged(*old(self), *final(self), now_ms),
    {
        if self.events_total < u64::MAX {
            self.events_total = self.events_total + 1;
        }
        self.recent_event_ts.push_back(now_ms);
        self.trim_event_history(now_ms);
        let ghost before = self.outbox@;
        self.outbox.push(e);
        proof {
            assert(events_view(self.outbox@) =~= events_view(before).push(e@));
            reveal_with_fuel(recorded, 2);
        }
    }

    /// Number of kept event timestamps at or after `minute_cutoff(now_ms)`,
    /// counted from the newest backwards: the events of the last minute.
    pub fn recent_event_count(&self, now_ms: u64) -> (r: usize)
        ensures
            r <= self.recent().len(),
            forall|j: int| self.recent().len() - r <= j < self.recent().len() ==> self.recent()[j] >= minute_cutoff(now_ms),
            r < self.recent().len() ==> self.recent()[self.recent().len() - r - 1] < minute_cutoff(now_ms),
    {
        let ghost ts = self.recent_event_ts@;
        let window_start = if now_ms >= 60_000 { now_ms - 60_000 } else { 0 };
        assert(window_start == minute_cutoff(now_ms));
        let n = self.recent_event_ts.len();
        let mut count: usize = 0;
        while count < n
            invariant
                ts == self.recent_event_ts@,
                n == ts.len(),
                count <= n,
                window_start == minute_cutoff(now_ms),
                forall|j: int| n - count <= j < n ==> ts[j] >= window_start,
            decreases n - count,
        {
            let t = self.recent_event_ts[n - 1 - count];
            assert(t == ts[n - 1 - count]);
            if t >= window_start {
                count = count + 1;
            } else {
                return count;
            }
        }
        count
    }

    fn index_of_agent(&self, k: &str) -> (r: Option<usize>)
        requires
            self.inv(),
        ensures
            match r {
                Some(i) => has_key(self@.agents, k@) && i as int == key_pos(self@.agents, k@) && i < self@.agents.len(),
                None => !has_key(self@.agents, k@),
            },
    {
        let r = agents_index_of(&self.active_agents, k);
        proof {
            if let Some(i) = r {
                lemma_key_pos(self@.agents, i as int);
            }
        }
        r
    }

    /// Oldest unfinished record of session `sid` with type `atype`.
    fn fifo_scan(&self, sid: &str, atype: &str) -> (r: Option<usize>)
        requires
            self.inv(),
        ensures
            match r {
                Some(i) => fifo_pos(self@.agents, sid@, atype@) == Some(i as int) && i < self@.agents.len(),
                None => fifo_pos(self@.agents, sid@, atype@) is None,
            },
    {
        let n = agents_len(&self.active_agents);
        let ghost e = self@.agents;
        let mut i: usize = 0;
        while i < n
            invariant
                n == e.len(),
                e == self@.agents,
                i <= n,
                forall|j: int| 0 <= j < i ==> !fifo_match(#[trigger] e[j].1, sid@, atype@),
            decreases n - i,
        {
            let rec = agents_get(&self.active_agents, i);
            if rec.finished_at.is_none() && opt_is(&rec.session_id, sid) && str_eq(rec.agent_type.as_str(), atype) {
                proof {
                    assert(fifo_match(e[i as int].1, sid@, atype@));
                    let c = choose|c: int|
                        0 <= c < e.len() && fifo_match(e[c].1, sid@, atype@) && forall|j: int|
                            0 <= j < c ==> !fifo_match(#[trigger] e[j].1, sid@, atype@);
                    if c < i {
                        assert(!fifo_match(e[c].1, sid@, atype@));
                    }
                    if c > i {
                        assert(!fifo_match(e[i as int].1, sid@, atype@));
                    }
                }
                return Some(i);
            }
            i = i + 1;
        }
        None
    }

    /// Oldest unfinished record of session `sid`.
    fn session_scan(&self, sid: &str) -> (r: Option<usize>)
        requires
            self.inv(),
        ensures
            match r {
                Some(i) => session_pos(self@.agents, sid@) == Some(i as int) && i < self@.agents.len(),
                None => session_pos(self@.agents, sid@) is None,
            },
    {
        let n = agents_len(&self.active_agents);
        let ghost e = self@.agents;
        let mut i: usize = 0;
        while i < n
            invariant
                n == e.len(),
                e == self@.agents,
                i <= n,
                forall|j: int| 0 <= j < i ==> !session_match(#[trigger] e[j].1, sid@),
            decreases n - i,
        {
            let rec = agents_get(&self.active_agents, i);
            if rec.finished_at.is_none() && opt_is(&rec.session_id, sid) {
                proof {
                    assert(session_match(e[i as int].1, sid@));
                    let c = choose|c: int|
                        0 <= c < e.len() && session_match(e[c].1, sid@) && forall|j: int|
                            0 <= j < c ==> !session_match(#[trigger] e[j].1, sid@);
                    if c > i {
                        assert(!session_match(e[i as int].1, sid@));
                    }
                }
                return Some(i);
            }
            i = i + 1;
        }
        None
    }

    /// Resolve the live record a hook refers to (see `find_record`).
    #[verifier::rlimit(50)]
    fn find_record_id(&self, agent_id: &Option<String>, session_id: &Option<String>) -> (r: Option<usize>)
        requires
            self.inv(),
        ensures
            match r {
                Some(i) => find_record(self@.agents, opt_str(*agent_id), opt_str(*session_id)) == Some(i as int)
                    && i < self@.agents.len(),
                None => find_record(self@.agents, opt_str(*agent_id), opt_str(*session_id)) is None,
            },
    {
        if let Some(aid) = agent_id {
            if let Some(i) = self.index_of_agent(aid.as_str()) {
                if agents_get(&self.active_agents, i).finished_at.is_none() {
                    return Some(i);
                }
                return None;
            }
        }
        if let Some(sid) = session_id {
            if let Some(i) = self.index_of_agent(sid.as_str()) {
                if agents_get(&self.active_agents, i).finished_at.is_none() {
                    return Some(i);
                }
            }
            return self.session_scan(sid.as_str());
        }
        None
    }

    /// Store an incoming non-empty permission mode that differs from the
    /// record's, broadcasting a reclassification.
    fn check_permission_mode(&mut self, i: usize, incoming: &Option<String>, now_ms: u64)
        requires
            old(self).inv(),
            i < old(self)@.agents.len(),
        ensures
            State::logged(*old(self), *final(self), now_ms),
            final(self).inv(),
            final(self)@ == checked_mode(old(self)@, i as int, opt_str(*incoming)),
    {
        let Some(mode) = incoming else {
            return;
        };
        if mode.as_str().is_empty() {
            return;
        }
        let rec = agents_get(&self.active_agents, i);
        if str_eq(rec.permission_mode.as_str(), mode.as_str()) {
            return;
        }
        let mut updated = rec.duplicate();
        updated.permission_mode = mode.clone();
        let id = updated.agent_id.clone();
        let ghost s0 = self@;
        agents_set(&mut self.active_agents, i, updated);
        proof {
            lemma_unique_update(s0.agents, i as int, updated@);
            assert(self@ == set_agent(s0, i as int, AgentV { permission_mode: mode@, ..s0.agents[i as int].1 }));
        }
        self.emit(Event::Reclassify { agent_id: id, permission_mode: mode.clone() }, now_ms);
    }

    /// Buffer a description for `(session_id, subagent_type)`; payloads
    /// without a subagent type are ignored.
    pub fn buffer_description(&mut self, p: BufferDescription, now_ms: u64)
        requires
            old(self).inv(),
        ensures
            State::logged(*old(self), *final(self), now_ms),
            final(self).inv(),
            final(self)@ == buffered(old(self)@, p, now_ms),
    {
        if p.subagent_type.is_none() {
            return;
        }
        let key: PendingKey = (clone_opt_str(&p.session_id), clone_opt_str(&p.subagent_type));
        let description = match &p.description {
            Some(d) => d.clone(),
            None => String::new(),
        };
        let v = PendingDescription { description, tool_use_id: clone_opt_str(&p.tool_use_id), ts: now_ms };
        let ghost e0 = self@.pending;
        let ghost vv = v@;
        let ghost kk = pkey(key);
        pending_insert(&mut self.pending_descriptions, key, v);
        proof {
            lemma_map_put(e0, self@.pending, kk, vv);
        }
    }

    /// Take the buffered description for the key out of the buffer; an
    /// expired one is removed but yields the empty string.
    fn consume_description(&mut self, session_id: &Option<String>, agent_type: &Option<String>, now_ms: u64) -> (r: String)
        requires
            old(self).inv(),
        ensures
            State::logged(*old(self), *final(self), now_ms),
            final(self).inv(),
            (final(self)@, r@) == consumed(old(self)@, (opt_str(*session_id), opt_str(*agent_type)), now_ms),
    {
        let key: PendingKey = (clone_opt_str(session_id), clone_opt_str(agent_type));
        let ghost s0 = self@;
        match pending_index_of(&self.pending_descriptions, &key) {
            None => String::new(),
            Some(i) => {
                proof {
                    lemma_key_pos(s0.pending, i as int);
                    lemma_unique_remove(s0.pending, i as int);
                }
                let entry = pending_shift_remove(&mut self.pending_descriptions, i);
                let age = if now_ms >= entry.ts { now_ms - entry.ts } else { 0 };
                if age > self.config.pending_ttl_ms {
                    String::new()
                } else {
                    entry.description
                }
            },
        }
    }

    /// Look up or hand out the label of a session.
    fn assign_session_label(&mut self, session_id: &Option<String>) -> (r: Option<String>)
        requires
            old(self).inv(),
        ensures
            final(self).recent() == old(self).recent(),
            final(self)@.outbox.len() == old(self)@.outbox.len(),
            final(self).inv(),
            (final(self)@, opt_str(r)) == assign_label(old(self)@, opt_str(*session_id)),
    {
        let Some(sid) = session_id else {
            return None;
        };
        let ghost s0 = self@;
        let n = self.session_labels.len();
        let mut j: usize = 0;
        while j < n
            invariant
                n == self.session_labels@.len(),
                opt_str(*session_id) == Some(sid@),
                self@ == s0,
                old(self)@ == s0,
                wf(s0),
                j <= n,
                forall|k: int| 0 <= k < j ==> (#[trigger] s0.labels[k]).0 != sid@,
            decreases n - j,
        {
            if str_eq(self.session_labels[j].0.as_str(), sid.as_str()) {
                let c = self.session_labels[j].1;
                proof {
                    assert(s0.labels[j as int] == (self.session_labels@[j as int].0@, c));
                    lemma_key_pos(s0.labels, j as int);
                    assert(has_key(s0.labels, sid@));
                    assert(key_pos(s0.labels, sid@) == j);
                }
                let out = char_string(c);
                proof {
                    assert(assign_label(s0, Some(sid@)) == (s0, Some(seq![c])));
                }
                return Some(out);
            }
            proof {
                assert(s0.labels[j as int] == (self.session_labels@[j as int].0@, self.session_labels@[j as int].1));
            }
            j = j + 1;
        }
        let Some(c) = self.label_free_pool.pop_front() else {
            return None;
        };
        let ghost before = self.session_labels@;
        self.session_labels.push((sid.clone(), c));
        proof {
            assert(labels_view(self.session_labels@) =~= labels_view(before).push((sid@, c)));
            lemma_unique_push(s0.labels, sid@, c);
        }
        Some(char_string(c))
    }

    /// Return a session's label to the pool tail once no record of the
    /// session remains.
    fn release_session_label_if_unused(&mut self, session_id: &str)
        requires
            old(self).inv(),
        ensures
            final(self).recent() == old(self).recent(),
            final(self)@.outbox.len() == old(self)@.outbox.len(),
            final(self).inv(),
            final(self)@ == released(old(self)@, session_id@),
    {
        let ghost s0 = self@;
        let n = agents_len(&self.active_agents);
        let mut i: usize = 0;
        while i < n
            invariant
                self.recent() == old(self).recent(),
                self@.outbox.len() == old(self)@.outbox.len(),
                n == s0.agents.len(),
                self@ == s0,
                old(self)@ == s0,
                wf(s0),
                i <= n,
                forall|k: int| 0 <= k < i ==> (#[trigger] s0.agents[k]).1.session_id != Some(session_id@),
            decreases n - i,
        {
            if opt_is(&agents_get(&self.active_agents, i).session_id, session_id) {
                proof {
                    assert(s0.agents[i as int].1.session_id == Some(session_id@));
                    assert(session_in_use(s0.agents, session_id@));
                }
                return;
            }
            i = i + 1;
        }
        let m = self.session_labels.len();
        let mut j: usize = 0;
        while j < m
            invariant
                self.recent() == old(self).recent(),
                self@.outbox.len() == old(self)@.outbox.len(),
                m == self.session_labels@.len(),
                self@ == s0,
                old(self)@ == s0,
                wf(s0),
                !session_in_use(s0.agents, session_id@),
                j <= m,
                forall|k: int| 0 <= k < j ==> (#[trigger] s0.labels[k]).0 != session_id@,
            decreases m - j,
        {
            if str_eq(self.session_labels[j].0.as_str(), session_id) {
                proof {
                    assert(s0.labels[j as int] == (self.session_labels@[j as int].0@, self.session_labels@[j as int].1));
                    lemma_key_pos(s0.labels, j as int);
                    lemma_unique_remove(s0.labels, j as int);
                }
                let ghost before = self.session_labels@;
                let (_, c) = self.session_labels.remove(j);
                self.label_free_pool.push_back(c);
                proof {
                    assert(labels_view(self.session_labels@) =~= labels_view(before).remove(j as int));
                }
                return;
            }
            proof {
                assert(s0.labels[j as int] == (self.session_labels@[j as int].0@, self.session_labels@[j as int].1));
            }
            j = j + 1;
        }
    }
}


impl State {
    /// Register a new record and broadcast `start`. Idempotent by agent id:
    /// a known id returns the stored record and emits nothing; an empty id
    /// is refused.
    pub fn start_agent(&mut self, p: StartAgent, now_ms: u64) -> (r: Option<Agent>)
        requires
            old(self).inv(),
        ensures
            State::logged(*old(self), *final(self), now_ms),
            final(self).inv(),
            (final(self)@, opt_agent(r)) == started(old(self)@, p, now_ms),
    {
        let ghost s0 = self@;
        if p.agent_id.as_str().is_empty() {
            return None;
        }
        if let Some(i) = self.index_of_agent(p.agent_id.as_str()) {
            return Some(agents_get(&self.active_agents, i).duplicate());
        }
        let has_desc = match &p.description {
            Some(d) => !d.as_str().is_empty(),
            None => false,
        };
        let description: String = if has_desc {
            match &p.description {
                Some(d) => d.clone(),
                None => String::new(),
            }
        } else {
            let from_pending = self.consume_description(&p.session_id, &p.agent_type, now_ms);
            if !from_pending.as_str().is_empty() {
                from_pending
            } else {
                match &p.agent_type {
                    Some(t) if !t.as_str().is_empty() => t.clone(),
                    _ => word_agent_string(),
                }
            }
        };
        let ghost s1 = self@;
        proof {
            assert((s1, description@) == start_description(s0, p, now_ms));
        }
        let session_label = self.assign_session_label(&p.session_id);
        let ghost s2 = self@;
        let agent_type = match &p.agent_type {
            Some(t) if !t.as_str().is_empty() => t.clone(),
            _ => word_agent_string(),
        };
        let user = match &p.user {
            Some(u) if !u.as_str().is_empty() => u.clone(),
            _ => word_unknown_string(),
        };
        let permission_mode = match &p.permission_mode {
            Some(m) if !m.as_str().is_empty() => m.clone(),
            _ => word_default_string(),
        };
        let host = match &p.host {
            Some(h) => h.clone(),
            None => String::new(),
        };
        let cwd = match &p.cwd {
            Some(c) => c.clone(),
            None => String::new(),
        };
        let record = Agent {
            agent_id: p.agent_id.clone(),
            session_id: clone_opt_str(&p.session_id),
            agent_type,
            description,
            user,
            host,
            cwd,
            permission_mode,
            started_at: now_ms,
            finished_at: None,
            last_message: None,
            visit: None,
            session_prompt: None,
            idle: None,
            current_error: None,
            session_label,
        };
        proof {
            assert(record@ == new_record(p, description@, opt_str(session_label), now_ms));
            assert(!has_key(s2.agents, p.agent_id@));
            lemma_unique_push(s2.agents, p.agent_id@, record@);
        }
        agents_insert(&mut self.active_agents, p.agent_id.clone(), record.duplicate());
        proof {
            assert(self@.agents == s2.agents.push((p.agent_id@, record@)));
            let e = self@.agents;
            assert forall|i: int| 0 <= i < e.len() implies (#[trigger] e[i]).0 == e[i].1.agent_id by {
                if i < s2.agents.len() {
                    assert(e[i] == s2.agents[i]);
                }
            }
        }
        self.emit(Event::Start { agent: Box::new(record.duplicate()) }, now_ms);
        Some(record)
    }
}

impl State {
    /// Retire a record: stamp `finished_at`, keep the last message,
    /// broadcast `stop` and schedule removal after the stop grace. The
    /// record is found by agent id, else by FIFO on (session id, agent type).
    #[verifier::rlimit(80)]
    pub fn stop_agent(&mut self, p: StopAgent, now_ms: u64) -> (r: Option<Agent>)
        requires
            old(self).inv(),
            now_ms + old(self)@.config.stop_grace_ms <= u64::MAX,
        ensures
            State::logged(*old(self), *final(self), now_ms),
            final(self).inv(),
            (final(self)@, opt_agent(r)) == stopped(old(self)@, p, now_ms),
    {
        let ghost s0 = self@;
        let mut target: Option<usize> = None;
        if let Some(aid) = &p.agent_id {
            target = self.index_of_agent(aid.as_str());
        }
        if target.is_none() {
            if let (Some(sid), Some(atype)) = (&p.session_id, &p.agent_type) {
                target = self.fifo_scan(sid.as_str(), atype.as_str());
            }
        }
        proof {
            match target {
                Some(i) => assert(stop_target(s0.agents, p) == Some(i as int)),
                None => assert(stop_target(s0.agents, p) is None),
            }
        }
        let i = match target {
            Some(i) => i,
            None => return None,
        };
        let mut record = agents_get(&self.active_agents, i).duplicate();
        record.finished_at = Some(now_ms);
        record.last_message = clone_opt_str(&p.last_assistant_message);
        let id = record.agent_id.clone();
        proof {
            lemma_unique_update(s0.agents, i as int, record@);
        }
        agents_set(&mut self.active_agents, i, record.duplicate());
        proof {
            assert(self@ == set_agent(s0, i as int, record@));
        }
        self.emit(Event::Stop { agent_id: id.clone() }, now_ms);
        let ghost e0 = self@.stops;
        let deadline = now_ms + self.config.stop_grace_ms;
        stops_insert(&mut self.pending_stops, id, deadline);
        proof {
            lemma_map_put(e0, self@.stops, s0.agents[i as int].0, deadline);
        }
        Some(record)
    }

    /// Broadcast `tool` for a known record (by agent id, else session id),
    /// after reconciling its permission mode. Unknown records, missing ids
    /// and missing tool names are dropped silently.
    pub fn tool_event(&mut self, p: ToolEvent, now_ms: u64)
        requires
            old(self).inv(),
        ensures
            State::logged(*old(self), *final(self), now_ms),
            final(self).inv(),
            final(self)@ == tooled(old(self)@, p, now_ms),
    {
        let id: Option<String> = match &p.agent_id {
            Some(a) => Some(a.clone()),
            None => clone_opt_str(&p.session_id),
        };
        assert(opt_str(id) == tool_target(p));
        let Some(id) = id else {
            return;
        };
        if id.as_str().is_empty() {
            return;
        }
        let Some(tool_name) = &p.tool_name else {
            return;
        };
        if tool_name.as_str().is_empty() {
            return;
        }
        let Some(i) = self.index_of_agent(id.as_str()) else {
            return;
        };
        self.check_permission_mode(i, &p.permission_mode, now_ms);
        self.emit(Event::Tool { agent_id: id, tool_name: tool_name.clone(), ts: now_ms }, now_ms);
    }

    /// Send a record on a temporary visit to `test`, `meeting` or `desk`.
    /// The TTL is clamped into the configured range; an existing visit is
    /// extended but never shortened. Broadcasts `visit` with its deadline.
    pub fn visit_room(&mut self, p: VisitRoom, now_ms: u64) -> (r: Option<()>)
        requires
            old(self).inv(),
            now_ms + visit_ttl(p.ttl_ms, old(self)@.config) <= u64::MAX,
        ensures
            State::logged(*old(self), *final(self), now_ms),
            final(self).inv(),
            (final(self)@, r is Some) == visited(old(self)@, p, now_ms),
    {
        let ghost s0 = self@;
        let Some(room) = &p.room else {
            return None;
        };
        if !(str_eq(room.as_str(), "test") || str_eq(room.as_str(), "meeting") || str_eq(room.as_str(), "desk")) {
            return None;
        }
        let ttl = visit_ttl_ms(p.ttl_ms, &self.config);
        let Some(i) = self.find_record_id(&p.agent_id, &p.session_id) else {
            return None;
        };
        self.check_permission_mode(i, &p.permission_mode, now_ms);
        let ghost s1 = self@;
        let mut record = agents_get(&self.active_agents, i).duplicate();
        let prior = match &record.visit {
            Some(v) => v.until,
            None => 0,
        };
        let fresh = now_ms + ttl;
        let until = if prior >= fresh { prior } else { fresh };
        record.visit = Some(Visit { room: room.clone(), until });
        let id = record.agent_id.clone();
        proof {
            lemma_unique_update(s1.agents, i as int, record@);
        }
        agents_set(&mut self.active_agents, i, record);
        proof {
            assert(self@ == set_agent(s1, i as int, record@));
        }
        self.emit(Event::Visit { agent_id: id, room: Some(room.clone()), until: Some(until) }, now_ms);
        Some(())
    }
}

impl State {
    fn prompt_on(&mut self, i: usize, id: &String, p: &Lifecycle, now_ms: u64)
        requires
            old(self).inv(),
            i < old(self)@.agents.len(),
        ensures
            State::logged(*old(self), *final(self), now_ms),
            final(self).inv(),
            final(self)@ == prompted(old(self)@, i as int, id@, *p),
    {
        let ghost s1 = self@;
        let text = match &p.text {
            Some(t) => truncate_chars(t.as_str(), PROMPT_PREVIEW_LEN),
            None => String::new(),
        };
        let mut record = agents_get(&self.active_agents, i).duplicate();
        let was_idle = match record.idle {
            Some(b) => b,
            None => false,
        };
        record.session_prompt = Some(text.clone());
        if was_idle {
            record.idle = Some(false);
        }
        proof {
            lemma_unique_update(s1.agents, i as int, record@);
        }
        agents_set(&mut self.active_agents, i, record);
        if was_idle {
            self.emit(Event::Idle { agent_id: id.clone(), idle: false }, now_ms);
        }
        self.emit(Event::Prompt { agent_id: id.clone(), text }, now_ms);
    }

    fn idle_on(&mut self, i: usize, id: &String, now_ms: u64)
        requires
            old(self).inv(),
            i < old(self)@.agents.len(),
        ensures
            State::logged(*old(self), *final(self), now_ms),
            final(self).inv(),
            final(self)@ == idled(old(self)@, i as int, id@),
    {
        let ghost s1 = self@;
        let mut record = agents_get(&self.active_agents, i).duplicate();
        let already = match record.idle {
            Some(b) => b,
            None => false,
        };
        if !already {
            record.idle = Some(true);
            proof {
                lemma_unique_update(s1.agents, i as int, record@);
            }
            agents_set(&mut self.active_agents, i, record);
            self.emit(Event::Idle { agent_id: id.clone(), idle: true }, now_ms);
        }
    }

    fn tool_error_on(&mut self, i: usize, id: &String, p: &Lifecycle, now_ms: u64)
        requires
            old(self).inv(),
            i < old(self)@.agents.len(),
        ensures
            State::logged(*old(self), *final(self), now_ms),
            final(self).inv(),
            final(self)@ == errored(old(self)@, i as int, id@, *p, now_ms),
    {
        let ghost s1 = self@;
        let message = match &p.message {
            Some(m) => truncate_chars(m.as_str(), ERROR_PREVIEW_LEN),
            None => String::new(),
        };
        let tool_name = match &p.tool_name {
            Some(t) => t.clone(),
            None => String::new(),
        };
        let mut record = agents_get(&self.active_agents, i).duplicate();
        record.current_error = Some(
            CurrentError { tool_name: tool_name.clone(), message: message.clone(), ts: now_ms },
        );
        proof {
            lemma_unique_update(s1.agents, i as int, record@);
        }
        agents_set(&mut self.active_agents, i, record);
        self.emit(Event::ToolError { agent_id: id.clone(), tool_name, message }, now_ms);
    }

    /// Dispatch a lifecycle hook by `kind` on the record it refers to:
    /// `prompt` stores the first 80 characters and clears idle, `idle` is
    /// idempotent, `turn-end`, `file-touch` and `bash-result` broadcast,
    /// `tool-error` stores the error. `None` for a missing kind, a missing
    /// or finished record, a file touch with no path, or an unknown kind.
    pub fn handle_lifecycle(&mut self, p: Lifecycle, now_ms: u64) -> (r: Option<()>)
        requires
            old(self).inv(),
        ensures
            State::logged(*old(self), *final(self), now_ms),
            final(self).inv(),
            (final(self)@, r is Some) == lifecycled(old(self)@, p, now_ms),
    {
        let ghost s0 = self@;
        let Some(kind) = &p.kind else {
            return None;
        };
        let Some(i) = self.find_record_id(&p.agent_id, &p.session_id) else {
            return None;
        };
        self.check_permission_mode(i, &p.permission_mode, now_ms);
        let id = agents_get(&self.active_agents, i).agent_id.clone();
        assert(id@ == s0.agents[i as int].0);
        if str_eq(kind.as_str(), "prompt") {
            self.prompt_on(i, &id, &p, now_ms);
            Some(())
        } else if str_eq(kind.as_str(), "idle") {
            self.idle_on(i, &id, now_ms);
            Some(())
        } else if str_eq(kind.as_str(), "turn-end") {
            self.emit(Event::TurnEnd { agent_id: id }, now_ms);
            Some(())
        } else if str_eq(kind.as_str(), "file-touch") {
            let Some(path) = &p.path else {
                return None;
            };
            if path.as_str().is_empty() {
                return Some(());
            }
            self.emit(Event::FileTouch { agent_id: id, path: path.clone() }, now_ms);
            Some(())
        } else if str_eq(kind.as_str(), "bash-result") {
            let ok = match p.ok {
                Some(b) => b,
                None => false,
            };
            self.emit(Event::BashResult { agent_id: id, ok }, now_ms);
            Some(())
        } else if str_eq(kind.as_str(), "tool-error") {
            self.tool_error_on(i, &id, &p, now_ms);
            Some(())
        } else {
            None
        }
    }
}


proof fn lemma_expiry_step(e: Seq<(Seq<char>, AgentV)>, i: int, now: u64)
    requires
        0 <= i < e.len(),
    ensures
        expiry_events(e.take(i + 1), now) == (if visit_expired(e[i].1, now) {
            expiry_events(e.take(i), now).push(EventV::Visit { agent_id: e[i].0, room: None, until: None })
        } else {
            expiry_events(e.take(i), now)
        }),
{
    assert(e.take(i + 1).drop_last() =~= e.take(i));
}

proof fn lemma_emit_all_push(s: StateV, evs: Seq<EventV>, ev: EventV)
    ensures
        emit_all(s, evs.push(ev)) == emit(emit_all(s, evs), ev),
{
    assert(evs.push(ev).drop_last() =~= evs);
}

proof fn lemma_keep_step(e: Seq<(PendingKeyV, PendingV)>, k: int, cutoff: u64)
    requires
        0 <= k < e.len(),
    ensures
        keep_fresh(e.take(k + 1), cutoff) == (if e[k].1.ts >= cutoff {
            keep_fresh(e.take(k), cutoff).push(e[k])
        } else {
            keep_fresh(e.take(k), cutoff)
        }),
{
    assert(e.take(k + 1).drop_last() =~= e.take(k));
}

proof fn lemma_due_step(e: Seq<(Seq<char>, u64)>, k: int, now: u64)
    requires
        0 <= k < e.len(),
    ensures
        due_ids(e.take(k + 1), now) == (if now >= e[k].1 {
            due_ids(e.take(k), now).push(e[k].0)
        } else {
            due_ids(e.take(k), now)
        }),
{
    assert(e.take(k + 1).drop_last() =~= e.take(k));
}

proof fn lemma_finalize_step(s: StateV, ids: Seq<Seq<char>>, k: int)
    requires
        0 <= k < ids.len(),
    ensures
        finalize_all(s, ids.take(k + 1)) == finalized(finalize_all(s, ids.take(k)), ids[k]),
{
    assert(ids.take(k + 1).drop_last() =~= ids.take(k));
}

pub open spec fn strings_view(s: Seq<String>) -> Seq<Seq<char>> {
    s.map_values(|x: String| x@)
}

impl State {
    fn index_of_stop(&self, k: &str) -> (r: Option<usize>)
        requires
            self.inv(),
        ensures
            match r {
                Some(i) => has_key(self@.stops, k@) && i as int == key_pos(self@.stops, k@) && i < self@.stops.len(),
                None => !has_key(self@.stops, k@),
            },
    {
        let r = stops_index_of(&self.pending_stops, k);
        proof {
            if let Some(i) = r {
                lemma_key_pos(self@.stops, i as int);
            }
        }
        r
    }

    fn expire_visits(&mut self, now_ms: u64)
        requires
            old(self).inv(),
        ensures
            State::logged(*old(self), *final(self), now_ms),
            final(self).inv(),
            final(self)@ == emit_all(
                StateV {
                    agents: old(self)@.agents.map_values(|e: (Seq<char>, AgentV)| clear_expired(e, now_ms)),
                    ..old(self)@
                },
                expiry_events(old(self)@.agents, now_ms),
            ),
    {
        let ghost s0 = self@;
        let ghost e0 = s0.agents;
        let n = agents_len(&self.active_agents);
        let mut i: usize = 0;
        while i < n
            invariant
                State::logged(*old(self), *self, now_ms),
                wf(s0),
                n == e0.len(),
                i <= n,
                self.inv(),
                self@.agents.len() == n,
                forall|j: int| 0 <= j < i ==> self@.agents[j] == clear_expired(#[trigger] e0[j], now_ms),
                forall|j: int| i <= j < n ==> self@.agents[j] == #[trigger] e0[j],
                self@.outbox == emit_all(s0, expiry_events(e0.take(i as int), now_ms)).outbox,
                self@.events_total == emit_all(s0, expiry_events(e0.take(i as int), now_ms)).events_total,
                self@.pending == s0.pending,
                self@.stops == s0.stops,
                self@.config == s0.config,
                self@.labels == s0.labels,
                self@.pool == s0.pool,
            decreases n - i,
        {
            let ghost before = self@;
            proof {
                lemma_expiry_step(e0, i as int, now_ms);
            }
            let rec = agents_get(&self.active_agents, i);
            let expired = match &rec.visit {
                Some(v) => now_ms > v.until,
                None => false,
            };
            if expired {
                let mut cleared = rec.duplicate();
                cleared.visit = None;
                let id = cleared.agent_id.clone();
                proof {
                    lemma_unique_update(before.agents, i as int, cleared@);
                }
                agents_set(&mut self.active_agents, i, cleared);
                self.emit(Event::Visit { agent_id: id, room: None, until: None }, now_ms);
                proof {
                    let evs = expiry_events(e0.take(i as int), now_ms);
                    lemma_emit_all_push(s0, evs, EventV::Visit { agent_id: e0[i as int].0, room: None, until: None });
                    assert forall|j: int| 0 <= j < i + 1 implies self@.agents[j] == clear_expired(#[trigger] e0[j], now_ms) by {
                        if j < i {
                            assert(self@.agents[j] == before.agents[j]);
                        }
                    }
                    assert forall|j: int| i + 1 <= j < n implies self@.agents[j] == #[trigger] e0[j] by {
                        assert(self@.agents[j] == before.agents[j]);
                    }
                    let e = self@.agents;
                    assert forall|j: int| 0 <= j < e.len() implies (#[trigger] e[j]).0 == e[j].1.agent_id by {
                        if j != i {
                            assert(e[j] == before.agents[j]);
                        }
                    }
                }
            }
            i = i + 1;
        }
        proof {
            let mapped = e0.map_values(|e: (Seq<char>, AgentV)| clear_expired(e, now_ms));
            assert(self@.agents =~= mapped);
            assert(e0.take(n as int) =~= e0);
            let s1 = StateV { agents: mapped, ..s0 };
            let evs = expiry_events(e0, now_ms);
            lemma_emit_all_fields(s1, evs);
            lemma_emit_all_same(s1, s0, evs);
        }
    }

    fn sweep_pending(&mut self, cutoff: u64)
        requires
            old(self).inv(),
        ensures
            final(self).recent() == old(self).recent(),
            final(self)@.outbox.len() == old(self)@.outbox.len(),
            final(self).inv(),
            final(self)@ == (StateV { pending: keep_fresh(old(self)@.pending, cutoff), ..old(self)@ }),
    {
        let ghost s0 = self@;
        let ghost p0 = s0.pending;
        let ghost mut k: int = 0;
        let mut i: usize = 0;
        proof {
            assert(p0.take(0) =~= Seq::<(PendingKeyV, PendingV)>::empty());
            assert(p0.skip(0) =~= p0);
            assert(keep_fresh(p0.take(0), cutoff) + p0.skip(0) =~= p0);
        }
        while i < pending_len(&self.pending_descriptions)
            invariant
                self.recent() == old(self).recent(),
                self@.outbox.len() == old(self)@.outbox.len(),
                0 <= k <= p0.len(),
                self.inv(),
                self@.pending == keep_fresh(p0.take(k), cutoff) + p0.skip(k),
                i == keep_fresh(p0.take(k), cutoff).len(),
                self@ == (StateV { pending: self@.pending, ..s0 }),
            decreases p0.len() - k,
        {
            let ghost before = self@;
            let ghost kept = keep_fresh(p0.take(k), cutoff);
            proof {
                assert(k < p0.len());
                assert(before.pending[i as int] == p0[k]);
                lemma_keep_step(p0, k, cutoff);
            }
            let ts = pending_get(&self.pending_descriptions, i).ts;
            if ts < cutoff {
                proof {
                    lemma_unique_remove(before.pending, i as int);
                }
                let _ = pending_shift_remove(&mut self.pending_descriptions, i);
                proof {
                    assert(self@.pending =~= kept + p0.skip(k + 1));
                }
            } else {
                i = i + 1;
                proof {
                    assert(self@.pending =~= kept.push(p0[k]) + p0.skip(k + 1));
                }
            }
            proof {
                k = k + 1;
            }
        }
        proof {
            assert(k == p0.len());
            assert(p0.take(k) =~= p0);
            assert(self@.pending =~= keep_fresh(p0, cutoff));
        }
    }

    fn due_stop_ids(&self, now_ms: u64) -> (r: Vec<String>)
        requires
            self.inv(),
        ensures
            strings_view(r@) == due_ids(self@.stops, now_ms),
    {
        let ghost e = self@.stops;
        let n = stops_len(&self.pending_stops);
        let mut out: Vec<String> = Vec::new();
        let mut i: usize = 0;
        while i < n
            invariant
                e == self@.stops,
                n == e.len(),
                i <= n,
                strings_view(out@) == due_ids(e.take(i as int), now_ms),
            decreases n - i,
        {
            proof {
                lemma_due_step(e, i as int, now_ms);
            }
            let (k, deadline) = stops_get(&self.pending_stops, i);
            if now_ms >= deadline {
                let ghost before = out@;
                out.push(k.clone());
                proof {
                    assert(strings_view(out@) =~= strings_view(before).push(k@));
                }
            }
            i = i + 1;
        }
        proof {
            assert(e.take(n as int) =~= e);
        }
        out
    }

    fn finalize_stop(&mut self, id: &String)
        requires
            old(self).inv(),
        ensures
            final(self).recent() == old(self).recent(),
            final(self)@.outbox.len() == old(self)@.outbox.len(),
            final(self).inv(),
            final(self)@ == finalized(old(self)@, id@),
    {
        let ghost s0 = self@;
        if let Some(j) = self.index_of_stop(id.as_str()) {
            proof {
                lemma_unique_remove(s0.stops, j as int);
            }
            stops_shift_remove(&mut self.pending_stops, j);
        }
        let ghost s1 = self@;
        if let Some(i) = self.index_of_agent(id.as_str()) {
            proof {
                lemma_unique_remove(s1.agents, i as int);
                s1.agents.remove_ensures(i as int);
            }
            let removed = agents_shift_remove(&mut self.active_agents, i);
            proof {
                let e = self@.agents;
                assert forall|j: int| 0 <= j < e.len() implies (#[trigger] e[j]).0 == e[j].1.agent_id by {
                    if j < i {
                        assert(e[j] == s1.agents[j]);
                    } else {
                        assert(e[j] == s1.agents[j + 1]);
                    }
                }
            }
            if let Some(sid) = &removed.session_id {
                self.release_session_label_if_unused(sid.as_str());
            }
        }
    }

    /// Drive time-based transitions: expire visits (broadcasting `visit`
    /// with no room), sweep pending descriptions older than the pending TTL,
    /// and remove records whose stop grace has passed, releasing their
    /// session label when no record of the session remains.
    pub fn tick(&mut self, now_ms: u64)
        requires
            old(self).inv(),
        ensures
            State::logged(*old(self), *final(self), now_ms),
            final(self).inv(),
            final(self)@ == ticked(old(self)@, now_ms),
    {
        let ghost s0 = self@;
        self.expire_visits(now_ms);
        proof {
            let s1 = StateV {
                agents: s0.agents.map_values(|e: (Seq<char>, AgentV)| clear_expired(e, now_ms)),
                ..s0
            };
            lemma_emit_all_fields(s1, expiry_events(s0.agents, now_ms));
        }
        let ttl = self.config.pending_ttl_ms;
        assert(ttl == s0.config.pending_ttl_ms);
        let cutoff = if now_ms >= ttl { now_ms - ttl } else { 0 };
        assert(cutoff == sat_sub(now_ms, s0.config.pending_ttl_ms));
        self.sweep_pending(cutoff);
        let ghost s3 = self@;
        let ids = self.due_stop_ids(now_ms);
        let ghost idv = strings_view(ids@);
        let mut k: usize = 0;
        proof {
            assert(idv.take(0) =~= Seq::<Seq<char>>::empty());
        }
        while k < ids.len()
            invariant
                State::logged(*old(self), *self, now_ms),
                idv == strings_view(ids@),
                k <= ids.len(),
                self.inv(),
                self@ == finalize_all(s3, idv.take(k as int)),
            decreases ids.len() - k,
        {
            proof {
                lemma_finalize_step(s3, idv, k as int);
            }
            self.finalize_stop(&ids[k]);
            k = k + 1;
        }
        proof {
            assert(idv.take(ids.len() as int) =~= idv);
        }
    }
}

proof fn lemma_active_step(e: Seq<(Seq<char>, AgentV)>, k: int)
    requires
        0 <= k < e.len(),
    ensures
        active(e.take(k + 1)) == (if unfinished(e[k].1) {
            active(e.take(k)).push(e[k].1)
        } else {
            active(e.take(k))
        }),
{
    assert(e.take(k + 1).drop_last() =~= e.take(k));
}

impl State {
    /// Records that have not been stopped, in insertion order.
    pub fn list_active(&self) -> (r: Vec<Agent>)
        requires
            self.inv(),
        ensures
            agents_view(r@) == active(self@.agents),
    {
        let ghost e = self@.agents;
        let n = agents_len(&self.active_agents);
        let mut out: Vec<Agent> = Vec::new();
        let mut i: usize = 0;
        while i < n
            invariant
                e == self@.agents,
                n == e.len(),
                i <= n,
                agents_view(out@) == active(e.take(i as int)),
            decreases n - i,
        {
            proof {
                lemma_active_step(e, i as int);
            }
            let rec = agents_get(&self.active_agents, i);
            if rec.finished_at.is_none() {
                let ghost before = out@;
                out.push(rec.duplicate());
                proof {
                    assert(agents_view(out@) =~= agents_view(before).push(rec@));
                }
            }
            i = i + 1;
        }
        proof {
            assert(e.take(n as int) =~= e);
        }
        out
    }

    /// Every record, including stopped ones still inside their grace
    /// window, in insertion order.
    pub fn list_all_including_finished(&self) -> (r: Vec<Agent>)
        requires
            self.inv(),
        ensures
            agents_view(r@) == all_records(self@.agents),
    {
        let ghost e = self@.agents;
        let n = agents_len(&self.active_agents);
        let mut out: Vec<Agent> = Vec::new();
        let mut i: usize = 0;
        while i < n
            invariant
                e == self@.agents,
                n == e.len(),
                i <= n,
                agents_view(out@) == all_records(e.take(i as int)),
            decreases n - i,
        {
            let rec = agents_get(&self.active_agents, i);
            let ghost before = out@;
            out.push(rec.duplicate());
            proof {
                assert(agents_view(out@) =~= agents_view(before).push(rec@));
                assert(all_records(e.take(i as int + 1)) =~= all_records(e.take(i as int)).push(e[i as int].1));
            }
            i = i + 1;
        }
        proof {
            assert(e.take(n as int) =~= e);
        }
        out
    }

    /// `snapshot` event carrying the active records.
    pub fn snapshot_event(&self) -> (r: Event)
        requires
            self.inv(),
        ensures
            r@ == (EventV::Snapshot { agents: active(self@.agents) }),
    {
        Event::Snapshot { agents: self.list_active() }
    }

    /// The record stored under `agent_id`, stopped or not.
    pub fn record(&self, agent_id: &str) -> (r: Option<Agent>)
        requires
            self.inv(),
        ensures
            opt_agent(r) == (if has_key(self@.agents, agent_id@) {
                Some(self@.agents[key_pos(self@.agents, agent_id@)].1)
            } else {
                None
            }),
    {
        match self.index_of_agent(agent_id) {
            Some(i) => Some(agents_get(&self.active_agents, i).duplicate()),
            None => None,
        }
    }

    /// Deadline after which a stopped record is removed, if one is pending.
    pub fn stop_deadline(&self, agent_id: &str) -> (r: Option<u64>)
        requires
            self.inv(),
        ensures
            r == (if has_key(self@.stops, agent_id@) {
                Some(self@.stops[key_pos(self@.stops, agent_id@)].1)
            } else {
                None
            }),
    {
        match self.index_of_stop(agent_id) {
            Some(i) => {
                let (_, d) = stops_get(&self.pending_stops, i);
                Some(d)
            },
            None => None,
        }
    }

    /// Number of buffered descriptions.
    pub fn pending_count(&self) -> (r: usize)
        ensures
            r == self@.pending.len(),
    {
        pending_len(&self.pending_descriptions)
    }

    /// The label currently held by session `session_id`.
    pub fn session_label_of(&self, session_id: &str) -> (r: Option<char>)
        requires
            self.inv(),
        ensures
            r == (if has_key(self@.labels, session_id@) {
                Some(self@.labels[key_pos(self@.labels, session_id@)].1)
            } else {
                None
            }),
    {
        let ghost s0 = self@;
        let n = self.session_labels.len();
        let mut j: usize = 0;
        while j < n
            invariant
                n == self.session_labels@.len(),
                self@ == s0,
                wf(s0),
                j <= n,
                forall|k: int| 0 <= k < j ==> (#[trigger] s0.labels[k]).0 != session_id@,
            decreases n - j,
        {
            proof {
                assert(s0.labels[j as int] == (self.session_labels@[j as int].0@, self.session_labels@[j as int].1));
            }
            if str_eq(self.session_labels[j].0.as_str(), session_id) {
                proof {
                    lemma_key_pos(s0.labels, j as int);
                }
                return Some(self.session_labels[j].1);
            }
            j = j + 1;
        }
        None
    }

    /// Whether label `c` is waiting in the free pool.
    pub fn pool_contains(&self, c: char) -> (r: bool)
        ensures
            r == self@.pool.contains(c),
    {
        let n = self.label_free_pool.len();
        let mut i: usize = 0;
        while i < n
            invariant
                n == self@.pool.len(),
                self@.pool == self.label_free_pool@,
                i <= n,
                forall|k: int| 0 <= k < i ==> self@.pool[k] != c,
            decreases n - i,
        {
            if self.label_free_pool[i] == c {
                return true;
            }
            i = i + 1;
        }
        false
    }

    /// Replace the visit of the record stored under `agent_id` (if any)
    /// without broadcasting. Lets callers stage visit deadlines directly.
    pub fn override_visit(&mut self, agent_id: &str, visit: Option<Visit>)
        requires
            old(self).inv(),
        ensures
            final(self).recent() == old(self).recent(),
            final(self)@.outbox.len() == old(self)@.outbox.len(),
            final(self).inv(),
            final(self)@ == (if has_key(old(self)@.agents, agent_id@) {
                let i = key_pos(old(self)@.agents, agent_id@);
                set_agent(old(self)@, i, AgentV { visit: agent::opt_visit(visit), ..old(self)@.agents[i].1 })
            } else {
                old(self)@
            }),
    {
        let ghost s0 = self@;
        if let Some(i) = self.index_of_agent(agent_id) {
            let mut rec = agents_get(&self.active_agents, i).duplicate();
            rec.visit = visit;
            proof {
                lemma_unique_update(s0.agents, i as int, rec@);
            }
            agents_set(&mut self.active_agents, i, rec);
        }
    }
}
} // verus!
