//! The renderer's snapshot of the agent records of one frame, in a stable
//! order: by start time, then by agent id.

use vstd::prelude::*;
use vstd::seq_lib::to_multiset_insert;
use crate::state::agent::{Agent, AgentV, clone_opt_str, opt_str};
use crate::state::events::agents_view;
use crate::state::State;
use crate::state::model::all_records;
use crate::text::{lex_le, lemma_lex_total, lemma_lex_trans, str_le};

verus! {

/// The fields of an agent record that the renderer reads.
#[derive(Clone, Debug)]
pub struct AgentView {
    pub agent_id: String,
    pub session_id: Option<String>,
    pub user: String,
    pub agent_type: String,
    pub description: String,
    pub permission_mode: String,
    pub started_at: u64,
    pub finished_at: Option<u64>,
    pub session_label: Option<String>,
}

/// The value of an `AgentView`.
pub struct AgentViewV {
    pub agent_id: Seq<char>,
    pub session_id: Option<Seq<char>>,
    pub user: Seq<char>,
    pub agent_type: Seq<char>,
    pub description: Seq<char>,
    pub permission_mode: Seq<char>,
    pub started_at: u64,
    pub finished_at: Option<u64>,
    pub session_label: Option<Seq<char>>,
}

impl View for AgentView {
    type V = AgentViewV;

    open spec fn view(&self) -> AgentViewV {
        AgentViewV {
            agent_id: self.agent_id@,
            session_id: opt_str(self.session_id),
            user: self.user@,
            agent_type: self.agent_type@,
            description: self.description@,
            permission_mode: self.permission_mode@,
            started_at: self.started_at,
            finished_at: self.finished_at,
            session_label: opt_str(self.session_label),
        }
    }
}

/// The renderer's fields of an agent record.
pub open spec fn project(a: AgentV) -> AgentViewV {
    AgentViewV {
        agent_id: a.agent_id,
        session_id: a.session_id,
        user: a.user,
        agent_type: a.agent_type,
        description: a.description,
        permission_mode: a.permission_mode,
        started_at: a.started_at,
        finished_at: a.finished_at,
        session_label: a.session_label,
    }
}

/// The values of a sequence of views.
pub open spec fn views(s: Seq<AgentView>) -> Seq<AgentViewV> {
    Seq::new(s.len(), |i: int| s[i]@)
}

/// `a` comes no later than `b`: earlier start first, then smaller id.
pub open spec fn view_le(a: AgentViewV, b: AgentViewV) -> bool {
    a.started_at < b.started_at || (a.started_at == b.started_at && lex_le(a.agent_id, b.agent_id))
}

/// `s` is ordered by `view_le`.
pub open spec fn ordered(s: Seq<AgentViewV>) -> bool {
    forall|i: int, j: int| 0 <= i < j < s.len() ==> view_le(#[trigger] s[i], #[trigger] s[j])
}

impl AgentView {
    /// Copies the renderer's fields out of a record.
    pub fn from_agent(a: &Agent) -> (r: AgentView)
        ensures
            r@ == project(a@),
    {
        AgentView {
            agent_id: a.agent_id.clone(),
            session_id: clone_opt_str(&a.session_id),
            user: a.user.clone(),
            agent_type: a.agent_type.clone(),
            description: a.description.clone(),
            permission_mode: a.permission_mode.clone(),
            started_at: a.started_at,
            finished_at: a.finished_at,
            session_label: clone_opt_str(&a.session_label),
        }
    }
}

/// One frame's worth of agent records, and the time it was taken.
#[derive(Clone, Debug)]
pub struct RenderWorld {
    pub agents: Vec<AgentView>,
    pub now_ms: u64,
}

/// Whether `a` comes no later than `b`.
fn agent_view_le(a: &AgentView, b: &AgentView) -> (r: bool)
    ensures
        r == view_le(a@, b@),
{
    a.started_at < b.started_at || (a.started_at == b.started_at && str_le(
        a.agent_id.as_str(),
        b.agent_id.as_str(),
    ))
}

/// `view_le` is total.
proof fn lemma_view_total(a: AgentViewV, b: AgentViewV)
    ensures
        view_le(a, b) || view_le(b, a),
{
    lemma_lex_total(a.agent_id, b.agent_id);
}

/// `view_le` is transitive.
proof fn lemma_view_trans(a: AgentViewV, b: AgentViewV, c: AgentViewV)
    requires
        view_le(a, b),
        view_le(b, c),
    ensures
        view_le(a, c),
{
    if a.started_at == b.started_at && b.started_at == c.started_at {
        lemma_lex_trans(a.agent_id, b.agent_id, c.agent_id);
    }
}

/// Inserts `x` into an ordered vector after every entry that comes no later.
fn insert_ordered(v: &mut Vec<AgentView>, x: AgentView)
    requires
        ordered(views(old(v)@)),
    ensures
        ordered(views(final(v)@)),
        views(final(v)@).to_multiset() == views(old(v)@).to_multiset().insert(x@),
        final(v)@.len() == old(v)@.len() + 1,
{
    let ghost s = views(v@);
    let mut p: usize = 0;
    while p < v.len() && agent_view_le(&v[p], &x)
        invariant
            views(v@) == s,
            p <= s.len(),
            forall|k: int| 0 <= k < p ==> view_le(#[trigger] s[k], x@),
        decreases s.len() - p,
    {
        p = p + 1;
    }
    proof {
        if p < s.len() {
            lemma_view_total(s[p as int], x@);
        }
    }
    v.insert(p, x);
    proof {
        let t = views(v@);
        assert(t =~= s.insert(p as int, x@));
        to_multiset_insert(s, p as int, x@);
        assert forall|i: int, j: int| 0 <= i < j < t.len() implies view_le(#[trigger] t[i], #[trigger] t[j]) by {
            if j < p {
            } else if j == p {
                assert(t[i] == s[i]);
            } else if i < p {
                assert(t[j] == s[j - 1]);
                assert(view_le(s[p as int], s[j - 1]) || p == j - 1);
                lemma_view_trans(s[i], x@, s[p as int]);
                if p < j - 1 {
                    lemma_view_trans(s[i], s[p as int], s[j - 1]);
                }
            } else if i == p {
                assert(t[j] == s[j - 1]);
                if p < j - 1 {
                    lemma_view_trans(x@, s[p as int], s[j - 1]);
                }
            } else {
                assert(t[i] == s[i - 1]);
                assert(t[j] == s[j - 1]);
            }
        }
    }
}

impl RenderWorld {
    /// Snapshots every record of the state, finished ones too, ordered by
    /// start time and then by agent id.
    pub fn from_state(state: &State, now_ms: u64) -> (w: RenderWorld)
        requires
            state.inv(),
        ensures
            w.now_ms == now_ms,
            ordered(views(w.agents@)),
            views(w.agents@).to_multiset() == all_records(state@.agents).map_values(
                |a: AgentV| project(a),
            ).to_multiset(),
            w.agents@.len() == state@.agents.len(),
            forall|k: int| 0 <= k < w.agents@.len() ==> copy_of_some(#[trigger] w.agents@[k]@, state@.agents),
            forall|i: int| 0 <= i < state@.agents.len() ==> has_copy(views(w.agents@), #[trigger] state@.agents[i].1),
    {
        let records = state.list_all_including_finished();
        let ghost src = all_records(state@.agents).map_values(|a: AgentV| project(a));
        let mut agents: Vec<AgentView> = Vec::new();
        let mut i: usize = 0;
        proof {
            assert(views(agents@) =~= Seq::<AgentViewV>::empty());
            assert(src.take(0) =~= Seq::<AgentViewV>::empty());
            vstd::seq_lib::to_multiset_len(Seq::<AgentViewV>::empty());
            assert(Seq::<AgentViewV>::empty().to_multiset() =~= vstd::multiset::Multiset::empty());
        }
        while i < records.len()
            invariant
                agents_view(records@) == all_records(state@.agents),
                src == all_records(state@.agents).map_values(|a: AgentV| project(a)),
                i <= records@.len(),
                ordered(views(agents@)),
                views(agents@).to_multiset() == src.take(i as int).to_multiset(),
            decreases records@.len() - i,
        {
            let v = AgentView::from_agent(&records[i]);
            proof {
                assert(src[i as int] == project(records@[i as int]@));
                assert(src.take(i + 1) =~= src.take(i as int).push(v@));
                vstd::seq_lib::to_multiset_build(src.take(i as int), v@);
            }
            insert_ordered(&mut agents, v);
            i = i + 1;
        }
        proof {
            assert(src.take(i as int) =~= src);
            law_world_copies_records(views(agents@), state@.agents);
            assert forall|k: int| 0 <= k < agents@.len() implies copy_of_some(#[trigger] agents@[k]@, state@.agents) by {
                assert(views(agents@)[k] == agents@[k]@);
            }
        }
        RenderWorld { agents, now_ms }
    }
}

/// The view `v` carries the record `a`'s identity, owner, kind, mode, start
/// and finish times and session unchanged.
pub open spec fn copied_from(v: AgentViewV, a: AgentV) -> bool {
    &&& v.agent_id == a.agent_id
    &&& v.session_id == a.session_id
    &&& v.user == a.user
    &&& v.agent_type == a.agent_type
    &&& v.description == a.description
    &&& v.permission_mode == a.permission_mode
    &&& v.started_at == a.started_at
    &&& v.finished_at == a.finished_at
    &&& v.session_label == a.session_label
}

/// Some record of `e` is the one `v` was copied from.
pub open spec fn copy_of_some(v: AgentViewV, e: Seq<(Seq<char>, AgentV)>) -> bool {
    exists|i: int| 0 <= i < e.len() && copied_from(v, #[trigger] e[i].1)
}

/// Some view of `ws` was copied from `a`.
pub open spec fn has_copy(ws: Seq<AgentViewV>, a: AgentV) -> bool {
    exists|k: int| 0 <= k < ws.len() && copied_from(#[trigger] ws[k], a)
}

/// A world snapshot holds one view per record of the state and nothing
/// else: every view is copied field for field from a record (a stopped
/// record keeps its stop time), and every record has a view copied from it.
pub proof fn law_world_copies_records(ws: Seq<AgentViewV>, e: Seq<(Seq<char>, AgentV)>)
    requires
        ws.to_multiset() == all_records(e).map_values(|a: AgentV| project(a)).to_multiset(),
    ensures
        ws.len() == e.len(),
        forall|k: int| 0 <= k < ws.len() ==> copy_of_some(#[trigger] ws[k], e),
        forall|i: int| 0 <= i < e.len() ==> has_copy(ws, #[trigger] e[i].1),
{
    let src = all_records(e).map_values(|a: AgentV| project(a));
    ws.to_multiset_ensures();
    src.to_multiset_ensures();
    assert forall|k: int| 0 <= k < ws.len() implies copy_of_some(#[trigger] ws[k], e) by {
        assert(ws.contains(ws[k]));
        assert(ws.to_multiset().count(ws[k]) > 0);
        assert(src.to_multiset().count(ws[k]) > 0);
        assert(src.contains(ws[k]));
        let i = choose|i: int| 0 <= i < src.len() && src[i] == ws[k];
        assert(src[i] == project(e[i].1));
        assert(copied_from(ws[k], e[i].1));
    }
    assert forall|i: int| 0 <= i < e.len() implies has_copy(ws, #[trigger] e[i].1) by {
        assert(src[i] == project(e[i].1));
        assert(src.contains(src[i]));
        assert(src.to_multiset().count(src[i]) > 0);
        assert(ws.to_multiset().count(src[i]) > 0);
        assert(ws.contains(src[i]));
        let k = choose|k: int| 0 <= k < ws.len() && ws[k] == src[i];
        assert(copied_from(ws[k], e[i].1));
    }
}
} // verus!
