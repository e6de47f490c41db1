//! Scene statistics of the status endpoint: how many agents there are, how
//! many of each type, and how many the classifier sends to each room.

use vstd::prelude::*;
use crate::render::classify::{Room, classify, classify_spec};
use crate::state::agent::{Agent, AgentV};
use crate::state::events::agents_view;
use crate::text::{lex_le, lemma_lex_total, str_eq, str_le};

verus! {

/// Agents per room. Walking between rooms is not known to the state, so
/// `transit` stays zero.
#[derive(Clone, Copy, Debug, Default, PartialEq, Eq)]
pub struct RoomCounts {
    pub desk: usize,
    pub meeting: usize,
    pub lab: usize,
    pub transit: usize,
}

/// Totals of the agents on screen; `by_type` holds one entry per agent type,
/// in increasing order of the type name.
#[derive(Clone, Debug, Default)]
pub struct AgentStats {
    pub total: usize,
    pub by_type: Vec<(String, usize)>,
    pub by_room: RoomCounts,
}

/// How many agents of `s` have type `t`.
pub open spec fn type_count(s: Seq<AgentV>, t: Seq<char>) -> nat
    decreases s.len(),
{
    if s.len() == 0 {
        0
    } else {
        type_count(s.drop_last(), t) + if s.last().agent_type == t {
            1nat
        } else {
            0nat
        }
    }
}

/// How many agents of `s` the classifier sends to `room`.
pub open spec fn room_count(s: Seq<AgentV>, room: Room) -> nat
    decreases s.len(),
{
    if s.len() == 0 {
        0
    } else {
        room_count(s.drop_last(), room) + if classify_spec(
            s.last().agent_type,
            s.last().description,
            s.last().permission_mode,
        ) == room {
            1nat
        } else {
            0nat
        }
    }
}

/// `a` comes strictly before `b`.
pub open spec fn lex_lt(a: Seq<char>, b: Seq<char>) -> bool {
    lex_le(a, b) && a != b
}

/// The type table of `s`: keys strictly increasing, each key the count of
/// its type, every type of `s` a key.
pub open spec fn type_table(table: Seq<(Seq<char>, usize)>, s: Seq<AgentV>) -> bool {
    &&& forall|i: int, j: int| 0 <= i < j < table.len() ==> lex_lt(#[trigger] table[i].0, #[trigger] table[j].0)
    &&& forall|i: int| 0 <= i < table.len() ==> #[trigger] table[i].1 == type_count(s, table[i].0)
    &&& forall|i: int| 0 <= i < table.len() ==> type_count(s, #[trigger] table[i].0) > 0
    &&& names_all(table, s)
}

/// Every type of `s` is a key of `table`.
pub open spec fn names_all(table: Seq<(Seq<char>, usize)>, s: Seq<AgentV>) -> bool {
    forall|k: int| 0 <= k < s.len() ==> exists|i: int| 0 <= i < table.len() && #[trigger] table[i].0 == #[trigger] s[k].agent_type
}

/// A table that keeps its keys, or gains one, and names the new agent's type
/// still names every type.
proof fn lemma_names_push(tv: Seq<(Seq<char>, usize)>, nv: Seq<(Seq<char>, usize)>, s: Seq<AgentV>, a: AgentV, j: int)
    requires
        names_all(tv, s),
        forall|i: int| 0 <= i < tv.len() ==> exists|m: int| 0 <= m < nv.len() && #[trigger] nv[m].0 == #[trigger] tv[i].0,
        0 <= j < nv.len(),
        nv[j].0 == a.agent_type,
    ensures
        names_all(nv, s.push(a)),
{
    assert forall|k: int| 0 <= k < s.push(a).len() implies exists|i: int| 0 <= i < nv.len() && #[trigger] nv[i].0 == #[trigger] s.push(a)[k].agent_type by {
        if k == s.len() {
            assert(nv[j].0 == s.push(a)[k].agent_type);
        } else {
            assert(s.push(a)[k] == s[k]);
            let i = choose|i: int| 0 <= i < tv.len() && #[trigger] tv[i].0 == #[trigger] s[k].agent_type;
            let m = choose|m: int| 0 <= m < nv.len() && #[trigger] nv[m].0 == #[trigger] tv[i].0;
            assert(nv[m].0 == s.push(a)[k].agent_type);
        }
    }
}

/// The keys and counts of a type table.
pub open spec fn table_view(v: Seq<(String, usize)>) -> Seq<(Seq<char>, usize)> {
    Seq::new(v.len(), |i: int| (v[i].0@, v[i].1))
}

/// Counting one more agent whose type differs from `t` leaves `t`'s count.
proof fn lemma_type_count_push(s: Seq<AgentV>, a: AgentV, t: Seq<char>)
    ensures
        type_count(s.push(a), t) == type_count(s, t) + if a.agent_type == t {
            1nat
        } else {
            0nat
        },
{
    assert(s.push(a).drop_last() =~= s);
}

/// Adds one agent of type `t` to a type table, keeping it ordered.
fn count_type(table: &mut Vec<(String, usize)>, t: &String, Ghost(s): Ghost<Seq<AgentV>>, Ghost(a): Ghost<AgentV>)
    requires
        type_table(table_view(old(table)@), s),
        a.agent_type == t@,
        s.len() < usize::MAX,
    ensures
        type_table(table_view(final(table)@), s.push(a)),
{
    let ghost tv = table_view(table@);
    proof {
        assert forall|u: Seq<char>| #[trigger] type_count(s.push(a), u) == type_count(s, u) + if a.agent_type == u {
            1nat
        } else {
            0nat
        } by {
            lemma_type_count_push(s, a, u);
        }
    }
    let mut p: usize = 0;
    while p < table.len() && str_le(table[p].0.as_str(), t.as_str())
        invariant
            table_view(table@) == tv,
            p <= tv.len(),
            forall|k: int| 0 <= k < p ==> lex_le(#[trigger] tv[k].0, t@),
        decreases tv.len() - p,
    {
        p = p + 1;
    }
    if p > 0 && str_eq(table[p - 1].0.as_str(), t.as_str()) {
        let n = table[p - 1].1;
        proof {
            assert(tv[p - 1].1 == type_count(s, t@));
            lemma_type_count_le(s, t@);
        }
        let key = table[p - 1].0.clone();
        table.set(p - 1, (key, n + 1));
        proof {
            let nv = table_view(table@);
            assert(nv =~= tv.update(p - 1, (t@, (n + 1) as usize)));
            assert forall|i: int| 0 <= i < nv.len() implies #[trigger] nv[i].0 == tv[i].0 by {}
            assert forall|i: int, j: int| 0 <= i < j < nv.len() implies lex_lt(#[trigger] nv[i].0, #[trigger] nv[j].0) by {
                assert(nv[i].0 == tv[i].0 && nv[j].0 == tv[j].0);
            }
            assert forall|i: int| 0 <= i < nv.len() implies type_count(s.push(a), #[trigger] nv[i].0) > 0 by {
                assert(nv[i].0 == tv[i].0);
                assert(type_count(s.push(a), nv[i].0) == type_count(s, nv[i].0) + if a.agent_type == nv[i].0 { 1nat } else { 0nat });
            }
            assert forall|i: int| 0 <= i < tv.len() implies exists|m: int| 0 <= m < nv.len() && #[trigger] nv[m].0 == #[trigger] tv[i].0 by {
                assert(nv[i].0 == tv[i].0);
            }
            lemma_names_push(tv, nv, s, a, p - 1);
            assert forall|i: int| 0 <= i < nv.len() implies #[trigger] nv[i].1 == type_count(s.push(a), nv[i].0) by {
                assert(type_count(s.push(a), nv[i].0) == type_count(s, nv[i].0) + if a.agent_type == nv[i].0 { 1nat } else { 0nat });
                if i != p - 1 {
                    assert(tv[i].0 != tv[p - 1].0) by {
                        if i < p - 1 {
                            assert(lex_lt(tv[i].0, tv[p - 1].0));
                        } else {
                            assert(lex_lt(tv[p - 1].0, tv[i].0));
                        }
                    }
                }
            }
        }
        return;
    }
    proof {
        if p > 0 {
            assert(tv[p - 1].0 != t@);
        }
        assert forall|k: int| 0 <= k < p implies lex_lt(#[trigger] tv[k].0, t@) by {
            if tv[k].0 == t@ {
                assert(k < p - 1);
                assert(lex_lt(tv[k].0, tv[p - 1].0));
                lemma_lex_antisym(tv[k].0, tv[p - 1].0);
            }
        }
        if p < tv.len() {
            lemma_lex_total(tv[p as int].0, t@);
            lemma_lex_refl(t@);
        }
        assert forall|k: int| p <= k < tv.len() implies lex_lt(t@, #[trigger] tv[k].0) by {
            if k > p {
                assert(lex_lt(tv[p as int].0, tv[k].0));
                crate::text::lemma_lex_trans(t@, tv[p as int].0, tv[k].0);
                if tv[k].0 == t@ {
                    assert(lex_le(tv[p as int].0, t@));
                }
            }
        }
        assert forall|i: int| 0 <= i < tv.len() implies tv[i].0 != t@ by {
            if i < p {
                assert(lex_lt(tv[i].0, t@));
            } else {
                assert(lex_lt(t@, tv[i].0));
            }
        }
        assert(type_count(s, t@) == 0) by {
            lemma_type_count_absent(s, t@, tv);
        }
    }
    table.insert(p, (t.clone(), 1));
    proof {
        let nv = table_view(table@);
        assert(nv =~= tv.insert(p as int, (t@, 1usize)));
        assert forall|i: int, j: int| 0 <= i < j < nv.len() implies lex_lt(#[trigger] nv[i].0, #[trigger] nv[j].0) by {
            if j < p {
            } else if j == p {
                assert(nv[i] == tv[i]);
            } else if i < p {
                assert(nv[j] == tv[j - 1]);
                assert(lex_lt(tv[i].0, t@));
                assert(lex_lt(t@, tv[j - 1].0));
                crate::text::lemma_lex_trans(tv[i].0, t@, tv[j - 1].0);
                if tv[i].0 == tv[j - 1].0 {
                    lemma_lex_antisym(t@, tv[j - 1].0);
                }
            } else if i == p {
                assert(nv[j] == tv[j - 1]);
            } else {
                assert(nv[i] == tv[i - 1]);
                assert(nv[j] == tv[j - 1]);
            }
        }
        assert forall|i: int| 0 <= i < tv.len() implies exists|m: int| 0 <= m < nv.len() && #[trigger] nv[m].0 == #[trigger] tv[i].0 by {
            if i < p {
                assert(nv[i].0 == tv[i].0);
            } else {
                assert(nv[i + 1].0 == tv[i].0);
            }
        }
        lemma_names_push(tv, nv, s, a, p as int);
        assert forall|i: int| 0 <= i < nv.len() implies #[trigger] nv[i].1 == type_count(s.push(a), nv[i].0) by {
            assert(type_count(s.push(a), nv[i].0) == type_count(s, nv[i].0) + if a.agent_type == nv[i].0 { 1nat } else { 0nat });
            if i < p {
                assert(nv[i] == tv[i]);
            } else if i > p {
                assert(nv[i] == tv[i - 1]);
            }
        }
        assert forall|i: int| 0 <= i < nv.len() implies type_count(s.push(a), #[trigger] nv[i].0) > 0 by {
            assert(type_count(s.push(a), nv[i].0) == type_count(s, nv[i].0) + if a.agent_type == nv[i].0 { 1nat } else { 0nat });
            if i < p {
                assert(nv[i] == tv[i]);
            } else if i > p {
                assert(nv[i] == tv[i - 1]);
            }
        }
    }
}

/// Every sequence is ordered before itself.
proof fn lemma_lex_refl(a: Seq<char>)
    ensures
        lex_le(a, a),
    decreases a.len(),
{
    if a.len() > 0 {
        lemma_lex_refl(a.drop_first());
    }
}

/// Two sequences ordered both ways are equal.
proof fn lemma_lex_antisym(a: Seq<char>, b: Seq<char>)
    requires
        lex_le(a, b),
        lex_le(b, a),
    ensures
        a == b,
    decreases a.len(),
{
    if a.len() > 0 && b.len() > 0 {
        lemma_lex_antisym(a.drop_first(), b.drop_first());
        assert(a =~= seq![a[0]] + a.drop_first());
        assert(b =~= seq![b[0]] + b.drop_first());
        vstd::utf8::char_u32_cast(a[0], a[0] as u32);
        vstd::utf8::char_u32_cast(b[0], b[0] as u32);
    }
}

/// A count never exceeds the number of agents.
proof fn lemma_type_count_le(s: Seq<AgentV>, t: Seq<char>)
    ensures
        type_count(s, t) <= s.len(),
    decreases s.len(),
{
    if s.len() > 0 {
        lemma_type_count_le(s.drop_last(), t);
    }
}

/// A type that no key of a complete table names has no agents.
proof fn lemma_type_count_absent(s: Seq<AgentV>, t: Seq<char>, tv: Seq<(Seq<char>, usize)>)
    requires
        type_table(tv, s),
        forall|i: int| 0 <= i < tv.len() ==> tv[i].0 != t,
    ensures
        type_count(s, t) == 0,
    decreases s.len(),
{
    assert forall|k: int| 0 <= k < s.len() implies #[trigger] s[k].agent_type != t by {
        let i = choose|i: int| 0 <= i < tv.len() && #[trigger] tv[i].0 == #[trigger] s[k].agent_type;
        assert(tv[i].0 != t);
    }
    lemma_type_count_prefix_absent(s, t);
}

/// Helper of `lemma_type_count_absent`: a type that no agent has counts zero.
proof fn lemma_type_count_prefix_absent(s: Seq<AgentV>, t: Seq<char>)
    ensures
        (forall|k: int| 0 <= k < s.len() ==> #[trigger] s[k].agent_type != t) ==> type_count(s, t) == 0,
    decreases s.len(),
{
    if s.len() > 0 {
        lemma_type_count_prefix_absent(s.drop_last(), t);
        if forall|k: int| 0 <= k < s.len() ==> #[trigger] s[k].agent_type != t {
            assert(forall|k: int| 0 <= k < s.drop_last().len() ==> #[trigger] s.drop_last()[k].agent_type != t) by {
                assert forall|k: int| 0 <= k < s.drop_last().len() implies #[trigger] s.drop_last()[k].agent_type != t by {
                    assert(s.drop_last()[k] == s[k]);
                }
            }
            assert(s.last().agent_type != t) by {
                assert(s[s.len() - 1].agent_type != t);
            }
        }
    }
}

/// How many agents the classifier sends to a room: one count per room.
pub open spec fn rooms_of(s: Seq<AgentV>) -> RoomCounts {
    RoomCounts {
        desk: room_count(s, Room::Desk) as usize,
        meeting: room_count(s, Room::Meeting) as usize,
        lab: room_count(s, Room::Lab) as usize,
        transit: 0,
    }
}

/// A room count never exceeds the number of agents.
proof fn lemma_room_count_le(s: Seq<AgentV>, room: Room)
    ensures
        room_count(s, room) <= s.len(),
    decreases s.len(),
{
    if s.len() > 0 {
        lemma_room_count_le(s.drop_last(), room);
    }
}

/// The totals of a list of agents: how many, how many of each type (in
/// increasing order of type), how many in each room.
pub fn compute_agent_stats(agents: &Vec<Agent>) -> (st: AgentStats)
    ensures
        st.total == agents@.len(),
        type_table(table_view(st.by_type@), agents_view(agents@)),
        st.by_room == rooms_of(agents_view(agents@)),
{
    let ghost all = agents_view(agents@);
    let mut by_type: Vec<(String, usize)> = Vec::new();
    let mut desk: usize = 0;
    let mut meeting: usize = 0;
    let mut lab: usize = 0;
    let mut i: usize = 0;
    proof {
        assert(all.take(0) =~= Seq::<AgentV>::empty());
        assert(table_view(by_type@) =~= Seq::<(Seq<char>, usize)>::empty());
    }
    while i < agents.len()
        invariant
            all == agents_view(agents@),
            i <= agents@.len(),
            type_table(table_view(by_type@), all.take(i as int)),
            desk == room_count(all.take(i as int), Room::Desk),
            meeting == room_count(all.take(i as int), Room::Meeting),
            lab == room_count(all.take(i as int), Room::Lab),
        decreases agents@.len() - i,
    {
        let a = &agents[i];
        let ghost pre = all.take(i as int);
        proof {
            assert(all.take(i + 1) =~= pre.push(a@));
            assert(all.take(i + 1).drop_last() =~= pre);
            lemma_room_count_le(pre, Room::Desk);
            lemma_room_count_le(pre, Room::Meeting);
            lemma_room_count_le(pre, Room::Lab);
        }
        count_type(&mut by_type, &a.agent_type, Ghost(pre), Ghost(a@));
        match classify(a.agent_type.as_str(), a.description.as_str(), a.permission_mode.as_str()) {
            Room::Desk => desk = desk + 1,
            Room::Meeting => meeting = meeting + 1,
            Room::Lab => lab = lab + 1,
        }
        i = i + 1;
    }
    proof {
        assert(all.take(i as int) =~= all);
    }
    AgentStats {
        total: agents.len(),
        by_type,
        by_room: RoomCounts { desk, meeting, lab, transit: 0 },
    }
}

} // verus!
