//! The words the scene shows: the uptime line of the status readout, file
//! paths cut to their last two parts for the ticker, text cut to a panel's
//! width, and which agent's prompt the meeting-room whiteboard shows.

use vstd::prelude::*;
use crate::render::classify::Room;
use crate::render::sim_store::{SimAnim, SimState};
use crate::state::agent::Agent;
use crate::text::{chars_of, decimal, push_decimal, push_text, str_eq, string_from_chars};

verus! {

/// `"up {h}h {m}m"` for the whole hours and remaining whole minutes of `ms`.
pub open spec fn uptime_text(ms: u64) -> Seq<char> {
    let minutes = ms / 60_000;
    "up "@ + decimal((minutes / 60) as nat) + "h "@ + decimal((minutes % 60) as nat) + "m"@
}

/// The uptime line (see `uptime_text`).
pub fn format_uptime(ms: u64) -> (r: String)
    ensures
        r@ == uptime_text(ms),
{
    let total_minutes = ms / 60_000;
    let hours = total_minutes / 60;
    let minutes = total_minutes % 60;
    let mut v: Vec<char> = Vec::new();
    push_text(&mut v, "up ");
    push_decimal(&mut v, hours);
    push_text(&mut v, "h ");
    push_decimal(&mut v, minutes);
    push_text(&mut v, "m");
    string_from_chars(v)
}

/// `s` cut to `max` characters: unchanged when it fits, else its first
/// `max - 1` characters and a `~`.
pub open spec fn truncated(s: Seq<char>, max: usize) -> Seq<char> {
    if s.len() <= max {
        s
    } else {
        s.take(if max >= 1 { max - 1 } else { 0 }).push('~')
    }
}

/// Cuts `s` to `max` characters (see `truncated`).
pub fn truncate(s: &str, max: usize) -> (r: String)
    ensures
        r@ == truncated(s@, max),
{
    let cs = chars_of(s);
    if cs.len() <= max {
        return string_from_chars(cs);
    }
    let keep = max.saturating_sub(1);
    let mut v: Vec<char> = Vec::new();
    let mut i: usize = 0;
    while i < keep
        invariant
            cs@ == s@,
            keep < cs@.len(),
            i <= keep,
            v@ == cs@.take(i as int),
        decreases keep - i,
    {
        v.push(cs[i]);
        assert(cs@.take(i + 1) =~= cs@.take(i as int).push(cs@[i as int]));
        i = i + 1;
    }
    v.push('~');
    string_from_chars(v)
}

/// A path separator: a slash or a backslash.
pub open spec fn is_sep(c: char) -> bool {
    c == '/' || c == '\\'
}

/// `s` without its trailing separators.
pub open spec fn strip_seps(s: Seq<char>) -> Seq<char>
    decreases s.len(),
{
    if s.len() > 0 && is_sep(s.last()) {
        strip_seps(s.drop_last())
    } else {
        s
    }
}

/// The run of non-separators that `s` ends with.
pub open spec fn tail_seg(s: Seq<char>) -> Seq<char>
    decreases s.len(),
{
    if s.len() == 0 || is_sep(s.last()) {
        Seq::empty()
    } else {
        tail_seg(s.drop_last()).push(s.last())
    }
}

/// The last part of a path and the one before it, joined by `/`: the last
/// part alone when there is one, nothing when there is none. Slashes and
/// backslashes both separate parts; empty parts do not count.
pub open spec fn short_path_of(p: Seq<char>) -> Seq<char> {
    let a = strip_seps(p);
    let last = tail_seg(a);
    let b = strip_seps(a.take(a.len() - last.len()));
    let prev = tail_seg(b);
    if last.len() == 0 {
        Seq::empty()
    } else if prev.len() == 0 {
        last
    } else {
        prev + seq!['/'] + last
    }
}

fn sep(c: char) -> (r: bool)
    ensures
        r == is_sep(c),
{
    c == '/' || c == '\\'
}

/// Where the trailing separators of `v[..end]` begin.
fn skip_seps_back(v: &Vec<char>, end: usize) -> (r: usize)
    requires
        end <= v@.len(),
    ensures
        r <= end,
        strip_seps(v@.take(end as int)) == v@.take(r as int),
{
    let mut e = end;
    while e > 0 && sep(v[e - 1])
        invariant
            e <= end <= v@.len(),
            strip_seps(v@.take(end as int)) == strip_seps(v@.take(e as int)),
        decreases e,
    {
        assert(v@.take(e as int).drop_last() =~= v@.take(e - 1));
        e = e - 1;
    }
    e
}

/// Where the run of non-separators ending `v[..end]` begins.
fn skip_seg_back(v: &Vec<char>, end: usize) -> (r: usize)
    requires
        end <= v@.len(),
    ensures
        r <= end,
        tail_seg(v@.take(end as int)) == v@.subrange(r as int, end as int),
{
    let mut s = end;
    proof {
        assert(v@.subrange(end as int, end as int) =~= Seq::<char>::empty());
    }
    while s > 0 && !sep(v[s - 1])
        invariant
            s <= end <= v@.len(),
            tail_seg(v@.take(end as int)) == tail_seg(v@.take(s as int)) + v@.subrange(s as int, end as int),
        decreases s,
    {
        assert(v@.take(s as int).drop_last() =~= v@.take(s - 1));
        assert(v@.take(s as int).last() == v@[s - 1]);
        assert(v@.subrange(s - 1, end as int) =~= seq![v@[s - 1]] + v@.subrange(s as int, end as int));
        assert(tail_seg(v@.take(s - 1)).push(v@[s - 1]) + v@.subrange(s as int, end as int) =~= tail_seg(v@.take(s - 1)) + v@.subrange(s - 1, end as int));
        s = s - 1;
    }
    assert(tail_seg(v@.take(s as int)) =~= Seq::<char>::empty());
    assert(tail_seg(v@.take(end as int)) =~= v@.subrange(s as int, end as int));
    s
}

/// The last two parts of a path (see `short_path_of`).
pub fn short_path(p: &str) -> (r: String)
    ensures
        r@ == short_path_of(p@),
{
    let v = chars_of(p);
    let ghost a = strip_seps(p@);
    let end = skip_seps_back(&v, v.len());
    assert(v@.take(v@.len() as int) =~= v@);
    let start = skip_seg_back(&v, end);
    assert(a == v@.take(end as int));
    assert(tail_seg(a) == v@.subrange(start as int, end as int));
    assert(a.take(a.len() - tail_seg(a).len()) =~= v@.take(start as int));
    let mut out: Vec<char> = Vec::new();
    if start == end {
        return string_from_chars(out);
    }
    let end2 = skip_seps_back(&v, start);
    let start2 = skip_seg_back(&v, end2);
    assert(v@.take(start as int).take(end2 as int) =~= v@.take(end2 as int));
    if start2 < end2 {
        let mut i = start2;
        while i < end2
            invariant
                start2 <= i <= end2 <= v@.len(),
                out@ == v@.subrange(start2 as int, i as int),
            decreases end2 - i,
        {
            out.push(v[i]);
            assert(v@.subrange(start2 as int, i + 1) =~= v@.subrange(start2 as int, i as int).push(v@[i as int]));
            i = i + 1;
        }
        out.push('/');
    }
    let ghost head = out@;
    let mut i = start;
    assert(v@.subrange(start as int, start as int) =~= Seq::<char>::empty());
    while i < end
        invariant
            start <= i <= end <= v@.len(),
            out@ == head + v@.subrange(start as int, i as int),
        decreases end - i,
    {
        out.push(v[i]);
        assert(v@.subrange(start as int, i + 1) =~= v@.subrange(start as int, i as int).push(v@[i as int]));
        i = i + 1;
    }
    assert(out@ =~= short_path_of(p@));
    string_from_chars(out)
}


/// The first agent standing for `id`.
pub open spec fn agent_for(agents: Seq<Agent>, id: Seq<char>) -> Option<int> {
    if exists|j: int| 0 <= j < agents.len() && agents[j].agent_id@ == id {
        Some(choose|j: int| 0 <= j < agents.len() && agents[j].agent_id@ == id && forall|k: int| 0 <= k < j ==> agents[k].agent_id@ != id)
    } else {
        None
    }
}

/// The agent whose prompt a sprite would put on the whiteboard: a sprite
/// seated in the meeting room whose agent has a non-empty prompt.
pub open spec fn board_candidate<M>(s: SimAnim<M>, agents: Seq<Agent>) -> Option<int> {
    if s.state == SimState::Seated && s.room == Room::Meeting {
        match agent_for(agents, s.agent_id@) {
            Some(j) => match agents[j].session_prompt {
                Some(p) => if p@.len() > 0 { Some(j) } else { None },
                None => None,
            },
            None => None,
        }
    } else {
        None
    }
}

/// Sprite `i` has a candidate of type `preferred`.
pub open spec fn pref_ok<M>(sims: Seq<SimAnim<M>>, agents: Seq<Agent>, preferred: Seq<char>, i: int) -> bool {
    &&& 0 <= i < sims.len()
    &&& board_candidate(sims[i], agents) is Some
    &&& agents[board_candidate(sims[i], agents)->0].agent_type@ == preferred
}

/// Sprite `i` has a candidate.
pub open spec fn any_ok<M>(sims: Seq<SimAnim<M>>, agents: Seq<Agent>, i: int) -> bool {
    0 <= i < sims.len() && board_candidate(sims[i], agents) is Some
}

/// The first sprite with a candidate of type `preferred`, if any.
#[verifier::opaque]
pub open spec fn first_preferred<M>(sims: Seq<SimAnim<M>>, agents: Seq<Agent>, preferred: Seq<char>) -> Option<int> {
    if exists|i: int| pref_ok(sims, agents, preferred, i) {
        Some(choose|i: int| pref_ok(sims, agents, preferred, i) && forall|k: int| 0 <= k < i ==> !pref_ok(sims, agents, preferred, k))
    } else {
        None
    }
}

/// The first sprite with a candidate, if any.
#[verifier::opaque]
pub open spec fn first_candidate<M>(sims: Seq<SimAnim<M>>, agents: Seq<Agent>) -> Option<int> {
    if exists|i: int| any_ok(sims, agents, i) {
        Some(choose|i: int| any_ok(sims, agents, i) && forall|k: int| 0 <= k < i ==> !any_ok(sims, agents, k))
    } else {
        None
    }
}

/// The agent whose prompt the whiteboard shows: among the sprites seated in
/// the meeting room whose agents have a prompt, the first whose agent is of
/// type `preferred` (the main session's type), else the first of them.
pub open spec fn whiteboard_pick<M>(sims: Seq<SimAnim<M>>, agents: Seq<Agent>, preferred: Seq<char>) -> Option<int> {
    match first_preferred(sims, agents, preferred) {
        Some(i) => board_candidate(sims[i], agents),
        None => match first_candidate(sims, agents) {
            Some(i) => board_candidate(sims[i], agents),
            None => None,
        },
    }
}

pub(crate) fn find_agent(agents: &Vec<Agent>, id: &str) -> (r: Option<usize>)
    ensures
        r is Some ==> r->0 < agents@.len(),
        match r {
            Some(j) => agent_for(agents@, id@) == Some(j as int),
            None => agent_for(agents@, id@) is None,
        },
{
    let mut j: usize = 0;
    while j < agents.len()
        invariant
            j <= agents@.len(),
            forall|k: int| 0 <= k < j ==> agents@[k].agent_id@ != id@,
        decreases agents@.len() - j,
    {
        if str_eq(agents[j].agent_id.as_str(), id) {
            proof {
                let c = choose|q: int| 0 <= q < agents@.len() && agents@[q].agent_id@ == id@ && forall|k: int| 0 <= k < q ==> agents@[k].agent_id@ != id@;
                if c < j {
                    assert(agents@[c].agent_id@ != id@);
                } else if c > j {
                    assert(agents@[j as int].agent_id@ != id@);
                }
            }
            return Some(j);
        }
        j = j + 1;
    }
    None
}

fn candidate<M>(s: &SimAnim<M>, agents: &Vec<Agent>) -> (r: Option<usize>)
    ensures
        match r {
            Some(j) => board_candidate(*s, agents@) == Some(j as int),
            None => board_candidate(*s, agents@) is None,
        },
        r is Some ==> r->0 < agents@.len(),
{
    let seated = match s.state {
        SimState::Seated => true,
        _ => false,
    };
    let meeting = match s.room {
        Room::Meeting => true,
        _ => false,
    };
    if !seated || !meeting {
        return None;
    }
    let found = find_agent(agents, s.agent_id.as_str());
    match found {
        None => None,
        Some(j) => {
            assert(agent_for(agents@, s.agent_id@) == Some(j as int));
            match &agents[j].session_prompt {
                Some(p) => {
                    if p.as_str().unicode_len() > 0 {
                        Some(j)
                    } else {
                        None
                    }
                },
                None => None,
            }
        },
    }
}

proof fn lemma_first_preferred<M>(sims: Seq<SimAnim<M>>, agents: Seq<Agent>, preferred: Seq<char>, n: int)
    requires
        0 <= n <= sims.len(),
        forall|k: int| 0 <= k < n ==> !pref_ok(sims, agents, preferred, k),
        n == sims.len() || pref_ok(sims, agents, preferred, n),
    ensures
        first_preferred(sims, agents, preferred) == if n == sims.len() { None } else { Some(n) },
{
    reveal(first_preferred);
    if n < sims.len() {
        let c = choose|q: int| pref_ok(sims, agents, preferred, q) && forall|k: int| 0 <= k < q ==> !pref_ok(sims, agents, preferred, k);
        if c < n {
            assert(!pref_ok(sims, agents, preferred, c));
        } else if c > n {
            assert(!pref_ok(sims, agents, preferred, n));
        }
    } else {
        assert(!(exists|q: int| pref_ok(sims, agents, preferred, q)));
    }
}

proof fn lemma_first_candidate<M>(sims: Seq<SimAnim<M>>, agents: Seq<Agent>, n: int)
    requires
        0 <= n <= sims.len(),
        forall|k: int| 0 <= k < n ==> !any_ok(sims, agents, k),
        n == sims.len() || any_ok(sims, agents, n),
    ensures
        first_candidate(sims, agents) == if n == sims.len() { None } else { Some(n) },
{
    reveal(first_candidate);
    if n < sims.len() {
        let c = choose|q: int| any_ok(sims, agents, q) && forall|k: int| 0 <= k < q ==> !any_ok(sims, agents, k);
        if c < n {
            assert(!any_ok(sims, agents, c));
        } else if c > n {
            assert(!any_ok(sims, agents, n));
        }
    } else {
        assert(!(exists|q: int| any_ok(sims, agents, q)));
    }
}

/// Picks the agent whose prompt the whiteboard shows (see `whiteboard_pick`).
pub fn pick_whiteboard_agent<'a, M>(sims: &Vec<SimAnim<M>>, agents: &'a Vec<Agent>, preferred: &str) -> (r: Option<&'a Agent>)
    ensures
        r == match whiteboard_pick(sims@, agents@, preferred@) {
            Some(j) => Some(&agents@[j]),
            None => None::<&Agent>,
        },
{
    let mut i: usize = 0;
    while i < sims.len()
        invariant
            i <= sims@.len(),
            forall|k: int| 0 <= k < i ==> !pref_ok(sims@, agents@, preferred@, k),
        decreases sims@.len() - i,
    {
        let c = candidate(&sims[i], agents);
        match c {
            Some(j) => {
                if str_eq(agents[j].agent_type.as_str(), preferred) {
                    proof {
                        assert(pref_ok(sims@, agents@, preferred@, i as int));
                        lemma_first_preferred(sims@, agents@, preferred@, i as int);
                    }
                    return Some(&agents[j]);
                }
            },
            None => {},
        }
        assert(!pref_ok(sims@, agents@, preferred@, i as int));
        i = i + 1;
    }
    proof {
        lemma_first_preferred(sims@, agents@, preferred@, sims@.len() as int);
    }
    let mut i: usize = 0;
    while i < sims.len()
        invariant
            i <= sims@.len(),
            first_preferred(sims@, agents@, preferred@) is None,
            forall|k: int| 0 <= k < i ==> !any_ok(sims@, agents@, k),
        decreases sims@.len() - i,
    {
        let c = candidate(&sims[i], agents);
        match c {
            Some(j) => {
                proof {
                    assert(any_ok(sims@, agents@, i as int));
                    lemma_first_candidate(sims@, agents@, i as int);
                }
                return Some(&agents[j]);
            },
            None => {},
        }
        assert(!any_ok(sims@, agents@, i as int));
        i = i + 1;
    }
    proof {
        lemma_first_candidate(sims@, agents@, sims@.len() as int);
    }
    None
}

} // verus!
