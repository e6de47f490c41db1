//! Ambient effects: tethers from parent to child agents, error halos, file
//! ticks and lab-bench flashes, with the per-frame limits that bound them.

use vstd::prelude::*;
use std::collections::VecDeque;
use crate::config::{Config, default_config};
use crate::render::palette::{Rgb, mote_color, mote_color_of, sim_colors, sim_colors_of};
use crate::render::sim_store::{sims_view, SimAnim, SimState, SimV};
use crate::state::agent::{Agent, AgentV};
use crate::state::events::Event;
use crate::text::str_eq;

verus! {

/// The effect lifetimes and caps of one frame, taken from the configuration.
#[derive(Clone, Copy, Debug, PartialEq, Eq)]
pub struct FxLimits {
    pub footstep_lifetime_ms: u64,
    pub footstep_interval_ms: u64,
    pub mote_lifetime_ms: u64,
    pub mote_cap: usize,
    pub tether_lifetime_ms: u64,
    pub halo_lifetime_ms: u64,
    pub file_tick_ms: u64,
    pub file_tick_cap: usize,
    pub bench_flash_ms: u64,
}

/// The limits that a configuration sets.
pub open spec fn limits_of(c: Config) -> FxLimits {
    FxLimits {
        footstep_lifetime_ms: c.footstep_lifetime_ms,
        footstep_interval_ms: c.footstep_interval_ms,
        mote_lifetime_ms: c.mote_lifetime_ms,
        mote_cap: c.mote_cap,
        tether_lifetime_ms: c.tether_lifetime_ms,
        halo_lifetime_ms: c.halo_lifetime_ms,
        file_tick_ms: c.file_tick_ms,
        file_tick_cap: c.file_tick_cap,
        bench_flash_ms: c.bench_flash_ms,
    }
}

impl FxLimits {
    /// Copies the effect limits out of a configuration.
    pub fn from_config(c: &Config) -> (l: Self)
        ensures
            l == limits_of(*c),
    {
        FxLimits {
            footstep_lifetime_ms: c.footstep_lifetime_ms,
            footstep_interval_ms: c.footstep_interval_ms,
            mote_lifetime_ms: c.mote_lifetime_ms,
            mote_cap: c.mote_cap,
            tether_lifetime_ms: c.tether_lifetime_ms,
            halo_lifetime_ms: c.halo_lifetime_ms,
            file_tick_ms: c.file_tick_ms,
            file_tick_cap: c.file_tick_cap,
            bench_flash_ms: c.bench_flash_ms,
        }
    }
}

impl Default for FxLimits {
    fn default() -> (l: Self)
        ensures
            l == limits_of(default_config()),
    {
        let c = Config::default();
        FxLimits::from_config(&c)
    }
}

/// A line from a parent agent's sprite to a child it spawned.
#[derive(Clone, Debug)]
pub struct Tether {
    pub parent: String,
    pub child: String,
    pub born_ms: u64,
}

/// A ring around an agent whose tool call failed.
#[derive(Clone, Debug)]
pub struct Halo {
    pub agent_id: String,
    pub born_ms: u64,
}

/// A file path scrolling through the ticker.
#[derive(Clone, Debug)]
pub struct FileTick {
    pub path: String,
    pub born_ms: u64,
}

/// A lab monitor lit by the result of a shell command.
#[derive(Clone, Copy, Debug, PartialEq, Eq, Structural)]
pub struct BenchFlash {
    pub station_idx: usize,
    pub ok: bool,
    pub born_ms: u64,
}

/// A footprint left by a walking sprite at `at`, a position in world pixels.
#[derive(Clone, Debug)]
pub struct Footstep<P> {
    pub agent_id: String,
    pub at: P,
    pub color: Rgb,
    pub born_ms: u64,
}

/// A coloured dot rising from a sprite at `at` when its agent uses a tool.
#[derive(Clone, Debug)]
pub struct Mote<P> {
    pub agent_id: String,
    pub at: P,
    pub color: Rgb,
    pub born_ms: u64,
}

/// How many milliseconds have passed since `t`, zero when `t` lies ahead.
pub open spec fn age(now: u64, t: u64) -> int {
    if now >= t {
        now - t
    } else {
        0
    }
}

/// An effect that knows when it appeared.
pub trait Stamped {
    /// When the effect appeared, in milliseconds.
    spec fn stamp(&self) -> u64;

    /// When the effect appeared, in milliseconds.
    fn born(&self) -> (r: u64)
        ensures
            r == self.stamp(),
    ;
}

/// The effects of type `T` that are still visible at `now` after living `life`.
pub open spec fn fresh<T: Stamped>(now: u64, life: u64) -> spec_fn(T) -> bool {
    |t: T| age(now, t.stamp()) <= life
}

/// The number of leading entries older than `life`.
pub open spec fn stale_prefix<T: Stamped>(s: Seq<T>, now: u64, life: u64) -> nat
    decreases s.len(),
{
    if s.len() > 0 && age(now, s[0].stamp()) > life {
        1 + stale_prefix(s.drop_first(), now, life)
    } else {
        0
    }
}

/// A ring buffer bounded by `cap` after one more entry arrives: the entries
/// that stay, oldest first. With a cap of zero nothing stays.
pub open spec fn room_for_one<T>(s: Seq<T>, cap: usize) -> Seq<T> {
    if cap == 0 {
        Seq::empty()
    } else if s.len() >= cap {
        s.skip(s.len() - cap + 1)
    } else {
        s
    }
}

/// The index of the first halo of an agent, if any.
pub open spec fn halo_index(s: Seq<Halo>, id: Seq<char>) -> Option<int> {
    if exists|i: int| 0 <= i < s.len() && s[i].agent_id@ == id {
        Some(choose|i: int| 0 <= i < s.len() && s[i].agent_id@ == id && forall|j: int| 0 <= j < i ==> s[j].agent_id@ != id)
    } else {
        None
    }
}

/// The index of the first flash of a station, if any.
pub open spec fn flash_index(s: Seq<BenchFlash>, station: usize) -> Option<int> {
    if exists|i: int| 0 <= i < s.len() && s[i].station_idx == station {
        Some(choose|i: int| 0 <= i < s.len() && s[i].station_idx == station && forall|j: int| 0 <= j < i ==> s[j].station_idx != station)
    } else {
        None
    }
}

/// No two halos belong to the same agent.
pub open spec fn distinct_halos(s: Seq<Halo>) -> bool {
    forall|i: int, j: int| 0 <= i < j < s.len() ==> (#[trigger] s[i]).agent_id@ != (#[trigger] s[j]).agent_id@
}

/// No two flashes light the same station.
pub open spec fn distinct_flashes(s: Seq<BenchFlash>) -> bool {
    forall|i: int, j: int| 0 <= i < j < s.len() ==> (#[trigger] s[i]).station_idx != (#[trigger] s[j]).station_idx
}

/// Whether a sprite in state `state` that last left a footprint at `last_ms`
/// (zero for never) leaves one at `now_ms`.
pub open spec fn footstep_due_at(state: SimState, last_ms: u64, now_ms: u64, interval_ms: u64) -> bool {
    (state == SimState::WalkingIn || state == SimState::WalkingOut) && (last_ms == 0 || age(now_ms, last_ms) >= interval_ms)
}

impl<P> Stamped for Footstep<P> {
    open spec fn stamp(&self) -> u64 {
        self.born_ms
    }

    fn born(&self) -> (r: u64) {
        self.born_ms
    }
}

impl<P> Stamped for Mote<P> {
    open spec fn stamp(&self) -> u64 {
        self.born_ms
    }

    fn born(&self) -> (r: u64) {
        self.born_ms
    }
}

impl Stamped for Tether {
    open spec fn stamp(&self) -> u64 {
        self.born_ms
    }

    fn born(&self) -> (r: u64) {
        self.born_ms
    }
}

impl Stamped for Halo {
    open spec fn stamp(&self) -> u64 {
        self.born_ms
    }

    fn born(&self) -> (r: u64) {
        self.born_ms
    }
}

impl Stamped for FileTick {
    open spec fn stamp(&self) -> u64 {
        self.born_ms
    }

    fn born(&self) -> (r: u64) {
        self.born_ms
    }
}

impl Stamped for BenchFlash {
    open spec fn stamp(&self) -> u64 {
        self.born_ms
    }

    fn born(&self) -> (r: u64) {
        self.born_ms
    }
}

/// Whether an effect is still visible.
fn is_fresh<T: Stamped>(t: &T, now: u64, life: u64) -> (r: bool)
    ensures
        r == fresh::<T>(now, life)(*t),
{
    let b = t.born();
    let a = if now >= b { now - b } else { 0 };
    a <= life
}

/// Keeps the effects that are still visible, in their order.
fn retain_fresh<T: Stamped>(v: &mut Vec<T>, now: u64, life: u64)
    ensures
        final(v)@ == old(v)@.filter(fresh::<T>(now, life)),
{
    let ghost orig = v@;
    let ghost pred = fresh::<T>(now, life);
    let mut i: usize = 0;
    let ghost mut j: int = 0;
    while i < v.len()
        invariant
            pred == fresh::<T>(now, life),
            0 <= j <= orig.len(),
            v@ == orig.take(j).filter(pred) + orig.skip(j),
            i == orig.take(j).filter(pred).len(),
        decreases orig.len() - j,
    {
        proof {
            assert(v@[i as int] == orig[j]);
            assert(orig.take(j + 1) =~= orig.take(j).push(orig[j]));
            orig.take(j).lemma_filter_push(orig[j], pred);
            assert(orig.skip(j) =~= seq![orig[j]] + orig.skip(j + 1));
        }
        if is_fresh(&v[i], now, life) {
            proof {
                assert(v@ =~= orig.take(j + 1).filter(pred) + orig.skip(j + 1));
            }
            i = i + 1;
        } else {
            v.remove(i);
            proof {
                assert(v@ =~= orig.take(j + 1).filter(pred) + orig.skip(j + 1));
            }
        }
        proof {
            j = j + 1;
        }
    }
    proof {
        orig.take(j).lemma_filter_len(pred);
        assert(orig.skip(j).len() == 0);
        assert(j == orig.len());
        assert(orig.take(j) =~= orig);
        assert(v@ =~= orig.filter(pred));
    }
}

/// Drops the leading effects that are no longer visible.
fn drop_stale_front<T: Stamped>(q: &mut VecDeque<T>, now: u64, life: u64)
    ensures
        final(q)@ == old(q)@.skip(stale_prefix(old(q)@, now, life) as int),
{
    let ghost orig = q@;
    let ghost mut k: int = 0;
    assert(orig.skip(0) =~= orig);
    while q.len() > 0 && !is_fresh(&q[0], now, life)
        invariant
            0 <= k <= orig.len(),
            q@ == orig.skip(k),
            stale_prefix(orig, now, life) == k + stale_prefix(orig.skip(k), now, life),
        decreases q@.len(),
    {
        q.pop_front();
        proof {
            assert(orig.skip(k).drop_first() =~= orig.skip(k + 1));
            k = k + 1;
        }
    }
}

/// Makes room for one more entry under `cap`, dropping the oldest, and adds
/// `item` at the back; with a cap of zero the queue is emptied instead.
fn push_capped<T>(q: &mut VecDeque<T>, item: T, cap: usize)
    ensures
        final(q)@ == if cap == 0 {
            Seq::<T>::empty()
        } else {
            room_for_one(old(q)@, cap).push(item)
        },
{
    let ghost orig = q@;
    let ghost mut k: int = 0;
    assert(orig.skip(0) =~= orig);
    while q.len() >= cap && q.len() > 0
        invariant
            0 <= k <= orig.len(),
            q@ == orig.skip(k),
            k == 0 || orig.len() - k + 1 >= cap,
        decreases q@.len(),
    {
        q.pop_front();
        proof {
            assert(orig.skip(k).drop_first() =~= orig.skip(k + 1));
            k = k + 1;
        }
    }
    if cap == 0 {
        assert(q@ =~= Seq::<T>::empty());
        return;
    }
    proof {
        if orig.len() >= cap {
            assert(k == orig.len() - cap + 1);
        } else {
            assert(k == 0);
            assert(orig.skip(0) =~= orig);
        }
    }
    q.push_back(item);
}

/// The ambient effects on screen, each with the time it appeared.
pub struct FxStore<P> {
    pub footsteps: Vec<Footstep<P>>,
    pub motes: VecDeque<Mote<P>>,
    pub tethers: Vec<Tether>,
    pub halos: Vec<Halo>,
    pub file_ticks: VecDeque<FileTick>,
    pub bench_flashes: Vec<BenchFlash>,
}

/// `spawn_mote`: a mote of the tool's colour rises where the agent's sprite
/// stands, the oldest motes making room under the cap; nothing without a
/// sprite. The other effects stay.
pub open spec fn mote_spawned<P>(
    s0: FxStore<P>,
    s1: FxStore<P>,
    agent_id: Seq<char>,
    tool_name: Seq<char>,
    at: Option<P>,
    now_ms: u64,
    limits: FxLimits,
) -> bool {
    &&& s1.footsteps@ == s0.footsteps@
    &&& s1.tethers@ == s0.tethers@
    &&& s1.halos@ == s0.halos@
    &&& s1.file_ticks@ == s0.file_ticks@
    &&& s1.bench_flashes@ == s0.bench_flashes@
    &&& at is None ==> s1.motes@ == s0.motes@
    &&& at is Some && limits.mote_cap == 0 ==> s1.motes@.len() == 0
    &&& at is Some && limits.mote_cap > 0 ==> {
        let m = s1.motes@.last();
        &&& s1.motes@.len() > 0
        &&& s1.motes@.drop_last() == room_for_one(s0.motes@, limits.mote_cap)
        &&& m.agent_id@ == agent_id
        &&& Some(m.at) == at
        &&& m.color == mote_color_of(tool_name)
        &&& m.born_ms == now_ms
    }
}

/// `add_tether`: a tether from the named session to the new agent, when the
/// session is another one and has a sprite. The other effects stay.
pub open spec fn tether_added<P>(s0: FxStore<P>, s1: FxStore<P>, agent: AgentV, parent_present: bool, now_ms: u64) -> bool {
    let joined = agent.session_id is Some && agent.session_id.unwrap() != agent.agent_id && parent_present;
    &&& s1.footsteps@ == s0.footsteps@
    &&& s1.motes@ == s0.motes@
    &&& s1.halos@ == s0.halos@
    &&& s1.file_ticks@ == s0.file_ticks@
    &&& s1.bench_flashes@ == s0.bench_flashes@
    &&& !joined ==> s1.tethers@ == s0.tethers@
    &&& joined ==> {
        let t = s1.tethers@.last();
        &&& s1.tethers@.len() == s0.tethers@.len() + 1
        &&& s1.tethers@.drop_last() == s0.tethers@
        &&& t.parent@ == agent.session_id.unwrap()
        &&& t.child@ == agent.agent_id
        &&& t.born_ms == now_ms
    }
}

/// `flag_error`: the agent's halo restarts, or a new one appears at the end;
/// halos stay one per agent. The other effects stay.
pub open spec fn error_flagged<P>(s0: FxStore<P>, s1: FxStore<P>, agent_id: Seq<char>, now_ms: u64) -> bool {
    &&& s1.footsteps@ == s0.footsteps@
    &&& s1.motes@ == s0.motes@
    &&& s1.tethers@ == s0.tethers@
    &&& s1.file_ticks@ == s0.file_ticks@
    &&& s1.bench_flashes@ == s0.bench_flashes@
    &&& match halo_index(s0.halos@, agent_id) {
        Some(i) => {
            &&& s1.halos@.len() == s0.halos@.len()
            &&& forall|k: int| 0 <= k < s0.halos@.len() && k != i ==> #[trigger] s1.halos@[k] == s0.halos@[k]
            &&& s1.halos@[i].agent_id@ == agent_id
            &&& s1.halos@[i].born_ms == now_ms
        },
        None => {
            &&& s1.halos@.len() == s0.halos@.len() + 1
            &&& s1.halos@.drop_last() == s0.halos@
            &&& s1.halos@.last().agent_id@ == agent_id
            &&& s1.halos@.last().born_ms == now_ms
        },
    }
    &&& distinct_halos(s0.halos@) ==> distinct_halos(s1.halos@)
}

/// `add_file_tick`: the path joins the ticker, the oldest making room under
/// the cap; an empty path changes nothing. The other effects stay.
pub open spec fn file_ticked<P>(s0: FxStore<P>, s1: FxStore<P>, path: Seq<char>, now_ms: u64, limits: FxLimits) -> bool {
    &&& s1.footsteps@ == s0.footsteps@
    &&& s1.motes@ == s0.motes@
    &&& s1.tethers@ == s0.tethers@
    &&& s1.halos@ == s0.halos@
    &&& s1.bench_flashes@ == s0.bench_flashes@
    &&& path.len() == 0 ==> s1.file_ticks@ == s0.file_ticks@
    &&& path.len() > 0 && limits.file_tick_cap == 0 ==> s1.file_ticks@.len() == 0
    &&& path.len() > 0 && limits.file_tick_cap > 0 ==> {
        &&& s1.file_ticks@.len() > 0
        &&& s1.file_ticks@.drop_last() == room_for_one(s0.file_ticks@, limits.file_tick_cap)
        &&& s1.file_ticks@.last().path@ == path
        &&& s1.file_ticks@.last().born_ms == now_ms
    }
}

/// `flash_bench`: the station's flash restarts with the result, or a new one
/// appears at the end; nothing without a station. Flashes stay one per
/// station. The other effects stay.
pub open spec fn bench_flashed<P>(s0: FxStore<P>, s1: FxStore<P>, station: Option<usize>, ok: bool, now_ms: u64) -> bool {
    &&& s1.footsteps@ == s0.footsteps@
    &&& s1.motes@ == s0.motes@
    &&& s1.tethers@ == s0.tethers@
    &&& s1.halos@ == s0.halos@
    &&& s1.file_ticks@ == s0.file_ticks@
    &&& s1.bench_flashes@ == match station {
        None => s0.bench_flashes@,
        Some(idx) => match flash_index(s0.bench_flashes@, idx) {
            Some(i) => s0.bench_flashes@.update(i, BenchFlash { station_idx: idx, ok, born_ms: now_ms }),
            None => s0.bench_flashes@.push(BenchFlash { station_idx: idx, ok, born_ms: now_ms }),
        },
    }
    &&& distinct_flashes(s0.bench_flashes@) ==> distinct_flashes(s1.bench_flashes@)
}

/// What one event of the state machine does to the effects (see `ingest`).
pub open spec fn ingested<P>(
    s0: FxStore<P>,
    s1: FxStore<P>,
    event: Event,
    at: Option<P>,
    station: Option<usize>,
    parent_present: bool,
    now_ms: u64,
    limits: FxLimits,
) -> bool {
    match event {
        Event::Tool { agent_id, tool_name, .. } => mote_spawned(s0, s1, agent_id@, tool_name@, at, now_ms, limits),
        Event::Start { agent } => tether_added(s0, s1, agent@, parent_present, now_ms),
        Event::ToolError { agent_id, .. } => error_flagged(s0, s1, agent_id@, now_ms),
        Event::FileTouch { path, .. } => file_ticked(s0, s1, path@, now_ms, limits),
        Event::BashResult { ok, .. } => bench_flashed(s0, s1, station, ok, now_ms),
        _ => s1 == s0,
    }
}

/// Whether a sprite leaves a footprint now (see `footstep_due_at`).
pub fn footstep_due(state: SimState, last_footstep_ms: u64, now_ms: u64, interval_ms: u64) -> (r: bool)
    ensures
        r == footstep_due_at(state, last_footstep_ms, now_ms, interval_ms),
{
    let walking = match state {
        SimState::WalkingIn | SimState::WalkingOut => true,
        _ => false,
    };
    walking && (last_footstep_ms == 0 || now_ms.saturating_sub(last_footstep_ms) >= interval_ms)
}

impl<P> FxStore<P> {
    /// No effects.
    pub fn new() -> (s: Self)
        ensures
            s.footsteps@.len() == 0,
            s.motes@.len() == 0,
            s.tethers@.len() == 0,
            s.halos@.len() == 0,
            s.file_ticks@.len() == 0,
            s.bench_flashes@.len() == 0,
    {
        FxStore {
            footsteps: Vec::new(),
            motes: VecDeque::new(),
            tethers: Vec::new(),
            halos: Vec::new(),
            file_ticks: VecDeque::new(),
            bench_flashes: Vec::new(),
        }
    }

    /// A tool call of an agent whose sprite stands at `at` (nothing when the
    /// agent has no sprite): a mote of the tool's colour rises there, the
    /// oldest motes making room under the cap.
    pub fn spawn_mote(&mut self, agent_id: &str, tool_name: &str, at: Option<P>, now_ms: u64, limits: &FxLimits)
        ensures
            mote_spawned(*old(self), *final(self), agent_id@, tool_name@, at, now_ms, *limits),
    {
        match at {
            None => {},
            Some(p) => {
                let m = Mote { agent_id: agent_id.to_string(), at: p, color: mote_color(tool_name), born_ms: now_ms };
                let ghost before = self.motes@;
                push_capped(&mut self.motes, m, limits.mote_cap);
                proof {
                    if limits.mote_cap > 0 {
                        assert(self.motes@.drop_last() =~= room_for_one(before, limits.mote_cap));
                    }
                }
            },
        }
    }

    /// One event of the state machine. The caller says what the sprites
    /// know of it: where the event's agent stands (`at`, for a mote), the
    /// lab station nearest to that agent (`station`, for a shell result), and
    /// whether a new agent's session has a sprite (`parent_present`, for a
    /// tether). Tool calls spawn motes, new agents tethers, tool errors
    /// halos, touched files ticker lines and shell results bench flashes;
    /// every other event leaves the effects as they are.
    pub fn ingest(
        &mut self,
        event: &Event,
        at: Option<P>,
        station: Option<usize>,
        parent_present: bool,
        now_ms: u64,
        limits: &FxLimits,
    )
        ensures
            ingested(*old(self), *final(self), *event, at, station, parent_present, now_ms, *limits),
    {
        match event {
            Event::Tool { agent_id, tool_name, .. } => {
                self.spawn_mote(agent_id.as_str(), tool_name.as_str(), at, now_ms, limits);
            },
            Event::Start { agent } => {
                self.add_tether(agent, parent_present, now_ms);
            },
            Event::ToolError { agent_id, .. } => {
                self.flag_error(agent_id.as_str(), now_ms);
            },
            Event::FileTouch { path, .. } => {
                self.add_file_tick(path.as_str(), now_ms, limits);
            },
            Event::BashResult { ok, .. } => {
                self.flash_bench(station, *ok, now_ms);
            },
            _ => {},
        }
    }

    /// A new agent: when it names a session other than itself whose sprite is
    /// on screen (`parent_present`), a tether joins the two.
    pub fn add_tether(&mut self, agent: &Agent, parent_present: bool, now_ms: u64)
        ensures
            tether_added(*old(self), *final(self), agent@, parent_present, now_ms),
    {
        match &agent.session_id {
            None => {},
            Some(sid) => {
                if str_eq(sid.as_str(), agent.agent_id.as_str()) {
                    return;
                }
                if !parent_present {
                    return;
                }
                let ghost before = self.tethers@;
                self.tethers.push(Tether { parent: sid.clone(), child: agent.agent_id.clone(), born_ms: now_ms });
                assert(self.tethers@.drop_last() =~= before);
            },
        }
    }

    /// A failed tool call: the agent's halo restarts, or a new one appears.
    pub fn flag_error(&mut self, agent_id: &str, now_ms: u64)
        ensures
            error_flagged(*old(self), *final(self), agent_id@, now_ms),
    {
        let ghost before = self.halos@;
        let mut i: usize = 0;
        while i < self.halos.len()
            invariant
                self.halos@ == before,
                before == old(self).halos@,
                self.footsteps@ == old(self).footsteps@,
                self.motes@ == old(self).motes@,
                self.tethers@ == old(self).tethers@,
                self.file_ticks@ == old(self).file_ticks@,
                self.bench_flashes@ == old(self).bench_flashes@,
                i <= before.len(),
                forall|j: int| 0 <= j < i ==> before[j].agent_id@ != agent_id@,
            decreases before.len() - i,
        {
            if str_eq(self.halos[i].agent_id.as_str(), agent_id) {
                proof {
                    assert(halo_index(before, agent_id@) == Some(i as int)) by {
                        let c = choose|k: int| 0 <= k < before.len() && before[k].agent_id@ == agent_id@ && forall|j: int| 0 <= j < k ==> before[j].agent_id@ != agent_id@;
                        if c < i {
                            assert(before[c].agent_id@ != agent_id@);
                        } else if c > i {
                            assert(before[i as int].agent_id@ != agent_id@);
                        }
                    }
                }
                self.halos.set(i, Halo { agent_id: agent_id.to_string(), born_ms: now_ms });
                proof {
                    if distinct_halos(before) {
                        assert forall|p: int, q: int| 0 <= p < q < self.halos@.len() implies (#[trigger] self.halos@[p]).agent_id@ != (#[trigger] self.halos@[q]).agent_id@ by {
                            if p != i && q != i {
                                assert(self.halos@[p] == before[p] && self.halos@[q] == before[q]);
                            } else if p == i {
                                assert(self.halos@[q] == before[q]);
                                assert(before[i as int].agent_id@ != before[q].agent_id@);
                            } else {
                                assert(self.halos@[p] == before[p]);
                                assert(before[p].agent_id@ != before[i as int].agent_id@);
                            }
                        }
                    }
                }
                return;
            }
            i = i + 1;
        }
        proof {
            assert(!(exists|k: int| 0 <= k < before.len() && before[k].agent_id@ == agent_id@));
        }
        self.halos.push(Halo { agent_id: agent_id.to_string(), born_ms: now_ms });
        assert(self.halos@.drop_last() =~= before);
        proof {
            if distinct_halos(before) {
                assert forall|p: int, q: int| 0 <= p < q < self.halos@.len() implies (#[trigger] self.halos@[p]).agent_id@ != (#[trigger] self.halos@[q]).agent_id@ by {
                    assert(self.halos@[p] == before[p]);
                    if q < before.len() {
                        assert(self.halos@[q] == before[q]);
                    } else {
                        assert(before[p].agent_id@ != agent_id@);
                    }
                }
            }
        }
    }

    /// A touched file: its path joins the ticker, the oldest making room under
    /// the cap; an empty path is ignored.
    pub fn add_file_tick(&mut self, path: &str, now_ms: u64, limits: &FxLimits)
        ensures
            file_ticked(*old(self), *final(self), path@, now_ms, *limits),
    {
        if path.is_empty() {
            return;
        }
        let ghost before = self.file_ticks@;
        push_capped(&mut self.file_ticks, FileTick { path: path.to_string(), born_ms: now_ms }, limits.file_tick_cap);
        proof {
            if limits.file_tick_cap > 0 {
                assert(self.file_ticks@.drop_last() =~= room_for_one(before, limits.file_tick_cap));
            }
        }
    }

    /// A shell command finished near lab station `station` (nothing when the
    /// agent has no sprite): that station's flash restarts with the result,
    /// or a new flash appears.
    pub fn flash_bench(&mut self, station: Option<usize>, ok: bool, now_ms: u64)
        ensures
            bench_flashed(*old(self), *final(self), station, ok, now_ms),
    {
        let idx = match station {
            None => {
                return;
            },
            Some(idx) => idx,
        };
        let ghost before = self.bench_flashes@;
        let flash = BenchFlash { station_idx: idx, ok, born_ms: now_ms };
        let mut i: usize = 0;
        while i < self.bench_flashes.len()
            invariant
                self.bench_flashes@ == before,
                before == old(self).bench_flashes@,
                self.footsteps@ == old(self).footsteps@,
                self.motes@ == old(self).motes@,
                self.tethers@ == old(self).tethers@,
                self.halos@ == old(self).halos@,
                self.file_ticks@ == old(self).file_ticks@,
                flash == (BenchFlash { station_idx: idx, ok, born_ms: now_ms }),
                station == Some(idx),
                i <= before.len(),
                forall|j: int| 0 <= j < i ==> before[j].station_idx != idx,
            decreases before.len() - i,
        {
            if self.bench_flashes[i].station_idx == idx {
                proof {
                    assert(flash_index(before, idx) == Some(i as int)) by {
                        let c = choose|k: int| 0 <= k < before.len() && before[k].station_idx == idx && forall|j: int| 0 <= j < k ==> before[j].station_idx != idx;
                        if c < i {
                            assert(before[c].station_idx != idx);
                        } else if c > i {
                            assert(before[i as int].station_idx != idx);
                        }
                    }
                }
                self.bench_flashes.set(i, flash);
                proof {
                    if distinct_flashes(before) {
                        assert forall|p: int, q: int| 0 <= p < q < self.bench_flashes@.len() implies (#[trigger] self.bench_flashes@[p]).station_idx != (#[trigger] self.bench_flashes@[q]).station_idx by {
                            if p != i && q != i {
                                assert(self.bench_flashes@[p] == before[p] && self.bench_flashes@[q] == before[q]);
                            } else if p == i {
                                assert(self.bench_flashes@[q] == before[q]);
                                assert(before[i as int].station_idx != before[q].station_idx);
                            } else {
                                assert(self.bench_flashes@[p] == before[p]);
                                assert(before[p].station_idx != before[i as int].station_idx);
                            }
                        }
                    }
                }
                return;
            }
            i = i + 1;
        }
        proof {
            assert(!(exists|k: int| 0 <= k < before.len() && before[k].station_idx == idx));
        }
        self.bench_flashes.push(flash);
        proof {
            if distinct_flashes(before) {
                assert forall|p: int, q: int| 0 <= p < q < self.bench_flashes@.len() implies (#[trigger] self.bench_flashes@[p]).station_idx != (#[trigger] self.bench_flashes@[q]).station_idx by {
                    assert(self.bench_flashes@[p] == before[p]);
                    if q < before.len() {
                        assert(self.bench_flashes@[q] == before[q]);
                    } else {
                        assert(before[p].station_idx != idx);
                    }
                }
            }
        }
    }

    /// A footprint of the agent's sprite at `at`, in the user's shirt colour.
    pub fn drop_footstep(&mut self, agent_id: &str, user: &str, at: P, now_ms: u64)
        ensures
            final(self).motes@ == old(self).motes@,
            final(self).tethers@ == old(self).tethers@,
            final(self).halos@ == old(self).halos@,
            final(self).file_ticks@ == old(self).file_ticks@,
            final(self).bench_flashes@ == old(self).bench_flashes@,
            final(self).footsteps@.len() == old(self).footsteps@.len() + 1,
            final(self).footsteps@.drop_last() == old(self).footsteps@,
            final(self).footsteps@.last().agent_id@ == agent_id@,
            final(self).footsteps@.last().at == at,
            final(self).footsteps@.last().color == sim_colors_of(user@).shirt,
            final(self).footsteps@.last().born_ms == now_ms,
    {
        let ghost before = self.footsteps@;
        let color = sim_colors(user).shirt;
        self.footsteps.push(Footstep { agent_id: agent_id.to_string(), at, color, born_ms: now_ms });
        assert(self.footsteps@.drop_last() =~= before);
    }

    /// Drops every effect that has outlived its lifetime; the motes and the
    /// file ticks leave from the oldest end only.
    pub fn expire(&mut self, now_ms: u64, limits: &FxLimits)
        ensures
            final(self).footsteps@ == old(self).footsteps@.filter(fresh::<Footstep<P>>(now_ms, limits.footstep_lifetime_ms)),
            final(self).motes@ == old(self).motes@.skip(stale_prefix(old(self).motes@, now_ms, limits.mote_lifetime_ms) as int),
            final(self).tethers@ == old(self).tethers@.filter(fresh::<Tether>(now_ms, limits.tether_lifetime_ms)),
            final(self).halos@ == old(self).halos@.filter(fresh::<Halo>(now_ms, limits.halo_lifetime_ms)),
            final(self).file_ticks@ == old(self).file_ticks@.skip(stale_prefix(old(self).file_ticks@, now_ms, limits.file_tick_ms) as int),
            final(self).bench_flashes@ == old(self).bench_flashes@.filter(fresh::<BenchFlash>(now_ms, limits.bench_flash_ms)),
    {
        retain_fresh(&mut self.footsteps, now_ms, limits.footstep_lifetime_ms);
        drop_stale_front(&mut self.motes, now_ms, limits.mote_lifetime_ms);
        retain_fresh(&mut self.tethers, now_ms, limits.tether_lifetime_ms);
        retain_fresh(&mut self.halos, now_ms, limits.halo_lifetime_ms);
        drop_stale_front(&mut self.file_ticks, now_ms, limits.file_tick_ms);
        retain_fresh(&mut self.bench_flashes, now_ms, limits.bench_flash_ms);
    }

    /// One frame of effects: every walking sprite due a footprint (see
    /// `footstep_due_at`) leaves one at `feet[i]` in its shirt colour and
    /// remembers the time, in list order; then every effect past its
    /// lifetime is dropped (see `expire`).
    pub fn tick<M>(&mut self, sims: &mut Vec<SimAnim<M>>, feet: &Vec<P>, now_ms: u64, limits: &FxLimits)
        where P: Copy,
        requires
            old(sims)@.len() == feet@.len(),
        ensures
            sims_view(final(sims)@) == Seq::new(
                old(sims)@.len(),
                |i: int| stepped(sims_view(old(sims)@)[i], now_ms, limits.footstep_interval_ms),
            ),
            exists|mid: FxStore<P>|
                steps_laid(
                    *old(self),
                    mid,
                    laid_steps(sims_view(old(sims)@), feet@, now_ms, limits.footstep_interval_ms, old(sims)@.len()),
                    now_ms,
                ) && expired(mid, *final(self), now_ms, *limits),
    {
        let ghost s0 = *self;
        let ghost v0 = sims_view(sims@);
        let interval = limits.footstep_interval_ms;
        let mut i: usize = 0;
        while i < sims.len()
            invariant
                i <= sims@.len(),
                sims@.len() == v0.len(),
                feet@.len() == v0.len(),
                interval == limits.footstep_interval_ms,
                forall|k: int| 0 <= k < i ==> (#[trigger] sims_view(sims@)[k]) == stepped(v0[k], now_ms, interval),
                forall|k: int| i <= k < v0.len() ==> (#[trigger] sims_view(sims@)[k]) == v0[k],
                steps_laid(s0, *self, laid_steps(v0, feet@, now_ms, interval, i as nat), now_ms),
            decreases v0.len() - i,
        {
            let ghost before = *self;
            let ghost sv = sims_view(sims@);
            assert(sv[i as int] == v0[i as int]);
            let due = footstep_due(sims[i].state, sims[i].last_footstep_ms, now_ms, interval);
            if due {
                let stamp = if now_ms >= 1 { now_ms } else { 1 };
                sims[i].last_footstep_ms = stamp;
                proof {
                    assert(sims_view(sims@)[i as int] =~= stepped(v0[i as int], now_ms, interval));
                    assert forall|k: int| 0 <= k < sims@.len() && k != i implies #[trigger] sims_view(sims@)[k] == sv[k] by {}
                }
                self.drop_footstep(sims[i].agent_id.as_str(), sims[i].user.as_str(), feet[i], now_ms);
                proof {
                    let prev = laid_steps(v0, feet@, now_ms, interval, i as nat);
                    let steps = laid_steps(v0, feet@, now_ms, interval, (i + 1) as nat);
                    assert(steps == prev.push((v0[i as int].agent_id, feet@[i as int], sim_colors_of(v0[i as int].user).shirt)));
                    let n0 = s0.footsteps@.len();
                    assert forall|k: int| 0 <= k < n0 implies #[trigger] self.footsteps@[k] == s0.footsteps@[k] by {
                        assert(self.footsteps@[k] == self.footsteps@.drop_last()[k]);
                    }
                    assert forall|j: int| 0 <= j < steps.len() implies step_view(#[trigger] self.footsteps@[n0 + j]) == steps[j]
                        && self.footsteps@[n0 + j].born_ms == now_ms by {
                        if j < prev.len() {
                            assert(self.footsteps@[n0 + j] == self.footsteps@.drop_last()[n0 + j]);
                            assert(before.footsteps@[n0 + j] == self.footsteps@.drop_last()[n0 + j]);
                        }
                    }
                }
            } else {
                proof {
                    assert(laid_steps(v0, feet@, now_ms, interval, (i + 1) as nat) == laid_steps(v0, feet@, now_ms, interval, i as nat));
                    assert(sims_view(sims@)[i as int] == stepped(v0[i as int], now_ms, interval));
                }
            }
            i = i + 1;
        }
        let ghost mid = *self;
        self.expire(now_ms, limits);
        proof {
            assert(sims_view(sims@) =~= Seq::new(v0.len(), |k: int| stepped(v0[k], now_ms, interval)));
            assert(expired(mid, *self, now_ms, *limits));
        }
    }
}

/// A sprite after this frame's footprint check: one due a footprint
/// remembers that it left one now (stamped one when the clock reads zero).
pub open spec fn stepped<M>(s: SimV<M>, now_ms: u64, interval_ms: u64) -> SimV<M> {
    if footstep_due_at(s.state, s.last_footstep_ms, now_ms, interval_ms) {
        SimV { last_footstep_ms: if now_ms >= 1 { now_ms } else { 1 }, ..s }
    } else {
        s
    }
}

/// The footprints the first `n` sprites lay this frame, in order: who, where
/// and in which colour.
pub open spec fn laid_steps<M, P>(sims: Seq<SimV<M>>, feet: Seq<P>, now_ms: u64, interval_ms: u64, n: nat) -> Seq<(Seq<char>, P, Rgb)>
    decreases n,
{
    if n == 0 {
        Seq::empty()
    } else {
        let i = n - 1;
        let rest = laid_steps(sims, feet, now_ms, interval_ms, (n - 1) as nat);
        if footstep_due_at(sims[i].state, sims[i].last_footstep_ms, now_ms, interval_ms) {
            rest.push((sims[i].agent_id, feet[i], sim_colors_of(sims[i].user).shirt))
        } else {
            rest
        }
    }
}

/// Who left a footprint, where, and in which colour.
pub open spec fn step_view<P>(f: Footstep<P>) -> (Seq<char>, P, Rgb) {
    (f.agent_id@, f.at, f.color)
}

/// `s1` is `s0` with the footprints `steps` laid at `now_ms` after the
/// old ones, every other effect unchanged.
pub open spec fn steps_laid<P>(s0: FxStore<P>, s1: FxStore<P>, steps: Seq<(Seq<char>, P, Rgb)>, now_ms: u64) -> bool {
    &&& s1.motes@ == s0.motes@
    &&& s1.tethers@ == s0.tethers@
    &&& s1.halos@ == s0.halos@
    &&& s1.file_ticks@ == s0.file_ticks@
    &&& s1.bench_flashes@ == s0.bench_flashes@
    &&& s1.footsteps@.len() == s0.footsteps@.len() + steps.len()
    &&& forall|k: int| 0 <= k < s0.footsteps@.len() ==> #[trigger] s1.footsteps@[k] == s0.footsteps@[k]
    &&& forall|j: int|
        0 <= j < steps.len() ==> step_view(#[trigger] s1.footsteps@[s0.footsteps@.len() + j]) == steps[j]
            && s1.footsteps@[s0.footsteps@.len() + j].born_ms == now_ms
}

/// `s1` is `s0` with every effect past its lifetime dropped (see `expire`).
pub open spec fn expired<P>(s0: FxStore<P>, s1: FxStore<P>, now_ms: u64, limits: FxLimits) -> bool {
    &&& s1.footsteps@ == s0.footsteps@.filter(fresh::<Footstep<P>>(now_ms, limits.footstep_lifetime_ms))
    &&& s1.motes@ == s0.motes@.skip(stale_prefix(s0.motes@, now_ms, limits.mote_lifetime_ms) as int)
    &&& s1.tethers@ == s0.tethers@.filter(fresh::<Tether>(now_ms, limits.tether_lifetime_ms))
    &&& s1.halos@ == s0.halos@.filter(fresh::<Halo>(now_ms, limits.halo_lifetime_ms))
    &&& s1.file_ticks@ == s0.file_ticks@.skip(stale_prefix(s0.file_ticks@, now_ms, limits.file_tick_ms) as int)
    &&& s1.bench_flashes@ == s0.bench_flashes@.filter(fresh::<BenchFlash>(now_ms, limits.bench_flash_ms))
}

} // verus!
