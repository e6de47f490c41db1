//! Seat occupancy of the office: one slot per physical seat, first-free
//! allocation, and the target a sprite walks to once it has (or lacks) a seat.

use vstd::prelude::*;
use crate::render::classify::Room;
use crate::render::geometry::{
    desk_seat_at, desk_seats, lab_queue_spots, lab_station_at, lab_stations, meeting_queue_spots,
    meeting_seat_at, meeting_seats, queue_spots, Point,
};
use crate::render::classify::{classify, classify_spec};
use crate::render::geometry::{door, OUTSIDE_X};
use crate::render::palette::{hash_chars, hash_str};
use crate::render::routing::{compute_route, door_exit, path_to_door_from, route, Target};
use crate::render::world::{AgentViewV, RenderWorld, views};
use crate::state::agent::{clone_opt_str, opt_str};
use crate::text::str_eq;

verus! {

/// A physical seat: a desk, a meeting chair or a lab station, by index.
#[derive(Clone, Copy, Debug, PartialEq, Eq, Hash, Structural)]
pub enum SeatId {
    Desk(usize),
    Meeting(usize),
    Lab(usize),
}

/// Where a sprite is in its life on screen.
#[derive(Clone, Copy, Debug, PartialEq, Eq, Structural)]
pub enum SimState {
    WalkingIn,
    Seated,
    WalkingOut,
    Gone,
}

/// Number of desks.
pub const DESK_SEATS: usize = 12;

/// Number of meeting chairs.
pub const MEETING_SEATS: usize = 4;

/// Number of lab stations.
pub const LAB_SEATS: usize = 3;

/// The holders of the seats of one room, by seat index.
pub type Slots = Seq<Option<Seq<char>>>;

/// The view of a seat table: its three rooms.
#[verifier::ext_equal]
pub struct SeatsView {
    pub desks: Slots,
    pub meeting: Slots,
    pub lab: Slots,
}

/// The seat of `room` with index `i`.
pub open spec fn seat_in(room: Room, i: usize) -> SeatId {
    match room {
        Room::Desk => SeatId::Desk(i),
        Room::Meeting => SeatId::Meeting(i),
        Room::Lab => SeatId::Lab(i),
    }
}

/// The slots of a room.
pub open spec fn slots_of(v: SeatsView, room: Room) -> Slots {
    match room {
        Room::Desk => v.desks,
        Room::Meeting => v.meeting,
        Room::Lab => v.lab,
    }
}

/// The room of a seat.
pub open spec fn room_of(s: SeatId) -> Room {
    match s {
        SeatId::Desk(_) => Room::Desk,
        SeatId::Meeting(_) => Room::Meeting,
        SeatId::Lab(_) => Room::Lab,
    }
}

/// The index of a seat in its room.
pub open spec fn index_of(s: SeatId) -> int {
    match s {
        SeatId::Desk(i) => i as int,
        SeatId::Meeting(i) => i as int,
        SeatId::Lab(i) => i as int,
    }
}

/// `v` with the slots of `room` replaced.
pub open spec fn with_slots(v: SeatsView, room: Room, s: Slots) -> SeatsView {
    match room {
        Room::Desk => SeatsView { desks: s, ..v },
        Room::Meeting => SeatsView { meeting: s, ..v },
        Room::Lab => SeatsView { lab: s, ..v },
    }
}

/// The first free slot, if any.
pub open spec fn first_free(s: Slots) -> Option<int> {
    if exists|i: int| 0 <= i < s.len() && s[i] is None {
        Some(choose|i: int| 0 <= i < s.len() && s[i] is None && forall|j: int| 0 <= j < i ==> s[j] is Some)
    } else {
        None
    }
}

/// Occupancy of every seat of the office.
#[derive(Clone, Debug)]
pub struct SeatRegistry {
    desks: Vec<Option<String>>,
    meeting: Vec<Option<String>>,
    lab: Vec<Option<String>>,
}

/// The holder names of a table of slots.
pub open spec fn holders(v: Seq<Option<String>>) -> Slots {
    v.map_values(|o: Option<String>| match o {
        Some(s) => Some(s@),
        None => None,
    })
}

impl View for SeatRegistry {
    type V = SeatsView;

    closed spec fn view(&self) -> SeatsView {
        SeatsView {
            desks: holders(self.desks@),
            meeting: holders(self.meeting@),
            lab: holders(self.lab@),
        }
    }
}

impl SeatRegistry {
    /// Each room has its number of seats.
    pub open spec fn wf(&self) -> bool {
        &&& self@.desks.len() == DESK_SEATS
        &&& self@.meeting.len() == MEETING_SEATS
        &&& self@.lab.len() == LAB_SEATS
    }

    /// Every seat free.
    pub fn new() -> (r: Self)
        ensures
            r.wf(),
            r@.desks == Seq::new(12, |i: int| None::<Seq<char>>),
            r@.meeting == Seq::new(4, |i: int| None::<Seq<char>>),
            r@.lab == Seq::new(3, |i: int| None::<Seq<char>>),
    {
        let r = SeatRegistry {
            desks: free_slots(DESK_SEATS),
            meeting: free_slots(MEETING_SEATS),
            lab: free_slots(LAB_SEATS),
        };
        assert(r@.desks =~= Seq::new(12, |i: int| None::<Seq<char>>));
        assert(r@.meeting =~= Seq::new(4, |i: int| None::<Seq<char>>));
        assert(r@.lab =~= Seq::new(3, |i: int| None::<Seq<char>>));
        r
    }

    /// Gives `agent_id` the first free seat of `room`, or nothing when the
    /// room is full.
    pub fn allocate(&mut self, room: Room, agent_id: &str) -> (r: Option<SeatId>)
        requires
            old(self).wf(),
        ensures
            final(self).wf(),
            match first_free(slots_of(old(self)@, room)) {
                Some(i) => {
                    &&& r == Some(seat_in(room, i as usize))
                    &&& final(self)@ == with_slots(
                        old(self)@,
                        room,
                        slots_of(old(self)@, room).update(i, Some(agent_id@)),
                    )
                },
                None => r is None && final(self)@ == old(self)@,
            },
    {
        match room {
            Room::Desk => match allocate_in(&mut self.desks, agent_id) {
                Some(i) => Some(SeatId::Desk(i)),
                None => None,
            },
            Room::Meeting => match allocate_in(&mut self.meeting, agent_id) {
                Some(i) => Some(SeatId::Meeting(i)),
                None => None,
            },
            Room::Lab => match allocate_in(&mut self.lab, agent_id) {
                Some(i) => Some(SeatId::Lab(i)),
                None => None,
            },
        }
    }

    /// Frees a seat.
    pub fn release(&mut self, seat: SeatId)
        requires
            old(self).wf(),
            0 <= index_of(seat) < slots_of(old(self)@, room_of(seat)).len(),
        ensures
            final(self).wf(),
            final(self)@ == with_slots(
                old(self)@,
                room_of(seat),
                slots_of(old(self)@, room_of(seat)).update(index_of(seat), None),
            ),
    {
        let ghost before = self@;
        match seat {
            SeatId::Desk(i) => {
                self.desks.set(i, None);
                assert(self@.desks =~= before.desks.update(i as int, None));
            },
            SeatId::Meeting(i) => {
                self.meeting.set(i, None);
                assert(self@.meeting =~= before.meeting.update(i as int, None));
            },
            SeatId::Lab(i) => {
                self.lab.set(i, None);
                assert(self@.lab =~= before.lab.update(i as int, None));
            },
        }
    }

    /// Who holds a seat, if anyone.
    pub fn holder(&self, seat: SeatId) -> (r: Option<&str>)
        requires
            0 <= index_of(seat) < slots_of(self@, room_of(seat)).len(),
        ensures
            match r {
                Some(s) => slots_of(self@, room_of(seat))[index_of(seat)] == Some(s@),
                None => slots_of(self@, room_of(seat))[index_of(seat)] is None,
            },
    {
        let slot = match seat {
            SeatId::Desk(i) => &self.desks[i],
            SeatId::Meeting(i) => &self.meeting[i],
            SeatId::Lab(i) => &self.lab[i],
        };
        match slot {
            Some(s) => Some(s.as_str()),
            None => None,
        }
    }
}

impl Default for SeatRegistry {
    fn default() -> (r: Self)
        ensures
            r.wf(),
            r@.desks == Seq::new(12, |i: int| None::<Seq<char>>),
            r@.meeting == Seq::new(4, |i: int| None::<Seq<char>>),
            r@.lab == Seq::new(3, |i: int| None::<Seq<char>>),
    {
        SeatRegistry::new()
    }
}

/// `n` free slots.
fn free_slots(n: usize) -> (v: Vec<Option<String>>)
    ensures
        v@.len() == n,
        forall|i: int| 0 <= i < n ==> v@[i] is None,
{
    let mut v: Vec<Option<String>> = Vec::new();
    let mut i: usize = 0;
    while i < n
        invariant
            i <= n,
            v@.len() == i,
            forall|k: int| 0 <= k < i ==> v@[k] is None,
        decreases n - i,
    {
        v.push(None);
        i = i + 1;
    }
    v
}

/// Puts `agent_id` in the first free slot and says which it was.
fn allocate_in(slots: &mut Vec<Option<String>>, agent_id: &str) -> (r: Option<usize>)
    ensures
        r == match first_free(holders(old(slots)@)) {
            Some(i) => Some(i as usize),
            None => None::<usize>,
        },
        holders(final(slots)@) == match first_free(holders(old(slots)@)) {
            Some(i) => holders(old(slots)@).update(i, Some(agent_id@)),
            None => holders(old(slots)@),
        },
{
    let ghost h = holders(slots@);
    let mut i: usize = 0;
    while i < slots.len()
        invariant
            slots@ == old(slots)@,
            h == holders(slots@),
            i <= slots@.len(),
            forall|j: int| 0 <= j < i ==> h[j] is Some,
        decreases slots@.len() - i,
    {
        if slots[i].is_none() {
            slots.set(i, Some(agent_id.to_string()));
            proof {
                assert(h[i as int] is None);
                assert(first_free(h) == Some(i as int)) by {
                    let c = choose|k: int| 0 <= k < h.len() && h[k] is None && forall|j: int| 0 <= j < k ==> h[j] is Some;
                    assert(h[c] is None);
                    if c < i {
                        assert(h[c] is Some);
                    } else if c > i {
                        assert(h[i as int] is Some);
                    }
                }
                assert(holders(slots@) =~= h.update(i as int, Some(agent_id@)));
            }
            return Some(i);
        }
        proof {
            assert(h[i as int] is Some);
        }
        i = i + 1;
    }
    proof {
        assert(!(exists|k: int| 0 <= k < h.len() && h[k] is None));
    }
    None
}

/// The target of a sprite in `room`: its seat when it holds one of that room,
/// else a queue spot of the room picked by `overflow_hash`.
pub open spec fn target_of(room: Room, seat: Option<SeatId>, overflow_hash: u32) -> Target {
    match (room, seat) {
        (Room::Desk, Some(SeatId::Desk(i))) => Target::Desk(desk_seat_at(i as int)),
        (Room::Meeting, Some(SeatId::Meeting(i))) => Target::Meeting(meeting_seat_at(i as int)),
        (Room::Lab, Some(SeatId::Lab(i))) => Target::Lab(lab_station_at(i as int)),
        (Room::Meeting, _) => Target::MeetingQueue(
            seq![Point { x: 856, y: 132 }, Point { x: 1152, y: 132 }][(overflow_hash % 2) as int],
        ),
        (Room::Lab, _) => Target::LabQueue(
            seq![Point { x: 856, y: 556 }, Point { x: 1152, y: 556 }][(overflow_hash % 2) as int],
        ),
        (Room::Desk, _) => Target::Queue(
            seq![
                Point { x: 752, y: 120 },
                Point { x: 752, y: 180 },
                Point { x: 752, y: 484 },
                Point { x: 752, y: 544 },
            ][(overflow_hash % 4) as int],
        ),
    }
}

/// Resolves where a sprite walks to (see `target_of`).
pub fn target_for(room: Room, seat: Option<SeatId>, overflow_hash: u32) -> (t: Target)
    requires
        match (room, seat) {
            (Room::Desk, Some(SeatId::Desk(i))) => i < DESK_SEATS,
            (Room::Meeting, Some(SeatId::Meeting(i))) => i < MEETING_SEATS,
            (Room::Lab, Some(SeatId::Lab(i))) => i < LAB_SEATS,
            _ => true,
        },
    ensures
        t == target_of(room, seat, overflow_hash),
{
    match (room, seat) {
        (Room::Desk, Some(SeatId::Desk(i))) => Target::Desk(desk_seats()[i]),
        (Room::Meeting, Some(SeatId::Meeting(i))) => Target::Meeting(meeting_seats()[i]),
        (Room::Lab, Some(SeatId::Lab(i))) => Target::Lab(lab_stations()[i]),
        (Room::Meeting, _) => Target::MeetingQueue(
            meeting_queue_spots()[(overflow_hash % 2) as usize],
        ),
        (Room::Lab, _) => Target::LabQueue(lab_queue_spots()[(overflow_hash % 2) as usize]),
        (Room::Desk, _) => Target::Queue(queue_spots()[(overflow_hash % 4) as usize]),
    }
}


/// A seat lies in its room.
pub open spec fn seat_valid(seat: Option<SeatId>) -> bool {
    match seat {
        Some(SeatId::Desk(i)) => i < DESK_SEATS,
        Some(SeatId::Meeting(i)) => i < MEETING_SEATS,
        Some(SeatId::Lab(i)) => i < LAB_SEATS,
        None => true,
    }
}

/// One sprite: whom it stands for (with its session's chest label), the
/// waypoints it has left to walk (world pixels, next one first), its seat,
/// room and stage of life. `motion` is where it stands and how far its idle
/// bob has gone, which the frame loop advances between waypoints.
pub struct SimAnim<M> {
    pub agent_id: String,
    pub session_id: Option<String>,
    pub session_label: Option<String>,
    pub user: String,
    pub permission_mode: String,
    pub is_lab: bool,
    pub motion: M,
    pub path: Vec<Point>,
    pub seat: Option<SeatId>,
    pub room: Room,
    pub state: SimState,
    pub spawned_at_ms: u64,
    pub seated_at_ms: Option<u64>,
    pub seated_since_ms: Option<u64>,
    pub overflow_hash: u32,
    pub last_footstep_ms: u64,
}

/// The value of a sprite.
#[verifier::ext_equal]
pub struct SimV<M> {
    pub agent_id: Seq<char>,
    pub session_id: Option<Seq<char>>,
    pub session_label: Option<Seq<char>>,
    pub user: Seq<char>,
    pub permission_mode: Seq<char>,
    pub is_lab: bool,
    pub motion: M,
    pub path: Seq<Point>,
    pub seat: Option<SeatId>,
    pub room: Room,
    pub state: SimState,
    pub spawned_at_ms: u64,
    pub seated_at_ms: Option<u64>,
    pub seated_since_ms: Option<u64>,
    pub overflow_hash: u32,
    pub last_footstep_ms: u64,
}

impl<M> View for SimAnim<M> {
    type V = SimV<M>;

    open spec fn view(&self) -> SimV<M> {
        SimV {
            agent_id: self.agent_id@,
            session_id: opt_str(self.session_id),
            session_label: opt_str(self.session_label),
            user: self.user@,
            permission_mode: self.permission_mode@,
            is_lab: self.is_lab,
            motion: self.motion,
            path: self.path@,
            seat: self.seat,
            room: self.room,
            state: self.state,
            spawned_at_ms: self.spawned_at_ms,
            seated_at_ms: self.seated_at_ms,
            seated_since_ms: self.seated_since_ms,
            overflow_hash: self.overflow_hash,
            last_footstep_ms: self.last_footstep_ms,
        }
    }
}

/// The values of a list of sprites.
pub open spec fn sims_view<M>(s: Seq<SimAnim<M>>) -> Seq<SimV<M>> {
    Seq::new(s.len(), |i: int| s[i]@)
}

/// Some sprite stands for `id`.
pub open spec fn has_sim<M>(sims: Seq<SimV<M>>, id: Seq<char>) -> bool {
    exists|i: int| 0 <= i < sims.len() && sims[i].agent_id == id
}

/// Where every sprite enters: outside the west door.
pub open spec fn door_start() -> Point {
    Point { x: 40, y: 328 }
}

/// `allocate` on a seat table: the first free seat of the room, if any.
pub open spec fn seat_alloc(seats: SeatsView, room: Room, id: Seq<char>) -> (Option<SeatId>, SeatsView) {
    match first_free(slots_of(seats, room)) {
        Some(i) => (Some(seat_in(room, i as usize)), with_slots(seats, room, slots_of(seats, room).update(i, Some(id)))),
        None => (None, seats),
    }
}

/// `release` on a seat table.
pub open spec fn freed(seats: SeatsView, seat: SeatId) -> SeatsView {
    with_slots(seats, room_of(seat), slots_of(seats, room_of(seat)).update(index_of(seat), None))
}

/// The sprite of a newly seen agent: outside the door at `motion`, walking
/// in along the route to its seat, or to a queue spot of its room when the
/// room is full.
pub open spec fn fresh_sim<M>(a: AgentViewV, room: Room, seat: Option<SeatId>, motion: M) -> SimV<M> {
    let hash = hash_chars(a.agent_id);
    SimV {
        agent_id: a.agent_id,
        session_id: a.session_id,
        session_label: a.session_label,
        user: a.user,
        permission_mode: a.permission_mode,
        is_lab: room == Room::Lab,
        motion,
        path: route(door_start(), target_of(room, seat, hash)),
        seat,
        room,
        state: SimState::WalkingIn,
        spawned_at_ms: a.started_at,
        seated_at_ms: None,
        seated_since_ms: None,
        overflow_hash: hash,
        last_footstep_ms: 0,
    }
}

/// One agent of the world, seen by the sprites: a live agent without a
/// sprite gets one (taking the first free seat of its room); any other
/// agent changes nothing.
pub open spec fn spawn_step<M>(st: (Seq<SimV<M>>, SeatsView), a: AgentViewV, motion: M) -> (Seq<SimV<M>>, SeatsView) {
    if has_sim(st.0, a.agent_id) || a.finished_at is Some {
        st
    } else {
        let room = classify_spec(a.agent_type, a.description, a.permission_mode);
        let (seat, seats) = seat_alloc(st.1, room, a.agent_id);
        (st.0.push(fresh_sim(a, room, seat, motion)), seats)
    }
}

/// The agents of the world seen one after the other (see `spawn_step`).
pub open spec fn spawn_all<M>(st: (Seq<SimV<M>>, SeatsView), agents: Seq<AgentViewV>, motion: M) -> (Seq<SimV<M>>, SeatsView)
    decreases agents.len(),
{
    if agents.len() == 0 {
        st
    } else {
        spawn_step(spawn_all(st, agents.drop_last(), motion), agents.last(), motion)
    }
}

/// The world reports `id` finished.
pub open spec fn finished_in(world: Seq<AgentViewV>, id: Seq<char>) -> bool {
    exists|j: int| 0 <= j < world.len() && world[j].agent_id == id && world[j].finished_at is Some
}

/// The world reports `id` at all.
pub open spec fn present_in(world: Seq<AgentViewV>, id: Seq<char>) -> bool {
    exists|j: int| 0 <= j < world.len() && world[j].agent_id == id
}

/// A sprite whose agent finished and which is not already leaving.
pub open spec fn finishing<M>(s: SimV<M>, world: Seq<AgentViewV>) -> bool {
    &&& s.state != SimState::WalkingOut
    &&& s.state != SimState::Gone
    &&& finished_in(world, s.agent_id)
}

/// A sprite turned to leave: no seat, walking out along the way back from a
/// queue spot of its room through the west door.
pub open spec fn walked_out<M>(s: SimV<M>) -> SimV<M> {
    SimV {
        seat: None,
        state: SimState::WalkingOut,
        seated_since_ms: None,
        path: door_exit(target_of(s.room, None, s.overflow_hash)),
        ..s
    }
}

/// The seat table once the seats of the finishing sprites are freed.
pub open spec fn release_finishing<M>(seats: SeatsView, sims: Seq<SimV<M>>, world: Seq<AgentViewV>) -> SeatsView
    decreases sims.len(),
{
    if sims.len() == 0 {
        seats
    } else {
        let before = release_finishing(seats, sims.drop_last(), world);
        let s = sims.last();
        if finishing(s, world) && s.seat is Some {
            freed(before, s.seat.unwrap())
        } else {
            before
        }
    }
}

/// The sprites with the finishing ones turned to leave.
pub open spec fn turn_finishing<M>(sims: Seq<SimV<M>>, world: Seq<AgentViewV>) -> Seq<SimV<M>> {
    Seq::new(sims.len(), |i: int| if finishing(sims[i], world) { walked_out(sims[i]) } else { sims[i] })
}

/// A sprite stays unless it is gone and its agent left the world.
pub open spec fn kept<M>(world: Seq<AgentViewV>) -> spec_fn(SimV<M>) -> bool {
    |s: SimV<M>| !(s.state == SimState::Gone && !present_in(world, s.agent_id))
}

/// The sprites and seats after a frame's world is seen: new live agents get
/// sprites, finished ones turn to leave and free their seats, and sprites
/// that are gone and whose agents left the world are dropped.
pub open spec fn reconciled<M>(sims: Seq<SimV<M>>, seats: SeatsView, world: Seq<AgentViewV>, motion: M) -> (Seq<SimV<M>>, SeatsView) {
    let (s1, seats1) = spawn_all((sims, seats), world, motion);
    (turn_finishing(s1, world).filter(kept(world)), release_finishing(seats1, s1, world))
}

/// The sprites of the office and the seat table they share.
pub struct SimStore<M> {
    pub anim: Vec<SimAnim<M>>,
    pub seats: SeatRegistry,
}

/// No two sprites stand for one agent, and every held seat is a real one.
pub open spec fn sims_wf<M>(sims: Seq<SimV<M>>) -> bool {
    &&& forall|i: int, j: int| 0 <= i < j < sims.len() ==> (#[trigger] sims[i]).agent_id != (#[trigger] sims[j]).agent_id
    &&& forall|i: int| 0 <= i < sims.len() ==> seat_valid(#[trigger] sims[i].seat)
}

impl<M> SimStore<M> {
    /// The seat table has its seats and the sprites are well formed.
    pub open spec fn wf(&self) -> bool {
        &&& self.seats.wf()
        &&& sims_wf(sims_view(self.anim@))
    }

    /// No sprites, every seat free.
    pub fn new() -> (r: Self)
        ensures
            r.wf(),
            r.anim@.len() == 0,
            r.seats@.desks == Seq::new(12, |i: int| None::<Seq<char>>),
            r.seats@.meeting == Seq::new(4, |i: int| None::<Seq<char>>),
            r.seats@.lab == Seq::new(3, |i: int| None::<Seq<char>>),
    {
        SimStore { anim: Vec::new(), seats: SeatRegistry::new() }
    }
}


/// `settle`: a sprite at the end of its walk sits down (walking in) or is
/// gone (walking out); any other sprite stays as it is.
pub open spec fn settled<M>(s: SimV<M>, now_ms: u64) -> SimV<M> {
    if s.path.len() == 0 && s.state == SimState::WalkingIn {
        SimV { state: SimState::Seated, seated_at_ms: Some(now_ms), seated_since_ms: Some(now_ms), ..s }
    } else if s.path.len() == 0 && s.state == SimState::WalkingOut {
        SimV { state: SimState::Gone, seated_since_ms: None, ..s }
    } else {
        s
    }
}

impl<M> SimAnim<M> {
    /// Whether the sprite still takes part in the scene.
    pub fn is_alive(&self) -> (r: bool)
        ensures
            r == (self.state != SimState::Gone),
    {
        match self.state {
            SimState::Gone => false,
            _ => true,
        }
    }

    /// Ends a walk whose waypoints are used up (see `settled`).
    pub fn settle(&mut self, now_ms: u64)
        ensures
            final(self)@ == settled(old(self)@, now_ms),
    {
        if self.path.len() == 0 {
            match self.state {
                SimState::WalkingIn => {
                    self.state = SimState::Seated;
                    self.seated_at_ms = Some(now_ms);
                    self.seated_since_ms = Some(now_ms);
                },
                SimState::WalkingOut => {
                    self.state = SimState::Gone;
                    self.seated_since_ms = None;
                },
                _ => {},
            }
        }
    }
}

/// Whether some sprite stands for `id`.
pub fn find_sim<M>(sims: &Vec<SimAnim<M>>, id: &str) -> (r: bool)
    ensures
        r == has_sim(sims_view(sims@), id@),
{
    let ghost v = sims_view(sims@);
    let mut i: usize = 0;
    while i < sims.len()
        invariant
            v == sims_view(sims@),
            i <= sims@.len(),
            forall|j: int| 0 <= j < i ==> v[j].agent_id != id@,
        decreases sims@.len() - i,
    {
        if str_eq(sims[i].agent_id.as_str(), id) {
            assert(v[i as int].agent_id == id@);
            return true;
        }
        assert(v[i as int].agent_id != id@);
        i = i + 1;
    }
    false
}

/// The place of the first sprite that stands for `id`, if any.
pub fn sim_index<M>(sims: &Vec<SimAnim<M>>, id: &str) -> (r: Option<usize>)
    ensures
        match r {
            Some(i) => i < sims@.len() && sims@[i as int].agent_id@ == id@ && forall|j: int|
                0 <= j < i ==> sims@[j].agent_id@ != id@,
            None => forall|j: int| 0 <= j < sims@.len() ==> sims@[j].agent_id@ != id@,
        },
{
    let mut i: usize = 0;
    while i < sims.len()
        invariant
            i <= sims@.len(),
            forall|j: int| 0 <= j < i ==> sims@[j].agent_id@ != id@,
        decreases sims@.len() - i,
    {
        if str_eq(sims[i].agent_id.as_str(), id) {
            return Some(i);
        }
        i = i + 1;
    }
    None
}

/// Whether the world reports `id` finished.
fn world_finished(world: &RenderWorld, id: &str) -> (r: bool)
    ensures
        r == finished_in(views(world.agents@), id@),
{
    let ghost w = views(world.agents@);
    let mut i: usize = 0;
    while i < world.agents.len()
        invariant
            w == views(world.agents@),
            i <= w.len(),
            forall|j: int| 0 <= j < i ==> !(w[j].agent_id == id@ && w[j].finished_at is Some),
        decreases w.len() - i,
    {
        let a = &world.agents[i];
        assert(w[i as int] == a@);
        if str_eq(a.agent_id.as_str(), id) && a.finished_at.is_some() {
            return true;
        }
        i = i + 1;
    }
    false
}

/// Whether the world reports `id` at all.
fn world_present(world: &RenderWorld, id: &str) -> (r: bool)
    ensures
        r == present_in(views(world.agents@), id@),
{
    let ghost w = views(world.agents@);
    let mut i: usize = 0;
    while i < world.agents.len()
        invariant
            w == views(world.agents@),
            i <= w.len(),
            forall|j: int| 0 <= j < i ==> w[j].agent_id != id@,
        decreases w.len() - i,
    {
        assert(w[i as int] == world.agents@[i as int]@);
        if str_eq(world.agents[i].agent_id.as_str(), id) {
            return true;
        }
        i = i + 1;
    }
    false
}

/// The route of a target picked by `target_of` is defined from the door.
proof fn lemma_target_ok(room: Room, seat: Option<SeatId>, hash: u32)
    ensures
        crate::render::routing::target_ok(target_of(room, seat, hash)),
{
    let q = seq![
        Point { x: 752, y: 120 },
        Point { x: 752, y: 180 },
        Point { x: 752, y: 484 },
        Point { x: 752, y: 544 },
    ];
    let k = (hash % 4) as int;
    assert(0 <= k < 4);
    assert(q[k].y == 120 || q[k].y == 180 || q[k].y == 484 || q[k].y == 544);
}

impl<M: Copy> SimStore<M> {
    /// Every live agent of the world without a sprite gets one (see `spawn_all`).
    fn spawn_new(&mut self, world: &RenderWorld, motion: M)
        requires
            old(self).wf(),
        ensures
            final(self).wf(),
            (sims_view(final(self).anim@), final(self).seats@) == spawn_all(
                (sims_view(old(self).anim@), old(self).seats@),
                views(world.agents@),
                motion,
            ),
    {
        let ghost w = views(world.agents@);
        let ghost st0 = (sims_view(self.anim@), self.seats@);
        let mut i: usize = 0;
        proof {
            assert(w.take(0) =~= Seq::<AgentViewV>::empty());
        }
        while i < world.agents.len()
            invariant
                self.wf(),
                w == views(world.agents@),
                st0 == (sims_view(old(self).anim@), old(self).seats@),
                i <= w.len(),
                (sims_view(self.anim@), self.seats@) == spawn_all(st0, w.take(i as int), motion),
            decreases w.len() - i,
        {
            let a = &world.agents[i];
            let ghost before = (sims_view(self.anim@), self.seats@);
            proof {
                assert(w.take(i + 1).drop_last() =~= w.take(i as int));
                assert(w.take(i + 1).last() == a@);
            }
            let known = find_sim(&self.anim, a.agent_id.as_str());
            if !known && a.finished_at.is_none() {
                let room = classify(a.agent_type.as_str(), a.description.as_str(), a.permission_mode.as_str());
                let hash = hash_str(a.agent_id.as_str());
                let seat = self.seats.allocate(room, a.agent_id.as_str());
                proof {
                    lemma_target_ok(room, seat, hash);
                }
                let target = target_for(room, seat, hash);
                let path = compute_route(Point::new(OUTSIDE_X, door().y), &target);
                let is_lab = match room {
                    Room::Lab => true,
                    _ => false,
                };
                let sim = SimAnim {
                    agent_id: a.agent_id.clone(),
                    session_id: clone_opt_str(&a.session_id),
                    session_label: clone_opt_str(&a.session_label),
                    user: a.user.clone(),
                    permission_mode: a.permission_mode.clone(),
                    is_lab,
                    motion,
                    path,
                    seat,
                    room,
                    state: SimState::WalkingIn,
                    spawned_at_ms: a.started_at,
                    seated_at_ms: None,
                    seated_since_ms: None,
                    overflow_hash: hash,
                    last_footstep_ms: 0,
                };
                assert(sim@ == fresh_sim(a@, room, seat, motion));
                self.anim.push(sim);
                proof {
                    assert(sims_view(self.anim@) =~= before.0.push(sim@));
                    let v = sims_view(self.anim@);
                    assert forall|p: int, q: int| 0 <= p < q < v.len() implies (#[trigger] v[p]).agent_id != (#[trigger] v[q]).agent_id by {
                        if q == v.len() - 1 {
                            assert(v[p] == before.0[p]);
                        } else {
                            assert(v[p] == before.0[p] && v[q] == before.0[q]);
                        }
                    }
                    assert forall|p: int| 0 <= p < v.len() implies seat_valid(#[trigger] v[p].seat) by {
                        if p < v.len() - 1 {
                            assert(v[p] == before.0[p]);
                        }
                    }
                }
            }
            i = i + 1;
        }
        proof {
            assert(w.take(i as int) =~= w);
        }
    }
    /// The sprites of finished agents turn to leave and free their seats
    /// (see `turn_finishing` and `release_finishing`).
    fn turn_leavers(&mut self, world: &RenderWorld)
        requires
            old(self).wf(),
        ensures
            final(self).wf(),
            sims_view(final(self).anim@) == turn_finishing(sims_view(old(self).anim@), views(world.agents@)),
            final(self).seats@ == release_finishing(old(self).seats@, sims_view(old(self).anim@), views(world.agents@)),
    {
        let ghost w = views(world.agents@);
        let ghost s0 = sims_view(self.anim@);
        let ghost seats0 = self.seats@;
        let ghost t = turn_finishing(s0, w);
        let mut k: usize = 0;
        proof {
            assert(s0.take(0) =~= Seq::<SimV<M>>::empty());
        }
        while k < self.anim.len()
            invariant
                self.seats.wf(),
                w == views(world.agents@),
                s0 == sims_view(old(self).anim@),
                seats0 == old(self).seats@,
                t == turn_finishing(s0, w),
                sims_wf(s0),
                k <= s0.len(),
                self.anim@.len() == s0.len(),
                forall|j: int| 0 <= j < k ==> #[trigger] sims_view(self.anim@)[j] == t[j],
                forall|j: int| k <= j < s0.len() ==> #[trigger] sims_view(self.anim@)[j] == s0[j],
                self.seats@ == release_finishing(seats0, s0.take(k as int), w),
            decreases s0.len() - k,
        {
            let ghost before = sims_view(self.anim@);
            proof {
                assert(s0.take(k + 1).drop_last() =~= s0.take(k as int));
                assert(s0.take(k + 1).last() == s0[k as int]);
                assert(before[k as int] == s0[k as int]);
                assert(seat_valid(s0[k as int].seat));
            }
            let leaving = match self.anim[k].state {
                SimState::WalkingOut | SimState::Gone => false,
                _ => world_finished(world, self.anim[k].agent_id.as_str()),
            };
            if leaving {
                let ghost anim_before = self.anim@;
                let mut s = self.anim.remove(k);
                match s.seat {
                    Some(seat) => {
                        self.seats.release(seat);
                    },
                    None => {},
                }
                s.seat = None;
                s.state = SimState::WalkingOut;
                s.seated_since_ms = None;
                s.path = path_to_door_from(&target_for(s.room, None, s.overflow_hash));
                self.anim.insert(k, s);
                proof {
                    assert(s@ == walked_out(s0[k as int]));
                    assert(self.anim@ == anim_before.remove(k as int).insert(k as int, s));
                    let after = sims_view(self.anim@);
                    assert(after[k as int] == s@);
                    assert forall|j: int| 0 <= j < s0.len() && j != k implies #[trigger] after[j] == before[j] by {
                        assert(self.anim@[j] == anim_before[j]);
                    }
                }
            }
            k = k + 1;
        }
        proof {
            assert(s0.take(k as int) =~= s0);
            let v = sims_view(self.anim@);
            assert(v =~= t);
            assert forall|p: int, q: int| 0 <= p < q < v.len() implies (#[trigger] v[p]).agent_id != (#[trigger] v[q]).agent_id by {
                assert(v[p].agent_id == s0[p].agent_id && v[q].agent_id == s0[q].agent_id);
            }
            assert forall|p: int| 0 <= p < v.len() implies seat_valid(#[trigger] v[p].seat) by {
                assert(seat_valid(s0[p].seat));
            }
        }
    }
    /// Sprites that are gone and whose agents left the world are dropped;
    /// the others keep their order (see `kept`).
    fn drop_gone(&mut self, world: &RenderWorld)
        requires
            old(self).wf(),
        ensures
            final(self).wf(),
            final(self).seats@ == old(self).seats@,
            sims_view(final(self).anim@) == sims_view(old(self).anim@).filter(kept(views(world.agents@))),
    {
        let ghost w = views(world.agents@);
        let ghost g = sims_view(self.anim@);
        let ghost p = kept::<M>(w);
        let mut k: usize = 0;
        let ghost mut j: int = 0;
        proof {
            assert(g.take(0) =~= Seq::<SimV<M>>::empty());
            assert(g.take(0).filter(p) =~= Seq::<SimV<M>>::empty());
            assert(sims_view(self.anim@) =~= g.take(0).filter(p) + g.skip(0));
        }
        while k < self.anim.len()
            invariant
                self.seats@ == old(self).seats@,
                self.seats.wf(),
                w == views(world.agents@),
                g == sims_view(old(self).anim@),
                p == kept::<M>(w),
                sims_wf(g),
                sims_wf(sims_view(self.anim@)),
                0 <= j <= g.len(),
                k == g.take(j).filter(p).len(),
                sims_view(self.anim@) == g.take(j).filter(p) + g.skip(j),
            decreases g.len() - j,
        {
            let ghost before = sims_view(self.anim@);
            proof {
                assert(before[k as int] == g[j]);
                assert(g.take(j + 1).drop_last() =~= g.take(j));
                assert(g.take(j + 1).last() == g[j]);
            }
            let gone = match self.anim[k].state {
                SimState::Gone => !world_present(world, self.anim[k].agent_id.as_str()),
                _ => false,
            };
            if gone {
                self.anim.remove(k);
                proof {
                    assert(sims_view(self.anim@) =~= before.remove(k as int));
                    assert(before.remove(k as int) =~= g.take(j).filter(p) + g.skip(j + 1));
                    assert(!p(g[j]));
                    reveal(Seq::filter);
                    assert(g.take(j + 1).filter(p) == g.take(j).filter(p));
                    assert(sims_view(self.anim@) =~= g.take(j + 1).filter(p) + g.skip(j + 1));
                    let v = sims_view(self.anim@);
                    assert forall|a: int, b: int| 0 <= a < b < v.len() implies (#[trigger] v[a]).agent_id != (#[trigger] v[b]).agent_id by {
                        let a0 = if a < k { a } else { a + 1 };
                        let b0 = if b < k { b } else { b + 1 };
                        assert(v[a] == before[a0] && v[b] == before[b0]);
                    }
                    assert forall|a: int| 0 <= a < v.len() implies seat_valid(#[trigger] v[a].seat) by {
                        let a0 = if a < k { a } else { a + 1 };
                        assert(v[a] == before[a0]);
                    }
                }
            } else {
                proof {
                    assert(p(g[j]));
                    reveal(Seq::filter);
                    assert(g.take(j + 1).filter(p) == g.take(j).filter(p).push(g[j]));
                    assert(sims_view(self.anim@) =~= g.take(j + 1).filter(p) + g.skip(j + 1));
                }
                k = k + 1;
            }
            proof {
                j = j + 1;
            }
        }
        proof {
            assert(j == g.len()) by {
                assert(sims_view(self.anim@).len() == g.take(j).filter(p).len() + g.skip(j).len());
            }
            assert(g.take(j) =~= g);
            assert(g.skip(j) =~= Seq::<SimV<M>>::empty());
            assert(sims_view(self.anim@) =~= g.filter(p));
        }
    }

    /// Brings the sprites in line with one frame's world (see `reconciled`):
    /// new live agents get sprites standing at `at_door`, finished ones turn
    /// to leave and free their seats, gone ones whose agents left are dropped.
    pub fn reconcile(&mut self, world: &RenderWorld, at_door: M)
        requires
            old(self).wf(),
        ensures
            final(self).wf(),
            (sims_view(final(self).anim@), final(self).seats@) == reconciled(
                sims_view(old(self).anim@),
                old(self).seats@,
                views(world.agents@),
                at_door,
            ),
    {
        self.spawn_new(world, at_door);
        self.turn_leavers(world);
        self.drop_gone(world);
    }
}


/// Seeing agents one after the other keeps every sprite and gives each live
/// agent one.
proof fn lemma_spawn_covers<M>(st: (Seq<SimV<M>>, SeatsView), agents: Seq<AgentViewV>, motion: M)
    ensures
        forall|id: Seq<char>| has_sim(st.0, id) ==> has_sim(#[trigger] spawn_all(st, agents, motion).0, id),
        forall|j: int|
            0 <= j < agents.len() && (#[trigger] agents[j]).finished_at is None ==> has_sim(
                spawn_all(st, agents, motion).0,
                agents[j].agent_id,
            ),
    decreases agents.len(),
{
    if agents.len() > 0 {
        lemma_spawn_covers(st, agents.drop_last(), motion);
        let prev = spawn_all(st, agents.drop_last(), motion);
        let a = agents.last();
        let next = spawn_step(prev, a, motion);
        assert(spawn_all(st, agents, motion) == next);
        assert forall|id: Seq<char>| has_sim(prev.0, id) implies has_sim(next.0, id) by {
            let i = choose|i: int| 0 <= i < prev.0.len() && prev.0[i].agent_id == id;
            if !(has_sim(prev.0, a.agent_id) || a.finished_at is Some) {
                assert(next.0[i] == prev.0[i]);
            }
        }
        assert forall|j: int| 0 <= j < agents.len() && (#[trigger] agents[j]).finished_at is None implies has_sim(
            next.0,
            agents[j].agent_id,
        ) by {
            if j < agents.len() - 1 {
                assert(agents.drop_last()[j] == agents[j]);
                assert(has_sim(prev.0, agents[j].agent_id));
            } else if !has_sim(prev.0, a.agent_id) {
                let k = next.0.len() - 1;
                assert(next.0[k].agent_id == a.agent_id);
            }
        }
    }
}

/// Once a frame's world is seen, every agent of that world that has not
/// finished has a sprite.
pub proof fn law_live_agents_have_sprites<M>(sims: Seq<SimV<M>>, seats: SeatsView, world: Seq<AgentViewV>, motion: M)
    ensures
        forall|j: int|
            0 <= j < world.len() && (#[trigger] world[j]).finished_at is None ==> has_sim(
                reconciled(sims, seats, world, motion).0,
                world[j].agent_id,
            ),
{
    let s1 = spawn_all((sims, seats), world, motion).0;
    lemma_spawn_covers((sims, seats), world, motion);
    let t = turn_finishing(s1, world);
    let p = kept::<M>(world);
    assert forall|j: int| 0 <= j < world.len() && (#[trigger] world[j]).finished_at is None implies has_sim(
        t.filter(p),
        world[j].agent_id,
    ) by {
        let id = world[j].agent_id;
        assert(has_sim(s1, id));
        let i = choose|i: int| 0 <= i < s1.len() && s1[i].agent_id == id;
        assert(t[i].agent_id == id);
        assert(present_in(world, id));
        assert(p(t[i]));
        t.lemma_filter_contains(p, i);
        assert(t.filter(p).contains(t[i]));
        let k = choose|k: int| 0 <= k < t.filter(p).len() && t.filter(p)[k] == t[i];
        assert(t.filter(p)[k].agent_id == id);
    }
}

/// Where a sprite sits on `seat`.
pub open spec fn seat_point(seat: SeatId) -> Point {
    match seat {
        SeatId::Desk(i) => Point { x: desk_seat_at(i as int).seat_x, y: desk_seat_at(i as int).seat_y },
        SeatId::Meeting(i) => Point { x: meeting_seat_at(i as int).seat_x, y: meeting_seat_at(i as int).seat_y },
        SeatId::Lab(i) => Point { x: lab_station_at(i as int).seat_x, y: lab_station_at(i as int).seat_y },
    }
}

/// `p` is one of the spots where sprites of `room` wait for a free seat:
/// by the right hall for the desks, outside the door of the meeting room
/// or of the lab.
pub open spec fn queue_spot(room: Room, p: Point) -> bool {
    match room {
        Room::Desk => p.x == 752 && (p.y == 120 || p.y == 180 || p.y == 484 || p.y == 544),
        Room::Meeting => p.y == 132 && (p.x == 856 || p.x == 1152),
        Room::Lab => p.y == 556 && (p.x == 856 || p.x == 1152),
    }
}

/// A newly seen live agent gets a sprite that walks in from outside the
/// door: with a seat of its own room it walks to that seat's seat point,
/// and only without a seat does it end at a queue spot of its room.
pub proof fn law_walk_in_ends_at_seat<M>(st: (Seq<SimV<M>>, SeatsView), a: AgentViewV, motion: M)
    requires
        spawn_step(st, a, motion).0.len() == st.0.len() + 1,
    ensures
        ({
            let sim = spawn_step(st, a, motion).0.last();
            &&& sim.agent_id == a.agent_id
            &&& sim.state == SimState::WalkingIn
            &&& sim.path.len() > 0
            &&& sim.seat matches Some(seat) ==> room_of(seat) == sim.room && sim.path.last() == seat_point(seat)
            &&& sim.seat is None ==> queue_spot(sim.room, sim.path.last())
        }),
{
    let room = classify_spec(a.agent_type, a.description, a.permission_mode);
    let (seat, seats) = seat_alloc(st.1, room, a.agent_id);
    let sim = spawn_step(st, a, motion).0.last();
    assert(sim == fresh_sim(a, room, seat, motion));
    let t = target_of(room, seat, hash_chars(a.agent_id));
    let (prefix, handoff) = crate::render::routing::route_prefix(door_start().x as int, door_start().y as int);
    let r = prefix + crate::render::routing::hall_path(handoff, crate::render::routing::staging(t))
        + crate::render::routing::approach(t);
    assert(sim.path == r);
    let ap = crate::render::routing::approach(t);
    assert(ap.len() > 0);
    assert(r.last() == ap.last());
    if let Some(sv) = seat {
        assert(sv == seat_in(room, first_free(slots_of(st.1, room))->0 as usize));
        assert(room_of(sv) == room);
    } else {
        let q = seq![
            Point { x: 752, y: 120 },
            Point { x: 752, y: 180 },
            Point { x: 752, y: 484 },
            Point { x: 752, y: 544 },
        ];
        let k = (hash_chars(a.agent_id) % 4) as int;
        assert(0 <= k < 4);
        let m = seq![Point { x: 856, y: 132 }, Point { x: 1152, y: 132 }];
        let l = seq![Point { x: 856, y: 556 }, Point { x: 1152, y: 556 }];
        let k2 = (hash_chars(a.agent_id) % 2) as int;
        assert(0 <= k2 < 2);
        assert(queue_spot(Room::Desk, q[k]));
        assert(queue_spot(Room::Meeting, m[k2]));
        assert(queue_spot(Room::Lab, l[k2]));
    }
}

/// When its agent finishes, a sprite that is not already leaving gives up
/// its seat and walks out along a path that ends outside the west door;
/// every other sprite is left as it was.
pub proof fn law_finished_walk_out<M>(sims: Seq<SimV<M>>, world: Seq<AgentViewV>, k: int)
    requires
        0 <= k < sims.len(),
    ensures
        turn_finishing(sims, world).len() == sims.len(),
        finishing(sims[k], world) ==> {
            let t = turn_finishing(sims, world)[k];
            &&& t.agent_id == sims[k].agent_id
            &&& t.seat is None
            &&& t.state == SimState::WalkingOut
            &&& t.path.len() > 0
            &&& t.path.last() == door_start()
        },
        !finishing(sims[k], world) ==> turn_finishing(sims, world)[k] == sims[k],
{
}

} // verus!
