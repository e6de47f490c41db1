//! Properties of the renderer that span several functions or hold of every
//! input: what a pixel read gives back after a write, how seats come back
//! after release, how the effect queues stay bounded, and how the scene
//! statistics add up.

use vstd::prelude::*;
use crate::render::classify::Room;
use crate::render::dirty::{clip_box, positive};
use crate::render::frame::{RenderFrame, inside, repainted};
use crate::render::fx::{room_for_one, fresh, Footstep};
use crate::render::palette::{Rgb, sim_colors_of, mote_color_of, mote_default_spec};
use crate::render::sim_store::{SeatId, SeatsView, first_free, index_of, room_of, slots_of};
use crate::state::agent::AgentV;
use crate::stats::room_count;

verus! {

/// Reading a pixel after painting it gives the colour painted; every other
/// pixel reads as before.
pub proof fn law_read_after_write(before: RenderFrame, after: RenderFrame, x: int, y: int, c: Rgb, px: int, py: int)
    requires
        repainted(before, after, |qx: int, qy: int| qx == x && qy == y, c),
        inside(before.w(), before.h(), px, py),
    ensures
        after.pixel(px, py) == if px == x && py == y {
            c
        } else {
            before.pixel(px, py)
        },
{
}

/// A seat whose every earlier seat of the room is taken is handed out again
/// by the next allocation once it is released.
pub proof fn law_released_seat_comes_back(v: SeatsView, seat: SeatId)
    requires
        0 <= index_of(seat) < slots_of(v, room_of(seat)).len(),
        forall|k: int| 0 <= k < index_of(seat) ==> #[trigger] slots_of(v, room_of(seat))[k] is Some,
    ensures
        first_free(slots_of(v, room_of(seat)).update(index_of(seat), None)) == Some(index_of(seat)),
{
    let s = slots_of(v, room_of(seat)).update(index_of(seat), None);
    let i = index_of(seat);
    assert(s[i] is None);
    let c = choose|k: int| 0 <= k < s.len() && s[k] is None && forall|j: int| 0 <= j < k ==> s[j] is Some;
    assert(0 <= c < s.len() && s[c] is None && forall|j: int| 0 <= j < c ==> s[j] is Some) by {
        assert(forall|j: int| 0 <= j < i ==> s[j] is Some);
    }
    if c < i {
        assert(s[c] is Some);
    } else if c > i {
        assert(s[i] is Some);
    }
}

/// A ring buffer with a positive cap never holds more than the cap after an
/// entry arrives, and keeps every entry while there is room.
pub proof fn law_ring_within_cap<T>(s: Seq<T>, cap: usize, x: T)
    requires
        cap > 0,
    ensures
        room_for_one(s, cap).push(x).len() <= cap,
        s.len() < cap ==> room_for_one(s, cap) == s,
{
}

/// Every footstep left after expiry is still visible.
pub proof fn law_expiry_leaves_fresh<P>(s: Seq<Footstep<P>>, now: u64, life: u64)
    ensures
        forall|i: int| 0 <= i < s.filter(fresh::<Footstep<P>>(now, life)).len() ==> (fresh::<Footstep<P>>(now, life))(
            #[trigger] s.filter(fresh::<Footstep<P>>(now, life))[i],
        ),
{
    assert forall|i: int| 0 <= i < s.filter(fresh::<Footstep<P>>(now, life)).len() implies (fresh::<Footstep<P>>(now, life))(
        #[trigger] s.filter(fresh::<Footstep<P>>(now, life))[i],
    ) by {
        s.lemma_filter_pred(fresh::<Footstep<P>>(now, life), i);
    }
}

/// The empty user name picks the colours of `?`.
pub proof fn law_empty_user_colours()
    ensures
        sim_colors_of(Seq::<char>::empty()) == sim_colors_of("?"@),
{
}

/// Every agent lands in exactly one room: the three room counts add up to
/// the number of agents.
pub proof fn law_rooms_partition(s: Seq<AgentV>)
    ensures
        room_count(s, Room::Desk) + room_count(s, Room::Meeting) + room_count(s, Room::Lab) == s.len(),
    decreases s.len(),
{
    if s.len() > 0 {
        law_rooms_partition(s.drop_last());
    }
}

/// A clipped box that keeps any area lies inside the render frame.
pub proof fn law_clip_inside_frame(x: int, y: int, w: int, h: int)
    ensures
        positive(clip_box(x, y, w, h)) ==> {
            let r = clip_box(x, y, w, h);
            0 <= r.x && r.x + r.w <= 640 && 0 <= r.y && r.y + r.h <= 360
        },
{
}

/// The tool names that have a mote colour of their own.
pub open spec fn mote_table_names() -> Seq<Seq<char>> {
    seq![
        "Read"@, "Grep"@, "Glob"@, "LS"@, "NotebookRead"@,
        "Write"@, "Edit"@, "MultiEdit"@, "NotebookEdit"@,
        "Bash"@,
        "Agent"@, "Task"@, "TaskCreate"@,
        "WebFetch"@, "WebSearch"@,
    ]
}

/// Every tool of the mote table is drawn in its own colour: readers blue,
/// writers orange, the shell green, agent spawners pink, web tools violet;
/// the grey default goes to every other name, and to none of the table's.
pub proof fn law_mote_colours()
    ensures
        mote_color_of("Read"@) == Rgb(0x7f, 0xc7, 0xff),
        mote_color_of("Grep"@) == Rgb(0x7f, 0xc7, 0xff),
        mote_color_of("Glob"@) == Rgb(0x7f, 0xc7, 0xff),
        mote_color_of("LS"@) == Rgb(0x7f, 0xc7, 0xff),
        mote_color_of("NotebookRead"@) == Rgb(0x7f, 0xc7, 0xff),
        mote_color_of("Write"@) == Rgb(0xff, 0xb8, 0x6c),
        mote_color_of("Edit"@) == Rgb(0xff, 0xb8, 0x6c),
        mote_color_of("MultiEdit"@) == Rgb(0xff, 0xb8, 0x6c),
        mote_color_of("NotebookEdit"@) == Rgb(0xff, 0xb8, 0x6c),
        mote_color_of("Bash"@) == Rgb(0x8b, 0xe9, 0x8b),
        mote_color_of("Agent"@) == Rgb(0xff, 0x8f, 0xd4),
        mote_color_of("Task"@) == Rgb(0xff, 0x8f, 0xd4),
        mote_color_of("TaskCreate"@) == Rgb(0xff, 0x8f, 0xd4),
        mote_color_of("WebFetch"@) == Rgb(0xc2, 0x8f, 0xff),
        mote_color_of("WebSearch"@) == Rgb(0xc2, 0x8f, 0xff),
        forall|t: Seq<char>| !mote_table_names().contains(t) ==> mote_color_of(t) == Rgb(0xcc, 0xcc, 0xcc),
        forall|t: Seq<char>| mote_table_names().contains(t) ==> mote_color_of(t) != Rgb(0xcc, 0xcc, 0xcc),
{
    reveal_strlit("Read");
    reveal_strlit("Grep");
    reveal_strlit("Glob");
    reveal_strlit("LS");
    reveal_strlit("NotebookRead");
    reveal_strlit("Write");
    reveal_strlit("Edit");
    reveal_strlit("MultiEdit");
    reveal_strlit("NotebookEdit");
    reveal_strlit("Bash");
    reveal_strlit("Agent");
    reveal_strlit("Task");
    reveal_strlit("TaskCreate");
    reveal_strlit("WebFetch");
    reveal_strlit("WebSearch");
    assert("Read"@.len() == 4 && "Read"@[0] == 'R' && "Read"@[1] == 'e');
    assert("Grep"@.len() == 4 && "Grep"@[0] == 'G' && "Grep"@[1] == 'r');
    assert("Glob"@.len() == 4 && "Glob"@[0] == 'G' && "Glob"@[1] == 'l');
    assert("LS"@.len() == 2 && "LS"@[0] == 'L' && "LS"@[1] == 'S');
    assert("NotebookRead"@.len() == 12 && "NotebookRead"@[0] == 'N' && "NotebookRead"@[1] == 'o');
    assert("Write"@.len() == 5 && "Write"@[0] == 'W' && "Write"@[1] == 'r');
    assert("Edit"@.len() == 4 && "Edit"@[0] == 'E' && "Edit"@[1] == 'd');
    assert("MultiEdit"@.len() == 9 && "MultiEdit"@[0] == 'M' && "MultiEdit"@[1] == 'u');
    assert("NotebookEdit"@.len() == 12 && "NotebookEdit"@[0] == 'N' && "NotebookEdit"@[1] == 'o');
    assert("Bash"@.len() == 4 && "Bash"@[0] == 'B' && "Bash"@[1] == 'a');
    assert("Agent"@.len() == 5 && "Agent"@[0] == 'A' && "Agent"@[1] == 'g');
    assert("Task"@.len() == 4 && "Task"@[0] == 'T' && "Task"@[1] == 'a');
    assert("TaskCreate"@.len() == 10 && "TaskCreate"@[0] == 'T' && "TaskCreate"@[1] == 'a');
    assert("WebFetch"@.len() == 8 && "WebFetch"@[0] == 'W' && "WebFetch"@[1] == 'e');
    assert("WebSearch"@.len() == 9 && "WebSearch"@[0] == 'W' && "WebSearch"@[1] == 'e');
    assert("NotebookEdit"@[8] == 'E' && "NotebookRead"@[8] == 'R');
    let n = mote_table_names();
    assert forall|t: Seq<char>| !n.contains(t) implies mote_color_of(t) == Rgb(0xcc, 0xcc, 0xcc) by {
        assert(t != n[0] && t != n[1] && t != n[2] && t != n[3] && t != n[4]);
        assert(t != n[5] && t != n[6] && t != n[7] && t != n[8] && t != n[9]);
        assert(t != n[10] && t != n[11] && t != n[12] && t != n[13] && t != n[14]);
    }
    assert forall|t: Seq<char>| n.contains(t) implies mote_color_of(t) != Rgb(0xcc, 0xcc, 0xcc) by {
        let k = choose|k: int| 0 <= k < n.len() && n[k] == t;
        assert(0 <= k < 15);
    }
}

} // verus!
