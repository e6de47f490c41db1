//! Colour palette: the mote colour of each tool name, and the per-user sprite
//! palette (shirt, pants, skin, hair) picked by a stable hash of the user name.

use vstd::prelude::*;
use vstd::arithmetic::div_mod::{lemma_add_mod_noop, lemma_fundamental_div_mod, lemma_fundamental_div_mod_converse_mod};
use crate::text::str_eq;

verus! {

/// An opaque 24-bit colour.
#[derive(Clone, Copy, Debug, PartialEq, Eq, Structural)]
pub struct Rgb(pub u8, pub u8, pub u8);

/// The colour a `0xRRGGBB` code stands for.
pub open spec fn hex_rgb(hex: u32) -> Rgb {
    Rgb((hex / 0x10000 % 0x100) as u8, (hex / 0x100 % 0x100) as u8, (hex % 0x100) as u8)
}

/// The colour of a `0xRRGGBB` code.
pub fn rgb_from_hex(hex: u32) -> (c: Rgb)
    ensures
        c == hex_rgb(hex),
{
    Rgb((hex / 0x10000 % 0x100) as u8, (hex / 0x100 % 0x100) as u8, (hex % 0x100) as u8)
}

// Scene colours, as `0xRRGGBB` codes.
pub const BG: u32 = 0x0b0d12;
pub const FLOOR_A: u32 = 0x3a2f24;
pub const FLOOR_B: u32 = 0x433627;
pub const FLOOR_MEETING_A: u32 = 0x2c2f3a;
pub const FLOOR_MEETING_B: u32 = 0x353948;
pub const FLOOR_LAB_A: u32 = 0x1f3038;
pub const FLOOR_LAB_B: u32 = 0x263a44;
pub const FLOOR_LINE: u32 = 0x2a2218;
pub const LAB_GRID: u32 = 0x0e1c22;
pub const WALL: u32 = 0x1a2028;
pub const WALL_HI: u32 = 0x2d3643;
pub const DESK_TOP: u32 = 0x8a6a3f;
pub const DESK_EDGE: u32 = 0x5c4526;
pub const DESK_SHADE: u32 = 0x6e5432;
pub const MONITOR: u32 = 0x0f1722;
pub const MONITOR_GLOW: u32 = 0x6ec6ff;
pub const KEYBOARD: u32 = 0x1c232d;
pub const MOUSE: u32 = 0x2a2f39;
pub const CHAIR: u32 = 0x2b333d;
pub const CHAIR_HI: u32 = 0x3e4856;
pub const WHITEBOARD_FRAME: u32 = 0xa0a8b4;
pub const WHITEBOARD_BODY: u32 = 0xf2f2ee;
pub const WINDOW_FRAME: u32 = 0x3d4956;
pub const WINDOW_GLASS: u32 = 0x7ab5d6;
pub const BENCH_TOP: u32 = 0xc8cdd5;
pub const BENCH_SHADE: u32 = 0x6f7682;
pub const BENCH_EDGE: u32 = 0x4e535c;
pub const SCOPE: u32 = 0x0a131a;
pub const SCOPE_TRACE: u32 = 0x5cffaf;
pub const LED: u32 = 0x66ff88;
pub const BUILD_BOARD_BG: u32 = 0x10181c;
pub const WHITEBOARD_TEXT: u32 = 0x1a1f28;
pub const TICKER_TEXT: u32 = 0xcfe6ff;
pub const STATUS_TEXT: u32 = 0xd8d2c5;
pub const STATUS_PANEL_BG: u32 = 0x1c1510;
pub const BENCH_FLASH_OK: u32 = 0x6ef08e;
pub const BENCH_FLASH_ERR: u32 = 0xff6464;
pub const GLYPH_ERR: u32 = 0xff6464;
pub const GLYPH_LAB: u32 = 0x5cffaf;
pub const GLYPH_IDLE: u32 = 0x9dc9ff;
pub const GLYPH_WALK: u32 = 0xaaaaaa;
pub const GLYPH_PLAN: u32 = 0xeef2f6;
pub const GLYPH_LONG: u32 = 0xd2b48c;

/// The colour of a mote whose tool has no entry of its own.
pub open spec fn mote_default_spec() -> Rgb {
    Rgb(0xcc, 0xcc, 0xcc)
}

/// The colour of a mote whose tool has no entry of its own.
pub fn mote_default_color() -> (c: Rgb)
    ensures
        c == mote_default_spec(),
{
    Rgb(0xcc, 0xcc, 0xcc)
}

/// Tools that read.
pub open spec fn is_read_tool(t: Seq<char>) -> bool {
    t == "Read"@ || t == "Grep"@ || t == "Glob"@ || t == "LS"@ || t == "NotebookRead"@
}

/// Tools that write.
pub open spec fn is_write_tool(t: Seq<char>) -> bool {
    t == "Write"@ || t == "Edit"@ || t == "MultiEdit"@ || t == "NotebookEdit"@
}

/// Tools that spawn other agents.
pub open spec fn is_agent_tool(t: Seq<char>) -> bool {
    t == "Agent"@ || t == "Task"@ || t == "TaskCreate"@
}

/// Tools that go to the web.
pub open spec fn is_web_tool(t: Seq<char>) -> bool {
    t == "WebFetch"@ || t == "WebSearch"@
}

/// The mote colour of a tool name: an exact, case-sensitive lookup, with the
/// default colour for every name not in the table.
pub open spec fn mote_color_of(t: Seq<char>) -> Rgb {
    if is_read_tool(t) {
        Rgb(0x7f, 0xc7, 0xff)
    } else if is_write_tool(t) {
        Rgb(0xff, 0xb8, 0x6c)
    } else if t == "Bash"@ {
        Rgb(0x8b, 0xe9, 0x8b)
    } else if is_agent_tool(t) {
        Rgb(0xff, 0x8f, 0xd4)
    } else if is_web_tool(t) {
        Rgb(0xc2, 0x8f, 0xff)
    } else {
        mote_default_spec()
    }
}

/// Looks up the mote colour of a tool name.
pub fn mote_color(tool_name: &str) -> (c: Rgb)
    ensures
        c == mote_color_of(tool_name@),
{
    let t = tool_name;
    if str_eq(t, "Read") || str_eq(t, "Grep") || str_eq(t, "Glob") || str_eq(t, "LS") || str_eq(
        t,
        "NotebookRead",
    ) {
        Rgb(0x7f, 0xc7, 0xff)
    } else if str_eq(t, "Write") || str_eq(t, "Edit") || str_eq(t, "MultiEdit") || str_eq(
        t,
        "NotebookEdit",
    ) {
        Rgb(0xff, 0xb8, 0x6c)
    } else if str_eq(t, "Bash") {
        Rgb(0x8b, 0xe9, 0x8b)
    } else if str_eq(t, "Agent") || str_eq(t, "Task") || str_eq(t, "TaskCreate") {
        Rgb(0xff, 0x8f, 0xd4)
    } else if str_eq(t, "WebFetch") || str_eq(t, "WebSearch") {
        Rgb(0xc2, 0x8f, 0xff)
    } else {
        mote_default_color()
    }
}

} // verus!

verus! {

/// The stable hash of a character sequence: starting from zero, each
/// character's code point is added to 31 times the running value, modulo 2^32.
pub open spec fn hash_chars(s: Seq<char>) -> u32
    decreases s.len(),
{
    if s.len() == 0 {
        0
    } else {
        ((31 * hash_chars(s.drop_last()) + (s.last() as u32)) % 0x1_0000_0000) as u32
    }
}

/// The stable hash of a string (see `hash_chars`).
pub fn hash_str(s: &str) -> (h: u32)
    ensures
        h == hash_chars(s@),
{
    let mut h: u32 = 0;
    for c in it: s.chars()
        invariant
            h == hash_chars(it.seq().take(it.index() as int)),
            it.seq() == s@,
    {
        let ghost prev = it.seq().take(it.index() as int);
        let ghost next = it.seq().take(it.index() + 1);
        proof {
            assert(next.drop_last() =~= prev);
            assert(next.last() == c);
            lemma_add_mod_noop(31 * h as int, c as u32 as int, 0x1_0000_0000);
            assert((c as u32) < 0x1_0000_0000);
            assert((c as u32 as int) % 0x1_0000_0000 == c as u32 as int);
            assert(((31 * h as int) % 0x1_0000_0000) % 0x1_0000_0000 == (31 * h as int) % 0x1_0000_0000);
        }
        h = h.wrapping_mul(31).wrapping_add(c as u32);
    }
    proof {
        assert(s@.take(s@.len() as int) =~= s@);
    }
    h
}

} // verus!

verus! {

/// The palette index that a signed shift of the hash, an offset and a
/// Euclidean remainder give: `((h as i32) >> shift) + add` modulo `m`.
pub open spec fn js_index(h: u32, shift: u32, add: i32, m: i32) -> int {
    (((h as i32) >> shift) + add) % (m as int)
}

/// Reads `h` as a signed 32-bit value, shifts it right arithmetically, adds
/// `add` and takes the remainder that is never negative.
fn js_shift_mod(h: u32, shift: u32, add: i32, modulus: i32) -> (r: i32)
    requires
        1 <= shift < 32,
        -0x4000_0000 < add < 0x4000_0000,
        modulus > 0,
    ensures
        r == js_index(h, shift, add, modulus),
        0 <= r < modulus,
{
    let x: i32 = h as i32;
    let shifted: i32 = x >> shift;
    assert(-0x4000_0000 <= (x >> shift) && (x >> shift) < 0x4000_0000) by (bit_vector)
        requires
            1 <= shift < 32,
    ;
    let v: i32 = shifted + add;
    let m: u32 = modulus as u32;
    if v >= 0 {
        let r: u32 = (v as u32) % m;
        r as i32
    } else {
        let a: u32 = (0 - v) as u32;
        let r: u32 = a % m;
        proof {
            lemma_fundamental_div_mod(a as int, m as int);
            let q = (a as int) / (m as int);
            if r == 0 {
                assert(v as int == (-q) * (m as int) + 0) by (nonlinear_arith)
                    requires
                        a as int == (m as int) * q + 0,
                        v as int == -(a as int),
                ;
                lemma_fundamental_div_mod_converse_mod(v as int, m as int, -q, 0);
            } else {
                assert(v as int == (-q - 1) * (m as int) + (m - r)) by (nonlinear_arith)
                    requires
                        a as int == (m as int) * q + r,
                        v as int == -(a as int),
                ;
                lemma_fundamental_div_mod_converse_mod(v as int, m as int, -q - 1, m - r);
            }
        }
        if r == 0 {
            0
        } else {
            modulus - (r as i32)
        }
    }
}

/// Skin tones, indexed by the hash modulo five.
pub open spec fn skin_table() -> Seq<Rgb> {
    seq![
        Rgb(0xf5, 0xcf, 0xa6),
        Rgb(0xe3, 0xb5, 0x8a),
        Rgb(0xc4, 0x8f, 0x6c),
        Rgb(0x8d, 0x5a, 0x3d),
        Rgb(0xf0, 0xd4, 0xb4),
    ]
}

/// Shirt colours: each hue of the shirt-hue list (210, 340, 40, 140, 260, 20,
/// 190, 300, 80, 170 degrees) at saturation 0.55 and lightness 0.52.
pub open spec fn shirt_table() -> Seq<Rgb> {
    seq![
        Rgb(65, 133, 200),
        Rgb(200, 65, 110),
        Rgb(200, 155, 65),
        Rgb(65, 200, 110),
        Rgb(110, 65, 200),
        Rgb(200, 110, 65),
        Rgb(65, 177, 200),
        Rgb(200, 65, 200),
        Rgb(155, 200, 65),
        Rgb(65, 200, 177),
    ]
}

/// Pants colours: the same hues at saturation 0.35 and lightness 0.28.
pub open spec fn pants_table() -> Seq<Rgb> {
    seq![
        Rgb(46, 71, 96),
        Rgb(96, 46, 63),
        Rgb(96, 80, 46),
        Rgb(46, 96, 63),
        Rgb(63, 46, 96),
        Rgb(96, 63, 46),
        Rgb(46, 88, 96),
        Rgb(96, 46, 96),
        Rgb(80, 96, 46),
        Rgb(46, 96, 88),
    ]
}

/// Hair colours: the same hues at saturation 0.25 and lightness 0.18.
pub open spec fn hair_table() -> Seq<Rgb> {
    seq![
        Rgb(34, 46, 57),
        Rgb(57, 34, 42),
        Rgb(57, 50, 34),
        Rgb(34, 57, 42),
        Rgb(42, 34, 57),
        Rgb(57, 42, 34),
        Rgb(34, 54, 57),
        Rgb(57, 34, 57),
        Rgb(50, 57, 34),
        Rgb(34, 57, 54),
    ]
}

/// Entry `i` of `skin_table`.
fn skin_tone(i: usize) -> (c: Rgb)
    requires
        i < 5,
    ensures
        c == skin_table()[i as int],
{
    let t: Vec<Rgb> = vec![
        Rgb(0xf5, 0xcf, 0xa6),
        Rgb(0xe3, 0xb5, 0x8a),
        Rgb(0xc4, 0x8f, 0x6c),
        Rgb(0x8d, 0x5a, 0x3d),
        Rgb(0xf0, 0xd4, 0xb4),
    ];
    assert(t@ =~= skin_table());
    t[i]
}

/// Entry `i` of `shirt_table`.
fn shirt_color(i: usize) -> (c: Rgb)
    requires
        i < 10,
    ensures
        c == shirt_table()[i as int],
{
    let t: Vec<Rgb> = vec![
        Rgb(65, 133, 200),
        Rgb(200, 65, 110),
        Rgb(200, 155, 65),
        Rgb(65, 200, 110),
        Rgb(110, 65, 200),
        Rgb(200, 110, 65),
        Rgb(65, 177, 200),
        Rgb(200, 65, 200),
        Rgb(155, 200, 65),
        Rgb(65, 200, 177),
    ];
    assert(t@ =~= shirt_table());
    t[i]
}

/// Entry `i` of `pants_table`.
fn pants_color(i: usize) -> (c: Rgb)
    requires
        i < 10,
    ensures
        c == pants_table()[i as int],
{
    let t: Vec<Rgb> = vec![
        Rgb(46, 71, 96),
        Rgb(96, 46, 63),
        Rgb(96, 80, 46),
        Rgb(46, 96, 63),
        Rgb(63, 46, 96),
        Rgb(96, 63, 46),
        Rgb(46, 88, 96),
        Rgb(96, 46, 96),
        Rgb(80, 96, 46),
        Rgb(46, 96, 88),
    ];
    assert(t@ =~= pants_table());
    t[i]
}

/// Entry `i` of `hair_table`.
fn hair_color(i: usize) -> (c: Rgb)
    requires
        i < 10,
    ensures
        c == hair_table()[i as int],
{
    let t: Vec<Rgb> = vec![
        Rgb(34, 46, 57),
        Rgb(57, 34, 42),
        Rgb(57, 50, 34),
        Rgb(34, 57, 42),
        Rgb(42, 34, 57),
        Rgb(57, 42, 34),
        Rgb(34, 54, 57),
        Rgb(57, 34, 57),
        Rgb(50, 57, 34),
        Rgb(34, 57, 54),
    ];
    assert(t@ =~= hair_table());
    t[i]
}

/// The four colours of one user's sprite.
#[derive(Clone, Copy, Debug, PartialEq, Eq, Structural)]
pub struct SimColors {
    pub shirt: Rgb,
    pub pants: Rgb,
    pub skin: Rgb,
    pub hair: Rgb,
}

/// The name that picks the colours: `?` stands in for the empty name.
pub open spec fn palette_key(user: Seq<char>) -> Seq<char> {
    if user.len() == 0 {
        "?"@
    } else {
        user
    }
}

/// The sprite colours of a user: the shirt by the hash modulo ten, the pants
/// and hair by shifted hashes, the skin by the hash modulo five.
pub open spec fn sim_colors_of(user: Seq<char>) -> SimColors {
    let h = hash_chars(palette_key(user));
    SimColors {
        shirt: shirt_table()[(h % 10) as int],
        pants: pants_table()[js_index(h, 3, 3, 10)],
        skin: skin_table()[(h % 5) as int],
        hair: hair_table()[js_index(h, 5, 7, 10)],
    }
}

/// Picks the sprite colours of a user.
pub fn sim_colors(user: &str) -> (c: SimColors)
    ensures
        c == sim_colors_of(user@),
{
    let key: &str = if user.is_empty() {
        "?"
    } else {
        user
    };
    let h = hash_str(key);
    let shirt = shirt_color((h % 10) as usize);
    let pants_idx = js_shift_mod(h, 3, 3, 10);
    let pants = pants_color(pants_idx as usize);
    let skin = skin_tone((h % 5) as usize);
    let hair_idx = js_shift_mod(h, 5, 7, 10);
    let hair = hair_color(hair_idx as usize);
    SimColors { shirt, pants, skin, hair }
}

} // verus!
