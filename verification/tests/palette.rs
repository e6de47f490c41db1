use workplacesim::render::palette::{hash_str, mote_color, mote_default_color, sim_colors, Rgb};

#[test]
fn mote_color_known_tools() {
    assert_eq!(mote_color("Read"), Rgb(0x7f, 0xc7, 0xff));
    assert_eq!(mote_color("Bash"), Rgb(0x8b, 0xe9, 0x8b));
    assert_eq!(mote_color("Edit"), Rgb(0xff, 0xb8, 0x6c));
    assert_eq!(mote_color("Agent"), Rgb(0xff, 0x8f, 0xd4));
    assert_eq!(mote_color("WebFetch"), Rgb(0xc2, 0x8f, 0xff));
}

#[test]
fn mote_color_default_on_miss() {
    assert_eq!(mote_color("TotallyUnknown"), mote_default_color());
    assert_eq!(mote_color(""), mote_default_color());
}

#[test]
fn mote_color_is_exact_match_not_prefix() {
    assert_eq!(mote_color("ReadFile"), mote_default_color());
    assert_eq!(mote_color("BashTool"), mote_default_color());
}

#[test]
fn mote_color_is_case_sensitive() {
    assert_eq!(mote_color("read"), mote_default_color());
    assert_eq!(mote_default_color(), Rgb(0xcc, 0xcc, 0xcc));
}

#[test]
fn hash_str_matches_known_values() {
    assert_eq!(hash_str("a"), 97);
    assert_eq!(hash_str("ab"), 3105);
    assert_eq!(hash_str("?"), 63);
}

#[test]
fn hash_str_wraps_modulo_two_to_the_32() {
    assert_eq!(hash_str(""), 0);
    // 31^7 * 'z' and friends overflow a u32; the hash wraps.
    let mut h: u64 = 0;
    for c in "zzzzzzzzzz".chars() {
        h = (h * 31 + c as u64) % (1u64 << 32);
    }
    assert_eq!(hash_str("zzzzzzzzzz") as u64, h);
}

#[test]
fn sim_colors_deterministic() {
    let a1 = sim_colors("alice");
    let a2 = sim_colors("alice");
    assert_eq!(a1, a2);
    let b1 = sim_colors("bob");
    assert_ne!(a1.shirt, b1.shirt);
}

#[test]
fn sim_colors_empty_user_falls_back_to_question_mark() {
    assert_eq!(sim_colors(""), sim_colors("?"));
}

const SHIRT_HUES: [i32; 10] = [210, 340, 40, 140, 260, 20, 190, 300, 80, 170];
const SKIN_TONES: [u32; 5] = [0xf5cfa6, 0xe3b58a, 0xc48f6c, 0x8d5a3d, 0xf0d4b4];

fn hsl_to_rgb(h: f32, s: f32, l: f32) -> Rgb {
    let c = (1.0 - (2.0 * l - 1.0).abs()) * s;
    let hp = h * 6.0;
    let x = c * (1.0 - (hp.rem_euclid(2.0) - 1.0).abs());
    let (r1, g1, b1) = if (0.0..1.0).contains(&hp) {
        (c, x, 0.0)
    } else if (1.0..2.0).contains(&hp) {
        (x, c, 0.0)
    } else if (2.0..3.0).contains(&hp) {
        (0.0, c, x)
    } else if (3.0..4.0).contains(&hp) {
        (0.0, x, c)
    } else if (4.0..5.0).contains(&hp) {
        (x, 0.0, c)
    } else {
        (c, 0.0, x)
    };
    let m = l - c / 2.0;
    Rgb(
        ((r1 + m) * 255.0).round().clamp(0.0, 255.0) as u8,
        ((g1 + m) * 255.0).round().clamp(0.0, 255.0) as u8,
        ((b1 + m) * 255.0).round().clamp(0.0, 255.0) as u8,
    )
}

fn js_shift_mod(h: u32, shift: u32, add: i32, modulus: i32) -> i32 {
    let shifted = (h as i32) >> shift;
    let rem = (shifted.wrapping_add(add)) % modulus;
    if rem < 0 { rem + modulus } else { rem }
}

fn expected_colors(user: &str) -> (Rgb, Rgb, Rgb, Rgb) {
    let user = if user.is_empty() { "?" } else { user };
    let mut h: u32 = 0;
    for c in user.chars() {
        h = h.wrapping_mul(31).wrapping_add(c as u32);
    }
    let shirt = hsl_to_rgb(SHIRT_HUES[(h as usize) % 10] as f32 / 360.0, 0.55, 0.52);
    let pants = hsl_to_rgb(SHIRT_HUES[js_shift_mod(h, 3, 3, 10) as usize] as f32 / 360.0, 0.35, 0.28);
    let s = SKIN_TONES[(h as usize) % 5];
    let skin = Rgb((s >> 16) as u8, (s >> 8) as u8, s as u8);
    let hair = hsl_to_rgb(SHIRT_HUES[js_shift_mod(h, 5, 7, 10) as usize] as f32 / 360.0, 0.25, 0.18);
    (shirt, pants, skin, hair)
}

#[test]
fn sim_colors_match_the_hsl_formula() {
    for user in ["alice", "bob", "carol", "", "?", "ZZZZZZZZZZZZ", "user-with-a-long-name", "λ"] {
        let c = sim_colors(user);
        let (shirt, pants, skin, hair) = expected_colors(user);
        assert_eq!(c.shirt, shirt, "{user}");
        assert_eq!(c.pants, pants, "{user}");
        assert_eq!(c.skin, skin, "{user}");
        assert_eq!(c.hair, hair, "{user}");
    }
}

#[test]
fn sim_colors_cover_every_hue_and_tone() {
    // Hash values 0..50 reach each table entry; the single-char names "0".."z"
    // give a spread of hashes whose colours must all match the formula.
    for b in b'0'..=b'z' {
        let s = (b as char).to_string();
        let c = sim_colors(&s);
        let (shirt, pants, skin, hair) = expected_colors(&s);
        assert_eq!((c.shirt, c.pants, c.skin, c.hair), (shirt, pants, skin, hair));
    }
}

#[test]
fn hsl_to_rgb_sanity() {
    assert_eq!(hsl_to_rgb(0.0, 1.0, 0.5), Rgb(255, 0, 0));
    assert_eq!(hsl_to_rgb(1.0 / 3.0, 1.0, 0.5), Rgb(0, 255, 0));
    assert_eq!(hsl_to_rgb(2.0 / 3.0, 1.0, 0.5), Rgb(0, 0, 255));
    assert_eq!(hsl_to_rgb(0.0, 0.0, 0.5), Rgb(128, 128, 128));
}
