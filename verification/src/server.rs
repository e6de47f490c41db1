//! Plain records of the HTTP surface: the error of a handler, the body of a
//! refused request, and what the framebuffer backend reports about itself;
//! and the name under which the server announces itself on the local
//! network.

use vstd::prelude::*;
use crate::text::{chars_of, push_text, string_from_chars};

verus! {

/// An error of a request handler.
#[derive(Debug)]
pub enum AppError {
    BadRequest(String),
}

/// The body of a refused request: a short error and its details.
#[derive(Clone, Debug)]
pub struct ErrorBody {
    pub error: String,
    pub details: String,
}

/// What the framebuffer backend reports: panel size, bits per pixel, and
/// where the scaled frame sits.
#[derive(Clone, Copy, Debug, PartialEq, Eq)]
pub struct FbInfo {
    pub panel_w: u32,
    pub panel_h: u32,
    pub bpp: u8,
    pub scaled_w: u32,
    pub scaled_h: u32,
    pub letterbox_x: u32,
    pub letterbox_y: u32,
}

/// An ASCII letter or digit: `0`-`9`, `A`-`Z`, `a`-`z` by code point.
pub open spec fn is_ascii_alnum(c: char) -> bool {
    ||| 48 <= (c as u32) <= 57
    ||| 65 <= (c as u32) <= 90
    ||| 97 <= (c as u32) <= 122
}

/// A character as it may stand in a DNS label: letters, digits and `-`
/// stay, anything else becomes `-`.
pub open spec fn label_char(c: char) -> char {
    if is_ascii_alnum(c) || c == '-' {
        c
    } else {
        '-'
    }
}

/// The longest DNS label.
pub const MAX_LABEL: usize = 63;

/// The service instance name for a host name: every character made fit for
/// a DNS label, `workplacesim` for an empty name, at most 63 characters.
pub open spec fn instance_name(host: Seq<char>) -> Seq<char> {
    let m = Seq::new(host.len(), |i: int| label_char(host[i]));
    if m.len() == 0 {
        "workplacesim"@
    } else if m.len() > MAX_LABEL {
        m.take(MAX_LABEL as int)
    } else {
        m
    }
}

/// The service instance name for a host name (see `instance_name`).
pub fn sanitize_instance(hostname: &str) -> (r: String)
    ensures
        r@ == instance_name(hostname@),
{
    let cs = chars_of(hostname);
    let ghost m = Seq::new(hostname@.len(), |i: int| label_char(hostname@[i]));
    let mut out: Vec<char> = Vec::new();
    let mut i: usize = 0;
    while i < cs.len()
        invariant
            cs@ == hostname@,
            m == Seq::new(hostname@.len(), |j: int| label_char(hostname@[j])),
            i <= cs@.len(),
            out@ == m.take(i as int),
        decreases cs@.len() - i,
    {
        let c = cs[i];
        let u = c as u32;
        let keep = (48 <= u && u <= 57) || (65 <= u && u <= 90) || (97 <= u && u <= 122) || c == '-';
        assert(keep == (is_ascii_alnum(c) || c == '-'));
        if keep {
            out.push(c);
        } else {
            out.push('-');
        }
        assert(m[i as int] == label_char(c));
        assert(m.take(i + 1) =~= m.take(i as int).push(m[i as int]));
        assert(out@ =~= m.take(i + 1));
        i = i + 1;
    }
    assert(m.take(i as int) =~= m);
    if out.len() == 0 {
        push_text(&mut out, "workplacesim");
        assert(out@ =~= "workplacesim"@);
    } else if out.len() > MAX_LABEL {
        out.truncate(MAX_LABEL);
        assert(out@ =~= m.take(MAX_LABEL as int));
    }
    string_from_chars(out)
}

} // verus!
