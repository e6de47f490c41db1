//! Agent-to-room classifier. Priority: lab keyword, then plan mode, then
//! desk.

use vstd::prelude::*;
use vstd::string::StringExecFns;

use crate::text::{chars_of, contains_sub, seq_contains};

verus! {

#[derive(Clone, Copy, Debug, PartialEq, Eq, Structural)]
pub enum Room {
    Desk,
    Meeting,
    Lab,
}

/// Keywords that send a sim to the lab.
pub open spec fn lab_keyword_views() -> Seq<Seq<char>> {
    seq![
        "test"@, "spec"@, "review"@, "verify"@, "verifier"@, "lint"@, "bench"@, "analyzer"@,
        "hunter"@, "qa"@,
    ]
}

/// The lab keywords: test, spec, review, verify, verifier, lint, bench,
/// analyzer, hunter, qa.
pub fn lab_keywords() -> (r: [&'static str; 10])
    ensures
        forall|j: int| 0 <= j < 10 ==> r@[j]@ == lab_keyword_views()[j],
{
    ["test", "spec", "review", "verify", "verifier", "lint", "bench", "analyzer", "hunter", "qa"]
}

/// What `str::to_lowercase` returns for a string: its Unicode lowercase
/// mapping.
pub uninterp spec fn lowercase(s: Seq<char>) -> Seq<char>;

/// `str::to_lowercase`: the lowercase equivalent of `s` as a new string.
/// Its value is named by `lowercase`; nothing else about it is stated.
#[verifier::external_body]
fn to_lowercase(s: &str) -> (r: String)
    ensures
        r@ == lowercase(s@),
{
    s.to_lowercase()
}

/// Whether some lab keyword occurs in `text`.
pub open spec fn has_lab_keyword(text: Seq<char>) -> bool {
    exists|j: int| 0 <= j < 10 && contains_sub(text, #[trigger] lab_keyword_views()[j])
}

/// `agent_type`, a space, `description`.
pub open spec fn haystack(agent_type: Seq<char>, description: Seq<char>) -> Seq<char> {
    agent_type + seq![' '] + description
}

/// Whether an already lowercased text holds a lab keyword.
pub fn is_lab_text(lowered: &str) -> (r: bool)
    ensures
        r == has_lab_keyword(lowered@),
{
    let h = chars_of(lowered);
    let keys = lab_keywords();
    let mut j: usize = 0;
    while j < 10
        invariant
            h@ == lowered@,
            forall|m: int| 0 <= m < 10 ==> keys@[m]@ == lab_keyword_views()[m],
            j <= 10,
            forall|m: int| 0 <= m < j ==> !contains_sub(lowered@, #[trigger] lab_keyword_views()[m]),
        decreases 10 - j,
    {
        let k = chars_of(keys[j]);
        if seq_contains(&h, &k) {
            proof {
                assert(contains_sub(lowered@, lab_keyword_views()[j as int]));
            }
            return true;
        }
        j = j + 1;
    }
    false
}

/// Lab when the lowercased `agent_type + " " + description` holds a lab
/// keyword as a substring.
pub open spec fn is_lab_spec(agent_type: Seq<char>, description: Seq<char>) -> bool {
    has_lab_keyword(lowercase(haystack(agent_type, description)))
}

fn is_lab(agent_type: &str, description: &str) -> (r: bool)
    ensures
        r == is_lab_spec(agent_type@, description@),
{
    let mut joined = agent_type.to_owned();
    joined.append(" ");
    joined.append(description);
    proof {
        reveal_strlit(" ");
        assert(joined@ =~= haystack(agent_type@, description@));
    }
    let lowered = to_lowercase(joined.as_str());
    is_lab_text(lowered.as_str())
}

pub open spec fn classify_spec(agent_type: Seq<char>, description: Seq<char>, permission_mode: Seq<char>) -> Room {
    if is_lab_spec(agent_type, description) {
        Room::Lab
    } else if permission_mode == "plan"@ {
        Room::Meeting
    } else {
        Room::Desk
    }
}

/// The room a sim belongs in: lab keyword first, then plan mode (meeting),
/// else desk.
pub fn classify(agent_type: &str, description: &str, permission_mode: &str) -> (r: Room)
    ensures
        r == classify_spec(agent_type@, description@, permission_mode@),
{
    if is_lab(agent_type, description) {
        Room::Lab
    } else if crate::text::str_eq(permission_mode, "plan") {
        Room::Meeting
    } else {
        Room::Desk
    }
}

} // verus!
