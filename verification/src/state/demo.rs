//! The demo crew that `--demo N` starts: `N` agents cycling through six
//! profiles, alternating between two sessions so that the chest labels show
//! one character per session, started two seconds apart.

use vstd::prelude::*;
use crate::state::agent::opt_str;
use crate::state::payloads::StartAgent;
use crate::text::{decimal, push_decimal, push_text, string_from_chars};

verus! {

/// How far apart the demo agents start.
pub const DEMO_SPACING_MS: u64 = 2_000;

/// How many demo profiles there are.
pub const DEMO_PROFILES: usize = 6;

/// Demo profile `k`: user, agent type, permission mode and task.
pub open spec fn demo_profile(k: int) -> (Seq<char>, Seq<char>, Seq<char>, Seq<char>) {
    if k == 0 {
        ("alice"@, "coder"@, "default"@, "edit the auth module"@)
    } else if k == 1 {
        ("bob"@, "verifier"@, "default"@, "run golden-frame tests"@)
    } else if k == 2 {
        ("carol"@, "planner"@, "plan"@, "draft the migration plan"@)
    } else if k == 3 {
        ("dave"@, "coder"@, "default"@, "refactor the router"@)
    } else if k == 4 {
        ("eve"@, "auditor"@, "default"@, "lint the state module"@)
    } else {
        ("frank"@, "coder"@, "plan"@, "sketch the fb backend"@)
    }
}

fn profile(k: usize) -> (r: (&'static str, &'static str, &'static str, &'static str))
    requires
        k < DEMO_PROFILES,
    ensures
        (r.0@, r.1@, r.2@, r.3@) == demo_profile(k as int),
{
    if k == 0 {
        ("alice", "coder", "default", "edit the auth module")
    } else if k == 1 {
        ("bob", "verifier", "default", "run golden-frame tests")
    } else if k == 2 {
        ("carol", "planner", "plan", "draft the migration plan")
    } else if k == 3 {
        ("dave", "coder", "default", "refactor the router")
    } else if k == 4 {
        ("eve", "auditor", "default", "lint the state module")
    } else {
        ("frank", "coder", "plan", "sketch the fb backend")
    }
}

/// `p`, started at `at`, is demo agent `i` of a crew started at `now_ms`:
/// id `demo-i`, session `demo-session-(i mod 2)`, profile `i mod 6`, host
/// `demo`, directory `/tmp`, starting `i` spacings after `now_ms`.
pub open spec fn is_demo_start(p: StartAgent, at: u64, i: nat, now_ms: u64) -> bool {
    let (user, kind, mode, task) = demo_profile((i % 6) as int);
    &&& p.agent_id@ == "demo-"@ + decimal(i)
    &&& opt_str(p.session_id) == Some("demo-session-"@ + decimal(i % 2))
    &&& opt_str(p.agent_type) == Some(kind)
    &&& opt_str(p.description) == Some(task)
    &&& opt_str(p.user) == Some(user)
    &&& opt_str(p.host) == Some("demo"@)
    &&& opt_str(p.cwd) == Some("/tmp"@)
    &&& opt_str(p.permission_mode) == Some(mode)
    &&& at == now_ms + i * DEMO_SPACING_MS
}

/// `prefix` followed by the decimal writing of `n`.
fn numbered(prefix: &str, n: u64) -> (r: String)
    ensures
        r@ == prefix@ + decimal(n as nat),
{
    let mut v: Vec<char> = Vec::new();
    push_text(&mut v, prefix);
    push_decimal(&mut v, n);
    string_from_chars(v)
}

/// The start requests of a demo crew of `n` agents, each with the time it
/// starts at.
pub fn demo_starts(n: usize, now_ms: u64) -> (r: Vec<(StartAgent, u64)>)
    requires
        now_ms + n * DEMO_SPACING_MS <= u64::MAX,
    ensures
        r@.len() == n,
        forall|i: int| 0 <= i < n ==> is_demo_start(#[trigger] r@[i].0, r@[i].1, i as nat, now_ms),
{
    let mut out: Vec<(StartAgent, u64)> = Vec::new();
    let mut i: usize = 0;
    while i < n
        invariant
            i <= n,
            now_ms + n * DEMO_SPACING_MS <= u64::MAX,
            out@.len() == i,
            forall|k: int| 0 <= k < i ==> is_demo_start(#[trigger] out@[k].0, out@[k].1, k as nat, now_ms),
        decreases n - i,
    {
        let (user, kind, mode, task) = profile(i % DEMO_PROFILES);
        assert(i * DEMO_SPACING_MS <= n * DEMO_SPACING_MS) by (nonlinear_arith)
            requires
                i <= n,
        ;
        let at = now_ms + (i as u64) * DEMO_SPACING_MS;
        let p = StartAgent {
            agent_id: numbered("demo-", i as u64),
            session_id: Some(numbered("demo-session-", (i % 2) as u64)),
            agent_type: Some(kind.to_owned()),
            cwd: Some("/tmp".to_owned()),
            user: Some(user.to_owned()),
            host: Some("demo".to_owned()),
            permission_mode: Some(mode.to_owned()),
            description: Some(task.to_owned()),
        };
        out.push((p, at));
        proof {
            assert(is_demo_start(out@[i as int].0, out@[i as int].1, i as nat, now_ms));
        }
        i = i + 1;
    }
    out
}

} // verus!
