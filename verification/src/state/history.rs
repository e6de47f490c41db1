//! The rate history behind the events-per-minute figure: how long it keeps
//! timestamps, how it is trimmed, and how it grows as events are recorded.

use vstd::prelude::*;

verus! {

/// Window (ms) of event timestamps kept for the event-rate readout.
pub const EVENT_HISTORY_MS: u64 = 300_000;

/// Hard cap on kept event timestamps.
pub const EVENT_HISTORY_CAP: usize = 200_000;

/// The first entries of `ts` older than `cutoff`, counted from the front.
pub open spec fn stale_front(ts: Seq<u64>, cutoff: int) -> nat
    decreases ts.len(),
{
    if ts.len() == 0 || ts[0] >= cutoff {
        0
    } else {
        1 + stale_front(ts.drop_first(), cutoff)
    }
}

/// The oldest event time the rate history keeps at `now_ms`.
pub open spec fn history_cutoff(now_ms: u64) -> int {
    if now_ms >= EVENT_HISTORY_MS {
        now_ms - EVENT_HISTORY_MS
    } else {
        0
    }
}

/// The rate history after trimming at `now_ms`: the leading timestamps
/// older than the window dropped, then the oldest ones beyond the cap.
pub open spec fn trimmed(ts: Seq<u64>, now_ms: u64) -> Seq<u64> {
    let t = ts.skip(stale_front(ts, history_cutoff(now_ms)) as int);
    if t.len() > EVENT_HISTORY_CAP {
        t.skip(t.len() - EVENT_HISTORY_CAP)
    } else {
        t
    }
}

/// The rate history after `n` events emitted at `now_ms`: each adds
/// `now_ms` and trims the history (see `trimmed`).
pub open spec fn recorded(ts: Seq<u64>, now_ms: u64, n: nat) -> Seq<u64>
    decreases n,
{
    if n == 0 {
        ts
    } else {
        trimmed(recorded(ts, now_ms, (n - 1) as nat).push(now_ms), now_ms)
    }
}

/// Recording `a` events and then `b` more is recording `a + b`.
pub broadcast proof fn lemma_recorded_compose(ts: Seq<u64>, now_ms: u64, a: nat, b: nat)
    ensures
        #[trigger] recorded(recorded(ts, now_ms, a), now_ms, b) == recorded(ts, now_ms, a + b),
    decreases b,
{
    if b > 0 {
        lemma_recorded_compose(ts, now_ms, a, (b - 1) as nat);
        assert((a + b - 1) as nat == a + (b - 1) as nat);
    }
}

} // verus!
