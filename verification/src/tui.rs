//! The decisions of the dashboard's running loops: the news ticker's scroll,
//! the terminal loop's timing and quitting, the refresh periods of the feeds,
//! and what a refresh does with what it fetched.
use vstd::prelude::*;
use vstd::arithmetic::div_mod::lemma_add_mod_noop;

verus! {

/// How far the ticker moves on each tick.
pub const SCROLL_STEP: usize = 3;

/// The running scroll offset wraps round at this value.
pub const SCROLL_WRAP: usize = 10000;

/// The scroll offset after one tick.
pub fn next_scroll_offset(offset: usize) -> (r: usize)
    requires
        offset + SCROLL_STEP <= usize::MAX,
    ensures
        r == (offset + SCROLL_STEP) % (SCROLL_WRAP as int),
        r < SCROLL_WRAP,
{
    (offset + SCROLL_STEP) % SCROLL_WRAP
}

/// The scroll offset after `k` ticks from `start`, one `next_scroll_offset` after another.
pub open spec fn scroll_after(start: int, k: nat) -> int
    decreases k,
{
    if k == 0 {
        start
    } else {
        (scroll_after(start, (k - 1) as nat) + SCROLL_STEP) % (SCROLL_WRAP as int)
    }
}

/// After `k >= 1` ticks from `start` the offset is `(start + 3k) mod 10000`, and so it
/// stays below 10000 from the first tick on.
pub proof fn law_scroll_after_ticks(start: int, k: nat)
    requires
        0 <= start,
        k >= 1,
    ensures
        scroll_after(start, k) == (start + SCROLL_STEP * k) % (SCROLL_WRAP as int),
        0 <= scroll_after(start, k) < SCROLL_WRAP,
    decreases k,
{
    if k > 1 {
        law_scroll_after_ticks(start, (k - 1) as nat);
        let m = SCROLL_WRAP as int;
        let x = start + SCROLL_STEP * (k - 1);
        lemma_add_mod_noop(x, SCROLL_STEP as int, m);
        assert((SCROLL_STEP as int) % m == SCROLL_STEP);
        assert(x + SCROLL_STEP == start + SCROLL_STEP * k);
        assert(scroll_after(start, k) == (scroll_after(start, (k - 1) as nat) + SCROLL_STEP) % m);
        assert(scroll_after(start, (k - 1) as nat) == x % m);
    } else {
        assert(scroll_after(start, 0) == start);
        assert(scroll_after(start, 1) == (start + SCROLL_STEP) % (SCROLL_WRAP as int));
    }
}

/// How long the terminal loop waits for a key: what is left of the tick, or nothing
/// when the tick is already over (durations in nanoseconds).
pub fn poll_timeout(tick_rate: u128, elapsed: u128) -> (r: u128)
    ensures
        r == if elapsed <= tick_rate {
            tick_rate - elapsed
        } else {
            0
        },
{
    match tick_rate.checked_sub(elapsed) {
        Some(left) => left,
        None => 0,
    }
}

/// What the terminal loop does after waiting for a key.
#[derive(PartialEq, Eq, Structural, Clone, Copy, Debug)]
pub enum TuiStep {
    /// Leave the loop and restore the terminal.
    Quit,
    /// Draw again; `reset_tick` starts a new tick.
    Continue { reset_tick: bool },
}

/// The decision after the wait: the key `q` quits; otherwise a new tick starts once the
/// elapsed time has reached the tick rate. `key` is the character of a key event,
/// if one came.
pub fn after_poll(key: Option<char>, elapsed: u128, tick_rate: u128) -> (r: TuiStep)
    ensures
        r == if key == Some('q') {
            TuiStep::Quit
        } else {
            TuiStep::Continue { reset_tick: elapsed >= tick_rate }
        },
{
    match key {
        Some(c) => {
            if c == 'q' {
                return TuiStep::Quit;
            }
        },
        None => {},
    }
    TuiStep::Continue { reset_tick: elapsed >= tick_rate }
}

/// The refresh period in seconds for a period of `minutes` minutes, or `None`
/// where it does not fit in a `u64`.
pub fn refresh_period_secs(minutes: u64) -> (r: Option<u64>)
    ensures
        r matches Some(s) ==> s == minutes * 60,
        r is None ==> minutes * 60 > u64::MAX,
{
    minutes.checked_mul(60)
}

/// What a refresh does with its outcome: fresh data replaces what `slot` held;
/// on an error `slot` keeps what it had and the error is handed back to be logged.
pub fn record_fetch<T, E>(slot: &mut Option<T>, outcome: Result<T, E>) -> (r: Option<E>)
    ensures
        outcome matches Ok(v) ==> *final(slot) == Some(v) && r is None,
        outcome matches Err(e) ==> *final(slot) == *old(slot) && r == Some(e),
{
    match outcome {
        Ok(v) => {
            *slot = Some(v);
            None
        },
        Err(e) => Some(e),
    }
}

} // verus!
