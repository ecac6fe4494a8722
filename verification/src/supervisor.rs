//! The supervisor: when a worker that failed is restarted, and after what
//! delay. Times are in milliseconds.
use vstd::prelude::*;

verus! {

/// Length of the window in which failures are counted.
pub const RESTART_WINDOW: u64 = 60_000;

/// Number of restarts in the window before the supervisor gives up.
pub const MAX_RESTARTS_IN_WINDOW: usize = 5;

/// Delay before the first restart.
pub const INITIAL_RESTART_DELAY: u64 = 250;

/// Longest delay between restarts.
pub const MAX_RESTART_DELAY: u64 = 4_000;

/// The restart delay after `n` recent failures: it doubles with each failure
/// after the first, up to the longest delay.
pub open spec fn delay_after(n: nat) -> int
    decreases n,
{
    if n <= 1 {
        INITIAL_RESTART_DELAY as int
    } else {
        let doubled = 2 * delay_after((n - 1) as nat);
        if doubled > MAX_RESTART_DELAY {
            MAX_RESTART_DELAY as int
        } else {
            doubled
        }
    }
}

/// Restart delays lie between the initial and the longest one, and never
/// shrink with more failures.
pub proof fn delays_are_bounded_and_grow(m: nat, n: nat)
    requires
        m <= n,
    ensures
        INITIAL_RESTART_DELAY <= delay_after(m) <= delay_after(n) <= MAX_RESTART_DELAY,
    decreases n,
{
    if n > 1 {
        if m < n {
            delays_are_bounded_and_grow(m, (n - 1) as nat);
        } else {
            delays_are_bounded_and_grow((n - 1) as nat, (n - 1) as nat);
        }
    }
}

/// The longest delay is reached after the fifth failure.
proof fn lemma_delay_values()
    ensures
        delay_after(2) == 500,
        delay_after(3) == 1_000,
        delay_after(4) == 2_000,
        delay_after(5) == 4_000,
{
    assert(delay_after(1) == 250);
    assert(delay_after(2) == 500);
    assert(delay_after(3) == 1_000);
    assert(delay_after(4) == 2_000);
}

/// The restart delay after a number of recent failures.
pub fn restart_delay(recent_failures: usize) -> (r: u64)
    ensures
        r == delay_after(recent_failures as nat),
{
    proof {
        lemma_delay_values();
    }
    if recent_failures <= 1 {
        INITIAL_RESTART_DELAY
    } else if recent_failures == 2 {
        500
    } else if recent_failures == 3 {
        1_000
    } else if recent_failures == 4 {
        2_000
    } else {
        proof {
            delays_are_bounded_and_grow(5, recent_failures as nat);
        }
        MAX_RESTART_DELAY
    }
}

/// Whether a failure is too old to be counted.
pub open spec fn expired(failed_at: u64, now: u64) -> bool {
    now - failed_at >= RESTART_WINDOW
}

/// The failures without the old ones at the front.
pub open spec fn recent(failures: Seq<u64>, now: u64) -> Seq<u64>
    decreases failures.len(),
{
    if failures.len() > 0 && expired(failures[0], now) {
        recent(failures.skip(1), now)
    } else {
        failures
    }
}

/// Of failures in the order in which they happened, exactly those inside the
/// window are counted.
pub proof fn recent_failures_are_those_in_the_window(failures: Seq<u64>, now: u64, at: u64)
    requires
        forall|i: int, j: int| 0 <= i < j < failures.len() ==> failures[i] <= failures[j],
    ensures
        recent(failures, now).contains(at) <==> failures.contains(at) && !expired(at, now),
    decreases failures.len(),
{
    if failures.len() > 0 && expired(failures[0], now) {
        let rest = failures.skip(1);
        recent_failures_are_those_in_the_window(rest, now, at);
        if failures.contains(at) && !expired(at, now) {
            let k = choose|k: int| 0 <= k < failures.len() && failures[k] == at;
            assert(rest[k - 1] == at);
        }
        if rest.contains(at) {
            let k = choose|k: int| 0 <= k < rest.len() && rest[k] == at;
            assert(failures[k + 1] == at);
        }
    } else if failures.contains(at) {
        let k = choose|k: int| 0 <= k < failures.len() && failures[k] == at;
        assert(failures[0] <= failures[k]);
    }
}

/// The worker is restarted at most five times for failures within one window:
/// it is restarted after a failure exactly if fewer than five others are recent,
/// and then after a delay between the shortest and the longest.
pub proof fn restarts_are_capped(failures: Seq<u64>, now: u64)
    ensures
        verdict(failures, false, now) is RestartAfter <==> recent(failures, now).len()
            < MAX_RESTARTS_IN_WINDOW,
        verdict(failures, false, now) matches Verdict::RestartAfter(delay)
            ==> INITIAL_RESTART_DELAY <= delay <= MAX_RESTART_DELAY,
{
    let n = failures_after(failures, false, now).len();
    delays_are_bounded_and_grow(n, n);
}

/// What the supervisor does after its worker ended.
#[derive(Clone, Copy, PartialEq, Eq, Debug, Structural)]
pub enum Verdict {
    /// The worker ended as it should: so does the supervisor.
    Done,
    /// The worker failed too often.
    GiveUp,
    /// The worker is restarted after a delay.
    RestartAfter(u64),
}

/// The failures after the worker ended.
pub open spec fn failures_after(failures: Seq<u64>, success: bool, now: u64) -> Seq<u64> {
    if success {
        failures
    } else {
        recent(failures, now).push(now)
    }
}

/// What the supervisor does after the worker ended.
pub open spec fn verdict(failures: Seq<u64>, success: bool, now: u64) -> Verdict {
    let n = failures_after(failures, success, now).len();
    if success {
        Verdict::Done
    } else if n > MAX_RESTARTS_IN_WINDOW {
        Verdict::GiveUp
    } else {
        Verdict::RestartAfter(delay_after(n) as u64)
    }
}

/// Decide what to do after the worker ended at time `now`, given the times of
/// earlier failures.
pub fn worker_ended(failures: &mut Vec<u64>, success: bool, now: u64) -> (r: Verdict)
    ensures
        r == verdict(old(failures)@, success, now),
        final(failures)@ == failures_after(old(failures)@, success, now),
{
    if success {
        return Verdict::Done;
    }
    while failures.len() > 0 && now >= failures[0] && now - failures[0] >= RESTART_WINDOW
        invariant
            recent(failures@, now) == recent(old(failures)@, now),
        decreases failures@.len(),
    {
        let ghost before = failures@;
        failures.remove(0);
        assert(failures@ =~= before.skip(1));
    }
    failures.push(now);
    if failures.len() > MAX_RESTARTS_IN_WINDOW {
        Verdict::GiveUp
    } else {
        proof {
            delays_are_bounded_and_grow(failures@.len(), failures@.len());
        }
        Verdict::RestartAfter(restart_delay(failures.len()))
    }
}

/// The delay doubles with each failure up to the fifth: a quarter of a second,
/// half a second, one, two and four seconds; then it stays at four seconds.
pub proof fn delays_double_up_to_four_seconds(n: nat)
    ensures
        n <= 1 ==> delay_after(n) == 250,
        1 <= n < 5 ==> delay_after(n + 1) == 2 * delay_after(n),
        n >= 5 ==> delay_after(n) == 4_000,
{
    lemma_delay_values();
    assert(delay_after(1) == 250);
    if n >= 5 {
        delays_are_bounded_and_grow(5, n);
    }
}

/// A worker that ended as it should ends the supervisor and leaves the failures
/// as they are. One that failed adds its failure behind those that are less
/// than a minute old, and is restarted with the delay for their number, or
/// given up with the sixth.
pub proof fn verdicts_go_by_the_failures_of_a_minute(failures: Seq<u64>, now: u64)
    ensures
        verdict(failures, true, now) is Done,
        failures_after(failures, true, now) == failures,
        failures_after(failures, false, now).last() == now,
        failures_after(failures, false, now).drop_last() == recent(failures, now),
        recent(failures, now).len() >= 5 <==> verdict(failures, false, now) is GiveUp,
        recent(failures, now).len() < 5 ==> verdict(failures, false, now)
            == Verdict::RestartAfter(delay_after(recent(failures, now).len() + 1) as u64),
        recent(failures, now).len() > 0 ==> now - recent(failures, now)[0] < 60_000,
{
    assert(failures_after(failures, false, now).drop_last() =~= recent(failures, now));
    lemma_recent_front(failures, now);
}

/// The first failure that is counted is inside the window.
proof fn lemma_recent_front(failures: Seq<u64>, now: u64)
    ensures
        recent(failures, now).len() > 0 ==> now - recent(failures, now)[0] < 60_000,
    decreases failures.len(),
{
    if failures.len() > 0 && expired(failures[0], now) {
        lemma_recent_front(failures.skip(1), now);
    }
}

/// The failures that are dropped are at least a minute old, and the others stay
/// in their order.
pub proof fn only_old_failures_are_dropped(failures: Seq<u64>, now: u64)
    ensures
        ({
            let dropped = failures.len() - recent(failures, now).len();
            &&& 0 <= dropped
            &&& recent(failures, now) == failures.skip(dropped)
            &&& forall|i: int| 0 <= i < dropped ==> now - #[trigger] failures[i] >= 60_000
        }),
    decreases failures.len(),
{
    if failures.len() > 0 && expired(failures[0], now) {
        let rest = failures.skip(1);
        only_old_failures_are_dropped(rest, now);
        let dropped = rest.len() - recent(rest, now).len();
        assert(rest.skip(dropped) =~= failures.skip(dropped + 1));
        assert forall|i: int| 0 <= i < dropped + 1 implies now - #[trigger] failures[i]
            >= 60_000 by {
            if i > 0 {
                assert(rest[i - 1] == failures[i]);
            }
        }
    } else {
        assert(failures.skip(0) =~= failures);
    }
}

} // verus!
