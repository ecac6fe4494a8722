use std::time::Duration;

use streamwm::supervisor::{restart_delay, worker_ended, Verdict};

/// The restart delay as a duration.
fn delay(recent_failures: usize) -> Duration {
    Duration::from_millis(restart_delay(recent_failures))
}

#[test]
fn restart_delay_uses_bounded_exponential_backoff() {
    assert_eq!(delay(1), Duration::from_millis(250));
    assert_eq!(delay(2), Duration::from_millis(500));
    assert_eq!(delay(5), Duration::from_secs(4));
    assert_eq!(delay(100), Duration::from_secs(4));
}

#[test]
fn worker_is_restarted_five_times_in_a_minute() {
    let mut failures = Vec::new();
    let delays: Vec<Verdict> = (0..6)
        .map(|i| worker_ended(&mut failures, false, 1_000 * i))
        .collect();
    assert_eq!(
        delays,
        vec![
            Verdict::RestartAfter(250),
            Verdict::RestartAfter(500),
            Verdict::RestartAfter(1_000),
            Verdict::RestartAfter(2_000),
            Verdict::RestartAfter(4_000),
            Verdict::GiveUp,
        ]
    );
    assert_eq!(failures.len(), 6);
}

#[test]
fn old_failures_are_forgotten() {
    let mut failures = vec![0, 10_000, 20_000];
    assert_eq!(
        worker_ended(&mut failures, false, 70_000),
        Verdict::RestartAfter(500)
    );
    assert_eq!(failures, vec![20_000, 70_000]);
    assert_eq!(restart_delay(0), 250);
}

#[test]
fn success_ends_the_supervisor() {
    let mut failures = vec![1, 2];
    assert_eq!(worker_ended(&mut failures, true, 100_000), Verdict::Done);
    assert_eq!(failures, vec![1, 2]);
}
