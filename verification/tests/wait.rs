use lro::coordinator::WaitCoordinator;
use lro::types::Duration;
use lro::wait::{clamp_wait, normalized_option, wait_budget};

fn millis(ms: i64) -> Duration {
    Duration::new(ms / 1000, ((ms % 1000) * 1_000_000) as i32)
}

#[test]
fn timeout_below_the_maximum_is_the_budget() {
    assert_eq!(wait_budget(Some(millis(100)), None, millis(30_000)), millis(100));
    assert_eq!(wait_budget(Some(millis(50)), None, millis(30_000)), Duration::new(0, 50_000_000));
}

#[test]
fn timeout_above_the_maximum_is_cut_down() {
    assert_eq!(wait_budget(Some(millis(60_000)), None, millis(30_000)), millis(30_000));
}

#[test]
fn absent_or_zero_timeout_leaves_the_maximum() {
    assert_eq!(wait_budget(None, None, millis(30_000)), millis(30_000));
    assert_eq!(wait_budget(Some(Duration::new(0, 0)), None, millis(30_000)), millis(30_000));
}

#[test]
fn shorter_of_timeout_and_deadline_wins() {
    assert_eq!(wait_budget(Some(millis(1000)), Some(millis(200)), millis(30_000)), millis(200));
    assert_eq!(wait_budget(Some(millis(100)), Some(millis(200)), millis(30_000)), millis(100));
    assert_eq!(wait_budget(None, Some(millis(200)), millis(30_000)), millis(200));
    assert_eq!(wait_budget(Some(Duration::new(0, 0)), Some(millis(200)), millis(100)), millis(100));
    assert_eq!(wait_budget(None, Some(millis(40_000)), millis(30_000)), millis(30_000));
}

#[test]
fn negative_durations_have_run_out() {
    assert_eq!(wait_budget(Some(Duration::new(-1, 0)), None, millis(30_000)), Duration::new(0, 0));
    assert_eq!(wait_budget(Some(millis(100)), Some(Duration::new(-5, 0)), millis(30_000)), Duration::new(0, 0));
    assert_eq!(wait_budget(Some(millis(100)), None, Duration::new(0, -1)), Duration::new(0, 0));
}

#[test]
fn budget_is_taken_from_canonical_forms() {
    assert_eq!(
        wait_budget(Some(Duration::new(0, 2_000_000_000)), None, millis(30_000)),
        Duration::new(2, 0)
    );
    assert_eq!(
        wait_budget(Some(Duration::new(1, -500_000_000)), None, millis(30_000)),
        Duration::new(0, 500_000_000)
    );
    assert_eq!(
        wait_budget(Some(Duration::new(1, -1_000_000_000)), None, millis(30_000)),
        millis(30_000)
    );
    assert_eq!(
        wait_budget(None, None, Duration::new(29, 1_000_000_000)),
        Duration::new(30, 0)
    );
}

#[test]
fn clamp_compares_seconds_first() {
    assert_eq!(
        clamp_wait(Some(Duration::new(1, 999_999_999)), None, Duration::new(2, 0)),
        Duration::new(1, 999_999_999)
    );
    assert_eq!(
        clamp_wait(Some(Duration::new(2, 1)), None, Duration::new(2, 0)),
        Duration::new(2, 0)
    );
    assert_eq!(clamp_wait(Some(Duration::new(0, 1)), None, Duration::new(2, 0)), Duration::new(0, 1));
}

#[test]
fn optional_durations_are_normalized() {
    assert_eq!(normalized_option(None), None);
    assert_eq!(normalized_option(Some(Duration::new(3, 4))), Some(Duration::new(3, 4)));
    assert_eq!(
        normalized_option(Some(Duration::new(3, 1_000_000_004))),
        Some(Duration::new(4, 4))
    );
}

#[test]
fn tickets_count_up_and_release_goes_by_name() {
    let mut c = WaitCoordinator::new();
    assert!(c.has_ticket_left());
    assert_eq!(c.register("operations/0"), 0);
    assert_eq!(c.register("operations/1"), 1);
    assert_eq!(c.register("operations/0"), 2);
    assert_eq!(c.register("operations/2"), 3);
    assert_eq!(c.waiting("operations/0"), 2);
    assert_eq!(c.waiting("operations/1"), 1);
    assert_eq!(c.waiting("operations/9"), 0);
    assert_eq!(c.release("operations/0"), vec![0, 2]);
    assert_eq!(c.waiting("operations/0"), 0);
    assert_eq!(c.waiting("operations/1"), 1);
    assert_eq!(c.waiting("operations/2"), 1);
    assert_eq!(c.release("operations/0"), Vec::<u64>::new());
    assert_eq!(c.release("operations/2"), vec![3]);
    assert_eq!(c.release("operations/1"), vec![1]);
    assert_eq!(c.register("operations/0"), 4);
}

#[test]
fn withdrawn_caller_is_not_released() {
    let mut c = WaitCoordinator::new();
    let a = c.register("operations/0");
    let b = c.register("operations/0");
    let d = c.register("operations/0");
    assert!(c.withdraw(b));
    assert!(!c.withdraw(b));
    assert!(!c.withdraw(77));
    assert_eq!(c.waiting("operations/0"), 2);
    assert_eq!(c.release("operations/0"), vec![a, d]);
    assert!(!c.withdraw(a));
}
