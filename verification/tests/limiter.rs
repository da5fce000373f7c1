use openab_pty::clock::SECOND;
use openab_pty::limiter::{
    UpgradeFailureLimiter, MAX_TRACKED_SOURCES, UPGRADE_FAILURE_BAN, UPGRADE_FAILURE_LIMIT,
};

const START: u128 = 1_000 * SECOND;

#[test]
fn upgrade_failures_ban_a_source_then_expire() {
    let mut limiter = UpgradeFailureLimiter::new(3, 60 * SECOND, 30 * SECOND);
    let source = "203.0.113.7";
    assert!(limiter.check(source, START).is_ok());
    assert!(!limiter.record_failure(source, START));
    assert!(!limiter.record_failure(source, START));
    assert!(
        limiter.record_failure(source, START),
        "the limit-th failure starts the ban"
    );
    assert_eq!(limiter.check(source, START), Err(30 * SECOND));
    assert!(limiter.check(source, START + 31 * SECOND).is_ok());
    // An unrelated source is unaffected.
    assert!(limiter.check("203.0.113.8", START).is_ok());
}

#[test]
fn failures_outside_the_window_do_not_accumulate() {
    let mut limiter = UpgradeFailureLimiter::new(3, 60 * SECOND, 30 * SECOND);
    let source = "203.0.113.9";
    assert!(!limiter.record_failure(source, START));
    assert!(!limiter.record_failure(source, START + 61 * SECOND));
    assert!(!limiter.record_failure(source, START + 62 * SECOND));
    assert!(limiter.check(source, START + 62 * SECOND).is_ok());
}

#[test]
fn a_successful_attach_clears_the_bucket() {
    let mut limiter = UpgradeFailureLimiter::default();
    let source = "198.51.100.4";
    limiter.record_failure(source, START);
    limiter.on_success(source);
    assert!(limiter.check(source, START).is_ok());
    assert!(
        limiter.state_of(source).map_or(true, |state| state.failures == 0),
        "nothing of the failure is left"
    );
}

#[test]
fn distinct_source_churn_cannot_evict_an_active_ban() {
    // The memory is bounded, so it evicts. Eviction must not be a way to shake a
    // ban off: `check` refreshes `last_seen` even while banned (so a knocking
    // source is not the first to go), and a live ban is never a candidate.
    let mut limiter = UpgradeFailureLimiter::new(2, 600 * SECOND, 600 * SECOND);
    let banned = "203.0.113.10";
    assert!(!limiter.record_failure(banned, START));
    assert!(
        limiter.record_failure(banned, START),
        "the ban starts here"
    );
    assert!(limiter.check(banned, START).is_err());

    let before = limiter.state_of(banned).unwrap().last_seen;
    let later = START + 5 * SECOND;
    assert!(limiter.check(banned, later).is_err());
    let after = limiter.state_of(banned).unwrap().last_seen;
    assert!(
        after > before,
        "a banned source that keeps knocking must not look stale"
    );

    for index in 0..(MAX_TRACKED_SOURCES + 64) {
        let churn = format!("::{:x}", index + 1);
        limiter.record_failure(&churn, later);
        let _ = limiter.check(banned, later);
    }
    assert!(
        limiter.tracked_sources() <= MAX_TRACKED_SOURCES,
        "the memory must stay bounded"
    );
    assert!(
        limiter.check(banned, later).is_err(),
        "an active ban must survive churn across distinct addresses"
    );
}

#[test]
fn the_default_limits_ban_after_the_fifth_failure() {
    let mut limiter = UpgradeFailureLimiter::default();
    for _ in 1..UPGRADE_FAILURE_LIMIT {
        assert!(!limiter.record_failure("s", START));
    }
    assert!(limiter.record_failure("s", START));
    assert_eq!(limiter.check("s", START + SECOND), Err(UPGRADE_FAILURE_BAN - SECOND));
    assert_eq!(limiter.tracked_sources(), 1);
}
