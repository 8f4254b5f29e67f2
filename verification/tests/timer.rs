use zellij_agent_threads::timer::{next_timer, RefreshTimer, TimerReason};

const MS: u128 = 1_000_000;
const S: u128 = 1_000_000_000;

fn schedule_render(timer: &mut RefreshTimer, delay: u128, now: u128) -> Option<u128> {
    timer.schedule(Some((delay, TimerReason::render_refresh())), now)
}

fn schedule_expiry(timer: &mut RefreshTimer, delay: u128, now: u128) -> Option<u128> {
    timer.schedule(Some((delay, TimerReason::agent_expiry())), now)
}

#[test]
fn faster_refresh_supersedes_armed_timer() {
    let mut timer = RefreshTimer::default();
    assert_eq!(schedule_render(&mut timer, S, 0), Some(1_010 * MS));
    assert_eq!(schedule_render(&mut timer, 125 * MS, 0), Some(135 * MS));
    assert_eq!(schedule_render(&mut timer, 500 * MS, 0), None);
    assert_eq!(timer.active, Some(135 * MS));
}

#[test]
fn superseded_timer_does_not_start_second_render_loop() {
    let mut timer = RefreshTimer::default();
    schedule_render(&mut timer, S, 0);
    schedule_render(&mut timer, 125 * MS, 0);

    assert!(timer.expired(1_010 * MS).is_none());
    assert_eq!(timer.active, Some(135 * MS));
    assert_eq!(timer.expired(135 * MS).map(|expired| expired.reason), Some(TimerReason::render_refresh()));
    assert_eq!(timer.active, None);
}

#[test]
fn equal_refresh_does_not_arm_duplicate_timer() {
    let mut timer = RefreshTimer::default();
    assert!(schedule_render(&mut timer, 125 * MS, 0).is_some());
    assert_eq!(schedule_render(&mut timer, 125 * MS, 0), None);
}

#[test]
fn equal_timers_merge_reasons() {
    let mut timer = RefreshTimer::default();
    assert!(schedule_render(&mut timer, S, 0).is_some());
    assert_eq!(schedule_expiry(&mut timer, S, 0), None);

    assert_eq!(
        timer.expired(1_010 * MS).map(|expired| expired.reason),
        Some(TimerReason { render_refresh: true, agent_expiry: true, ..TimerReason::none() })
    );
}

#[test]
fn cancel_poll_timeout_supersedes_poll_only_timer() {
    let mut timer = RefreshTimer::default();
    assert_eq!(timer.schedule(Some((3 * S, TimerReason::poll_timeout())), 0), Some(3_010 * MS));

    assert_eq!(timer.cancel_poll_timeout(0), None);

    assert_eq!(timer.active, None);
    assert!(timer.expired(3_010 * MS).is_none());
}

#[test]
fn canceled_poll_timeout_does_not_fire_for_next_equal_timeout() {
    let mut timer = RefreshTimer::default();
    assert!(timer.schedule(Some((3 * S, TimerReason::poll_timeout())), 0).is_some());
    assert_eq!(timer.cancel_poll_timeout(0), None);
    assert!(timer.schedule(Some((3 * S, TimerReason::poll_timeout())), 500 * MS).is_some());

    assert!(timer.expired(3_010 * MS).is_none());
    assert_eq!(timer.expired(3_010 * MS).map(|expired| expired.reason), Some(TimerReason::poll_timeout()));
}

#[test]
fn cancel_poll_timeout_keeps_other_timer_reasons() {
    let mut timer = RefreshTimer::default();
    assert!(timer.schedule(Some((3 * S, TimerReason::poll_timeout())), 0).is_some());
    assert_eq!(timer.schedule(Some((3 * S, TimerReason::render_refresh())), 0), None);

    assert_eq!(timer.cancel_poll_timeout(0), Some(3_010 * MS));

    assert!(timer.expired(3_010 * MS).is_none());
    assert_eq!(timer.expired(3_010 * MS).map(|expired| expired.reason), Some(TimerReason::render_refresh()));
}

#[test]
fn expiry_timer_reuses_refresh_timer_identity() {
    let mut timer = RefreshTimer::default();
    assert_eq!(schedule_expiry(&mut timer, 10 * S, 0), Some(10_010 * MS));
    assert_eq!(schedule_expiry(&mut timer, 10 * S, 2 * S), None);
    assert_eq!(timer.expired(10_010 * MS).map(|expired| expired.reason), Some(TimerReason::agent_expiry()));
}

#[test]
fn fired_timer_reports_lease_time() {
    let mut timer = RefreshTimer::default();
    assert!(schedule_render(&mut timer, S, 5 * S).is_some());
    let expired = timer.expired(1_010 * MS).unwrap();
    assert_eq!(expired.fired_at, 5 * S + 1_010 * MS);
}

#[test]
fn earliest_candidate_wins_and_ties_merge() {
    let candidates = vec![
        (5 * S, TimerReason::render_refresh()),
        (2 * S, TimerReason::agent_expiry()),
        (2 * S, TimerReason::snapshot_poll()),
    ];
    let (delay, reason) = next_timer(&candidates).unwrap();
    assert_eq!(delay, 2 * S);
    assert_eq!(reason, TimerReason { agent_expiry: true, snapshot_poll: true, ..TimerReason::none() });
    assert!(reason.any());
    assert!(!TimerReason::none().any());
    assert_eq!(next_timer(&Vec::new()), None);
}
