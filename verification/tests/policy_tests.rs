use podsync::policy::{is_mode_eligible, DownloadMode};

const DAY: i64 = 86400;

#[test]
fn backlog_unlocks_index_three_after_three_intervals() {
    let t0: i64 = 1_600_000_000;
    let mode = DownloadMode::Backlog { start: t0, interval: 7 };
    assert!(!is_mode_eligible(&mode, t0 + 20 * DAY, 0, 3, 9));
    assert!(is_mode_eligible(&mode, t0 + 21 * DAY, 0, 3, 9));
    assert!(is_mode_eligible(&mode, t0 + 22 * DAY, 0, 3, 9));
    assert!(is_mode_eligible(&mode, t0 + 400 * DAY, 0, 3, 9));
}

#[test]
fn backlog_unlocks_nothing_before_start() {
    let t0: i64 = 1_600_000_000;
    let mode = DownloadMode::Backlog { start: t0, interval: 1 };
    assert!(!is_mode_eligible(&mode, t0 - 1, 0, 0, 9));
    assert!(is_mode_eligible(&mode, t0, 0, 0, 9));
}

#[test]
fn standard_episode_bound_keeps_the_most_recent() {
    let mode = DownloadMode::Standard {
        max_days: None,
        max_episodes: Some(5),
        earliest_date: None,
    };
    let now: i64 = 1_700_000_000;
    assert!(!is_mode_eligible(&mode, now, now, 14, 20));
    assert!(is_mode_eligible(&mode, now, now, 15, 20));
    assert!(is_mode_eligible(&mode, now, now, 20, 20));
}

#[test]
fn standard_max_days_bounds_age() {
    let mode = DownloadMode::Standard {
        max_days: Some(2),
        max_episodes: None,
        earliest_date: None,
    };
    let now: i64 = 1_700_000_000;
    assert!(is_mode_eligible(&mode, now, now - 2 * DAY, 0, 0));
    assert!(!is_mode_eligible(&mode, now, now - 2 * DAY - 1, 0, 0));
}

#[test]
fn standard_earliest_date_bounds_history() {
    let cutoff: i64 = 1_650_000_000;
    let mode = DownloadMode::Standard {
        max_days: None,
        max_episodes: None,
        earliest_date: Some(cutoff),
    };
    let now: i64 = 1_700_000_000;
    assert!(is_mode_eligible(&mode, now, cutoff, 0, 0));
    assert!(!is_mode_eligible(&mode, now, cutoff - 1, 0, 0));
}

#[test]
fn standard_without_bounds_admits_everything() {
    let mode = DownloadMode::Standard {
        max_days: None,
        max_episodes: None,
        earliest_date: None,
    };
    assert!(is_mode_eligible(&mode, 0, -1_000_000_000, 0, 1000));
}
