//! The episode-selection policy: which episodes are due under a
//! subscription's release mode. Already-downloaded episodes are excluded
//! unconditionally; the remaining ones pass the mode's own bounds.

use vstd::prelude::*;

verus! {

/// Seconds in one day.
pub const SECONDS_PER_DAY: i64 = 86400;

/// A subscription's release mode.
#[derive(Debug, Clone, Copy)]
pub enum DownloadMode {
    /// Paced historical catch-up: episode `n` unlocks `n * interval` days
    /// after `start`.
    Backlog { start: i64, interval: i64 },
    /// Live tail with optional bounds on age, count and earliest date.
    Standard { max_days: Option<i64>, max_episodes: Option<i64>, earliest_date: Option<i64> },
}

/// A release mode with usable parameters: a backlog interval is at least one
/// day.
pub open spec fn mode_wf(mode: DownloadMode) -> bool {
    match mode {
        DownloadMode::Backlog { start, interval } => interval >= 1,
        DownloadMode::Standard { .. } => true,
    }
}

/// How many episode indices a backlog subscription has unlocked by `now`:
/// the number of whole intervals in the whole days passed since `start`.
pub open spec fn backlog_unlocked_index(start: int, interval: int, now: int) -> int {
    ((now - start) / (SECONDS_PER_DAY as int)) / interval
}

/// Backlog eligibility: the episode's index is unlocked.
pub open spec fn backlog_eligible(start: int, interval: int, now: int, index: int) -> bool {
    backlog_unlocked_index(start, interval, now) >= index
}

/// Standard eligibility: the episode is recent enough, among the newest
/// `max_episodes` indices, and not before the earliest admitted date; each
/// bound applies only when configured.
pub open spec fn standard_eligible(
    max_days: Option<i64>,
    max_episodes: Option<i64>,
    earliest_date: Option<i64>,
    now: int,
    published: int,
    index: int,
    latest_index: int,
) -> bool {
    &&& match max_days {
        Some(d) => now - published <= d * (SECONDS_PER_DAY as int),
        None => true,
    }
    &&& match max_episodes {
        Some(n) => latest_index - n <= index,
        None => true,
    }
    &&& match earliest_date {
        Some(e) => published >= e,
        None => true,
    }
}

/// Eligibility under a release mode, before the ledger exclusion.
pub open spec fn mode_eligible(
    mode: DownloadMode,
    now: int,
    published: int,
    index: int,
    latest_index: int,
) -> bool {
    match mode {
        DownloadMode::Backlog { start, interval } => backlog_eligible(
            start as int,
            interval as int,
            now,
            index,
        ),
        DownloadMode::Standard { max_days, max_episodes, earliest_date } => standard_eligible(
            max_days,
            max_episodes,
            earliest_date,
            now,
            published,
            index,
            latest_index,
        ),
    }
}

/// Floor division holds its bound exactly: for a positive divisor, the
/// quotient reaches `c` exactly when the dividend reaches `c` divisors.
proof fn lemma_div_ge(a: int, b: int, c: int)
    requires
        b >= 1,
    ensures
        (a / b >= c) <==> (a >= c * b),
{
    vstd::arithmetic::div_mod::lemma_fundamental_div_mod(a, b);
    vstd::arithmetic::div_mod::lemma_mod_bound(a, b);
    let q = a / b;
    let r = a % b;
    if q >= c {
        assert(a >= c * b) by (nonlinear_arith)
            requires
                a == b * q + r,
                r >= 0,
                q >= c,
                b >= 1,
        ;
    }
    if a >= c * b && q < c {
        assert(false) by (nonlinear_arith)
            requires
                a == b * q + r,
                0 <= r < b,
                q < c,
                b >= 1,
                a >= c * b,
        ;
    }
}

/// Backlog pacing: episode `index` is eligible exactly from the moment
/// `index` whole intervals have passed since `start` — ineligible at every
/// earlier time and eligible at that time and every later one.
pub proof fn lemma_backlog_pacing(start: int, interval: int, now: int, index: int)
    requires
        interval >= 1,
        index >= 0,
    ensures
        backlog_eligible(start, interval, now, index) <==> now >= start + index * interval * (
        SECONDS_PER_DAY as int),
{
    let days = (now - start) / (SECONDS_PER_DAY as int);
    lemma_div_ge(days, interval, index);
    lemma_div_ge(now - start, SECONDS_PER_DAY as int, index * interval);
    assert(index * interval * (SECONDS_PER_DAY as int) == (index * interval) * (
    SECONDS_PER_DAY as int)) by (nonlinear_arith);
}

/// Standard episode bound: with `max_episodes` configured and the highest
/// index known, an episode passes the count bound exactly when its index is
/// within `max_episodes` of the highest.
pub proof fn lemma_standard_episode_bound(
    n: i64,
    latest_index: int,
    index: int,
    now: int,
    published: int,
)
    ensures
        standard_eligible(
            None,
            Some(n),
            None,
            now,
            published,
            index,
            latest_index,
        ) <==> latest_index - n <= index,
{
}

/// Decides eligibility under a release mode, as `mode_eligible` describes.
pub fn is_mode_eligible(
    mode: &DownloadMode,
    now: i64,
    published: i64,
    index: usize,
    latest_index: usize,
) -> (r: bool)
    requires
        mode_wf(*mode),
    ensures
        r == mode_eligible(*mode, now as int, published as int, index as int, latest_index as int),
{
    match mode {
        DownloadMode::Backlog { start, interval } => {
            let diff: i128 = now as i128 - *start as i128;
            proof {
                lemma_div_shrinks(diff as int, SECONDS_PER_DAY as int, i64::MIN * 4, i64::MAX * 4);
            }
            let days = match diff.checked_div_euclid(SECONDS_PER_DAY as i128) {
                Some(q) => q,
                None => unreached(),
            };
            proof {
                lemma_div_shrinks(days as int, *interval as int, i64::MIN * 4, i64::MAX * 4);
            }
            let unlocked = match days.checked_div_euclid(*interval as i128) {
                Some(q) => q,
                None => unreached(),
            };
            unlocked >= index as i128
        },
        DownloadMode::Standard { max_days, max_episodes, earliest_date } => {
            let age_ok = match max_days {
                Some(d) => (now as i128 - published as i128) <= (*d as i128) * (
                SECONDS_PER_DAY as i128),
                None => true,
            };
            let count_ok = match max_episodes {
                Some(n) => (latest_index as i128 - *n as i128) <= index as i128,
                None => true,
            };
            let date_ok = match earliest_date {
                Some(e) => published >= *e,
                None => true,
            };
            age_ok && count_ok && date_ok
        },
    }
}

/// Dividing by a positive divisor keeps the quotient inside any range that
/// holds the dividend and zero; in particular the checked divisions above
/// cannot fail.
pub proof fn lemma_div_shrinks(a: int, b: int, lo: int, hi: int)
    requires
        b >= 1,
        lo <= a <= hi,
        lo <= 0 <= hi,
    ensures
        lo <= a / b <= hi,
{
    vstd::arithmetic::div_mod::lemma_fundamental_div_mod(a, b);
    vstd::arithmetic::div_mod::lemma_mod_bound(a, b);
    let q = a / b;
    let r = a % b;
    if q > hi {
        assert(false) by (nonlinear_arith)
            requires
                a == b * q + r,
                q > hi,
                hi >= 0,
                b >= 1,
                r >= 0,
                a <= hi,
        ;
    }
    if q < lo {
        assert(false) by (nonlinear_arith)
            requires
                a == b * q + r,
                q < lo,
                lo <= 0,
                b >= 1,
                0 <= r < b,
                a >= lo,
        ;
    }
}

} // verus!
