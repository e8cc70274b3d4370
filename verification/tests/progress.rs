use hekla::progress::{self, remaining, short_duration, thousands, Progress};

use std::time::Duration;

const MILLISECOND: u64 = 1_000_000;
const SECOND: u64 = 1_000_000_000;

/// What a scan has left at the rate so far, in whole seconds.
fn left(position: u64, head: u64, elapsed: u64) -> u64 {
    let elapsed = Duration::from_nanos(elapsed).as_secs_f64();
    let total = elapsed * head as f64 / position as f64;
    (total - elapsed).max(0.0) as u64
}

fn line_after(position: u64, head: u64, matched: usize, elapsed: u64) -> String {
    progress::line(position, head, matched, elapsed, left(position, head, elapsed))
}

#[test]
fn thousands_groups_from_the_right() {
    assert_eq!(thousands(0), "0");
    assert_eq!(thousands(7), "7");
    assert_eq!(thousands(999), "999");
    assert_eq!(thousands(1_000), "1,000");
    assert_eq!(thousands(1_203_556), "1,203,556");
    assert_eq!(thousands(u64::MAX), "18,446,744,073,709,551,615");
}

#[test]
fn a_line_reports_position_over_the_tip() {
    let text = line_after(412_880, 1_203_556, 12_418, 500 * MILLISECOND);
    assert_eq!(text, "  scanned 412,880 of 1,203,556 (34%)  12,418 matched");
}

/// The estimate needs a run to extrapolate from.
#[test]
fn a_line_offers_no_estimate_before_it_can_make_one() {
    let text = line_after(10, 100, 1, 500 * MILLISECOND);
    assert!(!text.contains("left"), "{text}");
}

/// "0s left" beside a scan that has reached the tip reads as a stall.
#[test]
fn a_line_offers_no_estimate_at_the_end() {
    let text = line_after(100, 100, 50, 30 * SECOND);
    assert!(!text.contains("left"), "{text}");
}

#[test]
fn a_line_estimates_from_the_rate_so_far() {
    // A quarter of the log in ten seconds is thirty seconds left.
    let text = line_after(25, 100, 5, 10 * SECOND);
    assert!(text.ends_with("  30s left"), "{text}");
}

#[test]
fn an_empty_log_is_complete_rather_than_a_division_by_zero() {
    let text = line_after(0, 0, 0, 10 * SECOND);
    assert!(text.contains("(100%)"), "{text}");
}

/// A percentage over one hundred would be a worse way to find out than a clamped bar.
#[test]
fn a_position_past_the_tip_clamps() {
    let text = line_after(200, 100, 1, 500 * MILLISECOND);
    assert!(text.contains("(100%)"), "{text}");
}

#[test]
fn short_durations_read_at_a_glance() {
    assert_eq!(short_duration(0.4_f64 as u64), "0s");
    assert_eq!(short_duration(47.0_f64 as u64), "47s");
    assert_eq!(short_duration(192.0_f64 as u64), "3m12s");
    assert_eq!(short_duration(7_320.0_f64 as u64), "2h02m");
}

#[test]
fn a_disabled_progress_draws_and_erases_nothing() {
    let mut progress = Progress::new(false);
    assert!(progress.tick(1, 2, 1, 10 * SECOND, 10).is_none());
    assert!(progress.clear().is_none());
    assert!(progress.painted.is_none());
}

#[test]
fn a_line_is_drawn_after_a_while_and_not_too_often() {
    let mut progress = Progress::new(true);
    assert!(progress.tick(1, 10, 0, 100 * MILLISECOND, 0).is_none());
    assert!(progress.tick(2, 10, 0, 300 * MILLISECOND, 0).is_some());
    assert!(progress.tick(3, 10, 0, 350 * MILLISECOND, 0).is_none());
    assert!(progress.tick(4, 10, 0, 450 * MILLISECOND, 0).is_some());
    assert!(progress.clear().is_some());
}

#[test]
fn an_estimate_is_shown_where_there_is_one() {
    let elapsed = 10 * SECOND;
    assert_eq!(remaining(25, 100, elapsed, left(25, 100, elapsed)), Some("30s".to_owned()));
    assert_eq!(remaining(0, 100, elapsed, 30), None);
    assert_eq!(remaining(100, 100, elapsed, 30), None);
    let elapsed = 2_300 * MILLISECOND;
    assert_eq!(remaining(1, 11, elapsed, left(1, 11, elapsed)), Some("22s".to_owned()));
}
