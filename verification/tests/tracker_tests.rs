use coredump::tracker::{ActivityTracker, IDLE_THRESHOLD, SEND_INTERVAL};
use coredump::LanguageTimes;

const SECOND: u64 = 1_000_000_000;

fn record(tracker: &mut ActivityTracker, language: &str, file_name: &str, now: u64) -> bool {
    tracker.record_activity(language.to_string(), file_name.to_string(), now)
}

fn sum(times: &LanguageTimes) -> u64 {
    let mut all = 0;
    for index in 0..times.len() {
        all += times.duration_at(index);
    }
    all
}

#[test]
fn new_tracker_holds_nothing() {
    let tracker = ActivityTracker::new(7 * SECOND);
    assert!(tracker.language_times().is_empty());
    assert_eq!(tracker.language_times().len(), 0);
    assert_eq!(tracker.last_activity(), 7 * SECOND);
    assert_eq!(tracker.last_sent(), 7 * SECOND);
    assert_eq!(tracker.current_language(), None);
    assert_eq!(tracker.current_file(), None);
}

#[test]
fn first_sample_credits_nothing_and_reports_a_change() {
    let t0 = 100 * SECOND;
    let mut tracker = ActivityTracker::new(t0);
    assert!(record(&mut tracker, "rust", "a.rs", t0 + 3 * SECOND));
    assert!(tracker.language_times().is_empty());
    assert_eq!(tracker.last_activity(), t0 + 3 * SECOND);
    assert_eq!(tracker.current_language(), Some("rust"));
    assert_eq!(tracker.current_file(), Some("a.rs"));
}

#[test]
fn two_files_and_an_idle_gap() {
    let t0 = 1_000 * SECOND;
    let mut tracker = ActivityTracker::new(t0);
    record(&mut tracker, "rust", "a.rs", t0);

    let changed = record(&mut tracker, "rust", "a.rs", t0 + 10 * SECOND);
    assert!(!changed);
    assert_eq!(tracker.language_times().get("rust"), Some(10 * SECOND));

    let changed = record(&mut tracker, "python", "b.py", t0 + 40 * SECOND);
    assert!(changed);
    assert_eq!(tracker.language_times().get("rust"), Some(40 * SECOND));
    assert_eq!(tracker.language_times().get("python"), None);

    let changed = record(&mut tracker, "python", "b.py", t0 + 150 * SECOND);
    assert!(!changed);
    assert_eq!(tracker.language_times().get("rust"), Some(40 * SECOND));
    assert_eq!(tracker.language_times().get("python"), None);
    assert_eq!(tracker.language_times().len(), 1);
    assert_eq!(tracker.last_activity(), t0 + 150 * SECOND);
}

#[test]
fn gap_at_the_idle_threshold_is_idle() {
    let mut tracker = ActivityTracker::new(0);
    record(&mut tracker, "go", "m.go", 0);
    record(&mut tracker, "go", "m.go", IDLE_THRESHOLD);
    assert_eq!(tracker.language_times().get("go"), None);
    assert_eq!(tracker.last_activity(), IDLE_THRESHOLD);
}

#[test]
fn gap_just_under_the_idle_threshold_is_credited() {
    let mut tracker = ActivityTracker::new(0);
    record(&mut tracker, "go", "m.go", 0);
    record(&mut tracker, "go", "m.go", IDLE_THRESHOLD - 1);
    assert_eq!(tracker.language_times().get("go"), Some(IDLE_THRESHOLD - 1));
    assert_eq!(tracker.last_activity(), IDLE_THRESHOLD - 1);
}

#[test]
fn idle_threshold_is_sixty_seconds() {
    assert_eq!(IDLE_THRESHOLD, 60 * SECOND);
    assert_eq!(SEND_INTERVAL, 45 * SECOND);
}

#[test]
fn gap_of_nothing_still_makes_an_entry() {
    let mut tracker = ActivityTracker::new(5);
    record(&mut tracker, "lua", "x.lua", 5);
    record(&mut tracker, "lua", "x.lua", 5);
    assert_eq!(tracker.language_times().get("lua"), Some(0));
    assert_eq!(tracker.language_times().len(), 1);
}

#[test]
fn change_is_reported_for_another_file_or_another_language() {
    let mut tracker = ActivityTracker::new(0);
    assert!(record(&mut tracker, "rust", "a.rs", 1));
    assert!(!record(&mut tracker, "rust", "a.rs", 2));
    assert!(record(&mut tracker, "rust", "b.rs", 3));
    assert!(record(&mut tracker, "plaintext", "b.rs", 4));
    assert!(!record(&mut tracker, "plaintext", "b.rs", 5));
    assert!(record(&mut tracker, "rust", "a.rs", 6));
}

#[test]
fn change_is_reported_after_an_idle_gap_only_for_a_new_identity() {
    let mut tracker = ActivityTracker::new(0);
    record(&mut tracker, "rust", "a.rs", 0);
    assert!(!record(&mut tracker, "rust", "a.rs", 10 * IDLE_THRESHOLD));
    assert!(record(&mut tracker, "go", "a.go", 20 * IDLE_THRESHOLD));
}

#[test]
fn interval_goes_to_the_language_in_focus_when_it_began() {
    let mut tracker = ActivityTracker::new(0);
    record(&mut tracker, "rust", "a.rs", 0);
    record(&mut tracker, "go", "b.go", 20 * SECOND);
    record(&mut tracker, "css", "c.css", 25 * SECOND);
    record(&mut tracker, "rust", "a.rs", 55 * SECOND);
    let times = tracker.language_times();
    assert_eq!(times.get("rust"), Some(20 * SECOND));
    assert_eq!(times.get("go"), Some(5 * SECOND));
    assert_eq!(times.get("css"), Some(30 * SECOND));
    assert_eq!(times.len(), 3);
}

#[test]
fn credited_and_idle_time_add_up_to_the_time_that_passed() {
    let stamps: [u64; 9] = [3, 8, 13, 80, 85, 200, 259, 319, 320];
    let languages = ["rust", "rust", "go", "go", "css", "rust", "go", "go", "c"];
    let mut tracker = ActivityTracker::new(0);
    let mut idle = 0;
    for index in 0..stamps.len() {
        if index > 0 {
            let gap = (stamps[index] - stamps[index - 1]) * SECOND;
            if gap >= IDLE_THRESHOLD {
                idle += gap;
            }
        }
        record(&mut tracker, languages[index], "f", stamps[index] * SECOND);
    }
    assert_eq!(idle, (67 + 115 + 60) * SECOND);
    assert_eq!(sum(tracker.language_times()) + idle, (320 - 3) * SECOND);
    assert_eq!(sum(tracker.language_times()), 75 * SECOND);
}

#[test]
fn should_send_once_the_interval_has_passed() {
    let t0 = 500 * SECOND;
    let tracker = ActivityTracker::new(t0);
    assert!(!tracker.should_send(t0));
    assert!(!tracker.should_send(t0 + SEND_INTERVAL - 1));
    assert!(tracker.should_send(t0 + SEND_INTERVAL));
    assert!(tracker.should_send(t0 + 10 * SEND_INTERVAL));
    assert!(!tracker.should_send(t0 - 1));
    assert!(!tracker.should_send(0));
}

#[test]
fn drain_returns_the_sums_and_empties_the_tracker() {
    let mut tracker = ActivityTracker::new(0);
    record(&mut tracker, "go", "m.go", 0);
    record(&mut tracker, "go", "m.go", 25 * SECOND);
    assert_eq!(tracker.language_times().get("go"), Some(25 * SECOND));

    let t = 50 * SECOND;
    assert!(tracker.should_send(t));
    let data = tracker.get_and_reset(t);
    assert_eq!(data.len(), 1);
    assert_eq!(data.get("go"), Some(25 * SECOND));
    assert!(tracker.language_times().is_empty());
    assert_eq!(tracker.last_sent(), t);

    assert!(!tracker.should_send(t));
    assert!(!tracker.should_send(t + SEND_INTERVAL - 1));
    assert!(tracker.should_send(t + SEND_INTERVAL));
}

#[test]
fn second_drain_in_a_row_is_empty() {
    let mut tracker = ActivityTracker::new(0);
    record(&mut tracker, "rust", "a.rs", 1 * SECOND);
    record(&mut tracker, "go", "b.go", 11 * SECOND);
    record(&mut tracker, "go", "b.go", 12 * SECOND);
    let first = tracker.get_and_reset(20 * SECOND);
    assert_eq!(first.len(), 2);
    let second = tracker.get_and_reset(20 * SECOND);
    assert!(second.is_empty());
    assert_eq!(second.len(), 0);
    let third = tracker.get_and_reset(90 * SECOND);
    assert!(third.is_empty());
}

#[test]
fn drain_keeps_the_latest_sample() {
    let mut tracker = ActivityTracker::new(0);
    record(&mut tracker, "rust", "a.rs", 10 * SECOND);
    let _ = tracker.get_and_reset(12 * SECOND);
    assert_eq!(tracker.last_activity(), 10 * SECOND);
    assert_eq!(tracker.current_language(), Some("rust"));
    assert_eq!(tracker.current_file(), Some("a.rs"));
    assert!(!record(&mut tracker, "rust", "a.rs", 15 * SECOND));
    assert_eq!(tracker.language_times().get("rust"), Some(5 * SECOND));
}

#[test]
fn sample_on_either_side_of_a_drain_is_counted_once() {
    let mut before = ActivityTracker::new(0);
    record(&mut before, "rust", "a.rs", 0);
    record(&mut before, "rust", "a.rs", 10 * SECOND);
    let mut after = ActivityTracker::new(0);
    record(&mut after, "rust", "a.rs", 0);
    record(&mut after, "rust", "a.rs", 10 * SECOND);

    record(&mut before, "go", "b.go", 30 * SECOND);
    let first = before.get_and_reset(30 * SECOND);
    let rest = before.get_and_reset(31 * SECOND);
    assert_eq!(sum(&first) + sum(&rest), 30 * SECOND);

    let first = after.get_and_reset(30 * SECOND);
    record(&mut after, "go", "b.go", 30 * SECOND);
    let rest = after.get_and_reset(31 * SECOND);
    assert_eq!(sum(&first), 10 * SECOND);
    assert_eq!(sum(&rest), 20 * SECOND);
    assert_eq!(rest.get("rust"), Some(20 * SECOND));
}
