use fasting_rust::analytics::{
    average_duration, checkpoint_hours, checkpoints_achieved, checkpoints_reached, current_status,
    current_streak, total_duration, validate_events, weekly_summary,
};
use fasting_rust::errors::FastingAppError;
use fasting_rust::models::FastingEvent;
use fasting_rust::time::Timestamp;

fn at(y: i32, mo: u32, d: u32, h: u32, mi: u32) -> Timestamp {
    Timestamp::from_ymd_hms(y, mo, d, h, mi, 0).unwrap()
}

fn event(id: i32, start: Timestamp, stop: Option<Timestamp>) -> FastingEvent {
    FastingEvent { id, user_id: 7, start_time: start, stop_time: stop, created_at: None, goal_id: None }
}

fn minutes_after(t: Timestamp, m: i64) -> Timestamp {
    Timestamp::from_seconds(t.seconds + m * 60)
}

#[test]
fn no_completed_events_average_none_total_zero() {
    let open = vec![event(1, at(2024, 1, 1, 8, 0), None)];
    assert_eq!(average_duration(&open), None);
    assert_eq!(total_duration(&open), 0);
    let empty: Vec<FastingEvent> = Vec::new();
    assert_eq!(average_duration(&empty), None);
    assert_eq!(total_duration(&empty), 0);
}

#[test]
fn average_truncates_toward_zero() {
    let s = at(2024, 1, 1, 0, 0);
    let events = vec![
        event(1, s, Some(minutes_after(s, 10))),
        event(2, s, Some(minutes_after(s, 15))),
        event(3, s, None),
    ];
    assert_eq!(average_duration(&events), Some(12));
    assert_eq!(total_duration(&events), 25);
}

#[test]
fn durations_count_whole_minutes() {
    let s = at(2024, 1, 1, 0, 0);
    let stop = Timestamp::from_seconds(s.seconds + 119);
    let events = vec![event(1, s, Some(stop))];
    assert_eq!(total_duration(&events), 1);
}

#[test]
fn zero_length_fast_is_valid() {
    let s = at(2024, 1, 1, 0, 0);
    let events = vec![event(1, s, Some(s))];
    assert_eq!(validate_events(&events), Ok(()));
    assert_eq!(average_duration(&events), Some(0));
}

#[test]
fn streak_three_consecutive_days() {
    let today = at(2024, 1, 10, 12, 0);
    let events = vec![
        event(3, at(2024, 1, 10, 8, 0), None),
        event(2, at(2024, 1, 9, 8, 0), Some(at(2024, 1, 9, 20, 0))),
        event(1, at(2024, 1, 8, 8, 0), Some(at(2024, 1, 8, 20, 0))),
    ];
    assert_eq!(current_streak(&events, today.day()), 3);
}

#[test]
fn streak_gap_breaks_chain() {
    let today = at(2024, 1, 10, 12, 0);
    let events = vec![
        event(3, at(2024, 1, 10, 8, 0), None),
        event(1, at(2024, 1, 8, 8, 0), Some(at(2024, 1, 8, 20, 0))),
    ];
    assert_eq!(current_streak(&events, today.day()), 1);
}

#[test]
fn streak_counts_each_day_once() {
    let today = at(2024, 1, 10, 23, 0);
    let events = vec![
        event(4, at(2024, 1, 10, 18, 0), None),
        event(3, at(2024, 1, 10, 6, 0), Some(at(2024, 1, 10, 7, 0))),
        event(2, at(2024, 1, 9, 8, 0), Some(at(2024, 1, 9, 9, 0))),
    ];
    assert_eq!(current_streak(&events, today.day()), 2);
}

#[test]
fn streak_zero_without_fast_today() {
    let today = at(2024, 1, 10, 12, 0);
    let events = vec![event(1, at(2024, 1, 9, 8, 0), Some(at(2024, 1, 9, 20, 0)))];
    assert_eq!(current_streak(&events, today.day()), 0);
    let empty: Vec<FastingEvent> = Vec::new();
    assert_eq!(current_streak(&empty, today.day()), 0);
}

#[test]
fn checkpoints_sixteen_hours_exactly() {
    let s = at(2024, 1, 1, 0, 0);
    let events = vec![event(1, s, Some(minutes_after(s, 16 * 60)))];
    assert_eq!(checkpoints_achieved(&events), vec![4, 12, 14, 16]);
}

#[test]
fn checkpoints_fifteen_hours_fifty_nine() {
    let s = at(2024, 1, 1, 0, 0);
    let events = vec![event(1, s, Some(minutes_after(s, 15 * 60 + 59)))];
    assert_eq!(checkpoints_achieved(&events), vec![4, 12, 14]);
}

#[test]
fn checkpoints_union_over_history_and_open_ignored() {
    let s = at(2024, 1, 1, 0, 0);
    let events = vec![
        event(1, s, Some(minutes_after(s, 5 * 60))),
        event(2, s, Some(minutes_after(s, 72 * 60))),
        event(3, s, None),
    ];
    assert_eq!(checkpoints_achieved(&events), vec![4, 12, 14, 16, 18, 24, 36, 48, 72]);
    let short = vec![event(1, s, Some(minutes_after(s, 3 * 60 + 59))), event(2, s, None)];
    assert_eq!(checkpoints_achieved(&short), Vec::<u32>::new());
}

#[test]
fn checkpoints_with_custom_thresholds() {
    let s = at(2024, 1, 1, 0, 0);
    let events = vec![event(1, s, Some(minutes_after(s, 10 * 60)))];
    assert_eq!(checkpoints_reached(&events, &[1, 10, 11]), vec![1, 10]);
    assert_eq!(checkpoint_hours(), vec![4, 12, 14, 16, 18, 24, 36, 48, 72]);
}

#[test]
fn weekly_summary_excludes_event_starting_before_range() {
    let range_start = at(2024, 1, 8, 0, 0);
    let range_end = at(2024, 1, 14, 23, 59);
    let events = vec![
        event(1, at(2024, 1, 7, 20, 0), Some(at(2024, 1, 8, 8, 0))),
        event(2, at(2024, 1, 9, 8, 0), Some(at(2024, 1, 9, 20, 0))),
    ];
    assert_eq!(weekly_summary(&events, range_start, range_end), 720);
}

#[test]
fn weekly_summary_bounds_inclusive_and_open_excluded() {
    let range_start = at(2024, 1, 8, 0, 0);
    let range_end = at(2024, 1, 8, 10, 0);
    let events = vec![
        event(1, range_start, Some(range_end)),
        event(2, at(2024, 1, 8, 9, 0), Some(at(2024, 1, 8, 11, 0))),
        event(3, at(2024, 1, 8, 9, 0), None),
    ];
    assert_eq!(weekly_summary(&events, range_start, range_end), 600);
}

#[test]
fn example_user_seven_status_total_checkpoints() {
    let mon_start = at(2024, 1, 1, 8, 0);
    let mon_stop = at(2024, 1, 1, 20, 0);
    let tue_start = at(2024, 1, 2, 8, 0);
    let events = vec![event(1, mon_start, Some(mon_stop)), event(2, tue_start, None)];
    let now = at(2024, 1, 2, 9, 30);
    assert_eq!(current_status(&events, now), Some((tue_start, 90)));
    assert_eq!(total_duration(&events), 720);
    assert_eq!(checkpoints_achieved(&events), vec![4, 12]);
}

#[test]
fn status_none_when_all_completed() {
    let s = at(2024, 1, 1, 8, 0);
    let events = vec![event(1, s, Some(minutes_after(s, 30)))];
    assert_eq!(current_status(&events, at(2024, 1, 2, 0, 0)), None);
}

#[test]
fn status_elapsed_truncates_toward_zero_before_start() {
    let s = at(2024, 1, 1, 8, 0);
    let events = vec![event(1, s, None)];
    let now = Timestamp::from_seconds(s.seconds - 90);
    assert_eq!(current_status(&events, now), Some((s, -1)));
}

#[test]
fn validate_rejects_stop_before_start() {
    let s = at(2024, 1, 1, 8, 0);
    let events = vec![event(1, s, Some(minutes_after(s, -1)))];
    assert_eq!(validate_events(&events), Err(FastingAppError::InvalidTimestamp));
}

#[test]
fn validate_rejects_total_too_large() {
    let start = Timestamp::from_seconds(i64::MIN);
    let stop = Timestamp::from_seconds(i64::MAX);
    let mut events = Vec::new();
    for i in 0..40 {
        events.push(event(i, start, Some(stop)));
    }
    assert_eq!(validate_events(&events), Err(FastingAppError::DurationOverflow));
    assert_eq!(validate_events(&events[..1]), Ok(()));
}
