use fasting_rust::errors::FastingAppError;
use fasting_rust::handlers::{
    calculate_average_fasting_duration, calculate_checkpoints_achieved, calculate_current_streak,
    calculate_total_fasting_time, calculate_weekly_summary, get_current_fasting_status,
    get_fasting_history, remove_fasting_goal, start_fasting, stop_fasting, update_fasting_goal,
};
use fasting_rust::models::{FastingEvent, NewFastingEvent};
use fasting_rust::session::{plan_goal_update, plan_start, plan_stop};
use fasting_rust::store::EventLog;
use fasting_rust::time::Timestamp;

fn t(seconds: i64) -> Timestamp {
    Timestamp::from_seconds(seconds)
}

#[test]
fn second_start_is_refused_while_open() {
    let mut log = EventLog::new();
    assert_eq!(start_fasting(&mut log, 7, t(0), None, t(0)), Ok(1));
    for k in 1..5 {
        assert_eq!(
            start_fasting(&mut log, 7, t(k * 60), Some(3), t(k * 60)),
            Err(FastingAppError::ExistingSessionError(7))
        );
    }
    assert_eq!(log.len(), 1);
    assert_eq!(start_fasting(&mut log, 8, t(0), None, t(0)), Ok(2));
}

#[test]
fn start_then_stop_round_trip() {
    let mut log = EventLog::new();
    let id = start_fasting(&mut log, 7, t(1000), Some(4), t(1001)).unwrap();
    assert_eq!(stop_fasting(&mut log, 7, t(1000 + 3600)), Ok(id));
    assert_eq!(
        log.events().to_vec(),
        vec![FastingEvent {
            id,
            user_id: 7,
            start_time: t(1000),
            stop_time: Some(t(4600)),
            created_at: Some(t(1001)),
            goal_id: Some(4),
        }]
    );
    assert_eq!(get_current_fasting_status(&log, 7, t(9000)), Ok(None));
    assert_eq!(start_fasting(&mut log, 7, t(5000), None, t(5000)), Ok(2));
}

#[test]
fn stop_without_open_fast_is_refused() {
    let mut log = EventLog::new();
    assert_eq!(stop_fasting(&mut log, 7, t(10)), Err(FastingAppError::NoActiveSession(7)));
    start_fasting(&mut log, 7, t(0), None, t(0)).unwrap();
    assert_eq!(stop_fasting(&mut log, 7, t(10)), Ok(1));
    assert_eq!(stop_fasting(&mut log, 7, t(20)), Err(FastingAppError::NoActiveSession(7)));
}

#[test]
fn stop_before_start_is_refused_and_zero_length_accepted() {
    let mut log = EventLog::new();
    start_fasting(&mut log, 7, t(100), None, t(100)).unwrap();
    assert_eq!(stop_fasting(&mut log, 7, t(99)), Err(FastingAppError::InvalidTimestamp));
    assert_eq!(get_current_fasting_status(&log, 7, t(220)), Ok(Some((t(100), 2))));
    assert_eq!(stop_fasting(&mut log, 7, t(100)), Ok(1));
}

#[test]
fn goal_changes_apply_to_the_open_fast_only() {
    let mut log = EventLog::new();
    assert_eq!(update_fasting_goal(&mut log, 7, Some(2)), Err(FastingAppError::NoActiveSession(7)));
    start_fasting(&mut log, 7, t(0), None, t(0)).unwrap();
    assert_eq!(update_fasting_goal(&mut log, 7, Some(2)), Ok(()));
    assert_eq!(log.find_active(7).unwrap().goal_id, Some(2));
    assert_eq!(log.find_active(7).unwrap().start_time, t(0));
    assert_eq!(remove_fasting_goal(&mut log, 7), Ok(()));
    assert_eq!(log.find_active(7).unwrap().goal_id, None);
    stop_fasting(&mut log, 7, t(60)).unwrap();
    assert_eq!(remove_fasting_goal(&mut log, 7), Err(FastingAppError::NoActiveSession(7)));
}

#[test]
fn history_is_most_recent_first_and_per_user() {
    let mut log = EventLog::new();
    start_fasting(&mut log, 7, t(5000), None, t(5000)).unwrap();
    stop_fasting(&mut log, 7, t(6000)).unwrap();
    start_fasting(&mut log, 8, t(100), None, t(100)).unwrap();
    start_fasting(&mut log, 7, t(1000), None, t(7000)).unwrap();
    stop_fasting(&mut log, 7, t(2000)).unwrap();
    start_fasting(&mut log, 7, t(9000), None, t(9000)).unwrap();
    let history = get_fasting_history(&log, 7).unwrap();
    let starts: Vec<i64> = history.iter().map(|e| e.start_time.seconds).collect();
    assert_eq!(starts, vec![9000, 5000, 1000]);
    assert!(history.iter().all(|e| e.user_id == 7));
    assert_eq!(get_fasting_history(&log, 9).unwrap(), Vec::new());
}

#[test]
fn facade_statistics_for_one_user() {
    let mut log = EventLog::new();
    let day = 86_400;
    let d = 19_723 * day;
    start_fasting(&mut log, 7, t(d - 2 * day), None, t(0)).unwrap();
    stop_fasting(&mut log, 7, t(d - 2 * day + 16 * 3600)).unwrap();
    start_fasting(&mut log, 7, t(d - day), None, t(0)).unwrap();
    stop_fasting(&mut log, 7, t(d - day + 12 * 3600)).unwrap();
    start_fasting(&mut log, 8, t(d), None, t(0)).unwrap();
    start_fasting(&mut log, 7, t(d + 3600), None, t(0)).unwrap();
    assert_eq!(calculate_total_fasting_time(&log, 7), Ok(28 * 60));
    assert_eq!(calculate_average_fasting_duration(&log, 7), Ok(Some(14 * 60)));
    assert_eq!(calculate_current_streak(&log, 7, 19_723), Ok(3));
    assert_eq!(calculate_current_streak(&log, 8, 19_723), Ok(1));
    assert_eq!(calculate_checkpoints_achieved(&log, 7), Ok(vec![4, 12, 14, 16]));
    assert_eq!(calculate_weekly_summary(&log, 7, t(d - day), t(d + day)), Ok(12 * 60));
    assert_eq!(calculate_average_fasting_duration(&log, 8), Ok(None));
    assert_eq!(calculate_total_fasting_time(&log, 8), Ok(0));
}

#[test]
fn facade_reports_total_that_does_not_fit() {
    let mut log = EventLog::new();
    for _ in 0..40 {
        start_fasting(&mut log, 7, t(i64::MIN), None, t(0)).unwrap();
        stop_fasting(&mut log, 7, t(i64::MAX)).unwrap();
    }
    assert_eq!(calculate_total_fasting_time(&log, 7), Err(FastingAppError::DurationOverflow));
    assert_eq!(calculate_average_fasting_duration(&log, 7), Err(FastingAppError::DurationOverflow));
}

#[test]
fn store_insert_enforces_single_open_fast() {
    let mut log = EventLog::new();
    let open = NewFastingEvent { user_id: 7, start_time: t(0), stop_time: None, created_at: None, goal_id: None };
    assert_eq!(log.insert(open), Ok(1));
    assert_eq!(log.insert(open), Err(FastingAppError::ExistingSessionError(7)));
    let backwards = NewFastingEvent { stop_time: Some(t(-1)), ..open };
    assert_eq!(log.insert(backwards), Err(FastingAppError::InvalidTimestamp));
    let done = NewFastingEvent { stop_time: Some(t(5)), ..open };
    assert_eq!(log.insert(done), Ok(2));
    assert_eq!(log.update_stop_time(99, t(5)), Err(FastingAppError::NotFound));
    assert_eq!(log.update_stop_time(2, t(6)), Err(FastingAppError::NoActiveSession(7)));
    assert_eq!(log.update_goal(99, None), Err(FastingAppError::NotFound));
    assert_eq!(log.update_goal(2, Some(1)), Ok(()));
}

#[test]
fn decisions_without_a_store() {
    let open = FastingEvent { id: 3, user_id: 7, start_time: t(100), stop_time: None, created_at: None, goal_id: None };
    assert_eq!(plan_start(Some(open), 7, t(200), None, t(200)), Err(FastingAppError::ExistingSessionError(7)));
    assert_eq!(
        plan_start(None, 7, t(200), Some(1), t(300)),
        Ok(NewFastingEvent { user_id: 7, start_time: t(200), stop_time: None, created_at: Some(t(300)), goal_id: Some(1) })
    );
    assert_eq!(plan_stop(None, 7, t(200)), Err(FastingAppError::NoActiveSession(7)));
    assert_eq!(plan_stop(Some(open), 7, t(50)), Err(FastingAppError::InvalidTimestamp));
    assert_eq!(plan_stop(Some(open), 7, t(200)), Ok(FastingEvent { stop_time: Some(t(200)), ..open }));
    assert_eq!(plan_goal_update(None, 7, Some(1)), Err(FastingAppError::NoActiveSession(7)));
    assert_eq!(plan_goal_update(Some(open), 7, Some(1)), Ok(FastingEvent { goal_id: Some(1), ..open }));
}
