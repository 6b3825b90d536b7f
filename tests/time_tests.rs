use fasting_rust::time::Timestamp;

#[test]
fn civil_dates_map_to_epoch_seconds() {
    assert_eq!(Timestamp::from_ymd_hms(1970, 1, 1, 0, 0, 0), Some(Timestamp::from_seconds(0)));
    assert_eq!(
        Timestamp::from_ymd_hms(2024, 1, 1, 8, 0, 0),
        Some(Timestamp::from_seconds(1_704_096_000))
    );
    assert_eq!(
        Timestamp::from_ymd_hms(1969, 12, 31, 23, 59, 59),
        Some(Timestamp::from_seconds(-1))
    );
}

#[test]
fn invalid_dates_and_times_are_rejected() {
    assert_eq!(Timestamp::from_ymd_hms(2023, 2, 29, 0, 0, 0), None);
    assert_eq!(Timestamp::from_ymd_hms(2024, 13, 1, 0, 0, 0), None);
    assert_eq!(Timestamp::from_ymd_hms(2024, 1, 1, 24, 0, 0), None);
    assert_eq!(Timestamp::from_ymd_hms(2024, 1, 1, 0, 60, 0), None);
    assert!(Timestamp::from_ymd_hms(2024, 2, 29, 0, 0, 0).is_some());
}

#[test]
fn day_numbers_round_down() {
    assert_eq!(Timestamp::from_seconds(0).day(), 0);
    assert_eq!(Timestamp::from_seconds(86_399).day(), 0);
    assert_eq!(Timestamp::from_seconds(86_400).day(), 1);
    assert_eq!(Timestamp::from_seconds(-1).day(), -1);
    assert_eq!(Timestamp::from_ymd_hms(2024, 1, 1, 23, 0, 0).unwrap().day(), 19_723);
}

#[test]
fn minutes_truncate_toward_zero() {
    let t = Timestamp::from_seconds(1000);
    assert_eq!(t.minutes_until(Timestamp::from_seconds(1119)), 1);
    assert_eq!(t.minutes_until(Timestamp::from_seconds(881)), -1);
    assert_eq!(t.minutes_until(t), 0);
    assert_eq!(
        Timestamp::from_seconds(i64::MIN).minutes_until(Timestamp::from_seconds(i64::MAX)),
        307_445_734_561_825_860
    );
}
