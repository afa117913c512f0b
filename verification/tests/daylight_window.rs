use time_formatter::{DaylightSavings, TimeFormattable, TimeFormatter};

#[test]
fn window_within_the_year() {
    let savings: DaylightSavings = DaylightSavings::new(3, 2, 1, 5, 6, 7, 12);
    assert_eq!(savings.get_modification(2, 1, 0), 0);
    assert_eq!(savings.get_modification(2, 1, 1), 12);
    assert_eq!(savings.get_modification(4, 5, 6), 12);
    assert_eq!(savings.get_modification(4, 5, 7), 0);
    assert!(!savings.should_apply_modification(2, 1, 0));
    assert!(savings.should_apply_modification(2, 1, 1));
    assert!(savings.should_apply_modification(3, 30, 23));
    assert!(savings.should_apply_modification(4, 5, 6));
    assert!(!savings.should_apply_modification(4, 5, 7));
    assert!(!savings.should_apply_modification(0, 0, 0));
    assert!(!savings.should_apply_modification(11, 30, 23));
}

#[test]
fn window_over_the_turn_of_the_year() {
    let savings: DaylightSavings = DaylightSavings::new(5, 6, 7, 3, 2, 1, 12);
    assert_eq!(savings.get_modification(2, 1, 0), 12);
    assert_eq!(savings.get_modification(2, 1, 1), 0);
    assert_eq!(savings.get_modification(4, 5, 6), 0);
    assert_eq!(savings.get_modification(4, 5, 7), 12);
    assert_eq!(savings.get_modification(0, 0, 0), 12);
    assert_eq!(savings.get_modification(11, 30, 23), 12);
    // The boundaries are stored in order, so the plain test is that of the
    // window within the year.
    assert!(!savings.should_apply_modification(2, 1, 0));
    assert!(savings.should_apply_modification(2, 1, 1));
    assert!(!savings.should_apply_modification(4, 5, 7));
}

#[test]
fn swapped_boundaries_invert_the_window() {
    let within: DaylightSavings = DaylightSavings::new(3, 2, 1, 5, 6, 7, -3);
    let over: DaylightSavings = DaylightSavings::new(5, 6, 7, 3, 2, 1, -3);
    for month_index in 0u8..12 {
        for day_index in 0u8..31 {
            for hour in 0u8..24 {
                let one: i8 = within.get_modification(month_index, day_index, hour);
                let other: i8 = over.get_modification(month_index, day_index, hour);
                assert!((one == -3 && other == 0) || (one == 0 && other == -3));
            }
        }
    }
}

#[test]
fn window_with_equal_boundaries_is_empty() {
    let savings: DaylightSavings = DaylightSavings::new(4, 4, 4, 4, 4, 4, 1);
    assert_eq!(savings.get_modification(3, 3, 4), 0);
    assert_eq!(savings.get_modification(3, 3, 3), 0);
    assert_eq!(savings.get_modification(0, 0, 0), 0);
}

#[test]
fn order_of_boundaries_goes_by_month_then_day_then_hour() {
    let by_day: DaylightSavings = DaylightSavings::new(3, 9, 0, 3, 2, 23, 1);
    assert_eq!(by_day.get_modification(2, 5, 0), 0);
    assert_eq!(by_day.get_modification(2, 9, 0), 1);
    assert_eq!(by_day.get_modification(2, 1, 22), 1);
    let by_hour: DaylightSavings = DaylightSavings::new(3, 2, 9, 3, 2, 4, 1);
    assert_eq!(by_hour.get_modification(2, 1, 5), 0);
    assert_eq!(by_hour.get_modification(2, 1, 3), 1);
    assert_eq!(by_hour.get_modification(2, 1, 9), 1);
}

#[test]
fn offset_moves_the_count_of_seconds() {
    let time: TimeFormatter =
        TimeFormatter::new_date(2020, 4, 30, 23, 30, 0).with_daylight_saving_time(3, 2, 1, 5, 6, 7, 1);
    assert_eq!(
        (time.year(), time.month(), time.date(), time.hours(), time.minutes(), time.seconds()),
        (2020, 5, 1, 0, 30, 0)
    );
    let plain: TimeFormatter = TimeFormatter::new_date(2020, 4, 30, 23, 30, 0);
    assert_eq!(time.seconds_since_y0(), plain.seconds_since_y0() + 3_600);
}

#[test]
fn negative_offset_moves_back() {
    let time: TimeFormatter =
        TimeFormatter::new_date(2021, 1, 1, 0, 30, 0).with_daylight_saving_time(11, 1, 0, 2, 1, 0, -1);
    assert_eq!(
        (time.year(), time.month(), time.date(), time.hours(), time.minutes(), time.seconds()),
        (2020, 12, 31, 23, 30, 0)
    );
    let plain: TimeFormatter = TimeFormatter::new_date(2021, 1, 1, 0, 30, 0);
    assert_eq!(time.seconds_since_y0(), plain.seconds_since_y0() - 3_600);
}

#[test]
fn outside_the_window_nothing_moves() {
    let time: TimeFormatter =
        TimeFormatter::new_date(2021, 8, 1, 0, 30, 0).with_daylight_saving_time(3, 2, 1, 5, 6, 7, 12);
    let plain: TimeFormatter = TimeFormatter::new_date(2021, 8, 1, 0, 30, 0);
    assert_eq!(time.seconds_since_y0(), plain.seconds_since_y0());
    assert_eq!(time.hours(), 0);
}
