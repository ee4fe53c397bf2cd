use cloud_cost::date::{month_to_date, previous_month_same_point, Date};

fn date(year: i32, month: u32, day: u32) -> Date {
    Date::new(year, month, day).expect("a day of the calendar")
}

#[test]
fn windows_in_the_middle_of_march() {
    let today = date(2024, 3, 15);
    let (month_start, month_end_exclusive) = month_to_date(today);
    assert_eq!(month_start, date(2024, 3, 1));
    assert_eq!(month_end_exclusive, date(2024, 3, 16));
    let (prev_start, prev_end_exclusive) = previous_month_same_point(today);
    assert_eq!(prev_start, date(2024, 2, 1));
    assert_eq!(prev_end_exclusive, date(2024, 2, 16));
}

#[test]
fn previous_window_of_january_lies_in_the_year_before() {
    let today = date(2024, 1, 10);
    let (prev_start, prev_end_exclusive) = previous_month_same_point(today);
    assert_eq!(prev_start, date(2023, 12, 1));
    assert_eq!(prev_end_exclusive, date(2023, 12, 11));
}

#[test]
fn days_that_do_not_exist_are_no_dates() {
    assert_eq!(Date::new(2023, 2, 29), None);
    assert_eq!(Date::new(2024, 2, 29), Some(Date { year: 2024, month: 2, day: 29 }));
    assert_eq!(Date::new(1900, 2, 29), None);
    assert_eq!(Date::new(2000, 2, 29), Some(Date { year: 2000, month: 2, day: 29 }));
    assert_eq!(Date::new(2024, 4, 31), None);
    assert_eq!(Date::new(2024, 0, 1), None);
    assert_eq!(Date::new(2024, 13, 1), None);
    assert_eq!(Date::new(2024, 1, 0), None);
    assert_eq!(Date::new(400000, 1, 1), None);
    assert_eq!(Date::new(-400000, 1, 1), None);
    assert_eq!(Date::new(262142, 12, 31), Some(Date { year: 262142, month: 12, day: 31 }));
    assert_eq!(Date::new(262143, 1, 1), None);
    assert_eq!(Date::new(-262143, 1, 1), Some(Date { year: -262143, month: 1, day: 1 }));
    assert_eq!(Date::new(-262144, 12, 31), None);
}

#[test]
fn days_are_added_across_months_and_years() {
    assert_eq!(date(2024, 2, 28).checked_add_days(1), Some(date(2024, 2, 29)));
    assert_eq!(date(2023, 2, 28).checked_add_days(1), Some(date(2023, 3, 1)));
    assert_eq!(date(2023, 12, 31).checked_add_days(1), Some(date(2024, 1, 1)));
    assert_eq!(date(2024, 1, 1).checked_add_days(-1), Some(date(2023, 12, 31)));
    assert_eq!(date(2024, 1, 1).checked_add_days(366), Some(date(2025, 1, 1)));
    assert_eq!(date(2024, 3, 15).checked_add_days(0), Some(date(2024, 3, 15)));
    assert_eq!(date(262142, 12, 31).checked_add_days(1), None);
    assert_eq!(date(-262143, 1, 1).checked_add_days(-1), None);
}

#[test]
fn the_current_window_ends_the_day_after_today() {
    assert_eq!(month_to_date(date(2024, 2, 29)), (date(2024, 2, 1), date(2024, 3, 1)));
    assert_eq!(month_to_date(date(2023, 12, 31)), (date(2023, 12, 1), date(2024, 1, 1)));
    assert_eq!(month_to_date(date(2024, 5, 1)), (date(2024, 5, 1), date(2024, 5, 2)));
}

#[test]
fn the_previous_window_runs_on_past_a_shorter_month() {
    assert_eq!(
        previous_month_same_point(date(2023, 3, 31)),
        (date(2023, 2, 1), date(2023, 3, 4))
    );
    assert_eq!(
        previous_month_same_point(date(2024, 3, 31)),
        (date(2024, 2, 1), date(2024, 3, 3))
    );
    assert_eq!(
        previous_month_same_point(date(2024, 3, 29)),
        (date(2024, 2, 1), date(2024, 3, 1))
    );
}

#[test]
fn the_previous_window_of_the_first_is_one_day_long() {
    assert_eq!(
        previous_month_same_point(date(2024, 5, 1)),
        (date(2024, 4, 1), date(2024, 4, 2))
    );
    assert_eq!(
        previous_month_same_point(date(2024, 8, 31)),
        (date(2024, 7, 1), date(2024, 8, 1))
    );
}

#[test]
fn dates_are_written_year_month_day() {
    assert_eq!(date(2024, 3, 1).to_iso_text(), "2024-03-01");
    assert_eq!(date(2023, 12, 31).to_iso_text(), "2023-12-31");
    assert_eq!(date(999, 1, 9).to_iso_text(), "0999-01-09");
    assert_eq!(date(0, 10, 10).to_iso_text(), "0000-10-10");
    assert_eq!(date(-1, 2, 3).to_iso_text(), "-0001-02-03");
    assert_eq!(date(10000, 1, 1).to_iso_text(), "+10000-01-01");
}

#[test]
fn dates_are_written_as_chrono_writes_them() {
    let days = [
        (2024, 2, 29),
        (1, 1, 1),
        (0, 12, 31),
        (9, 9, 9),
        (99, 11, 30),
        (1000, 6, 15),
        (9999, 12, 31),
        (10000, 1, 1),
        (262142, 12, 31),
        (-1, 1, 1),
        (-999, 5, 5),
        (-1000, 7, 7),
        (-262143, 1, 1),
    ];
    for (year, month, day) in days {
        let written = chrono::NaiveDate::from_ymd_opt(year, month, day)
            .expect("a day of the calendar")
            .format("%Y-%m-%d")
            .to_string();
        assert_eq!(date(year, month, day).to_iso_text(), written);
    }
}
