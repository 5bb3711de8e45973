use workdays::calendar::year_in_window;
use workdays::error::key_error_message;
use workdays::{
    CalendarState, Date, DateTime, Duration, Error, TimeBorder, TimeOfDay, Weekday,
};

fn ymd(year: i32, month: u32, day: u32) -> Date {
    Date::from_ymd(year, month, day).unwrap()
}

fn hms(hour: u32, minute: u32, second: u32) -> TimeOfDay {
    TimeOfDay::from_hms(hour, minute, second).unwrap()
}

#[test]
fn a_new_calendar_has_the_default_settings() {
    let calendar = CalendarState::new();
    assert_eq!(calendar.get_range_holidays(), vec![]);
    assert_eq!(calendar.get_holiday_weekdays(), vec![Weekday::Sat, Weekday::Sun]);
    assert_eq!(
        calendar.get_intraday_borders(),
        vec![
            TimeBorder { start: hms(9, 0, 0), end: hms(11, 30, 0) },
            TimeBorder { start: hms(12, 30, 0), end: hms(15, 0, 0) },
        ]
    );
    assert_eq!(calendar.session_count(), 2);
    assert_eq!(calendar.session(1).start, hms(12, 30, 0));
}

#[test]
fn holidays_are_kept_by_their_year() {
    let mut calendar = CalendarState::new();
    let given = vec![
        ymd(2015, 12, 31),
        ymd(2016, 1, 1),
        ymd(2018, 5, 3),
        ymd(2021, 12, 31),
        ymd(2022, 1, 1),
    ];
    calendar.set_range_holidays(&given, 2016, 2021);
    assert_eq!(
        calendar.get_range_holidays(),
        vec![ymd(2016, 1, 1), ymd(2018, 5, 3), ymd(2021, 12, 31)]
    );
    assert!(calendar.is_holiday(ymd(2016, 1, 1)));
    assert!(calendar.is_holiday(ymd(2021, 12, 31)));
    assert!(!calendar.is_holiday(ymd(2015, 12, 31)));
    assert!(!calendar.is_holiday(ymd(2022, 1, 1)));
    assert!(!calendar.is_holiday(ymd(2018, 5, 4)));
}

#[test]
fn holidays_come_out_in_order_and_once() {
    let mut calendar = CalendarState::new();
    let given = vec![
        ymd(2021, 5, 5),
        ymd(2021, 1, 1),
        ymd(2021, 5, 5),
        ymd(2020, 2, 29),
        ymd(2021, 1, 1),
    ];
    calendar.set_range_holidays(&given, 2016, 2021);
    assert_eq!(
        calendar.get_range_holidays(),
        vec![ymd(2020, 2, 29), ymd(2021, 1, 1), ymd(2021, 5, 5)]
    );
}

#[test]
fn setting_holidays_replaces_and_adding_unites() {
    let mut calendar = CalendarState::new();
    calendar.set_range_holidays(&vec![ymd(2021, 1, 1), ymd(2021, 5, 5)], 2016, 2021);
    calendar.set_range_holidays(&vec![ymd(2020, 1, 1)], 2016, 2021);
    assert_eq!(calendar.get_range_holidays(), vec![ymd(2020, 1, 1)]);
    calendar.add_range_holidays(&vec![ymd(2021, 1, 1), ymd(2022, 1, 1), ymd(2020, 1, 1)], 2021, 2021);
    assert_eq!(calendar.get_range_holidays(), vec![ymd(2020, 1, 1), ymd(2021, 1, 1)]);
    calendar.set_range_holidays(&vec![], 2016, 2021);
    assert_eq!(calendar.get_range_holidays(), vec![]);
}

#[test]
fn setting_holidays_twice_is_setting_them_once() {
    let given = vec![ymd(2021, 1, 1), ymd(2019, 5, 5), ymd(2030, 1, 1)];
    let mut once = CalendarState::new();
    once.set_range_holidays(&given, 2016, 2021);
    let mut twice = CalendarState::new();
    twice.set_range_holidays(&given, 2016, 2021);
    twice.set_range_holidays(&given, 2016, 2021);
    assert_eq!(once.get_range_holidays(), twice.get_range_holidays());
}

#[test]
fn a_window_of_years_may_be_empty_or_reach_beyond_the_calendar() {
    let mut calendar = CalendarState::new();
    let given = vec![ymd(1, 1, 1), ymd(2021, 1, 1), ymd(9999, 12, 31)];
    calendar.set_range_holidays(&given, 2022, 2016);
    assert_eq!(calendar.get_range_holidays(), vec![]);
    calendar.set_range_holidays(&given, i32::MIN, i32::MAX);
    assert_eq!(calendar.get_range_holidays(), given);
    calendar.set_range_holidays(&given, 10_000, 20_000);
    assert_eq!(calendar.get_range_holidays(), vec![]);
}

#[test]
fn rest_days_are_replaced_as_a_whole() {
    let mut calendar = CalendarState::new();
    calendar.set_holiday_weekdays(&vec![Weekday::Sun, Weekday::Wed, Weekday::Sun]);
    assert_eq!(calendar.get_holiday_weekdays(), vec![Weekday::Wed, Weekday::Sun]);
    assert!(calendar.is_rest_day(Weekday::Wed));
    assert!(!calendar.is_rest_day(Weekday::Sat));
    assert!(calendar.check_workday(ymd(2021, 1, 2)));
    assert!(!calendar.check_workday(ymd(2021, 1, 6)));
    calendar.set_holiday_weekdays(&vec![]);
    assert_eq!(calendar.get_holiday_weekdays(), vec![]);
}

#[test]
fn rest_days_by_number() {
    let mut calendar = CalendarState::new();
    assert_eq!(calendar.set_holiday_weekday_numbers(&vec![0, 6]), Ok(()));
    assert_eq!(calendar.get_holiday_weekdays(), vec![Weekday::Mon, Weekday::Sun]);
    assert_eq!(
        calendar.set_holiday_weekday_numbers(&vec![1, 7]),
        Err(Error::ConfigurationError)
    );
    assert_eq!(calendar.get_holiday_weekdays(), vec![Weekday::Mon, Weekday::Sun]);
}

#[test]
fn sessions_are_replaced_in_the_order_given() {
    let mut calendar = CalendarState::new();
    let given = vec![
        TimeBorder { start: hms(13, 0, 0), end: hms(17, 0, 0) },
        TimeBorder { start: hms(8, 0, 0), end: hms(12, 0, 0) },
        TimeBorder { start: hms(11, 0, 0), end: hms(14, 0, 0) },
    ];
    assert_eq!(calendar.set_intraday_borders(&given), Ok(()));
    assert_eq!(calendar.get_intraday_borders(), given);
    assert_eq!(calendar.set_intraday_borders(&vec![]), Ok(()));
    assert_eq!(calendar.get_intraday_borders(), vec![]);
}

#[test]
fn a_session_that_does_not_end_after_its_start_is_refused() {
    let mut calendar = CalendarState::new();
    let before = calendar.get_intraday_borders();
    let backward = vec![
        TimeBorder { start: hms(8, 0, 0), end: hms(12, 0, 0) },
        TimeBorder { start: hms(15, 0, 0), end: hms(13, 0, 0) },
    ];
    assert_eq!(calendar.set_intraday_borders(&backward), Err(Error::ConfigurationError));
    assert_eq!(calendar.get_intraday_borders(), before);
    let empty = vec![TimeBorder { start: hms(9, 0, 0), end: hms(9, 0, 0) }];
    assert_eq!(calendar.set_intraday_borders(&empty), Err(Error::ConfigurationError));
    assert_eq!(calendar.get_intraday_borders(), before);
}

#[test]
fn a_snapshot_does_not_follow_later_changes() {
    let mut calendar = CalendarState::new();
    calendar.set_range_holidays(&vec![ymd(2021, 1, 1)], 2016, 2021);
    let snapshot = calendar.snapshot();
    calendar.set_range_holidays(&vec![ymd(2021, 1, 4)], 2016, 2021);
    calendar.set_holiday_weekdays(&vec![]);
    calendar.set_intraday_borders(&vec![]).unwrap();
    assert_eq!(snapshot.get_range_holidays(), vec![ymd(2021, 1, 1)]);
    assert_eq!(snapshot.get_holiday_weekdays(), vec![Weekday::Sat, Weekday::Sun]);
    assert_eq!(snapshot.get_intraday_borders().len(), 2);
    assert!(snapshot.check_workday(ymd(2021, 1, 4)));
    assert!(!calendar.check_workday(ymd(2021, 1, 4)));
}

#[test]
fn errors_have_messages() {
    assert_eq!(Error::InvalidRange.message(), "invalid range");
    assert_eq!(Error::NoWorkdayFound.message(), "no workday found");
    assert_eq!(Error::ConfigurationError.message(), "configuration error");
    assert_eq!(
        Error::missing_key("intraday_borders", "start").message(),
        "key error for argment: \"intraday_borders\", key:\"start\""
    );
}

#[test]
fn a_keyed_session_needs_both_keys() {
    let whole = vec![
        ("end".to_string(), hms(11, 30, 0)),
        ("start".to_string(), hms(9, 0, 0)),
        ("start".to_string(), hms(10, 0, 0)),
    ];
    assert_eq!(
        TimeBorder::from_entries(&whole),
        Ok(TimeBorder { start: hms(9, 0, 0), end: hms(11, 30, 0) })
    );
    let no_end = vec![("start".to_string(), hms(9, 0, 0))];
    assert_eq!(
        TimeBorder::from_entries(&no_end),
        Err(Error::ArgKeyError {
            arg_name: "intraday_borders".to_string(),
            key_name: "end".to_string()
        })
    );
    let no_start = vec![("end".to_string(), hms(9, 0, 0)), ("Start".to_string(), hms(8, 0, 0))];
    assert_eq!(
        TimeBorder::from_entries(&no_start),
        Err(Error::ArgKeyError {
            arg_name: "intraday_borders".to_string(),
            key_name: "start".to_string()
        })
    );
    assert_eq!(
        TimeBorder::from_entries(&vec![]),
        Err(Error::missing_key("intraday_borders", "start"))
    );
}

#[test]
fn times_of_day_count_seconds_from_midnight() {
    assert_eq!(hms(0, 0, 0).seconds_from_midnight(), 0);
    assert_eq!(hms(9, 0, 0).seconds_from_midnight(), 32_400);
    assert_eq!(hms(11, 30, 0).seconds_from_midnight(), 41_400);
    assert_eq!(hms(23, 59, 59).seconds_from_midnight(), 86_399);
    assert_eq!(TimeOfDay::from_hms(24, 0, 0), None);
    assert_eq!(TimeOfDay::from_hms(0, 60, 0), None);
    assert_eq!(TimeOfDay::from_hms(0, 0, 60), None);
    assert_eq!(TimeOfDay::from_seconds(86_400), None);
    assert_eq!(TimeOfDay::from_seconds(45_296), Some(hms(12, 34, 56)));
    let t = hms(12, 34, 56);
    assert_eq!((t.hour(), t.minute(), t.second()), (12, 34, 56));
}

#[test]
fn datetimes_and_timestamps() {
    let epoch = DateTime::from_timestamp(0).unwrap();
    assert_eq!(epoch, DateTime::new(ymd(1970, 1, 1), hms(0, 0, 0)));
    assert_eq!(
        DateTime::from_timestamp(-1),
        Some(DateTime::new(ymd(1969, 12, 31), hms(23, 59, 59)))
    );
    assert_eq!(
        DateTime::from_timestamp(1_609_754_400),
        Some(DateTime::new(ymd(2021, 1, 4), hms(10, 0, 0)))
    );
    assert_eq!(DateTime::new(ymd(2021, 1, 4), hms(10, 0, 0)).timestamp(), 1_609_754_400);
    assert_eq!(
        DateTime::from_timestamp(-62_135_596_800),
        Some(DateTime::new(ymd(1, 1, 1), hms(0, 0, 0)))
    );
    assert_eq!(DateTime::from_timestamp(-62_135_596_801), None);
    assert_eq!(
        DateTime::from_timestamp(253_402_300_799),
        Some(DateTime::new(ymd(9999, 12, 31), hms(23, 59, 59)))
    );
    assert_eq!(DateTime::from_timestamp(253_402_300_800), None);
    assert_eq!(DateTime::from_timestamp(i64::MIN), None);
    assert_eq!(DateTime::from_timestamp(i64::MAX), None);
    for stamp in [-86_401, -86_400, -86_399, -1, 0, 1, 86_399, 86_400, 1_234_567_890] {
        assert_eq!(DateTime::from_timestamp(stamp).unwrap().timestamp(), stamp);
    }
}

#[test]
fn datetimes_from_day_and_second() {
    assert_eq!(
        DateTime::from_day_and_second(737_794, 36_000),
        Some(DateTime::new(ymd(2021, 1, 4), hms(10, 0, 0)))
    );
    assert_eq!(DateTime::from_day_and_second(0, 0), None);
    assert_eq!(DateTime::from_day_and_second(737_794, 86_400), None);
}

#[test]
fn datetimes_are_ordered_by_date_then_time() {
    let a = DateTime::new(ymd(2021, 1, 4), hms(10, 0, 0));
    let b = DateTime::new(ymd(2021, 1, 4), hms(10, 0, 1));
    let c = DateTime::new(ymd(2021, 1, 5), hms(0, 0, 0));
    assert!(a.is_before(&b));
    assert!(b.is_before(&c));
    assert!(a.is_before(&c));
    assert!(!b.is_before(&a));
    assert!(!a.is_before(&a));
    assert!(a < b && b < c);
}

#[test]
fn durations_count_seconds() {
    assert_eq!(Duration::seconds(90).num_seconds(), 90);
    assert_eq!(Duration::new(1, 30), Some(Duration::seconds(86_430)));
    assert_eq!(Duration::new(-1, 30), Some(Duration::seconds(-86_370)));
    assert_eq!(Duration::new(i64::MAX, 0), None);
    assert_eq!(Duration::new(i64::MIN, 0), None);
    assert_eq!(
        Duration::new(106_751_991_167_300, 55_807),
        Some(Duration::seconds(i64::MAX))
    );
    assert_eq!(Duration::new(106_751_991_167_300, 55_808), None);
    assert_eq!(Duration::seconds(86_399).num_days(), 0);
    assert_eq!(Duration::seconds(86_400).num_days(), 1);
    assert_eq!(Duration::seconds(-86_399).num_days(), 0);
    assert_eq!(Duration::seconds(-86_401).num_days(), -1);
    assert_eq!(Duration::seconds(i64::MIN).num_days(), -106_751_991_167_300);
    assert!(Duration::seconds(-1).is_negative());
    assert!(!Duration::seconds(0).is_negative());
}

#[test]
fn dates_are_read_from_text_and_written_as_text() {
    assert_eq!(Date::parse("2021-01-04"), Some(ymd(2021, 1, 4)));
    assert_eq!(Date::parse("2020-02-29"), Some(ymd(2020, 2, 29)));
    assert_eq!(Date::parse("2021-02-29"), None);
    assert_eq!(Date::parse("2021/01/04"), None);
    assert_eq!(Date::parse("next monday"), None);
    assert_eq!(Date::parse(""), None);
    assert_eq!(Date::parse("12000-01-01"), None);
    assert_eq!(ymd(2021, 1, 4).to_text(), "2021-01-04");
    assert_eq!(ymd(1, 1, 1).to_text(), "0001-01-01");
    assert_eq!(ymd(9999, 12, 31).to_text(), "9999-12-31");
    assert_eq!(Date::parse(&ymd(1987, 6, 5).to_text()), Some(ymd(1987, 6, 5)));
}

#[test]
fn datetimes_are_read_from_text_and_written_as_text() {
    let t = DateTime::new(ymd(2021, 1, 4), hms(10, 0, 0));
    assert_eq!(DateTime::parse("2021-01-04 10:00:00"), Some(t));
    assert_eq!(DateTime::parse("2021-01-04 24:00:00"), None);
    assert_eq!(DateTime::parse("2021-01-04"), None);
    assert_eq!(DateTime::parse("2021-01-04T10:00:00"), None);
    assert_eq!(t.to_text(), "2021-01-04 10:00:00");
    assert_eq!(
        DateTime::new(ymd(1, 1, 1), hms(23, 59, 59)).to_text(),
        "0001-01-01 23:59:59"
    );
}

#[test]
fn a_date_outside_the_calendar_is_an_invalid_range() {
    assert_eq!(Date::try_from_ymd(2021, 1, 4), Ok(ymd(2021, 1, 4)));
    assert_eq!(Date::try_from_ymd(2021, 2, 30), Err(Error::InvalidRange));
    assert_eq!(Date::try_from_ymd(0, 1, 1), Err(Error::InvalidRange));
    assert_eq!(Date::try_from_ymd(10_000, 1, 1), Err(Error::InvalidRange));
    assert_eq!(Date::try_from_ymd(i32::MAX, 1, 1), Err(Error::InvalidRange));
}

#[test]
fn durations_split_into_days_and_seconds() {
    assert_eq!(Duration::seconds(86_430).days_and_seconds(), (1, 30));
    assert_eq!(Duration::seconds(-86_430).days_and_seconds(), (-1, -30));
    assert_eq!(Duration::seconds(59).days_and_seconds(), (0, 59));
    assert_eq!(Duration::seconds(0).days_and_seconds(), (0, 0));
    let (days, seconds) = Duration::seconds(i64::MIN).days_and_seconds();
    assert_eq!(Duration::new(days, seconds), Some(Duration::seconds(i64::MIN)));
}

#[test]
fn a_window_of_years_includes_both_ends() {
    assert!(year_in_window(2016, 2016, 2021));
    assert!(year_in_window(2021, 2016, 2021));
    assert!(year_in_window(2018, 2016, 2021));
    assert!(!year_in_window(2015, 2016, 2021));
    assert!(!year_in_window(2022, 2016, 2021));
    assert!(!year_in_window(2018, 2021, 2016));
}

#[test]
fn the_message_for_a_missing_key_names_argument_and_key() {
    assert_eq!(key_error_message("\"a\"", "\"b\""), "key error for argment: \"a\", key:\"b\"");
    assert_eq!(key_error_message("", ""), "key error for argment: , key:");
    assert_eq!(
        Error::missing_key("say \"hi\"", "k").message(),
        "key error for argment: \"say \\\"hi\\\"\", key:\"k\""
    );
}

#[test]
fn a_default_calendar_is_a_new_calendar() {
    let calendar = CalendarState::default();
    assert_eq!(calendar.get_range_holidays(), vec![]);
    assert_eq!(calendar.get_holiday_weekdays(), vec![Weekday::Sat, Weekday::Sun]);
    assert_eq!(calendar.get_intraday_borders(), CalendarState::new().get_intraday_borders());
}
