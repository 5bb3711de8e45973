use workdays::{
    BorderSymbol, CalendarState, Date, DateTime, Duration, Error, IntradayState, TimeBorder,
    TimeOfDay, Weekday,
};

fn at(year: i32, month: u32, day: u32, hour: u32, minute: u32, second: u32) -> DateTime {
    DateTime::new(
        Date::from_ymd(year, month, day).unwrap(),
        TimeOfDay::from_hms(hour, minute, second).unwrap(),
    )
}

fn monday(hour: u32, minute: u32) -> DateTime {
    at(2021, 1, 4, hour, minute, 0)
}

fn session(from: (u32, u32), to: (u32, u32)) -> TimeBorder {
    TimeBorder {
        start: TimeOfDay::from_hms(from.0, from.1, 0).unwrap(),
        end: TimeOfDay::from_hms(to.0, to.1, 0).unwrap(),
    }
}

fn new_year_calendar() -> CalendarState {
    let mut calendar = CalendarState::new();
    calendar.set_range_holidays(&vec![Date::from_ymd(2021, 1, 1).unwrap()], 2016, 2021);
    calendar
}

fn calendar_with(sessions: Vec<TimeBorder>) -> CalendarState {
    let mut calendar = new_year_calendar();
    calendar.set_intraday_borders(&sessions).unwrap();
    calendar
}

#[test]
fn business_time_is_session_time_on_working_days() {
    let calendar = new_year_calendar();
    assert!(calendar.check_workday_intraday(monday(9, 0)));
    assert!(calendar.check_workday_intraday(monday(10, 0)));
    assert!(calendar.check_workday_intraday(at(2021, 1, 4, 11, 29, 59)));
    assert!(!calendar.check_workday_intraday(monday(11, 30)));
    assert!(!calendar.check_workday_intraday(monday(12, 0)));
    assert!(calendar.check_workday_intraday(monday(12, 30)));
    assert!(!calendar.check_workday_intraday(monday(15, 0)));
    assert!(!calendar.check_workday_intraday(monday(8, 59)));
}

#[test]
fn no_time_of_a_day_without_work_is_business_time() {
    let calendar = new_year_calendar();
    for hour in 0..24 {
        assert!(!calendar.check_workday_intraday(at(2021, 1, 1, hour, 0, 0)));
        assert!(!calendar.check_workday_intraday(at(2021, 1, 2, hour, 30, 0)));
        assert!(!calendar.check_workday_intraday(at(2021, 1, 3, hour, 59, 59)));
    }
}

#[test]
fn datetimes_are_classified_against_the_sessions() {
    let calendar = new_year_calendar();
    assert_eq!(calendar.classify_intraday(monday(8, 0)), IntradayState::BeforeOpen);
    assert_eq!(calendar.classify_intraday(monday(9, 0)), IntradayState::InSession);
    assert_eq!(calendar.classify_intraday(monday(10, 0)), IntradayState::InSession);
    assert_eq!(calendar.classify_intraday(monday(11, 30)), IntradayState::InBreak);
    assert_eq!(calendar.classify_intraday(monday(12, 0)), IntradayState::InBreak);
    assert_eq!(calendar.classify_intraday(monday(12, 30)), IntradayState::InSession);
    assert_eq!(calendar.classify_intraday(at(2021, 1, 4, 14, 59, 59)), IntradayState::InSession);
    assert_eq!(calendar.classify_intraday(monday(15, 0)), IntradayState::AfterClose);
    assert_eq!(calendar.classify_intraday(monday(23, 0)), IntradayState::AfterClose);
    assert_eq!(calendar.classify_intraday(at(2021, 1, 2, 10, 0, 0)), IntradayState::NonWorkingDay);
    assert_eq!(calendar.classify_intraday(at(2021, 1, 1, 10, 0, 0)), IntradayState::NonWorkingDay);
}

#[test]
fn next_border_within_a_session_is_its_end() {
    let calendar = new_year_calendar();
    assert_eq!(
        calendar.get_next_border_workday_intraday(monday(10, 0)),
        Ok((monday(11, 30), BorderSymbol::End))
    );
}

#[test]
fn next_border_lies_strictly_after() {
    let calendar = new_year_calendar();
    assert_eq!(
        calendar.get_next_border_workday_intraday(monday(9, 0)),
        Ok((monday(11, 30), BorderSymbol::End))
    );
    assert_eq!(
        calendar.get_next_border_workday_intraday(monday(11, 30)),
        Ok((monday(12, 30), BorderSymbol::Start))
    );
    assert_eq!(
        calendar.get_next_border_workday_intraday(monday(8, 0)),
        Ok((monday(9, 0), BorderSymbol::Start))
    );
    assert_eq!(
        calendar.get_next_border_workday_intraday(at(2021, 1, 4, 8, 59, 59)),
        Ok((monday(9, 0), BorderSymbol::Start))
    );
}

#[test]
fn next_border_crosses_days_without_work() {
    let calendar = new_year_calendar();
    assert_eq!(
        calendar.get_next_border_workday_intraday(monday(15, 0)),
        Ok((at(2021, 1, 5, 9, 0, 0), BorderSymbol::Start))
    );
    assert_eq!(
        calendar.get_next_border_workday_intraday(at(2021, 1, 1, 10, 0, 0)),
        Ok((monday(9, 0), BorderSymbol::Start))
    );
    assert_eq!(
        calendar.get_next_border_workday_intraday(at(2020, 12, 31, 15, 0, 0)),
        Ok((monday(9, 0), BorderSymbol::Start))
    );
}

#[test]
fn previous_border_lies_strictly_before() {
    let calendar = new_year_calendar();
    let eve = at(2020, 12, 31, 15, 0, 0);
    assert_eq!(
        calendar.get_previous_border_workday_intraday(monday(12, 0), false),
        Ok((monday(11, 30), BorderSymbol::End))
    );
    assert_eq!(
        calendar.get_previous_border_workday_intraday(monday(11, 30), false),
        Ok((monday(9, 0), BorderSymbol::Start))
    );
    assert_eq!(
        calendar.get_previous_border_workday_intraday(monday(13, 0), false),
        Ok((monday(12, 30), BorderSymbol::Start))
    );
    assert_eq!(
        calendar.get_previous_border_workday_intraday(monday(16, 0), false),
        Ok((monday(15, 0), BorderSymbol::End))
    );
    assert_eq!(
        calendar.get_previous_border_workday_intraday(monday(9, 0), false),
        Ok((eve, BorderSymbol::End))
    );
    assert_eq!(
        calendar.get_previous_border_workday_intraday(at(2021, 1, 2, 10, 0, 0), false),
        Ok((eve, BorderSymbol::End))
    );
}

#[test]
fn previous_border_forced_to_an_end_skips_starts() {
    let calendar = new_year_calendar();
    let eve = at(2020, 12, 31, 15, 0, 0);
    assert_eq!(
        calendar.get_previous_border_workday_intraday(monday(13, 0), true),
        Ok((monday(11, 30), BorderSymbol::End))
    );
    assert_eq!(
        calendar.get_previous_border_workday_intraday(monday(11, 30), true),
        Ok((eve, BorderSymbol::End))
    );
    assert_eq!(
        calendar.get_previous_border_workday_intraday(monday(10, 0), true),
        Ok((eve, BorderSymbol::End))
    );
    assert_eq!(
        calendar.get_previous_border_workday_intraday(monday(16, 0), true),
        Ok((monday(15, 0), BorderSymbol::End))
    );
}

#[test]
fn nearest_border_in_the_midday_break() {
    let calendar = new_year_calendar();
    assert_eq!(
        calendar.get_near_workday_intraday(monday(12, 0), true),
        Ok((monday(12, 30), BorderSymbol::Start))
    );
    assert_eq!(
        calendar.get_near_workday_intraday(monday(12, 0), false),
        Ok((monday(11, 30), BorderSymbol::End))
    );
}

#[test]
fn nearest_border_within_a_session_is_the_datetime_itself() {
    let calendar = new_year_calendar();
    assert_eq!(
        calendar.get_near_workday_intraday(monday(10, 0), true),
        Ok((monday(10, 0), BorderSymbol::Intra))
    );
    assert_eq!(
        calendar.get_near_workday_intraday(monday(10, 0), false),
        Ok((monday(10, 0), BorderSymbol::Intra))
    );
    assert_eq!(
        calendar.get_near_workday_intraday(monday(9, 0), false),
        Ok((monday(9, 0), BorderSymbol::Intra))
    );
    assert_eq!(
        calendar.get_near_workday_intraday(at(2021, 1, 2, 10, 0, 0), true),
        Ok((monday(9, 0), BorderSymbol::Start))
    );
}

#[test]
fn border_symbols_have_names() {
    assert_eq!(BorderSymbol::Start.name(), "border_start");
    assert_eq!(BorderSymbol::End.name(), "border_end");
    assert_eq!(BorderSymbol::Intra.name(), "border_intra");
}

#[test]
fn adding_an_hour_across_the_midday_break() {
    let calendar = new_year_calendar();
    assert_eq!(
        calendar.add_workday_intraday_datetime(monday(11, 0), Duration::seconds(3600)),
        Ok(monday(13, 0))
    );
}

#[test]
fn adding_nothing_within_a_session_changes_nothing() {
    let calendar = new_year_calendar();
    for minute in 0..60 {
        let t = monday(10, minute);
        assert_eq!(calendar.add_workday_intraday_datetime(t, Duration::seconds(0)), Ok(t));
    }
    assert_eq!(
        calendar.add_workday_intraday_datetime(monday(9, 0), Duration::seconds(0)),
        Ok(monday(9, 0))
    );
}

#[test]
fn adding_lands_within_a_session() {
    let calendar = new_year_calendar();
    assert_eq!(
        calendar.add_workday_intraday_datetime(monday(12, 0), Duration::seconds(0)),
        Ok(monday(12, 30))
    );
    assert_eq!(
        calendar.add_workday_intraday_datetime(monday(11, 0), Duration::seconds(1800)),
        Ok(monday(12, 30))
    );
    assert_eq!(
        calendar.add_workday_intraday_datetime(monday(11, 0), Duration::seconds(1799)),
        Ok(at(2021, 1, 4, 11, 29, 59))
    );
    assert_eq!(
        calendar.add_workday_intraday_datetime(monday(14, 0), Duration::seconds(3600)),
        Ok(at(2021, 1, 5, 9, 0, 0))
    );
}

#[test]
fn adding_skips_days_without_work() {
    let calendar = new_year_calendar();
    assert_eq!(
        calendar.add_workday_intraday_datetime(at(2021, 1, 1, 0, 0, 0), Duration::seconds(7200)),
        Ok(monday(11, 0))
    );
    assert_eq!(
        calendar.add_workday_intraday_datetime(monday(10, 0), Duration::seconds(5 * 3600)),
        Ok(at(2021, 1, 5, 10, 0, 0))
    );
    assert_eq!(
        calendar.add_workday_intraday_datetime(
            at(2020, 12, 31, 14, 0, 0),
            Duration::new(0, 2 * 3600).unwrap()
        ),
        Ok(monday(10, 0))
    );
}

#[test]
fn a_negative_length_is_refused() {
    let calendar = new_year_calendar();
    assert_eq!(
        calendar.add_workday_intraday_datetime(monday(10, 0), Duration::seconds(-1)),
        Err(Error::InvalidRange)
    );
    assert_eq!(
        calendar.sub_workday_intraday_datetime(monday(10, 0), Duration::seconds(-3600)),
        Err(Error::InvalidRange)
    );
}

#[test]
fn subtracting_an_hour_across_the_midday_break() {
    let calendar = new_year_calendar();
    assert_eq!(
        calendar.sub_workday_intraday_datetime(monday(13, 0), Duration::seconds(3600)),
        Ok(monday(11, 0))
    );
    assert_eq!(
        calendar.sub_workday_intraday_datetime(monday(10, 0), Duration::seconds(1800)),
        Ok(monday(9, 30))
    );
}

#[test]
fn subtracting_lands_at_the_end_of_a_business_second() {
    let calendar = new_year_calendar();
    assert_eq!(
        calendar.sub_workday_intraday_datetime(monday(12, 0), Duration::seconds(0)),
        Ok(monday(11, 30))
    );
    assert_eq!(
        calendar.sub_workday_intraday_datetime(monday(12, 30), Duration::seconds(0)),
        Ok(monday(11, 30))
    );
    assert_eq!(
        calendar.sub_workday_intraday_datetime(at(2021, 1, 4, 12, 30, 1), Duration::seconds(0)),
        Ok(at(2021, 1, 4, 12, 30, 1))
    );
    assert_eq!(
        calendar.sub_workday_intraday_datetime(monday(10, 0), Duration::seconds(3600)),
        Ok(at(2020, 12, 31, 15, 0, 0))
    );
    assert_eq!(
        calendar.sub_workday_intraday_datetime(at(2021, 1, 5, 10, 0, 0), Duration::seconds(18_000)),
        Ok(monday(10, 0))
    );
}

#[test]
fn business_time_between_two_datetimes() {
    let calendar = new_year_calendar();
    assert_eq!(
        calendar.get_timedelta_workdays_intraday(monday(11, 0), monday(13, 0)).num_seconds(),
        3600
    );
    assert_eq!(
        calendar
            .get_timedelta_workdays_intraday(monday(10, 0), at(2021, 1, 5, 10, 0, 0))
            .num_seconds(),
        18_000
    );
    assert_eq!(
        calendar
            .get_timedelta_workdays_intraday(monday(0, 0), at(2021, 1, 5, 0, 0, 0))
            .num_seconds(),
        18_000
    );
    assert_eq!(
        calendar
            .get_timedelta_workdays_intraday(at(2021, 1, 1, 0, 0, 0), monday(0, 0))
            .num_seconds(),
        0
    );
    assert_eq!(
        calendar
            .get_timedelta_workdays_intraday(at(2020, 12, 31, 14, 0, 0), at(2021, 1, 8, 9, 30, 0))
            .num_seconds(),
        3600 + 4 * 18_000 + 1800
    );
}

#[test]
fn business_time_from_a_datetime_to_itself_is_zero() {
    let calendar = new_year_calendar();
    for hour in 0..24 {
        let t = monday(hour, 15);
        assert_eq!(calendar.get_timedelta_workdays_intraday(t, t), Duration::seconds(0));
    }
}

#[test]
fn business_time_backward_is_the_negative_of_forward() {
    let calendar = new_year_calendar();
    let marks = [
        at(2020, 12, 30, 10, 0, 0),
        at(2021, 1, 1, 12, 0, 0),
        monday(9, 0),
        monday(11, 45),
        at(2021, 1, 6, 14, 59, 59),
        at(2021, 1, 10, 23, 59, 59),
    ];
    for a in marks {
        for b in marks {
            let forward = calendar.get_timedelta_workdays_intraday(a, b).num_seconds();
            let backward = calendar.get_timedelta_workdays_intraday(b, a).num_seconds();
            assert_eq!(forward, -backward);
        }
    }
    assert_eq!(
        calendar
            .get_timedelta_workdays_intraday(at(2021, 1, 5, 10, 0, 0), monday(10, 0))
            .num_seconds(),
        -18_000
    );
}

#[test]
fn adding_then_measuring_gives_the_length_back() {
    let calendar = new_year_calendar();
    let t = monday(10, 20);
    for seconds in [0, 1, 59, 4199, 4200, 4201, 18_000, 50_000, 123_456] {
        let there = calendar.add_workday_intraday_datetime(t, Duration::seconds(seconds)).unwrap();
        assert!(calendar.check_workday_intraday(there));
        assert_eq!(calendar.get_timedelta_workdays_intraday(t, there).num_seconds(), seconds);
        let back = calendar.sub_workday_intraday_datetime(there, Duration::seconds(seconds));
        assert_eq!(
            calendar.get_timedelta_workdays_intraday(back.unwrap(), there).num_seconds(),
            seconds
        );
    }
}

#[test]
fn the_search_ends_with_the_calendar() {
    let calendar = CalendarState::new();
    let last_close = at(9999, 12, 31, 15, 0, 0);
    assert_eq!(
        calendar.get_next_border_workday_intraday(at(9999, 12, 31, 14, 0, 0)),
        Ok((last_close, BorderSymbol::End))
    );
    assert_eq!(
        calendar.get_next_border_workday_intraday(last_close),
        Err(Error::NoWorkdayFound)
    );
    assert_eq!(
        calendar.get_near_workday_intraday(last_close, true),
        Err(Error::NoWorkdayFound)
    );
    assert_eq!(
        calendar.add_workday_intraday_datetime(at(9999, 12, 31, 14, 0, 0), Duration::seconds(3599)),
        Ok(at(9999, 12, 31, 14, 59, 59))
    );
    assert_eq!(
        calendar.add_workday_intraday_datetime(at(9999, 12, 31, 14, 0, 0), Duration::seconds(3600)),
        Err(Error::NoWorkdayFound)
    );
    let first_open = at(1, 1, 1, 9, 0, 0);
    assert_eq!(
        calendar.get_previous_border_workday_intraday(at(1, 1, 1, 10, 0, 0), false),
        Ok((first_open, BorderSymbol::Start))
    );
    assert_eq!(
        calendar.get_previous_border_workday_intraday(first_open, false),
        Err(Error::NoWorkdayFound)
    );
    assert_eq!(
        calendar.get_previous_border_workday_intraday(at(1, 1, 1, 10, 0, 0), true),
        Err(Error::NoWorkdayFound)
    );
    assert_eq!(
        calendar.sub_workday_intraday_datetime(at(1, 1, 1, 10, 0, 0), Duration::seconds(3599)),
        Ok(at(1, 1, 1, 9, 0, 1))
    );
    assert_eq!(
        calendar.sub_workday_intraday_datetime(at(1, 1, 1, 10, 0, 0), Duration::seconds(3600)),
        Err(Error::NoWorkdayFound)
    );
}

#[test]
fn a_calendar_without_sessions_has_no_business_time() {
    let calendar = calendar_with(vec![]);
    assert!(!calendar.check_workday_intraday(monday(10, 0)));
    assert_eq!(calendar.classify_intraday(monday(10, 0)), IntradayState::AfterClose);
    assert_eq!(
        calendar.get_next_border_workday_intraday(monday(10, 0)),
        Err(Error::NoWorkdayFound)
    );
    assert_eq!(
        calendar.get_previous_border_workday_intraday(monday(10, 0), false),
        Err(Error::NoWorkdayFound)
    );
    assert_eq!(
        calendar.add_workday_intraday_datetime(at(9999, 12, 1, 10, 0, 0), Duration::seconds(0)),
        Err(Error::NoWorkdayFound)
    );
    assert_eq!(
        calendar.sub_workday_intraday_datetime(at(1, 1, 31, 10, 0, 0), Duration::seconds(0)),
        Err(Error::NoWorkdayFound)
    );
    assert_eq!(
        calendar
            .get_timedelta_workdays_intraday(monday(0, 0), at(2021, 1, 8, 0, 0, 0))
            .num_seconds(),
        0
    );
}

#[test]
fn a_calendar_without_working_days_has_no_borders() {
    let mut calendar = CalendarState::new();
    calendar.set_holiday_weekdays(&vec![
        Weekday::Mon,
        Weekday::Tue,
        Weekday::Wed,
        Weekday::Thu,
        Weekday::Fri,
        Weekday::Sat,
        Weekday::Sun,
    ]);
    assert_eq!(
        calendar.get_next_border_workday_intraday(at(9999, 12, 1, 10, 0, 0)),
        Err(Error::NoWorkdayFound)
    );
    assert_eq!(
        calendar.get_previous_border_workday_intraday(at(1, 1, 31, 10, 0, 0), false),
        Err(Error::NoWorkdayFound)
    );
    assert_eq!(
        calendar.add_workday_intraday_datetime(at(9999, 12, 1, 10, 0, 0), Duration::seconds(1)),
        Err(Error::NoWorkdayFound)
    );
}

#[test]
fn sessions_out_of_order_give_the_same_borders() {
    let calendar = calendar_with(vec![session((12, 30), (15, 0)), session((9, 0), (11, 30))]);
    assert_eq!(
        calendar.get_next_border_workday_intraday(monday(10, 0)),
        Ok((monday(11, 30), BorderSymbol::End))
    );
    assert_eq!(
        calendar.get_previous_border_workday_intraday(monday(13, 0), true),
        Ok((monday(11, 30), BorderSymbol::End))
    );
    assert_eq!(
        calendar.add_workday_intraday_datetime(monday(11, 0), Duration::seconds(3600)),
        Ok(monday(13, 0))
    );
    assert_eq!(
        calendar
            .get_timedelta_workdays_intraday(monday(0, 0), at(2021, 1, 5, 0, 0, 0))
            .num_seconds(),
        18_000
    );
}

#[test]
fn sessions_that_overlap_count_their_time_once() {
    let calendar = calendar_with(vec![session((9, 0), (12, 0)), session((11, 0), (13, 0))]);
    assert_eq!(
        calendar.get_timedelta_workdays_intraday(monday(9, 0), monday(13, 0)).num_seconds(),
        4 * 3600
    );
    assert_eq!(
        calendar.add_workday_intraday_datetime(monday(9, 0), Duration::seconds(3 * 3600 + 1800)),
        Ok(monday(12, 30))
    );
    assert_eq!(
        calendar.get_next_border_workday_intraday(monday(9, 30)),
        Ok((monday(11, 0), BorderSymbol::Start))
    );
    assert_eq!(
        calendar.get_next_border_workday_intraday(monday(11, 0)),
        Ok((monday(12, 0), BorderSymbol::End))
    );
    assert!(calendar.check_workday_intraday(monday(12, 30)));
}

#[test]
fn sessions_that_touch_share_a_border() {
    let calendar = calendar_with(vec![session((9, 0), (11, 0)), session((11, 0), (12, 0))]);
    assert_eq!(
        calendar.get_next_border_workday_intraday(monday(10, 0)),
        Ok((monday(11, 0), BorderSymbol::End))
    );
    assert_eq!(
        calendar.get_next_border_workday_intraday(monday(11, 0)),
        Ok((monday(12, 0), BorderSymbol::End))
    );
    assert_eq!(
        calendar.get_previous_border_workday_intraday(monday(11, 30), false),
        Ok((monday(11, 0), BorderSymbol::Start))
    );
    assert_eq!(
        calendar.get_previous_border_workday_intraday(monday(11, 30), true),
        Ok((monday(11, 0), BorderSymbol::End))
    );
    assert_eq!(
        calendar.add_workday_intraday_datetime(monday(10, 0), Duration::seconds(3600)),
        Ok(monday(11, 0))
    );
}

#[test]
fn timestamps_are_marked_by_day_and_by_session() {
    let calendar = new_year_calendar();
    let stamps = vec![
        monday(10, 0).timestamp(),
        monday(12, 0).timestamp(),
        at(2021, 1, 2, 10, 0, 0).timestamp(),
        at(2021, 1, 1, 10, 0, 0).timestamp(),
        monday(15, 0).timestamp(),
    ];
    assert_eq!(
        calendar.extract_workdays_bool(&stamps),
        Ok(vec![true, true, false, false, true])
    );
    assert_eq!(
        calendar.extract_intraday_bool(&stamps),
        Ok(vec![true, false, false, false, false])
    );
    assert_eq!(
        calendar.extract_workdays_intraday_bool(&stamps),
        Ok(vec![true, false, false, false, false])
    );
    assert_eq!(calendar.extract_workdays_bool(&vec![]), Ok(vec![]));
}

#[test]
fn marks_follow_the_single_checks() {
    let calendar = new_year_calendar();
    let mut stamps = Vec::new();
    let mut stamp = at(2020, 12, 30, 0, 0, 0).timestamp();
    while stamp < at(2021, 1, 6, 0, 0, 0).timestamp() {
        stamps.push(stamp);
        stamp += 1700;
    }
    let by_day = calendar.extract_workdays_bool(&stamps).unwrap();
    let by_time = calendar.extract_intraday_bool(&stamps).unwrap();
    let by_both = calendar.extract_workdays_intraday_bool(&stamps).unwrap();
    assert_eq!(by_day.len(), stamps.len());
    assert_eq!(by_time.len(), stamps.len());
    assert_eq!(by_both.len(), stamps.len());
    for (i, stamp) in stamps.iter().enumerate() {
        let t = DateTime::from_timestamp(*stamp).unwrap();
        assert_eq!(by_day[i], calendar.check_workday(t.date));
        assert_eq!(by_time[i], calendar.check_workday_intraday(t));
        assert_eq!(by_both[i], calendar.check_workday(t.date) && calendar.check_workday_intraday(t));
    }
}

#[test]
fn a_timestamp_outside_the_calendar_is_refused() {
    let calendar = new_year_calendar();
    let stamps = vec![monday(10, 0).timestamp(), i64::MAX];
    assert_eq!(calendar.extract_workdays_bool(&stamps), Err(Error::InvalidRange));
    assert_eq!(calendar.extract_intraday_bool(&stamps), Err(Error::InvalidRange));
    assert_eq!(calendar.extract_workdays_intraday_bool(&stamps), Err(Error::InvalidRange));
    assert_eq!(calendar.extract_workdays_bool(&vec![i64::MIN]), Err(Error::InvalidRange));
    assert_eq!(calendar.extract_workdays_bool(&vec![253_402_300_800]), Err(Error::InvalidRange));
    assert_eq!(calendar.extract_workdays_bool(&vec![253_402_300_799]), Ok(vec![true]));
}
