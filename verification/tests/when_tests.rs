use emile::civil::{CivilDate, CivilDateTime, TimeOfDay};
use emile::outside::HumanTime;
use emile::when::{
    fix_time, is_modest, parse_time_with_ref, schedule_for, ParsedTime, TimeError, TimeKind,
};

fn time(hour: u32, minute: u32, second: u32) -> TimeOfDay {
    TimeOfDay {
        hour,
        minute,
        second,
        nanosecond: 0,
    }
}

fn day(year: i32, month: u32, day: u32) -> CivilDate {
    CivilDate { year, month, day }
}

fn ref_date() -> (CivilDateTime, TimeOfDay) {
    let def_time = time(12, 0, 0);
    let now = CivilDateTime {
        date: day(2024, 6, 27),
        time: def_time,
    };
    (now, def_time)
}

#[test]
fn test_month_in_the_past() {
    let (now, def_time) = ref_date();
    let r = parse_time_with_ref("05-27", now, &def_time).unwrap();
    assert_eq!(r.local.date.year, 2025);
    assert_eq!(r.local.date.day, 27);
    assert_eq!(r.local.date.month, 5);
    let r = parse_time_with_ref("04-27", now, &def_time).unwrap();
    assert_eq!(r.local.date.year, 2025);
    assert_eq!(r.local.date.day, 27);
    assert_eq!(r.local.date.month, 4);
}

#[test]
fn test_month_in_the_future() {
    let (now, def_time) = ref_date();
    let r = parse_time_with_ref("07-27", now, &def_time).unwrap();
    assert_eq!(r.local.date.year, 2024);
    assert_eq!(r.local.date.day, 27);
    assert_eq!(r.local.date.month, 7);
}

#[test]
fn test_day_in_the_past() {
    let (now, def_time) = ref_date();
    let r = parse_time_with_ref("26", now, &def_time).unwrap();
    assert_eq!(r.local.date.year, 2024);
    assert_eq!(r.local.date.month, 7);
    assert_eq!(r.local.date.day, 26)
}

#[test]
fn test_day_in_the_future() {
    let (now, def_time) = ref_date();
    let r = parse_time_with_ref("28", now, &def_time).unwrap();
    assert_eq!(r.local.date.year, 2024);
    assert_eq!(r.local.date.month, 6);
    assert_eq!(r.local.date.day, 28)
}

#[test]
fn a_day_is_scheduled_at_the_default_time() {
    let (now, _) = ref_date();
    let r = parse_time_with_ref("28", now, &time(9, 30, 15)).unwrap();
    assert_eq!(
        r,
        ParsedTime {
            local: CivilDateTime {
                date: day(2024, 6, 28),
                time: time(9, 30, 15),
            },
            kind: TimeKind::Date,
        }
    );
}

#[test]
fn a_time_still_to_come_is_today() {
    let (now, def_time) = ref_date();
    let r = parse_time_with_ref("13:30", now, &def_time).unwrap();
    assert_eq!(
        r,
        ParsedTime {
            local: CivilDateTime {
                date: day(2024, 6, 27),
                time: time(13, 30, 0),
            },
            kind: TimeKind::Time,
        }
    );
}

#[test]
fn a_time_that_has_passed_is_tomorrow() {
    let (now, def_time) = ref_date();
    let r = parse_time_with_ref("11:11", now, &def_time).unwrap();
    assert_eq!(
        r,
        ParsedTime {
            local: CivilDateTime {
                date: day(2024, 6, 28),
                time: time(11, 11, 0),
            },
            kind: TimeKind::Time,
        }
    );
}

#[test]
fn the_time_of_the_request_itself_is_today() {
    let (now, def_time) = ref_date();
    let r = parse_time_with_ref("12:00", now, &def_time).unwrap();
    assert_eq!(r.local.date, day(2024, 6, 27));
}

#[test]
fn a_day_and_a_time_stand_for_themselves() {
    let (now, def_time) = ref_date();
    let r = parse_time_with_ref("2024-07-01 08:15", now, &def_time).unwrap();
    assert_eq!(
        r,
        ParsedTime {
            local: CivilDateTime {
                date: day(2024, 7, 1),
                time: time(8, 15, 0),
            },
            kind: TimeKind::DateTime,
        }
    );
}

#[test]
fn a_time_may_be_told_from_now() {
    let (now, def_time) = ref_date();
    let r = parse_time_with_ref("in 3 days", now, &def_time).unwrap();
    assert_eq!(r.kind, TimeKind::DateTime);
    assert_eq!(r.local.date, day(2024, 6, 30));
    assert_eq!(r.local.time, time(12, 0, 0));
    let r = parse_time_with_ref("tomorrow", now, &def_time).unwrap();
    assert_eq!(r.kind, TimeKind::Date);
    assert_eq!(r.local.date, day(2024, 6, 28));
}

#[test]
fn what_is_not_understood_is_an_error() {
    let (now, def_time) = ref_date();
    assert_eq!(
        parse_time_with_ref("when pigs fly", now, &def_time),
        Err(TimeError::Unparsable)
    );
    assert_eq!(parse_time_with_ref("", now, &def_time), Err(TimeError::Unparsable));
}

#[test]
fn a_request_that_leads_beyond_the_calendar_is_not_read() {
    let (now, def_time) = ref_date();
    assert_eq!(
        parse_time_with_ref("in 4000000000 hours", now, &def_time),
        Err(TimeError::Unsupported)
    );
    assert_eq!(
        parse_time_with_ref("in 260000 years 9999999h", now, &def_time),
        Err(TimeError::Unsupported)
    );
    assert_eq!(
        parse_time_with_ref("in 99999999999999999999999999 s", now, &def_time),
        Err(TimeError::Unsupported)
    );
    assert!(is_modest("in 259000 years", now));
    assert!(!is_modest("in 261000 years", now));
    assert!(is_modest("in 12345678 hours", now));
    assert!(is_modest("in 00000000000000000005 days", now));
    assert!(is_modest("2024-06-28 11:11", now));
    let far = CivilDateTime {
        date: day(261_990, 1, 1),
        time: def_time,
    };
    assert!(!is_modest("tomorrow", far));
    let long_ago = CivilDateTime {
        date: day(-261_990, 1, 1),
        time: def_time,
    };
    assert!(!is_modest("yesterday", long_ago));
}

#[test]
fn a_relative_hour_minute_or_second_is_not_read() {
    let (now, def_time) = ref_date();
    for request in [
        "next hour",
        "this minute",
        "last s",
        "next h",
        "Next  Hour",
        "nexthours",
        "this m",
        "last min",
        "this second",
        "tomorrow at last sec",
        "this  sa",
    ] {
        assert!(!is_modest(request, now));
        assert_eq!(
            parse_time_with_ref(request, now, &def_time),
            Err(TimeError::Unsupported)
        );
    }
    for request in [
        "next monday",
        "next month",
        "this sunday",
        "last saturday",
        "next sat",
        "next week",
        "next year",
        "this day",
        "next",
        "last",
        "this is it",
        "the next day",
    ] {
        assert!(is_modest(request, now));
    }
}

#[test]
fn requests_with_large_numbers_of_small_units_are_read() {
    let (now, def_time) = ref_date();
    let r = parse_time_with_ref("in 10000000 seconds", now, &def_time).unwrap();
    assert_eq!(r.kind, TimeKind::DateTime);
    assert_eq!(r.local.date, day(2024, 10, 21));
    assert_eq!(r.local.time, time(5, 46, 40));
    let r = parse_time_with_ref("in 100000 hours", now, &def_time).unwrap();
    assert_eq!(r.local.date, day(2035, 11, 24));
    assert_eq!(r.local.time, time(4, 0, 0));
    let long = "in 1 day ".repeat(8);
    let r = parse_time_with_ref(&long, now, &def_time).unwrap();
    assert_eq!(r.local.date, day(2024, 6, 28));
    let r = parse_time_with_ref("next monday", now, &def_time).unwrap();
    assert_eq!(r.kind, TimeKind::Date);
    assert_eq!(r.local.date, day(2024, 7, 1));
    let r = parse_time_with_ref("this sunday", now, &def_time).unwrap();
    assert_eq!(r.local.date, day(2024, 6, 30));
}

#[test]
fn a_day_that_the_calendar_lacks_is_an_error() {
    let (now, def_time) = ref_date();
    assert_eq!(parse_time_with_ref("0", now, &def_time), Err(TimeError::NoSuchDay));
    assert_eq!(parse_time_with_ref("00", now, &def_time), Err(TimeError::NoSuchDay));
}

#[test]
fn fix_time_fills_in_year_and_month() {
    let now = day(2024, 6, 27);
    assert_eq!(fix_time("28", now), Some("2024-6-28".to_string()));
    assert_eq!(fix_time("27", now), Some("2024-6-27".to_string()));
    assert_eq!(fix_time("26", now), Some("2024-7-26".to_string()));
    assert_eq!(fix_time("5", now), Some("2024-7-5".to_string()));
    assert_eq!(fix_time("05", now), Some("2024-7-5".to_string()));
    assert_eq!(fix_time("39", now), Some("2024-7-9".to_string()));
    assert_eq!(fix_time("07-27", now), Some("2024-7-27".to_string()));
    assert_eq!(fix_time("7-1", now), Some("2024-8-1".to_string()));
    assert_eq!(fix_time("06-28", now), Some("2024-6-28".to_string()));
    assert_eq!(fix_time("05-27", now), Some("2025-5-27".to_string()));
    assert_eq!(fix_time("12-31", now), Some("2024-12-31".to_string()));
}

#[test]
fn fix_time_takes_the_day_of_today_for_a_month_that_is_past() {
    let now = day(2024, 6, 27);
    assert_eq!(fix_time("05-10", now), Some("2025-5-27".to_string()));
    assert_eq!(fix_time("1-1", now), Some("2025-1-27".to_string()));
}

#[test]
fn fix_time_leaves_other_requests_alone() {
    let now = day(2024, 6, 27);
    assert_eq!(fix_time("tomorrow", now), Some("tomorrow".to_string()));
    assert_eq!(fix_time("2024-06-28", now), Some("2024-06-28".to_string()));
    assert_eq!(fix_time("40", now), Some("40".to_string()));
    assert_eq!(fix_time("123", now), Some("123".to_string()));
    assert_eq!(fix_time("20-01", now), Some("20-01".to_string()));
    assert_eq!(fix_time("01-40", now), Some("01-40".to_string()));
    assert_eq!(fix_time("-5", now), Some("-5".to_string()));
    assert_eq!(fix_time("5-", now), Some("5-".to_string()));
    assert_eq!(fix_time("11:11", now), Some("11:11".to_string()));
    assert_eq!(fix_time("", now), Some("".to_string()));
}

#[test]
fn fix_time_counts_with_the_calendar() {
    assert_eq!(fix_time("30", day(2024, 1, 31)), Some("2024-2-29".to_string()));
    assert_eq!(fix_time("30", day(2023, 1, 31)), Some("2023-2-28".to_string()));
    assert_eq!(fix_time("31", day(2024, 6, 27)), Some("2024-7-1".to_string()));
    assert_eq!(fix_time("1", day(2024, 12, 31)), Some("2025-1-1".to_string()));
    assert_eq!(fix_time("0", day(2024, 6, 27)), None);
    assert_eq!(fix_time("28", day(2024, 13, 27)), None);
    assert_eq!(fix_time("01-05", day(2024, 13, 27)), None);
}

#[test]
fn the_day_after_the_last_day_is_out_of_range() {
    let last = CivilDateTime {
        date: day(262_142, 12, 31),
        time: time(12, 0, 0),
    };
    let earlier = HumanTime {
        date: None,
        time: Some(time(11, 0, 0)),
    };
    let later = HumanTime {
        date: None,
        time: Some(time(13, 0, 0)),
    };
    assert_eq!(
        schedule_for(earlier, last, &time(12, 0, 0)),
        Err(TimeError::OutOfRange)
    );
    assert_eq!(
        schedule_for(later, last, &time(12, 0, 0)).map(|p| p.local.date),
        Ok(day(262_142, 12, 31))
    );
    let nothing = HumanTime {
        date: None,
        time: None,
    };
    assert_eq!(
        schedule_for(nothing, last, &time(12, 0, 0)),
        Err(TimeError::Unparsable)
    );
}

#[test]
fn the_default_time_is_taken_to_the_second() {
    let (now, _) = ref_date();
    let default_time = TimeOfDay {
        hour: 9,
        minute: 30,
        second: 15,
        nanosecond: 123,
    };
    let parsed = HumanTime {
        date: Some(day(2024, 7, 1)),
        time: None,
    };
    assert_eq!(
        schedule_for(parsed, now, &default_time),
        Ok(ParsedTime {
            local: CivilDateTime {
                date: day(2024, 7, 1),
                time: time(9, 30, 15),
            },
            kind: TimeKind::Date,
        })
    );
}

fn vocabulary() -> Vec<&'static str> {
    vec![
        "this", "next", "last", "in", "a", "an", "ago", "at", "now", "today", "tomorrow",
        "yesterday", "overmorrow", "upcoming", "and", ",", "year", "years", "month", "months",
        "week", "weeks", "day", "days", "d", "hour", "hours", "h", "minute", "minutes", "min",
        "mins", "m", "second", "seconds", "sec", "secs", "s", "monday", "mon", "tuesday", "wed",
        "thu", "friday", "saturday", "sat", "sunday", "sun", "january", "mar", "may", "sep",
        "december", "5", "12:30", "2024-07-01", "262142", "0", "31", "sa", "su", "mo", "THIS",
        "Next", "H", "Sec",
    ]
}

#[test]
fn every_request_gets_an_answer() {
    let def_time = time(12, 0, 0);
    let moments = [
        ref_date().0,
        CivilDateTime {
            date: day(261_000, 12, 31),
            time: time(23, 59, 59),
        },
        CivilDateTime {
            date: day(-261_000, 1, 1),
            time: time(0, 0, 0),
        },
    ];
    let words = vocabulary();
    let mut asked = 0usize;
    for now in moments {
        for first in &words {
            for second in &words {
                for gap in ["", " ", "  "] {
                    let request = format!("{first}{gap}{second}");
                    let _ = parse_time_with_ref(&request, now, &def_time);
                    asked += 1;
                }
            }
        }
    }
    let now = ref_date().0;
    for first in &words {
        for second in &words {
            for third in ["ago", "h ago", "years", "s", "at 12:30", "ago at next", "next s"] {
                let request = format!("{first} {second} {third}");
                let _ = parse_time_with_ref(&request, now, &def_time);
                let request = format!("in 9 {first} {second} {third}");
                let _ = parse_time_with_ref(&request, now, &def_time);
                asked += 2;
            }
        }
    }
    for number in [
        "0", "1", "99", "262142", "262143", "999999", "9999999", "99999999", "4294967295",
        "4294967296", "99999999999999999999", "4294705153", "4294705152", "4294967294",
        "2147483648",
    ] {
        for unit in ["years", "months", "weeks", "days", "h", "m", "s", ""] {
            for now in moments {
                for request in [
                    format!("in {number} {unit}"),
                    format!("{number} {unit} ago"),
                    format!("in {number}{unit} and {number} {unit}, {number} {unit}"),
                    format!("{number} {unit} ago at 262142-12-31"),
                    format!("{number} {unit} ago {number}-01-01"),
                    format!("in 260000 years {number} {unit}"),
                    format!("1 jan {number} {unit}"),
                    format!("13 h ago 1 jan {number} {unit}"),
                    format!("13 h ago at 1 January{number}{unit}"),
                    format!("13 h ago 12:30, 1 dec  {number} {unit}"),
                    format!("13 h ago {number}-01-01 {unit}"),
                ] {
                    let _ = parse_time_with_ref(&request, now, &def_time);
                    asked += 1;
                }
            }
        }
    }
    assert!(asked > 10_000);
}

#[test]
fn a_number_behind_a_month_counts_as_a_year() {
    let (now, def_time) = ref_date();
    assert!(is_modest("1 jan 2030 s", now));
    assert!(!is_modest("13 h ago 1 jan 4294705153 s", now));
    assert!(!is_modest("13 h ago 1 January  4294705153s", now));
    assert!(is_modest("in 4294705153 s", now));
    assert!(is_modest("in 3000000000 seconds", now));
    let r = parse_time_with_ref("5 july 2030", now, &def_time).unwrap();
    assert_eq!(r.local.date, day(2030, 7, 5));
    let r = parse_time_with_ref("in 3000000000 seconds", now, &def_time).unwrap();
    assert_eq!(r.local.date, day(2119, 7, 22));
}
