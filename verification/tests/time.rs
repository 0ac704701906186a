use cic2nf::cic::parser::{
    choose_correction, next_period, CICDdos2019Parser, CICIds2017Parser, FuzzyTimePeriod,
    TimestampParser,
};
use cic2nf::cic::parser::Correction::{Earlier, Keep, Later};
use cic2nf::cic::parser::FuzzyTimePeriod::{Afternoon, Midnight, Morning, Noon};
use cic2nf::cic::time::{
    str_to_timestamp, time_format_at, FlowTimeStamp, TimestampError, N_TIME_FORMATS, TWELVE_HOURS,
};

const DAY: i64 = 1_499_040_000; // 2017-07-03 00:00:00

fn at(hour: i64, minute: i64) -> FlowTimeStamp {
    FlowTimeStamp::new(DAY + hour * 3600 + minute * 60, 0)
}

fn bare(period: FuzzyTimePeriod) -> TimestampParser {
    TimestampParser {
        is_twelve_hour_clock: true,
        time_period: period,
        timestamp_pattern: "%e/%m/%Y %k:%M".to_string(),
    }
}

#[test]
fn the_hour_of_the_day() {
    assert_eq!(at(0, 0).hour(), 0);
    assert_eq!(at(9, 59).hour(), 9);
    assert_eq!(at(23, 59).hour(), 23);
    assert_eq!(FlowTimeStamp::new(-1, 0).hour(), 23);
    assert_eq!(FlowTimeStamp::new(-86_400, 0).hour(), 0);
    assert_eq!(FlowTimeStamp::new(-3_601, 0).hour(), 22);
    let t = chrono::NaiveDate::from_ymd_opt(1969, 12, 31).unwrap().and_hms_opt(17, 5, 9).unwrap();
    assert_eq!(FlowTimeStamp::new(t.and_utc().timestamp(), 0).hour(), 17);
}

#[test]
fn timestamps_are_ordered_by_seconds_and_then_by_nanoseconds() {
    let a = FlowTimeStamp::new(5, 900);
    let b = FlowTimeStamp::new(6, 0);
    let c = FlowTimeStamp::new(6, 1);
    assert!(a.precedes(b));
    assert!(b.precedes(c));
    assert!(!c.precedes(b));
    assert!(!b.precedes(b));
    assert!(a < b && b < c);
    assert_eq!(b, FlowTimeStamp::new(6, 0));
}

#[test]
fn a_timestamp_is_written_with_milliseconds() {
    assert_eq!(at(9, 59).to_text().unwrap(), "2017-07-03 09:59:00.000");
    assert_eq!(
        FlowTimeStamp::new(DAY + 86_399, 123_456_789).to_text().unwrap(),
        "2017-07-03 23:59:59.123"
    );
    assert_eq!(FlowTimeStamp::new(0, 0).to_text().unwrap(), "1970-01-01 00:00:00.000");
    assert_eq!(FlowTimeStamp::new(i64::MAX, 0).to_text(), None);
    assert_eq!(FlowTimeStamp::new(0, 2_000_000_000).to_text(), None);
}

#[test]
fn a_timestamp_is_moved_by_seconds() {
    assert_eq!(at(1, 30).moved(TWELVE_HOURS), Some(at(13, 30)));
    assert_eq!(at(13, 30).moved(-TWELVE_HOURS), Some(at(1, 30)));
    assert_eq!(at(13, 30).moved(TWELVE_HOURS), Some(FlowTimeStamp::new(DAY + 86_400 + 5_400, 0)));
    assert_eq!(FlowTimeStamp::new(5, 7).moved(0), Some(FlowTimeStamp::new(5, 7)));
    for (secs, nanos, by) in [(0, 0, 1), (DAY, 999_999_999, -86_400), (-1, 5, 43_200), (59, 0, -60)] {
        assert_eq!(
            FlowTimeStamp::new(secs, nanos).moved(by),
            Some(FlowTimeStamp::new(secs + by, nanos))
        );
    }
    let leap = FlowTimeStamp::new(DAY + 59, 1_300_000_000);
    assert_eq!(leap.moved(10), Some(FlowTimeStamp::new(DAY + 69, 300_000_000)));
    assert_eq!(leap.moved(0), Some(leap));
    assert_eq!(FlowTimeStamp::new(DAY + 58, 1_300_000_000).moved(0), None);
    let last = chrono::NaiveDateTime::MAX.and_utc().timestamp();
    assert_eq!(FlowTimeStamp::new(last, 0).moved(TWELVE_HOURS), None);
    assert_eq!(FlowTimeStamp::new(i64::MAX, 0).moved(0), None);
}

#[test]
fn the_known_patterns() {
    assert_eq!(N_TIME_FORMATS, 5);
    assert_eq!(time_format_at(0), "%e/%m/%Y %l:%M %p");
    assert_eq!(time_format_at(1), "%e/%m/%Y %l:%M:%S %p");
    assert_eq!(time_format_at(2), "%e/%m/%Y %l:%M %P");
    assert_eq!(time_format_at(3), "%e/%m/%Y %l:%M:%S %P");
    assert_eq!(time_format_at(4), "%Y-%m-%d %H:%M:%S%.6f");
}

#[test]
fn a_timestamp_with_a_hint_is_read_under_the_first_pattern_that_matches() {
    assert_eq!(str_to_timestamp("3/7/2017 9:59", &Some(true), 0), Ok((at(9, 59), 0)));
    assert_eq!(str_to_timestamp("3/7/2017 9:59", &Some(false), 0), Ok((at(21, 59), 0)));
    assert_eq!(str_to_timestamp("3/7/2017 9:59:07", &Some(false), 0),
        Ok((FlowTimeStamp::new(DAY + 21 * 3600 + 59 * 60 + 7, 0), 1)));
    assert_eq!(str_to_timestamp("3/7/2017 12:05", &Some(true), 3), Ok((at(0, 5), 0)));
    assert_eq!(str_to_timestamp("3/7/2017 12:05", &Some(false), 1), Ok((at(12, 5), 0)));
}

#[test]
fn the_guess_is_tried_first() {
    let text = "3/7/2017 9:59";
    let first = str_to_timestamp(text, &Some(true), 0).unwrap();
    let guessed = str_to_timestamp(text, &Some(true), 2);
    assert!(guessed.is_ok());
    assert_eq!(guessed.unwrap().0, first.0);
    assert_eq!(str_to_timestamp(text, &Some(true), 99), Ok(first));
}

#[test]
fn a_timestamp_that_says_its_half_of_the_day_needs_no_hint() {
    assert_eq!(str_to_timestamp("3/7/2017 9:59 PM", &None, 0), Ok((at(21, 59), 0)));
    assert_eq!(
        str_to_timestamp("2017-07-03 21:59:59.123456", &None, 0),
        Ok((FlowTimeStamp::new(DAY + 21 * 3600 + 59 * 60 + 59, 123_456_000), 4))
    );
    assert_eq!(
        str_to_timestamp("2017-07-03 21:59:59.123456", &None, 4),
        Ok((FlowTimeStamp::new(DAY + 21 * 3600 + 59 * 60 + 59, 123_456_000), 4))
    );
}

#[test]
fn a_timestamp_that_matches_nothing_is_an_error() {
    assert_eq!(str_to_timestamp("3/7/2017 9:59", &None, 0), Err(TimestampError::MissingHint));
    assert_eq!(str_to_timestamp("yesterday", &None, 2), Err(TimestampError::MissingHint));
    assert_eq!(str_to_timestamp("yesterday", &Some(true), 0), Err(TimestampError::UnknownFormat));
    assert_eq!(str_to_timestamp("3/7/2017 13:59", &Some(false), 0), Err(TimestampError::UnknownFormat));
}

#[test]
fn the_correction_for_each_part_of_the_day() {
    for hour in 0..24 {
        assert_eq!(choose_correction(Morning, hour), Keep);
        assert_eq!(choose_correction(Noon, hour), if hour < 11 { Later } else { Keep });
        assert_eq!(choose_correction(Afternoon, hour), if hour == 12 { Earlier } else { Later });
        assert_eq!(
            choose_correction(Midnight, hour),
            if hour == 11 { Later } else if hour == 12 { Earlier } else { Keep }
        );
    }
    assert_eq!(next_period(Morning, 11, 11), Morning);
    assert_eq!(next_period(Morning, 12, 12), Noon);
    assert_eq!(next_period(Noon, 1, 13), Noon);
    assert_eq!(next_period(Noon, 2, 2), Afternoon);
    assert_eq!(next_period(Afternoon, 5, 17), Afternoon);
    assert_eq!(next_period(Afternoon, 12, 0), Midnight);
    assert_eq!(next_period(Midnight, 1, 1), Midnight);
    assert_eq!(next_period(Midnight, 2, 2), Morning);
}

#[test]
fn a_day_on_a_clock_of_twelve_hours() {
    let mut parser = bare(FuzzyTimePeriod::Morning);
    assert_eq!(parser.parse("3/7/2017 8:55"), Ok(at(8, 55)));
    assert_eq!(parser.time_period, FuzzyTimePeriod::Morning);
    assert_eq!(parser.parse("3/7/2017 11:59"), Ok(at(11, 59)));
    assert_eq!(parser.parse("3/7/2017 12:01"), Ok(at(12, 1)));
    assert_eq!(parser.time_period, FuzzyTimePeriod::Noon);
    assert_eq!(parser.parse("3/7/2017 12:30"), Ok(at(12, 30)));
    assert_eq!(parser.parse("3/7/2017 1:05"), Ok(at(13, 5)));
    assert_eq!(parser.parse("3/7/2017 2:05"), Ok(at(14, 5)));
    assert_eq!(parser.time_period, FuzzyTimePeriod::Noon);
}

#[test]
fn an_afternoon_on_a_clock_of_twelve_hours() {
    let mut parser = bare(FuzzyTimePeriod::Afternoon);
    assert_eq!(parser.parse("3/7/2017 1:05"), Ok(at(13, 5)));
    assert_eq!(parser.parse("3/7/2017 5:30"), Ok(at(17, 30)));
    assert_eq!(parser.parse("3/7/2017 11:59"), Ok(at(23, 59)));
    assert_eq!(parser.time_period, FuzzyTimePeriod::Afternoon);
    assert_eq!(parser.parse("3/7/2017 12:10"), Ok(at(0, 10)));
    assert_eq!(parser.time_period, FuzzyTimePeriod::Midnight);
    assert_eq!(parser.parse("3/7/2017 11:58"), Ok(at(23, 58)));
    assert_eq!(parser.parse("3/7/2017 12:20"), Ok(at(0, 20)));
    assert_eq!(parser.parse("3/7/2017 1:20"), Ok(at(1, 20)));
    assert_eq!(parser.time_period, FuzzyTimePeriod::Midnight);
    assert_eq!(parser.parse("3/7/2017 2:00"), Ok(at(2, 0)));
    assert_eq!(parser.time_period, FuzzyTimePeriod::Morning);
}

#[test]
fn the_same_start_and_the_same_times_give_the_same_times() {
    let read = vec![at(9, 0), at(12, 0), at(1, 0), at(11, 0), at(2, 0), at(12, 0), at(3, 0)];
    for seed in [
        FuzzyTimePeriod::Morning,
        FuzzyTimePeriod::Noon,
        FuzzyTimePeriod::Afternoon,
        FuzzyTimePeriod::Midnight,
    ] {
        let mut first = bare(seed);
        let mut second = bare(seed);
        let a = first.resolve_all(&read);
        let b = second.resolve_all(&read);
        assert_eq!(a, b);
        assert_eq!(first.time_period, second.time_period);
        let mut third = bare(seed);
        let one_by_one: Vec<Option<FlowTimeStamp>> =
            read.iter().map(|t| third.resolve(*t)).collect();
        assert_eq!(a, one_by_one);
    }
    let mut parser = bare(FuzzyTimePeriod::Morning);
    assert_eq!(
        parser.resolve_all(&read),
        vec![
            Some(at(9, 0)),
            Some(at(12, 0)),
            Some(at(13, 0)),
            Some(at(11, 0)),
            Some(at(14, 0)),
            Some(at(12, 0)),
            Some(at(15, 0)),
        ]
    );
    assert_eq!(parser.time_period, FuzzyTimePeriod::Noon);
}

#[test]
fn a_clock_of_24_hours_is_left_alone() {
    let mut parser = CICDdos2019Parser::new().timestamp_parser;
    assert!(!parser.is_twelve_hour_clock);
    assert_eq!(parser.timestamp_pattern, "%Y-%m-%d %H:%M:%S%.6f");
    assert_eq!(
        parser.parse("2017-07-03 12:00:01.000002"),
        Ok(FlowTimeStamp::new(DAY + 12 * 3600 + 1, 2_000))
    );
    assert_eq!(parser.time_period, FuzzyTimePeriod::Morning);
    assert_eq!(parser.resolve(at(12, 0)), Some(at(12, 0)));
    assert_eq!(parser.time_period, FuzzyTimePeriod::Morning);
    let other = CICDdos2019Parser::default().timestamp_parser;
    assert_eq!(other.timestamp_pattern, parser.timestamp_pattern);
}

#[test]
fn a_timestamp_that_cannot_be_read_or_moved_is_an_error() {
    let mut parser = bare(FuzzyTimePeriod::Afternoon);
    assert_eq!(parser.parse("2017-07-03 12:00"), Err(TimestampError::UnknownFormat));
    assert_eq!(parser.time_period, FuzzyTimePeriod::Afternoon);
    let last = chrono::NaiveDateTime::MAX.and_utc().timestamp();
    assert_eq!(parser.resolve(FlowTimeStamp::new(last, 0)), None);
    assert_eq!(parser.time_period, FuzzyTimePeriod::Afternoon);
    assert_eq!(parser.parse("31/12/+262142 13:30"), Err(TimestampError::OutOfRange));
    assert_eq!(parser.time_period, FuzzyTimePeriod::Afternoon);
}

#[test]
fn the_name_of_the_file_seeds_the_parser() {
    let period = |name: &str| CICIds2017Parser::infer_time_period(&name.to_string());
    assert_eq!(period("Monday-WorkingHours.pcap_ISCX.csv"), Morning);
    assert_eq!(period("Tuesday-WorkingHours.pcap_ISCX.csv"), Morning);
    assert_eq!(period("Wednesday-workingHours.pcap_ISCX.csv"), Morning);
    assert_eq!(period("Thursday-WorkingHours-Morning-WebAttacks.pcap_ISCX.csv"), Morning);
    assert_eq!(period("Thursday-WorkingHours-Afternoon-Infilteration.pcap_ISCX.csv"), Afternoon);
    assert_eq!(period("Friday-WorkingHours-Afternoon-DDos.pcap_ISCX.csv"), Afternoon);
    assert_eq!(period("Monday-Afternoon.csv"), Morning);
    assert_eq!(period("Afternoon-Morning.csv"), Morning);
    assert_eq!(period("data.csv"), Morning);
    assert!(CICIds2017Parser::has_standard_name(&"Friday-Afternoon.csv".to_string()));
    assert!(CICIds2017Parser::has_standard_name(&"Tuesday.csv".to_string()));
    assert!(!CICIds2017Parser::has_standard_name(&"data.csv".to_string()));
    let pattern = |name: &str| CICIds2017Parser::infer_timestamp_pattern(&name.to_string());
    assert_eq!(pattern("Monday-WorkingHours.pcap_ISCX.csv"), "%d/%m/%Y %H:%M:%S");
    assert_eq!(pattern("Tuesday-WorkingHours.pcap_ISCX.csv"), "%e/%m/%Y %k:%M");
    assert_eq!(pattern("a-Monday.csv"), "%e/%m/%Y %k:%M");
}

#[test]
fn the_parser_is_seeded_by_the_last_part_of_the_path() {
    let parser = CICIds2017Parser::new(&"Friday-Afternoon/Monday-WorkingHours.csv".to_string())
        .unwrap()
        .timestamp_parser;
    assert!(parser.is_twelve_hour_clock);
    assert_eq!(parser.time_period, FuzzyTimePeriod::Morning);
    assert_eq!(parser.timestamp_pattern, "%d/%m/%Y %H:%M:%S");
    let parser = CICIds2017Parser::new(&"Monday/Friday-WorkingHours-Afternoon-DDos.csv".to_string())
        .unwrap()
        .timestamp_parser;
    assert_eq!(parser.time_period, FuzzyTimePeriod::Afternoon);
    assert_eq!(parser.timestamp_pattern, "%e/%m/%Y %k:%M");
    assert!(CICIds2017Parser::new(&"..".to_string()).is_none());
    assert!(CICIds2017Parser::new(&"".to_string()).is_none());
    let named = CICIds2017Parser::from_file_name(&"Wednesday.csv".to_string()).timestamp_parser;
    assert_eq!(named.time_period, FuzzyTimePeriod::Morning);
}
